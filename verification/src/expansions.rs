//! The expansion table: named placeholders and their replacement text.
//!
//! A table is an ordered list of bindings; lookup takes the last binding of a
//! key, which is what inserting the entries into a map in order would leave.
//! Merging a global table with alias-local entries appends the local entries,
//! so a local binding overrides a global one of the same key.

use vstd::prelude::*;

verus! {

/// One placeholder definition: an argument `@key` is replaced by the tokens
/// of `value`.
#[derive(Debug)]
pub struct Expansion {
    pub key: String,
    pub value: String,
}

/// The key/value views of a table of expansions.
pub open spec fn table_views(t: Seq<Expansion>) -> Seq<(Seq<char>, Seq<char>)> {
    t.map_values(|e: Expansion| (e.key@, e.value@))
}

/// The replacement bound to `key` in `t`, the last binding winning.
pub open spec fn table_get(t: Seq<(Seq<char>, Seq<char>)>, key: Seq<char>) -> Option<Seq<char>>
    decreases t.len(),
{
    if t.len() == 0 {
        None
    } else if t.last().0 == key {
        Some(t.last().1)
    } else {
        table_get(t.drop_last(), key)
    }
}

/// Looks `key` up in `table` under last-binding-wins semantics.
pub fn lookup_expansion(table: &[Expansion], key: &str) -> (r: Option<String>)
    ensures
        match r {
            Some(v) => table_get(table_views(table@), key@) == Some(v@),
            None => table_get(table_views(table@), key@) is None,
        },
{
    let wanted = key.to_owned();
    let mut j = table.len();
    proof {
        assert(table_views(table@).take(j as int) =~= table_views(table@));
    }
    while j > 0
        invariant
            j <= table@.len(),
            wanted@ == key@,
            table_get(table_views(table@), key@) == table_get(
                table_views(table@).take(j as int),
                key@,
            ),
        decreases j,
    {
        j = j - 1;
        proof {
            assert(table_views(table@).take(j + 1).drop_last() =~= table_views(table@).take(
                j as int,
            ));
            assert(table_views(table@).take(j + 1).last() == table_views(table@)[j as int]);
        }
        if table[j].key == wanted {
            return Some(table[j].value.clone());
        }
    }
    proof {
        assert(table_views(table@).take(0) =~= Seq::<(Seq<char>, Seq<char>)>::empty());
    }
    None
}

/// Appends `locals` after `globals`: under last-binding-wins lookup the local
/// entries take precedence, as `lemma_merge_precedence` states.
pub fn merge_expansions(globals: &[Expansion], locals: &[Expansion]) -> (r: Vec<Expansion>)
    ensures
        table_views(r@) == table_views(globals@) + table_views(locals@),
{
    let mut r: Vec<Expansion> = Vec::new();
    let mut i: usize = 0;
    while i < globals.len()
        invariant
            i <= globals@.len(),
            table_views(r@) == table_views(globals@.take(i as int)),
        decreases globals@.len() - i,
    {
        let ghost prev = r@;
        r.push(Expansion { key: globals[i].key.clone(), value: globals[i].value.clone() });
        proof {
            assert(table_views(r@) =~= table_views(prev).push(
                (globals@[i as int].key@, globals@[i as int].value@),
            ));
            assert(table_views(globals@.take(i + 1)) =~= table_views(globals@.take(i as int)).push(
                (globals@[i as int].key@, globals@[i as int].value@),
            ));
        }
        i = i + 1;
    }
    proof {
        assert(globals@.take(globals@.len() as int) =~= globals@);
    }
    let mut k: usize = 0;
    while k < locals.len()
        invariant
            k <= locals@.len(),
            table_views(r@) == table_views(globals@) + table_views(locals@.take(k as int)),
        decreases locals@.len() - k,
    {
        let ghost prev = r@;
        r.push(Expansion { key: locals[k].key.clone(), value: locals[k].value.clone() });
        proof {
            assert(table_views(r@) =~= table_views(prev).push(
                (locals@[k as int].key@, locals@[k as int].value@),
            ));
            assert(table_views(locals@.take(k + 1)) =~= table_views(locals@.take(k as int)).push(
                (locals@[k as int].key@, locals@[k as int].value@),
            ));
            assert(table_views(globals@) + table_views(locals@.take(k + 1)) =~= (table_views(
                globals@,
            ) + table_views(locals@.take(k as int))).push(
                (locals@[k as int].key@, locals@[k as int].value@),
            ));
        }
        k = k + 1;
    }
    proof {
        assert(locals@.take(locals@.len() as int) =~= locals@);
        assert(table_views(Seq::<Expansion>::empty()) =~= Seq::<(Seq<char>, Seq<char>)>::empty());
    }
    r
}

/// Merging resolves a key to its alias-local binding when one exists, and to
/// its global binding otherwise.
pub proof fn lemma_merge_precedence(
    g: Seq<(Seq<char>, Seq<char>)>,
    l: Seq<(Seq<char>, Seq<char>)>,
    key: Seq<char>,
)
    ensures
        table_get(l, key) is Some ==> table_get(g + l, key) == table_get(l, key),
        table_get(l, key) is None ==> table_get(g + l, key) == table_get(g, key),
    decreases l.len(),
{
    if l.len() == 0 {
        assert(g + l =~= g);
    } else {
        assert((g + l).drop_last() =~= g + l.drop_last());
        assert((g + l).last() == l.last());
        lemma_merge_precedence(g, l.drop_last(), key);
    }
}

} // verus!
