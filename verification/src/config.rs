//! The data model: a configuration of named aliases, each with an optional
//! direct execution, optional sub-aliases and optional local expansions.

use vstd::prelude::*;
use crate::expansions::Expansion;
use crate::expansions::merge_expansions;
use crate::expansions::table_views;
use crate::sequencer::ExecutionRun;
use crate::sequencer::Outcome;
use crate::sequencer::RunMode;
use crate::sequencer::mode_of;
use crate::sequencer::planned_commands;
use crate::sequencer::commands_views;
use crate::tokenizer::str_views;
use crate::EpithetError;

verus! {

/// What an alias runs: a single command template, an ordered chain that stops
/// at the first failure, an ordered chain that stops at the first success, or
/// a pipeline, whose semantics are deliberately left undefined.
#[derive(Debug)]
pub enum Execution {
    Command(String),
    And(Vec<String>),
    Or(Vec<String>),
    Pipeline(Vec<String>),
}

/// A named alternative inside an alias, reachable when the first remaining
/// argument equals its name.
#[derive(Debug)]
pub struct SubAlias {
    pub name: String,
    pub execution: Execution,
}

/// A named entry of the configuration: at most one direct execution, plus
/// optional sub-aliases and optional local expansions.
#[derive(Debug)]
pub struct Alias {
    pub command: Option<Execution>,
    pub sub_aliases: Option<Vec<SubAlias>>,
    pub expansions: Option<Vec<Expansion>>,
}

/// The whole loaded configuration: global expansions and the aliases, keyed
/// by name. Alias names are expected to be unique; lookup takes the first
/// entry of a name, so a duplicate later entry is never reached.
#[derive(Debug)]
pub struct EpithetConfig {
    pub global_expansions: Option<Vec<Expansion>>,
    pub aliases: Option<Vec<(String, Alias)>>,
}

/// `items` joined with `sep` between consecutive items.
pub open spec fn join_spec(items: Seq<Seq<char>>, sep: Seq<char>) -> Seq<char>
    decreases items.len(),
{
    if items.len() == 0 {
        seq![]
    } else if items.len() == 1 {
        items[0]
    } else {
        join_spec(items.drop_last(), sep) + sep + items.last()
    }
}

/// An execution as a single display line: its templates joined with the
/// chain's operator.
pub open spec fn render_spec(e: Execution) -> Seq<char> {
    match e {
        Execution::Command(c) => c@,
        Execution::And(items) => join_spec(str_views(items@), " && "@),
        Execution::Or(items) => join_spec(str_views(items@), " || "@),
        Execution::Pipeline(items) => join_spec(str_views(items@), " | "@),
    }
}

fn join_strings(items: &Vec<String>, sep: &str) -> (r: String)
    ensures
        r@ == join_spec(str_views(items@), sep@),
{
    let mut r = String::new();
    let mut i: usize = 0;
    proof {
        assert(str_views(items@).take(0) =~= Seq::<Seq<char>>::empty());
        assert(r@ =~= join_spec(str_views(items@).take(0), sep@));
    }
    while i < items.len()
        invariant
            i <= items@.len(),
            r@ == join_spec(str_views(items@).take(i as int), sep@),
        decreases items@.len() - i,
    {
        let ghost pre = r@;
        proof {
            assert(str_views(items@).take(i + 1).drop_last() =~= str_views(items@).take(i as int));
            assert(str_views(items@).take(i + 1).last() == items@[i as int]@);
        }
        if i > 0 {
            r.append(sep);
        }
        r.append(items[i].as_str());
        proof {
            if i == 0 {
                assert(r@ =~= join_spec(str_views(items@).take(1), sep@));
            } else {
                assert(r@ =~= join_spec(str_views(items@).take(i as int), sep@) + sep@
                    + items@[i as int]@);
            }
        }
        i = i + 1;
    }
    proof {
        assert(str_views(items@).take(items@.len() as int) =~= str_views(items@));
    }
    r
}

impl Execution {
    /// This execution as one display line, for inspection without running
    /// anything.
    pub fn render(&self) -> (r: String)
        ensures
            r@ == render_spec(*self),
    {
        match self {
            Execution::Command(c) => c.clone(),
            Execution::And(items) => join_strings(items, " && "),
            Execution::Or(items) => join_strings(items, " || "),
            Execution::Pipeline(items) => join_strings(items, " | "),
        }
    }
}

/// The sub-aliases of an alias; an absent list is an empty one.
pub open spec fn sub_aliases_of(a: Alias) -> Seq<SubAlias> {
    match a.sub_aliases {
        Some(v) => v@,
        None => seq![],
    }
}

/// The alias-local expansions; an absent list is an empty one.
pub open spec fn local_table(a: Alias) -> Seq<Expansion> {
    match a.expansions {
        Some(v) => v@,
        None => seq![],
    }
}

/// The first sub-alias of `subs` whose name is `name`.
pub open spec fn find_sub(subs: Seq<SubAlias>, name: Seq<char>) -> Option<SubAlias>
    decreases subs.len(),
{
    if subs.len() == 0 {
        None
    } else if subs.first().name@ == name {
        Some(subs.first())
    } else {
        find_sub(subs.drop_first(), name)
    }
}

/// The execution an alias falls back to when no sub-alias matches: its
/// direct command, with the arguments unconsumed.
pub open spec fn direct_dispatch(a: Alias, args: Seq<String>) -> (Option<Execution>, Seq<String>) {
    match a.command {
        Some(c) => (Some(c), args),
        None => (None, args),
    }
}

/// One level of sub-alias dispatch: when the first argument names a
/// sub-alias, its execution runs on the remaining arguments; otherwise the
/// alias's direct command, if any, runs on all of them.
pub open spec fn dispatch(a: Alias, args: Seq<String>) -> (Option<Execution>, Seq<String>) {
    if args.len() > 0 {
        match find_sub(sub_aliases_of(a), args.first()@) {
            Some(sa) => (Some(sa.execution), args.drop_first()),
            None => direct_dispatch(a, args),
        }
    } else {
        direct_dispatch(a, args)
    }
}

/// The display line `lookup` reports for an alias: the dispatched
/// execution, rendered; nothing when the alias resolves to a no-op.
pub open spec fn lookup_spec(a: Alias, args: Seq<String>) -> Option<Seq<char>> {
    match dispatch(a, args).0 {
        Some(e) => Some(render_spec(e)),
        None => None,
    }
}

/// What planning the dispatched execution must leave in `r`: a pipeline is
/// refused, no execution at all is an immediately successful empty run, and
/// any other execution becomes a machine holding its expanded commands,
/// standing at the first of them.
pub open spec fn prepared_run(
    r: Result<ExecutionRun, EpithetError>,
    exec_opt: Option<Execution>,
    args: Seq<Seq<char>>,
    table: Seq<(Seq<char>, Seq<char>)>,
) -> bool {
    match exec_opt {
        Some(e) => match r {
            Ok(run) => {
                &&& !(e matches Execution::Pipeline(_))
                &&& run.wf()
                &&& run.mode == mode_of(e)
                &&& commands_views(run.commands@) == planned_commands(e, args, table)
                &&& run.next == 0
                &&& run.outcome == (if planned_commands(e, args, table).len() == 0 {
                    Some(Outcome::Success)
                } else {
                    None::<Outcome>
                })
            },
            Err(err) => e matches Execution::Pipeline(_) && err
                == EpithetError::PipelineUnsupported,
        },
        None => match r {
            Ok(run) => run.commands@.len() == 0 && run.next == 0 && run.outcome == Some(
                Outcome::Success,
            ),
            Err(_) => false,
        },
    }
}

fn find_sub_alias<'a>(subs: &'a Vec<SubAlias>, name: &String) -> (r: Option<&'a SubAlias>)
    ensures
        match r {
            Some(sa) => find_sub(subs@, name@) == Some(*sa),
            None => find_sub(subs@, name@) is None,
        },
{
    let mut i: usize = 0;
    proof {
        assert(subs@.skip(0) =~= subs@);
    }
    while i < subs.len()
        invariant
            i <= subs@.len(),
            find_sub(subs@, name@) == find_sub(subs@.skip(i as int), name@),
        decreases subs@.len() - i,
    {
        proof {
            assert(subs@.skip(i as int).first() == subs@[i as int]);
            assert(subs@.skip(i as int).drop_first() =~= subs@.skip(i + 1));
        }
        if subs[i].name == *name {
            return Some(&subs[i]);
        }
        i = i + 1;
    }
    proof {
        assert(subs@.skip(subs@.len() as int) =~= Seq::<SubAlias>::empty());
    }
    None
}

impl Alias {
    /// The merged expansion table of one invocation of this alias: the
    /// global table with the alias-local entries appended, so that local
    /// keys take precedence.
    pub fn get_expansions(&self, global_expansions: &[Expansion]) -> (r: Vec<Expansion>)
        ensures
            table_views(r@) == table_views(global_expansions@) + table_views(local_table(*self)),
    {
        match &self.expansions {
            Some(locals) => merge_expansions(global_expansions, locals.as_slice()),
            None => {
                let empty: Vec<Expansion> = Vec::new();
                let r = merge_expansions(global_expansions, empty.as_slice());
                proof {
                    assert(table_views(Seq::<Expansion>::empty())
                        =~= Seq::<(Seq<char>, Seq<char>)>::empty());
                    assert(table_views(r@) =~= table_views(global_expansions@) + table_views(
                        local_table(*self),
                    ));
                }
                r
            },
        }
    }

    /// The display line this alias resolves to for `args`: the dispatched
    /// execution, rendered; `None` when the alias resolves to a no-op.
    pub fn lookup(&self, args: &[String]) -> (r: Option<String>)
        ensures
            match r {
                Some(s) => lookup_spec(*self, args@) == Some(s@),
                None => lookup_spec(*self, args@) is None,
            },
    {
        if args.len() > 0 {
            if let Some(subs) = &self.sub_aliases {
                match find_sub_alias(subs, &args[0]) {
                    Some(sa) => {
                        return Some(sa.execution.render());
                    },
                    None => {},
                }
            }
        }
        match &self.command {
            Some(c) => Some(c.render()),
            None => None,
        }
    }

    /// Resolves one level of sub-alias dispatch and plans the dispatched
    /// execution against this alias's merged expansion table.
    pub fn execute(&self, args: &[String], global_expansions: &[Expansion]) -> (r: Result<
        ExecutionRun,
        EpithetError,
    >)
        ensures
            prepared_run(
                r,
                dispatch(*self, args@).0,
                str_views(dispatch(*self, args@).1),
                table_views(global_expansions@) + table_views(local_table(*self)),
            ),
    {
        let merged = self.get_expansions(global_expansions);
        if args.len() > 0 {
            if let Some(subs) = &self.sub_aliases {
                match find_sub_alias(subs, &args[0]) {
                    Some(sa) => {
                        let rest = &args[1..args.len()];
                        proof {
                            assert(rest@ =~= args@.drop_first());
                        }
                        return sa.execution.prepare(rest, merged.as_slice());
                    },
                    None => {},
                }
            }
        }
        match &self.command {
            Some(c) => c.prepare(args, merged.as_slice()),
            None => Ok(
                ExecutionRun {
                    mode: RunMode::StopOnFailure,
                    commands: Vec::new(),
                    next: 0,
                    outcome: Some(Outcome::Success),
                },
            ),
        }
    }
}

/// The alias entries of a configuration; an absent table is an empty one.
pub open spec fn aliases_of(c: EpithetConfig) -> Seq<(String, Alias)> {
    match c.aliases {
        Some(v) => v@,
        None => seq![],
    }
}

/// The global expansions of a configuration; an absent table is an empty
/// one.
pub open spec fn globals_of(c: EpithetConfig) -> Seq<Expansion> {
    match c.global_expansions {
        Some(v) => v@,
        None => seq![],
    }
}

/// The alias of the first entry named `name`.
pub open spec fn find_alias_spec(entries: Seq<(String, Alias)>, name: Seq<char>) -> Option<Alias>
    decreases entries.len(),
{
    if entries.len() == 0 {
        None
    } else if entries.first().0@ == name {
        Some(entries.first().1)
    } else {
        find_alias_spec(entries.drop_first(), name)
    }
}

impl EpithetConfig {
    fn find_alias<'a>(&'a self, alias: &str) -> (r: Option<&'a Alias>)
        ensures
            match r {
                Some(a) => find_alias_spec(aliases_of(*self), alias@) == Some(*a),
                None => find_alias_spec(aliases_of(*self), alias@) is None,
            },
    {
        let wanted = alias.to_owned();
        match &self.aliases {
            Some(entries) => {
                proof {
                    assert(aliases_of(*self) == entries@);
                    assert(entries@.skip(0) =~= entries@);
                }
                let mut i: usize = 0;
                while i < entries.len()
                    invariant
                        i <= entries@.len(),
                        wanted@ == alias@,
                        aliases_of(*self) == entries@,
                        find_alias_spec(entries@, alias@) == find_alias_spec(
                            entries@.skip(i as int),
                            alias@,
                        ),
                    decreases entries@.len() - i,
                {
                    proof {
                        assert(entries@.skip(i as int).first() == entries@[i as int]);
                        assert(entries@.skip(i as int).drop_first() =~= entries@.skip(i + 1));
                    }
                    if entries[i].0 == wanted {
                        return Some(&entries[i].1);
                    }
                    i = i + 1;
                }
                proof {
                    assert(entries@.skip(entries@.len() as int)
                        =~= Seq::<(String, Alias)>::empty());
                }
                None
            },
            None => None,
        }
    }

    /// The display line the named alias resolves to for `args`, without
    /// expanding or running anything; `None` when the alias does not exist
    /// or resolves to a no-op.
    pub fn lookup_alias(&self, alias: &str, args: &[String]) -> (r: Option<String>)
        ensures
            match find_alias_spec(aliases_of(*self), alias@) {
                Some(a) => match r {
                    Some(s) => lookup_spec(a, args@) == Some(s@),
                    None => lookup_spec(a, args@) is None,
                },
                None => r is None,
            },
    {
        match self.find_alias(alias) {
            Some(a) => a.lookup(args),
            None => None,
        }
    }

    /// Resolves the named alias and plans its dispatched execution. An
    /// unknown alias name is the one source of `AliasNotFound`; nothing is
    /// planned, let alone invoked, for it.
    pub fn execute(&self, alias: &str, args: &[String]) -> (r: Result<ExecutionRun, EpithetError>)
        ensures
            match find_alias_spec(aliases_of(*self), alias@) {
                Some(a) => prepared_run(
                    r,
                    dispatch(a, args@).0,
                    str_views(dispatch(a, args@).1),
                    table_views(globals_of(*self)) + table_views(local_table(a)),
                ),
                None => r == Err::<ExecutionRun, EpithetError>(EpithetError::AliasNotFound),
            },
    {
        let empty: Vec<Expansion> = Vec::new();
        match self.find_alias(alias) {
            Some(a) => {
                let globals = match &self.global_expansions {
                    Some(g) => g.as_slice(),
                    None => empty.as_slice(),
                };
                proof {
                    assert(table_views(Seq::<Expansion>::empty())
                        =~= Seq::<(Seq<char>, Seq<char>)>::empty());
                }
                a.execute(args, globals)
            },
            None => Err(EpithetError::AliasNotFound),
        }
    }
}

} // verus!
