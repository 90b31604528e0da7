//! The substitution engine: expands a command template against a caller's
//! argument list and an expansion table.
//!
//! Substitution has two phases. First every argument of the form `@key` whose
//! key is bound in the table is replaced by the tokens of its value; other
//! arguments pass through as single tokens. Second the template is tokenized
//! and every token of the exact shape `{N}`, with `N` a decimal index valid
//! into the caller's raw argument list, is replaced by the `N`th resolved
//! token and marks that token consumed; the resolved tokens never consumed
//! are appended, in order, after the template's tokens.

use vstd::prelude::*;
use crate::config::Execution;
use crate::expansions::Expansion;
use crate::expansions::lookup_expansion;
use crate::expansions::table_get;
use crate::expansions::table_views;
use crate::tokenizer::str_views;
use crate::tokenizer::tokenize_spec;
use crate::tokenize_string;

verus! {

/// One more than the largest value a machine word can hold; the accumulator
/// of `parse_placeholder` saturates here.
pub const INDEX_CLAMP: u128 = 0x1_0000_0000_0000_0000;

/// What one argument contributes after the pre-pass: the tokens of its bound
/// value when it is `@key` with `key` in the table, itself alone otherwise.
pub open spec fn resolve_arg(arg: Seq<char>, t: Seq<(Seq<char>, Seq<char>)>) -> Seq<Seq<char>> {
    if arg.len() > 0 && arg.first() == '@' {
        match table_get(t, arg.drop_first()) {
            Some(v) => tokenize_spec(v),
            None => seq![arg],
        }
    } else {
        seq![arg]
    }
}

/// The whole argument pre-pass: each argument's contribution, concatenated.
pub open spec fn resolve_args(args: Seq<Seq<char>>, t: Seq<(Seq<char>, Seq<char>)>) -> Seq<
    Seq<char>,
>
    decreases args.len(),
{
    if args.len() == 0 {
        seq![]
    } else {
        resolve_args(args.drop_last(), t) + resolve_arg(args.last(), t)
    }
}

pub open spec fn is_digit_char(c: char) -> bool {
    48 <= (c as u32) && (c as u32) <= 57
}

pub open spec fn all_digits(s: Seq<char>) -> bool {
    forall|i: int| 0 <= i < s.len() ==> is_digit_char(s[i])
}

/// The value of a sequence of decimal digits (most significant first).
pub open spec fn digits_val(s: Seq<char>) -> int
    decreases s.len(),
{
    if s.len() == 0 {
        0
    } else {
        digits_val(s.drop_last()) * 10 + ((s.last() as u32) - 48)
    }
}

/// `v`, saturated at `INDEX_CLAMP`.
pub open spec fn clamped(v: int) -> int {
    if v >= INDEX_CLAMP { INDEX_CLAMP as int } else { v }
}

/// The index named by a token of the exact shape `{N}`, `N` a non-empty run
/// of decimal digits; `None` for a token of any other shape.
pub open spec fn placeholder_index(tok: Seq<char>) -> Option<int> {
    if tok.len() >= 3 && tok.first() == '{' && tok.last() == '}' && all_digits(
        tok.subrange(1, tok.len() - 1),
    ) {
        Some(digits_val(tok.subrange(1, tok.len() - 1)))
    } else {
        None
    }
}

/// The index a template token substitutes, if any: its placeholder index,
/// valid against both the raw argument count and the resolved token list.
pub open spec fn subst_index(tok: Seq<char>, raw_len: int, resolved_len: int) -> Option<int> {
    match placeholder_index(tok) {
        Some(n) => if n < raw_len && n < resolved_len {
            Some(n)
        } else {
            None
        },
        None => None,
    }
}

/// Whether some template token substitutes (and so consumes) resolved
/// token `n`.
pub open spec fn consumed_index(
    tt: Seq<Seq<char>>,
    raw_len: int,
    resolved_len: int,
    n: int,
) -> bool {
    exists|j: int|
        0 <= j < tt.len() && #[trigger] subst_index(tt[j], raw_len, resolved_len) == Some(n)
}

/// The template tokens after substitution, in place.
pub open spec fn substituted_tokens(
    tt: Seq<Seq<char>>,
    resolved: Seq<Seq<char>>,
    raw_len: int,
) -> Seq<Seq<char>> {
    tt.map(
        |j: int, tok: Seq<char>|
            match subst_index(tok, raw_len, resolved.len() as int) {
                Some(n) => resolved[n],
                None => tok,
            },
    )
}

/// The first `k` resolved tokens that no template token consumed, in order.
pub open spec fn leftover_prefix(
    resolved: Seq<Seq<char>>,
    tt: Seq<Seq<char>>,
    raw_len: int,
    k: int,
) -> Seq<Seq<char>>
    decreases k,
{
    if k <= 0 {
        seq![]
    } else if consumed_index(tt, raw_len, resolved.len() as int, k - 1) {
        leftover_prefix(resolved, tt, raw_len, k - 1)
    } else {
        leftover_prefix(resolved, tt, raw_len, k - 1).push(resolved[k - 1])
    }
}

/// The template pass over already-tokenized input: substituted template
/// tokens, then the unconsumed resolved tokens.
pub open spec fn expand_template(
    tt: Seq<Seq<char>>,
    resolved: Seq<Seq<char>>,
    raw_len: int,
) -> Seq<Seq<char>> {
    substituted_tokens(tt, resolved, raw_len) + leftover_prefix(
        resolved,
        tt,
        raw_len,
        resolved.len() as int,
    )
}

/// Both phases of substitution: the final token list run for `template`
/// under caller arguments `args` and expansion table `t`.
pub open spec fn expand_spec(
    template: Seq<char>,
    args: Seq<Seq<char>>,
    t: Seq<(Seq<char>, Seq<char>)>,
) -> Seq<Seq<char>> {
    expand_template(tokenize_spec(template), resolve_args(args, t), args.len() as int)
}

/// Parses a `{N}` placeholder token and accepts its index when it is below
/// `limit`; every other token, and every index at or above `limit`, is
/// refused.
pub fn parse_placeholder(tok: &str, limit: usize) -> (r: Option<usize>)
    ensures
        match placeholder_index(tok@) {
            Some(n) => (if n < limit {
                r == Some(n as usize)
            } else {
                r is None
            }),
            None => r is None,
        },
        r matches Some(p) ==> placeholder_index(tok@) == Some(p as int),
{
    let n = tok.unicode_len();
    if n < 3 {
        return None;
    }
    if tok.get_char(0) != '{' || tok.get_char(n - 1) != '}' {
        return None;
    }
    let ghost body = tok@.subrange(1, n as int - 1);
    let mut acc: u128 = 0;
    let mut i: usize = 1;
    while i < n - 1
        invariant
            1 <= i <= n - 1,
            n == tok@.len(),
            3 <= n,
            all_digits(tok@.subrange(1, n as int - 1).take(i - 1)),
            acc == clamped(digits_val(tok@.subrange(1, n as int - 1).take(i - 1))),
            0 <= acc <= INDEX_CLAMP,
        decreases n - 1 - i,
    {
        let ghost prefix = tok@.subrange(1, n as int - 1).take(i - 1);
        let c = tok.get_char(i);
        let d = c as u32;
        proof {
            assert(tok@.subrange(1, n as int - 1)[i - 1] == tok@[i as int]);
            assert(tok@.subrange(1, n as int - 1).take(i as int).drop_last() =~= prefix);
            assert(tok@.subrange(1, n as int - 1).take(i as int).last() == tok@[i as int]);
        }
        if d < 48 || d > 57 {
            proof {
                assert(!is_digit_char(tok@.subrange(1, n as int - 1)[i - 1]));
            }
            return None;
        }
        acc = acc * 10 + ((d - 48) as u128);
        if acc > INDEX_CLAMP {
            acc = INDEX_CLAMP;
        }
        i = i + 1;
    }
    proof {
        assert(tok@.subrange(1, n as int - 1).take(n - 2) =~= body);
        assert(placeholder_index(tok@) == Some(digits_val(body)));
        assert((limit as u128) < INDEX_CLAMP);
    }
    if acc < limit as u128 {
        Some(acc as usize)
    } else {
        None
    }
}

/// The argument pre-pass: `@key` arguments with a bound key are replaced by
/// the tokens of their value; all other arguments pass through unchanged.
pub fn resolve_arguments(arguments: &[String], expansions: &[Expansion]) -> (r: Vec<String>)
    ensures
        str_views(r@) == resolve_args(str_views(arguments@), table_views(expansions@)),
{
    let ghost t = table_views(expansions@);
    let mut r: Vec<String> = Vec::new();
    let mut i: usize = 0;
    while i < arguments.len()
        invariant
            i <= arguments@.len(),
            str_views(r@) == resolve_args(str_views(arguments@).take(i as int), t),
            t == table_views(expansions@),
        decreases arguments@.len() - i,
    {
        let ghost pre = str_views(r@);
        let ghost argv = arguments@[i as int]@;
        proof {
            assert(str_views(arguments@).take(i + 1).drop_last() =~= str_views(arguments@).take(
                i as int,
            ));
            assert(str_views(arguments@).take(i + 1).last() == argv);
        }
        let astr = arguments[i].as_str();
        let alen = astr.unicode_len();
        if alen > 0 && astr.get_char(0) == '@' {
            let key = astr.substring_char(1, alen);
            proof {
                assert(key@ =~= argv.drop_first());
            }
            match lookup_expansion(expansions, key) {
                Some(value) => {
                    let mut toks = tokenize_string(value.as_str());
                    proof {
                        assert(resolve_arg(argv, t) == tokenize_spec(value@));
                    }
                    let ghost tokv = toks@;
                    r.append(&mut toks);
                    proof {
                        assert(str_views(r@) =~= pre + str_views(tokv));
                    }
                },
                None => {
                    r.push(arguments[i].clone());
                    proof {
                        assert(resolve_arg(argv, t) =~= seq![argv]);
                        assert(str_views(r@) =~= pre + seq![argv]);
                    }
                },
            }
        } else {
            r.push(arguments[i].clone());
            proof {
                assert(resolve_arg(argv, t) =~= seq![argv]);
                assert(str_views(r@) =~= pre + seq![argv]);
            }
        }
        i = i + 1;
    }
    proof {
        assert(str_views(arguments@).take(arguments@.len() as int) =~= str_views(arguments@));
    }
    r
}

impl Execution {
    /// The template pass: substitutes `{N}` placeholders in `command` from
    /// `arguments` (indices also checked against the caller's raw argument
    /// count `raw_len`) and appends the unconsumed arguments.
    pub fn expand_command(
        &self,
        command: &str,
        arguments: &[String],
        raw_len: usize,
    ) -> (r: Vec<String>)
        ensures
            str_views(r@) == expand_template(
                tokenize_spec(command@),
                str_views(arguments@),
                raw_len as int,
            ),
    {
        let ghost tt = tokenize_spec(command@);
        let ghost ra = str_views(arguments@);
        let command_tokens = tokenize_string(command);
        let limit = if raw_len < arguments.len() {
            raw_len
        } else {
            arguments.len()
        };
        let mut consumed: Vec<bool> = Vec::new();
        let mut c: usize = 0;
        while c < arguments.len()
            invariant
                consumed@.len() == c,
                c <= arguments@.len(),
                forall|k: int| 0 <= k < c ==> !consumed@[k],
            decreases arguments@.len() - c,
        {
            consumed.push(false);
            c = c + 1;
        }
        let mut out: Vec<String> = Vec::new();
        let mut j: usize = 0;
        while j < command_tokens.len()
            invariant
                j <= command_tokens@.len(),
                str_views(command_tokens@) == tt,
                ra == str_views(arguments@),
                consumed@.len() == ra.len(),
                arguments@.len() == ra.len(),
                limit == if raw_len < ra.len() {
                    raw_len as int
                } else {
                    ra.len() as int
                },
                str_views(out@) == substituted_tokens(tt.take(j as int), ra, raw_len as int),
                forall|k: int|
                    0 <= k < ra.len() ==> consumed@[k] == consumed_index(
                        tt.take(j as int),
                        raw_len as int,
                        ra.len() as int,
                        k,
                    ),
            decreases command_tokens@.len() - j,
        {
            let ghost pre_out = str_views(out@);
            let ghost pre_consumed = consumed@;
            proof {
                assert(tt[j as int] == command_tokens@[j as int]@);
            }
            match parse_placeholder(command_tokens[j].as_str(), limit) {
                Some(p) => {
                    proof {
                        assert(subst_index(tt[j as int], raw_len as int, ra.len() as int)
                            == Some(p as int));
                    }
                    out.push(arguments[p].clone());
                    consumed.set(p, true);
                    proof {
                        assert(str_views(out@) =~= pre_out.push(ra[p as int]));
                        assert(consumed@ =~= pre_consumed.update(p as int, true));
                        assert(tt.take(j + 1) =~= tt.take(j as int).push(tt[j as int]));
                        assert(subst_index(
                            tt.take(j + 1)[j as int],
                            raw_len as int,
                            ra.len() as int,
                        ) == Some(p as int));
                    }
                },
                None => {
                    proof {
                        assert(subst_index(tt[j as int], raw_len as int, ra.len() as int)
                            is None);
                    }
                    out.push(command_tokens[j].clone());
                    proof {
                        assert(str_views(out@) =~= pre_out.push(tt[j as int]));
                    }
                },
            }
            proof {
                assert(str_views(out@) =~= substituted_tokens(
                    tt.take(j + 1),
                    ra,
                    raw_len as int,
                )) by {
                    assert(tt.take(j + 1).len() == j + 1);
                    assert(forall|m: int|
                        0 <= m < j + 1 ==> tt.take(j + 1)[m] == tt.take(j as int).push(
                            tt[j as int],
                        )[m]);
                    assert(tt.take(j + 1) =~= tt.take(j as int).push(tt[j as int]));
                }
                assert forall|k: int| 0 <= k < ra.len() implies consumed@[k] == consumed_index(
                    tt.take(j + 1),
                    raw_len as int,
                    ra.len() as int,
                    k,
                ) by {
                    assert(tt.take(j + 1) =~= tt.take(j as int).push(tt[j as int]));
                    if consumed_index(tt.take(j + 1), raw_len as int, ra.len() as int, k) {
                        let w = choose|w: int|
                            0 <= w < j + 1 && #[trigger] subst_index(
                                tt.take(j + 1)[w],
                                raw_len as int,
                                ra.len() as int,
                            ) == Some(k);
                        if w < j {
                            assert(tt.take(j + 1)[w] == tt.take(j as int)[w]);
                            assert(consumed_index(
                                tt.take(j as int),
                                raw_len as int,
                                ra.len() as int,
                                k,
                            ));
                        }
                    }
                    if consumed_index(tt.take(j as int), raw_len as int, ra.len() as int, k) {
                        let w = choose|w: int|
                            0 <= w < j && #[trigger] subst_index(
                                tt.take(j as int)[w],
                                raw_len as int,
                                ra.len() as int,
                            ) == Some(k);
                        assert(tt.take(j + 1)[w] == tt.take(j as int)[w]);
                        assert(consumed_index(
                            tt.take(j + 1),
                            raw_len as int,
                            ra.len() as int,
                            k,
                        ));
                    }
                }
            }
            j = j + 1;
        }
        proof {
            assert(tt.take(command_tokens@.len() as int) =~= tt);
        }
        let mut k: usize = 0;
        while k < arguments.len()
            invariant
                k <= arguments@.len(),
                ra == str_views(arguments@),
                arguments@.len() == ra.len(),
                consumed@.len() == ra.len(),
                forall|m: int|
                    0 <= m < ra.len() ==> consumed@[m] == consumed_index(
                        tt,
                        raw_len as int,
                        ra.len() as int,
                        m,
                    ),
                str_views(out@) == substituted_tokens(tt, ra, raw_len as int) + leftover_prefix(
                    ra,
                    tt,
                    raw_len as int,
                    k as int,
                ),
            decreases arguments@.len() - k,
        {
            let ghost pre_out = str_views(out@);
            if !consumed[k] {
                out.push(arguments[k].clone());
                proof {
                    assert(str_views(out@) =~= pre_out.push(ra[k as int]));
                    assert(str_views(out@) =~= substituted_tokens(tt, ra, raw_len as int)
                        + leftover_prefix(ra, tt, raw_len as int, k + 1));
                }
            } else {
                proof {
                    assert(leftover_prefix(ra, tt, raw_len as int, k + 1) == leftover_prefix(
                        ra,
                        tt,
                        raw_len as int,
                        k as int,
                    ));
                }
            }
            k = k + 1;
        }
        out
    }

    /// The whole substitution of one template: the argument pre-pass followed
    /// by the template pass, with positional indices checked against the
    /// caller's raw argument list.
    pub fn get_arguments(
        &self,
        command: &str,
        arguments: &[String],
        expansions: &[Expansion],
    ) -> (r: Vec<String>)
        ensures
            str_views(r@) == expand_spec(
                command@,
                str_views(arguments@),
                table_views(expansions@),
            ),
    {
        let resolved = resolve_arguments(arguments, expansions);
        self.expand_command(command, resolved.as_slice(), arguments.len())
    }
}

} // verus!
