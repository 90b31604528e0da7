//! Splitting a command string into argument tokens.
//!
//! A token boundary is unquoted, unescaped whitespace. Double quotes group
//! whitespace into one token and are dropped from the output; a backslash
//! takes the following character literally and is itself dropped.

use vstd::prelude::*;

verus! {

/// Whether `c` has the Unicode `White_Space` property, written out as the
/// list of the code points that carry it.
pub open spec fn is_space_char(c: char) -> bool {
    c == '\u{0009}' || c == '\u{000A}' || c == '\u{000B}' || c == '\u{000C}' || c == '\u{000D}'
        || c == '\u{0020}' || c == '\u{0085}' || c == '\u{00A0}' || c == '\u{1680}'
        || c == '\u{2000}' || c == '\u{2001}' || c == '\u{2002}' || c == '\u{2003}'
        || c == '\u{2004}' || c == '\u{2005}' || c == '\u{2006}' || c == '\u{2007}'
        || c == '\u{2008}' || c == '\u{2009}' || c == '\u{200A}' || c == '\u{2028}'
        || c == '\u{2029}' || c == '\u{202F}' || c == '\u{205F}' || c == '\u{3000}'
}

/// Executable whitespace test, equal to `is_space_char`.
pub fn is_space(c: char) -> (r: bool)
    ensures
        r == is_space_char(c),
{
    c == '\u{0009}' || c == '\u{000A}' || c == '\u{000B}' || c == '\u{000C}' || c == '\u{000D}'
        || c == '\u{0020}' || c == '\u{0085}' || c == '\u{00A0}' || c == '\u{1680}'
        || c == '\u{2000}' || c == '\u{2001}' || c == '\u{2002}' || c == '\u{2003}'
        || c == '\u{2004}' || c == '\u{2005}' || c == '\u{2006}' || c == '\u{2007}'
        || c == '\u{2008}' || c == '\u{2009}' || c == '\u{200A}' || c == '\u{2028}'
        || c == '\u{2029}' || c == '\u{202F}' || c == '\u{205F}' || c == '\u{3000}'
}

/// The tokenizer's state after reading a prefix of the input: the tokens
/// already flushed, the token being accumulated, and the two scanner flags.
pub struct TokenizerState {
    pub done: Seq<Seq<char>>,
    pub current: Seq<char>,
    pub in_quotes: bool,
    pub in_escape: bool,
}

pub open spec fn tokenizer_init() -> TokenizerState {
    TokenizerState { done: seq![], current: seq![], in_quotes: false, in_escape: false }
}

/// One step of the scanner on character `c`.
pub open spec fn tokenizer_step(st: TokenizerState, c: char) -> TokenizerState {
    if st.in_escape {
        // The escaped character is taken literally, whatever it is.
        TokenizerState {
            done: st.done,
            current: st.current.push(c),
            in_quotes: st.in_quotes,
            in_escape: false,
        }
    } else if c == '\\' {
        TokenizerState {
            done: st.done,
            current: st.current,
            in_quotes: st.in_quotes,
            in_escape: true,
        }
    } else if c == '"' {
        TokenizerState {
            done: st.done,
            current: st.current,
            in_quotes: !st.in_quotes,
            in_escape: false,
        }
    } else if is_space_char(c) && !st.in_quotes {
        if st.current.len() == 0 {
            st
        } else {
            TokenizerState {
                done: st.done.push(st.current),
                current: seq![],
                in_quotes: st.in_quotes,
                in_escape: false,
            }
        }
    } else {
        TokenizerState {
            done: st.done,
            current: st.current.push(c),
            in_quotes: st.in_quotes,
            in_escape: false,
        }
    }
}

/// The scanner state after reading all of `s`.
pub open spec fn tokenizer_run(s: Seq<char>) -> TokenizerState
    decreases s.len(),
{
    if s.len() == 0 {
        tokenizer_init()
    } else {
        tokenizer_step(tokenizer_run(s.drop_last()), s.last())
    }
}

/// The tokens of `s`: the flushed tokens, plus the accumulated token if it is
/// non-empty (an unterminated quote or trailing escape is tolerated silently).
pub open spec fn tokenize_spec(s: Seq<char>) -> Seq<Seq<char>> {
    let st = tokenizer_run(s);
    if st.current.len() == 0 {
        st.done
    } else {
        st.done.push(st.current)
    }
}

/// Whether `s` contains neither a double quote nor a backslash, so that the
/// tokenizer's grouping and escaping rules never fire on it.
pub open spec fn plain_text(s: Seq<char>) -> bool {
    forall|i: int| 0 <= i < s.len() ==> s[i] != '\\' && s[i] != '"'
}

/// State of a plain whitespace splitter: flushed words and the current word.
pub struct SplitterState {
    pub done: Seq<Seq<char>>,
    pub current: Seq<char>,
}

/// One step of splitting on whitespace alone: whitespace flushes a non-empty
/// word, any other character extends the current word.
pub open spec fn splitter_step(st: SplitterState, c: char) -> SplitterState {
    if is_space_char(c) {
        if st.current.len() == 0 {
            st
        } else {
            SplitterState { done: st.done.push(st.current), current: seq![] }
        }
    } else {
        SplitterState { done: st.done, current: st.current.push(c) }
    }
}

pub open spec fn splitter_run(s: Seq<char>) -> SplitterState
    decreases s.len(),
{
    if s.len() == 0 {
        SplitterState { done: seq![], current: seq![] }
    } else {
        splitter_step(splitter_run(s.drop_last()), s.last())
    }
}

/// The words of `s` under plain whitespace splitting, empty words dropped.
pub open spec fn split_whitespace_spec(s: Seq<char>) -> Seq<Seq<char>> {
    let st = splitter_run(s);
    if st.current.len() == 0 {
        st.done
    } else {
        st.done.push(st.current)
    }
}

proof fn lemma_runs_agree_on_plain_text(s: Seq<char>)
    requires
        plain_text(s),
    ensures
        tokenizer_run(s).done == splitter_run(s).done,
        tokenizer_run(s).current == splitter_run(s).current,
        !tokenizer_run(s).in_quotes,
        !tokenizer_run(s).in_escape,
    decreases s.len(),
{
    if s.len() > 0 {
        assert(plain_text(s.drop_last())) by {
            assert(forall|i: int|
                0 <= i < s.drop_last().len() ==> s.drop_last()[i] == s[i]);
        }
        lemma_runs_agree_on_plain_text(s.drop_last());
        assert(s.last() == s[s.len() - 1]);
    }
}

/// On an input with no quotes and no escapes, tokenizing is exactly
/// splitting on whitespace.
pub proof fn lemma_tokenize_plain_is_split_whitespace(s: Seq<char>)
    requires
        plain_text(s),
    ensures
        tokenize_spec(s) == split_whitespace_spec(s),
{
    lemma_runs_agree_on_plain_text(s);
}

/// The views of a sequence of strings.
pub open spec fn str_views(s: Seq<String>) -> Seq<Seq<char>> {
    s.map_values(|t: String| t@)
}

/// Splits `string` into argument tokens, honoring double-quote grouping and
/// backslash escaping. Empty input yields an empty sequence.
pub fn tokenize_string(string: &str) -> (tokens: Vec<String>)
    ensures
        str_views(tokens@) == tokenize_spec(string@),
{
    let n = string.unicode_len();
    let mut tokens: Vec<String> = Vec::new();
    let mut current = String::new();
    let mut in_quotes = false;
    let mut in_escape = false;
    let mut i: usize = 0;

    while i < n
        invariant
            i <= n,
            n == string@.len(),
            str_views(tokens@) == tokenizer_run(string@.take(i as int)).done,
            current@ == tokenizer_run(string@.take(i as int)).current,
            in_quotes == tokenizer_run(string@.take(i as int)).in_quotes,
            in_escape == tokenizer_run(string@.take(i as int)).in_escape,
        decreases n - i,
    {
        let ghost pre = tokenizer_run(string@.take(i as int));
        proof {
            assert(string@.take(i + 1).drop_last() =~= string@.take(i as int));
            assert(string@.take(i + 1).last() == string@[i as int]);
        }
        let c = string.get_char(i);
        if in_escape {
            let piece = string.substring_char(i, i + 1);
            proof {
                assert(piece@ =~= seq![string@[i as int]]);
                assert(current@ + piece@ =~= pre.current.push(string@[i as int]));
            }
            current.append(piece);
            in_escape = false;
        } else if c == '\\' {
            in_escape = true;
        } else if c == '"' {
            in_quotes = !in_quotes;
        } else if is_space(c) && !in_quotes {
            if !current.as_str().is_empty() {
                let ghost old_tokens = tokens@;
                tokens.push(current);
                proof {
                    assert(str_views(tokens@) =~= str_views(old_tokens).push(pre.current));
                }
                current = String::new();
            }
        } else {
            let piece = string.substring_char(i, i + 1);
            proof {
                assert(piece@ =~= seq![string@[i as int]]);
                assert(current@ + piece@ =~= pre.current.push(string@[i as int]));
            }
            current.append(piece);
        }
        i = i + 1;
    }
    proof {
        assert(string@.take(n as int) =~= string@);
    }
    if !current.as_str().is_empty() {
        let ghost old_tokens = tokens@;
        tokens.push(current);
        proof {
            assert(str_views(tokens@) =~= str_views(old_tokens).push(
                tokenizer_run(string@).current,
            ));
        }
    }
    tokens
}

} // verus!
