//! Splitting raw text into a sequence of tokens.
//!
//! Two policies are supported: splitting on whitespace alone, and splitting
//! on whitespace with a single leading and a single trailing punctuation
//! character of each fragment peeled off as tokens of their own.

use vstd::prelude::*;

verus! {

/// The tokenization policy.
#[derive(Clone, Copy, PartialEq, Eq, Structural)]
pub enum Policy {
    /// Split on whitespace only; punctuation stays attached to its word.
    WhitespaceOnly,
    /// Split on whitespace, then peel a single leading and a single
    /// trailing punctuation character off each fragment as separate tokens.
    WhitespacePlusPunctuation,
}

/// The characters with the Unicode `White_Space` property.
pub open spec fn spec_is_whitespace(c: char) -> bool {
    ||| c == ' '
    ||| c == '\t'
    ||| c == '\n'
    ||| c == '\r'
    ||| c == '\u{b}'
    ||| c == '\u{c}'
    ||| c == '\u{85}'
    ||| c == '\u{a0}'
    ||| c == '\u{1680}'
    ||| c == '\u{2000}'
    ||| c == '\u{2001}'
    ||| c == '\u{2002}'
    ||| c == '\u{2003}'
    ||| c == '\u{2004}'
    ||| c == '\u{2005}'
    ||| c == '\u{2006}'
    ||| c == '\u{2007}'
    ||| c == '\u{2008}'
    ||| c == '\u{2009}'
    ||| c == '\u{200a}'
    ||| c == '\u{2028}'
    ||| c == '\u{2029}'
    ||| c == '\u{202f}'
    ||| c == '\u{205f}'
    ||| c == '\u{3000}'
}

/// Decides whether `c` separates two fragments.
pub fn is_whitespace(c: char) -> (r: bool)
    ensures
        r == spec_is_whitespace(c),
{
    c == ' ' || c == '\t' || c == '\n' || c == '\r' || c == '\u{b}' || c == '\u{c}'
        || c == '\u{85}' || c == '\u{a0}' || c == '\u{1680}' || c == '\u{2000}'
        || c == '\u{2001}' || c == '\u{2002}' || c == '\u{2003}' || c == '\u{2004}'
        || c == '\u{2005}' || c == '\u{2006}' || c == '\u{2007}' || c == '\u{2008}'
        || c == '\u{2009}' || c == '\u{200a}' || c == '\u{2028}' || c == '\u{2029}'
        || c == '\u{202f}' || c == '\u{205f}' || c == '\u{3000}'
}

/// The punctuation characters that the tokenizer peels off as tokens.
pub open spec fn spec_is_punctuation(c: char) -> bool {
    ||| c == '!'
    ||| c == '.'
    ||| c == ','
    ||| c == ';'
    ||| c == ':'
    ||| c == '-'
    ||| c == '"'
    ||| c == '\''
    ||| c == '('
    ||| c == ')'
    ||| c == '['
    ||| c == ']'
    ||| c == '/'
}

/// Decides whether `c` is one of the recognized punctuation characters.
pub fn is_punctuation(c: char) -> (r: bool)
    ensures
        r == spec_is_punctuation(c),
{
    c == '!' || c == '.' || c == ',' || c == ';' || c == ':' || c == '-' || c == '"'
        || c == '\'' || c == '(' || c == ')' || c == '[' || c == ']' || c == '/'
}

/// The view of a token sequence: each token as its character sequence.
pub open spec fn view_tokens(ts: Seq<String>) -> Seq<Seq<char>> {
    ts.map_values(|t: String| t@)
}

/// The tokens that one whitespace-free fragment contributes under the
/// punctuation-splitting policy: a single leading and a single trailing
/// punctuation character become tokens of their own, around the remaining
/// core if it is nonempty.
pub open spec fn peel_fragment(frag: Seq<char>) -> Seq<Seq<char>> {
    if frag.len() == 0 {
        Seq::empty()
    } else {
        let lo: int = if spec_is_punctuation(frag[0]) {
            1
        } else {
            0
        };
        let hi: int = if lo < frag.len() && spec_is_punctuation(frag[frag.len() - 1]) {
            frag.len() - 1
        } else {
            frag.len() as int
        };
        let with_lead: Seq<Seq<char>> = if lo == 1 {
            seq![seq![frag[0]]]
        } else {
            Seq::empty()
        };
        let with_core: Seq<Seq<char>> = if lo < hi {
            with_lead.push(frag.subrange(lo, hi))
        } else {
            with_lead
        };
        if hi < frag.len() {
            with_core.push(seq![frag[frag.len() - 1]])
        } else {
            with_core
        }
    }
}

/// The tokens that one whitespace-free fragment contributes under `p`.
/// An empty fragment contributes nothing.
pub open spec fn emit_fragment(p: Policy, frag: Seq<char>) -> Seq<Seq<char>> {
    match p {
        Policy::WhitespaceOnly => if frag.len() == 0 {
            Seq::empty()
        } else {
            seq![frag]
        },
        Policy::WhitespacePlusPunctuation => peel_fragment(frag),
    }
}

/// A left-to-right scan of the text: the tokens completed so far and the
/// fragment currently being accumulated.
pub open spec fn tok_fold(s: Seq<char>, p: Policy) -> (Seq<Seq<char>>, Seq<char>)
    decreases s.len(),
{
    if s.len() == 0 {
        (Seq::empty(), Seq::empty())
    } else {
        let prior = tok_fold(s.drop_last(), p);
        if spec_is_whitespace(s.last()) {
            (prior.0 + emit_fragment(p, prior.1), Seq::empty())
        } else {
            (prior.0, prior.1.push(s.last()))
        }
    }
}

/// The token sequence of `s` under policy `p`: the scan's completed tokens,
/// followed by whatever the final fragment contributes.
pub open spec fn spec_tokenize(s: Seq<char>, p: Policy) -> Seq<Seq<char>> {
    let folded = tok_fold(s, p);
    folded.0 + emit_fragment(p, folded.1)
}

/// Relies on String::push: appends exactly the one character.
#[verifier::external_body]
fn push_char(s: &mut String, c: char)
    ensures
        final(s)@ == old(s)@.push(c),
{
    s.push(c);
}

/// Builds a string out of the characters `cs[start..end]`.
fn chars_to_string(cs: &Vec<char>, start: usize, end: usize) -> (r: String)
    requires
        start <= end <= cs.len(),
    ensures
        r@ == cs@.subrange(start as int, end as int),
{
    let mut r = String::new();
    let mut i: usize = start;
    while i < end
        invariant
            start <= i <= end <= cs.len(),
            r@ == cs@.subrange(start as int, i as int),
        decreases end - i,
    {
        push_char(&mut r, cs[i]);
        proof {
            assert(cs@.subrange(start as int, i as int).push(cs@[i as int]) =~= cs@.subrange(
                start as int,
                i + 1,
            ));
        }
        i = i + 1;
    }
    r
}

/// The string that holds the single punctuation character `c`.
pub fn get_punctuation_str(c: char) -> (r: String)
    requires
        spec_is_punctuation(c),
    ensures
        r@ == seq![c],
{
    let mut s = String::new();
    push_char(&mut s, c);
    proof {
        assert(s@ =~= seq![c]);
    }
    s
}

/// Appends the tokens of one fragment to `tokens`, as `emit_fragment` says.
fn emit_frag(tokens: &mut Vec<String>, frag: &Vec<char>, p: Policy)
    ensures
        view_tokens(final(tokens)@) =~= view_tokens(old(tokens)@) + emit_fragment(p, frag@),
{
    match p {
        Policy::WhitespaceOnly => {
            if frag.len() > 0 {
                let t = chars_to_string(frag, 0, frag.len());
                proof {
                    assert(t@ =~= frag@);
                }
                tokens.push(t);
            }
        },
        Policy::WhitespacePlusPunctuation => {
            let n = frag.len();
            if n > 0 {
                let lead = is_punctuation(frag[0]);
                let lo: usize = if lead {
                    1
                } else {
                    0
                };
                let trail = lo < n && is_punctuation(frag[n - 1]);
                let hi: usize = if trail {
                    n - 1
                } else {
                    n
                };
                if lead {
                    let t = get_punctuation_str(frag[0]);
                    tokens.push(t);
                }
                if lo < hi {
                    let t = chars_to_string(frag, lo, hi);
                    tokens.push(t);
                }
                if trail {
                    let t = get_punctuation_str(frag[n - 1]);
                    tokens.push(t);
                }
            }
        },
    }
}

/// Splits `text` into its tokens under policy `p`.
///
/// The result is a pure function of the text and the policy alone, so
/// tokenization is deterministic: two calls on equal text with the same
/// policy yield equal token sequences.
pub fn tokenize(text: &str, p: Policy) -> (r: Vec<String>)
    ensures
        view_tokens(r@) == spec_tokenize(text@, p),
{
    let mut tokens: Vec<String> = Vec::new();
    let mut frag: Vec<char> = Vec::new();
    for c in it: text.chars()
        invariant
            it.seq() == text@,
            (view_tokens(tokens@), frag@) == tok_fold(text@.take(it.index()), p),
    {
        proof {
            assert(text@.take(it.index() + 1).drop_last() =~= text@.take(it.index()));
            assert(text@.take(it.index() + 1).last() == c);
        }
        if is_whitespace(c) {
            emit_frag(&mut tokens, &frag, p);
            frag = Vec::new();
        } else {
            frag.push(c);
        }
    }
    proof {
        assert(text@.take(text@.len() as int) =~= text@);
    }
    emit_frag(&mut tokens, &frag, p);
    proof {
        assert(view_tokens(tokens@) =~= spec_tokenize(text@, p));
    }
    tokens
}

} // verus!
