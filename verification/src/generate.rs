//! Producing text from the model: starting at a prompt token, repeatedly
//! sample a successor and emit the current token.
//!
//! Both modes emit the current token only after a successor for it has
//! been drawn, exactly as the sampling loop walks the chain; on a token
//! with no entry they stop at once and report it, so an unseen token never
//! makes generation loop.

use vstd::prelude::*;
use crate::model::BiGramModel;
use crate::model::ModelEntry;
use crate::model::model_numer;
use crate::model::model_occ;
use crate::model::model_wf;
use crate::tokenizer::view_tokens;

verus! {

/// Why generation stopped.
#[derive(Clone, Copy, PartialEq, Eq, Structural, Debug)]
pub enum StopReason {
    /// The requested number of tokens was emitted.
    Limit,
    /// The last emitted token ends a sentence.
    SentenceEnd,
    /// The current token has no entry in the model.
    UnrecognizedWord,
}

/// The outcome of one generation run: the emitted tokens, why the run
/// stopped, and, when it stopped on an unrecognized token, that token.
pub struct Generated {
    pub tokens: Vec<String>,
    pub reason: StopReason,
    pub unknown: Option<String>,
}

/// The sentence-terminal punctuation marks.
pub open spec fn spec_is_sentence_end(c: char) -> bool {
    c == '.' || c == '!' || c == '?'
}

/// Decides whether `c` ends a sentence.
pub fn is_punctuation(c: char) -> (r: bool)
    ensures
        r == spec_is_sentence_end(c),
{
    c == '.' || c == '!' || c == '?'
}

/// Whether a token's last character ends a sentence.
pub open spec fn ends_sentence(t: Seq<char>) -> bool {
    t.len() > 0 && spec_is_sentence_end(t[t.len() - 1])
}

/// Decides whether the token ends a sentence.
pub fn token_ends_sentence(t: &String) -> (r: bool)
    ensures
        r == ends_sentence(t@),
{
    let n = t.as_str().unicode_len();
    if n == 0 {
        false
    } else {
        is_punctuation(t.as_str().get_char(n - 1))
    }
}

/// Every adjacent pair of the emitted sequence is a bigram the model has
/// observed.
pub open spec fn is_chain(m: Seq<ModelEntry>, toks: Seq<Seq<char>>) -> bool {
    forall|i: int| 0 <= i < toks.len() - 1 ==> #[trigger] model_numer(m, toks[i], toks[i + 1]) > 0
}

/// Walks the model from `prompt` until the emitted token ends a sentence,
/// at most `max_tokens` tokens.  The prompt is emitted first; every later
/// token succeeds the one before it in the model.  On a token without an
/// entry the walk stops at once and reports that token.
pub fn generate_sentence(
    model: &BiGramModel,
    rng: &mut rand::rngs::StdRng,
    prompt: &str,
    max_tokens: usize,
) -> (r: Generated)
    requires
        model_wf(model.entries@),
    ensures
        r.tokens@.len() <= max_tokens,
        is_chain(model.entries@, view_tokens(r.tokens@)),
        r.tokens@.len() > 0 ==> r.tokens@[0]@ == prompt@,
        (r.reason == StopReason::UnrecognizedWord) <==> (r.unknown is Some),
        r.unknown matches Some(u) ==> model_occ(model.entries@, u@) == 0 && !ends_sentence(u@) && (
        if r.tokens@.len() == 0 {
            u@ == prompt@
        } else {
            model_numer(model.entries@, r.tokens@.last()@, u@) > 0
        }),
        r.reason == StopReason::SentenceEnd ==> r.tokens@.len() > 0 && ends_sentence(
            r.tokens@.last()@,
        ),
        forall|i: int| 0 <= i < r.tokens@.len() - 1 ==> !ends_sentence(r.tokens@[i]@),
        r.reason != StopReason::SentenceEnd ==> forall|i: int|
            0 <= i < r.tokens@.len() ==> !ends_sentence(r.tokens@[i]@),
        (r.reason == StopReason::Limit) <==> (r.tokens@.len() == max_tokens
            && r.reason != StopReason::SentenceEnd),
{
    let mut tokens: Vec<String> = Vec::new();
    let mut curr: String = prompt.to_owned();
    while tokens.len() < max_tokens
        invariant
            model_wf(model.entries@),
            tokens@.len() <= max_tokens,
            is_chain(model.entries@, view_tokens(tokens@).push(curr@)),
            view_tokens(tokens@).push(curr@)[0] == prompt@,
            forall|i: int| 0 <= i < tokens@.len() ==> !ends_sentence(tokens@[i]@),
        decreases max_tokens - tokens@.len(),
    {
        let ghost full = view_tokens(tokens@).push(curr@);
        if token_ends_sentence(&curr) {
            tokens.push(curr);
            proof {
                assert(view_tokens(tokens@) =~= full);
            }
            return Generated { tokens, reason: StopReason::SentenceEnd, unknown: None };
        }
        match model.get_next(curr.as_str(), rng) {
            Some(next) => {
                tokens.push(curr);
                curr = next;
                proof {
                    assert(view_tokens(tokens@) =~= full);
                    assert(view_tokens(tokens@).push(curr@) =~= full.push(curr@));
                }
            },
            None => {
                proof {
                    assert(view_tokens(tokens@) =~= full.drop_last());
                    if tokens@.len() > 0 {
                        let k = tokens@.len() - 1;
                        assert(full[k] == tokens@.last()@);
                        assert(full[k + 1] == curr@);
                        assert(model_numer(model.entries@, full[k], full[k + 1]) > 0);
                    } else {
                        assert(full[0] == curr@);
                    }
                }
                return Generated { tokens, reason: StopReason::UnrecognizedWord, unknown: Some(curr) };
            },
        }
    }
    proof {
        assert(view_tokens(tokens@) =~= view_tokens(tokens@).push(curr@).drop_last());
    }
    Generated { tokens, reason: StopReason::Limit, unknown: None }
}

/// Walks the model from `prompt` for exactly `n` tokens.  The prompt is
/// emitted first; every later token succeeds the one before it in the
/// model.  On a token without an entry the walk stops at once and reports
/// that token.
pub fn generate_n(
    model: &BiGramModel,
    rng: &mut rand::rngs::StdRng,
    prompt: &str,
    n: usize,
) -> (r: Generated)
    requires
        model_wf(model.entries@),
    ensures
        r.tokens@.len() <= n,
        is_chain(model.entries@, view_tokens(r.tokens@)),
        r.tokens@.len() > 0 ==> r.tokens@[0]@ == prompt@,
        (r.reason == StopReason::UnrecognizedWord) <==> (r.unknown is Some),
        r.unknown matches Some(u) ==> model_occ(model.entries@, u@) == 0 && (if r.tokens@.len()
            == 0 {
            u@ == prompt@
        } else {
            model_numer(model.entries@, r.tokens@.last()@, u@) > 0
        }),
        (r.reason == StopReason::Limit) <==> (r.tokens@.len() == n),
        r.reason != StopReason::SentenceEnd,
{
    let mut tokens: Vec<String> = Vec::new();
    let mut curr: String = prompt.to_owned();
    while tokens.len() < n
        invariant
            model_wf(model.entries@),
            tokens@.len() <= n,
            is_chain(model.entries@, view_tokens(tokens@).push(curr@)),
            view_tokens(tokens@).push(curr@)[0] == prompt@,
        decreases n - tokens@.len(),
    {
        let ghost full = view_tokens(tokens@).push(curr@);
        match model.get_next(curr.as_str(), rng) {
            Some(next) => {
                tokens.push(curr);
                curr = next;
                proof {
                    assert(view_tokens(tokens@) =~= full);
                    assert(view_tokens(tokens@).push(curr@) =~= full.push(curr@));
                }
            },
            None => {
                proof {
                    assert(view_tokens(tokens@) =~= full.drop_last());
                    if tokens@.len() > 0 {
                        let k = tokens@.len() - 1;
                        assert(full[k] == tokens@.last()@);
                        assert(full[k + 1] == curr@);
                        assert(model_numer(model.entries@, full[k], full[k + 1]) > 0);
                    } else {
                        assert(full[0] == curr@);
                    }
                }
                return Generated { tokens, reason: StopReason::UnrecognizedWord, unknown: Some(curr) };
            },
        }
    }
    proof {
        assert(view_tokens(tokens@) =~= view_tokens(tokens@).push(curr@).drop_last());
    }
    Generated { tokens, reason: StopReason::Limit, unknown: None }
}

} // verus!
