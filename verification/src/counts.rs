//! Counting bigrams: a sliding window over the token sequence counts each
//! ordered pair of adjacent tokens, and counts for each token how often it
//! is followed by some token at all.
//!
//! The tables are association lists with distinct keys, so the result
//! depends only on the token sequence.

use vstd::prelude::*;
use crate::tokenizer::view_tokens;

verus! {

/// One bigram and how often it occurred.
pub struct FreqEntry {
    pub first: String,
    pub second: String,
    pub count: u64,
}

/// One token and how often it occurred as the first half of a bigram.
pub struct OccEntry {
    pub token: String,
    pub count: u64,
}

/// The two count tables that one pass over the token sequence produces.
pub struct FreqsAndOccurences {
    pub freqs: Vec<FreqEntry>,
    pub occurences: Vec<OccEntry>,
}

/// How often the pair `(a, b)` stands adjacent in `toks`.
pub open spec fn spec_bigram_count(toks: Seq<Seq<char>>, a: Seq<char>, b: Seq<char>) -> nat
    decreases toks.len(),
{
    if toks.len() < 2 {
        0
    } else {
        spec_bigram_count(toks.drop_last(), a, b) + (if toks[toks.len() - 2] == a && toks.last()
            == b {
            1nat
        } else {
            0
        })
    }
}

/// How often `a` is followed by some token in `toks`: the number of
/// positions of `a` other than the very last position.
pub open spec fn spec_occ_count(toks: Seq<Seq<char>>, a: Seq<char>) -> nat
    decreases toks.len(),
{
    if toks.len() < 2 {
        0
    } else {
        spec_occ_count(toks.drop_last(), a) + (if toks[toks.len() - 2] == a {
            1nat
        } else {
            0
        })
    }
}

/// What one table entry contributes to the count of the pair `(a, b)`.
pub open spec fn freq_contrib(e: FreqEntry, a: Seq<char>, b: Seq<char>) -> nat {
    if e.first@ == a && e.second@ == b {
        e.count as nat
    } else {
        0
    }
}

/// The count that the table holds for the pair `(a, b)`; zero if absent.
pub open spec fn freq_nat(fs: Seq<FreqEntry>, a: Seq<char>, b: Seq<char>) -> nat
    decreases fs.len(),
{
    if fs.len() == 0 {
        0
    } else {
        freq_nat(fs.drop_last(), a, b) + freq_contrib(fs.last(), a, b)
    }
}

/// What one occurrence entry contributes to the count of `a`.
pub open spec fn occ_contrib(e: OccEntry, a: Seq<char>) -> nat {
    if e.token@ == a {
        e.count as nat
    } else {
        0
    }
}

/// The count that the occurrence table holds for `a`; zero if absent.
pub open spec fn occ_nat(os: Seq<OccEntry>, a: Seq<char>) -> nat
    decreases os.len(),
{
    if os.len() == 0 {
        0
    } else {
        occ_nat(os.drop_last(), a) + occ_contrib(os.last(), a)
    }
}

/// What one table entry contributes to the total count of first token `a`.
pub open spec fn sum_contrib(e: FreqEntry, a: Seq<char>) -> nat {
    if e.first@ == a {
        e.count as nat
    } else {
        0
    }
}

/// The sum of the counts of all bigrams whose first token is `a`.
pub open spec fn sum_first(fs: Seq<FreqEntry>, a: Seq<char>) -> nat
    decreases fs.len(),
{
    if fs.len() == 0 {
        0
    } else {
        sum_first(fs.drop_last(), a) + sum_contrib(fs.last(), a)
    }
}

/// No two entries of the bigram table hold the same pair.
pub open spec fn freqs_distinct(fs: Seq<FreqEntry>) -> bool {
    forall|i: int, j: int|
        0 <= i < j < fs.len() ==> !(fs[i].first@ == fs[j].first@ && fs[i].second@
            == fs[j].second@)
}

/// No two entries of the occurrence table hold the same token.
pub open spec fn occs_distinct(os: Seq<OccEntry>) -> bool {
    forall|i: int, j: int| 0 <= i < j < os.len() ==> os[i].token@ != os[j].token@
}

/// The two tables are internally consistent: keys are distinct, counts are
/// positive, and the counts of the bigrams under each first token `a`
/// partition the occurrence count of `a`.
pub open spec fn tables_wf(fs: Seq<FreqEntry>, os: Seq<OccEntry>) -> bool {
    &&& freqs_distinct(fs)
    &&& occs_distinct(os)
    &&& forall|k: int| 0 <= k < fs.len() ==> fs[k].count > 0
    &&& forall|k: int| 0 <= k < os.len() ==> os[k].count > 0
    &&& forall|a: Seq<char>| #[trigger] sum_first(fs, a) == occ_nat(os, a)
}

/// A pair absent from the table has count zero.
pub proof fn lemma_freq_nat_absent(fs: Seq<FreqEntry>, a: Seq<char>, b: Seq<char>)
    requires
        forall|k: int|
            0 <= k < fs.len() ==> !(#[trigger] fs[k].first@ == a && fs[k].second@ == b),
    ensures
        freq_nat(fs, a, b) == 0,
    decreases fs.len(),
{
    if fs.len() > 0 {
        lemma_freq_nat_absent(fs.drop_last(), a, b);
    }
}

/// In a table with distinct keys, the count of a pair is the count stored
/// in its entry.
pub proof fn lemma_freq_nat_found(fs: Seq<FreqEntry>, i: int, a: Seq<char>, b: Seq<char>)
    requires
        freqs_distinct(fs),
        0 <= i < fs.len(),
        fs[i].first@ == a,
        fs[i].second@ == b,
    ensures
        freq_nat(fs, a, b) == fs[i].count,
    decreases fs.len(),
{
    if i == fs.len() - 1 {
        lemma_freq_nat_absent(fs.drop_last(), a, b);
    } else {
        lemma_freq_nat_found(fs.drop_last(), i, a, b);
    }
}

/// A token absent from the occurrence table has count zero.
pub proof fn lemma_occ_nat_absent(os: Seq<OccEntry>, a: Seq<char>)
    requires
        forall|k: int| 0 <= k < os.len() ==> #[trigger] os[k].token@ != a,
    ensures
        occ_nat(os, a) == 0,
    decreases os.len(),
{
    if os.len() > 0 {
        lemma_occ_nat_absent(os.drop_last(), a);
    }
}

/// In an occurrence table with distinct keys, the count of a token is the
/// count stored in its entry.
pub proof fn lemma_occ_nat_found(os: Seq<OccEntry>, i: int, a: Seq<char>)
    requires
        occs_distinct(os),
        0 <= i < os.len(),
        os[i].token@ == a,
    ensures
        occ_nat(os, a) == os[i].count,
    decreases os.len(),
{
    if i == os.len() - 1 {
        lemma_occ_nat_absent(os.drop_last(), a);
    } else {
        lemma_occ_nat_found(os.drop_last(), i, a);
    }
}

/// Replacing the entry at `i` changes the count of a pair by the
/// difference of the contributions of the new and the old entry.
pub proof fn lemma_freq_nat_update(
    fs: Seq<FreqEntry>,
    i: int,
    e: FreqEntry,
    a: Seq<char>,
    b: Seq<char>,
)
    requires
        0 <= i < fs.len(),
    ensures
        freq_nat(fs.update(i, e), a, b) + freq_contrib(fs[i], a, b) == freq_nat(fs, a, b)
            + freq_contrib(e, a, b),
    decreases fs.len(),
{
    if i == fs.len() - 1 {
        assert(fs.update(i, e).drop_last() =~= fs.drop_last());
    } else {
        assert(fs.update(i, e).drop_last() =~= fs.drop_last().update(i, e));
        lemma_freq_nat_update(fs.drop_last(), i, e, a, b);
    }
}

/// Replacing the entry at `i` changes the first-token sum by the
/// difference of the contributions of the new and the old entry.
pub proof fn lemma_sum_first_update(fs: Seq<FreqEntry>, i: int, e: FreqEntry, a: Seq<char>)
    requires
        0 <= i < fs.len(),
    ensures
        sum_first(fs.update(i, e), a) + sum_contrib(fs[i], a) == sum_first(fs, a) + sum_contrib(
            e,
            a,
        ),
    decreases fs.len(),
{
    if i == fs.len() - 1 {
        assert(fs.update(i, e).drop_last() =~= fs.drop_last());
    } else {
        assert(fs.update(i, e).drop_last() =~= fs.drop_last().update(i, e));
        lemma_sum_first_update(fs.drop_last(), i, e, a);
    }
}

/// Replacing the entry at `i` changes the count of a token by the
/// difference of the contributions of the new and the old entry.
pub proof fn lemma_occ_nat_update(os: Seq<OccEntry>, i: int, e: OccEntry, a: Seq<char>)
    requires
        0 <= i < os.len(),
    ensures
        occ_nat(os.update(i, e), a) + occ_contrib(os[i], a) == occ_nat(os, a) + occ_contrib(e, a),
    decreases os.len(),
{
    if i == os.len() - 1 {
        assert(os.update(i, e).drop_last() =~= os.drop_last());
    } else {
        assert(os.update(i, e).drop_last() =~= os.drop_last().update(i, e));
        lemma_occ_nat_update(os.drop_last(), i, e, a);
    }
}

/// Appending an entry adds its contribution to the count of every pair.
pub proof fn lemma_freq_nat_push(fs: Seq<FreqEntry>, e: FreqEntry, a: Seq<char>, b: Seq<char>)
    ensures
        freq_nat(fs.push(e), a, b) == freq_nat(fs, a, b) + freq_contrib(e, a, b),
        sum_first(fs.push(e), a) == sum_first(fs, a) + sum_contrib(e, a),
{
    assert(fs.push(e).drop_last() =~= fs);
}

/// Appending an entry adds its contribution to the count of every token.
pub proof fn lemma_occ_nat_push(os: Seq<OccEntry>, e: OccEntry, a: Seq<char>)
    ensures
        occ_nat(os.push(e), a) == occ_nat(os, a) + occ_contrib(e, a),
{
    assert(os.push(e).drop_last() =~= os);
}

/// The occurrence count of a token is below the length of the sequence.
pub proof fn lemma_occ_count_bound(toks: Seq<Seq<char>>, a: Seq<char>)
    ensures
        toks.len() == 0 ==> spec_occ_count(toks, a) == 0,
        toks.len() > 0 ==> spec_occ_count(toks, a) < toks.len(),
    decreases toks.len(),
{
    if toks.len() >= 2 {
        lemma_occ_count_bound(toks.drop_last(), a);
    }
}

/// A pair occurs at most as often as its first token is followed at all.
pub proof fn lemma_bigram_le_occ(toks: Seq<Seq<char>>, a: Seq<char>, b: Seq<char>)
    ensures
        spec_bigram_count(toks, a, b) <= spec_occ_count(toks, a),
    decreases toks.len(),
{
    if toks.len() >= 2 {
        lemma_bigram_le_occ(toks.drop_last(), a, b);
    }
}

/// Finds the entry that holds the pair `(a, b)`, if any.
fn find_freq(fs: &Vec<FreqEntry>, a: &String, b: &String) -> (r: Option<usize>)
    ensures
        match r {
            Some(i) => i < fs.len() && fs@[i as int].first@ == a@ && fs@[i as int].second@ == b@,
            None => forall|k: int|
                0 <= k < fs.len() ==> !(#[trigger] fs@[k].first@ == a@ && fs@[k].second@ == b@),
        },
{
    let mut i: usize = 0;
    while i < fs.len()
        invariant
            i <= fs.len(),
            forall|k: int|
                0 <= k < i ==> !(#[trigger] fs@[k].first@ == a@ && fs@[k].second@ == b@),
        decreases fs.len() - i,
    {
        if fs[i].first == *a && fs[i].second == *b {
            return Some(i);
        }
        i = i + 1;
    }
    None
}

/// Finds the entry that holds the token `a`, if any.
fn find_occ(os: &Vec<OccEntry>, a: &String) -> (r: Option<usize>)
    ensures
        match r {
            Some(i) => i < os.len() && os@[i as int].token@ == a@,
            None => forall|k: int| 0 <= k < os.len() ==> #[trigger] os@[k].token@ != a@,
        },
{
    let mut i: usize = 0;
    while i < os.len()
        invariant
            i <= os.len(),
            forall|k: int| 0 <= k < i ==> #[trigger] os@[k].token@ != a@,
        decreases os.len() - i,
    {
        if os[i].token == *a {
            return Some(i);
        }
        i = i + 1;
    }
    None
}

/// Records one adjacent pair `(prev, curr)`: the count of the bigram and
/// the occurrence count of `prev` each go up by one, starting at one where
/// the key is new.  No other count changes.
pub fn process_bi_gram(
    prev: &String,
    curr: &String,
    freqs: &mut Vec<FreqEntry>,
    occurences: &mut Vec<OccEntry>,
)
    requires
        freqs_distinct(old(freqs)@),
        occs_distinct(old(occurences)@),
        forall|k: int| 0 <= k < old(freqs)@.len() ==> old(freqs)@[k].count > 0,
        forall|k: int| 0 <= k < old(occurences)@.len() ==> old(occurences)@[k].count > 0,
        freq_nat(old(freqs)@, prev@, curr@) < u64::MAX,
        occ_nat(old(occurences)@, prev@) < u64::MAX,
    ensures
        freqs_distinct(final(freqs)@),
        occs_distinct(final(occurences)@),
        forall|k: int| 0 <= k < final(freqs)@.len() ==> final(freqs)@[k].count > 0,
        forall|k: int| 0 <= k < final(occurences)@.len() ==> final(occurences)@[k].count > 0,
        forall|a: Seq<char>, b: Seq<char>|
            #[trigger] freq_nat(final(freqs)@, a, b) == freq_nat(old(freqs)@, a, b) + (if a
                == prev@ && b == curr@ {
                1nat
            } else {
                0
            }),
        forall|a: Seq<char>|
            #[trigger] occ_nat(final(occurences)@, a) == occ_nat(old(occurences)@, a) + (if a
                == prev@ {
                1nat
            } else {
                0
            }),
        forall|a: Seq<char>|
            #[trigger] sum_first(final(freqs)@, a) == sum_first(old(freqs)@, a) + (if a == prev@ {
                1nat
            } else {
                0
            }),
{
    match find_freq(freqs, prev, curr) {
        Some(i) => {
            proof {
                lemma_freq_nat_found(freqs@, i as int, prev@, curr@);
            }
            let e = FreqEntry {
                first: freqs[i].first.clone(),
                second: freqs[i].second.clone(),
                count: freqs[i].count + 1,
            };
            let ghost olds = freqs@;
            freqs.set(i, e);
            proof {
                assert forall|a: Seq<char>, b: Seq<char>|
                    #[trigger] freq_nat(freqs@, a, b) == freq_nat(olds, a, b) + (if a == prev@ && b
                        == curr@ {
                        1nat
                    } else {
                        0
                    }) by {
                    lemma_freq_nat_update(olds, i as int, freqs@[i as int], a, b);
                }
                assert forall|a: Seq<char>|
                    #[trigger] sum_first(freqs@, a) == sum_first(olds, a) + (if a == prev@ {
                        1nat
                    } else {
                        0
                    }) by {
                    lemma_sum_first_update(olds, i as int, freqs@[i as int], a);
                }
            }
        },
        None => {
            let e = FreqEntry { first: prev.clone(), second: curr.clone(), count: 1 };
            let ghost olds = freqs@;
            freqs.push(e);
            proof {
                assert forall|a: Seq<char>, b: Seq<char>|
                    #[trigger] freq_nat(freqs@, a, b) == freq_nat(olds, a, b) + (if a == prev@ && b
                        == curr@ {
                        1nat
                    } else {
                        0
                    }) by {
                    lemma_freq_nat_push(olds, freqs@.last(), a, b);
                }
                assert forall|a: Seq<char>|
                    #[trigger] sum_first(freqs@, a) == sum_first(olds, a) + (if a == prev@ {
                        1nat
                    } else {
                        0
                    }) by {
                    lemma_freq_nat_push(olds, freqs@.last(), a, a);
                }
            }
        },
    }
    match find_occ(occurences, prev) {
        Some(i) => {
            proof {
                lemma_occ_nat_found(occurences@, i as int, prev@);
            }
            let e = OccEntry { token: occurences[i].token.clone(), count: occurences[i].count + 1 };
            let ghost olds = occurences@;
            occurences.set(i, e);
            proof {
                assert forall|a: Seq<char>|
                    #[trigger] occ_nat(occurences@, a) == occ_nat(olds, a) + (if a == prev@ {
                        1nat
                    } else {
                        0
                    }) by {
                    lemma_occ_nat_update(olds, i as int, occurences@[i as int], a);
                }
            }
        },
        None => {
            let e = OccEntry { token: prev.clone(), count: 1 };
            let ghost olds = occurences@;
            occurences.push(e);
            proof {
                assert forall|a: Seq<char>|
                    #[trigger] occ_nat(occurences@, a) == occ_nat(olds, a) + (if a == prev@ {
                        1nat
                    } else {
                        0
                    }) by {
                    lemma_occ_nat_push(olds, occurences@.last(), a);
                }
            }
        },
    }
}

/// Counts all adjacent pairs of `tokens` in one left-to-right pass.
///
/// The bigram table holds exactly the pairs that stand adjacent somewhere,
/// with their counts, and the occurrence table holds for each token how
/// often it is followed by some token.  Zero or one token yield two empty
/// tables.
pub fn get_bi_gram_freqs(tokens: &Vec<String>) -> (r: FreqsAndOccurences)
    ensures
        tables_wf(r.freqs@, r.occurences@),
        forall|a: Seq<char>, b: Seq<char>|
            #[trigger] freq_nat(r.freqs@, a, b) == spec_bigram_count(view_tokens(tokens@), a, b),
        forall|a: Seq<char>|
            #[trigger] occ_nat(r.occurences@, a) == spec_occ_count(view_tokens(tokens@), a),
{
    let ghost toks = view_tokens(tokens@);
    let mut freqs: Vec<FreqEntry> = Vec::new();
    let mut occurences: Vec<OccEntry> = Vec::new();
    if tokens.len() >= 2 {
        let mut i: usize = 1;
        while i < tokens.len()
            invariant
                1 <= i <= tokens.len(),
                toks == view_tokens(tokens@),
                toks.len() == tokens@.len(),
                freqs_distinct(freqs@),
                occs_distinct(occurences@),
                forall|k: int| 0 <= k < freqs@.len() ==> freqs@[k].count > 0,
                forall|k: int| 0 <= k < occurences@.len() ==> occurences@[k].count > 0,
                forall|a: Seq<char>, b: Seq<char>|
                    #[trigger] freq_nat(freqs@, a, b) == spec_bigram_count(
                        toks.take(i as int),
                        a,
                        b,
                    ),
                forall|a: Seq<char>|
                    #[trigger] occ_nat(occurences@, a) == spec_occ_count(toks.take(i as int), a),
                forall|a: Seq<char>|
                    #[trigger] sum_first(freqs@, a) == spec_occ_count(toks.take(i as int), a),
            decreases tokens.len() - i,
        {
            let ghost pre = toks.take(i as int);
            let ghost post = toks.take(i + 1);
            proof {
                assert(post.drop_last() =~= pre);
                assert(post.last() == toks[i as int]);
                assert(post[post.len() - 2] == toks[i - 1]);
                lemma_occ_count_bound(pre, tokens@[i - 1]@);
                lemma_bigram_le_occ(pre, tokens@[i - 1]@, tokens@[i as int]@);
            }
            process_bi_gram(&tokens[i - 1], &tokens[i], &mut freqs, &mut occurences);
            i = i + 1;
        }
        proof {
            assert(toks.take(tokens@.len() as int) =~= toks);
        }
    } else {
        proof {
            assert(freqs@.len() == 0);
            assert(forall|a: Seq<char>, b: Seq<char>| #[trigger] freq_nat(freqs@, a, b) == 0);
            assert(forall|a: Seq<char>| #[trigger] occ_nat(occurences@, a) == 0);
            assert(forall|a: Seq<char>| #[trigger] sum_first(freqs@, a) == 0);
        }
    }
    FreqsAndOccurences { freqs, occurences }
}

} // verus!
