//! The bigram model: for each token that was ever followed by another, a
//! weighted list of its observed successors.
//!
//! Probabilities are exact rationals over a common denominator: a successor
//! with `numer = k` under a first token whose occurrence count is `denom`
//! has probability `k / denom`.  The `sum` field of each entry carries the
//! numerator total of its options, and equals `denom` once the model is
//! built, so the probabilities under each first token sum to exactly one.

use vstd::prelude::*;
use crate::counts::FreqsAndOccurences;
use crate::counts::FreqEntry;
use crate::counts::freq_nat;
use crate::counts::occ_nat;
use crate::counts::sum_first;
use crate::counts::freq_contrib;
use crate::counts::tables_wf;
use crate::counts::spec_bigram_count;
use crate::counts::spec_occ_count;
use crate::counts::lemma_freq_nat_absent;
use crate::counts::lemma_occ_nat_found;

verus! {

/// One successor of a first token, with the numerator of its probability:
/// the count of the bigram `(first, next)`.
pub struct NextWordOption {
    pub next: String,
    pub numer: u64,
}

/// The successors of one first token.  `denom` is the occurrence count of
/// the first token and the common denominator of the probabilities; `sum`
/// is the total of the options' numerators.
pub struct BiGramOptions {
    pub sum: u64,
    pub denom: u64,
    pub opts: Vec<NextWordOption>,
}

/// One first token together with its weighted successor list.
pub struct ModelEntry {
    pub first: String,
    pub options: BiGramOptions,
}

/// The immutable bigram model: a mapping from a first token to its
/// weighted successor list.
pub struct BiGramModel {
    pub entries: Vec<ModelEntry>,
}

/// The sum of the numerators of the first `j` options: the cumulative
/// weight below option `j`.
pub open spec fn prefix_total(opts: Seq<NextWordOption>, j: int) -> nat
    decreases j,
{
    if j <= 0 {
        0
    } else {
        prefix_total(opts, j - 1) + opts[j - 1].numer as nat
    }
}

/// The total weight of all options.
pub open spec fn opts_total(opts: Seq<NextWordOption>) -> nat {
    prefix_total(opts, opts.len() as int)
}

/// What one option contributes to the weight of successor `b`.
pub open spec fn opt_contrib(o: NextWordOption, b: Seq<char>) -> nat {
    if o.next@ == b {
        o.numer as nat
    } else {
        0
    }
}

/// The weight that the option list gives to successor `b`; zero if absent.
pub open spec fn entry_numer(opts: Seq<NextWordOption>, b: Seq<char>) -> nat
    decreases opts.len(),
{
    if opts.len() == 0 {
        0
    } else {
        entry_numer(opts.drop_last(), b) + opt_contrib(opts.last(), b)
    }
}

/// What one entry contributes to the occurrence count of first token `a`.
pub open spec fn entry_occ_contrib(e: ModelEntry, a: Seq<char>) -> nat {
    if e.first@ == a {
        e.options.denom as nat
    } else {
        0
    }
}

/// The occurrence count that the model holds for first token `a`.
pub open spec fn model_occ(m: Seq<ModelEntry>, a: Seq<char>) -> nat
    decreases m.len(),
{
    if m.len() == 0 {
        0
    } else {
        model_occ(m.drop_last(), a) + entry_occ_contrib(m.last(), a)
    }
}

/// What one entry contributes to the weight of the bigram `(a, b)`.
pub open spec fn entry_numer_contrib(e: ModelEntry, a: Seq<char>, b: Seq<char>) -> nat {
    if e.first@ == a {
        entry_numer(e.options.opts@, b)
    } else {
        0
    }
}

/// The weight that the model gives to the bigram `(a, b)`.
pub open spec fn model_numer(m: Seq<ModelEntry>, a: Seq<char>, b: Seq<char>) -> nat
    decreases m.len(),
{
    if m.len() == 0 {
        0
    } else {
        model_numer(m.drop_last(), a, b) + entry_numer_contrib(m.last(), a, b)
    }
}

/// Well-formedness of one entry: positive weights, distinct successors,
/// and a `sum` that is the total of the weights and equals the
/// denominator, so the probabilities sum to exactly one.
pub open spec fn entry_wf(e: ModelEntry) -> bool {
    &&& e.options.denom > 0
    &&& e.options.opts@.len() > 0
    &&& e.options.sum == opts_total(e.options.opts@)
    &&& e.options.sum == e.options.denom
    &&& forall|j: int| 0 <= j < e.options.opts@.len() ==> e.options.opts@[j].numer > 0
    &&& forall|j: int, k: int|
        0 <= j < k < e.options.opts@.len() ==> e.options.opts@[j].next@ != e.options.opts@[k].next@
}

/// Well-formedness of the whole model: every entry is well-formed and no
/// first token has two entries.
pub open spec fn model_wf(m: Seq<ModelEntry>) -> bool {
    &&& forall|i: int| 0 <= i < m.len() ==> entry_wf(#[trigger] m[i])
    &&& forall|i: int, j: int| 0 <= i < j < m.len() ==> m[i].first@ != m[j].first@
}

/// The model holds exactly the bigram statistics of the token sequence.
pub open spec fn model_matches(m: Seq<ModelEntry>, toks: Seq<Seq<char>>) -> bool {
    &&& forall|a: Seq<char>| #[trigger] model_occ(m, a) == spec_occ_count(toks, a)
    &&& forall|a: Seq<char>, b: Seq<char>|
        #[trigger] model_numer(m, a, b) == spec_bigram_count(toks, a, b)
}

/// Two option lists that agree below `j` have the same cumulative weight
/// below `j`.
proof fn lemma_prefix_total_agree(s1: Seq<NextWordOption>, s2: Seq<NextWordOption>, j: int)
    requires
        0 <= j <= s1.len(),
        j <= s2.len(),
        forall|k: int| 0 <= k < j ==> s1[k] == s2[k],
    ensures
        prefix_total(s1, j) == prefix_total(s2, j),
    decreases j,
{
    if j > 0 {
        lemma_prefix_total_agree(s1, s2, j - 1);
    }
}

/// Appending an option adds its weight to the total.
pub proof fn lemma_opts_total_push(opts: Seq<NextWordOption>, o: NextWordOption)
    ensures
        opts_total(opts.push(o)) == opts_total(opts) + o.numer,
{
    lemma_prefix_total_agree(opts, opts.push(o), opts.len() as int);
}

/// The cumulative weight grows with the index.
pub proof fn lemma_prefix_total_mono(opts: Seq<NextWordOption>, j1: int, j2: int)
    requires
        0 <= j1 <= j2,
    ensures
        prefix_total(opts, j1) <= prefix_total(opts, j2),
    decreases j2 - j1,
{
    if j1 < j2 {
        lemma_prefix_total_mono(opts, j1, j2 - 1);
    }
}

/// Appending an option adds its contribution to the weight of every
/// successor.
pub proof fn lemma_entry_numer_push(opts: Seq<NextWordOption>, o: NextWordOption, b: Seq<char>)
    ensures
        entry_numer(opts.push(o), b) == entry_numer(opts, b) + opt_contrib(o, b),
{
    assert(opts.push(o).drop_last() =~= opts);
}

/// A successor absent from the option list has weight zero.
pub proof fn lemma_entry_numer_absent(opts: Seq<NextWordOption>, b: Seq<char>)
    requires
        forall|k: int| 0 <= k < opts.len() ==> #[trigger] opts[k].next@ != b,
    ensures
        entry_numer(opts, b) == 0,
    decreases opts.len(),
{
    if opts.len() > 0 {
        lemma_entry_numer_absent(opts.drop_last(), b);
    }
}

/// In an option list with distinct successors, the weight of a successor
/// is the numerator stored in its option.
pub proof fn lemma_entry_numer_found(opts: Seq<NextWordOption>, j: int, b: Seq<char>)
    requires
        forall|x: int, y: int| 0 <= x < y < opts.len() ==> opts[x].next@ != opts[y].next@,
        0 <= j < opts.len(),
        opts[j].next@ == b,
    ensures
        entry_numer(opts, b) == opts[j].numer,
    decreases opts.len(),
{
    if j == opts.len() - 1 {
        lemma_entry_numer_absent(opts.drop_last(), b);
    } else {
        lemma_entry_numer_found(opts.drop_last(), j, b);
    }
}

/// Appending an entry adds its contributions to the model's counts.
pub proof fn lemma_model_push(m: Seq<ModelEntry>, e: ModelEntry, a: Seq<char>, b: Seq<char>)
    ensures
        model_occ(m.push(e), a) == model_occ(m, a) + entry_occ_contrib(e, a),
        model_numer(m.push(e), a, b) == model_numer(m, a, b) + entry_numer_contrib(e, a, b),
{
    assert(m.push(e).drop_last() =~= m);
}

/// A first token absent from the model has occurrence count zero and gives
/// every bigram weight zero.
pub proof fn lemma_model_absent(m: Seq<ModelEntry>, a: Seq<char>, b: Seq<char>)
    requires
        forall|k: int| 0 <= k < m.len() ==> #[trigger] m[k].first@ != a,
    ensures
        model_occ(m, a) == 0,
        model_numer(m, a, b) == 0,
    decreases m.len(),
{
    if m.len() > 0 {
        lemma_model_absent(m.drop_last(), a, b);
    }
}

/// In a model with distinct first tokens, the counts for a first token are
/// the ones stored in its entry.
pub proof fn lemma_model_found(m: Seq<ModelEntry>, i: int, a: Seq<char>, b: Seq<char>)
    requires
        forall|x: int, y: int| 0 <= x < y < m.len() ==> m[x].first@ != m[y].first@,
        0 <= i < m.len(),
        m[i].first@ == a,
    ensures
        model_occ(m, a) == m[i].options.denom,
        model_numer(m, a, b) == entry_numer(m[i].options.opts@, b),
    decreases m.len(),
{
    if i == m.len() - 1 {
        lemma_model_absent(m.drop_last(), a, b);
    } else {
        lemma_model_found(m.drop_last(), i, a, b);
    }
}

/// The weight of one bigram is at most the total weight of its first
/// token's bigrams.
proof fn lemma_freq_le_sum_first(fs: Seq<FreqEntry>, a: Seq<char>, b: Seq<char>)
    ensures
        freq_nat(fs, a, b) <= sum_first(fs, a),
    decreases fs.len(),
{
    if fs.len() > 0 {
        lemma_freq_le_sum_first(fs.drop_last(), a, b);
    }
}

/// The total weight under `a` within a prefix is at most the total over
/// the whole table.
proof fn lemma_sum_first_take_le(fs: Seq<FreqEntry>, a: Seq<char>, j: int)
    requires
        0 <= j <= fs.len(),
    ensures
        sum_first(fs.take(j), a) <= sum_first(fs, a),
    decreases fs.len() - j,
{
    if j == fs.len() {
        assert(fs.take(j) =~= fs);
    } else {
        assert(fs.take(j + 1).drop_last() =~= fs.take(j));
        lemma_sum_first_take_le(fs, a, j + 1);
    }
}

/// Collects the successors of `token` out of the bigram table: every
/// bigram whose first token is `token` becomes one option whose numerator
/// is the bigram's count.
fn collect_options(fs: &Vec<FreqEntry>, token: &String, denom: u64) -> (r: BiGramOptions)
    requires
        crate::counts::freqs_distinct(fs@),
        forall|k: int| 0 <= k < fs@.len() ==> fs@[k].count > 0,
        sum_first(fs@, token@) == denom,
    ensures
        r.denom == denom,
        r.sum == denom,
        r.sum == opts_total(r.opts@),
        forall|j: int| 0 <= j < r.opts@.len() ==> r.opts@[j].numer > 0,
        forall|x: int, y: int| 0 <= x < y < r.opts@.len() ==> r.opts@[x].next@ != r.opts@[y].next@,
        forall|b: Seq<char>| #[trigger] entry_numer(r.opts@, b) == freq_nat(fs@, token@, b),
{
    let mut opts: Vec<NextWordOption> = Vec::new();
    let mut sum: u64 = 0;
    let n = fs.len();
    let mut j: usize = 0;
    while j < n
        invariant
            j <= n,
            n == fs@.len(),
            crate::counts::freqs_distinct(fs@),
            forall|k: int| 0 <= k < fs@.len() ==> fs@[k].count > 0,
            sum_first(fs@, token@) == denom,
            sum == sum_first(fs@.take(j as int), token@),
            sum == opts_total(opts@),
            forall|k: int| 0 <= k < opts@.len() ==> opts@[k].numer > 0,
            forall|x: int, y: int| 0 <= x < y < opts@.len() ==> opts@[x].next@ != opts@[y].next@,
            forall|b: Seq<char>|
                #[trigger] entry_numer(opts@, b) == freq_nat(fs@.take(j as int), token@, b),
        decreases n - j,
    {
        proof {
            assert(fs@.take(j + 1).drop_last() =~= fs@.take(j as int));
            assert(fs@.take(j + 1).last() == fs@[j as int]);
        }
        if fs[j].first == *token {
            let c = fs[j].count;
            proof {
                lemma_sum_first_take_le(fs@, token@, j + 1);
                assert(sum_first(fs@.take(j + 1), token@) == sum + c);
                assert forall|x: int| 0 <= x < opts@.len() implies opts@[x].next@
                    != fs@[j as int].second@ by {
                    if opts@[x].next@ == fs@[j as int].second@ {
                        lemma_entry_numer_found(opts@, x, opts@[x].next@);
                        lemma_freq_nat_absent(fs@.take(j as int), token@, fs@[j as int].second@);
                    }
                }
            }
            let o = NextWordOption { next: fs[j].second.clone(), numer: c };
            let ghost oldopts = opts@;
            opts.push(o);
            sum = sum + c;
            proof {
                lemma_opts_total_push(oldopts, opts@.last());
                assert forall|b: Seq<char>|
                    #[trigger] entry_numer(opts@, b) == freq_nat(fs@.take(j + 1), token@, b) by {
                    lemma_entry_numer_push(oldopts, opts@.last(), b);
                }
            }
        } else {
            proof {
                assert forall|b: Seq<char>|
                    #[trigger] entry_numer(opts@, b) == freq_nat(fs@.take(j + 1), token@, b) by {
                    assert(freq_contrib(fs@[j as int], token@, b) == 0);
                }
            }
        }
        j = j + 1;
    }
    proof {
        assert(fs@.take(n as int) =~= fs@);
    }
    BiGramOptions { sum, denom, opts }
}

/// Builds the probability table out of the two count tables.
///
/// Every first token of the occurrence table gets one entry whose options
/// are exactly the bigrams recorded under it; each option's probability is
/// its bigram count over the first token's occurrence count, and the
/// probabilities under each first token sum to exactly one.
pub fn create_bi_gram(freqs_and_occurrences: FreqsAndOccurences) -> (r: BiGramModel)
    requires
        tables_wf(freqs_and_occurrences.freqs@, freqs_and_occurrences.occurences@),
    ensures
        model_wf(r.entries@),
        forall|a: Seq<char>|
            #[trigger] model_occ(r.entries@, a) == occ_nat(freqs_and_occurrences.occurences@, a),
        forall|a: Seq<char>, b: Seq<char>|
            #[trigger] model_numer(r.entries@, a, b) == freq_nat(
                freqs_and_occurrences.freqs@,
                a,
                b,
            ),
{
    let fs = freqs_and_occurrences.freqs;
    let os = freqs_and_occurrences.occurences;
    let mut entries: Vec<ModelEntry> = Vec::new();
    let n = os.len();
    let mut t: usize = 0;
    while t < n
        invariant
            t <= n,
            n == os@.len(),
            tables_wf(fs@, os@),
            entries@.len() == t,
            forall|i: int| 0 <= i < t ==> entries@[i].first@ == os@[i].token@,
            forall|i: int| 0 <= i < t ==> entry_wf(#[trigger] entries@[i]),
            forall|a: Seq<char>| #[trigger] model_occ(entries@, a) == occ_nat(os@.take(t as int), a),
            forall|a: Seq<char>, b: Seq<char>|
                #[trigger] model_numer(entries@, a, b) == (if occ_nat(os@.take(t as int), a) > 0 {
                    freq_nat(fs@, a, b)
                } else {
                    0
                }),
        decreases n - t,
    {
        proof {
            assert(os@.take(t + 1).drop_last() =~= os@.take(t as int));
            assert(os@.take(t + 1).last() == os@[t as int]);
            lemma_occ_nat_found(os@, t as int, os@[t as int].token@);
        }
        let denom = os[t].count;
        let options = collect_options(&fs, &os[t].token, denom);
        let e = ModelEntry { first: os[t].token.clone(), options };
        let ghost oldm = entries@;
        entries.push(e);
        proof {
            let a0 = os@[t as int].token@;
            crate::counts::lemma_occ_nat_absent(os@.take(t as int), a0);
            assert forall|a: Seq<char>|
                #[trigger] model_occ(entries@, a) == occ_nat(os@.take(t + 1), a) by {
                lemma_model_push(oldm, entries@.last(), a, a);
            }
            assert forall|a: Seq<char>, b: Seq<char>|
                #[trigger] model_numer(entries@, a, b) == (if occ_nat(os@.take(t + 1), a) > 0 {
                    freq_nat(fs@, a, b)
                } else {
                    0
                }) by {
                lemma_model_push(oldm, entries@.last(), a, b);
                if a == a0 {
                    assert(occ_nat(os@.take(t as int), a0) == 0);
                } else {
                    assert(entry_numer_contrib(entries@.last(), a, b) == 0);
                }
            }
        }
        t = t + 1;
    }
    proof {
        assert(os@.take(n as int) =~= os@);
        assert forall|a: Seq<char>, b: Seq<char>|
            #[trigger] model_numer(entries@, a, b) == freq_nat(fs@, a, b) by {
            if occ_nat(os@, a) == 0 {
                lemma_freq_le_sum_first(fs@, a, b);
            }
        }
    }
    BiGramModel { entries }
}

/// Probability-sum invariant: in a well-formed model the probabilities
/// under one first token sum to exactly one, since the total of the
/// numerators equals the common denominator.
pub proof fn lemma_probability_sum(m: Seq<ModelEntry>, i: int)
    requires
        model_wf(m),
        0 <= i < m.len(),
    ensures
        opts_total(m[i].options.opts@) == m[i].options.denom,
        m[i].options.sum == m[i].options.denom,
{
}

/// Count partition law: scaling an option's probability by the first
/// token's occurrence count recovers the integer bigram count, and the
/// bigram counts under one first token partition its occurrence count.
pub proof fn lemma_count_partition(m: Seq<ModelEntry>, toks: Seq<Seq<char>>, i: int, j: int)
    requires
        model_wf(m),
        model_matches(m, toks),
        0 <= i < m.len(),
        0 <= j < m[i].options.opts@.len(),
    ensures
        m[i].options.opts@[j].numer == spec_bigram_count(
            toks,
            m[i].first@,
            m[i].options.opts@[j].next@,
        ),
        m[i].options.denom == spec_occ_count(toks, m[i].first@),
        opts_total(m[i].options.opts@) == spec_occ_count(toks, m[i].first@),
{
    lemma_model_found(m, i, m[i].first@, m[i].options.opts@[j].next@);
    lemma_entry_numer_found(m[i].options.opts@, j, m[i].options.opts@[j].next@);
}

/// A model that matches a corpus of fewer than two tokens holds no entry.
pub proof fn lemma_empty_corpus(m: Seq<ModelEntry>, toks: Seq<Seq<char>>)
    requires
        model_wf(m),
        model_matches(m, toks),
        toks.len() < 2,
    ensures
        m.len() == 0,
{
    if m.len() > 0 {
        lemma_model_found(m, 0, m[0].first@, m[0].first@);
        assert(model_occ(m, m[0].first@) == m[0].options.denom);
        assert(spec_occ_count(toks, m[0].first@) == 0);
    }
}

/// Sampling fidelity, mass of one option: the draws that make the
/// cumulative rule select option `j` are exactly the values in
/// `[prefix_j, prefix_j + numer_j)` — so out of `opts_total` equally
/// likely draws, exactly `numer_j` select option `j`, whatever the order
/// of the list.
pub proof fn lemma_selection_mass(opts: Seq<NextWordOption>, j: int)
    requires
        0 <= j < opts.len(),
    ensures
        prefix_total(opts, j + 1) == prefix_total(opts, j) + opts[j].numer,
{
}

/// Sampling fidelity, uniqueness: a draw selects exactly one option under
/// the cumulative rule.
pub proof fn lemma_selection_unique(opts: Seq<NextWordOption>, r: nat, j1: int, j2: int)
    requires
        0 <= j1 < opts.len(),
        0 <= j2 < opts.len(),
        prefix_total(opts, j1) <= r < prefix_total(opts, j1 + 1),
        prefix_total(opts, j2) <= r < prefix_total(opts, j2 + 1),
    ensures
        j1 == j2,
{
    if j1 < j2 {
        lemma_prefix_total_mono(opts, j1 + 1, j2);
    } else if j2 < j1 {
        lemma_prefix_total_mono(opts, j2 + 1, j1);
    }
}

/// Selects the option that the draw `r` falls on under the ascending
/// cumulative-sum rule: the first option whose cumulative upper bound
/// exceeds `r`.
pub fn select(opts: &Vec<NextWordOption>, r: u64) -> (idx: usize)
    requires
        (r as nat) < opts_total(opts@),
    ensures
        idx < opts@.len(),
        prefix_total(opts@, idx as int) <= r < prefix_total(opts@, idx as int + 1),
{
    let n = opts.len();
    let mut acc: u64 = 0;
    let mut j: usize = 0;
    while j < n
        invariant
            j <= n,
            n == opts@.len(),
            (r as nat) < opts_total(opts@),
            acc == prefix_total(opts@, j as int),
            acc <= r,
        decreases n - j,
    {
        if r - acc < opts[j].numer {
            return j;
        }
        acc = acc + opts[j].numer;
        j = j + 1;
    }
    proof {
        assert(false);
    }
    0
}

/// Finds the entry whose first token is `a`, if any.
fn find_entry(entries: &Vec<ModelEntry>, a: &String) -> (r: Option<usize>)
    ensures
        match r {
            Some(i) => i < entries@.len() && entries@[i as int].first@ == a@,
            None => forall|k: int| 0 <= k < entries@.len() ==> #[trigger] entries@[k].first@ != a@,
        },
{
    let mut i: usize = 0;
    while i < entries.len()
        invariant
            i <= entries@.len(),
            forall|k: int| 0 <= k < i ==> #[trigger] entries@[k].first@ != a@,
        decreases entries@.len() - i,
    {
        if entries[i].first == *a {
            return Some(i);
        }
        i = i + 1;
    }
    None
}

impl BiGramModel {
    /// Builds the model of `text` under the tokenization policy `policy`:
    /// tokenization, bigram counting, then the probability table.
    ///
    /// A text of fewer than two tokens yields a model with no entries.
    pub fn new(text: &str, policy: crate::tokenizer::Policy) -> (r: BiGramModel)
        ensures
            model_wf(r.entries@),
            model_matches(r.entries@, crate::tokenizer::spec_tokenize(text@, policy)),
    {
        let tokens = crate::tokenizer::tokenize(text, policy);
        let freqs_and_occurrences = crate::counts::get_bi_gram_freqs(&tokens);
        create_bi_gram(freqs_and_occurrences)
    }

    /// Draws a successor of `first` proportionally to the stored weights,
    /// or returns `None` when `first` was never observed as the first
    /// element of a bigram.
    ///
    /// A successor is returned if and only if the model holds an entry
    /// for `first`, and every returned token is an observed successor of
    /// `first`.
    pub fn get_next(&self, first: &str, rng: &mut rand::rngs::StdRng) -> (r: Option<String>)
        requires
            model_wf(self.entries@),
        ensures
            r is Some <==> model_occ(self.entries@, first@) > 0,
            r matches Some(t) ==> model_numer(self.entries@, first@, t@) > 0,
    {
        let key: String = first.to_owned();
        match find_entry(&self.entries, &key) {
            None => {
                proof {
                    lemma_model_absent(self.entries@, first@, first@);
                }
                None
            },
            Some(i) => {
                let denom = self.entries[i].options.denom;
                let num = crate::randsrc::rand_below(rng, denom);
                let idx = select(&self.entries[i].options.opts, num);
                let t = self.entries[i].options.opts[idx].next.clone();
                proof {
                    lemma_model_found(self.entries@, i as int, first@, t@);
                    lemma_entry_numer_found(self.entries@[i as int].options.opts@, idx as int, t@);
                }
                Some(t)
            },
        }
    }
}

} // verus!
