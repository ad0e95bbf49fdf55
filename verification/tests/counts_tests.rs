use bigram::counts::get_bi_gram_freqs;
use bigram::counts::process_bi_gram;
use bigram::counts::FreqEntry;
use bigram::counts::OccEntry;
use bigram::tokenizer::tokenize;
use bigram::tokenizer::Policy;

fn freq_of(fs: &[FreqEntry], a: &str, b: &str) -> Option<u64> {
    fs.iter().find(|e| e.first == a && e.second == b).map(|e| e.count)
}

fn occ_of(os: &[OccEntry], a: &str) -> Option<u64> {
    os.iter().find(|e| e.token == a).map(|e| e.count)
}

#[test]
fn counts_of_the_example_corpus() {
    let text = "the cat sat on the mat. the dog sat on the rug.";
    let tokens = tokenize(text, Policy::WhitespacePlusPunctuation);
    let r = get_bi_gram_freqs(&tokens);
    assert_eq!(occ_of(&r.occurences, "the"), Some(4));
    assert_eq!(occ_of(&r.occurences, "sat"), Some(2));
    assert_eq!(freq_of(&r.freqs, "sat", "on"), Some(2));
    assert_eq!(freq_of(&r.freqs, "the", "cat"), Some(1));
    assert_eq!(freq_of(&r.freqs, "the", "dog"), Some(1));
    assert_eq!(freq_of(&r.freqs, "the", "mat"), Some(1));
    assert_eq!(freq_of(&r.freqs, "the", "rug"), Some(1));
    assert_eq!(freq_of(&r.freqs, "mat", "."), Some(1));
    assert_eq!(freq_of(&r.freqs, ".", "the"), Some(1));
    assert_eq!(freq_of(&r.freqs, "cat", "the"), None);
    // The final "." has no successor, so only the inner one is counted.
    assert_eq!(occ_of(&r.occurences, "."), Some(1));
}

#[test]
fn partition_of_occurrence_counts() {
    let text = "the cat sat on the mat. the dog sat on the rug.";
    let tokens = tokenize(text, Policy::WhitespacePlusPunctuation);
    let r = get_bi_gram_freqs(&tokens);
    for occ in &r.occurences {
        let total: u64 = r
            .freqs
            .iter()
            .filter(|e| e.first == occ.token)
            .map(|e| e.count)
            .sum();
        assert_eq!(total, occ.count);
    }
}

#[test]
fn short_sequences_yield_empty_tables() {
    let none = get_bi_gram_freqs(&Vec::new());
    assert!(none.freqs.is_empty());
    assert!(none.occurences.is_empty());
    let one = get_bi_gram_freqs(&vec![String::from("only")]);
    assert!(one.freqs.is_empty());
    assert!(one.occurences.is_empty());
}

#[test]
fn processing_the_same_pair_twice_increments() {
    let mut freqs = Vec::new();
    let mut occurences = Vec::new();
    let a = String::from("a");
    let b = String::from("b");
    process_bi_gram(&a, &b, &mut freqs, &mut occurences);
    process_bi_gram(&a, &b, &mut freqs, &mut occurences);
    process_bi_gram(&b, &a, &mut freqs, &mut occurences);
    assert_eq!(freq_of(&freqs, "a", "b"), Some(2));
    assert_eq!(freq_of(&freqs, "b", "a"), Some(1));
    assert_eq!(occ_of(&occurences, "a"), Some(2));
    assert_eq!(occ_of(&occurences, "b"), Some(1));
}
