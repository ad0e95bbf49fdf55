use bigram::model::select;
use bigram::model::BiGramModel;
use bigram::model::ModelEntry;
use bigram::model::NextWordOption;
use bigram::tokenizer::Policy;
use rand::SeedableRng;

fn entry_of<'a>(m: &'a BiGramModel, first: &str) -> Option<&'a ModelEntry> {
    m.entries.iter().find(|e| e.first == first)
}

const CORPUS: &str = "the cat sat on the mat. the dog sat on the rug.";

#[test]
fn successors_of_the_example_corpus() {
    let m = BiGramModel::new(CORPUS, Policy::WhitespacePlusPunctuation);
    let e = entry_of(&m, "the").expect("the must have an entry");
    assert_eq!(e.options.denom, 4);
    assert_eq!(e.options.sum, 4);
    assert_eq!(e.options.opts.len(), 4);
    let mut nexts: Vec<&str> = e.options.opts.iter().map(|o| o.next.as_str()).collect();
    nexts.sort();
    assert_eq!(nexts, vec!["cat", "dog", "mat", "rug"]);
    for o in &e.options.opts {
        assert_eq!(o.numer, 1);
    }
}

#[test]
fn certain_successor_has_probability_one() {
    let m = BiGramModel::new(CORPUS, Policy::WhitespacePlusPunctuation);
    let e = entry_of(&m, "sat").expect("sat must have an entry");
    assert_eq!(e.options.opts.len(), 1);
    assert_eq!(e.options.opts[0].next, "on");
    // numer == denom: probability exactly 1.0
    assert_eq!(e.options.opts[0].numer, 2);
    assert_eq!(e.options.denom, 2);
    assert_eq!(e.options.opts[0].numer as f64 / e.options.denom as f64, 1.0);
}

#[test]
fn probability_sums_are_exactly_one() {
    let m = BiGramModel::new(CORPUS, Policy::WhitespacePlusPunctuation);
    assert!(!m.entries.is_empty());
    for e in &m.entries {
        let total: u64 = e.options.opts.iter().map(|o| o.numer).sum();
        assert_eq!(total, e.options.sum);
        assert_eq!(e.options.sum, e.options.denom);
        let float_sum: f64 =
            e.options.opts.iter().map(|o| o.numer as f64 / e.options.denom as f64).sum();
        assert!((float_sum - 1.0).abs() < 1e-9);
    }
}

#[test]
fn probabilities_recover_the_counts() {
    let m = BiGramModel::new(CORPUS, Policy::WhitespacePlusPunctuation);
    let e = entry_of(&m, "the").unwrap();
    for o in &e.options.opts {
        let p = o.numer as f64 / e.options.denom as f64;
        let recovered = p * e.options.denom as f64;
        assert_eq!(recovered, o.numer as f64);
    }
}

#[test]
fn empty_corpus_yields_empty_model() {
    let m = BiGramModel::new("", Policy::WhitespacePlusPunctuation);
    assert_eq!(m.entries.len(), 0);
    let one = BiGramModel::new("word", Policy::WhitespacePlusPunctuation);
    assert_eq!(one.entries.len(), 0);
}

#[test]
fn unseen_token_yields_none() {
    let m = BiGramModel::new(CORPUS, Policy::WhitespacePlusPunctuation);
    let mut rng = rand::rngs::StdRng::seed_from_u64(7);
    assert_eq!(m.get_next("zebra", &mut rng), None);
    // The final token of the corpus is never a bigram's first element here.
    assert!(entry_of(&m, "zebra").is_none());
}

#[test]
fn sampled_successor_is_an_observed_one() {
    let m = BiGramModel::new(CORPUS, Policy::WhitespacePlusPunctuation);
    let mut rng = rand::rngs::StdRng::seed_from_u64(11);
    for _ in 0..100 {
        let next = m.get_next("the", &mut rng).expect("the is known");
        assert!(["cat", "dog", "mat", "rug"].contains(&next.as_str()));
    }
}

#[test]
fn select_follows_the_cumulative_rule() {
    let opts = vec![
        NextWordOption { next: String::from("a"), numer: 3 },
        NextWordOption { next: String::from("b"), numer: 1 },
    ];
    assert_eq!(select(&opts, 0), 0);
    assert_eq!(select(&opts, 1), 0);
    assert_eq!(select(&opts, 2), 0);
    assert_eq!(select(&opts, 3), 1);
    let more = vec![
        NextWordOption { next: String::from("x"), numer: 1 },
        NextWordOption { next: String::from("y"), numer: 2 },
        NextWordOption { next: String::from("z"), numer: 1 },
    ];
    assert_eq!(select(&more, 0), 0);
    assert_eq!(select(&more, 1), 1);
    assert_eq!(select(&more, 2), 1);
    assert_eq!(select(&more, 3), 2);
}

#[test]
fn sampling_frequencies_match_the_weights() {
    // "t" has successors a (probability 3/4) and b (probability 1/4).
    let m = BiGramModel::new("t a t a t a t b", Policy::WhitespacePlusPunctuation);
    let e = entry_of(&m, "t").unwrap();
    assert_eq!(e.options.denom, 4);
    let mut rng = rand::rngs::StdRng::seed_from_u64(42);
    let n = 100_000;
    let mut count_a = 0u64;
    let mut count_b = 0u64;
    for _ in 0..n {
        match m.get_next("t", &mut rng).unwrap().as_str() {
            "a" => count_a += 1,
            "b" => count_b += 1,
            other => panic!("unexpected successor {}", other),
        }
    }
    assert_eq!(count_a + count_b, n);
    let freq_a = count_a as f64 / n as f64;
    assert!((freq_a - 0.75).abs() < 0.01, "frequency of a was {}", freq_a);
}
