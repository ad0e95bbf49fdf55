use bigram::generate::generate_n;
use bigram::generate::generate_sentence;
use bigram::generate::is_punctuation;
use bigram::generate::token_ends_sentence;
use bigram::generate::StopReason;
use bigram::model::BiGramModel;
use bigram::tokenizer::Policy;
use rand::SeedableRng;

const CORPUS: &str = "the cat sat on the mat. the dog sat on the rug.";

#[test]
fn sentence_end_marks() {
    assert!(is_punctuation('.'));
    assert!(is_punctuation('!'));
    assert!(is_punctuation('?'));
    assert!(!is_punctuation(','));
    assert!(token_ends_sentence(&String::from("mat.")));
    assert!(!token_ends_sentence(&String::from("mat")));
    assert!(!token_ends_sentence(&String::from("")));
}

#[test]
fn unknown_prompt_stops_immediately() {
    let m = BiGramModel::new(CORPUS, Policy::WhitespacePlusPunctuation);
    let mut rng = rand::rngs::StdRng::seed_from_u64(1);
    let r = generate_sentence(&m, &mut rng, "zebra", 100);
    assert_eq!(r.reason, StopReason::UnrecognizedWord);
    assert_eq!(r.unknown.as_deref(), Some("zebra"));
    assert!(r.tokens.is_empty());
    let r2 = generate_n(&m, &mut rng, "zebra", 10);
    assert_eq!(r2.reason, StopReason::UnrecognizedWord);
    assert_eq!(r2.unknown.as_deref(), Some("zebra"));
    assert!(r2.tokens.is_empty());
}

#[test]
fn empty_model_rejects_every_prompt() {
    let m = BiGramModel::new("", Policy::WhitespacePlusPunctuation);
    let mut rng = rand::rngs::StdRng::seed_from_u64(2);
    let r = generate_n(&m, &mut rng, "anything", 5);
    assert_eq!(r.reason, StopReason::UnrecognizedWord);
    assert_eq!(r.unknown.as_deref(), Some("anything"));
    assert!(r.tokens.is_empty());
}

#[test]
fn single_successor_chain_ends_the_sentence() {
    // Every token has exactly one successor, so the walk is deterministic.
    let m = BiGramModel::new("a b .", Policy::WhitespacePlusPunctuation);
    let mut rng = rand::rngs::StdRng::seed_from_u64(3);
    let r = generate_sentence(&m, &mut rng, "a", 100);
    assert_eq!(r.reason, StopReason::SentenceEnd);
    assert_eq!(r.tokens, vec!["a", "b", "."]);
    assert_eq!(r.unknown, None);
}

#[test]
fn fixed_length_walks_a_deterministic_chain() {
    let m = BiGramModel::new("a b c d e", Policy::WhitespacePlusPunctuation);
    let mut rng = rand::rngs::StdRng::seed_from_u64(4);
    let r = generate_n(&m, &mut rng, "a", 3);
    assert_eq!(r.reason, StopReason::Limit);
    assert_eq!(r.tokens, vec!["a", "b", "c"]);
    let r2 = generate_n(&m, &mut rng, "a", 10);
    // The walk dies on "e", the corpus's final token, which has no entry.
    assert_eq!(r2.reason, StopReason::UnrecognizedWord);
    assert_eq!(r2.tokens, vec!["a", "b", "c", "d"]);
    assert_eq!(r2.unknown.as_deref(), Some("e"));
}

#[test]
fn budget_stops_a_cyclic_walk() {
    let m = BiGramModel::new("a b a b a b", Policy::WhitespacePlusPunctuation);
    let mut rng = rand::rngs::StdRng::seed_from_u64(5);
    let r = generate_sentence(&m, &mut rng, "a", 7);
    assert_eq!(r.reason, StopReason::Limit);
    assert_eq!(r.tokens.len(), 7);
    assert_eq!(r.tokens, vec!["a", "b", "a", "b", "a", "b", "a"]);
}

#[test]
fn generated_pairs_are_observed_bigrams() {
    let m = BiGramModel::new(CORPUS, Policy::WhitespacePlusPunctuation);
    let mut rng = rand::rngs::StdRng::seed_from_u64(6);
    let r = generate_n(&m, &mut rng, "the", 20);
    for w in r.tokens.windows(2) {
        let e = m.entries.iter().find(|e| e.first == w[0]).expect("pair's first is known");
        assert!(e.options.opts.iter().any(|o| o.next == w[1]));
    }
}

#[test]
fn seeded_generation_reproduces_the_golden_sequence() {
    let m = BiGramModel::new(CORPUS, Policy::WhitespacePlusPunctuation);
    let mut rng = rand::rngs::StdRng::seed_from_u64(42);
    let r = generate_n(&m, &mut rng, "the", 6);
    assert_eq!(r.reason, StopReason::Limit);
    let got: Vec<&str> = r.tokens.iter().map(|t| t.as_str()).collect();
    assert_eq!(got, vec!["the", "dog", "sat", "on", "the", "rug"]);
}
