use bigram::tokenizer::get_punctuation_str;
use bigram::tokenizer::is_punctuation;
use bigram::tokenizer::is_whitespace;
use bigram::tokenizer::tokenize;
use bigram::tokenizer::Policy;

fn toks(text: &str, p: Policy) -> Vec<String> {
    tokenize(text, p)
}

#[test]
fn whitespace_only_keeps_punctuation_attached() {
    let t = toks("the cat. sat", Policy::WhitespaceOnly);
    assert_eq!(t, vec!["the", "cat.", "sat"]);
}

#[test]
fn punctuation_policy_peels_trailing_mark() {
    let t = toks("the cat.", Policy::WhitespacePlusPunctuation);
    assert_eq!(t, vec!["the", "cat", "."]);
}

#[test]
fn punctuation_policy_peels_leading_and_trailing() {
    let t = toks("(cat)", Policy::WhitespacePlusPunctuation);
    assert_eq!(t, vec!["(", "cat", ")"]);
}

#[test]
fn punctuation_policy_peels_one_of_each_side_only() {
    let t = toks("a!!", Policy::WhitespacePlusPunctuation);
    assert_eq!(t, vec!["a!", "!"]);
}

#[test]
fn lone_punctuation_is_a_token() {
    let t = toks(".", Policy::WhitespacePlusPunctuation);
    assert_eq!(t, vec!["."]);
}

#[test]
fn two_punctuation_marks_split() {
    let t = toks("!!", Policy::WhitespacePlusPunctuation);
    assert_eq!(t, vec!["!", "!"]);
}

#[test]
fn empty_text_has_no_tokens() {
    assert_eq!(toks("", Policy::WhitespacePlusPunctuation), Vec::<String>::new());
    assert_eq!(toks("", Policy::WhitespaceOnly), Vec::<String>::new());
}

#[test]
fn whitespace_runs_are_collapsed() {
    let t = toks("  a \t b \n", Policy::WhitespaceOnly);
    assert_eq!(t, vec!["a", "b"]);
}

#[test]
fn unicode_whitespace_separates() {
    let t = toks("a\u{2003}b\u{a0}c", Policy::WhitespaceOnly);
    assert_eq!(t, vec!["a", "b", "c"]);
}

#[test]
fn tokenization_is_deterministic() {
    let text = "the cat sat on the mat. the dog sat on the rug.";
    let a = toks(text, Policy::WhitespacePlusPunctuation);
    let b = toks(text, Policy::WhitespacePlusPunctuation);
    assert_eq!(a, b);
    let c = toks(text, Policy::WhitespaceOnly);
    let d = toks(text, Policy::WhitespaceOnly);
    assert_eq!(c, d);
}

#[test]
fn punctuation_set_is_exact() {
    for c in ['!', '.', ',', ';', ':', '-', '"', '\'', '(', ')', '[', ']', '/'] {
        assert!(is_punctuation(c));
    }
    for c in ['a', '?', ' ', '0', '{'] {
        assert!(!is_punctuation(c));
    }
}

#[test]
fn whitespace_set_matches_unicode() {
    for c in [' ', '\t', '\n', '\r', '\u{a0}', '\u{2028}', '\u{3000}'] {
        assert!(is_whitespace(c));
        assert!(c.is_whitespace());
    }
    for c in ['a', '.', '\u{200b}'] {
        assert!(!is_whitespace(c));
        assert!(!c.is_whitespace());
    }
}

#[test]
fn punctuation_str_holds_the_character() {
    assert_eq!(get_punctuation_str('.'), ".");
    assert_eq!(get_punctuation_str('\''), "'");
}
