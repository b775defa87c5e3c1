use wordle_guesser::freqs::score;

fn word_bytes(s: &str) -> Vec<u8> {
    s.as_bytes().to_vec()
}

#[test]
fn score_exact_slate() {
    // frequency sum 429209183, five distinct letters
    assert_eq!(score(&word_bytes("slate")), 2146045915);
}

#[test]
fn score_exact_sassy() {
    // frequency sum 473350948, three distinct letters
    assert_eq!(score(&word_bytes("sassy")), 1420052844);
}

#[test]
fn sassy_scores_below_slate() {
    // "sassy" has the larger positional frequency sum, but only three
    // distinct letters against five: the multiplier decides.
    assert!(score(&word_bytes("sassy")) < score(&word_bytes("slate")));
}

#[test]
fn score_is_deterministic() {
    let a = score(&word_bytes("crane"));
    let b = score(&word_bytes("crane"));
    assert_eq!(a, b);
    assert_eq!(a, 2069059765);
}

#[test]
fn distinct_letter_bonus_concrete() {
    // "aaaag" and "kacie" have the same positional frequency sum, so their
    // scores stand in the ratio of their distinct-letter counts, 2 to 5.
    let low = score(&word_bytes("aaaag"));
    let high = score(&word_bytes("kacie"));
    assert_eq!(low * 5, high * 2);
    assert!(low < high);
    assert_eq!(low, 932489066);
    assert_eq!(high, 2331222665);
}

#[test]
fn score_single_repeated_letter() {
    // one distinct letter: the score is the bare frequency sum of "eeeee"
    assert_eq!(score(&word_bytes("eeeee")), 496902332);
}
