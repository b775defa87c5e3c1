use wordle_guesser::guesser::{Guesser, SuggestError};
use wordle_guesser::hints::Hints;

fn corpus(words: &[&str]) -> Vec<Vec<u8>> {
    words.iter().map(|w| w.as_bytes().to_vec()).collect()
}

#[test]
fn suggest_picks_highest_scoring_word() {
    // angle scores 1585049195, above apple (1196793000) and apply (1094205536)
    let guesser = Guesser::new(corpus(&["apple", "apply", "angle"]));
    assert_eq!(guesser.suggest().unwrap(), &b"angle".to_vec());
}

#[test]
fn suggest_fails_on_empty_corpus() {
    let guesser = Guesser::new(corpus(&[]));
    assert_eq!(guesser.suggest(), Err(SuggestError::PoolExhausted));
}

#[test]
fn duplicates_in_corpus_are_harmless() {
    let guesser = Guesser::new(corpus(&["apple", "apple", "angle", "apple"]));
    assert_eq!(guesser.suggest().unwrap(), &b"angle".to_vec());
}

#[test]
fn update_narrows_the_pool() {
    let guesser_corpus = corpus(&["apple", "apply", "angle"]);
    let mut guesser = Guesser::new(guesser_corpus);
    assert_eq!(guesser.suggest().unwrap(), &b"angle".to_vec());
    // 'n' reported absent: angle drops out, apple is the best survivor
    let mut fragment = Hints::default();
    fragment.add_unused(b'n');
    guesser.update(fragment);
    assert_eq!(guesser.suggest().unwrap(), &b"apple".to_vec());
    // a second round dropping 'y' removes apply; apple still leads
    let mut fragment2 = Hints::default();
    fragment2.add_unused(b'y');
    guesser.update(fragment2);
    assert_eq!(guesser.suggest().unwrap(), &b"apple".to_vec());
}

#[test]
fn update_with_empty_fragment_keeps_the_pool() {
    let mut guesser = Guesser::new(corpus(&["grape", "green", "groan"]));
    let before = guesser.suggest().unwrap().clone();
    guesser.update(Hints::default());
    assert_eq!(guesser.suggest().unwrap(), &before);
}

#[test]
fn grape_feedback_scenario() {
    // guess "grape" against feedback: g located at 0, r located at 1,
    // a present but not at 2, p absent, e present but not at 4
    let mut guesser = Guesser::new(corpus(&["grape", "green", "groan"]));
    let mut fragment = Hints::default();
    fragment.add_used_at(b'g', 0);
    fragment.add_used_at(b'r', 1);
    fragment.add_not_used_at(b'a', 2);
    fragment.add_unused(b'p');
    fragment.add_not_used_at(b'e', 4);
    guesser.update(fragment);
    // the per-position rules reject "grape" itself ('a' at the excluded
    // position 2) and keep "green" and "groan"; of those, "groan" scores
    // higher (1746993440 against 1585823612)
    assert_eq!(guesser.suggest().unwrap(), &b"groan".to_vec());
}

#[test]
fn pool_exhaustion_is_fatal() {
    // every corpus word holds a 'g'; marking it absent empties the pool
    let mut guesser = Guesser::new(corpus(&["grape", "green", "groan"]));
    let mut fragment = Hints::default();
    fragment.add_unused(b'g');
    guesser.update(fragment);
    assert_eq!(guesser.suggest(), Err(SuggestError::PoolExhausted));
}

#[test]
fn earliest_word_wins_score_ties() {
    // "aaaha" and "aaaba" score exactly the same (960732508): of equally
    // scored words, the one earlier in pool order is suggested
    let guesser = Guesser::new(corpus(&["aaaha", "aaaba"]));
    assert_eq!(guesser.suggest().unwrap(), &b"aaaha".to_vec());
    let reversed = Guesser::new(corpus(&["aaaba", "aaaha"]));
    assert_eq!(reversed.suggest().unwrap(), &b"aaaba".to_vec());
}

#[test]
fn close_scores_pick_the_higher() {
    // grape (1747448975) beats groan (1746993440) by a whisker
    let guesser = Guesser::new(corpus(&["groan", "grape"]));
    assert_eq!(guesser.suggest().unwrap(), &b"grape".to_vec());
}
