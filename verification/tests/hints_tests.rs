use wordle_guesser::hints::Hints;

fn wb(s: &str) -> Vec<u8> {
    s.as_bytes().to_vec()
}

#[test]
fn empty_store_accepts_everything() {
    let hints = Hints::default();
    assert!(hints.valid(&wb("apple")));
    assert!(hints.valid(&wb("zzzzz")));
}

#[test]
fn unused_letter_rejects_words_holding_it() {
    let mut hints = Hints::default();
    hints.add_unused(b'a');
    assert!(!hints.valid(&wb("apple")));
    assert!(!hints.valid(&wb("groan")));
    assert!(hints.valid(&wb("niche")));
}

#[test]
fn located_letter_pins_its_positions() {
    let mut hints = Hints::default();
    hints.add_used_at(b'a', 0);
    // every occurrence of 'a' must sit at a located position
    assert!(hints.valid(&wb("apple")));
    assert!(!hints.valid(&wb("groan")));
    assert!(hints.valid(&wb("niche")));
}

#[test]
fn excluded_position_rejects_only_there() {
    let mut hints = Hints::default();
    hints.add_not_used_at(b'a', 2);
    assert!(!hints.valid(&wb("grape")));
    assert!(hints.valid(&wb("groan")));
    assert!(hints.valid(&wb("apple")));
}

#[test]
fn excluded_positions_accumulate() {
    let mut hints = Hints::default();
    hints.add_not_used_at(b'a', 0);
    hints.add_not_used_at(b'a', 3);
    assert!(!hints.valid(&wb("apple")));
    assert!(!hints.valid(&wb("groan")));
    assert!(hints.valid(&wb("grape")));
}

#[test]
fn located_positions_accumulate() {
    let mut hints = Hints::default();
    hints.add_used_at(b'a', 0);
    hints.add_used_at(b'a', 3);
    assert!(hints.valid(&wb("apple")));
    assert!(hints.valid(&wb("groan")));
    assert!(!hints.valid(&wb("grape")));
}

#[test]
fn located_upgrades_excluded_record() {
    let mut hints = Hints::default();
    hints.add_not_used_at(b'a', 0);
    hints.add_used_at(b'a', 1);
    // the excluded history is discarded: only the located set remains,
    // so any occurrence of 'a' outside position 1 is rejected
    assert!(!hints.valid(&wb("gamma")));
    assert!(hints.valid(&wb("laugh")));
    assert!(!hints.valid(&wb("apple")));
}

#[test]
fn located_record_dominates_later_excluded() {
    let mut hints = Hints::default();
    hints.add_used_at(b'a', 2);
    hints.add_not_used_at(b'a', 2);
    // the located entry stays: 'a' at position 2 is still required there
    assert!(hints.valid(&wb("grape")));
    assert!(!hints.valid(&wb("apple")));
}

#[test]
fn merge_accumulates_excluded_positions() {
    let mut store = Hints::default();
    store.add_not_used_at(b'a', 0);
    let mut fragment = Hints::default();
    fragment.add_not_used_at(b'a', 3);
    store.merge(fragment);
    assert!(!store.valid(&wb("apple")));
    assert!(!store.valid(&wb("groan")));
    assert!(store.valid(&wb("grape")));
}

#[test]
fn merge_accumulates_located_positions() {
    let mut store = Hints::default();
    store.add_used_at(b'a', 0);
    let mut fragment = Hints::default();
    fragment.add_used_at(b'a', 3);
    store.merge(fragment);
    assert!(store.valid(&wb("apple")));
    assert!(store.valid(&wb("groan")));
    assert!(!store.valid(&wb("grape")));
}

#[test]
fn merge_incoming_located_replaces_excluded() {
    let mut store = Hints::default();
    store.add_not_used_at(b'a', 0);
    let mut fragment = Hints::default();
    fragment.add_used_at(b'a', 1);
    store.merge(fragment);
    // upgraded to located at {1}: 'a' anywhere else is now rejected
    assert!(store.valid(&wb("laugh")));
    assert!(!store.valid(&wb("groan")));
    assert!(!store.valid(&wb("apple")));
}

#[test]
fn merge_located_wins_over_incoming_excluded() {
    let mut store = Hints::default();
    store.add_used_at(b'a', 0);
    let mut fragment = Hints::default();
    fragment.add_not_used_at(b'a', 0);
    store.merge(fragment);
    assert!(store.valid(&wb("apple")));
    assert!(!store.valid(&wb("groan")));
}

#[test]
fn merge_absent_is_terminal() {
    let mut store = Hints::default();
    store.add_unused(b'a');
    let mut fragment = Hints::default();
    fragment.add_used_at(b'a', 0);
    store.merge(fragment);
    assert!(!store.valid(&wb("apple")));
}

#[test]
fn merge_incoming_absent_keeps_recorded_positions() {
    let mut store = Hints::default();
    store.add_used_at(b'a', 0);
    let mut fragment = Hints::default();
    fragment.add_unused(b'a');
    store.merge(fragment);
    // the conflicting absent mark is ignored: 'a' at 0 still passes
    assert!(store.valid(&wb("apple")));
}

#[test]
fn merge_brings_new_letters_in() {
    let mut store = Hints::default();
    store.add_used_at(b'g', 0);
    let mut fragment = Hints::default();
    fragment.add_unused(b'p');
    store.merge(fragment);
    assert!(store.valid(&wb("groan")));
    assert!(!store.valid(&wb("grape")));
}

#[test]
fn add_unused_replaces_earlier_record() {
    let mut hints = Hints::default();
    hints.add_used_at(b'a', 0);
    hints.add_unused(b'a');
    assert!(!hints.valid(&wb("apple")));
}
