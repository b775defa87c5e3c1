use vstd::prelude::*;

use crate::words::{is_lower, letter_index, wf_word};

verus! {

// Per-position letter frequencies over the reference corpus, scaled to
// integer parts per billion so that scores stay in exact arithmetic.
// Row `p` gives the frequencies for word position `p`; entry `l` is the
// frequency of the `l`-th alphabet letter at that position.

/// The frequency of a letter at word position 0.
pub open spec fn spec_freq_row0(letter: int) -> u32 {
    if letter == 0 { 77350583 } else if letter == 1 { 70836370 } else if letter == 2 { 68877551 } else if letter == 3 { 51384840 } else if letter == 4 { 31568878 } else if letter == 5 { 38584184 } else if letter == 6 { 43959548 } else if letter == 7 { 38447522 } else if letter == 8 { 21547012 } else if letter == 9 { 20317055 } else if letter == 10 { 35942055 } else if letter == 11 { 47649417 } else if letter == 12 { 55803571 } else if letter == 13 { 29473397 } else if letter == 14 { 24234694 } else if letter == 15 { 53935860 } else if letter == 16 { 4236516 } else if letter == 17 { 43185131 } else if letter == 18 { 100491983 } else if letter == 19 { 57580175 } else if letter == 20 { 19132653 } else if letter == 21 { 18403790 } else if letter == 22 { 27150146 } else if letter == 23 { 1639942 } else if letter == 24 { 10249636 } else if letter == 25 { 8017493 } else { 0 }
}

/// The frequency of a letter at word position 1.
pub open spec fn spec_freq_row1(letter: int) -> u32 {
    if letter == 0 { 186907799 } else if letter == 1 { 7835277 } else if letter == 2 { 15397230 } else if letter == 3 { 11160714 } else if letter == 4 { 130420918 } else if letter == 5 { 3325437 } else if letter == 6 { 6331997 } else if letter == 7 { 42228499 } else if letter == 8 { 101995262 } else if letter == 9 { 1457726 } else if letter == 10 { 6240889 } else if letter == 11 { 54345845 } else if letter == 12 { 14896137 } else if letter == 13 { 30566691 } else if letter == 14 { 139805029 } else if letter == 15 { 15306122 } else if letter == 16 { 1138848 } else if letter == 17 { 70289723 } else if letter == 18 { 15533892 } else if letter == 19 { 18358236 } else if letter == 20 { 83090379 } else if letter == 21 { 5739796 } else if letter == 22 { 10295190 } else if letter == 23 { 3780977 } else if letter == 24 { 20863703 } else if letter == 25 { 2687682 } else { 0 }
}

/// The frequency of a letter at word position 2.
pub open spec fn spec_freq_row2(letter: int) -> u32 {
    if letter == 0 { 89240160 } else if letter == 1 { 30247813 } else if letter == 2 { 31933309 } else if letter == 3 { 35258746 } else if letter == 4 { 64732143 } else if letter == 5 { 12345117 } else if letter == 6 { 28061224 } else if letter == 7 { 15215015 } else if letter == 8 { 75983965 } else if letter == 9 { 3689869 } else if letter == 10 { 18494898 } else if letter == 11 { 73022959 } else if letter == 12 { 40315233 } else if letter == 13 { 80038265 } else if letter == 14 { 64959913 } else if letter == 15 { 25510204 } else if letter == 16 { 1457726 } else if letter == 17 { 100264213 } else if letter == 18 { 46510569 } else if letter == 19 { 47740525 } else if letter == 20 { 45098397 } else if letter == 21 { 18995991 } else if letter == 22 { 15898324 } else if letter == 23 { 7744169 } else if letter == 24 { 17356050 } else if letter == 25 { 9885204 } else { 0 }
}

/// The frequency of a letter at word position 3.
pub open spec fn spec_freq_row3(letter: int) -> u32 {
    if letter == 0 { 100856414 } else if letter == 1 { 19269315 } else if letter == 2 { 35076531 } else if letter == 3 { 37764213 } else if letter == 4 { 148141399 } else if letter == 5 { 12663994 } else if letter == 6 { 27879009 } else if letter == 7 { 19269315 } else if letter == 8 { 89422376 } else if letter == 9 { 2778790 } else if letter == 10 { 28607872 } else if letter == 11 { 58992347 } else if letter == 12 { 27879009 } else if letter == 13 { 63365525 } else if letter == 14 { 58400146 } else if letter == 15 { 23961370 } else if letter == 16 { 227770 } else if letter == 17 { 55803571 } else if letter == 18 { 43048469 } else if letter == 19 { 63092201 } else if letter == 20 { 40952988 } else if letter == 21 { 11798469 } else if letter == 22 { 8746356 } else if letter == 23 { 1184402 } else if letter == 24 { 12345117 } else if letter == 25 { 8473032 } else { 0 }
}

/// The frequency of a letter at word position 4.
pub open spec fn spec_freq_row4(letter: int) -> u32 {
    if letter == 0 { 107598397 } else if letter == 1 { 5876458 } else if letter == 2 { 13666181 } else if letter == 3 { 41772959 } else if letter == 4 { 122038994 } else if letter == 5 { 6605321 } else if letter == 6 { 11889577 } else if letter == 7 { 29792274 } else if letter == 8 { 41454082 } else if letter == 9 { 455539 } else if letter == 10 { 22868076 } else if letter == 11 { 44232872 } else if letter == 12 { 18494898 } else if letter == 13 { 69333090 } else if letter == 14 { 39039723 } else if letter == 15 { 12982872 } else if letter == 16 { 409985 } else if letter == 17 { 54209184 } else if letter == 18 { 171601676 } else if letter == 19 { 58491254 } else if letter == 20 { 11251822 } else if letter == 21 { 1867711 } else if letter == 22 { 5557580 } else if letter == 23 { 6559767 } else if letter == 24 { 96392128 } else if letter == 25 { 5557580 } else { 0 }
}

/// The frequency of alphabet letter `letter` at word position `pos`.
pub open spec fn spec_freq(pos: int, letter: int) -> u32 {
    if pos == 0 {
        spec_freq_row0(letter)
    } else if pos == 1 {
        spec_freq_row1(letter)
    } else if pos == 2 {
        spec_freq_row2(letter)
    } else if pos == 3 {
        spec_freq_row3(letter)
    } else {
        spec_freq_row4(letter)
    }
}

fn freq_row0(letter: usize) -> (r: u32)
    requires
        letter < 26,
    ensures
        r == spec_freq_row0(letter as int),
{
    match letter {
        0 => 77350583,
        1 => 70836370,
        2 => 68877551,
        3 => 51384840,
        4 => 31568878,
        5 => 38584184,
        6 => 43959548,
        7 => 38447522,
        8 => 21547012,
        9 => 20317055,
        10 => 35942055,
        11 => 47649417,
        12 => 55803571,
        13 => 29473397,
        14 => 24234694,
        15 => 53935860,
        16 => 4236516,
        17 => 43185131,
        18 => 100491983,
        19 => 57580175,
        20 => 19132653,
        21 => 18403790,
        22 => 27150146,
        23 => 1639942,
        24 => 10249636,
        25 => 8017493,
        _ => 0,
    }
}

fn freq_row1(letter: usize) -> (r: u32)
    requires
        letter < 26,
    ensures
        r == spec_freq_row1(letter as int),
{
    match letter {
        0 => 186907799,
        1 => 7835277,
        2 => 15397230,
        3 => 11160714,
        4 => 130420918,
        5 => 3325437,
        6 => 6331997,
        7 => 42228499,
        8 => 101995262,
        9 => 1457726,
        10 => 6240889,
        11 => 54345845,
        12 => 14896137,
        13 => 30566691,
        14 => 139805029,
        15 => 15306122,
        16 => 1138848,
        17 => 70289723,
        18 => 15533892,
        19 => 18358236,
        20 => 83090379,
        21 => 5739796,
        22 => 10295190,
        23 => 3780977,
        24 => 20863703,
        25 => 2687682,
        _ => 0,
    }
}

fn freq_row2(letter: usize) -> (r: u32)
    requires
        letter < 26,
    ensures
        r == spec_freq_row2(letter as int),
{
    match letter {
        0 => 89240160,
        1 => 30247813,
        2 => 31933309,
        3 => 35258746,
        4 => 64732143,
        5 => 12345117,
        6 => 28061224,
        7 => 15215015,
        8 => 75983965,
        9 => 3689869,
        10 => 18494898,
        11 => 73022959,
        12 => 40315233,
        13 => 80038265,
        14 => 64959913,
        15 => 25510204,
        16 => 1457726,
        17 => 100264213,
        18 => 46510569,
        19 => 47740525,
        20 => 45098397,
        21 => 18995991,
        22 => 15898324,
        23 => 7744169,
        24 => 17356050,
        25 => 9885204,
        _ => 0,
    }
}

fn freq_row3(letter: usize) -> (r: u32)
    requires
        letter < 26,
    ensures
        r == spec_freq_row3(letter as int),
{
    match letter {
        0 => 100856414,
        1 => 19269315,
        2 => 35076531,
        3 => 37764213,
        4 => 148141399,
        5 => 12663994,
        6 => 27879009,
        7 => 19269315,
        8 => 89422376,
        9 => 2778790,
        10 => 28607872,
        11 => 58992347,
        12 => 27879009,
        13 => 63365525,
        14 => 58400146,
        15 => 23961370,
        16 => 227770,
        17 => 55803571,
        18 => 43048469,
        19 => 63092201,
        20 => 40952988,
        21 => 11798469,
        22 => 8746356,
        23 => 1184402,
        24 => 12345117,
        25 => 8473032,
        _ => 0,
    }
}

fn freq_row4(letter: usize) -> (r: u32)
    requires
        letter < 26,
    ensures
        r == spec_freq_row4(letter as int),
{
    match letter {
        0 => 107598397,
        1 => 5876458,
        2 => 13666181,
        3 => 41772959,
        4 => 122038994,
        5 => 6605321,
        6 => 11889577,
        7 => 29792274,
        8 => 41454082,
        9 => 455539,
        10 => 22868076,
        11 => 44232872,
        12 => 18494898,
        13 => 69333090,
        14 => 39039723,
        15 => 12982872,
        16 => 409985,
        17 => 54209184,
        18 => 171601676,
        19 => 58491254,
        20 => 11251822,
        21 => 1867711,
        22 => 5557580,
        23 => 6559767,
        24 => 96392128,
        25 => 5557580,
        _ => 0,
    }
}

/// Looks up the frequency of a letter (by alphabet index) at a position.
pub fn freq_at(pos: usize, letter: usize) -> (r: u32)
    requires
        pos < 5,
        letter < 26,
    ensures
        r == spec_freq(pos as int, letter as int),
{
    match pos {
        0 => freq_row0(letter),
        1 => freq_row1(letter),
        2 => freq_row2(letter),
        3 => freq_row3(letter),
        _ => freq_row4(letter),
    }
}

/// Every table entry is a strictly positive frequency.
pub proof fn lemma_freq_positive(pos: int, letter: int)
    requires
        0 <= pos < 5,
        0 <= letter < 26,
    ensures
        spec_freq(pos, letter) >= 1,
{
}

/// The positional frequency sum of a word: the table entry of each letter at
/// its position, summed over the whole word.
pub open spec fn freq_sum(w: Seq<u8>) -> int
    decreases w.len(),
{
    if w.len() == 0 {
        0
    } else {
        freq_sum(w.drop_last()) + spec_freq(w.len() - 1, letter_index(w.last()))
    }
}

/// How many distinct letters a word holds.
pub open spec fn distinct_count(w: Seq<u8>) -> nat {
    w.to_set().len()
}

/// The rank of a word: its positional frequency sum times its number of
/// distinct letters, a deliberate bias against words that repeat letters.
pub open spec fn spec_score(w: Seq<u8>) -> int {
    freq_sum(w) * distinct_count(w)
}

/// Counts the distinct letters of a word: the positions whose letter does not
/// occur earlier in the word.
fn distinct_letters(word: &Vec<u8>) -> (r: u64)
    requires
        word@.len() <= 5,
    ensures
        r == distinct_count(word@),
        r <= word@.len(),
{
    let mut count: u64 = 0;
    let mut i: usize = 0;
    proof {
        assert(word@.subrange(0, 0).to_set() =~= Set::<u8>::empty());
    }
    while i < word.len()
        invariant
            word@.len() <= 5,
            i <= word@.len(),
            count == word@.subrange(0, i as int).to_set().len(),
            count <= i,
        decreases word@.len() - i,
    {
        let mut seen = false;
        let mut j: usize = 0;
        while j < i
            invariant
                j <= i < word@.len(),
                seen == word@.subrange(0, j as int).contains(word@[i as int]),
            decreases i - j,
        {
            proof {
                broadcast use vstd::seq_lib::lemma_seq_contains_after_push;

                assert(word@.subrange(0, j as int + 1)
                    =~= word@.subrange(0, j as int).push(word@[j as int]));
            }
            if word[j] == word[i] {
                seen = true;
            }
            j = j + 1;
        }
        proof {
            broadcast use vstd::seq_lib::seq_to_set_is_finite;

            let pre = word@.subrange(0, i as int);
            let elt = word@[i as int];
            assert(word@.subrange(0, i as int + 1) =~= pre.push(elt));
            pre.lemma_push_to_set_commute(elt);
            assert(pre.to_set().contains(elt) == pre.contains(elt));
            assert(pre.to_set().finite());
            assert(pre.to_set().insert(elt).len() == pre.to_set().len() + (if pre.to_set().contains(
                elt,
            ) {
                0int
            } else {
                1
            }));
        }
        if !seen {
            count = count + 1;
        }
        i = i + 1;
    }
    proof {
        assert(word@.subrange(0, word@.len() as int) =~= word@);
    }
    count
}

/// Scores a word for ranking: the positional frequency sum of its letters,
/// multiplied by its number of distinct letters.
pub fn score(word: &Vec<u8>) -> (r: u64)
    requires
        wf_word(word@),
    ensures
        r == spec_score(word@),
{
    let mut raw: u64 = 0;
    let mut i: usize = 0;
    while i < word.len()
        invariant
            wf_word(word@),
            i <= word@.len(),
            raw == freq_sum(word@.subrange(0, i as int)),
            raw <= i * 0xffff_ffff,
        decreases word@.len() - i,
    {
        let c = word[i];
        let f = freq_at(i, (c - 97) as usize);
        proof {
            let ext = word@.subrange(0, i as int + 1);
            assert(ext.drop_last() =~= word@.subrange(0, i as int));
            assert(ext.last() == word@[i as int]);
        }
        raw = raw + (f as u64);
        i = i + 1;
    }
    proof {
        assert(word@.subrange(0, word@.len() as int) =~= word@);
    }
    let distinct = distinct_letters(word);
    proof {
        assert(raw * distinct <= 0xffff_ffff_ffff) by (nonlinear_arith)
            requires
                raw <= 5 * 0xffff_ffff,
                distinct <= 5,
        ;
    }
    raw * distinct
}

/// Score determinism: the score is a function of the word's letters alone, so
/// equal words always get equal scores.
pub proof fn lemma_score_deterministic(a: Seq<u8>, b: Seq<u8>)
    requires
        a == b,
    ensures
        spec_score(a) == spec_score(b),
{
}

/// The frequency sum of a word of lowercase letters is at least its length:
/// every table entry is positive.
pub proof fn lemma_freq_sum_lower_bound(w: Seq<u8>)
    requires
        w.len() <= 5,
        forall|i: int| 0 <= i < w.len() ==> is_lower(#[trigger] w[i]),
    ensures
        freq_sum(w) >= w.len(),
    decreases w.len(),
{
    if w.len() > 0 {
        lemma_freq_sum_lower_bound(w.drop_last());
        lemma_freq_positive(w.len() - 1, letter_index(w.last()));
    }
}

/// Distinct-letter bonus: of two words with the same positional frequency
/// sum, the one with more distinct letters scores strictly higher.
pub proof fn lemma_distinct_letter_bonus(a: Seq<u8>, b: Seq<u8>)
    requires
        wf_word(a),
        wf_word(b),
        freq_sum(a) == freq_sum(b),
        distinct_count(a) > distinct_count(b),
    ensures
        spec_score(a) > spec_score(b),
{
    lemma_freq_sum_lower_bound(a);
    let s = freq_sum(a);
    let da = distinct_count(a) as int;
    let db = distinct_count(b) as int;
    assert(s * da > s * db) by (nonlinear_arith)
        requires
            s >= 5,
            da > db,
            db >= 0,
    ;
}

} // verus!
