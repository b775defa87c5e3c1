use vstd::prelude::*;

verus! {

/// A lowercase ASCII letter byte (`a` through `z`).
pub open spec fn is_lower(c: u8) -> bool {
    97 <= c <= 122
}

/// A word: exactly five lowercase ASCII letters, held as bytes.
pub open spec fn wf_word(w: Seq<u8>) -> bool {
    &&& w.len() == 5
    &&& forall|i: int| 0 <= i < w.len() ==> is_lower(#[trigger] w[i])
}

/// The alphabet index of a lowercase letter byte: 0 for `a`, 25 for `z`.
pub open spec fn letter_index(c: u8) -> int {
    c - 97
}

/// The letter sequences of a sequence of word vectors.
pub open spec fn word_views(s: Seq<Vec<u8>>) -> Seq<Seq<u8>> {
    s.map_values(|v: Vec<u8>| v@)
}

/// Removing the front word commutes with taking letter sequences.
pub proof fn lemma_views_remove_front(s: Seq<Vec<u8>>)
    requires
        s.len() > 0,
    ensures
        word_views(s.remove(0)) == word_views(s).remove(0),
{
    assert(word_views(s.remove(0)) =~= word_views(s).remove(0));
}

/// Appending a word commutes with taking letter sequences.
pub proof fn lemma_views_push(s: Seq<Vec<u8>>, v: Vec<u8>)
    ensures
        word_views(s.push(v)) == word_views(s).push(v@),
{
    assert(word_views(s.push(v)) =~= word_views(s).push(v@));
}

/// Tests two words for equality, letter by letter.
pub fn words_equal(a: &Vec<u8>, b: &Vec<u8>) -> (r: bool)
    ensures
        r == (a@ == b@),
{
    if a.len() != b.len() {
        return false;
    }
    let mut k: usize = 0;
    while k < a.len()
        invariant
            a@.len() == b@.len(),
            k <= a@.len(),
            forall|j: int| 0 <= j < k ==> a@[j] == b@[j],
        decreases a@.len() - k,
    {
        if a[k] != b[k] {
            return false;
        }
        k = k + 1;
    }
    proof {
        assert(a@ =~= b@);
    }
    true
}

} // verus!
