use vstd::prelude::*;

use crate::freqs::{score, spec_score};
use crate::hints::{consistent, merge_stores, HintModel, Hints};
use crate::words::{lemma_views_push, lemma_views_remove_front, wf_word, word_views, words_equal};

verus! {

/// The one fatal failure: `suggest` was asked for a word while the candidate
/// pool was empty, which means the constraints have eliminated every corpus
/// word and the session cannot continue.
#[derive(Clone, Copy, Debug, PartialEq, Eq)]
pub enum SuggestError {
    PoolExhausted,
}

/// A corpus with its later duplicates removed: each word keeps its first
/// occurrence and its place in the order.
pub open spec fn dedup_first(s: Seq<Seq<u8>>) -> Seq<Seq<u8>>
    decreases s.len(),
{
    if s.len() == 0 {
        Seq::empty()
    } else if s.drop_last().contains(s.last()) {
        dedup_first(s.drop_last())
    } else {
        dedup_first(s.drop_last()).push(s.last())
    }
}

/// Deduplication keeps exactly the words of the corpus it started from.
proof fn lemma_dedup_first_contains(s: Seq<Seq<u8>>, x: Seq<u8>)
    ensures
        dedup_first(s).contains(x) == s.contains(x),
    decreases s.len(),
{
    broadcast use vstd::seq_lib::lemma_seq_contains_after_push;

    if s.len() > 0 {
        lemma_dedup_first_contains(s.drop_last(), x);
        assert(s =~= s.drop_last().push(s.last()));
    }
}

/// One step of filtering: appending a word appends it to the filtered
/// sequence exactly when it passes the predicate.
proof fn lemma_filter_push(s: Seq<Seq<u8>>, x: Seq<u8>, pred: spec_fn(Seq<u8>) -> bool)
    ensures
        pred(x) ==> s.push(x).filter(pred) == s.filter(pred).push(x),
        !pred(x) ==> s.push(x).filter(pred) == s.filter(pred),
{
    reveal_with_fuel(Seq::<Seq<u8>>::filter, 2);
    assert(s.push(x).drop_last() =~= s);
    assert(s.push(x).last() == x);
}

/// The predicate that `update` keeps a pool word by: consistency with the
/// merged store.
pub open spec fn passes(m: Map<u8, HintModel>) -> spec_fn(Seq<u8>) -> bool {
    |w: Seq<u8>| consistent(m, w)
}

/// The candidate engine: the pool of still-possible words together with the
/// cumulative constraint store.
pub struct Guesser {
    candidates: Vec<Vec<u8>>,
    hints: Hints,
}

impl Guesser {
    /// The live candidate pool, as letter sequences in pool order.
    pub closed spec fn pool(&self) -> Seq<Seq<u8>> {
        word_views(self.candidates@)
    }

    /// The cumulative constraint store.
    pub closed spec fn store(&self) -> Map<u8, HintModel> {
        self.hints@
    }

    /// Every pool entry is a well-formed word, no word occurs twice, and the
    /// store is well-formed.
    pub closed spec fn wf(&self) -> bool {
        &&& self.hints.wf()
        &&& forall|k: int| 0 <= k < self.pool().len() ==> wf_word(#[trigger] self.pool()[k])
        &&& self.pool().no_duplicates()
    }

    /// Builds an engine over a corpus: the pool starts as the corpus with
    /// duplicates dropped (first occurrence wins), the store starts empty.
    pub fn new(corpus: Vec<Vec<u8>>) -> (g: Guesser)
        requires
            forall|k: int| 0 <= k < corpus@.len() ==> wf_word(#[trigger] corpus@[k]@),
        ensures
            g.wf(),
            g.store() == Map::<u8, HintModel>::empty(),
            g.pool() == dedup_first(word_views(corpus@)),
    {
        let ghost orig = word_views(corpus@);
        let mut rest = corpus;
        let mut pool: Vec<Vec<u8>> = Vec::new();
        let ghost mut i: int = 0;
        proof {
            assert(orig.subrange(0, 0) =~= Seq::<Seq<u8>>::empty());
        }
        while rest.len() > 0
            invariant
                0 <= i,
                i + rest@.len() == orig.len(),
                word_views(rest@) == orig.subrange(i, orig.len() as int),
                forall|k: int| 0 <= k < orig.len() ==> wf_word(#[trigger] orig[k]),
                word_views(pool@) == dedup_first(orig.subrange(0, i)),
                word_views(pool@).no_duplicates(),
                forall|k: int|
                    0 <= k < pool@.len() ==> wf_word(#[trigger] word_views(pool@)[k]),
            decreases rest@.len(),
        {
            let ghost pre = orig.subrange(0, i);
            let ghost rb = rest@;
            let w = rest.remove(0);
            proof {
                lemma_views_remove_front(rb);
                assert(word_views(rb).remove(0) =~= orig.subrange(i + 1, orig.len() as int));
                assert(w@ == word_views(rb)[0]);
                assert(w@ == orig[i]);
                assert(orig.subrange(0, i + 1).drop_last() =~= pre);
                assert(orig.subrange(0, i + 1).last() == orig[i]);
                lemma_dedup_first_contains(pre, orig[i]);
            }
            let dup = contains_word(&pool, &w);
            if !dup {
                let ghost before = pool@;
                pool.push(w);
                proof {
                    lemma_views_push(before, w);
                }
            }
            proof {
                i = i + 1;
            }
        }
        proof {
            assert(orig.subrange(0, i) =~= orig);
        }
        let g = Guesser { candidates: pool, hints: Hints::default() };
        g
    }

    /// Picks the pool word with the highest score; of equally scored words
    /// the one earliest in pool order wins, a fixed, documented tie-break.
    /// Fails exactly when the pool is empty, which is fatal: the constraints
    /// have ruled out every word.
    pub fn suggest(&self) -> (r: Result<&Vec<u8>, SuggestError>)
        requires
            self.wf(),
        ensures
            r is Ok <==> self.pool().len() > 0,
            r matches Ok(w) ==> exists|i: int|
                {
                    &&& 0 <= i < self.pool().len()
                    &&& w@ == self.pool()[i]
                    &&& forall|j: int|
                        0 <= j < self.pool().len() ==> spec_score(#[trigger] self.pool()[j])
                            <= spec_score(self.pool()[i])
                    &&& forall|j: int|
                        0 <= j < i ==> spec_score(#[trigger] self.pool()[j]) < spec_score(
                            self.pool()[i],
                        )
                },
    {
        if self.candidates.len() == 0 {
            return Err(SuggestError::PoolExhausted);
        }
        let mut best: usize = 0;
        proof {
            assert(self.pool()[0] == self.candidates@[0]@);
        }
        let mut best_score = score(&self.candidates[0]);
        let mut i: usize = 1;
        while i < self.candidates.len()
            invariant
                self.wf(),
                1 <= i <= self.pool().len(),
                best < i,
                best_score == spec_score(self.pool()[best as int]),
                forall|j: int|
                    0 <= j < i ==> spec_score(#[trigger] self.pool()[j]) <= best_score,
                forall|j: int| 0 <= j < best ==> spec_score(#[trigger] self.pool()[j]) < best_score,
            decreases self.pool().len() - i,
        {
            proof {
                assert(self.pool()[i as int] == self.candidates@[i as int]@);
            }
            let s = score(&self.candidates[i]);
            if s > best_score {
                best = i;
                best_score = s;
            }
            i = i + 1;
        }
        Ok(&self.candidates[best])
    }

    /// Absorbs a round's feedback: merges the fresh hints into the store,
    /// then keeps exactly the pool words consistent with the merged store,
    /// in their old order. The pool never grows; every kept word is
    /// consistent with the new store and every dropped word is not.
    #[verifier::loop_isolation(false)]
    pub fn update(&mut self, hints: Hints)
        requires
            old(self).wf(),
            hints.wf(),
        ensures
            final(self).wf(),
            final(self).store() == merge_stores(old(self).store(), hints@),
            final(self).pool() == old(self).pool().filter(
                passes(merge_stores(old(self).store(), hints@)),
            ),
            final(self).pool().len() <= old(self).pool().len(),
            forall|k: int|
                0 <= k < final(self).pool().len() ==> consistent(
                    final(self).store(),
                    #[trigger] final(self).pool()[k],
                ),
            forall|w: Seq<u8>|
                old(self).pool().contains(w) && !final(self).pool().contains(w) ==> !consistent(
                    final(self).store(),
                    w,
                ),
    {
        let ghost m = merge_stores(old(self).store(), hints@);
        let ghost orig = self.pool();
        self.hints.merge(hints);
        let ghost pred = passes(m);
        let mut kept: Vec<Vec<u8>> = Vec::new();
        let ghost mut i: int = 0;
        proof {
            assert(orig.subrange(0, 0) =~= Seq::<Seq<u8>>::empty());
        }
        while self.candidates.len() > 0
            invariant
                self.hints.wf(),
                self.hints@ == m,
                0 <= i,
                i + self.candidates@.len() == orig.len(),
                word_views(self.candidates@) == orig.subrange(i, orig.len() as int),
                forall|k: int| 0 <= k < orig.len() ==> wf_word(#[trigger] orig[k]),
                orig.no_duplicates(),
                word_views(kept@) == orig.subrange(0, i).filter(pred),
                word_views(kept@).no_duplicates(),
                forall|k: int|
                    0 <= k < kept@.len() ==> wf_word(#[trigger] word_views(kept@)[k]),
                forall|k: int|
                    0 <= k < kept@.len() ==> exists|j: int|
                        0 <= j < i && #[trigger] word_views(kept@)[k] == #[trigger] orig[j],
            decreases self.candidates@.len(),
        {
            let ghost pre = orig.subrange(0, i);
            let ghost cb = self.candidates@;
            let w = self.candidates.remove(0);
            proof {
                lemma_views_remove_front(cb);
                assert(word_views(cb).remove(0) =~= orig.subrange(i + 1, orig.len() as int));
                assert(w@ == word_views(cb)[0]);
                assert(w@ == orig[i]);
                assert(orig.subrange(0, i + 1).drop_last() =~= pre);
                assert(orig.subrange(0, i + 1).last() == orig[i]);
            }
            let keep = self.hints.valid(&w);
            proof {
                assert(pred(w@) == consistent(m, w@));
                assert(keep == pred(w@));
                assert(orig.subrange(0, i + 1) =~= pre.push(orig[i]));
                lemma_filter_push(pre, orig[i], pred);
            }
            if keep {
                let ghost before = word_views(kept@);
                let ghost kb = kept@;
                kept.push(w);
                proof {
                    lemma_views_push(kb, w);
                    assert forall|k: int| 0 <= k < before.len() implies before[k] != w@ by {
                        let j = choose|j: int| 0 <= j < i && before[k] == orig[j];
                        assert(orig[j] != orig[i as int]);
                    }
                }
            }
            proof {
                i = i + 1;
            }
        }
        proof {
            assert(orig.subrange(0, i) =~= orig);
        }
        self.candidates = kept;
        proof {
            orig.lemma_filter_len(pred);
            assert forall|w: Seq<u8>|
                orig.contains(w) && !self.pool().contains(w) implies !consistent(self.hints@, w) by {
                if consistent(self.hints@, w) {
                    let j = choose|j: int| 0 <= j < orig.len() && orig[j] == w;
                    orig.lemma_filter_contains(pred, j);
                }
            }
        }
    }
}

/// Looks a word up in a pool of words.
fn contains_word(pool: &Vec<Vec<u8>>, w: &Vec<u8>) -> (r: bool)
    ensures
        r == word_views(pool@).contains(w@),
{
    let mut j: usize = 0;
    while j < pool.len()
        invariant
            j <= pool@.len(),
            forall|k: int| 0 <= k < j ==> word_views(pool@)[k] != w@,
        decreases pool@.len() - j,
    {
        if words_equal(&pool[j], w) {
            assert(word_views(pool@)[j as int] == w@);
            return true;
        }
        j = j + 1;
    }
    false
}

} // verus!
