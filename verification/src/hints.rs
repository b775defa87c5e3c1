use vstd::prelude::*;

use crate::words::{is_lower, letter_index};

verus! {

/// What is known about one letter of the alphabet:
/// - `Unused`: the letter does not occur anywhere in the answer;
/// - `NotIn`: the letter occurs in the answer, but at none of the recorded
///   positions;
/// - `In`: the letter occurs in the answer at every recorded position.
pub enum Hint {
    Unused,
    NotIn(Vec<usize>),
    In(Vec<usize>),
}

/// The mathematical shape of a [`Hint`]: the recorded positions as a set,
/// since only membership ever matters.
pub enum HintModel {
    Unused,
    NotIn(Set<usize>),
    In(Set<usize>),
}

impl View for Hint {
    type V = HintModel;

    open spec fn view(&self) -> HintModel {
        match self {
            Hint::Unused => HintModel::Unused,
            Hint::NotIn(ps) => HintModel::NotIn(ps@.to_set()),
            Hint::In(ps) => HintModel::In(ps@.to_set()),
        }
    }
}

impl Hint {
    /// Recorded positions are word positions, so below five.
    pub open spec fn wf(&self) -> bool {
        match self {
            Hint::Unused => true,
            Hint::NotIn(ps) => forall|k: int| 0 <= k < ps@.len() ==> (#[trigger] ps@[k]) < 5,
            Hint::In(ps) => forall|k: int| 0 <= k < ps@.len() ==> (#[trigger] ps@[k]) < 5,
        }
    }
}

/// The model of one slot of the store.
pub open spec fn slot_model(e: Option<Hint>) -> Option<HintModel> {
    match e {
        Option::Some(h) => Option::Some(h@),
        Option::None => Option::None,
    }
}

/// Well-formedness of one slot of the store.
pub open spec fn slot_wf(e: Option<Hint>) -> bool {
    match e {
        Option::Some(h) => h.wf(),
        Option::None => true,
    }
}

/// The cumulative constraint store: at most one hint per letter, held in a
/// slot per alphabet letter; a `None` slot means no information yet.
pub struct Hints {
    entries: Vec<Option<Hint>>,
}

impl View for Hints {
    type V = Map<u8, HintModel>;

    /// The store as a map from letter to its recorded hint.
    closed spec fn view(&self) -> Map<u8, HintModel> {
        Map::new(
            |c: u8| is_lower(c) && self.entries@[letter_index(c)] is Some,
            |c: u8| self.entries@[letter_index(c)]->0@,
        )
    }
}

impl Hints {
    /// One slot per alphabet letter, each holding a well-formed hint.
    pub closed spec fn wf(&self) -> bool {
        &&& self.entries@.len() == 26
        &&& forall|k: int| 0 <= k < 26 ==> slot_wf(#[trigger] self.entries@[k])
    }
}

/// What the store demands of letter `c` standing at position `pos` of a word:
/// nothing when the letter has no entry; otherwise an `Unused` letter rejects
/// outright, a `NotIn` entry rejects the recorded positions, and an `In`
/// entry rejects every position outside its recorded set.
pub open spec fn letter_ok(m: Map<u8, HintModel>, c: u8, pos: int) -> bool {
    m.dom().contains(c) ==> match m[c] {
        HintModel::Unused => false,
        HintModel::NotIn(ps) => !ps.contains(pos as usize),
        HintModel::In(ps) => ps.contains(pos as usize),
    }
}

/// A word is consistent with the store when no position of it is rejected.
pub open spec fn consistent(m: Map<u8, HintModel>, w: Seq<u8>) -> bool {
    forall|i: int| 0 <= i < w.len() ==> #[trigger] letter_ok(m, w[i], i)
}

/// Recording a located letter: a fresh entry starts at that position; a
/// located entry gains the position; an excluded entry is upgraded, its
/// history discarded; an absent entry is left alone.
pub open spec fn spec_add_used_at(m: Map<u8, HintModel>, c: u8, index: usize) -> Map<
    u8,
    HintModel,
> {
    if !m.dom().contains(c) {
        m.insert(c, HintModel::In(set![index]))
    } else {
        match m[c] {
            HintModel::In(ps) => m.insert(c, HintModel::In(ps.insert(index))),
            HintModel::NotIn(_) => m.insert(c, HintModel::In(set![index])),
            HintModel::Unused => m,
        }
    }
}

/// Recording an excluded position: a fresh entry starts at that position; an
/// excluded entry gains the position; a located entry wins and discards the
/// new information; an absent entry is left alone.
pub open spec fn spec_add_not_used_at(m: Map<u8, HintModel>, c: u8, index: usize) -> Map<
    u8,
    HintModel,
> {
    if !m.dom().contains(c) {
        m.insert(c, HintModel::NotIn(set![index]))
    } else {
        match m[c] {
            HintModel::NotIn(ps) => m.insert(c, HintModel::NotIn(ps.insert(index))),
            HintModel::In(_) => m,
            HintModel::Unused => m,
        }
    }
}

/// How an incoming hint folds into an existing one: an absent entry is
/// terminal; matching kinds accumulate their position sets; a located entry
/// dominates an excluded one in either direction of the merge; an incoming
/// absent mark never overwrites recorded positions.
pub open spec fn merge_hint(e: HintModel, inc: HintModel) -> HintModel {
    match e {
        HintModel::Unused => HintModel::Unused,
        HintModel::NotIn(ps) => match inc {
            HintModel::NotIn(qs) => HintModel::NotIn(ps.union(qs)),
            HintModel::In(qs) => HintModel::In(qs),
            HintModel::Unused => HintModel::NotIn(ps),
        },
        HintModel::In(ps) => match inc {
            HintModel::In(qs) => HintModel::In(ps.union(qs)),
            HintModel::NotIn(_) => HintModel::In(ps),
            HintModel::Unused => HintModel::In(ps),
        },
    }
}

/// Slotwise merge: an empty side yields the other side unchanged.
pub open spec fn merge_slot_model(e: Option<HintModel>, inc: Option<HintModel>) -> Option<
    HintModel,
> {
    match e {
        Option::None => inc,
        Option::Some(a) => match inc {
            Option::None => Option::Some(a),
            Option::Some(b) => Option::Some(merge_hint(a, b)),
        },
    }
}

/// The whole store after folding a second store into a first.
pub open spec fn merge_stores(a: Map<u8, HintModel>, b: Map<u8, HintModel>) -> Map<
    u8,
    HintModel,
> {
    Map::new(
        |c: u8| a.dom().contains(c) || b.dom().contains(c),
        |c: u8|
            if a.dom().contains(c) && b.dom().contains(c) {
                merge_hint(a[c], b[c])
            } else if a.dom().contains(c) {
                a[c]
            } else {
                b[c]
            },
    )
}

/// Concatenating position lists unions their position sets.
proof fn lemma_concat_to_set(a: Seq<usize>, b: Seq<usize>)
    ensures
        (a + b).to_set() == a.to_set().union(b.to_set()),
{
    assert forall|x: usize|
        (a + b).to_set().contains(x) <==> a.to_set().union(b.to_set()).contains(x) by {
        if (a + b).contains(x) {
            let i = choose|i: int| 0 <= i < (a + b).len() && (a + b)[i] == x;
            if i < a.len() {
                assert(a[i] == x);
            } else {
                assert(b[i - a.len()] == x);
            }
        }
        if a.contains(x) {
            let i = choose|i: int| 0 <= i < a.len() && a[i] == x;
            assert((a + b)[i] == x);
        }
        if b.contains(x) {
            let i = choose|i: int| 0 <= i < b.len() && b[i] == x;
            assert((a + b)[a.len() + i] == x);
        }
    }
    assert((a + b).to_set() =~= a.to_set().union(b.to_set()));
}

/// A one-element position list models a one-element position set.
proof fn lemma_single_to_set(p: usize)
    ensures
        Seq::<usize>::empty().push(p).to_set() == set![p],
{
    let s = Seq::<usize>::empty().push(p);
    assert forall|x: usize| s.to_set().contains(x) <==> set![p].contains(x) by {
        if s.contains(x) {
            let i = choose|i: int| 0 <= i < s.len() && s[i] == x;
            assert(i == 0);
        }
        if x == p {
            assert(s[0] == x);
        }
    }
    assert(s.to_set() =~= set![p]);
}

/// Updating one letter's slot updates exactly that letter of the store map.
proof fn lemma_view_insert(pre: Hints, post: Hints, c: u8, h: Hint)
    requires
        pre.entries@.len() == 26,
        is_lower(c),
        post.entries@ == pre.entries@.update(letter_index(c), Option::Some(h)),
    ensures
        post@ == pre@.insert(c, h@),
{
    assert forall|d: u8|
        post@.dom().contains(d) <==> pre@.insert(c, h@).dom().contains(d) by {
        if d != c && is_lower(d) {
            assert(letter_index(d) != letter_index(c));
        }
    }
    assert forall|d: u8| post@.dom().contains(d) implies post@[d] == pre@.insert(c, h@)[d] by {
        if d != c && is_lower(d) {
            assert(letter_index(d) != letter_index(c));
        }
    }
    assert(post@ =~= pre@.insert(c, h@));
}

/// Looks a position up in a recorded position list.
fn has_pos(ps: &Vec<usize>, p: usize) -> (r: bool)
    ensures
        r == ps@.contains(p),
{
    let mut j: usize = 0;
    while j < ps.len()
        invariant
            j <= ps@.len(),
            forall|k: int| 0 <= k < j ==> ps@[k] != p,
        decreases ps@.len() - j,
    {
        if ps[j] == p {
            assert(ps@[j as int] == p);
            return true;
        }
        j = j + 1;
    }
    false
}

/// Resolves one slot of a merge as a pure function, consuming both sides.
fn merge_slot(mine: Option<Hint>, inc: Option<Hint>) -> (r: Option<Hint>)
    requires
        slot_wf(mine),
        slot_wf(inc),
    ensures
        slot_wf(r),
        slot_model(r) == merge_slot_model(slot_model(mine), slot_model(inc)),
{
    match (mine, inc) {
        (Option::None, other) => other,
        (mine_slot, Option::None) => mine_slot,
        (Option::Some(Hint::Unused), Option::Some(_)) => Option::Some(Hint::Unused),
        (Option::Some(Hint::NotIn(ps)), Option::Some(Hint::NotIn(qs))) => {
            let mut a = ps;
            let mut b = qs;
            proof {
                lemma_concat_to_set(a@, b@);
            }
            a.append(&mut b);
            Option::Some(Hint::NotIn(a))
        },
        (Option::Some(Hint::NotIn(_)), Option::Some(Hint::In(qs))) => Option::Some(Hint::In(qs)),
        (Option::Some(Hint::NotIn(ps)), Option::Some(Hint::Unused)) => Option::Some(
            Hint::NotIn(ps),
        ),
        (Option::Some(Hint::In(ps)), Option::Some(Hint::In(qs))) => {
            let mut a = ps;
            let mut b = qs;
            proof {
                lemma_concat_to_set(a@, b@);
            }
            a.append(&mut b);
            Option::Some(Hint::In(a))
        },
        (Option::Some(Hint::In(ps)), Option::Some(Hint::NotIn(_))) => Option::Some(Hint::In(ps)),
        (Option::Some(Hint::In(ps)), Option::Some(Hint::Unused)) => Option::Some(Hint::In(ps)),
    }
}

impl Default for Hints {
    /// The empty store: no letter has an entry.
    fn default() -> (h: Hints)
        ensures
            h.wf(),
            h@ == Map::<u8, HintModel>::empty(),
    {
        let mut entries: Vec<Option<Hint>> = Vec::new();
        let mut k: usize = 0;
        while k < 26
            invariant
                k <= 26,
                entries@.len() == k,
                forall|j: int| 0 <= j < k ==> (#[trigger] entries@[j]) is None,
            decreases 26 - k,
        {
            entries.push(Option::None);
            k = k + 1;
        }
        let h = Hints { entries };
        proof {
            assert(h@ =~= Map::<u8, HintModel>::empty());
        }
        h
    }
}

impl Hints {
    /// Marks a letter as absent from the answer, replacing whatever this
    /// store already recorded for it: within one round's fresh fragment the
    /// last absent signal for a letter is taken as its final word.
    pub fn add_unused(&mut self, c: u8)
        requires
            old(self).wf(),
            is_lower(c),
        ensures
            final(self).wf(),
            final(self)@ == old(self)@.insert(c, HintModel::Unused),
    {
        let idx = (c - 97) as usize;
        let _replaced = self.entries.remove(idx);
        self.entries.insert(idx, Option::Some(Hint::Unused));
        proof {
            assert(self.entries@ =~= old(self).entries@.update(
                letter_index(c),
                Option::Some(Hint::Unused),
            ));
            lemma_view_insert(*old(self), *self, c, Hint::Unused);
        }
    }

    /// Records that the letter stands at the given position of the answer.
    pub fn add_used_at(&mut self, c: u8, index: usize)
        requires
            old(self).wf(),
            is_lower(c),
            index < 5,
        ensures
            final(self).wf(),
            final(self)@ == spec_add_used_at(old(self)@, c, index),
    {
        let idx = (c - 97) as usize;
        let slot = self.entries.remove(idx);
        let new_slot: Option<Hint> = match slot {
            Option::None => {
                let mut single: Vec<usize> = Vec::new();
                single.push(index);
                Option::Some(Hint::In(single))
            },
            Option::Some(Hint::In(ps)) => {
                let mut qs = ps;
                qs.push(index);
                Option::Some(Hint::In(qs))
            },
            Option::Some(Hint::NotIn(_)) => {
                let mut single: Vec<usize> = Vec::new();
                single.push(index);
                Option::Some(Hint::In(single))
            },
            Option::Some(Hint::Unused) => Option::Some(Hint::Unused),
        };
        let ghost ns = new_slot;
        self.entries.insert(idx, new_slot);
        proof {
            let ld = letter_index(c);
            assert(self.entries@ =~= old(self).entries@.update(ld, ns));
            lemma_single_to_set(index);
            match old(self).entries@[ld] {
                Option::Some(h) => {
                    if let Hint::In(ps) = h {
                        ps@.lemma_push_to_set_commute(index);
                    }
                },
                Option::None => {},
            }
            match ns {
                Option::Some(nh) => {
                    lemma_view_insert(*old(self), *self, c, nh);
                    if old(self).entries@[ld] matches Option::Some(h) && h is Unused {
                        assert(old(self)@.insert(c, HintModel::Unused) =~= old(self)@);
                    }
                },
                Option::None => {
                    assert(false);
                },
            }
        }
    }

    /// Records that the letter occurs in the answer but not at the given
    /// position.
    pub fn add_not_used_at(&mut self, c: u8, index: usize)
        requires
            old(self).wf(),
            is_lower(c),
            index < 5,
        ensures
            final(self).wf(),
            final(self)@ == spec_add_not_used_at(old(self)@, c, index),
    {
        let idx = (c - 97) as usize;
        let slot = self.entries.remove(idx);
        let new_slot: Option<Hint> = match slot {
            Option::None => {
                let mut single: Vec<usize> = Vec::new();
                single.push(index);
                Option::Some(Hint::NotIn(single))
            },
            Option::Some(Hint::NotIn(ps)) => {
                let mut qs = ps;
                qs.push(index);
                Option::Some(Hint::NotIn(qs))
            },
            Option::Some(Hint::In(ps)) => Option::Some(Hint::In(ps)),
            Option::Some(Hint::Unused) => Option::Some(Hint::Unused),
        };
        let ghost ns = new_slot;
        self.entries.insert(idx, new_slot);
        proof {
            let ld = letter_index(c);
            assert(self.entries@ =~= old(self).entries@.update(ld, ns));
            lemma_single_to_set(index);
            match old(self).entries@[ld] {
                Option::Some(h) => {
                    if let Hint::NotIn(ps) = h {
                        ps@.lemma_push_to_set_commute(index);
                    }
                },
                Option::None => {},
            }
            match ns {
                Option::Some(nh) => {
                    lemma_view_insert(*old(self), *self, c, nh);
                    if old(self).entries@[ld] matches Option::Some(h) && !(h is NotIn) {
                        assert(old(self)@.insert(c, nh@) =~= old(self)@);
                    }
                },
                Option::None => {
                    assert(false);
                },
            }
        }
    }

    /// Tests whether a candidate word is consistent with everything recorded
    /// so far.
    pub fn valid(&self, candidate: &Vec<u8>) -> (r: bool)
        requires
            self.wf(),
            crate::words::wf_word(candidate@),
        ensures
            r == consistent(self@, candidate@),
    {
        let mut i: usize = 0;
        while i < candidate.len()
            invariant
                self.wf(),
                crate::words::wf_word(candidate@),
                i <= candidate@.len(),
                forall|k: int| 0 <= k < i ==> #[trigger] letter_ok(self@, candidate@[k], k),
            decreases candidate@.len() - i,
        {
            let c = candidate[i];
            let idx = (c - 97) as usize;
            match &self.entries[idx] {
                Option::None => {},
                Option::Some(Hint::Unused) => {
                    assert(!letter_ok(self@, candidate@[i as int], i as int));
                    return false;
                },
                Option::Some(Hint::NotIn(ps)) => {
                    if has_pos(ps, i) {
                        assert(!letter_ok(self@, candidate@[i as int], i as int));
                        return false;
                    }
                },
                Option::Some(Hint::In(ps)) => {
                    if !has_pos(ps, i) {
                        assert(!letter_ok(self@, candidate@[i as int], i as int));
                        return false;
                    }
                },
            }
            assert(letter_ok(self@, candidate@[i as int], i as int));
            i = i + 1;
        }
        true
    }

    /// Folds a round's fresh hints into the running store, slot by slot,
    /// under the precedence rules of [`merge_hint`].
    pub fn merge(&mut self, others: Hints)
        requires
            old(self).wf(),
            others.wf(),
        ensures
            final(self).wf(),
            final(self)@ == merge_stores(old(self)@, others@),
    {
        let mut incoming = others;
        let mut merged: Vec<Option<Hint>> = Vec::new();
        let ghost mine0 = self.entries@;
        let ghost inc0 = incoming.entries@;
        let mut k: usize = 0;
        while k < 26
            invariant
                k <= 26,
                mine0.len() == 26,
                inc0.len() == 26,
                forall|j: int| 0 <= j < 26 ==> slot_wf(#[trigger] mine0[j]),
                forall|j: int| 0 <= j < 26 ==> slot_wf(#[trigger] inc0[j]),
                self.entries@ == mine0.subrange(k as int, 26),
                incoming.entries@ == inc0.subrange(k as int, 26),
                merged@.len() == k,
                forall|j: int|
                    0 <= j < k ==> slot_wf(#[trigger] merged@[j]) && slot_model(merged@[j])
                        == merge_slot_model(slot_model(mine0[j]), slot_model(inc0[j])),
            decreases 26 - k,
        {
            let mine = self.entries.remove(0);
            let inc = incoming.entries.remove(0);
            proof {
                assert(mine0.subrange(k as int, 26).remove(0) =~= mine0.subrange(k as int + 1, 26));
                assert(inc0.subrange(k as int, 26).remove(0) =~= inc0.subrange(k as int + 1, 26));
                assert(mine == mine0[k as int]);
                assert(inc == inc0[k as int]);
            }
            merged.push(merge_slot(mine, inc));
            k = k + 1;
        }
        self.entries = merged;
        proof {
            let target = merge_stores(old(self)@, others@);
            assert forall|d: u8| self@.dom().contains(d) <==> target.dom().contains(d) by {
                if is_lower(d) {
                    assert(slot_model(self.entries@[letter_index(d)]) == merge_slot_model(
                        slot_model(mine0[letter_index(d)]),
                        slot_model(inc0[letter_index(d)]),
                    ));
                }
            }
            assert forall|d: u8| self@.dom().contains(d) implies self@[d] == target[d] by {
                assert(slot_model(self.entries@[letter_index(d)]) == merge_slot_model(
                    slot_model(mine0[letter_index(d)]),
                    slot_model(inc0[letter_index(d)]),
                ));
            }
            assert(self@ =~= target);
        }
    }
}

/// Located-at dominance: once a letter is recorded as located at some
/// position, a later excluded-at record for the same letter leaves the store
/// unchanged — in the record operation as in a merge — and consistency still
/// pins every occurrence of that letter to the located set.
pub proof fn lemma_located_dominates(m: Map<u8, HintModel>, c: u8, ps: Set<usize>, p: usize, q: usize)
    requires
        m.dom().contains(c),
        m[c] == HintModel::In(ps),
        ps.contains(p),
    ensures
        spec_add_not_used_at(m, c, q) == m,
        merge_hint(HintModel::In(ps), HintModel::NotIn(set![q])) == HintModel::In(ps),
        forall|w: Seq<u8>, i: int|
            0 <= i < w.len() && w[i] == c && consistent(spec_add_not_used_at(m, c, q), w)
                ==> ps.contains(i as usize),
{
    assert forall|w: Seq<u8>, i: int|
        0 <= i < w.len() && w[i] == c && consistent(spec_add_not_used_at(m, c, q), w)
            implies ps.contains(i as usize) by {
        assert(letter_ok(m, w[i], i));
    }
}

} // verus!
