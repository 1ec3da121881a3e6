//! Scoring configuration and the bounded ranking of the best candidates seen.
//!
//! Scores are carried as rank keys: the IEEE-754 bit pattern of a finite,
//! non-negative score, which orders exactly as the score itself does and maps
//! the score zero to the key zero. Weights are carried in fixed point.

use vstd::prelude::*;

verus! {

/// The fixed-point value of the weight one: weights count units of 10^-12.
pub const WEIGHT_ONE: u64 = 1_000_000_000_000;

/// How far the four weights together may stray from one, exclusive: 10^-10.
pub const WEIGHT_TOLERANCE: u64 = 100;

/// A weight set that does not conform.
#[derive(Clone, Copy, Debug, PartialEq, Eq, Structural)]
pub enum ConfigError {
    /// One of the weights is greater than one.
    WeightOutOfRange,
    /// The four weights together are not one within the tolerance.
    WeightsDoNotSumToOne,
}

/// The shares of the four sub-scores in the composite score, in units of
/// 10^-12.
#[derive(Clone, Copy, Debug, PartialEq, Eq, Structural)]
pub struct ScoringWeights {
    pub numerology_weight: u64,
    pub fc60_weight: u64,
    pub math_weight: u64,
    pub pattern_weight: u64,
}

impl ScoringWeights {
    /// The four weights together.
    pub open spec fn total(&self) -> int {
        self.numerology_weight + self.fc60_weight + self.math_weight + self.pattern_weight
    }

    /// Every weight lies between zero and one.
    pub open spec fn in_range(&self) -> bool {
        &&& self.numerology_weight <= WEIGHT_ONE
        &&& self.fc60_weight <= WEIGHT_ONE
        &&& self.math_weight <= WEIGHT_ONE
        &&& self.pattern_weight <= WEIGHT_ONE
    }

    /// Every weight lies between zero and one, and together they are one
    /// within the tolerance.
    pub open spec fn is_valid(&self) -> bool {
        &&& self.in_range()
        &&& WEIGHT_ONE - WEIGHT_TOLERANCE < self.total() < WEIGHT_ONE + WEIGHT_TOLERANCE
    }

    /// The standard shares: 0.3, 0.25, 0.25 and 0.2.
    pub open spec fn standard() -> ScoringWeights {
        ScoringWeights {
            numerology_weight: 300_000_000_000,
            fc60_weight: 250_000_000_000,
            math_weight: 250_000_000_000,
            pattern_weight: 200_000_000_000,
        }
    }

    /// What `validate` says of the set: a weight out of range is reported
    /// before a sum that is off.
    pub open spec fn validation(&self) -> Result<(), ConfigError> {
        if !self.in_range() {
            Err(ConfigError::WeightOutOfRange)
        } else if !self.is_valid() {
            Err(ConfigError::WeightsDoNotSumToOne)
        } else {
            Ok(())
        }
    }

    /// Accepts a conforming weight set and says what is wrong with another;
    /// nothing is renormalised.
    pub fn validate(&self) -> (checked: Result<(), ConfigError>)
        ensures
            checked == self.validation(),
            checked is Ok <==> self.is_valid(),
    {
        if self.numerology_weight > WEIGHT_ONE || self.fc60_weight > WEIGHT_ONE || self.math_weight
            > WEIGHT_ONE || self.pattern_weight > WEIGHT_ONE {
            return Err(ConfigError::WeightOutOfRange);
        }
        let total: u64 = self.numerology_weight + self.fc60_weight + self.math_weight
            + self.pattern_weight;
        if WEIGHT_ONE - WEIGHT_TOLERANCE < total && total < WEIGHT_ONE + WEIGHT_TOLERANCE {
            Ok(())
        } else {
            Err(ConfigError::WeightsDoNotSumToOne)
        }
    }
}

impl Default for ScoringWeights {
    /// The standard shares, which are a valid set.
    fn default() -> (weights: Self)
        ensures
            weights == ScoringWeights::standard(),
            weights.is_valid(),
            weights.total() == WEIGHT_ONE,
    {
        ScoringWeights {
            numerology_weight: 300_000_000_000,
            fc60_weight: 250_000_000_000,
            math_weight: 250_000_000_000,
            pattern_weight: 200_000_000_000,
        }
    }
}

/// The weights of a valid set are one together to within the tolerance, and
/// each is at most one.
pub proof fn lemma_valid_weights_sum_to_one(weights: ScoringWeights)
    requires
        weights.is_valid(),
    ensures
        -(WEIGHT_TOLERANCE as int) < weights.total() - WEIGHT_ONE < WEIGHT_TOLERANCE,
        weights.in_range(),
{
}

/// What a ranked entry is to the contracts: the address's characters and the
/// rank key of its score.
pub type RankedEntry = (Seq<char>, u64);

/// The entries of a ranking, each taken by its view.
pub open spec fn entries_view(scores: Seq<(String, u64)>) -> Seq<RankedEntry> {
    Seq::new(scores.len(), |i: int| (scores[i].0@, scores[i].1))
}

/// Best first: no entry is followed by one with a larger key.
pub open spec fn sorted_descending(entries: Seq<RankedEntry>) -> bool {
    forall|i: int, j: int| 0 <= i < j < entries.len() ==> entries[i].1 >= entries[j].1
}

/// The length of the longest prefix whose keys are all at least `score`: the
/// place where a newcomer with that key goes, behind every holder it ties with.
pub open spec fn slot(entries: Seq<RankedEntry>, score: u64) -> int
    decreases entries.len(),
{
    if entries.len() > 0 && entries[0].1 >= score {
        1 + slot(entries.drop_first(), score)
    } else {
        0
    }
}

/// The least key held by a full ranking, and zero while there is room.
pub open spec fn min_held(entries: Seq<RankedEntry>, capacity: int) -> u64 {
    if entries.len() > 0 && entries.len() >= capacity {
        entries.last().1
    } else {
        0
    }
}

/// Whether a newcomer with key `score` is taken: there is room, or it strictly
/// beats the least key held. A ranking that holds nothing and has no room
/// takes nothing.
pub open spec fn admits(entries: Seq<RankedEntry>, capacity: int, score: u64) -> bool {
    entries.len() < capacity || (entries.len() > 0 && score > entries.last().1)
}

/// The ranking after a newcomer was offered to it.
pub open spec fn after_submit(entries: Seq<RankedEntry>, capacity: int, entry: RankedEntry) -> Seq<
    RankedEntry,
> {
    if admits(entries, capacity, entry.1) {
        let p = slot(entries, entry.1);
        let placed = entries.take(p).push(entry) + entries.skip(p);
        if placed.len() > capacity {
            placed.take(capacity)
        } else {
            placed
        }
    } else {
        entries
    }
}

/// The ranking after a run of newcomers was offered in order to an empty one.
pub open spec fn after_submit_all(capacity: int, offered: Seq<RankedEntry>) -> Seq<RankedEntry>
    decreases offered.len(),
{
    if offered.len() == 0 {
        Seq::empty()
    } else {
        after_submit(after_submit_all(capacity, offered.drop_last()), capacity, offered.last())
    }
}

/// `slot` lies within the sequence, everything before it holds a key of at
/// least `score`, and the entry at it (if any) holds a smaller one.
pub proof fn lemma_slot_bounds(entries: Seq<RankedEntry>, score: u64)
    ensures
        0 <= slot(entries, score) <= entries.len(),
        forall|i: int| 0 <= i < slot(entries, score) ==> (#[trigger] entries[i]).1 >= score,
        slot(entries, score) < entries.len() ==> entries[slot(entries, score)].1 < score,
    decreases entries.len(),
{
    if entries.len() > 0 && entries[0].1 >= score {
        let rest = entries.drop_first();
        lemma_slot_bounds(rest, score);
        assert forall|i: int| 0 <= i < slot(entries, score) implies (#[trigger] entries[i]).1
            >= score by {
            if i > 0 {
                assert(entries[i] == rest[i - 1]);
            }
        }
        if slot(entries, score) < entries.len() {
            assert(entries[slot(entries, score)] == rest[slot(rest, score)]);
        }
    }
}

/// A place `p` with only keys of at least `score` before it and a smaller key
/// at it is the slot.
pub proof fn lemma_slot_is(entries: Seq<RankedEntry>, score: u64, p: int)
    requires
        0 <= p <= entries.len(),
        forall|i: int| 0 <= i < p ==> (#[trigger] entries[i]).1 >= score,
        p < entries.len() ==> entries[p].1 < score,
    ensures
        slot(entries, score) == p,
    decreases p,
{
    if p > 0 {
        let rest = entries.drop_first();
        assert(entries[0].1 >= score);
        assert forall|i: int| 0 <= i < p - 1 implies (#[trigger] rest[i]).1 >= score by {
            assert(rest[i] == entries[i + 1]);
        }
        if p - 1 < rest.len() {
            assert(rest[p - 1] == entries[p]);
        }
        lemma_slot_is(rest, score, p - 1);
    }
}

/// Offering a newcomer to a sorted ranking within its capacity leaves it
/// sorted and within its capacity; its length grows by one while there is
/// room and stays as it is once the ranking is full.
pub proof fn lemma_after_submit_keeps_order(
    entries: Seq<RankedEntry>,
    capacity: int,
    entry: RankedEntry,
)
    requires
        sorted_descending(entries),
        entries.len() <= capacity,
    ensures
        sorted_descending(after_submit(entries, capacity, entry)),
        after_submit(entries, capacity, entry).len() <= capacity,
        entries.len() < capacity ==> after_submit(entries, capacity, entry).len() == entries.len()
            + 1,
        entries.len() == capacity ==> after_submit(entries, capacity, entry).len()
            == entries.len(),
{
    if admits(entries, capacity, entry.1) {
        let p = slot(entries, entry.1);
        lemma_slot_bounds(entries, entry.1);
        let placed = entries.take(p).push(entry) + entries.skip(p);
        assert(placed.len() == entries.len() + 1);
        assert forall|i: int, j: int| 0 <= i < j < placed.len() implies placed[i].1
            >= placed[j].1 by {
            if j < p {
                assert(placed[i] == entries[i] && placed[j] == entries[j]);
            } else if j == p {
                assert(placed[i] == entries[i]);
                assert(placed[j] == entry);
            } else if i < p {
                assert(placed[i] == entries[i]);
                assert(placed[j] == entries[j - 1]);
                assert(entries[i].1 >= entry.1);
                assert(p <= j - 1);
                if p < j - 1 {
                    assert(entries[p].1 >= entries[j - 1].1);
                }
            } else if i == p {
                assert(placed[i] == entry);
                assert(placed[j] == entries[j - 1]);
                if p < j - 1 {
                    assert(entries[p].1 >= entries[j - 1].1);
                }
            } else {
                assert(placed[i] == entries[i - 1] && placed[j] == entries[j - 1]);
            }
        }
        if placed.len() > capacity {
            let cut = placed.take(capacity);
            assert forall|i: int, j: int| 0 <= i < j < cut.len() implies cut[i].1
                >= cut[j].1 by {
                assert(cut[i] == placed[i] && cut[j] == placed[j]);
            }
        }
    }
}

/// Whatever is offered, in whatever order, to an empty ranking: afterwards it
/// holds the lesser of the number offered and its capacity, best first.
pub proof fn lemma_submit_all_retains(capacity: int, offered: Seq<RankedEntry>)
    requires
        0 <= capacity,
    ensures
        after_submit_all(capacity, offered).len() == if offered.len() <= capacity {
            offered.len() as int
        } else {
            capacity
        },
        sorted_descending(after_submit_all(capacity, offered)),
    decreases offered.len(),
{
    if offered.len() > 0 {
        lemma_submit_all_retains(capacity, offered.drop_last());
        lemma_after_submit_keeps_order(
            after_submit_all(capacity, offered.drop_last()),
            capacity,
            offered.last(),
        );
    }
}

/// The ranking is full and holds no key below `score`.
pub open spec fn holds_only_better(entries: Seq<RankedEntry>, capacity: int, score: u64) -> bool {
    &&& entries.len() == capacity
    &&& forall|j: int| 0 <= j < entries.len() ==> (#[trigger] entries[j]).1 >= score
}

/// One offer makes nothing up and loses nothing good: every entry held
/// afterwards was held before or is the newcomer; every entry held before,
/// and the newcomer, is held afterwards unless the ranking is then full of
/// keys at least as large; and a full ranking's least key never sinks.
pub proof fn lemma_after_submit_keeps_best(
    entries: Seq<RankedEntry>,
    capacity: int,
    entry: RankedEntry,
)
    requires
        sorted_descending(entries),
        entries.len() <= capacity,
    ensures
        forall|j: int|
            0 <= j < after_submit(entries, capacity, entry).len() ==> entries.contains(
                #[trigger] after_submit(entries, capacity, entry)[j],
            ) || after_submit(entries, capacity, entry)[j] == entry,
        forall|k: int|
            0 <= k < entries.len() ==> after_submit(entries, capacity, entry).contains(
                #[trigger] entries[k],
            ) || holds_only_better(after_submit(entries, capacity, entry), capacity, entries[k].1),
        after_submit(entries, capacity, entry).contains(entry) || holds_only_better(
            after_submit(entries, capacity, entry),
            capacity,
            entry.1,
        ),
        forall|bound: u64| #[trigger]
            holds_only_better(entries, capacity, bound) ==> holds_only_better(
                after_submit(entries, capacity, entry),
                capacity,
                bound,
            ),
{
    let kept = after_submit(entries, capacity, entry);
    let n = entries.len() as int;
    if !admits(entries, capacity, entry.1) {
        assert(kept == entries);
        assert forall|j: int| 0 <= j < n implies entries.contains(#[trigger] entries[j]) by {}
        if n > 0 {
            assert forall|j: int| 0 <= j < n implies (#[trigger] entries[j]).1 >= entry.1 by {
                if j < n - 1 {
                    assert(entries[j].1 >= entries[n - 1].1);
                }
            }
        }
    } else {
        let p = slot(entries, entry.1);
        lemma_slot_bounds(entries, entry.1);
        let placed = entries.take(p).push(entry) + entries.skip(p);
        assert(placed.len() == n + 1);
        assert(placed[p] == entry);
        assert forall|j: int| 0 <= j < p implies #[trigger] placed[j] == entries[j] by {}
        assert forall|j: int| p < j <= n implies #[trigger] placed[j] == entries[j - 1] by {}
        if placed.len() <= capacity {
            assert(kept == placed);
            assert forall|j: int| 0 <= j < kept.len() implies entries.contains(#[trigger] kept[j])
                || kept[j] == entry by {
                if j < p {
                    assert(kept[j] == entries[j]);
                } else if j > p {
                    assert(kept[j] == entries[j - 1]);
                }
            }
            assert forall|k: int| 0 <= k < n implies kept.contains(#[trigger] entries[k]) by {
                if k < p {
                    assert(kept[k] == entries[k]);
                } else {
                    assert(kept[k + 1] == entries[k]);
                }
            }
            assert(kept[p] == entry);
        } else {
            assert(n == capacity);
            assert(kept == placed.take(capacity));
            if capacity > 0 {
                let least = entries[n - 1].1;
                assert(entry.1 > least);
                assert(p < n) by {
                    if p == n {
                        assert(entries[n - 1].1 >= entry.1);
                    }
                }
                assert forall|j: int| 0 <= j < n implies (#[trigger] entries[j]).1 >= least by {
                    if j < n - 1 {
                        assert(entries[j].1 >= entries[n - 1].1);
                    }
                }
                assert forall|j: int| 0 <= j < kept.len() implies (entries.contains(
                    #[trigger] kept[j],
                ) || kept[j] == entry) && kept[j].1 >= least by {
                    assert(kept[j] == placed[j]);
                    if j < p {
                        assert(kept[j] == entries[j]);
                    } else if j > p {
                        assert(kept[j] == entries[j - 1]);
                    }
                }
                assert forall|k: int| 0 <= k < n implies kept.contains(#[trigger] entries[k])
                    || holds_only_better(kept, capacity, entries[k].1) by {
                    if k < p {
                        assert(kept[k] == entries[k]);
                    } else if k < n - 1 {
                        assert(kept[k + 1] == placed[k + 1]);
                        assert(kept[k + 1] == entries[k]);
                    }
                }
                assert(kept[p] == placed[p]);
                assert forall|bound: u64| #[trigger]
                    holds_only_better(entries, capacity, bound) implies holds_only_better(
                    kept,
                    capacity,
                    bound,
                ) by {
                    assert(entries[n - 1].1 >= bound);
                }
            }
        }
    }
}

/// Whatever is offered, in whatever order, to an empty ranking: every entry
/// held afterwards was offered, and every entry offered is held unless the
/// ranking is full of keys at least as large as its own.
pub proof fn lemma_submit_all_keeps_best(capacity: int, offered: Seq<RankedEntry>)
    requires
        0 <= capacity,
    ensures
        forall|j: int|
            0 <= j < after_submit_all(capacity, offered).len() ==> offered.contains(
                #[trigger] after_submit_all(capacity, offered)[j],
            ),
        forall|i: int|
            0 <= i < offered.len() ==> after_submit_all(capacity, offered).contains(
                #[trigger] offered[i],
            ) || holds_only_better(after_submit_all(capacity, offered), capacity, offered[i].1),
    decreases offered.len(),
{
    if offered.len() > 0 {
        let earlier = offered.drop_last();
        let newcomer = offered.last();
        let held = after_submit_all(capacity, earlier);
        let kept = after_submit_all(capacity, offered);
        lemma_submit_all_keeps_best(capacity, earlier);
        lemma_submit_all_retains(capacity, earlier);
        lemma_after_submit_keeps_best(held, capacity, newcomer);
        assert(kept == after_submit(held, capacity, newcomer));
        assert forall|j: int| 0 <= j < kept.len() implies offered.contains(#[trigger] kept[j]) by {
            if kept[j] == newcomer {
                assert(offered[offered.len() - 1] == newcomer);
            } else {
                assert(held.contains(kept[j]));
                let m = choose|m: int| 0 <= m < held.len() && held[m] == kept[j];
                assert(earlier.contains(held[m]));
                let i = choose|i: int| 0 <= i < earlier.len() && earlier[i] == held[m];
                assert(offered[i] == kept[j]);
            }
        }
        assert forall|i: int| 0 <= i < offered.len() implies kept.contains(#[trigger] offered[i])
            || holds_only_better(kept, capacity, offered[i].1) by {
            if i < offered.len() - 1 {
                assert(offered[i] == earlier[i]);
                if held.contains(earlier[i]) {
                    let m = choose|m: int| 0 <= m < held.len() && held[m] == earlier[i];
                    assert(kept.contains(held[m]) || holds_only_better(
                        kept,
                        capacity,
                        held[m].1,
                    ));
                } else {
                    assert(holds_only_better(held, capacity, earlier[i].1));
                }
            }
        }
    }
}

/// A newcomer that only ties with the least key of a full ranking evicts
/// nobody: the ranking stays as it was.
pub proof fn lemma_tie_keeps_holder(entries: Seq<RankedEntry>, capacity: int, entry: RankedEntry)
    requires
        entries.len() > 0,
        entries.len() == capacity,
        entry.1 == entries.last().1,
    ensures
        !admits(entries, capacity, entry.1),
        after_submit(entries, capacity, entry) == entries,
{
}

/// Top-N score tracker: at most `capacity` entries, best first, and among
/// equal scores the one seen first comes first.
#[derive(Clone, Debug)]
pub struct TopScoreTracker {
    pub capacity: usize,
    pub scores: Vec<(String, u64)>,
}

/// An entry that is taken is held afterwards, at its slot; one that is not
/// taken leaves the ranking as it was.
pub proof fn lemma_accepted_is_held(entries: Seq<RankedEntry>, capacity: int, entry: RankedEntry)
    requires
        sorted_descending(entries),
        entries.len() <= capacity,
    ensures
        admits(entries, capacity, entry.1) ==> slot(entries, entry.1) < after_submit(
            entries,
            capacity,
            entry,
        ).len() && after_submit(entries, capacity, entry)[slot(entries, entry.1)] == entry,
        !admits(entries, capacity, entry.1) ==> after_submit(entries, capacity, entry) == entries,
{
    if admits(entries, capacity, entry.1) {
        let p = slot(entries, entry.1);
        lemma_slot_bounds(entries, entry.1);
        let placed = entries.take(p).push(entry) + entries.skip(p);
        assert(placed[p] == entry);
        if placed.len() > capacity {
            if p == entries.len() {
                assert(entries[entries.len() - 1].1 >= entry.1);
            }
        }
    }
}

/// Whether the entries are sorted best first.
pub fn is_sorted_descending(entries: &Vec<(String, u64)>) -> (sorted: bool)
    ensures
        sorted == sorted_descending(entries_view(entries@)),
{
    let ghost view = entries_view(entries@);
    let mut i: usize = 1;
    while i < entries.len()
        invariant
            1 <= i,
            view == entries_view(entries@),
            forall|a: int, b: int| 0 <= a < b < i && b < view.len() ==> view[a].1 >= view[b].1,
        decreases entries@.len() - i,
    {
        if entries[i - 1].1 < entries[i].1 {
            assert(view[i - 1].1 < view[i as int].1);
            return false;
        }
        assert forall|a: int, b: int| 0 <= a < b < i + 1 && b < view.len() implies view[a].1
            >= view[b].1 by {
            if b == i && a < i - 1 {
                assert(view[a].1 >= view[i - 1].1);
            }
        }
        i = i + 1;
    }
    true
}

/// What a tracker is to the contracts: how many entries it may hold, and the
/// entries it holds.
pub struct RankingView {
    pub capacity: usize,
    pub entries: Seq<RankedEntry>,
}

impl View for TopScoreTracker {
    type V = RankingView;

    open spec fn view(&self) -> RankingView {
        RankingView { capacity: self.capacity, entries: entries_view(self.scores@) }
    }
}

impl TopScoreTracker {
    /// The ranking is within its capacity and sorted best first.
    pub open spec fn wf(&self) -> bool {
        &&& self.scores@.len() <= self.capacity
        &&& sorted_descending(self@.entries)
    }

    /// Whether the ranking is within its capacity and sorted best first.
    pub fn is_wf(&self) -> (ok: bool)
        ensures
            ok == self.wf(),
    {
        self.scores.len() <= self.capacity && is_sorted_descending(&self.scores)
    }

    /// An empty ranking that will hold up to `capacity` entries.
    pub fn new(capacity: usize) -> (tracker: Self)
        ensures
            tracker.wf(),
            tracker@.capacity == capacity,
            tracker@.entries == Seq::<RankedEntry>::empty(),
    {
        let tracker = TopScoreTracker { capacity, scores: Vec::with_capacity(capacity) };
        assert(tracker@.entries =~= Seq::<RankedEntry>::empty());
        tracker
    }

    /// Offers an entry and says whether it was taken into the ranking. It is
    /// taken while there is room, or when its key strictly beats the least
    /// key held; it then goes behind every holder whose key is at least its
    /// own, and the last entry leaves if the ranking would otherwise exceed
    /// its capacity. An entry that is not taken leaves the ranking as it was.
    pub fn submit(&mut self, address: String, score: u64) -> (accepted: bool)
        requires
            old(self).wf(),
        ensures
            final(self).wf(),
            final(self)@.capacity == old(self)@.capacity,
            accepted == admits(old(self)@.entries, old(self).capacity as int, score),
            final(self)@.entries == after_submit(old(self)@.entries, old(self).capacity as int, (address@, score)),
    {
        let ghost before = self@.entries;
        let ghost entry: RankedEntry = (address@, score);
        proof {
            lemma_after_submit_keeps_order(before, self.capacity as int, entry);
        }
        let n: usize = self.scores.len();
        if n < self.capacity || (n > 0 && score > self.scores[n - 1].1) {
            let mut p: usize = 0;
            while p < n && self.scores[p].1 >= score
                invariant
                    0 <= p <= n,
                    n == self.scores@.len(),
                    self@.entries == before,
                    forall|i: int| 0 <= i < p ==> (#[trigger] before[i]).1 >= score,
                decreases n - p,
            {
                assert(before[p as int].1 == self.scores@[p as int].1);
                p = p + 1;
            }
            proof {
                if p < n {
                    assert(before[p as int].1 == self.scores@[p as int].1);
                }
                lemma_slot_is(before, score, p as int);
            }
            let ghost held = self.scores@;
            self.scores.insert(p, (address, score));
            let ghost placed = before.take(p as int).push(entry) + before.skip(p as int);
            assert(self@.entries =~= placed) by {
                assert(self.scores@ == held.insert(p as int, (address, score)));
                assert forall|i: int| 0 <= i < placed.len() implies self@.entries[i] == placed[i] by {
                    if i < p {
                        assert(self.scores@[i] == held[i]);
                    } else if i > p {
                        assert(self.scores@[i] == held[i - 1]);
                    }
                }
            }
            let ghost full = self.scores@;
            self.scores.truncate(self.capacity);
            assert(self@.entries =~= after_submit(before, self.capacity as int, entry)) by {
                if placed.len() > self.capacity {
                    assert(self.scores@ == full.subrange(0, self.capacity as int));
                } else {
                    assert(self.scores@ == full);
                }
            }
            true
        } else {
            false
        }
    }

    /// The least key held once the ranking is full; zero while there is room.
    pub fn min_score(&self) -> (least: u64)
        ensures
            least == min_held(self@.entries, self.capacity as int),
    {
        let n: usize = self.scores.len();
        if n > 0 && n >= self.capacity {
            self.scores[n - 1].1
        } else {
            0
        }
    }

    /// The entries held, best first.
    pub fn top(&self) -> (entries: &[(String, u64)])
        ensures
            entries@ == self.scores@,
            entries_view(entries@) == self@.entries,
    {
        self.scores.as_slice()
    }
}

} // verus!
