//! Snapshots as bytes: the layout in which a checkpoint is persisted, and the
//! checks a persisted one has to pass before a session is built on it.
//!
//! Layout, every number a little-endian 64-bit word: the key count, the
//! ranking's capacity, the session identifier as text, the resumption marker
//! as a byte string, the number of ranked entries, and then each entry as its
//! rank key followed by its address as text.

use vstd::prelude::*;
use vstd::utf8::encode_utf8;
use crate::scanner::{Checkpoint, CheckpointView};
use crate::scoring::{entries_view, is_sorted_descending, sorted_descending, RankedEntry};
use crate::wire::{
    lemma_take_put_blob, lemma_take_put_text, lemma_take_put_u64, put_blob, put_text, put_u64,
    read_blob, read_text, read_u64, take_blob, take_text, take_u64, write_blob, write_text,
    write_u64,
};

verus! {

/// Why no snapshot could be loaded.
#[derive(Clone, Copy, Debug, PartialEq, Eq, Structural)]
pub enum CheckpointError {
    /// Nothing is stored under the identifier.
    NotFound,
    /// What is stored is no snapshot, or not a consistent one.
    Corrupt,
}

/// What stands in front of the ranked entries, and the bytes behind it.
pub struct Header {
    pub keys_tested: u64,
    pub capacity: u64,
    pub session_id: Seq<char>,
    pub last_key: Seq<u8>,
    pub count: u64,
    pub rest: Seq<u8>,
}

/// One ranked entry as bytes.
pub open spec fn put_entry(entry: RankedEntry) -> Seq<u8> {
    put_u64(entry.1) + put_text(entry.0)
}

/// The ranked entries as bytes, one behind the other.
pub open spec fn put_entries(entries: Seq<RankedEntry>) -> Seq<u8>
    decreases entries.len(),
{
    if entries.len() == 0 {
        Seq::empty()
    } else {
        put_entries(entries.drop_last()) + put_entry(entries.last())
    }
}

/// A snapshot as bytes.
pub open spec fn encode(v: CheckpointView) -> Seq<u8> {
    put_u64(v.keys_tested) + put_u64(v.top_capacity as u64) + put_text(v.session_id) + put_blob(
        v.last_key,
    ) + put_u64(v.top_scores.len() as u64) + put_entries(v.top_scores)
}

/// Every length in the snapshot can be written as a 64-bit word.
pub open spec fn encodable(v: CheckpointView) -> bool {
    &&& encode_utf8(v.session_id).len() <= u64::MAX
    &&& v.last_key.len() <= u64::MAX
    &&& v.top_scores.len() <= u64::MAX
    &&& forall|i: int|
        0 <= i < v.top_scores.len() ==> encode_utf8((#[trigger] v.top_scores[i]).0).len()
            <= u64::MAX
}

/// The ranking is within its capacity and sorted best first.
pub open spec fn consistent(v: CheckpointView) -> bool {
    &&& v.top_scores.len() <= v.top_capacity
    &&& sorted_descending(v.top_scores)
}

/// The entry at the front of `s` and what follows it.
pub open spec fn take_entry(s: Seq<u8>) -> Option<(RankedEntry, Seq<u8>)> {
    match take_u64(s) {
        Some((score, rest)) => match take_text(rest) {
            Some((address, behind)) => Some(((address, score), behind)),
            None => None,
        },
        None => None,
    }
}

/// `acc` followed by the `n` entries at the front of `s`, and what follows
/// them.
pub open spec fn take_entries(s: Seq<u8>, n: nat, acc: Seq<RankedEntry>) -> Option<
    (Seq<RankedEntry>, Seq<u8>),
>
    decreases n,
{
    if n == 0 {
        Some((acc, s))
    } else {
        match take_entry(s) {
            Some((entry, rest)) => take_entries(rest, (n - 1) as nat, acc.push(entry)),
            None => None,
        }
    }
}

/// The header at the front of `s`.
pub open spec fn take_header(s: Seq<u8>) -> Option<Header> {
    match take_u64(s) {
        None => None,
        Some((keys_tested, r1)) => match take_u64(r1) {
            None => None,
            Some((capacity, r2)) => match take_text(r2) {
                None => None,
                Some((session_id, r3)) => match take_blob(r3) {
                    None => None,
                    Some((last_key, r4)) => match take_u64(r4) {
                        None => None,
                        Some((count, rest)) => Some(
                            Header { keys_tested, capacity, session_id, last_key, count, rest },
                        ),
                    },
                },
            },
        },
    }
}

/// The snapshot that the bytes hold: they must be a header and as many
/// entries as it announces, with nothing behind them, the capacity must be
/// one this machine can count to, and the ranking must be within it and
/// sorted best first.
pub open spec fn decode(bytes: Seq<u8>) -> Option<CheckpointView> {
    match take_header(bytes) {
        None => None,
        Some(h) => if h.capacity > usize::MAX || h.count > h.capacity {
            None
        } else {
            match take_entries(h.rest, h.count as nat, Seq::empty()) {
                None => None,
                Some((top_scores, behind)) => if behind.len() == 0 && sorted_descending(
                    top_scores,
                ) {
                    Some(
                        CheckpointView {
                            session_id: h.session_id,
                            keys_tested: h.keys_tested,
                            last_key: h.last_key,
                            top_capacity: h.capacity as usize,
                            top_scores,
                        },
                    )
                } else {
                    None
                },
            }
        },
    }
}

/// An entry written and read again is the same entry.
pub proof fn lemma_take_put_entry(entry: RankedEntry, tail: Seq<u8>)
    requires
        encode_utf8(entry.0).len() <= u64::MAX,
    ensures
        take_entry(put_entry(entry) + tail) == Some((entry, tail)),
{
    assert(put_entry(entry) + tail =~= put_u64(entry.1) + (put_text(entry.0) + tail));
    lemma_take_put_u64(entry.1, put_text(entry.0) + tail);
    lemma_take_put_text(entry.0, tail);
}

/// Reading one entry more than `n` is reading `n` and then one.
pub proof fn lemma_take_entries_one_more(
    s: Seq<u8>,
    n: nat,
    acc: Seq<RankedEntry>,
    entry: RankedEntry,
    behind: Seq<u8>,
)
    requires
        take_entries(s, n, acc) is Some,
        take_entry(take_entries(s, n, acc)->Some_0.1) == Some((entry, behind)),
    ensures
        take_entries(s, n + 1, acc) == Some((take_entries(s, n, acc)->Some_0.0.push(entry), behind)),
    decreases n,
{
    if n > 0 {
        let first = take_entry(s)->Some_0;
        lemma_take_entries_one_more(first.1, (n - 1) as nat, acc.push(first.0), entry, behind);
    } else {
        assert(take_entries(behind, 0, acc.push(entry)) == Some((acc.push(entry), behind)));
    }
}

/// Entries written and read again are the same entries.
pub proof fn lemma_take_put_entries(entries: Seq<RankedEntry>, tail: Seq<u8>)
    requires
        forall|i: int|
            0 <= i < entries.len() ==> encode_utf8((#[trigger] entries[i]).0).len() <= u64::MAX,
    ensures
        take_entries(put_entries(entries) + tail, entries.len(), Seq::empty()) == Some(
            (entries, tail),
        ),
    decreases entries.len(),
{
    if entries.len() == 0 {
        assert(put_entries(entries) + tail =~= tail);
        assert(entries =~= Seq::<RankedEntry>::empty());
    } else {
        let front = entries.drop_last();
        let last = entries.last();
        let longer = put_entry(last) + tail;
        assert forall|i: int| 0 <= i < front.len() implies encode_utf8(
            (#[trigger] front[i]).0,
        ).len() <= u64::MAX by {
            assert(front[i] == entries[i]);
        }
        lemma_take_put_entries(front, longer);
        assert(put_entries(entries) + tail =~= put_entries(front) + longer);
        lemma_take_put_entry(last, tail);
        lemma_take_entries_one_more(
            put_entries(front) + longer,
            front.len(),
            Seq::empty(),
            last,
            tail,
        );
        assert(front.push(last) =~= entries);
    }
}

/// A consistent snapshot written and read again is the same snapshot.
pub proof fn lemma_decode_encode(v: CheckpointView)
    requires
        encodable(v),
        consistent(v),
    ensures
        decode(encode(v)) == Some(v),
{
    let count = v.top_scores.len() as u64;
    let t5 = put_entries(v.top_scores);
    let t4 = put_u64(count) + t5;
    let t3 = put_blob(v.last_key) + t4;
    let t2 = put_text(v.session_id) + t3;
    let t1 = put_u64(v.top_capacity as u64) + t2;
    assert(encode(v) =~= put_u64(v.keys_tested) + t1);
    lemma_take_put_u64(v.keys_tested, t1);
    lemma_take_put_u64(v.top_capacity as u64, t2);
    lemma_take_put_text(v.session_id, t3);
    lemma_take_put_blob(v.last_key, t4);
    lemma_take_put_u64(count, t5);
    let h = take_header(encode(v))->Some_0;
    assert(h.rest == t5);
    lemma_take_put_entries(v.top_scores, Seq::empty());
    assert(t5 + Seq::<u8>::empty() =~= t5);
    assert(h.capacity as usize == v.top_capacity);
}

impl Checkpoint {
    /// The snapshot as bytes, in the layout that `from_bytes` reads.
    pub fn to_bytes(&self) -> (bytes: Vec<u8>)
        ensures
            bytes@ == encode(self@),
            encodable(self@),
    {
        let mut out: Vec<u8> = Vec::new();
        write_u64(&mut out, self.keys_tested);
        write_u64(&mut out, self.top_capacity as u64);
        write_text(&mut out, self.session_id.as_str());
        write_blob(&mut out, self.last_key.as_slice());
        write_u64(&mut out, self.top_scores.len() as u64);
        let ghost head = out@;
        let ghost entries = entries_view(self.top_scores@);
        assert(put_entries(entries.take(0)) =~= Seq::<u8>::empty());
        assert(out@ =~= head + put_entries(entries.take(0)));
        let mut i: usize = 0;
        while i < self.top_scores.len()
            invariant
                0 <= i <= self.top_scores@.len(),
                entries == entries_view(self.top_scores@),
                out@ == head + put_entries(entries.take(i as int)),
                forall|k: int| 0 <= k < i ==> encode_utf8((#[trigger] entries[k]).0).len() <= u64::MAX,
            decreases self.top_scores@.len() - i,
        {
            let ghost before = out@;
            write_u64(&mut out, self.top_scores[i].1);
            write_text(&mut out, self.top_scores[i].0.as_str());
            proof {
                let longer = entries.take(i + 1);
                assert(longer.drop_last() =~= entries.take(i as int));
                assert(longer.last() == entries[i as int]);
                assert(out@ =~= head + put_entries(longer));
            }
            i = i + 1;
        }
        assert(entries.take(i as int) =~= entries);
        assert(out@ =~= encode(self@));
        out
    }

    /// Reads a snapshot from bytes: the one that `decode` finds in them, and
    /// `Corrupt` where it finds none.
    pub fn from_bytes(bytes: &[u8]) -> (read: Result<Checkpoint, CheckpointError>)
        ensures
            read is Ok <==> decode(bytes@) is Some,
            read is Ok ==> read->Ok_0@ == decode(bytes@)->Some_0 && read->Ok_0.wf(),
            read is Err ==> read->Err_0 == CheckpointError::Corrupt,
    {
        assert(bytes@.skip(0) =~= bytes@);
        let (keys_tested, p1) = match read_u64(bytes, 0) {
            Some(found) => found,
            None => { return Err(CheckpointError::Corrupt); },
        };
        let (capacity, p2) = match read_u64(bytes, p1) {
            Some(found) => found,
            None => { return Err(CheckpointError::Corrupt); },
        };
        let (session_id, p3) = match read_text(bytes, p2) {
            Some(found) => found,
            None => { return Err(CheckpointError::Corrupt); },
        };
        let (last_key, p4) = match read_blob(bytes, p3) {
            Some(found) => found,
            None => { return Err(CheckpointError::Corrupt); },
        };
        let (count, p5) = match read_u64(bytes, p4) {
            Some(found) => found,
            None => { return Err(CheckpointError::Corrupt); },
        };
        let ghost h = take_header(bytes@)->Some_0;
        assert(take_header(bytes@) is Some);
        assert(h.rest == bytes@.skip(p5 as int));
        if capacity > usize::MAX as u64 || count > capacity {
            return Err(CheckpointError::Corrupt);
        }
        let mut top_scores: Vec<(String, u64)> = Vec::new();
        let mut pos: usize = p5;
        let mut i: u64 = 0;
        assert(entries_view(top_scores@) =~= Seq::<RankedEntry>::empty());
        while i < count
            invariant
                0 <= i <= count,
                pos <= bytes@.len(),
                top_scores@.len() == i,
                take_header(bytes@) == Some(h),
                h.count == count,
                h.capacity == capacity,
                capacity <= usize::MAX,
                count <= capacity,
                take_entries(h.rest, count as nat, Seq::empty()) == take_entries(
                    bytes@.skip(pos as int),
                    (count - i) as nat,
                    entries_view(top_scores@),
                ),
            decreases count - i,
        {
            let ghost held = entries_view(top_scores@);
            let (score, at) = match read_u64(bytes, pos) {
                Some(found) => found,
                None => { return Err(CheckpointError::Corrupt); },
            };
            let (address, behind) = match read_text(bytes, at) {
                Some(found) => found,
                None => { return Err(CheckpointError::Corrupt); },
            };
            let ghost entry: RankedEntry = (address@, score);
            top_scores.push((address, score));
            assert(entries_view(top_scores@) =~= held.push(entry));
            pos = behind;
            i = i + 1;
        }
        if pos != bytes.len() {
            return Err(CheckpointError::Corrupt);
        }
        if !is_sorted_descending(&top_scores) {
            return Err(CheckpointError::Corrupt);
        }
        Ok(
            Checkpoint {
                session_id,
                keys_tested,
                last_key,
                top_capacity: capacity as usize,
                top_scores,
            },
        )
    }

    /// Loads a snapshot from what the store holds under its identifier:
    /// `NotFound` where the store holds nothing, `Corrupt` where what it holds
    /// is no consistent snapshot, and else the snapshot.
    pub fn load(stored: Option<&[u8]>) -> (loaded: Result<Checkpoint, CheckpointError>)
        ensures
            stored is None ==> loaded == Err::<Checkpoint, CheckpointError>(
                CheckpointError::NotFound,
            ),
            stored is Some && decode(stored->Some_0@) is None ==> loaded == Err::<
                Checkpoint,
                CheckpointError,
            >(CheckpointError::Corrupt),
            stored is Some && decode(stored->Some_0@) is Some ==> loaded is Ok && loaded->Ok_0@
                == decode(stored->Some_0@)->Some_0 && loaded->Ok_0.wf(),
    {
        match stored {
            None => Err(CheckpointError::NotFound),
            Some(bytes) => Checkpoint::from_bytes(bytes),
        }
    }
}

} // verus!
