//! Bounded registry of fingerprints already reported: an insertion-ordered
//! log with membership testing, idempotent insertion and FIFO eviction.

use vstd::prelude::*;
use crate::fingerprint::{FingerprintView, MessageFingerprint};

verus! {

/// What one insertion does to the log, at the spec level: an already-present
/// fingerprint is a no-op; a fresh one is appended, and when the log is full
/// the oldest entry is evicted first.  Because the no-op case comes first,
/// re-inserting an existing key never resets its age.
pub open spec fn spec_insert(
    log: Seq<FingerprintView>,
    fp: FingerprintView,
    cap: nat,
) -> Seq<FingerprintView> {
    if log.contains(fp) {
        log
    } else if log.len() < cap {
        log.push(fp)
    } else {
        log.drop_first().push(fp)
    }
}

/// Registry of fingerprints already reported.  Entries are kept in insertion
/// order, oldest first; the log never holds duplicates and never grows past
/// its capacity.
pub struct SeenMessageStore {
    log: Vec<MessageFingerprint>,
    capacity: usize,
}

impl SeenMessageStore {
    /// The retained fingerprints, oldest first.
    pub closed spec fn log_view(&self) -> Seq<FingerprintView> {
        self.log@.map_values(|fp: MessageFingerprint| fp@)
    }

    /// The maximum number of retained fingerprints.
    pub closed spec fn cap(&self) -> nat {
        self.capacity as nat
    }

    /// Well-formedness: the log holds no duplicate identity, never exceeds
    /// the capacity, and the capacity is positive.
    pub closed spec fn wf(&self) -> bool {
        &&& self.log_view().no_duplicates()
        &&& self.log_view().len() <= self.cap()
        &&& self.cap() >= 1
    }

    /// Creates an empty store that will retain at most `capacity` entries.
    pub fn new(capacity: usize) -> (s: Self)
        requires
            capacity >= 1,
        ensures
            s.wf(),
            s.cap() == capacity,
            s.log_view() == Seq::<FingerprintView>::empty(),
    {
        let s = SeenMessageStore { log: Vec::new(), capacity };
        proof {
            assert(s.log_view() =~= Seq::<FingerprintView>::empty());
        }
        s
    }

    /// Membership test: whether this identity has already been reported and
    /// is still retained.
    pub fn contains(&self, fp: &MessageFingerprint) -> (r: bool)
        ensures
            r == self.log_view().contains(fp@),
    {
        let mut i: usize = 0;
        while i < self.log.len()
            invariant
                i <= self.log.len(),
                forall|k: int| 0 <= k < i ==> self.log@[k]@ != fp@,
            decreases self.log.len() - i,
        {
            if self.log[i] == *fp {
                proof {
                    assert(self.log_view()[i as int] == fp@);
                }
                return true;
            }
            i += 1;
        }
        proof {
            assert forall|k: int| 0 <= k < self.log_view().len() implies self.log_view()[k]
                != fp@ by {
                assert(self.log_view()[k] == self.log@[k]@);
            }
        }
        false
    }

    /// Records an identity as seen.  Idempotent: inserting a fingerprint the
    /// store already holds changes nothing, and in particular does not reset
    /// the entry's age.  A fresh fingerprint is appended; once the log is at
    /// capacity, the oldest entry is evicted to make room.
    pub fn insert(&mut self, fp: MessageFingerprint)
        requires
            old(self).wf(),
        ensures
            final(self).wf(),
            final(self).cap() == old(self).cap(),
            final(self).log_view() == spec_insert(old(self).log_view(), fp@, old(self).cap()),
    {
        let ghost log0 = self.log_view();
        if !self.contains(&fp) {
            if self.log.len() >= self.capacity {
                let ghost pre = self.log@;
                self.log.remove(0);
                proof {
                    assert(self.log@ =~= pre.drop_first());
                    assert(self.log_view() =~= log0.drop_first());
                }
            }
            let ghost mid = self.log_view();
            let ghost midv = self.log@;
            self.log.push(fp);
            proof {
                assert(self.log_view() =~= mid.push(fp@)) by {
                    assert(self.log@ =~= midv.push(fp));
                }
                lemma_push_fresh_no_duplicates(log0, mid, fp@);
            }
        }
    }

    /// Forgets everything seen so far, keeping the capacity.  Whether seen
    /// state persists when the same conversation is closed and reopened is
    /// deliberately the caller's policy: a caller that wants a fresh session
    /// resets the store, one that wants persistence across reopens does not.
    pub fn reset(&mut self)
        requires
            old(self).wf(),
        ensures
            final(self).wf(),
            final(self).cap() == old(self).cap(),
            final(self).log_view() == Seq::<FingerprintView>::empty(),
    {
        self.log = Vec::new();
        proof {
            assert(self.log_view() =~= Seq::<FingerprintView>::empty());
        }
    }

    /// Number of retained fingerprints.
    pub fn len(&self) -> (n: usize)
        ensures
            n == self.log_view().len(),
    {
        self.log.len()
    }

    /// The capacity this store was created with.
    pub fn capacity(&self) -> (c: usize)
        ensures
            c == self.cap(),
    {
        self.capacity
    }
}

/// The log after inserting each fingerprint of `fps` in order.
pub open spec fn insert_all(
    log: Seq<FingerprintView>,
    fps: Seq<FingerprintView>,
    cap: nat,
) -> Seq<FingerprintView>
    decreases fps.len(),
{
    if fps.len() == 0 {
        log
    } else {
        insert_all(spec_insert(log, fps[0], cap), fps.drop_first(), cap)
    }
}

/// As long as the log has room, inserting fresh, pairwise distinct
/// fingerprints simply appends them in order.
proof fn lemma_insert_all_no_evict(
    log: Seq<FingerprintView>,
    fps: Seq<FingerprintView>,
    cap: nat,
)
    requires
        log.len() + fps.len() <= cap,
        fps.no_duplicates(),
        forall|i: int| 0 <= i < fps.len() ==> !log.contains(#[trigger] fps[i]),
    ensures
        insert_all(log, fps, cap) == log + fps,
    decreases fps.len(),
{
    if fps.len() == 0 {
        assert(log + fps =~= log);
    } else {
        let rest = fps.drop_first();
        assert(forall|i: int| 0 <= i < rest.len() ==> rest[i] == fps[i + 1]);
        assert(!log.contains(fps[0]));
        assert(log.len() < cap);
        let log1 = log.push(fps[0]);
        assert(spec_insert(log, fps[0], cap) == log1);
        assert forall|i: int| 0 <= i < rest.len() implies !log1.contains(rest[i]) by {
            assert(rest[i] == fps[i + 1]);
            assert(fps[i + 1] != fps[0]);
            if log1.contains(rest[i]) {
                let w = choose|w: int| 0 <= w < log1.len() && log1[w] == rest[i];
                assert(w < log.len());
                assert(log[w] == rest[i]);
            }
        }
        lemma_insert_all_no_evict(log1, rest, cap);
        assert(log1 + rest =~= log + fps);
    }
}

/// Inserting one more fingerprint at the end of a batch first inserts the
/// batch, then the last one.
proof fn lemma_insert_all_snoc(
    log: Seq<FingerprintView>,
    fps: Seq<FingerprintView>,
    f: FingerprintView,
    cap: nat,
)
    ensures
        insert_all(log, fps.push(f), cap) == spec_insert(insert_all(log, fps, cap), f, cap),
    decreases fps.len(),
{
    if fps.len() == 0 {
        assert(fps.push(f)[0] == f);
        assert(fps.push(f).drop_first() =~= fps);
        assert(insert_all(log, fps.push(f), cap) == insert_all(spec_insert(log, f, cap), fps, cap));
        assert(insert_all(spec_insert(log, f, cap), fps, cap) == spec_insert(log, f, cap));
        assert(insert_all(log, fps, cap) == log);
    } else {
        let log1 = spec_insert(log, fps[0], cap);
        assert(fps.push(f)[0] == fps[0]);
        assert(fps.push(f).drop_first() =~= fps.drop_first().push(f));
        assert(insert_all(log, fps.push(f), cap) == insert_all(
            log1,
            fps.drop_first().push(f),
            cap,
        ));
        lemma_insert_all_snoc(log1, fps.drop_first(), f, cap);
        assert(insert_all(log, fps, cap) == insert_all(log1, fps.drop_first(), cap));
    }
}

/// Eviction boundary: inserting `cap + 1` pairwise distinct fingerprints
/// into an empty store of capacity `cap` leaves exactly `cap` members — all
/// but the first — and the least recently inserted fingerprint is the one
/// evicted and no longer a member.
pub proof fn lemma_eviction_boundary(fps: Seq<FingerprintView>, cap: nat)
    requires
        cap >= 1,
        fps.len() == cap + 1,
        fps.no_duplicates(),
    ensures
        insert_all(Seq::empty(), fps, cap).len() == cap,
        insert_all(Seq::empty(), fps, cap) == fps.drop_first(),
        !insert_all(Seq::empty(), fps, cap).contains(fps[0]),
        forall|i: int|
            1 <= i < fps.len() ==> insert_all(Seq::empty(), fps, cap).contains(
                #[trigger] fps[i],
            ),
{
    let head = fps.take(cap as int);
    let last = fps[cap as int];
    assert(forall|i: int| 0 <= i < head.len() ==> head[i] == fps[i]);
    assert forall|i: int, j: int|
        0 <= i < head.len() && 0 <= j < head.len() && i != j implies head[i] != head[j] by {
        assert(fps[i] != fps[j]);
    }
    lemma_insert_all_no_evict(Seq::empty(), head, cap);
    assert(Seq::empty() + head =~= head);
    assert(head.push(last) =~= fps);
    lemma_insert_all_snoc(Seq::empty(), head, last, cap);
    assert(insert_all(Seq::empty(), fps, cap) == spec_insert(head, last, cap));
    assert(!head.contains(last)) by {
        if head.contains(last) {
            let w = choose|w: int| 0 <= w < head.len() && head[w] == last;
            assert(fps[w] == fps[cap as int]);
        }
    }
    let result = head.drop_first().push(last);
    assert(spec_insert(head, last, cap) == result);
    assert(result =~= fps.drop_first());
    assert(!result.contains(fps[0])) by {
        if result.contains(fps[0]) {
            let w = choose|w: int| 0 <= w < result.len() && result[w] == fps[0];
            assert(fps.drop_first()[w] == fps[w + 1]);
            assert(fps[w + 1] == fps[0]);
        }
    }
    assert forall|i: int| 1 <= i < fps.len() implies insert_all(Seq::empty(), fps, cap).contains(
        fps[i],
    ) by {
        assert(fps.drop_first()[i - 1] == fps[i]);
        assert(result.contains(fps[i]));
    }
}

/// Appending a fingerprint absent from `log0` onto `mid` — `log0` itself or
/// `log0` with its first entry dropped — keeps the log free of duplicates.
proof fn lemma_push_fresh_no_duplicates(
    log0: Seq<FingerprintView>,
    mid: Seq<FingerprintView>,
    fp: FingerprintView,
)
    requires
        log0.no_duplicates(),
        !log0.contains(fp),
        mid == log0 || (log0.len() > 0 && mid == log0.drop_first()),
    ensures
        mid.push(fp).no_duplicates(),
{
    assert(forall|k: int| 0 <= k < mid.len() ==> mid[k] == log0[k + (log0.len() - mid.len())]);
    assert forall|k: int| 0 <= k < mid.len() implies mid[k] != fp by {
        assert(log0[k + (log0.len() - mid.len())] == mid[k]);
    }
    assert(mid.no_duplicates());
    assert forall|i: int, j: int|
        0 <= i < mid.push(fp).len() && 0 <= j < mid.push(fp).len() && i != j implies mid.push(
        fp,
    )[i] != mid.push(fp)[j] by {
        if i < mid.len() && j < mid.len() {
            assert(mid[i] != mid[j]);
        }
    }
}

} // verus!
