//! The per-poll diff: extraction, fingerprinting and the seen-store combined
//! to compute which records of the current snapshot are genuinely new.

use vstd::prelude::*;
use crate::extract::{extract, extract_spec, DomSnapshot, ExtractionFailure};
use crate::fingerprint::{fingerprint, fp_of, FingerprintView};
use crate::record::{MessageNode, RawMessageRecord, RecordView};
use crate::store::{spec_insert, SeenMessageStore};

verus! {

/// The records one poll reports as new, processing the snapshot's records in
/// extraction order against an evolving log: a record whose fingerprint the
/// log holds is skipped; a fresh one is reported and its fingerprint is
/// inserted (evicting the oldest entry once the log is full).
pub open spec fn diff_news(
    seen: Seq<FingerprintView>,
    recs: Seq<RecordView>,
    cap: nat,
) -> Seq<RecordView>
    decreases recs.len(),
{
    if recs.len() == 0 {
        Seq::empty()
    } else if seen.contains(fp_of(recs[0])) {
        diff_news(seen, recs.drop_first(), cap)
    } else {
        seq![recs[0]] + diff_news(spec_insert(seen, fp_of(recs[0]), cap), recs.drop_first(), cap)
    }
}

/// The log after one poll has processed the snapshot's records in extraction
/// order, inserting each record's fingerprint in turn.
pub open spec fn diff_seen(
    seen: Seq<FingerprintView>,
    recs: Seq<RecordView>,
    cap: nat,
) -> Seq<FingerprintView>
    decreases recs.len(),
{
    if recs.len() == 0 {
        seen
    } else {
        diff_seen(spec_insert(seen, fp_of(recs[0]), cap), recs.drop_first(), cap)
    }
}

/// Processing one more record at the end of a snapshot first processes the
/// prefix, then inserts the last record's fingerprint.
pub proof fn lemma_diff_seen_snoc(
    seen: Seq<FingerprintView>,
    recs: Seq<RecordView>,
    r: RecordView,
    cap: nat,
)
    ensures
        diff_seen(seen, recs.push(r), cap) == spec_insert(diff_seen(seen, recs, cap), fp_of(r), cap),
    decreases recs.len(),
{
    if recs.len() == 0 {
        assert(recs.push(r)[0] == r);
        assert(recs.push(r).drop_first() =~= recs);
        assert(diff_seen(seen, recs.push(r), cap) == diff_seen(
            spec_insert(seen, fp_of(r), cap),
            recs,
            cap,
        ));
        assert(diff_seen(spec_insert(seen, fp_of(r), cap), recs, cap) == spec_insert(
            seen,
            fp_of(r),
            cap,
        ));
        assert(diff_seen(seen, recs, cap) == seen);
    } else {
        let seen1 = spec_insert(seen, fp_of(recs[0]), cap);
        assert(recs.push(r)[0] == recs[0]);
        assert(recs.push(r).drop_first() =~= recs.drop_first().push(r));
        assert(diff_seen(seen, recs.push(r), cap) == diff_seen(
            seen1,
            recs.drop_first().push(r),
            cap,
        ));
        lemma_diff_seen_snoc(seen1, recs.drop_first(), r, cap);
        assert(diff_seen(seen, recs, cap) == diff_seen(seen1, recs.drop_first(), cap));
    }
}

/// Processing one more record at the end of a snapshot reports the prefix's
/// news, then the last record exactly when the log after the prefix does not
/// hold its fingerprint.
pub proof fn lemma_diff_news_snoc(
    seen: Seq<FingerprintView>,
    recs: Seq<RecordView>,
    r: RecordView,
    cap: nat,
)
    ensures
        diff_news(seen, recs.push(r), cap) == (if diff_seen(seen, recs, cap).contains(fp_of(r)) {
            diff_news(seen, recs, cap)
        } else {
            diff_news(seen, recs, cap).push(r)
        }),
    decreases recs.len(),
{
    if recs.len() == 0 {
        assert(recs.push(r)[0] == r);
        assert(recs.push(r).drop_first() =~= recs);
        assert(diff_seen(seen, recs, cap) == seen);
        assert(diff_news(seen, recs, cap) == Seq::<RecordView>::empty());
        if seen.contains(fp_of(r)) {
            assert(diff_news(seen, recs.push(r), cap) == diff_news(seen, recs, cap));
        } else {
            assert(diff_news(seen, recs.push(r), cap) == seq![r] + diff_news(
                spec_insert(seen, fp_of(r), cap),
                recs,
                cap,
            ));
            assert(diff_news(spec_insert(seen, fp_of(r), cap), recs, cap) == Seq::<
                RecordView,
            >::empty());
            assert(seq![r] + Seq::<RecordView>::empty() =~= Seq::<RecordView>::empty().push(r));
        }
    } else {
        assert(recs.push(r)[0] == recs[0]);
        assert(recs.push(r).drop_first() =~= recs.drop_first().push(r));
        if seen.contains(fp_of(recs[0])) {
            assert(diff_news(seen, recs.push(r), cap) == diff_news(
                seen,
                recs.drop_first().push(r),
                cap,
            ));
            assert(diff_news(seen, recs, cap) == diff_news(seen, recs.drop_first(), cap));
            assert(diff_seen(seen, recs, cap) == diff_seen(
                spec_insert(seen, fp_of(recs[0]), cap),
                recs.drop_first(),
                cap,
            ));
            assert(spec_insert(seen, fp_of(recs[0]), cap) == seen);
            lemma_diff_news_snoc(seen, recs.drop_first(), r, cap);
        } else {
            let seen1 = spec_insert(seen, fp_of(recs[0]), cap);
            assert(diff_news(seen, recs.push(r), cap) == seq![recs[0]] + diff_news(
                seen1,
                recs.drop_first().push(r),
                cap,
            ));
            assert(diff_news(seen, recs, cap) == seq![recs[0]] + diff_news(
                seen1,
                recs.drop_first(),
                cap,
            ));
            assert(diff_seen(seen, recs, cap) == diff_seen(seen1, recs.drop_first(), cap));
            lemma_diff_news_snoc(seen1, recs.drop_first(), r, cap);
            if !diff_seen(seen, recs, cap).contains(fp_of(r)) {
                assert(seq![recs[0]] + diff_news(seen1, recs.drop_first(), cap).push(r) =~= (
                seq![recs[0]] + diff_news(seen1, recs.drop_first(), cap)).push(r));
            }
        }
    }
}

/// The combined effect of one poll on the log, as long as the log has room
/// for every record of the snapshot (so that no eviction happens):
/// the log only grows and keeps everything it held; every record of the
/// snapshot is in the log afterwards; the reported records were all unseen
/// before, all come from the snapshot, and carry pairwise distinct
/// fingerprints.
pub proof fn lemma_diff_props(seen: Seq<FingerprintView>, recs: Seq<RecordView>, cap: nat)
    requires
        seen.len() + recs.len() <= cap,
    ensures
        seen.len() <= diff_seen(seen, recs, cap).len() <= seen.len() + recs.len(),
        forall|fp: FingerprintView|
            seen.contains(fp) ==> #[trigger] diff_seen(seen, recs, cap).contains(fp),
        forall|i: int|
            0 <= i < recs.len() ==> diff_seen(seen, recs, cap).contains(fp_of(
                #[trigger] recs[i],
            )),
        forall|i: int|
            0 <= i < diff_news(seen, recs, cap).len() ==> !seen.contains(fp_of(
                #[trigger] diff_news(seen, recs, cap)[i],
            )),
        forall|i: int|
            0 <= i < diff_news(seen, recs, cap).len() ==> recs.contains(
                #[trigger] diff_news(seen, recs, cap)[i],
            ),
        diff_news(seen, recs, cap).map_values(|r: RecordView| fp_of(r)).no_duplicates(),
    decreases recs.len(),
{
    if recs.len() == 0 {
        assert(diff_news(seen, recs, cap).map_values(|r: RecordView| fp_of(r)) =~= Seq::<
            FingerprintView,
        >::empty());
    } else {
        let fp0 = fp_of(recs[0]);
        let rest = recs.drop_first();
        assert(forall|i: int| 0 <= i < rest.len() ==> rest[i] == recs[i + 1]);
        assert(forall|x: RecordView| rest.contains(x) ==> recs.contains(x));
        if seen.contains(fp0) {
            assert(spec_insert(seen, fp0, cap) == seen);
            assert(diff_seen(seen, recs, cap) == diff_seen(seen, rest, cap));
            assert(diff_news(seen, recs, cap) == diff_news(seen, rest, cap));
            lemma_diff_props(seen, rest, cap);
            assert(recs.contains(recs[0]));
            assert forall|i: int| 0 <= i < recs.len() implies diff_seen(seen, recs, cap).contains(
                fp_of(recs[i]),
            ) by {
                if i == 0 {
                    assert(diff_seen(seen, rest, cap).contains(fp0));
                } else {
                    assert(rest[i - 1] == recs[i]);
                    assert(diff_seen(seen, rest, cap).contains(fp_of(rest[i - 1])));
                }
            }
        } else {
            assert(seen.len() < cap);
            let seen1 = seen.push(fp0);
            assert(spec_insert(seen, fp0, cap) == seen1);
            assert forall|fp: FingerprintView| seen.contains(fp) implies seen1.contains(fp) by {
                let w = choose|w: int| 0 <= w < seen.len() && seen[w] == fp;
                assert(seen1[w] == fp);
            }
            assert(seen1[seen.len() as int] == fp0);
            assert(seen1.contains(fp0));
            assert(diff_seen(seen, recs, cap) == diff_seen(seen1, rest, cap));
            lemma_diff_props(seen1, rest, cap);
            assert forall|i: int| 0 <= i < recs.len() implies diff_seen(seen, recs, cap).contains(
                fp_of(recs[i]),
            ) by {
                if i == 0 {
                    assert(diff_seen(seen1, rest, cap).contains(fp0));
                } else {
                    assert(rest[i - 1] == recs[i]);
                    assert(diff_seen(seen1, rest, cap).contains(fp_of(rest[i - 1])));
                }
            }
            let news1 = diff_news(seen1, rest, cap);
            let news = diff_news(seen, recs, cap);
            assert(news == seq![recs[0]] + news1);
            assert(news[0] == recs[0]);
            assert(forall|i: int| 1 <= i < news.len() ==> news[i] == news1[i - 1]);
            assert forall|i: int| 0 <= i < news.len() implies !seen.contains(
                fp_of(news[i]),
            ) by {
                if i >= 1 {
                    assert(!seen1.contains(fp_of(news1[i - 1])));
                }
            }
            assert(recs.contains(recs[0]));
            let fps = news.map_values(|r: RecordView| fp_of(r));
            let fps1 = news1.map_values(|r: RecordView| fp_of(r));
            assert(forall|i: int| 1 <= i < fps.len() ==> fps[i] == fps1[i - 1]);
            assert forall|i: int, j: int|
                0 <= i < fps.len() && 0 <= j < fps.len() && i != j implies fps[i] != fps[j] by {
                if i >= 1 && j >= 1 {
                    assert(fps1[i - 1] != fps1[j - 1]);
                } else if i == 0 && j >= 1 {
                    assert(!seen1.contains(fp_of(news1[j - 1])));
                } else if j == 0 && i >= 1 {
                    assert(!seen1.contains(fp_of(news1[i - 1])));
                }
            }
        }
    }
}

/// When every record of the snapshot is already in the log, a poll reports
/// nothing.
pub proof fn lemma_all_seen_no_news(seen: Seq<FingerprintView>, recs: Seq<RecordView>, cap: nat)
    requires
        forall|i: int| 0 <= i < recs.len() ==> seen.contains(fp_of(#[trigger] recs[i])),
    ensures
        diff_news(seen, recs, cap).len() == 0,
    decreases recs.len(),
{
    if recs.len() > 0 {
        let rest = recs.drop_first();
        assert(forall|i: int| 0 <= i < rest.len() ==> rest[i] == recs[i + 1]);
        lemma_all_seen_no_news(seen, rest, cap);
    }
}

/// Idempotence of polling: two polls in a row over the same snapshot report
/// news at most once — the second reports nothing, so its `has_new_messages`
/// is false.  This holds as long as the log has room for the whole snapshot
/// on the first poll; a snapshot with more distinct fingerprints than the
/// store's capacity can evict its own early entries and re-report them.
pub proof fn lemma_poll_idempotent(seen: Seq<FingerprintView>, recs: Seq<RecordView>, cap: nat)
    requires
        seen.len() + recs.len() <= cap,
    ensures
        diff_news(diff_seen(seen, recs, cap), recs, cap).len() == 0,
{
    lemma_diff_props(seen, recs, cap);
    lemma_all_seen_no_news(diff_seen(seen, recs, cap), recs, cap);
}

/// `s` can be obtained from `t` by deleting elements, keeping the order of
/// the rest.
pub open spec fn is_subsequence_of(s: Seq<RecordView>, t: Seq<RecordView>) -> bool
    decreases t.len(),
{
    if s.len() == 0 {
        true
    } else if t.len() == 0 {
        false
    } else if s[0] == t[0] {
        is_subsequence_of(s.drop_first(), t.drop_first())
    } else {
        is_subsequence_of(s, t.drop_first())
    }
}

/// A subsequence of `t` is still a subsequence after dropping its own first
/// element.
proof fn lemma_subsequence_drop_first(s: Seq<RecordView>, t: Seq<RecordView>)
    requires
        is_subsequence_of(s, t),
        s.len() > 0,
    ensures
        is_subsequence_of(s.drop_first(), t),
    decreases t.len(), 1int,
{
    assert(t.len() > 0);
    if s[0] == t[0] {
        if s.drop_first().len() > 0 {
            lemma_subsequence_extend(s.drop_first(), t.drop_first(), t);
        }
    } else {
        lemma_subsequence_drop_first(s, t.drop_first());
        lemma_subsequence_extend(s.drop_first(), t.drop_first(), t);
    }
}

/// A subsequence of `t` is a subsequence of any sequence whose tail is `t`.
proof fn lemma_subsequence_extend(s: Seq<RecordView>, t: Seq<RecordView>, t2: Seq<RecordView>)
    requires
        is_subsequence_of(s, t),
        t2.len() == t.len() + 1,
        t2.drop_first() == t,
    ensures
        is_subsequence_of(s, t2),
    decreases t2.len(), 0int,
{
    if s.len() == 0 {
    } else if s[0] == t2[0] {
        lemma_subsequence_drop_first(s, t);
        assert(is_subsequence_of(s.drop_first(), t2.drop_first()));
    } else {
        assert(is_subsequence_of(s, t2.drop_first()));
    }
}

/// Order preservation: within one poll, the reported records are a
/// subsequence of the extracted records — reporting only ever deletes
/// already-seen entries, never reorders.  This holds for every snapshot and
/// every log, with or without eviction.
pub proof fn lemma_order_preserved(seen: Seq<FingerprintView>, recs: Seq<RecordView>, cap: nat)
    ensures
        is_subsequence_of(diff_news(seen, recs, cap), recs),
    decreases recs.len(),
{
    if recs.len() == 0 {
    } else {
        let fp0 = fp_of(recs[0]);
        let rest = recs.drop_first();
        let news = diff_news(seen, recs, cap);
        if seen.contains(fp0) {
            lemma_order_preserved(seen, rest, cap);
            assert(news == diff_news(seen, rest, cap));
            if news.len() > 0 {
                lemma_subsequence_extend(news, rest, recs);
            }
        } else {
            let seen1 = spec_insert(seen, fp0, cap);
            lemma_order_preserved(seen1, rest, cap);
            let news1 = diff_news(seen1, rest, cap);
            assert(news == seq![recs[0]] + news1);
            assert(news[0] == recs[0]);
            assert(news.drop_first() =~= news1);
        }
    }
}

/// Total number of records in the first `k` snapshots of a poll sequence.
pub open spec fn len_upto(snaps: Seq<Seq<RecordView>>, k: int) -> nat
    decreases k,
{
    if k <= 0 {
        0
    } else {
        len_upto(snaps, k - 1) + snaps[k - 1].len()
    }
}

/// The log after the first `k` polls of a sequence of snapshots, starting
/// from the log `seen0`.
pub open spec fn seen_at(
    seen0: Seq<FingerprintView>,
    snaps: Seq<Seq<RecordView>>,
    cap: nat,
    k: int,
) -> Seq<FingerprintView>
    decreases k,
{
    if k <= 0 {
        seen0
    } else {
        diff_seen(seen_at(seen0, snaps, cap, k - 1), snaps[k - 1], cap)
    }
}

/// The records the `k`-th poll of the sequence reports as new.
pub open spec fn news_at(
    seen0: Seq<FingerprintView>,
    snaps: Seq<Seq<RecordView>>,
    cap: nat,
    k: int,
) -> Seq<RecordView> {
    diff_news(seen_at(seen0, snaps, cap, k), snaps[k], cap)
}

proof fn lemma_len_upto_monotone(snaps: Seq<Seq<RecordView>>, k: int, n: int)
    requires
        0 <= k <= n,
    ensures
        len_upto(snaps, k) <= len_upto(snaps, n),
    decreases n,
{
    if n > k {
        lemma_len_upto_monotone(snaps, k, n - 1);
    }
}

proof fn lemma_seen_at_len(seen0: Seq<FingerprintView>, snaps: Seq<Seq<RecordView>>, cap: nat, k: int)
    requires
        0 <= k <= snaps.len(),
        seen0.len() + len_upto(snaps, snaps.len() as int) <= cap,
    ensures
        seen_at(seen0, snaps, cap, k).len() <= seen0.len() + len_upto(snaps, k),
    decreases k,
{
    if k > 0 {
        lemma_seen_at_len(seen0, snaps, cap, k - 1);
        lemma_len_upto_monotone(snaps, k, snaps.len() as int);
        lemma_diff_props(seen_at(seen0, snaps, cap, k - 1), snaps[k - 1], cap);
    }
}

proof fn lemma_seen_at_monotone(
    seen0: Seq<FingerprintView>,
    snaps: Seq<Seq<RecordView>>,
    cap: nat,
    k1: int,
    k2: int,
    fp: FingerprintView,
)
    requires
        0 <= k1 <= k2 <= snaps.len(),
        seen0.len() + len_upto(snaps, snaps.len() as int) <= cap,
        seen_at(seen0, snaps, cap, k1).contains(fp),
    ensures
        seen_at(seen0, snaps, cap, k2).contains(fp),
    decreases k2,
{
    if k2 > k1 {
        lemma_seen_at_monotone(seen0, snaps, cap, k1, k2 - 1, fp);
        lemma_seen_at_len(seen0, snaps, cap, k2 - 1);
        lemma_len_upto_monotone(snaps, k2, snaps.len() as int);
        lemma_diff_props(seen_at(seen0, snaps, cap, k2 - 1), snaps[k2 - 1], cap);
    }
}

/// No re-report, across a whole poll sequence: over any fixed sequence of
/// snapshots, polled in order from the starting log `seen0`, two different
/// polls never report records with the same fingerprint.  Together with
/// `lemma_diff_props` (the news of one poll carry pairwise distinct
/// fingerprints), the concatenation of all reported news contains each
/// distinct fingerprint at most once.  This holds as long as the log has
/// room for every record of the sequence; once eviction strikes, an evicted
/// fingerprint is deliberately no longer recognized and may be re-reported.
pub proof fn lemma_no_rereport(
    seen0: Seq<FingerprintView>,
    snaps: Seq<Seq<RecordView>>,
    cap: nat,
    i: int,
    j: int,
)
    requires
        0 <= i < j < snaps.len(),
        seen0.len() + len_upto(snaps, snaps.len() as int) <= cap,
    ensures
        forall|a: int, b: int|
            0 <= a < news_at(seen0, snaps, cap, i).len() && 0 <= b < news_at(
                seen0,
                snaps,
                cap,
                j,
            ).len() ==> fp_of(#[trigger] news_at(seen0, snaps, cap, i)[a]) != fp_of(
                #[trigger] news_at(seen0, snaps, cap, j)[b],
            ),
{
    let n = snaps.len() as int;
    let seen_i = seen_at(seen0, snaps, cap, i);
    let seen_j = seen_at(seen0, snaps, cap, j);
    let news_i = news_at(seen0, snaps, cap, i);
    let news_j = news_at(seen0, snaps, cap, j);
    lemma_seen_at_len(seen0, snaps, cap, i);
    lemma_len_upto_monotone(snaps, i + 1, n);
    lemma_diff_props(seen_i, snaps[i], cap);
    lemma_seen_at_len(seen0, snaps, cap, j);
    lemma_len_upto_monotone(snaps, j + 1, n);
    lemma_diff_props(seen_j, snaps[j], cap);
    assert forall|a: int, b: int|
        0 <= a < news_i.len() && 0 <= b < news_j.len() implies fp_of(news_i[a]) != fp_of(
        news_j[b],
    ) by {
        assert(snaps[i].contains(news_i[a]));
        let w = choose|w: int| 0 <= w < snaps[i].len() && snaps[i][w] == news_i[a];
        assert(seen_at(seen0, snaps, cap, i + 1).contains(fp_of(snaps[i][w])));
        lemma_seen_at_monotone(seen0, snaps, cap, i + 1, j, fp_of(news_i[a]));
        assert(!seen_j.contains(fp_of(news_j[b])));
    }
}

/// What one poll returns: the records judged new, in extraction order, and
/// whether there were any.
pub struct PollResult {
    pub new_messages: Vec<RawMessageRecord>,
    pub has_new_messages: bool,
}

/// Orchestrates extraction, fingerprinting and the seen-store to compute the
/// delta of new messages per poll cycle.  The store is its only mutable
/// state; sending messages never touches it.
pub struct MessageDiffEngine {
    store: SeenMessageStore,
}

impl MessageDiffEngine {
    /// The fingerprints currently retained as seen, oldest first.
    pub closed spec fn seen(&self) -> Seq<FingerprintView> {
        self.store.log_view()
    }

    /// The seen-store's capacity.
    pub closed spec fn cap(&self) -> nat {
        self.store.cap()
    }

    /// Well-formedness, inherited from the store.
    pub closed spec fn wf(&self) -> bool {
        self.store.wf()
    }

    /// Creates an engine whose store retains at most `capacity` fingerprints.
    pub fn new(capacity: usize) -> (e: Self)
        requires
            capacity >= 1,
        ensures
            e.wf(),
            e.cap() == capacity,
            e.seen() == Seq::<FingerprintView>::empty(),
    {
        MessageDiffEngine { store: SeenMessageStore::new(capacity) }
    }

    /// Forgets all seen fingerprints, keeping the capacity.  Whether seen
    /// state persists when the same conversation handle is reused after a
    /// close-and-reopen is the caller's policy, chosen by calling this or
    /// not.
    pub fn reset(&mut self)
        requires
            old(self).wf(),
        ensures
            final(self).wf(),
            final(self).cap() == old(self).cap(),
            final(self).seen() == Seq::<FingerprintView>::empty(),
    {
        self.store.reset();
    }

    /// Number of fingerprints currently retained as seen.
    pub fn seen_len(&self) -> (n: usize)
        ensures
            n == self.seen().len(),
    {
        self.store.len()
    }

    /// One poll cycle: extract the snapshot's records, and report those whose
    /// fingerprint the store does not hold, in extraction order, recording
    /// each reported fingerprint as it goes.  An invalid or detached handle
    /// surfaces the extraction failure unchanged and leaves the store as it
    /// was; store mutation is committed incrementally per record, never
    /// rolled back.
    pub fn poll(&mut self, snapshot: DomSnapshot) -> (res: Result<PollResult, ExtractionFailure>)
        requires
            old(self).wf(),
        ensures
            final(self).wf(),
            final(self).cap() == old(self).cap(),
            (match snapshot {
                DomSnapshot::Detached => res is Err && final(self).seen() == old(self).seen(),
                DomSnapshot::Conversation(nodes) => {
                    let recs = extract_spec(nodes@.map_values(|n: MessageNode| n@));
                    &&& res is Ok
                    &&& res->Ok_0.new_messages@.map_values(|r: RawMessageRecord| r@) == diff_news(
                        old(self).seen(),
                        recs,
                        old(self).cap(),
                    )
                    &&& final(self).seen() == diff_seen(old(self).seen(), recs, old(self).cap())
                    &&& res->Ok_0.has_new_messages == (res->Ok_0.new_messages@.len() > 0)
                },
            }),
    {
        let records = match extract(snapshot) {
            Ok(records) => records,
            Err(failure) => {
                return Err(failure);
            },
        };
        let ghost seen0 = self.store.log_view();
        let ghost cap0 = self.store.cap();
        let ghost recs = records@.map_values(|r: RawMessageRecord| r@);
        let mut new_messages: Vec<RawMessageRecord> = Vec::new();
        let mut i: usize = 0;
        proof {
            assert(recs.take(0) =~= Seq::<RecordView>::empty());
            assert(new_messages@.map_values(|r: RawMessageRecord| r@) =~= Seq::<
                RecordView,
            >::empty());
        }
        while i < records.len()
            invariant
                i <= records.len(),
                recs == records@.map_values(|r: RawMessageRecord| r@),
                self.store.wf(),
                self.store.cap() == cap0,
                self.store.log_view() == diff_seen(seen0, recs.take(i as int), cap0),
                new_messages@.map_values(|r: RawMessageRecord| r@) == diff_news(
                    seen0,
                    recs.take(i as int),
                    cap0,
                ),
            decreases records.len() - i,
        {
            let record = records[i].clone();
            let fp = fingerprint(&record);
            let ghost news0 = new_messages@;
            let fresh = !self.store.contains(&fp);
            if fresh {
                self.store.insert(fp);
                new_messages.push(record);
            }
            proof {
                assert(recs.take(i + 1) =~= recs.take(i as int).push(recs[i as int]));
                assert(recs[i as int] == records@[i as int]@);
                lemma_diff_seen_snoc(seen0, recs.take(i as int), recs[i as int], cap0);
                lemma_diff_news_snoc(seen0, recs.take(i as int), recs[i as int], cap0);
                if fresh {
                    assert(new_messages@ =~= news0.push(record));
                    assert(new_messages@.map_values(|r: RawMessageRecord| r@) =~= news0.map_values(
                        |r: RawMessageRecord| r@,
                    ).push(record@));
                }
            }
            i += 1;
        }
        proof {
            assert(recs.take(records.len() as int) =~= recs);
        }
        let has_new_messages = new_messages.len() > 0;
        Ok(PollResult { new_messages, has_new_messages })
    }
}

} // verus!
