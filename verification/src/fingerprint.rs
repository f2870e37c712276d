//! Deterministic message identity, used for deduplication.

use vstd::prelude::*;
use crate::record::{RawMessageRecord, RecordView};

verus! {

/// Spec-level value of a fingerprint: exactly the three content fields a
/// message's identity is derived from.
pub ghost struct FingerprintView {
    pub sender_label: Seq<char>,
    pub body_text: Seq<char>,
    pub rendered_timestamp: Seq<char>,
}

/// The fingerprint a record's identity is derived from: the sender label,
/// the body text and the rendered timestamp, and nothing else.  In
/// particular `dom_position_hint` does not participate, because DOM position
/// is unstable across re-renders.
pub open spec fn fp_of(r: RecordView) -> FingerprintView {
    FingerprintView {
        sender_label: r.sender_label,
        body_text: r.body_text,
        rendered_timestamp: r.rendered_timestamp,
    }
}

/// An opaque, deterministic identity key for a scraped message record.
///
/// Two records with identical sender, body and timestamp get equal
/// fingerprints even when extracted at different times or DOM offsets; two
/// distinct physical messages with identical sender, body and timestamp
/// collide and are treated as one logical message — a documented limitation
/// of the identity scheme, not a failure.
pub struct MessageFingerprint {
    sender_label: String,
    body_text: String,
    rendered_timestamp: String,
}

impl View for MessageFingerprint {
    type V = FingerprintView;

    closed spec fn view(&self) -> FingerprintView {
        FingerprintView {
            sender_label: self.sender_label@,
            body_text: self.body_text@,
            rendered_timestamp: self.rendered_timestamp@,
        }
    }
}

impl PartialEq for MessageFingerprint {
    fn eq(&self, other: &Self) -> bool {
        self.sender_label == other.sender_label && self.body_text == other.body_text
            && self.rendered_timestamp == other.rendered_timestamp
    }
}

impl vstd::std_specs::cmp::PartialEqSpecImpl for MessageFingerprint {
    open spec fn obeys_eq_spec() -> bool {
        true
    }

    open spec fn eq_spec(&self, other: &Self) -> bool {
        self@ == other@
    }
}

/// Derives the identity key of a record.  Pure and total: it is defined for
/// every record and never fails, and identical logical inputs always yield
/// identical output, as the ensures pins the result to a function of the
/// record's view alone.
pub fn fingerprint(record: &RawMessageRecord) -> (fp: MessageFingerprint)
    ensures
        fp@ == fp_of(record@),
{
    MessageFingerprint {
        sender_label: record.sender_label.clone(),
        body_text: record.body_text.clone(),
        rendered_timestamp: record.rendered_timestamp.clone(),
    }
}

/// Collision policy of the identity scheme: two records fingerprint alike
/// exactly when their sender label, body text and rendered timestamp all
/// agree — the DOM position hint never separates or joins them.
pub proof fn lemma_fingerprint_collision_policy(a: RecordView, b: RecordView)
    ensures
        fp_of(a) == fp_of(b) <==> (a.sender_label == b.sender_label && a.body_text == b.body_text
            && a.rendered_timestamp == b.rendered_timestamp),
{
}

} // verus!
