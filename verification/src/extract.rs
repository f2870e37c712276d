//! Snapshot extraction: walking one sampled conversation view and yielding
//! the structured records of its well-formed message nodes, in order.

use vstd::prelude::*;
use crate::record::{MessageNode, NodeView, RawMessageRecord, RecordView};

verus! {

/// One point-in-time, read-only sample of the conversation the caller's
/// handle refers to.  The host's DOM-read capability either finds the
/// conversation and lists its message-like nodes in document order
/// (oldest to newest), or reports the handle invalid or detached.
pub enum DomSnapshot {
    /// The handle refers to a closed or never-opened conversation.
    Detached,
    /// The conversation's message-like nodes, in document order.
    Conversation(Vec<MessageNode>),
}

/// Extraction fails only when the conversation handle itself is invalid or
/// detached — never for an empty conversation or unparseable single nodes.
#[derive(Clone, Copy, PartialEq, Eq, Structural, Debug)]
pub struct ExtractionFailure;

/// A node is well-formed when every content field is present.
pub open spec fn wf_node(n: NodeView) -> bool {
    n.sender_label is Some && n.body_text is Some && n.rendered_timestamp is Some
}

/// The record a well-formed node at position `position` extracts to.
pub open spec fn record_of(n: NodeView, position: int) -> RecordView
    recommends
        wf_node(n),
{
    RecordView {
        sender_label: n.sender_label->0,
        body_text: n.body_text->0,
        rendered_timestamp: n.rendered_timestamp->0,
        dom_position_hint: position,
    }
}

/// The deterministic filtering policy over one snapshot: malformed nodes
/// are skipped, each well-formed node yields exactly one record carrying its
/// position, and document order is kept.
pub open spec fn extract_spec(nodes: Seq<NodeView>) -> Seq<RecordView>
    decreases nodes.len(),
{
    if nodes.len() == 0 {
        Seq::empty()
    } else {
        let prefix = extract_spec(nodes.drop_last());
        if wf_node(nodes.last()) {
            prefix.push(record_of(nodes.last(), nodes.len() - 1))
        } else {
            prefix
        }
    }
}

/// Walks one snapshot and yields the records of its well-formed nodes, in
/// document order.  Fails exactly when the handle was invalid or detached;
/// an empty conversation yields an empty sequence, and a node missing any
/// content field is filtered out rather than producing a partial record.
pub fn extract(snapshot: DomSnapshot) -> (res: Result<Vec<RawMessageRecord>, ExtractionFailure>)
    ensures
        (match snapshot {
            DomSnapshot::Detached => res is Err,
            DomSnapshot::Conversation(nodes) => {
                &&& res is Ok
                &&& res->Ok_0@.map_values(|r: RawMessageRecord| r@) == extract_spec(
                    nodes@.map_values(|n: MessageNode| n@),
                )
            },
        }),
{
    match snapshot {
        DomSnapshot::Detached => Err(ExtractionFailure),
        DomSnapshot::Conversation(nodes) => {
            let ghost views = nodes@.map_values(|n: MessageNode| n@);
            let mut out: Vec<RawMessageRecord> = Vec::new();
            let mut i: usize = 0;
            proof {
                assert(out@.map_values(|r: RawMessageRecord| r@) =~= extract_spec(
                    views.take(0),
                ));
            }
            while i < nodes.len()
                invariant
                    i <= nodes.len(),
                    views == nodes@.map_values(|n: MessageNode| n@),
                    out@.map_values(|r: RawMessageRecord| r@) == extract_spec(
                        views.take(i as int),
                    ),
                decreases nodes.len() - i,
            {
                let ghost out0 = out@;
                match (&nodes[i].sender_label, &nodes[i].body_text, &nodes[i].rendered_timestamp) {
                    (Some(s), Some(b), Some(t)) => {
                        out.push(
                            RawMessageRecord {
                                sender_label: s.clone(),
                                body_text: b.clone(),
                                rendered_timestamp: t.clone(),
                                dom_position_hint: i,
                            },
                        );
                    },
                    _ => {},
                }
                proof {
                    assert(views.take(i + 1).drop_last() =~= views.take(i as int));
                    assert(views.take(i + 1).last() == views[i as int]);
                    assert(views[i as int] == nodes@[i as int]@);
                    if wf_node(views[i as int]) {
                        assert(out@ =~= out0.push(out@.last()));
                        assert(out@.map_values(|r: RawMessageRecord| r@) =~= out0.map_values(
                            |r: RawMessageRecord| r@,
                        ).push(out@.last()@));
                        assert(out@.last()@ == record_of(views[i as int], i as int));
                    }
                }
                i += 1;
            }
            proof {
                assert(views.take(nodes.len() as int) =~= views);
            }
            Ok(out)
        },
    }
}

} // verus!
