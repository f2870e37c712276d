//! Raw message data: the nodes a DOM-read capability hands over, and the
//! structured records extracted from the well-formed ones.

use vstd::prelude::*;

verus! {

/// Spec-level value of one message-like DOM node.  A field is `None` when the
/// corresponding piece of content is missing from the node.
pub ghost struct NodeView {
    pub sender_label: Option<Seq<char>>,
    pub body_text: Option<Seq<char>>,
    pub rendered_timestamp: Option<Seq<char>>,
}

/// One message-like element of a conversation view, as the host's DOM-read
/// capability hands it over: each piece of content is present or missing
/// independently, since the live page may render partial nodes at any time.
pub struct MessageNode {
    pub sender_label: Option<String>,
    pub body_text: Option<String>,
    pub rendered_timestamp: Option<String>,
}

impl View for MessageNode {
    type V = NodeView;

    open spec fn view(&self) -> NodeView {
        NodeView {
            sender_label: match self.sender_label {
                Some(s) => Some(s@),
                None => None,
            },
            body_text: match self.body_text {
                Some(s) => Some(s@),
                None => None,
            },
            rendered_timestamp: match self.rendered_timestamp {
                Some(s) => Some(s@),
                None => None,
            },
        }
    }
}

/// Spec-level value of a structured message record.
pub ghost struct RecordView {
    pub sender_label: Seq<char>,
    pub body_text: Seq<char>,
    pub rendered_timestamp: Seq<char>,
    pub dom_position_hint: int,
}

/// A structured message record extracted from one well-formed node.
/// Produced transiently by extraction; `dom_position_hint` is the node's
/// position in the sampled conversation view and is unstable across
/// re-renders, so identity never depends on it.
pub struct RawMessageRecord {
    pub sender_label: String,
    pub body_text: String,
    pub rendered_timestamp: String,
    pub dom_position_hint: usize,
}

impl View for RawMessageRecord {
    type V = RecordView;

    open spec fn view(&self) -> RecordView {
        RecordView {
            sender_label: self.sender_label@,
            body_text: self.body_text@,
            rendered_timestamp: self.rendered_timestamp@,
            dom_position_hint: self.dom_position_hint as int,
        }
    }
}

impl Clone for RawMessageRecord {
    fn clone(&self) -> (res: Self)
        ensures
            res == *self,
    {
        RawMessageRecord {
            sender_label: self.sender_label.clone(),
            body_text: self.body_text.clone(),
            rendered_timestamp: self.rendered_timestamp.clone(),
            dom_position_hint: self.dom_position_hint,
        }
    }
}

} // verus!
