use vstd::prelude::*;
use axum::http::header::HeaderMap;
use crate::headers::{header_entries, pairs_view, text_pairs};
use crate::response::{reason_phrase, response_head, status_line_text};

verus! {

/// Something the pull-protocol host has been handed.
pub enum HostEvent {
    /// The status line and headers, through the response-start callback.
    Head,
    /// A body chunk of this many bytes.
    Chunk(nat),
}

/// One streaming call as the host sees it: first the status line and headers, then body
/// chunks.
pub struct StreamCall {
    head_sent: bool,
    trace: Ghost<Seq<HostEvent>>,
}

impl StreamCall {
    pub closed spec fn head_sent(&self) -> bool {
        self.head_sent
    }

    /// What the host has been handed so far, in order.
    pub closed spec fn trace(&self) -> Seq<HostEvent> {
        self.trace@
    }

    /// The trace starts with the one head, and the head has gone out exactly when it is in
    /// the trace.
    pub open spec fn wf(&self) -> bool {
        &&& self.head_sent() <==> self.trace().len() > 0
        &&& self.trace().len() > 0 ==> self.trace()[0] is Head
        &&& forall|i: int| 0 < i < self.trace().len() ==> #[trigger] self.trace()[i] is Chunk
    }

    /// A call for which nothing has reached the host yet.
    pub fn new() -> (r: Self)
        ensures
            r.wf(),
            !r.head_sent(),
            r.trace() == Seq::<HostEvent>::empty(),
    {
        StreamCall { head_sent: false, trace: Ghost(Seq::empty()) }
    }

    /// Whether the status line and headers have been handed out.
    pub fn is_started(&self) -> (r: bool)
        ensures
            r == self.head_sent(),
    {
        self.head_sent
    }

    /// Hands out the status line and headers for the response-start callback, once; `None`
    /// when they have already gone out.
    pub fn start(&mut self, code: u16, headers: &HeaderMap) -> (r: Option<
        (String, Vec<(String, String)>),
    >)
        requires
            old(self).wf(),
            100 <= code <= 999,
        ensures
            final(self).wf(),
            final(self).head_sent(),
            old(self).head_sent() ==> r is None && final(self).trace() == old(self).trace(),
            !old(self).head_sent() ==> {
                &&& r matches Some(h) && h.0@ == status_line_text(code, reason_phrase(code))
                    && pairs_view(h.1@) == text_pairs(header_entries(*headers))
                &&& final(self).trace() == seq![HostEvent::Head]
            },
    {
        if self.head_sent {
            return None;
        }
        let head = response_head(code, headers);
        self.head_sent = true;
        proof {
            self.trace@ = seq![HostEvent::Head];
        }
        Some(head)
    }

    /// Passes a body chunk to the host; refused (`None`) while the head has not gone out.
    pub fn deliver(&mut self, chunk: Vec<u8>) -> (r: Option<Vec<u8>>)
        requires
            old(self).wf(),
        ensures
            final(self).wf(),
            final(self).head_sent() == old(self).head_sent(),
            !old(self).head_sent() ==> r is None && final(self).trace() == old(self).trace(),
            old(self).head_sent() ==> {
                &&& r matches Some(c) && c@ == chunk@
                &&& final(self).trace() == old(self).trace().push(HostEvent::Chunk(chunk@.len()))
            },
    {
        if !self.head_sent {
            return None;
        }
        proof {
            self.trace@ = self.trace@.push(HostEvent::Chunk(chunk@.len()));
        }
        Some(chunk)
    }
}

/// In every streaming call the status line and headers reach the host once, before the
/// first body chunk.
pub proof fn lemma_head_precedes_body(call: StreamCall)
    requires
        call.wf(),
    ensures
        forall|i: int| 0 <= i < call.trace().len() && (#[trigger] call.trace()[i]) is Chunk ==> 0 < i
            && call.trace()[0] is Head,
        forall|i: int| 0 < i < call.trace().len() ==> !(#[trigger] call.trace()[i] is Head),
{
}

} // verus!
