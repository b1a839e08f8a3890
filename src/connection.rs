use vstd::prelude::*;

use crate::bytes::push_bytes;
use crate::decode::{decode, spec_decode};
use crate::message::{MessageParseError, Message, MessageView, Request, RequestView};

verus! {

/// What the connection loop does next.
pub enum LoopStep {
    /// A request arrived: answer it with the response policy.
    Serve(Request),
    /// A response arrived, which a peer never should send: answer with a
    /// bad request reply and go on.
    Reject,
    /// The message is not complete yet: wait for more bytes.
    ReadMore,
    /// The peer closed the stream: stop without an error.
    ClosedGracefully,
    /// Stop, and report the error.
    ClosedWithError(MessageParseError),
}

/// What a loop step says.
pub enum LoopStepView {
    Serve(RequestView),
    Reject,
    ReadMore,
    ClosedGracefully,
    ClosedWithError(MessageParseError),
}

impl View for LoopStep {
    type V = LoopStepView;

    open spec fn view(&self) -> LoopStepView {
        match self {
            LoopStep::Serve(r) => LoopStepView::Serve(r@),
            LoopStep::Reject => LoopStepView::Reject,
            LoopStep::ReadMore => LoopStepView::ReadMore,
            LoopStep::ClosedGracefully => LoopStepView::ClosedGracefully,
            LoopStep::ClosedWithError(e) => LoopStepView::ClosedWithError(*e),
        }
    }
}

/// The next step of the loop on the bytes `s` received and not yet decoded,
/// where `closed` says that the peer will send no more; with how many bytes
/// the step takes.
pub open spec fn spec_next_step(s: Seq<u8>, closed: bool) -> (LoopStepView, int) {
    match spec_decode(s) {
        Ok((MessageView::Request(r), n)) => (LoopStepView::Serve(r), n),
        Ok((MessageView::Response(_), n)) => (LoopStepView::Reject, n),
        Err(MessageParseError::ConnectionClosed) => if closed {
            (LoopStepView::ClosedGracefully, 0)
        } else {
            (LoopStepView::ReadMore, 0)
        },
        Err(MessageParseError::BodyRead) => if closed {
            (LoopStepView::ClosedWithError(MessageParseError::BodyRead), 0)
        } else {
            (LoopStepView::ReadMore, 0)
        },
        Err(e) => (LoopStepView::ClosedWithError(e), 0),
    }
}

/// The steps that the loop takes on a stream that sends `s` and then closes,
/// up to and including the one that ends it.
pub open spec fn trace(s: Seq<u8>) -> Seq<LoopStepView>
    decreases s.len(),
{
    let (step, n) = spec_next_step(s, true);
    if (step is Serve || step is Reject) && 0 < n <= s.len() {
        seq![step] + trace(s.subrange(n, s.len() as int))
    } else {
        seq![step]
    }
}

/// The bytes received on a connection and not yet decoded.
pub struct MessageBuffer {
    pub pending: Vec<u8>,
}

impl MessageBuffer {
    /// An empty buffer.
    pub fn new() -> (r: MessageBuffer)
        ensures
            r.pending@ == Seq::<u8>::empty(),
    {
        MessageBuffer { pending: Vec::new() }
    }

    /// Adds bytes that arrived.
    pub fn feed(&mut self, data: &[u8])
        ensures
            final(self).pending@ == old(self).pending@ + data@,
    {
        push_bytes(&mut self.pending, data);
    }

    /// Decides the next step, and drops the bytes of the message it took.
    pub fn next_step(&mut self, closed: bool) -> (r: LoopStep)
        ensures
            r@ == spec_next_step(old(self).pending@, closed).0,
            final(self).pending@ == old(self).pending@.subrange(
                spec_next_step(old(self).pending@, closed).1,
                old(self).pending@.len() as int,
            ),
    {
        let ghost s = self.pending@;
        let (step, used) = match decode(self.pending.as_slice()) {
            Ok((Message::Request(r), n)) => (LoopStep::Serve(r), n),
            Ok((Message::Response(_), n)) => (LoopStep::Reject, n),
            Err(MessageParseError::ConnectionClosed) => if closed {
                (LoopStep::ClosedGracefully, 0)
            } else {
                (LoopStep::ReadMore, 0)
            },
            Err(MessageParseError::BodyRead) => if closed {
                (LoopStep::ClosedWithError(MessageParseError::BodyRead), 0)
            } else {
                (LoopStep::ReadMore, 0)
            },
            Err(e) => (LoopStep::ClosedWithError(e), 0),
        };
        if used > 0 {
            let mut rest: Vec<u8> = Vec::new();
            push_bytes(&mut rest, &self.pending.as_slice()[used..self.pending.len()]);
            self.pending = rest;
        } else {
            assert(s.subrange(0, s.len() as int) == s);
        }
        step
    }
}

} // verus!
