//! The framed duplex transport: one inbound message per frame in, one
//! outbound message per frame out. The ghost model of a transport is the
//! queue of inbound messages still to be read and the log of outbound
//! messages written so far; every implementation is held to it.

use vstd::prelude::*;
use crate::message::input::{Message as MessageIn, MessageV as MessageInV};
use crate::message::output::{Message as MessageOut, MessageV as MessageOutV};
use crate::codec::{decode_in, spec_decode_in, FrameError};

verus! {

/// A duplex, framed, blocking byte-stream endpoint.
///
/// `inbound()` is the sequence of messages the transport will deliver, in
/// order; `sent()` is the log of messages written so far. Reading consumes
/// the head of `inbound()`; a successful write appends to `sent()`; a failed
/// operation changes nothing.
///
/// The ghost model makes this trait implementable only inside verified
/// code: the verified dispatch loop is driven through implementations such
/// as `MemTransport`, while an endpoint over real byte streams lives
/// outside the verified library and offers the same three operations as
/// plain methods.
pub trait Transport: Sized {
    type Error;

    spec fn inbound(&self) -> Seq<MessageInV>;

    spec fn sent(&self) -> Seq<MessageOutV>;

    fn read_message(&mut self) -> (r: Result<MessageIn, Self::Error>)
        ensures
            final(self).sent() == old(self).sent(),
            r matches Ok(m) ==> old(self).inbound().len() > 0 && m@ == old(self).inbound()[0]
                && final(self).inbound() == old(self).inbound().drop_first(),
            r is Err ==> final(self).inbound() == old(self).inbound(),
    ;

    fn write_message(&mut self, message: &MessageOut) -> (r: Result<(), Self::Error>)
        ensures
            final(self).inbound() == old(self).inbound(),
            r is Ok ==> final(self).sent() == old(self).sent().push(message@),
            r is Err ==> final(self).sent() == old(self).sent(),
    ;

    fn write_error(&mut self, error: &str) -> (r: Result<(), Self::Error>)
        ensures
            final(self).inbound() == old(self).inbound(),
            final(self).sent() == old(self).sent(),
    ;
}

/// Every frame of `ext` is a checkpoint request.
pub open spec fn checkpoint_frames_only(ext: Seq<MessageOutV>) -> bool {
    forall|i: int| 0 <= i < ext.len() ==> #[trigger] ext[i] is Checkpoint
}

/// `post` extends `pre` with checkpoint requests only.
pub open spec fn checkpoint_extension(pre: Seq<MessageOutV>, post: Seq<MessageOutV>) -> bool {
    pre.is_prefix_of(post) && checkpoint_frames_only(post.skip(pre.len() as int))
}

/// `post` is what remains of `pre` after some messages were consumed.
pub open spec fn inbound_suffix(pre: Seq<MessageInV>, post: Seq<MessageInV>) -> bool {
    exists|k: int| 0 <= k <= pre.len() && post == pre.skip(k)
}

// ---------------------------------------------------------------------------
// An in-memory transport: raw frame lines in, messages out
// ---------------------------------------------------------------------------

#[derive(Debug)]
pub enum MemTransportError {
    /// No further line is available.
    Closed,
    /// The next line did not decode as an inbound message.
    Frame(FrameError),
}

/// The messages at the head of `lines` that decode, in order: the transport
/// delivers these and then fails.
pub open spec fn decoded_queue(lines: Seq<Seq<char>>) -> Seq<MessageInV>
    decreases lines.len(),
{
    if lines.len() == 0 {
        Seq::empty()
    } else {
        match spec_decode_in(lines[0]) {
            Some(m) => seq![m] + decoded_queue(lines.drop_first()),
            None => Seq::empty(),
        }
    }
}

/// A transport over in-memory queues: reads decode the given frame lines
/// one by one, writes append to `outbox`.
#[derive(Debug)]
pub struct MemTransport {
    pub lines: Vec<String>,
    pub pos: usize,
    pub outbox: Vec<MessageOut>,
}

impl MemTransport {
    pub open spec fn wf(&self) -> bool {
        self.pos <= self.lines.len()
    }

    pub fn new(lines: Vec<String>) -> (r: Self)
        ensures
            r.inbound() == decoded_queue(lines.deep_view()),
            r.sent() == Seq::<MessageOutV>::empty(),
            r.wf(),
    {
        let r = MemTransport { lines, pos: 0, outbox: Vec::new() };
        proof {
            assert(r.lines.deep_view().skip(0) =~= r.lines.deep_view());
            assert(r.sent() =~= Seq::<MessageOutV>::empty());
        }
        r
    }
}

impl Transport for MemTransport {
    type Error = MemTransportError;

    open spec fn inbound(&self) -> Seq<MessageInV> {
        decoded_queue(self.lines.deep_view().skip(self.pos as int))
    }

    open spec fn sent(&self) -> Seq<MessageOutV> {
        Seq::new(self.outbox@.len(), |i: int| self.outbox@[i]@)
    }

    fn read_message(&mut self) -> (r: Result<MessageIn, MemTransportError>) {
        if self.pos >= self.lines.len() {
            proof {
                if self.pos == self.lines.len() {
                    assert(self.lines.deep_view().skip(self.pos as int)
                        =~= Seq::<Seq<char>>::empty());
                }
            }
            return Err(MemTransportError::Closed);
        }
        let ghost q = self.lines.deep_view().skip(self.pos as int);
        proof {
            assert(q[0] == self.lines.deep_view()[self.pos as int]);
            assert(q.drop_first() =~= self.lines.deep_view().skip(self.pos as int + 1));
        }
        let line_msg = decode_in(self.lines[self.pos].as_str());
        match line_msg {
            Ok(m) => {
                self.pos = self.pos + 1;
                Ok(m)
            },
            Err(e) => Err(MemTransportError::Frame(e)),
        }
    }

    fn write_message(&mut self, message: &MessageOut) -> (r: Result<(), MemTransportError>) {
        let ghost pre = self.sent();
        self.outbox.push(message.clone());
        proof {
            assert(self.sent() =~= pre.push(message@));
        }
        Ok(())
    }

    fn write_error(&mut self, _error: &str) -> (r: Result<(), MemTransportError>) {
        Ok(())
    }
}

} // verus!
