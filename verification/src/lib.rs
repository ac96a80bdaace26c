//! Client side of a line-delimited, JSON-framed request/response protocol
//! that lets an out-of-process record processor take part in a sharded
//! stream-processing lifecycle driven by a coordinating host.
//!
//! The dispatch loop reads one notification at a time, routes it to the
//! matching processor operation, and acknowledges it with a `Status` frame
//! only after the operation succeeds; a checkpoint exchange is fully nested
//! inside the handling of one notification.

pub mod checkpoint;
pub mod cli;
pub mod codec;
pub mod json;
pub mod maven;
pub mod message;
pub mod pom;
pub mod processor;
pub mod transport;
pub mod util;

use vstd::prelude::*;
use crate::checkpoint::Checkpointer;
use crate::message::input::{Message as MessageIn, MessageV as MessageInV};
use crate::message::output;
use crate::message::output::MessageV as MessageOutV;
use crate::processor::Processor;
use crate::transport::{checkpoint_frames_only, Transport};

verus! {

#[derive(Debug)]
pub enum RunError<IoError, ProcessorError> {
    /// A message arrived that is never legal as a top-level notification.
    UnexpectedMessage(MessageIn),
    /// The transport failed.
    IoError(IoError),
    /// A processor operation failed; the loop stops and relays it.
    ProcessorError(ProcessorError),
}

/// The acknowledgement frame for a notification.
pub open spec fn status_frame(m: MessageInV) -> MessageOutV {
    MessageOutV::Status(output::StatusMessageV { response_for: m.spec_id() })
}

/// `handled` is the run of completely dispatched notifications: block by
/// block, `handled[i]` is the next consumed inbound message, it is a legal
/// top-level notification, its operation consumed some further inbound
/// responses, and the frames written for it are that operation's checkpoint
/// requests followed by exactly one `Status` naming it.
pub open spec fn dispatch_blocks(
    inb: Seq<MessageInV>,
    sent: Seq<MessageOutV>,
    handled: Seq<MessageInV>,
) -> bool
    decreases handled.len(),
{
    if handled.len() == 0 {
        inb.len() == 0 && sent.len() == 0
    } else {
        exists|k1: int, w1: int|
            #![trigger inb.skip(k1), sent.skip(w1)]
            {
                &&& 1 <= k1 <= inb.len()
                &&& 1 <= w1 <= sent.len()
                &&& k1 <= w1
                &&& inb[0] == handled[0]
                &&& !(handled[0] is Checkpoint)
                &&& checkpoint_frames_only(sent.take(w1 - 1))
                &&& sent[w1 - 1] == status_frame(handled[0])
                &&& dispatch_blocks(inb.skip(k1), sent.skip(w1), handled.drop_first())
            }
    }
}

/// A completed dispatch extends the record by one block.
proof fn lemma_blocks_append(
    inb: Seq<MessageInV>,
    sent: Seq<MessageOutV>,
    handled: Seq<MessageInV>,
    bin: Seq<MessageInV>,
    bsent: Seq<MessageOutV>,
    m: MessageInV,
)
    requires
        dispatch_blocks(inb, sent, handled),
        bin.len() >= 1,
        bin.len() <= bsent.len(),
        bin[0] == m,
        !(m is Checkpoint),
        bsent.len() >= 1,
        checkpoint_frames_only(bsent.take(bsent.len() - 1)),
        bsent.last() == status_frame(m),
    ensures
        dispatch_blocks(inb + bin, sent + bsent, handled.push(m)),
    decreases handled.len(),
{
    let hp = handled.push(m);
    if handled.len() == 0 {
        assert(inb + bin =~= bin);
        assert(sent + bsent =~= bsent);
        assert(hp[0] == m);
        assert(hp.drop_first() =~= Seq::<MessageInV>::empty());
        assert(bin.skip(bin.len() as int) =~= Seq::<MessageInV>::empty());
        assert(bsent.skip(bsent.len() as int) =~= Seq::<MessageOutV>::empty());
        assert(bsent[bsent.len() - 1] == status_frame(m));
        assert(dispatch_blocks(
            Seq::<MessageInV>::empty(),
            Seq::<MessageOutV>::empty(),
            Seq::<MessageInV>::empty(),
        ));
        assert((inb + bin).skip(bin.len() as int) =~= Seq::<MessageInV>::empty());
        assert((sent + bsent).skip(bsent.len() as int) =~= Seq::<MessageOutV>::empty());
        assert((sent + bsent).take(bsent.len() - 1) =~= bsent.take(bsent.len() - 1));
        assert(dispatch_blocks(inb + bin, sent + bsent, hp));
    } else {
        let (k1, w1) = choose|k1: int, w1: int|
            #![trigger inb.skip(k1), sent.skip(w1)]
            {
                &&& 1 <= k1 <= inb.len()
                &&& 1 <= w1 <= sent.len()
                &&& k1 <= w1
                &&& inb[0] == handled[0]
                &&& !(handled[0] is Checkpoint)
                &&& checkpoint_frames_only(sent.take(w1 - 1))
                &&& sent[w1 - 1] == status_frame(handled[0])
                &&& dispatch_blocks(inb.skip(k1), sent.skip(w1), handled.drop_first())
            };
        lemma_blocks_append(inb.skip(k1), sent.skip(w1), handled.drop_first(), bin, bsent, m);
        assert((inb + bin).skip(k1) =~= inb.skip(k1) + bin);
        assert((sent + bsent).skip(w1) =~= sent.skip(w1) + bsent);
        assert((inb + bin)[0] == inb[0]);
        assert((sent + bsent).take(w1 - 1) =~= sent.take(w1 - 1));
        assert((sent + bsent)[w1 - 1] == sent[w1 - 1]);
        assert(hp.drop_first() =~= handled.drop_first().push(m));
        assert(hp[0] == handled[0]);
        assert(dispatch_blocks(inb + bin, sent + bsent, hp));
    }
}


/// The outcome of a run, over the initial inbound queue `inb0`, the frames
/// `ext` written during the run, the final inbound queue and the result:
/// some prefix of `inb0` was consumed; it splits into the completed
/// dispatch blocks of `dispatch_blocks` and at most one unfinished dispatch
/// that wrote checkpoint requests only and no acknowledgement; and the
/// result says how the run ended. A checkpoint response at the top level is
/// returned as the unexpected message, consumed exactly, dispatched to
/// nobody and acknowledged by nothing; after a processor failure no
/// acknowledgement is written for the failed notification.
pub open spec fn run_outcome<E, PE>(
    inb0: Seq<MessageInV>,
    ext: Seq<MessageOutV>,
    fin_in: Seq<MessageInV>,
    res: Result<(), RunError<E, PE>>,
) -> bool {
    exists|handled: Seq<MessageInV>, cb: int, n: int, b: int|
        #![trigger dispatch_blocks(inb0.take(cb), ext.take(b), handled), inb0.skip(n)]
        {
            &&& 0 <= cb <= n <= inb0.len()
            &&& 0 <= b <= ext.len()
            &&& fin_in == inb0.skip(n)
            &&& dispatch_blocks(inb0.take(cb), ext.take(b), handled)
            &&& checkpoint_frames_only(ext.skip(b))
            &&& match res {
                Result::Err(RunError::UnexpectedMessage(msg)) => n == cb + 1 && msg@ == inb0[cb]
                    && msg@ is Checkpoint && b == ext.len(),
                Result::Err(RunError::ProcessorError(_)) => n > cb && !(inb0[cb] is Checkpoint)
                    && n - (cb + 1) <= ext.len() - b,
                Result::Err(RunError::IoError(_)) => n == cb || (n > cb && !(inb0[cb]
                    is Checkpoint) && n - (cb + 1) <= ext.len() - b),
                Result::Ok(_) => false,
            }
        }
}

/// Reads one notification at a time, dispatches it, and acknowledges it
/// with exactly one `Status` naming it, written only after the operation
/// returns success; returns the first failure, along with the transport.
///
/// The contract ties the outcome to the stream: the consumed prefix of the
/// inbound queue and the written frames decompose into the completed
/// dispatch blocks of `dispatch_blocks`, followed by at most one unfinished
/// dispatch that wrote checkpoint requests only and no acknowledgement. An
/// inbound checkpoint response at the top level is never dispatched: the
/// run returns it as the unexpected message, having consumed exactly it and
/// written nothing for it.
pub fn run<T: Transport, P: Processor<T>>(transport: T, processor: &mut P) -> (r: (
    Result<(), RunError<T::Error, P::Error>>,
    T,
))
    ensures
        r.0 is Err,
        transport.sent().is_prefix_of(r.1.sent()),
        run_outcome(
            transport.inbound(),
            r.1.sent().skip(transport.sent().len() as int),
            r.1.inbound(),
            r.0,
        ),
{
    let ghost inb0 = transport.inbound();
    let ghost sent0_len = transport.sent().len() as int;
    let mut cp = Checkpointer::new(transport);
    let ghost mut handled: Seq<MessageInV> = Seq::empty();
    let ghost mut consumed: int = 0;
    proof {
        assert(cp.inbound() =~= inb0.skip(0));
        assert(cp.sent().skip(sent0_len) =~= Seq::<MessageOutV>::empty());
        assert(inb0.take(0) =~= Seq::<MessageInV>::empty());
        assert(transport.sent().is_prefix_of(cp.sent())) by {
            assert(cp.sent().take(sent0_len) =~= transport.sent());
        }
    }
    loop
        invariant
            0 <= consumed <= inb0.len(),
            cp.inbound() == inb0.skip(consumed),
            transport.sent().is_prefix_of(cp.sent()),
            sent0_len == transport.sent().len(),
            inb0 == transport.inbound(),
            dispatch_blocks(inb0.take(consumed), cp.sent().skip(sent0_len), handled),
        decreases cp.inbound().len(),
    {
        let msg = match cp.transport.read_message() {
            Ok(m) => m,
            Err(e) => {
                proof {
                    let ext = cp.sent().skip(sent0_len);
                    assert(ext.take(ext.len() as int) =~= ext);
                    assert(ext.skip(ext.len() as int) =~= Seq::<MessageOutV>::empty());
                    assert(dispatch_blocks(inb0.take(consumed), ext.take(ext.len() as int),
                        handled));
                    assert(checkpoint_frames_only(ext.skip(ext.len() as int)));
                    assert(cp.inbound() == inb0.skip(consumed));
                }
                return (Err(RunError::IoError(e)), cp.transport);
            },
        };
        proof {
            assert(inb0.skip(consumed)[0] == inb0[consumed]);
            assert(inb0.skip(consumed).drop_first() =~= inb0.skip(consumed + 1));
        }
        let ghost cb = consumed;
        proof {
            consumed = consumed + 1;
        }
        let msg_id = msg.id();
        let ghost msgv = msg@;
        let ghost cp_before = cp;
        let res = match msg {
            MessageIn::Checkpoint(c) => {
                proof {
                    let ext = cp.sent().skip(sent0_len);
                    assert(ext.take(ext.len() as int) =~= ext);
                    assert(ext.skip(ext.len() as int) =~= Seq::<MessageOutV>::empty());
                    assert(dispatch_blocks(inb0.take(cb), ext.take(ext.len() as int), handled));
                    assert(checkpoint_frames_only(ext.skip(ext.len() as int)));
                    assert(cp.inbound() == inb0.skip(consumed));
                    assert(msg@ == inb0[cb] && msg@ is Checkpoint);
                }
                return (
                    (Err(RunError::UnexpectedMessage(MessageIn::Checkpoint(c)))),
                    cp.transport,
                );
            },
            MessageIn::Initialize(m) => processor.initialize(m),
            MessageIn::ProcessRecords(m) => processor.process_records(m, &mut cp),
            MessageIn::Shutdown(m) => processor.shutdown(m, &mut cp),
            MessageIn::ShutdownRequested(m) => processor.shutdown_requested(m, &mut cp),
            MessageIn::LeaseLost(m) => processor.lease_lost(m),
            MessageIn::ShardEnded(m) => processor.shard_ended(m),
        };
        proof {
            assert(!(msgv is Checkpoint));
            if cp.sent() == cp_before.sent() && cp.inbound() == cp_before.inbound() {
                assert(cp.inbound() == cp_before.inbound().skip(0));
                assert(cp_before.sent().is_prefix_of(cp.sent())) by {
                    assert(cp.sent().take(cp_before.sent().len() as int) =~= cp_before.sent());
                }
                assert(cp.sent().skip(cp_before.sent().len() as int)
                    =~= Seq::<MessageOutV>::empty());
            }
            let k2 = choose|k: int|
                0 <= k <= cp_before.inbound().len() && cp.inbound() == cp_before.inbound().skip(k);
            assert(cp.inbound() =~= inb0.skip(consumed + k2));
            consumed = consumed + k2;
            assert(transport.sent().is_prefix_of(cp.sent())) by {
                assert(forall|i: int|
                    0 <= i < sent0_len ==> #[trigger] cp.sent()[i] == cp_before.sent()[i]);
                assert(cp.sent().take(sent0_len) =~= transport.sent());
            }
            // the frames this dispatch wrote so far are checkpoint requests
            assert(cp.sent().skip(sent0_len).take(cp_before.sent().len() - sent0_len)
                =~= cp_before.sent().skip(sent0_len));
            assert(cp.sent().skip(sent0_len).skip(cp_before.sent().len() - sent0_len)
                =~= cp.sent().skip(cp_before.sent().len() as int));
        }
        match res {
            Err(e) => {
                proof {
                    let ext = cp.sent().skip(sent0_len);
                    let b = cp_before.sent().len() - sent0_len;
                    assert(dispatch_blocks(inb0.take(cb), ext.take(b), handled));
                    assert(checkpoint_frames_only(ext.skip(b)));
                    assert(cp.inbound() == inb0.skip(consumed));
                    assert(inb0[cb] == msgv && !(inb0[cb] is Checkpoint));
                    assert(transport.inbound() == inb0);
                    assert(cp.transport.sent() == cp.sent());
                    assert(transport.inbound().skip(consumed) == cp.inbound());
                    assert(dispatch_blocks(
                        transport.inbound().take(cb),
                        cp.transport.sent().skip(transport.sent().len() as int).take(b),
                        handled,
                    ));
                    assert(checkpoint_frames_only(
                        cp.transport.sent().skip(transport.sent().len() as int).skip(b),
                    ));
                }
                return (Err(RunError::ProcessorError(e)), cp.transport);
            },
            Ok(_) => {},
        }
        let status = output::Message::Status(
            output::StatusMessage { response_for: msg_id.to_owned() },
        );
        proof {
            assert(status@ == status_frame(msgv));
        }
        let ghost cp_mid = cp;
        match cp.transport.write_message(&status) {
            Err(e) => {
                proof {
                    let ext = cp.sent().skip(sent0_len);
                    let b = cp_before.sent().len() - sent0_len;
                    assert(dispatch_blocks(inb0.take(cb), ext.take(b), handled));
                    assert(checkpoint_frames_only(ext.skip(b)));
                    assert(cp.inbound() == inb0.skip(consumed));
                    assert(inb0[cb] == msgv && !(inb0[cb] is Checkpoint));
                    assert(transport.inbound() == inb0);
                    assert(cp.transport.sent() == cp.sent());
                    assert(transport.inbound().skip(consumed) == cp.inbound());
                    assert(dispatch_blocks(
                        transport.inbound().take(cb),
                        cp.transport.sent().skip(transport.sent().len() as int).take(b),
                        handled,
                    ));
                    assert(checkpoint_frames_only(
                        cp.transport.sent().skip(transport.sent().len() as int).skip(b),
                    ));
                }
                return (Err(RunError::IoError(e)), cp.transport);
            },
            Ok(_) => {},
        }
        proof {
            let bin = inb0.subrange(cb, consumed);
            let bsent = cp.sent().skip(cp_before.sent().len() as int);
            assert(bin[0] == inb0[cb]);
            assert(bsent =~= cp_mid.sent().skip(cp_before.sent().len() as int).push(status@));
            assert(bsent.take(bsent.len() - 1) =~= cp_mid.sent().skip(
                cp_before.sent().len() as int,
            ));
            assert(bsent.last() == status_frame(msgv));
            lemma_blocks_append(
                inb0.take(cb),
                cp_before.sent().skip(sent0_len),
                handled,
                bin,
                bsent,
                msgv,
            );
            assert(inb0.take(cb) + bin =~= inb0.take(consumed));
            assert(cp_before.sent().skip(sent0_len) + bsent =~= cp.sent().skip(sent0_len));
            handled = handled.push(msgv);
        }
    }
}

} // verus!
