//! The nested checkpoint sub-exchange: send one checkpoint request, block
//! for exactly the matching response, and report the outcome.

use vstd::prelude::*;
use crate::message::input::{Message as MessageIn, MessageV as MessageInV};
use crate::message::output;
use crate::message::output::MessageV as MessageOutV;
use crate::transport::Transport;

verus! {

#[derive(Debug)]
pub enum CheckpointError<TransportError> {
    /// A read or write on the transport failed.
    TransportError(TransportError),
    /// The host rejected the checkpoint, with its reason.
    Failed { reason: String },
    /// Something other than a checkpoint response arrived; the unexpected
    /// message is carried, not dropped.
    InvalidState { message: MessageIn },
}

/// The outbound request that a checkpoint call with these coordinates sends.
pub open spec fn checkpoint_request(
    sequence_number: Option<Seq<char>>,
    sub_sequence_number: Option<u64>,
) -> MessageOutV {
    MessageOutV::Checkpoint(
        output::CheckpointMessageV { sequence_number, sub_sequence_number },
    )
}

/// A scoped handle that holds the transport exclusively while a notification
/// is being handled, and performs the nested checkpoint exchange on it.
pub struct Checkpointer<T: Transport> {
    pub transport: T,
}

impl<T: Transport> Checkpointer<T> {
    pub open spec fn inbound(&self) -> Seq<MessageInV> {
        self.transport.inbound()
    }

    pub open spec fn sent(&self) -> Seq<MessageOutV> {
        self.transport.sent()
    }

    pub fn new(transport: T) -> (r: Self)
        ensures
            r.transport == transport,
    {
        Self { transport }
    }

    /// Sends a checkpoint request and blocks for exactly one inbound
    /// message. Succeeds on a clean checkpoint response; fails with the
    /// host's reason if the response carries one; fails with the unexpected
    /// message if anything else arrives; propagates transport failures.
    pub fn checkpoint(
        &mut self,
        sequence_number: Option<String>,
        sub_sequence_number: Option<u64>,
    ) -> (r: Result<(), CheckpointError<T::Error>>)
        ensures
            ({
                let req = checkpoint_request(sequence_number.deep_view(), sub_sequence_number);
                match r {
                    Ok(_) => final(self).sent() == old(self).sent().push(req) && old(
                        self,
                    ).inbound().len() > 0 && final(self).inbound() == old(
                        self,
                    ).inbound().drop_first() && (match old(self).inbound()[0] {
                        MessageInV::Checkpoint(c) => c.error is None,
                        _ => false,
                    }),
                    Err(CheckpointError::Failed { reason }) => final(self).sent() == old(
                        self,
                    ).sent().push(req) && old(self).inbound().len() > 0 && final(self).inbound()
                        == old(self).inbound().drop_first() && (match old(self).inbound()[0] {
                        MessageInV::Checkpoint(c) => c.error == Some(reason@),
                        _ => false,
                    }),
                    Err(CheckpointError::InvalidState { message }) => final(self).sent() == old(
                        self,
                    ).sent().push(req) && old(self).inbound().len() > 0 && final(self).inbound()
                        == old(self).inbound().drop_first() && message@ == old(self).inbound()[0]
                        && !(message@ is Checkpoint),
                    Err(CheckpointError::TransportError(_)) => final(self).inbound() == old(
                        self,
                    ).inbound() && (final(self).sent() == old(self).sent() || final(self).sent()
                        == old(self).sent().push(req)),
                }
            }),
    {
        let request = output::Message::Checkpoint(
            output::CheckpointMessage { sequence_number, sub_sequence_number },
        );
        match self.transport.write_message(&request) {
            Err(e) => {
                return Err(CheckpointError::TransportError(e));
            },
            Ok(_) => {},
        }
        match self.transport.read_message() {
            Err(e) => Err(CheckpointError::TransportError(e)),
            Ok(response) => match response {
                MessageIn::Checkpoint(cm) => match cm.error {
                    Some(reason) => Err(CheckpointError::Failed { reason }),
                    None => Ok(()),
                },
                other => Err(CheckpointError::InvalidState { message: other }),
            },
        }
    }
}

} // verus!
