//! The processor contract: the capability set user code implements, one
//! operation per inbound notification kind. Operations handled while the
//! lease is live receive the checkpointer; an operation may only use it to
//! checkpoint, so the transport log grows by checkpoint requests alone and
//! the inbound queue only shrinks.

use vstd::prelude::*;
use crate::checkpoint::Checkpointer;
use crate::message::input::{
    InitializeMessage, LeaseLostMessage, ProcessRecordsMessage, ShardEndedMessage,
    ShutdownMessage, ShutdownRequestedMessage,
};
use crate::transport::{checkpoint_extension, inbound_suffix, Transport};

verus! {

pub trait Processor<T: Transport>: Sized {
    type Error;

    fn initialize(&mut self, msg: InitializeMessage) -> Result<(), Self::Error>;

    fn process_records(
        &mut self,
        msg: ProcessRecordsMessage,
        checkpointer: &mut Checkpointer<T>,
    ) -> (r: Result<(), Self::Error>)
        ensures
            checkpoint_extension(old(checkpointer).sent(), final(checkpointer).sent()),
            inbound_suffix(old(checkpointer).inbound(), final(checkpointer).inbound()),
            old(checkpointer).inbound().len() - final(checkpointer).inbound().len()
                <= final(checkpointer).sent().len() - old(checkpointer).sent().len(),
    ;

    fn shutdown(&mut self, msg: ShutdownMessage, checkpointer: &mut Checkpointer<T>) -> (r: Result<
        (),
        Self::Error,
    >)
        ensures
            checkpoint_extension(old(checkpointer).sent(), final(checkpointer).sent()),
            inbound_suffix(old(checkpointer).inbound(), final(checkpointer).inbound()),
            old(checkpointer).inbound().len() - final(checkpointer).inbound().len()
                <= final(checkpointer).sent().len() - old(checkpointer).sent().len(),
    ;

    fn shutdown_requested(
        &mut self,
        msg: ShutdownRequestedMessage,
        checkpointer: &mut Checkpointer<T>,
    ) -> (r: Result<(), Self::Error>)
        ensures
            checkpoint_extension(old(checkpointer).sent(), final(checkpointer).sent()),
            inbound_suffix(old(checkpointer).inbound(), final(checkpointer).inbound()),
            old(checkpointer).inbound().len() - final(checkpointer).inbound().len()
                <= final(checkpointer).sent().len() - old(checkpointer).sent().len(),
    ;

    fn lease_lost(&mut self, msg: LeaseLostMessage) -> Result<(), Self::Error>;

    fn shard_ended(&mut self, msg: ShardEndedMessage) -> Result<(), Self::Error>;
}

} // verus!
