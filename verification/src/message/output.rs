//! Outbound frames: the checkpoint request and the `Status` acknowledgement.

use vstd::prelude::*;
use crate::message::input;

verus! {

#[derive(Debug)]
pub struct CheckpointMessage {
    pub sequence_number: Option<String>,
    pub sub_sequence_number: Option<u64>,
}

impl Clone for CheckpointMessage {
    fn clone(&self) -> (r: Self)
        ensures
            r@ == self@,
    {
        CheckpointMessage {
            sequence_number: match &self.sequence_number {
                Some(s) => Some(s.clone()),
                None => None,
            },
            sub_sequence_number: self.sub_sequence_number,
        }
    }
}

pub struct CheckpointMessageV {
    pub sequence_number: Option<Seq<char>>,
    pub sub_sequence_number: Option<u64>,
}

impl View for CheckpointMessage {
    type V = CheckpointMessageV;

    open spec fn view(&self) -> CheckpointMessageV {
        CheckpointMessageV {
            sequence_number: self.sequence_number.deep_view(),
            sub_sequence_number: self.sub_sequence_number,
        }
    }
}

#[derive(Debug)]
pub struct StatusMessage {
    pub response_for: String,
}

impl Clone for StatusMessage {
    fn clone(&self) -> (r: Self)
        ensures
            r@ == self@,
    {
        StatusMessage { response_for: self.response_for.clone() }
    }
}

pub struct StatusMessageV {
    pub response_for: Seq<char>,
}

impl View for StatusMessage {
    type V = StatusMessageV;

    open spec fn view(&self) -> StatusMessageV {
        StatusMessageV { response_for: self.response_for@ }
    }
}

impl StatusMessage {
    /// The acknowledgement for an inbound notification: `responseFor` is
    /// that notification's identifier.
    pub fn from_message(message: &input::Message) -> (r: Self)
        ensures
            r@.response_for == message@.spec_id(),
    {
        Self { response_for: message.id().to_owned() }
    }
}

#[derive(Debug)]
pub enum Message {
    Checkpoint(CheckpointMessage),
    Status(StatusMessage),
}

impl Clone for Message {
    fn clone(&self) -> (r: Self)
        ensures
            r@ == self@,
    {
        match self {
            Message::Checkpoint(m) => Message::Checkpoint(m.clone()),
            Message::Status(m) => Message::Status(m.clone()),
        }
    }
}

pub enum MessageV {
    Checkpoint(CheckpointMessageV),
    Status(StatusMessageV),
}

impl View for Message {
    type V = MessageV;

    open spec fn view(&self) -> MessageV {
        match self {
            Message::Checkpoint(m) => MessageV::Checkpoint(m@),
            Message::Status(m) => MessageV::Status(m@),
        }
    }
}

} // verus!
