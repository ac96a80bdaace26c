//! Inbound notifications: the tagged union the host sends, one case active
//! at a time, each with its stable string identifier.

use vstd::prelude::*;

verus! {

#[derive(Debug, Clone)]
pub struct CheckpointMessage {
    pub sequence_number: Option<String>,
    pub sub_sequence_number: Option<u64>,
    pub error: Option<String>,
}

pub struct CheckpointMessageV {
    pub sequence_number: Option<Seq<char>>,
    pub sub_sequence_number: Option<u64>,
    pub error: Option<Seq<char>>,
}

impl View for CheckpointMessage {
    type V = CheckpointMessageV;

    open spec fn view(&self) -> CheckpointMessageV {
        CheckpointMessageV {
            sequence_number: self.sequence_number.deep_view(),
            sub_sequence_number: self.sub_sequence_number,
            error: self.error.deep_view(),
        }
    }
}

#[derive(Debug, Clone)]
pub struct InitializeMessage {
    pub shard_id: String,
    pub sequence_number: Option<String>,
    pub sub_sequence_number: Option<u64>,
}

pub struct InitializeMessageV {
    pub shard_id: Seq<char>,
    pub sequence_number: Option<Seq<char>>,
    pub sub_sequence_number: Option<u64>,
}

impl View for InitializeMessage {
    type V = InitializeMessageV;

    open spec fn view(&self) -> InitializeMessageV {
        InitializeMessageV {
            shard_id: self.shard_id@,
            sequence_number: self.sequence_number.deep_view(),
            sub_sequence_number: self.sub_sequence_number,
        }
    }
}

#[derive(Debug, Clone)]
pub struct Record {
    pub base64_data: String,
    pub partition_key: String,
    pub sequence_number: String,
    pub sub_sequence_number: Option<u64>,
    pub approximate_arrival_timestamp_ms: Option<u64>,
}

pub struct RecordV {
    pub base64_data: Seq<char>,
    pub partition_key: Seq<char>,
    pub sequence_number: Seq<char>,
    pub sub_sequence_number: Option<u64>,
    pub approximate_arrival_timestamp_ms: Option<u64>,
}

impl View for Record {
    type V = RecordV;

    open spec fn view(&self) -> RecordV {
        RecordV {
            base64_data: self.base64_data@,
            partition_key: self.partition_key@,
            sequence_number: self.sequence_number@,
            sub_sequence_number: self.sub_sequence_number,
            approximate_arrival_timestamp_ms: self.approximate_arrival_timestamp_ms,
        }
    }
}

/// Names the byte payload that standard-alphabet base64 decoding yields
/// for a string, when the string is valid base64.
pub uninterp spec fn base64_decode_of(s: Seq<char>) -> Option<Seq<u8>>;

#[verifier::external_type_specification]
#[verifier::external_body]
pub struct ExBase64DecodeError(base64::DecodeError);

/// Relies on `base64::Engine::decode` with the standard engine: the result
/// depends on the input characters alone, and is an error exactly when the
/// input is not valid base64.
#[verifier::external_body]
fn base64_decode(s: &str) -> (r: Result<Vec<u8>, base64::DecodeError>)
    ensures
        match r {
            Ok(v) => base64_decode_of(s@) == Some(v@),
            Err(_) => base64_decode_of(s@) is None,
        },
{
    base64::Engine::decode(&base64::engine::general_purpose::STANDARD, s)
}

/// A record payload that is not valid base64.
#[derive(Debug, Clone, Copy, PartialEq, Eq, Structural)]
pub struct RecordDataError {}

impl Record {
    /// The payload bytes, decoded on demand; fails exactly when the payload
    /// is not valid base64, as a caller-visible error. The error carries no
    /// detail of the outside decoder's reason (invalid byte, length or
    /// padding), only that the payload did not decode.
    pub fn to_bytes(&self) -> (r: Result<Vec<u8>, RecordDataError>)
        ensures
            match r {
                Ok(v) => base64_decode_of(self.base64_data@) == Some(v@),
                Err(_) => base64_decode_of(self.base64_data@) is None,
            },
    {
        match base64_decode(self.base64_data.as_str()) {
            Ok(v) => Ok(v),
            Err(_) => Err(RecordDataError {}),
        }
    }
}

#[derive(Debug, Clone)]
pub struct ProcessRecordsMessage {
    pub records: Vec<Record>,
    pub millis_behind_latest: Option<u64>,
}

pub struct ProcessRecordsMessageV {
    pub records: Seq<RecordV>,
    pub millis_behind_latest: Option<u64>,
}

impl View for ProcessRecordsMessage {
    type V = ProcessRecordsMessageV;

    open spec fn view(&self) -> ProcessRecordsMessageV {
        ProcessRecordsMessageV {
            records: Seq::new(self.records@.len(), |i: int| self.records@[i]@),
            millis_behind_latest: self.millis_behind_latest,
        }
    }
}

#[derive(Debug, Clone)]
pub struct ShutdownMessage {
    pub reason: Option<String>,
}

pub struct ShutdownMessageV {
    pub reason: Option<Seq<char>>,
}

impl View for ShutdownMessage {
    type V = ShutdownMessageV;

    open spec fn view(&self) -> ShutdownMessageV {
        ShutdownMessageV { reason: self.reason.deep_view() }
    }
}

#[derive(Debug, Clone, Copy, PartialEq, Eq, Structural)]
pub struct ShutdownRequestedMessage {}

#[derive(Debug, Clone, Copy, PartialEq, Eq, Structural)]
pub struct LeaseLostMessage {}

#[derive(Debug, Clone, Copy, PartialEq, Eq, Structural)]
pub struct ShardEndedMessage {}

#[derive(Debug, Clone)]
pub enum Message {
    Checkpoint(CheckpointMessage),
    Initialize(InitializeMessage),
    ProcessRecords(ProcessRecordsMessage),
    Shutdown(ShutdownMessage),
    ShutdownRequested(ShutdownRequestedMessage),
    LeaseLost(LeaseLostMessage),
    ShardEnded(ShardEndedMessage),
}

pub enum MessageV {
    Checkpoint(CheckpointMessageV),
    Initialize(InitializeMessageV),
    ProcessRecords(ProcessRecordsMessageV),
    Shutdown(ShutdownMessageV),
    ShutdownRequested,
    LeaseLost,
    ShardEnded,
}

impl View for Message {
    type V = MessageV;

    open spec fn view(&self) -> MessageV {
        match self {
            Message::Checkpoint(m) => MessageV::Checkpoint(m@),
            Message::Initialize(m) => MessageV::Initialize(m@),
            Message::ProcessRecords(m) => MessageV::ProcessRecords(m@),
            Message::Shutdown(m) => MessageV::Shutdown(m@),
            Message::ShutdownRequested(_) => MessageV::ShutdownRequested,
            Message::LeaseLost(_) => MessageV::LeaseLost,
            Message::ShardEnded(_) => MessageV::ShardEnded,
        }
    }
}

impl MessageV {
    /// The stable identifier of each inbound variant, used both as the wire
    /// tag and for the acknowledgement's `responseFor` value.
    pub open spec fn spec_id(self) -> Seq<char> {
        match self {
            MessageV::Checkpoint(_) => "checkpoint"@,
            MessageV::Initialize(_) => "initialize"@,
            MessageV::ProcessRecords(_) => "processRecords"@,
            MessageV::Shutdown(_) => "shutdown"@,
            MessageV::ShutdownRequested => "shutdownRequested"@,
            MessageV::LeaseLost => "leaseLost"@,
            MessageV::ShardEnded => "shardEnded"@,
        }
    }
}

impl Message {
    pub fn id(&self) -> (r: &'static str)
        ensures
            r@ == self@.spec_id(),
    {
        match self {
            Message::Checkpoint(_) => "checkpoint",
            Message::Initialize(_) => "initialize",
            Message::ProcessRecords(_) => "processRecords",
            Message::Shutdown(_) => "shutdown",
            Message::ShutdownRequested(_) => "shutdownRequested",
            Message::LeaseLost(_) => "leaseLost",
            Message::ShardEnded(_) => "shardEnded",
        }
    }
}

} // verus!
