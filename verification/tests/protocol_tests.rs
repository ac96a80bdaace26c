use kcl_multilang::checkpoint::{CheckpointError, Checkpointer};
use kcl_multilang::codec::encode_out;
use kcl_multilang::message::input::{
    InitializeMessage, LeaseLostMessage, ProcessRecordsMessage, ShardEndedMessage,
    ShutdownMessage, ShutdownRequestedMessage,
};
use kcl_multilang::message::output;
use kcl_multilang::processor::Processor;
use kcl_multilang::run;
use kcl_multilang::transport::{MemTransport, MemTransportError};
use kcl_multilang::RunError;

fn lines(frames: &[&str]) -> Vec<String> {
    frames.iter().map(|s| s.to_string()).collect()
}

/// A processor that records which operations ran and optionally checkpoints
/// during `processRecords`.
struct Recording {
    ops: Vec<String>,
    checkpoint_at: Option<(Option<String>, Option<u64>)>,
    checkpoint_result: Option<Result<(), String>>,
    fail_on: Option<String>,
}

impl Recording {
    fn new() -> Self {
        Recording { ops: Vec::new(), checkpoint_at: None, checkpoint_result: None, fail_on: None }
    }
}

impl Processor<MemTransport> for Recording {
    type Error = String;

    fn initialize(&mut self, _msg: InitializeMessage) -> Result<(), String> {
        self.ops.push("initialize".to_string());
        if self.fail_on.as_deref() == Some("initialize") {
            return Err("initialize failed".to_string());
        }
        Ok(())
    }

    fn process_records(
        &mut self,
        msg: ProcessRecordsMessage,
        checkpointer: &mut Checkpointer<MemTransport>,
    ) -> Result<(), String> {
        self.ops.push(format!("processRecords:{}", msg.records.len()));
        if let Some((seq, sub)) = self.checkpoint_at.take() {
            let r = checkpointer.checkpoint(seq, sub);
            self.checkpoint_result = Some(r.map_err(|e| match e {
                CheckpointError::TransportError(_) => "transport".to_string(),
                CheckpointError::Failed { reason } => format!("rejected:{reason}"),
                CheckpointError::InvalidState { message } => {
                    format!("invalid:{}", message.id())
                }
            }));
            if let Some(Err(e)) = &self.checkpoint_result {
                return Err(e.clone());
            }
        }
        if self.fail_on.as_deref() == Some("processRecords") {
            return Err("processRecords failed".to_string());
        }
        Ok(())
    }

    fn shutdown(
        &mut self,
        _msg: ShutdownMessage,
        _checkpointer: &mut Checkpointer<MemTransport>,
    ) -> Result<(), String> {
        self.ops.push("shutdown".to_string());
        Ok(())
    }

    fn shutdown_requested(
        &mut self,
        _msg: ShutdownRequestedMessage,
        _checkpointer: &mut Checkpointer<MemTransport>,
    ) -> Result<(), String> {
        self.ops.push("shutdownRequested".to_string());
        Ok(())
    }

    fn lease_lost(&mut self, _msg: LeaseLostMessage) -> Result<(), String> {
        self.ops.push("leaseLost".to_string());
        Ok(())
    }

    fn shard_ended(&mut self, _msg: ShardEndedMessage) -> Result<(), String> {
        self.ops.push("shardEnded".to_string());
        Ok(())
    }
}

fn status_for(m: &output::Message) -> Option<&str> {
    match m {
        output::Message::Status(st) => Some(st.response_for.as_str()),
        _ => None,
    }
}

#[test]
fn three_notifications_three_acks_in_order() {
    let t = MemTransport::new(lines(&[
        "{\"action\":\"initialize\",\"shardId\":\"s-1\"}",
        "{\"action\":\"processRecords\",\"records\":[{\"data\":\"YQ==\",\"partitionKey\":\"a\",\"sequenceNumber\":\"1\"},{\"data\":\"Yg==\",\"partitionKey\":\"b\",\"sequenceNumber\":\"2\"},{\"data\":\"Yw==\",\"partitionKey\":\"c\",\"sequenceNumber\":\"3\"}]}",
        "{\"action\":\"shutdown\",\"reason\":\"TERMINATE\"}",
    ]));
    let mut p = Recording::new();
    let (res, t) = run(t, &mut p);
    // the stream ends after the third notification, which surfaces as an
    // I/O failure after all three were acknowledged
    assert!(matches!(res, Err(RunError::IoError(MemTransportError::Closed))));
    assert_eq!(p.ops, vec!["initialize", "processRecords:3", "shutdown"]);
    assert_eq!(t.outbox.len(), 3);
    assert_eq!(status_for(&t.outbox[0]), Some("initialize"));
    assert_eq!(status_for(&t.outbox[1]), Some("processRecords"));
    assert_eq!(status_for(&t.outbox[2]), Some("shutdown"));
}

#[test]
fn checkpoint_request_precedes_acknowledgement() {
    let t = MemTransport::new(lines(&[
        "{\"action\":\"processRecords\",\"records\":[{\"data\":\"YQ==\",\"partitionKey\":\"a\",\"sequenceNumber\":\"1\"}]}",
        "{\"action\":\"checkpoint\",\"sequenceNumber\":null}",
    ]));
    let mut p = Recording::new();
    p.checkpoint_at = Some((Some("49600000000".to_string()), None));
    let (res, t) = run(t, &mut p);
    assert!(matches!(res, Err(RunError::IoError(MemTransportError::Closed))));
    assert_eq!(p.checkpoint_result, Some(Ok(())));
    assert_eq!(t.outbox.len(), 2);
    // the checkpoint request frame, with no subSequenceNumber key, comes
    // before the acknowledgement of processRecords
    assert_eq!(
        encode_out(&t.outbox[0]),
        "{\"action\":\"checkpoint\",\"sequenceNumber\":\"49600000000\"}"
    );
    assert_eq!(status_for(&t.outbox[1]), Some("processRecords"));
}

#[test]
fn rejected_checkpoint_carries_reason_and_suppresses_ack() {
    let t = MemTransport::new(lines(&[
        "{\"action\":\"processRecords\",\"records\":[]}",
        "{\"action\":\"checkpoint\",\"sequenceNumber\":null,\"error\":\"ShardEnded\"}",
    ]));
    let mut p = Recording::new();
    p.checkpoint_at = Some((None, None));
    let (res, t) = run(t, &mut p);
    match res {
        Err(RunError::ProcessorError(e)) => assert_eq!(e, "rejected:ShardEnded"),
        _ => panic!("expected the user failure to surface"),
    }
    // the only outbound frame is the checkpoint request: no Status was
    // written for the failed notification
    assert_eq!(t.outbox.len(), 1);
    assert_eq!(encode_out(&t.outbox[0]), "{\"action\":\"checkpoint\"}");
}

#[test]
fn non_checkpoint_reply_is_invalid_state() {
    let t = MemTransport::new(lines(&[
        "{\"action\":\"processRecords\",\"records\":[]}",
        "{\"action\":\"shutdownRequested\"}",
    ]));
    let mut p = Recording::new();
    p.checkpoint_at = Some((None, None));
    let (res, _t) = run(t, &mut p);
    match res {
        Err(RunError::ProcessorError(e)) => assert_eq!(e, "invalid:shutdownRequested"),
        _ => panic!("expected the user failure to surface"),
    }
}

#[test]
fn unparseable_line_is_fatal_and_unacknowledged() {
    let t = MemTransport::new(lines(&["this is not a frame"]));
    let mut p = Recording::new();
    let (res, t) = run(t, &mut p);
    assert!(matches!(res, Err(RunError::IoError(MemTransportError::Frame(_)))));
    assert_eq!(p.ops.len(), 0);
    assert_eq!(t.outbox.len(), 0);
}

#[test]
fn top_level_checkpoint_response_is_unexpected() {
    let t = MemTransport::new(lines(&[
        "{\"action\":\"checkpoint\",\"sequenceNumber\":null}",
        "{\"action\":\"leaseLost\"}",
    ]));
    let mut p = Recording::new();
    let (res, t) = run(t, &mut p);
    match res {
        Err(RunError::UnexpectedMessage(m)) => assert_eq!(m.id(), "checkpoint"),
        _ => panic!("expected the run to stop on the unexpected message"),
    }
    assert_eq!(t.outbox.len(), 0);
}

#[test]
fn processor_failure_stops_the_loop() {
    let t = MemTransport::new(lines(&[
        "{\"action\":\"initialize\",\"shardId\":\"s\"}",
        "{\"action\":\"leaseLost\"}",
    ]));
    let mut p = Recording::new();
    p.fail_on = Some("initialize".to_string());
    let (res, t) = run(t, &mut p);
    match res {
        Err(RunError::ProcessorError(e)) => assert_eq!(e, "initialize failed"),
        _ => panic!("expected the user failure to surface"),
    }
    assert_eq!(p.ops, vec!["initialize"]);
    assert_eq!(t.outbox.len(), 0);
}
