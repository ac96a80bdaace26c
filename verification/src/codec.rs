//! Encoding and decoding of protocol messages as one-line JSON frames.
//!
//! Encoding writes the canonical object for each variant, with the `action`
//! discriminator first and optional-and-absent fields omitted. Decoding
//! accepts any field order and ignores unknown fields, and fails on a
//! missing or mistyped required field or an unknown discriminator.

use vstd::prelude::*;
use crate::json::{Json, JsonV, spec_ser, spec_ser_pairs, escape, lemma_escape_plain, spec_u64_str, spec_parse_u64, spec_parse_json, spec_digits_val, all_digits, is_digit, is_num_char, digit_val, digit_char, wf_json, wf_pairs, wf_elems, lemma_parse_ser_json, is_json_number, lemma_digits_run_all, json_view, json_view_elems, json_view_pairs, lemma_view_elems, lemma_view_pairs, parse_json, json_to_string, fmt_u64};
use crate::message::input;
use crate::message::output;
use crate::util::str_eq;

verus! {

/// A frame that could not be decoded as an inbound message.
#[derive(Debug, Clone, Copy, PartialEq, Eq, Structural)]
pub struct FrameError {}

// ---------------------------------------------------------------------------
// Field lookup in a decoded object
// ---------------------------------------------------------------------------

/// The value of the first member with this key.
pub open spec fn lookup(ps: Seq<(Seq<char>, JsonV)>, k: Seq<char>) -> Option<JsonV>
    decreases ps.len(),
{
    if ps.len() == 0 {
        None
    } else if ps[0].0 == k {
        Some(ps[0].1)
    } else {
        lookup(ps.drop_first(), k)
    }
}

/// A required string member.
pub open spec fn req_str(ps: Seq<(Seq<char>, JsonV)>, k: Seq<char>) -> Option<Seq<char>> {
    match lookup(ps, k) {
        Some(JsonV::Str(s)) => Some(s),
        _ => None,
    }
}

/// An optional string member: absent or null both mean "not given".
pub open spec fn opt_str(ps: Seq<(Seq<char>, JsonV)>, k: Seq<char>) -> Option<Option<Seq<char>>> {
    match lookup(ps, k) {
        None => Some(None),
        Some(JsonV::Null) => Some(None),
        Some(JsonV::Str(s)) => Some(Some(s)),
        Some(_) => None,
    }
}

/// An optional unsigned member: absent or null mean "not given".
pub open spec fn opt_u64(ps: Seq<(Seq<char>, JsonV)>, k: Seq<char>) -> Option<Option<u64>> {
    match lookup(ps, k) {
        None => Some(None),
        Some(JsonV::Null) => Some(None),
        Some(JsonV::Num(t)) => match spec_parse_u64(t) {
            Some(n) => Some(Some(n)),
            None => None,
        },
        Some(_) => None,
    }
}

// ---------------------------------------------------------------------------
// The canonical JSON object of each message
// ---------------------------------------------------------------------------

pub open spec fn opt_str_pair(k: Seq<char>, o: Option<Seq<char>>) -> Seq<(Seq<char>, JsonV)> {
    match o {
        Some(s) => seq![(k, JsonV::Str(s))],
        None => Seq::empty(),
    }
}

pub open spec fn opt_u64_pair(k: Seq<char>, o: Option<u64>) -> Seq<(Seq<char>, JsonV)> {
    match o {
        Some(n) => seq![(k, JsonV::Num(spec_u64_str(n as int)))],
        None => Seq::empty(),
    }
}

pub open spec fn json_of_out(m: output::MessageV) -> JsonV {
    match m {
        output::MessageV::Checkpoint(c) => JsonV::Obj(
            seq![("action"@, JsonV::Str("checkpoint"@))]
                + opt_str_pair("sequenceNumber"@, c.sequence_number)
                + opt_u64_pair("subSequenceNumber"@, c.sub_sequence_number),
        ),
        output::MessageV::Status(st) => JsonV::Obj(
            seq![
                ("action"@, JsonV::Str("status"@)),
                ("responseFor"@, JsonV::Str(st.response_for)),
            ],
        ),
    }
}

/// The canonical one-line frame of an outbound message.
pub open spec fn spec_encode_out(m: output::MessageV) -> Seq<char> {
    spec_ser(json_of_out(m))
}


/// The exact wire form of a checkpoint request that carries a sequence
/// number and no sub-sequence number, for every sequence number: the frame
/// names the action, holds the escaped sequence number, and has no
/// `subSequenceNumber` member.
pub proof fn lemma_checkpoint_request_frame(sn: Seq<char>)
    ensures
        spec_encode_out(
            output::MessageV::Checkpoint(
                output::CheckpointMessageV {
                    sequence_number: Some(sn),
                    sub_sequence_number: None,
                },
            ),
        ) == seq!['{', '"'] + "action"@ + seq!['"', ':', '"'] + "checkpoint"@ + seq!['"', ',', '"']
            + "sequenceNumber"@ + seq!['"', ':', '"'] + escape(sn) + seq!['"', '}'],
{
    reveal_strlit("action");
    reveal_strlit("checkpoint");
    reveal_strlit("sequenceNumber");
    lemma_escape_plain("action"@);
    lemma_escape_plain("checkpoint"@);
    lemma_escape_plain("sequenceNumber"@);
    let m = output::MessageV::Checkpoint(
        output::CheckpointMessageV { sequence_number: Some(sn), sub_sequence_number: None },
    );
    let ps = seq![("action"@, JsonV::Str("checkpoint"@))] + opt_str_pair("sequenceNumber"@, Some(sn))
        + opt_u64_pair("subSequenceNumber"@, None);
    assert(json_of_out(m) == JsonV::Obj(ps));
    assert(ps =~= seq![
        ("action"@, JsonV::Str("checkpoint"@)),
        ("sequenceNumber"@, JsonV::Str(sn)),
    ]);
    assert(spec_ser_pairs(ps, 1) == seq!['"'] + escape(ps[1].0) + seq!['"', ':'] + spec_ser(
        ps[1].1,
    ));
    assert(spec_ser_pairs(ps, 0) == (seq!['"'] + escape(ps[0].0) + seq!['"', ':'] + spec_ser(
        ps[0].1,
    )) + seq![','] + spec_ser_pairs(ps, 1));
    assert(spec_ser(JsonV::Str("checkpoint"@)) == seq!['"'] + escape("checkpoint"@) + seq!['"']);
    assert(spec_ser(JsonV::Str(sn)) == seq!['"'] + escape(sn) + seq!['"']);
    assert(spec_encode_out(m) =~= seq!['{', '"'] + "action"@ + seq!['"', ':', '"'] + "checkpoint"@
        + seq!['"', ',', '"'] + "sequenceNumber"@ + seq!['"', ':', '"'] + escape(sn) + seq![
        '"',
        '}',
    ]);
}

pub open spec fn json_of_record(r: input::RecordV) -> JsonV {
    JsonV::Obj(
        seq![
            ("data"@, JsonV::Str(r.base64_data)),
            ("partitionKey"@, JsonV::Str(r.partition_key)),
            ("sequenceNumber"@, JsonV::Str(r.sequence_number)),
        ] + opt_u64_pair("subSequenceNumber"@, r.sub_sequence_number)
            + opt_u64_pair("approximateArrivalTimestamp"@, r.approximate_arrival_timestamp_ms),
    )
}

pub open spec fn json_of_in(m: input::MessageV) -> JsonV {
    match m {
        input::MessageV::Checkpoint(c) => JsonV::Obj(
            seq![("action"@, JsonV::Str("checkpoint"@))]
                + opt_str_pair("sequenceNumber"@, c.sequence_number)
                + opt_u64_pair("subSequenceNumber"@, c.sub_sequence_number)
                + opt_str_pair("error"@, c.error),
        ),
        input::MessageV::Initialize(im) => JsonV::Obj(
            seq![
                ("action"@, JsonV::Str("initialize"@)),
                ("shardId"@, JsonV::Str(im.shard_id)),
            ] + opt_str_pair("sequenceNumber"@, im.sequence_number)
                + opt_u64_pair("subSequenceNumber"@, im.sub_sequence_number),
        ),
        input::MessageV::ProcessRecords(pm) => JsonV::Obj(
            seq![
                ("action"@, JsonV::Str("processRecords"@)),
                (
                    "records"@,
                    JsonV::Arr(Seq::new(pm.records.len(), |i: int| json_of_record(pm.records[i]))),
                ),
            ] + opt_u64_pair("millisBehindLatest"@, pm.millis_behind_latest),
        ),
        input::MessageV::Shutdown(sm) => JsonV::Obj(
            seq![("action"@, JsonV::Str("shutdown"@))] + opt_str_pair("reason"@, sm.reason),
        ),
        input::MessageV::ShutdownRequested => JsonV::Obj(
            seq![("action"@, JsonV::Str("shutdownRequested"@))],
        ),
        input::MessageV::LeaseLost => JsonV::Obj(seq![("action"@, JsonV::Str("leaseLost"@))]),
        input::MessageV::ShardEnded => JsonV::Obj(seq![("action"@, JsonV::Str("shardEnded"@))]),
    }
}

/// The canonical one-line frame of an inbound message.
pub open spec fn spec_encode_in(m: input::MessageV) -> Seq<char> {
    spec_ser(json_of_in(m))
}

// ---------------------------------------------------------------------------
// From a JSON object back to a message
// ---------------------------------------------------------------------------

pub open spec fn record_of_json(j: JsonV) -> Option<input::RecordV> {
    match j {
        JsonV::Obj(ps) => match (
            req_str(ps, "data"@),
            req_str(ps, "partitionKey"@),
            req_str(ps, "sequenceNumber"@),
            opt_u64(ps, "subSequenceNumber"@),
            opt_u64(ps, "approximateArrivalTimestamp"@),
        ) {
            (Some(d), Some(pk), Some(sn), Some(ssn), Some(ts)) => Some(
                input::RecordV {
                    base64_data: d,
                    partition_key: pk,
                    sequence_number: sn,
                    sub_sequence_number: ssn,
                    approximate_arrival_timestamp_ms: ts,
                },
            ),
            _ => None,
        },
        _ => None,
    }
}

pub open spec fn records_of_json(els: Seq<JsonV>) -> Option<Seq<input::RecordV>>
    decreases els.len(),
{
    if els.len() == 0 {
        Some(Seq::empty())
    } else {
        match (record_of_json(els[0]), records_of_json(els.drop_first())) {
            (Some(r), Some(rs)) => Some(seq![r] + rs),
            _ => None,
        }
    }
}

pub open spec fn msg_of_json(j: JsonV) -> Option<input::MessageV> {
    match j {
        JsonV::Obj(ps) => match lookup(ps, "action"@) {
            Some(JsonV::Str(a)) => {
                if a == "checkpoint"@ {
                    match (
                        opt_str(ps, "sequenceNumber"@),
                        opt_u64(ps, "subSequenceNumber"@),
                        opt_str(ps, "error"@),
                    ) {
                        (Some(sn), Some(ssn), Some(e)) => Some(
                            input::MessageV::Checkpoint(
                                input::CheckpointMessageV {
                                    sequence_number: sn,
                                    sub_sequence_number: ssn,
                                    error: e,
                                },
                            ),
                        ),
                        _ => None,
                    }
                } else if a == "initialize"@ {
                    match (
                        req_str(ps, "shardId"@),
                        opt_str(ps, "sequenceNumber"@),
                        opt_u64(ps, "subSequenceNumber"@),
                    ) {
                        (Some(sid), Some(sn), Some(ssn)) => Some(
                            input::MessageV::Initialize(
                                input::InitializeMessageV {
                                    shard_id: sid,
                                    sequence_number: sn,
                                    sub_sequence_number: ssn,
                                },
                            ),
                        ),
                        _ => None,
                    }
                } else if a == "processRecords"@ {
                    match (lookup(ps, "records"@), opt_u64(ps, "millisBehindLatest"@)) {
                        (Some(JsonV::Arr(els)), Some(mb)) => match records_of_json(els) {
                            Some(rs) => Some(
                                input::MessageV::ProcessRecords(
                                    input::ProcessRecordsMessageV {
                                        records: rs,
                                        millis_behind_latest: mb,
                                    },
                                ),
                            ),
                            None => None,
                        },
                        _ => None,
                    }
                } else if a == "shutdown"@ {
                    match opt_str(ps, "reason"@) {
                        Some(rn) => Some(
                            input::MessageV::Shutdown(input::ShutdownMessageV { reason: rn }),
                        ),
                        None => None,
                    }
                } else if a == "shutdownRequested"@ {
                    Some(input::MessageV::ShutdownRequested)
                } else if a == "leaseLost"@ {
                    Some(input::MessageV::LeaseLost)
                } else if a == "shardEnded"@ {
                    Some(input::MessageV::ShardEnded)
                } else {
                    None
                }
            },
            _ => None,
        },
        _ => None,
    }
}

/// What one inbound frame decodes to, if anything.
pub open spec fn spec_decode_in(s: Seq<char>) -> Option<input::MessageV> {
    match spec_parse_json(s) {
        Some(j) => msg_of_json(j),
        None => None,
    }
}

// ---------------------------------------------------------------------------
// Digit strings and u64 values
// ---------------------------------------------------------------------------

proof fn lemma_digits_val_snoc(s: Seq<char>, i: int)
    requires
        0 <= i < s.len(),
    ensures
        spec_digits_val(s.take(i + 1)) == spec_digits_val(s.take(i)) * 10 + digit_val(s[i]),
{
    assert(s.take(i + 1).drop_last() =~= s.take(i));
    assert(s.take(i + 1).last() == s[i]);
}

proof fn lemma_digits_val_nonneg(s: Seq<char>)
    requires
        all_digits(s),
    ensures
        spec_digits_val(s) >= 0,
    decreases s.len(),
{
    if s.len() > 0 {
        assert(all_digits(s.drop_last())) by {
            assert(forall|k: int| 0 <= k < s.len() - 1 ==> s.drop_last()[k] == s[k]);
        }
        lemma_digits_val_nonneg(s.drop_last());
        assert(is_digit(s.last()));
    }
}

proof fn lemma_digits_val_prefix_le(s: Seq<char>, i: int)
    requires
        all_digits(s),
        0 <= i <= s.len(),
    ensures
        spec_digits_val(s.take(i)) <= spec_digits_val(s),
    decreases s.len() - i,
{
    if i < s.len() {
        lemma_digits_val_snoc(s, i);
        assert(all_digits(s.take(i))) by {
            assert(forall|k: int| 0 <= k < i ==> s.take(i)[k] == s[k]);
        }
        lemma_digits_val_nonneg(s.take(i));
        lemma_digits_val_prefix_le(s, i + 1);
    } else {
        assert(s.take(i) =~= s);
    }
}

/// Reads a decimal token as a `u64`, exactly when the token is canonical
/// and in range.
pub fn parse_u64_str(s: &str) -> (r: Option<u64>)
    ensures
        r == spec_parse_u64(s@),
{
    let cs = crate::util::chars_of(s);
    if cs.len() == 0 {
        return None;
    }
    if cs.len() > 1 && cs[0] == '0' {
        return None;
    }
    let mut i: usize = 0;
    let mut acc: u64 = 0;
    while i < cs.len()
        invariant
            i <= cs.len(),
            cs@ == s@,
            all_digits(s@.take(i as int)),
            acc as int == spec_digits_val(s@.take(i as int)),
        decreases cs.len() - i,
    {
        let c = cs[i];
        if !('0' <= c && c <= '9') {
            proof {
                assert(!is_digit(s@[i as int]));
            }
            return None;
        }
        let d: u64 = (c as u32 - '0' as u32) as u64;
        proof {
            assert(d as int == digit_val(s@[i as int]));
            lemma_digits_val_snoc(s@, i as int);
            assert(all_digits(s@.take(i as int + 1))) by {
                assert(forall|k: int| 0 <= k < i + 1 ==> s@.take(i as int + 1)[k] == s@[k]);
            }
        }
        let next = match acc.checked_mul(10) {
            Some(x) => x.checked_add(d),
            None => None,
        };
        match next {
            Some(y) => {
                acc = y;
            },
            None => {
                proof {
                    assert(spec_digits_val(s@.take(i as int + 1)) > u64::MAX);
                    if all_digits(s@) {
                        lemma_digits_val_prefix_le(s@, i as int + 1);
                    }
                }
                return None;
            },
        }
        i = i + 1;
    }
    proof {
        assert(s@.take(s@.len() as int) =~= s@);
    }
    Some(acc)
}

// ---------------------------------------------------------------------------
// Executable field lookup
// ---------------------------------------------------------------------------

fn find_field<'a>(ps: &'a Vec<(String, Json)>, k: &str) -> (r: Option<&'a Json>)
    ensures
        match r {
            Some(j) => lookup(json_view_pairs(*ps, 0), k@) == Some(j@),
            None => lookup(json_view_pairs(*ps, 0), k@) is None,
        },
{
    let mut i: usize = 0;
    while i < ps.len()
        invariant
            i <= ps.len(),
            lookup(json_view_pairs(*ps, 0), k@) == lookup(json_view_pairs(*ps, i as int), k@),
        decreases ps.len() - i,
    {
        proof {
            assert(json_view_pairs(*ps, i as int) == seq![(ps[i as int].0@, json_view(
                ps[i as int].1,
            ))] + json_view_pairs(*ps, i as int + 1));
            assert((seq![(ps@[i as int].0@, json_view(ps@[i as int].1))] + json_view_pairs(
                *ps,
                i as int + 1,
            )).drop_first() =~= json_view_pairs(*ps, i as int + 1));
        }
        if str_eq(ps[i].0.as_str(), k) {
            return Some(&ps[i].1);
        }
        i = i + 1;
    }
    None
}

fn get_req_str(ps: &Vec<(String, Json)>, k: &str) -> (r: Result<String, FrameError>)
    ensures
        match r {
            Ok(s) => req_str(json_view_pairs(*ps, 0), k@) == Some(s@),
            Err(_) => req_str(json_view_pairs(*ps, 0), k@) is None,
        },
{
    match find_field(ps, k) {
        Some(Json::Str(s)) => Ok(s.clone()),
        _ => Err(FrameError {}),
    }
}

fn get_opt_str(ps: &Vec<(String, Json)>, k: &str) -> (r: Result<Option<String>, FrameError>)
    ensures
        match r {
            Ok(o) => opt_str(json_view_pairs(*ps, 0), k@) == Some(o.deep_view()),
            Err(_) => opt_str(json_view_pairs(*ps, 0), k@) is None,
        },
{
    match find_field(ps, k) {
        None => Ok(None),
        Some(Json::Null) => Ok(None),
        Some(Json::Str(s)) => Ok(Some(s.clone())),
        Some(_) => Err(FrameError {}),
    }
}

fn get_opt_u64(ps: &Vec<(String, Json)>, k: &str) -> (r: Result<Option<u64>, FrameError>)
    ensures
        match r {
            Ok(o) => opt_u64(json_view_pairs(*ps, 0), k@) == Some(o),
            Err(_) => opt_u64(json_view_pairs(*ps, 0), k@) is None,
        },
{
    match find_field(ps, k) {
        None => Ok(None),
        Some(Json::Null) => Ok(None),
        Some(Json::Num(t)) => match parse_u64_str(t.as_str()) {
            Some(n) => Ok(Some(n)),
            None => Err(FrameError {}),
        },
        Some(_) => Err(FrameError {}),
    }
}

// ---------------------------------------------------------------------------
// Decoding frames to inbound messages
// ---------------------------------------------------------------------------

/// The views of a vector of records, in order.
pub open spec fn recs_view(rs: Seq<input::Record>) -> Seq<input::RecordV> {
    Seq::new(rs.len(), |i: int| rs[i]@)
}

fn record_of_x(j: &Json) -> (r: Result<input::Record, FrameError>)
    ensures
        match r {
            Ok(rec) => record_of_json(j@) == Some(rec@),
            Err(_) => record_of_json(j@) is None,
        },
{
    match j {
        Json::Obj(ps) => {
            let d = get_req_str(ps, "data");
            let pk = get_req_str(ps, "partitionKey");
            let sn = get_req_str(ps, "sequenceNumber");
            let ssn = get_opt_u64(ps, "subSequenceNumber");
            let ts = get_opt_u64(ps, "approximateArrivalTimestamp");
            match (d, pk, sn, ssn, ts) {
                (Ok(d), Ok(pk), Ok(sn), Ok(ssn), Ok(ts)) => Ok(
                    input::Record {
                        base64_data: d,
                        partition_key: pk,
                        sequence_number: sn,
                        sub_sequence_number: ssn,
                        approximate_arrival_timestamp_ms: ts,
                    },
                ),
                _ => Err(FrameError {}),
            }
        },
        _ => Err(FrameError {}),
    }
}

fn records_of_x(els: &Vec<Json>) -> (r: Result<Vec<input::Record>, FrameError>)
    ensures
        match r {
            Ok(rs) => records_of_json(json_view_elems(*els, 0)) == Some(recs_view(rs@)),
            Err(_) => records_of_json(json_view_elems(*els, 0)) is None,
        },
{
    let mut acc: Vec<input::Record> = Vec::new();
    let mut i: usize = 0;
    while i < els.len()
        invariant
            i <= els.len(),
            acc@.len() == i,
            match records_of_json(json_view_elems(*els, i as int)) {
                Some(rest) => records_of_json(json_view_elems(*els, 0)) == Some(
                    recs_view(acc@) + rest,
                ),
                None => records_of_json(json_view_elems(*els, 0)) is None,
            },
        decreases els.len() - i,
    {
        proof {
            assert(json_view_elems(*els, i as int) == seq![json_view(els@[i as int])]
                + json_view_elems(*els, i as int + 1));
            assert((seq![json_view(els@[i as int])] + json_view_elems(*els, i as int + 1))
                .drop_first() =~= json_view_elems(*els, i as int + 1));
            assert(json_view_elems(*els, i as int).len() > 0) by {
                lemma_view_elems(*els, i as int);
            }
        }
        match record_of_x(&els[i]) {
            Ok(rec) => {
                let ghost accv = acc@;
                acc.push(rec);
                proof {
                    match records_of_json(json_view_elems(*els, i as int + 1)) {
                        Some(rest2) => {
                            assert(recs_view(acc@) =~= recs_view(accv) + seq![rec@]);
                            assert(recs_view(accv) + (seq![rec@] + rest2) =~= recs_view(acc@)
                                + rest2);
                        },
                        None => {},
                    }
                }
            },
            Err(e) => {
                return Err(e);
            },
        }
        i = i + 1;
    }
    proof {
        assert(json_view_elems(*els, els.len() as int) =~= Seq::<JsonV>::empty());
        assert(records_of_json(Seq::<JsonV>::empty()) == Some(Seq::<input::RecordV>::empty()));
        assert(recs_view(acc@) + Seq::<input::RecordV>::empty() =~= recs_view(acc@));
    }
    Ok(acc)
}

/// Decodes one frame as an inbound notification.
pub fn decode_in(s: &str) -> (r: Result<input::Message, FrameError>)
    ensures
        match r {
            Ok(m) => spec_decode_in(s@) == Some(m@),
            Err(_) => spec_decode_in(s@) is None,
        },
{
    let parsed = match parse_json(s) {
        Some(j) => j,
        None => {
            return Err(FrameError {});
        },
    };
    match &parsed {
        Json::Obj(ps) => {
            let action = match find_field(ps, "action") {
                Some(Json::Str(a)) => a.clone(),
                _ => {
                    return Err(FrameError {});
                },
            };
            if str_eq(action.as_str(), "checkpoint") {
                let sn = get_opt_str(ps, "sequenceNumber");
                let ssn = get_opt_u64(ps, "subSequenceNumber");
                let e = get_opt_str(ps, "error");
                match (sn, ssn, e) {
                    (Ok(sn), Ok(ssn), Ok(e)) => Ok(
                        input::Message::Checkpoint(
                            input::CheckpointMessage {
                                sequence_number: sn,
                                sub_sequence_number: ssn,
                                error: e,
                            },
                        ),
                    ),
                    _ => Err(FrameError {}),
                }
            } else if str_eq(action.as_str(), "initialize") {
                let sid = get_req_str(ps, "shardId");
                let sn = get_opt_str(ps, "sequenceNumber");
                let ssn = get_opt_u64(ps, "subSequenceNumber");
                match (sid, sn, ssn) {
                    (Ok(sid), Ok(sn), Ok(ssn)) => Ok(
                        input::Message::Initialize(
                            input::InitializeMessage {
                                shard_id: sid,
                                sequence_number: sn,
                                sub_sequence_number: ssn,
                            },
                        ),
                    ),
                    _ => Err(FrameError {}),
                }
            } else if str_eq(action.as_str(), "processRecords") {
                let rs = match find_field(ps, "records") {
                    Some(Json::Arr(els)) => records_of_x(els),
                    _ => {
                        return Err(FrameError {});
                    },
                };
                let mb = get_opt_u64(ps, "millisBehindLatest");
                match (rs, mb) {
                    (Ok(rs), Ok(mb)) => {
                        let m = input::ProcessRecordsMessage {
                            records: rs,
                            millis_behind_latest: mb,
                        };
                        proof {
                            assert(m@.records =~= recs_view(m.records@));
                        }
                        Ok(input::Message::ProcessRecords(m))
                    },
                    _ => Err(FrameError {}),
                }
            } else if str_eq(action.as_str(), "shutdown") {
                match get_opt_str(ps, "reason") {
                    Ok(rn) => Ok(
                        input::Message::Shutdown(input::ShutdownMessage { reason: rn }),
                    ),
                    Err(e) => Err(e),
                }
            } else if str_eq(action.as_str(), "shutdownRequested") {
                Ok(input::Message::ShutdownRequested(input::ShutdownRequestedMessage {}))
            } else if str_eq(action.as_str(), "leaseLost") {
                Ok(input::Message::LeaseLost(input::LeaseLostMessage {}))
            } else if str_eq(action.as_str(), "shardEnded") {
                Ok(input::Message::ShardEnded(input::ShardEndedMessage {}))
            } else {
                Err(FrameError {})
            }
        },
        _ => Err(FrameError {}),
    }
}

// ---------------------------------------------------------------------------
// Encoding messages as frames
// ---------------------------------------------------------------------------

fn key(k: &str) -> (r: String)
    ensures
        r@ == k@,
{
    String::from_str(k)
}

/// Encodes one outbound message as its one-line frame.
pub fn encode_out(m: &output::Message) -> (r: String)
    ensures
        r@ == spec_encode_out(m@),
{
    let mut ps: Vec<(String, Json)> = Vec::new();
    match m {
        output::Message::Checkpoint(c) => {
            ps.push((key("action"), Json::Str(key("checkpoint"))));
            match &c.sequence_number {
                Some(sn) => {
                    ps.push((key("sequenceNumber"), Json::Str(sn.clone())));
                },
                None => {},
            }
            match c.sub_sequence_number {
                Some(n) => {
                    ps.push((key("subSequenceNumber"), Json::Num(fmt_u64(n))));
                },
                None => {},
            }
            proof {
                lemma_view_pairs(ps, 0);
                assert(json_view_pairs(ps, 0) =~~= seq![("action"@, JsonV::Str("checkpoint"@))]
                    + opt_str_pair("sequenceNumber"@, c.sequence_number.deep_view())
                    + opt_u64_pair("subSequenceNumber"@, c.sub_sequence_number));
            }
        },
        output::Message::Status(st) => {
            ps.push((key("action"), Json::Str(key("status"))));
            ps.push((key("responseFor"), Json::Str(st.response_for.clone())));
            proof {
                lemma_view_pairs(ps, 0);
                assert(json_view_pairs(ps, 0) =~~= seq![
                    ("action"@, JsonV::Str("status"@)),
                    ("responseFor"@, JsonV::Str(st.response_for@)),
                ]);
            }
        },
    }
    let j = Json::Obj(ps);
    json_to_string(&j)
}

fn record_json_x(rec: &input::Record) -> (j: Json)
    ensures
        j@ == json_of_record(rec@),
{
    let mut ps: Vec<(String, Json)> = Vec::new();
    ps.push((key("data"), Json::Str(rec.base64_data.clone())));
    ps.push((key("partitionKey"), Json::Str(rec.partition_key.clone())));
    ps.push((key("sequenceNumber"), Json::Str(rec.sequence_number.clone())));
    match rec.sub_sequence_number {
        Some(n) => {
            ps.push((key("subSequenceNumber"), Json::Num(fmt_u64(n))));
        },
        None => {},
    }
    match rec.approximate_arrival_timestamp_ms {
        Some(n) => {
            ps.push((key("approximateArrivalTimestamp"), Json::Num(fmt_u64(n))));
        },
        None => {},
    }
    proof {
        lemma_view_pairs(ps, 0);
        assert(json_view_pairs(ps, 0) =~~= seq![
            ("data"@, JsonV::Str(rec.base64_data@)),
            ("partitionKey"@, JsonV::Str(rec.partition_key@)),
            ("sequenceNumber"@, JsonV::Str(rec.sequence_number@)),
        ] + opt_u64_pair("subSequenceNumber"@, rec.sub_sequence_number)
            + opt_u64_pair("approximateArrivalTimestamp"@, rec.approximate_arrival_timestamp_ms));
    }
    Json::Obj(ps)
}

/// Encodes one inbound message as its one-line frame (the host's own form).
pub fn encode_in(m: &input::Message) -> (r: String)
    ensures
        r@ == spec_encode_in(m@),
{
    let mut ps: Vec<(String, Json)> = Vec::new();
    match m {
        input::Message::Checkpoint(c) => {
            ps.push((key("action"), Json::Str(key("checkpoint"))));
            match &c.sequence_number {
                Some(sn) => {
                    ps.push((key("sequenceNumber"), Json::Str(sn.clone())));
                },
                None => {},
            }
            match c.sub_sequence_number {
                Some(n) => {
                    ps.push((key("subSequenceNumber"), Json::Num(fmt_u64(n))));
                },
                None => {},
            }
            match &c.error {
                Some(e) => {
                    ps.push((key("error"), Json::Str(e.clone())));
                },
                None => {},
            }
            proof {
                lemma_view_pairs(ps, 0);
                assert(json_view_pairs(ps, 0) =~~= seq![("action"@, JsonV::Str("checkpoint"@))]
                    + opt_str_pair("sequenceNumber"@, c.sequence_number.deep_view())
                    + opt_u64_pair("subSequenceNumber"@, c.sub_sequence_number)
                    + opt_str_pair("error"@, c.error.deep_view()));
            }
        },
        input::Message::Initialize(im) => {
            ps.push((key("action"), Json::Str(key("initialize"))));
            ps.push((key("shardId"), Json::Str(im.shard_id.clone())));
            match &im.sequence_number {
                Some(s) => {
                    ps.push((key("sequenceNumber"), Json::Str(s.clone())));
                },
                None => {},
            }
            match im.sub_sequence_number {
                Some(n) => {
                    ps.push((key("subSequenceNumber"), Json::Num(fmt_u64(n))));
                },
                None => {},
            }
            proof {
                lemma_view_pairs(ps, 0);
                assert(json_view_pairs(ps, 0) =~~= seq![
                    ("action"@, JsonV::Str("initialize"@)),
                    ("shardId"@, JsonV::Str(im.shard_id@)),
                ] + opt_str_pair("sequenceNumber"@, im.sequence_number.deep_view())
                    + opt_u64_pair("subSequenceNumber"@, im.sub_sequence_number));
            }
        },
        input::Message::ProcessRecords(pm) => {
            ps.push((key("action"), Json::Str(key("processRecords"))));
            let mut arr: Vec<Json> = Vec::new();
            let mut i: usize = 0;
            while i < pm.records.len()
                invariant
                    i <= pm.records.len(),
                    arr@.len() == i,
                    forall|k: int| 0 <= k < i ==> arr@[k]@ == json_of_record(
                        #[trigger] pm.records@[k]@,
                    ),
                decreases pm.records.len() - i,
            {
                let rj = record_json_x(&pm.records[i]);
                arr.push(rj);
                i = i + 1;
            }
            proof {
                lemma_view_elems(arr, 0);
                assert(json_view_elems(arr, 0) =~~= Seq::new(
                    pm@.records.len(),
                    |k: int| json_of_record(pm@.records[k]),
                ));
            }
            ps.push((key("records"), Json::Arr(arr)));
            match pm.millis_behind_latest {
                Some(n) => {
                    ps.push((key("millisBehindLatest"), Json::Num(fmt_u64(n))));
                },
                None => {},
            }
            proof {
                lemma_view_pairs(ps, 0);
                assert(json_view_pairs(ps, 0) =~~= seq![
                    ("action"@, JsonV::Str("processRecords"@)),
                    (
                        "records"@,
                        JsonV::Arr(
                            Seq::new(pm@.records.len(), |k: int| json_of_record(pm@.records[k])),
                        ),
                    ),
                ] + opt_u64_pair("millisBehindLatest"@, pm.millis_behind_latest));
            }
        },
        input::Message::Shutdown(sm) => {
            ps.push((key("action"), Json::Str(key("shutdown"))));
            match &sm.reason {
                Some(s) => {
                    ps.push((key("reason"), Json::Str(s.clone())));
                },
                None => {},
            }
            proof {
                lemma_view_pairs(ps, 0);
                assert(json_view_pairs(ps, 0) =~~= seq![("action"@, JsonV::Str("shutdown"@))]
                    + opt_str_pair("reason"@, sm.reason.deep_view()));
            }
        },
        input::Message::ShutdownRequested(_) => {
            ps.push((key("action"), Json::Str(key("shutdownRequested"))));
            proof {
                lemma_view_pairs(ps, 0);
                assert(json_view_pairs(ps, 0) =~~= seq![
                    ("action"@, JsonV::Str("shutdownRequested"@)),
                ]);
            }
        },
        input::Message::LeaseLost(_) => {
            ps.push((key("action"), Json::Str(key("leaseLost"))));
            proof {
                lemma_view_pairs(ps, 0);
                assert(json_view_pairs(ps, 0) =~~= seq![("action"@, JsonV::Str("leaseLost"@))]);
            }
        },
        input::Message::ShardEnded(_) => {
            ps.push((key("action"), Json::Str(key("shardEnded"))));
            proof {
                lemma_view_pairs(ps, 0);
                assert(json_view_pairs(ps, 0) =~~= seq![("action"@, JsonV::Str("shardEnded"@))]);
            }
        },
    }
    let j = Json::Obj(ps);
    json_to_string(&j)
}

// ---------------------------------------------------------------------------
// Round trip: decoding an encoded inbound message gives the message back
// ---------------------------------------------------------------------------

/// The canonical digits of `n` denote `n` again.
proof fn lemma_u64_str(n: int)
    requires
        n >= 0,
    ensures
        spec_u64_str(n).len() >= 1,
        all_digits(spec_u64_str(n)),
        spec_u64_str(n).len() == 1 || spec_u64_str(n)[0] != '0',
        spec_digits_val(spec_u64_str(n)) == n,
    decreases n,
{
    let s = spec_u64_str(n);
    if n < 10 {
        assert(s =~= seq![digit_char(n)]);
        assert(s.drop_last() =~= Seq::<char>::empty());
        assert(spec_digits_val(Seq::<char>::empty()) == 0);
        assert(digit_val(digit_char(n)) == n);
    } else {
        lemma_u64_str(n / 10);
        let p = spec_u64_str(n / 10);
        assert(s =~= p + seq![digit_char(n % 10)]);
        assert(s.drop_last() =~= p);
        assert(s.last() == digit_char(n % 10));
        assert(digit_val(digit_char(n % 10)) == n % 10);
        assert(s[0] == p[0]);
        assert(all_digits(s)) by {
            assert(forall|i: int| 0 <= i < p.len() ==> s[i] == p[i]);
        }
        if n / 10 < 10 {
            assert(p =~= seq![digit_char(n / 10)]);
            assert(n / 10 >= 1);
            assert(digit_char(n / 10) != '0');
        } else {
            lemma_u64_str(n / 100);
            assert(p =~= spec_u64_str(n / 100) + seq![digit_char((n / 10) % 10)]);
            assert(p.len() >= 2);
        }
        assert(p[0] != '0');
    }
}

proof fn lemma_parse_u64_rt(n: u64)
    ensures
        spec_parse_u64(spec_u64_str(n as int)) == Some(n),
{
    lemma_u64_str(n as int);
}

/// The first member with key `ps[j].0` is `ps[j]`, when no earlier member
/// has that key.
proof fn lemma_lookup_at(ps: Seq<(Seq<char>, JsonV)>, j: int, k: Seq<char>)
    requires
        0 <= j < ps.len(),
        ps[j].0 == k,
        forall|x: int| 0 <= x < j ==> (#[trigger] ps[x]).0 != k,
    ensures
        lookup(ps, k) == Some(ps[j].1),
    decreases j,
{
    if j > 0 {
        assert(ps[0].0 != k);
        lemma_lookup_at(ps.drop_first(), j - 1, k);
    }
}

proof fn lemma_lookup_absent(ps: Seq<(Seq<char>, JsonV)>, k: Seq<char>)
    requires
        forall|x: int| 0 <= x < ps.len() ==> (#[trigger] ps[x]).0 != k,
    ensures
        lookup(ps, k) is None,
    decreases ps.len(),
{
    if ps.len() > 0 {
        lemma_lookup_absent(ps.drop_first(), k);
    }
}

proof fn lemma_wf_pairs_all(ps: Seq<(Seq<char>, JsonV)>, i: int)
    requires
        0 <= i,
        forall|x: int| 0 <= x < ps.len() ==> wf_json((#[trigger] ps[x]).1),
    ensures
        wf_pairs(ps, i),
    decreases ps.len() - i,
{
    if i < ps.len() {
        lemma_wf_pairs_all(ps, i + 1);
    }
}

proof fn lemma_wf_elems_all(els: Seq<JsonV>, i: int)
    requires
        0 <= i,
        forall|x: int| 0 <= x < els.len() ==> wf_json(#[trigger] els[x]),
    ensures
        wf_elems(els, i),
    decreases els.len() - i,
{
    if i < els.len() {
        lemma_wf_elems_all(els, i + 1);
    }
}

/// A `u64` member's token is well formed.
proof fn lemma_wf_num(n: u64)
    ensures
        wf_json(JsonV::Num(spec_u64_str(n as int))),
{
    lemma_u64_str(n as int);
    let s = spec_u64_str(n as int);
    assert(forall|i: int| 0 <= i < s.len() ==> is_num_char(#[trigger] s[i]));
    assert(is_digit(s[0]));
    assert(s[0] != '-');
    lemma_digits_run_all(s, 0);
    assert(is_json_number(s));
}

/// The names of the record members, each found where the encoder put it.
proof fn lemma_record_rt(r: input::RecordV)
    ensures
        wf_json(json_of_record(r)),
        record_of_json(json_of_record(r)) == Some(r),
{
    reveal_strlit("data");
    reveal_strlit("partitionKey");
    reveal_strlit("sequenceNumber");
    reveal_strlit("subSequenceNumber");
    reveal_strlit("approximateArrivalTimestamp");
    assert("data"@.len() == 4 && "partitionKey"@.len() == 12 && "sequenceNumber"@.len() == 14
        && "subSequenceNumber"@.len() == 17 && "approximateArrivalTimestamp"@.len() == 27);
    let base = seq![
        ("data"@, JsonV::Str(r.base64_data)),
        ("partitionKey"@, JsonV::Str(r.partition_key)),
        ("sequenceNumber"@, JsonV::Str(r.sequence_number)),
    ];
    let t1 = opt_u64_pair("subSequenceNumber"@, r.sub_sequence_number);
    let t2 = opt_u64_pair("approximateArrivalTimestamp"@, r.approximate_arrival_timestamp_ms);
    let ps = base + t1 + t2;
    assert(json_of_record(r) == JsonV::Obj(ps));
    assert(forall|x: int| 0 <= x < base.len() ==> #[trigger] ps[x] == base[x]);
    assert(forall|x: int| 0 <= x < t1.len() ==> #[trigger] ps[base.len() + x] == t1[x]);
    assert(forall|x: int|
        0 <= x < t2.len() ==> #[trigger] ps[base.len() + t1.len() + x] == t2[x]);
    if let Some(n) = r.sub_sequence_number {
        lemma_wf_num(n);
        lemma_parse_u64_rt(n);
    }
    if let Some(n) = r.approximate_arrival_timestamp_ms {
        lemma_wf_num(n);
        lemma_parse_u64_rt(n);
    }
    assert(wf_json(json_of_record(r))) by {
        assert(forall|x: int| 0 <= x < ps.len() ==> wf_json((#[trigger] ps[x]).1));
        lemma_wf_pairs_all(ps, 0);
    }
    lemma_lookup_at(ps, 0, "data"@);
    lemma_lookup_at(ps, 1, "partitionKey"@);
    lemma_lookup_at(ps, 2, "sequenceNumber"@);
    match r.sub_sequence_number {
        Some(n) => {
            lemma_lookup_at(ps, 3, "subSequenceNumber"@);
        },
        None => {
            lemma_lookup_absent(ps, "subSequenceNumber"@);
        },
    }
    match r.approximate_arrival_timestamp_ms {
        Some(n) => {
            lemma_lookup_at(ps, (3 + t1.len()) as int, "approximateArrivalTimestamp"@);
        },
        None => {
            lemma_lookup_absent(ps, "approximateArrivalTimestamp"@);
        },
    }
}

proof fn lemma_records_rt(rs: Seq<input::RecordV>)
    ensures
        wf_elems(Seq::new(rs.len(), |i: int| json_of_record(rs[i])), 0),
        records_of_json(Seq::new(rs.len(), |i: int| json_of_record(rs[i]))) == Some(rs),
    decreases rs.len(),
{
    let els = Seq::new(rs.len(), |i: int| json_of_record(rs[i]));
    assert(wf_elems(els, 0)) by {
        assert(forall|x: int| 0 <= x < els.len() ==> wf_json(#[trigger] els[x])) by {
            assert forall|x: int| 0 <= x < els.len() implies wf_json(#[trigger] els[x]) by {
                lemma_record_rt(rs[x]);
            }
        }
        lemma_wf_elems_all(els, 0);
    }
    if rs.len() == 0 {
        assert(els =~= Seq::<JsonV>::empty());
    } else {
        lemma_record_rt(rs[0]);
        let tail = Seq::new(rs.drop_first().len(), |i: int| json_of_record(rs.drop_first()[i]));
        assert(els.drop_first() =~= tail);
        lemma_records_rt(rs.drop_first());
        assert(seq![rs[0]] + rs.drop_first() =~= rs);
    }
}

/// The whole inbound round trip at the object level: the canonical object
/// of a message is well formed and maps back to the message.
#[verifier::rlimit(100)]
proof fn lemma_msg_rt(m: input::MessageV)
    ensures
        wf_json(json_of_in(m)),
        msg_of_json(json_of_in(m)) == Some(m),
{
    reveal_strlit("action");
    reveal_strlit("checkpoint");
    reveal_strlit("initialize");
    reveal_strlit("processRecords");
    reveal_strlit("shutdown");
    reveal_strlit("shutdownRequested");
    reveal_strlit("leaseLost");
    reveal_strlit("shardEnded");
    reveal_strlit("sequenceNumber");
    reveal_strlit("subSequenceNumber");
    reveal_strlit("error");
    reveal_strlit("shardId");
    reveal_strlit("records");
    reveal_strlit("millisBehindLatest");
    reveal_strlit("reason");
    assert("checkpoint"@[0] == 'c' && "initialize"@[0] == 'i' && "shardEnded"@[0] == 's');
    assert("checkpoint"@ != "initialize"@ && "checkpoint"@ != "shardEnded"@ && "initialize"@
        != "shardEnded"@);
    assert("action"@[0] == 'a' && "reason"@[0] == 'r');
    assert("action"@ != "reason"@);
    assert("action"@.len() == 6 && "sequenceNumber"@.len() == 14 && "subSequenceNumber"@.len()
        == 17 && "error"@.len() == 5 && "shardId"@.len() == 7 && "records"@.len() == 7
        && "millisBehindLatest"@.len() == 18 && "reason"@.len() == 6);
    assert("shardId"@[0] == 's' && "records"@[0] == 'r');
    assert("shardId"@ != "records"@);
    assert("checkpoint"@.len() == 10 && "initialize"@.len() == 10 && "processRecords"@.len()
        == 14 && "shutdown"@.len() == 8 && "shutdownRequested"@.len() == 17
        && "leaseLost"@.len() == 9 && "shardEnded"@.len() == 10);
    match m {
        input::MessageV::Checkpoint(c) => {
            let base = seq![("action"@, JsonV::Str("checkpoint"@))];
            let t1 = opt_str_pair("sequenceNumber"@, c.sequence_number);
            let t2 = opt_u64_pair("subSequenceNumber"@, c.sub_sequence_number);
            let t3 = opt_str_pair("error"@, c.error);
            let ps = base + t1 + t2 + t3;
            assert(json_of_in(m) == JsonV::Obj(ps));
            assert(forall|x: int| 0 <= x < base.len() ==> #[trigger] ps[x] == base[x]);
            assert(forall|x: int| 0 <= x < t1.len() ==> #[trigger] ps[base.len() + x] == t1[x]);
            assert(forall|x: int|
                0 <= x < t2.len() ==> #[trigger] ps[base.len() + t1.len() + x] == t2[x]);
            assert(forall|x: int|
                0 <= x < t3.len() ==> #[trigger] ps[base.len() + t1.len() + t2.len() + x]
                    == t3[x]);
            if let Some(n) = c.sub_sequence_number {
                lemma_wf_num(n);
                lemma_parse_u64_rt(n);
            }
            assert(forall|x: int| 0 <= x < ps.len() ==> wf_json((#[trigger] ps[x]).1));
            lemma_wf_pairs_all(ps, 0);
            lemma_lookup_at(ps, 0, "action"@);
            match c.sequence_number {
                Some(_) => {
                    lemma_lookup_at(ps, 1, "sequenceNumber"@);
                },
                None => {
                    lemma_lookup_absent(ps, "sequenceNumber"@);
                },
            }
            match c.sub_sequence_number {
                Some(_) => {
                    lemma_lookup_at(ps, (1 + t1.len()) as int, "subSequenceNumber"@);
                },
                None => {
                    lemma_lookup_absent(ps, "subSequenceNumber"@);
                },
            }
            match c.error {
                Some(_) => {
                    lemma_lookup_at(ps, (1 + t1.len() + t2.len()) as int, "error"@);
                },
                None => {
                    lemma_lookup_absent(ps, "error"@);
                },
            }
            assert(msg_of_json(json_of_in(m)) == Some(m));
        },
        input::MessageV::Initialize(im) => {
            let base = seq![
                ("action"@, JsonV::Str("initialize"@)),
                ("shardId"@, JsonV::Str(im.shard_id)),
            ];
            let t1 = opt_str_pair("sequenceNumber"@, im.sequence_number);
            let t2 = opt_u64_pair("subSequenceNumber"@, im.sub_sequence_number);
            let ps = base + t1 + t2;
            assert(json_of_in(m) == JsonV::Obj(ps));
            assert(forall|x: int| 0 <= x < base.len() ==> #[trigger] ps[x] == base[x]);
            assert(forall|x: int| 0 <= x < t1.len() ==> #[trigger] ps[base.len() + x] == t1[x]);
            assert(forall|x: int|
                0 <= x < t2.len() ==> #[trigger] ps[base.len() + t1.len() + x] == t2[x]);

            if let Some(n) = im.sub_sequence_number {
                lemma_wf_num(n);
                lemma_parse_u64_rt(n);
            }
            assert(forall|x: int| 0 <= x < ps.len() ==> wf_json((#[trigger] ps[x]).1));
            lemma_wf_pairs_all(ps, 0);
            lemma_lookup_at(ps, 0, "action"@);
            lemma_lookup_at(ps, 1, "shardId"@);
            match im.sequence_number {
                Some(_) => {
                    lemma_lookup_at(ps, 2, "sequenceNumber"@);
                },
                None => {
                    lemma_lookup_absent(ps, "sequenceNumber"@);
                },
            }
            match im.sub_sequence_number {
                Some(_) => {
                    lemma_lookup_at(ps, (2 + t1.len()) as int, "subSequenceNumber"@);
                },
                None => {
                    lemma_lookup_absent(ps, "subSequenceNumber"@);
                },
            }
            assert(msg_of_json(json_of_in(m)) == Some(m));
        },
        input::MessageV::ProcessRecords(pm) => {
            let els = Seq::new(pm.records.len(), |i: int| json_of_record(pm.records[i]));
            let base = seq![
                ("action"@, JsonV::Str("processRecords"@)),
                ("records"@, JsonV::Arr(els)),
            ];
            let t1 = opt_u64_pair("millisBehindLatest"@, pm.millis_behind_latest);
            let ps = base + t1;
            assert(json_of_in(m) == JsonV::Obj(ps));
            assert(forall|x: int| 0 <= x < base.len() ==> #[trigger] ps[x] == base[x]);
            assert(forall|x: int| 0 <= x < t1.len() ==> #[trigger] ps[base.len() + x] == t1[x]);

            lemma_records_rt(pm.records);
            if let Some(n) = pm.millis_behind_latest {
                lemma_wf_num(n);
                lemma_parse_u64_rt(n);
            }
            assert(forall|x: int| 0 <= x < ps.len() ==> wf_json((#[trigger] ps[x]).1));
            lemma_wf_pairs_all(ps, 0);
            lemma_lookup_at(ps, 0, "action"@);
            lemma_lookup_at(ps, 1, "records"@);
            match pm.millis_behind_latest {
                Some(_) => {
                    lemma_lookup_at(ps, 2, "millisBehindLatest"@);
                },
                None => {
                    lemma_lookup_absent(ps, "millisBehindLatest"@);
                },
            }
            assert(msg_of_json(json_of_in(m)) == Some(m));
        },
        input::MessageV::Shutdown(sm) => {
            let base = seq![("action"@, JsonV::Str("shutdown"@))];
            let t1 = opt_str_pair("reason"@, sm.reason);
            let ps = base + t1;
            assert(json_of_in(m) == JsonV::Obj(ps));
            assert(forall|x: int| 0 <= x < base.len() ==> #[trigger] ps[x] == base[x]);
            assert(forall|x: int| 0 <= x < t1.len() ==> #[trigger] ps[base.len() + x] == t1[x]);

            assert(forall|x: int| 0 <= x < ps.len() ==> wf_json((#[trigger] ps[x]).1));
            lemma_wf_pairs_all(ps, 0);
            lemma_lookup_at(ps, 0, "action"@);
            match sm.reason {
                Some(_) => {
                    lemma_lookup_at(ps, 1, "reason"@);
                },
                None => {
                    lemma_lookup_absent(ps, "reason"@);
                },
            }
            assert(msg_of_json(json_of_in(m)) == Some(m));
        },
        input::MessageV::ShutdownRequested => {
            let ps = seq![("action"@, JsonV::Str("shutdownRequested"@))];
            assert(json_of_in(m) == JsonV::Obj(ps));
            assert(forall|x: int| 0 <= x < ps.len() ==> wf_json((#[trigger] ps[x]).1));
            lemma_wf_pairs_all(ps, 0);
            lemma_lookup_at(ps, 0, "action"@);
            assert(msg_of_json(json_of_in(m)) == Some(m));
        },
        input::MessageV::LeaseLost => {
            let ps = seq![("action"@, JsonV::Str("leaseLost"@))];
            assert(json_of_in(m) == JsonV::Obj(ps));
            assert(forall|x: int| 0 <= x < ps.len() ==> wf_json((#[trigger] ps[x]).1));
            lemma_wf_pairs_all(ps, 0);
            lemma_lookup_at(ps, 0, "action"@);
            assert(msg_of_json(json_of_in(m)) == Some(m));
        },
        input::MessageV::ShardEnded => {
            let ps = seq![("action"@, JsonV::Str("shardEnded"@))];
            assert(json_of_in(m) == JsonV::Obj(ps));
            assert(forall|x: int| 0 <= x < ps.len() ==> wf_json((#[trigger] ps[x]).1));
            lemma_wf_pairs_all(ps, 0);
            lemma_lookup_at(ps, 0, "action"@);
            assert(msg_of_json(json_of_in(m)) == Some(m));
        },
    }
}

/// Decoding the canonical frame of any inbound message reproduces the
/// message exactly; absent optional members are omitted by construction of
/// the canonical object, never written as nulls.
pub proof fn lemma_decode_encode_in(m: input::MessageV)
    ensures
        spec_decode_in(spec_encode_in(m)) == Some(m),
{
    let j = json_of_in(m);
    lemma_msg_rt(m);
    lemma_parse_ser_json(j);
}

} // verus!
