use vstd::prelude::*;

use crate::wire::{
    concat, int_field, len_field, opt_bytes_field, opt_str_field, put_bytes, put_int32, put_int64,
    put_opt_bytes, put_opt_string, put_repeated_bytes, put_repeated_strings, put_string,
    put_uint64, repeated_bytes_field, repeated_str_field, str_field, uint_field, MAX_TAG,
};

verus! {

/// Microseconds in one second.
pub const MICROS_PER_SECOND: u64 = 1_000_000;

/// Seconds in one day.
pub const SECONDS_PER_DAY: u64 = 86400;

/// The two time fields of a record, both taken from one clock reading.
#[derive(Clone, Copy, Debug, PartialEq, Eq, Structural)]
pub struct IngestTime {
    /// Microseconds since the Unix epoch.
    pub ingested_at: i64,
    /// Whole days since the Unix epoch.
    pub ingested_date: i32,
}

/// Whether `t` is the pair of time fields of the instant `micros`
/// microseconds after the Unix epoch.
pub open spec fn time_of(micros: int, t: IngestTime) -> bool {
    &&& t.ingested_at == micros
    &&& t.ingested_date == micros / 1_000_000 / 86400
}

/// The time fields of the instant `now_micros` microseconds after the Unix
/// epoch; the date is the whole number of days in the whole seconds.
pub fn ingest_time(now_micros: u64) -> (t: IngestTime)
    requires
        now_micros <= i64::MAX,
    ensures
        time_of(now_micros as int, t),
{
    let seconds = now_micros / MICROS_PER_SECOND;
    let days = seconds / SECONDS_PER_DAY;
    assert(days <= 106751991);
    IngestTime { ingested_at: now_micros as i64, ingested_date: days as i32 }
}

/// One user-defined attribute of a queue message.
#[derive(Clone, Debug, PartialEq, Eq)]
pub struct MessageAttribute {
    pub string_value: Option<String>,
    pub binary_value: Option<Vec<u8>>,
    pub string_list_values: Vec<String>,
    pub binary_list_values: Vec<Vec<u8>>,
    pub data_type: Option<String>,
}

/// A message of a queue batch.
#[derive(Clone, Debug, PartialEq, Eq)]
pub struct QueueMessage {
    pub message_id: Option<String>,
    pub receipt_handle: Option<String>,
    pub body: Option<String>,
    pub md5_of_body: Option<String>,
    pub md5_of_message_attributes: Option<String>,
    /// System attributes, in the order received.
    pub attributes: Vec<(String, String)>,
    /// User-defined attributes, in the order received.
    pub message_attributes: Vec<(String, MessageAttribute)>,
    pub event_source_arn: Option<String>,
    pub aws_region: Option<String>,
}

/// The queue that a batch came from, shared by all its messages.
#[derive(Clone, Debug, PartialEq, Eq)]
pub struct QueueSource {
    pub queue_arn: String,
    pub aws_region: String,
}

/// A generic invocation: its request id, its payload and invocation context
/// as JSON text, and its deadline in milliseconds since the Unix epoch. The
/// deadline field is a signed 64-bit integer; its wire form is the same varint
/// as that of the unsigned value.
#[derive(Clone, Debug, PartialEq, Eq)]
pub struct RequestEvent {
    pub request_id: String,
    pub payload: String,
    pub context: String,
    pub deadline: u64,
}

/// Why a queue message cannot be encoded.
#[derive(Clone, Copy, Debug, PartialEq, Eq, Structural)]
pub enum EncodingError {
    MissingMessageId,
    MissingReceiptHandle,
}

/// A string field that is always encoded: the empty string when missing.
pub open spec fn always_str_field(tag: nat, o: Option<String>) -> Seq<u8> {
    match o {
        Some(s) => str_field(tag, s@),
        None => str_field(tag, Seq::empty()),
    }
}

/// Body of a message attribute.
pub open spec fn attribute_bytes(a: MessageAttribute) -> Seq<u8> {
    opt_str_field(1, a.string_value) + opt_bytes_field(2, a.binary_value) + repeated_str_field(
        3,
        a.string_list_values@,
    ) + repeated_bytes_field(4, a.binary_list_values@) + opt_str_field(5, a.data_type)
}

/// A field that is left out when empty, as map entries leave out default keys
/// and values.
pub open spec fn unless_empty(field: Seq<u8>, empty: bool) -> Seq<u8> {
    if empty {
        Seq::empty()
    } else {
        field
    }
}

/// One entry of a string-to-string map field.
pub open spec fn string_entry(tag: nat, e: (String, String)) -> Seq<u8> {
    len_field(
        tag,
        unless_empty(str_field(1, e.0@), e.0@.len() == 0) + unless_empty(
            str_field(2, e.1@),
            e.1@.len() == 0,
        ),
    )
}

/// One entry of a string-to-attribute map field.
pub open spec fn attribute_entry(tag: nat, e: (String, MessageAttribute)) -> Seq<u8> {
    len_field(
        tag,
        unless_empty(str_field(1, e.0@), e.0@.len() == 0) + unless_empty(
            len_field(2, attribute_bytes(e.1)),
            attribute_bytes(e.1).len() == 0,
        ),
    )
}

pub open spec fn string_map_field(tag: nat, m: Seq<(String, String)>) -> Seq<u8> {
    concat(m.map_values(|e: (String, String)| string_entry(tag, e)))
}

pub open spec fn attribute_map_field(tag: nat, m: Seq<(String, MessageAttribute)>) -> Seq<u8> {
    concat(m.map_values(|e: (String, MessageAttribute)| attribute_entry(tag, e)))
}

/// The record of a queue message: message id (1), receipt handle (2), body
/// (3), body digest (4), attribute digest (5), system attributes (6),
/// user-defined attributes (7), queue (8), region (9), ingestion time (10)
/// and date (11). Body and digests are always present, empty when missing.
pub open spec fn queue_record(m: QueueMessage, src: QueueSource, t: IngestTime) -> Seq<u8> {
    opt_str_field(1, m.message_id) + opt_str_field(2, m.receipt_handle) + always_str_field(3, m.body)
        + always_str_field(4, m.md5_of_body) + always_str_field(5, m.md5_of_message_attributes) + string_map_field(6, m.attributes@) + attribute_map_field(7, m.message_attributes@)
        + str_field(8, src.queue_arn@) + str_field(9, src.aws_region@) + int_field(
        10,
        t.ingested_at as int,
    ) + int_field(11, t.ingested_date as int)
}

/// The record of a generic invocation: request id (1), payload (2), context
/// (3), deadline (4), ingestion time (5) and date (6).
pub open spec fn request_record(e: RequestEvent, t: IngestTime) -> Seq<u8> {
    str_field(1, e.request_id@) + str_field(2, e.payload@) + str_field(3, e.context@) + uint_field(4, e.deadline as nat) + int_field(5, t.ingested_at as int) + int_field(6, t.ingested_date as int)
}

/// The outcome of encoding a queue message: an error exactly when the
/// message id or the receipt handle is missing, the record otherwise.
pub open spec fn queue_encoding(m: QueueMessage, src: QueueSource, t: IngestTime) -> Result<
    Seq<u8>,
    EncodingError,
> {
    if m.message_id is None {
        Err(EncodingError::MissingMessageId)
    } else if m.receipt_handle is None {
        Err(EncodingError::MissingReceiptHandle)
    } else {
        Ok(queue_record(m, src, t))
    }
}

/// Encodes the body of a message attribute.
pub fn encode_attribute(a: &MessageAttribute) -> (r: Vec<u8>)
    ensures
        r@ == attribute_bytes(*a),
{
    let mut buf: Vec<u8> = Vec::new();
    put_opt_string(1, &a.string_value, &mut buf);
    put_opt_bytes(2, &a.binary_value, &mut buf);
    put_repeated_strings(3, &a.string_list_values, &mut buf);
    put_repeated_bytes(4, &a.binary_list_values, &mut buf);
    put_opt_string(5, &a.data_type, &mut buf);
    assert(buf@ =~= attribute_bytes(*a));
    buf
}

/// Appends a string field unless the string is empty.
fn put_nonempty_string(tag: u32, s: &String, buf: &mut Vec<u8>)
    requires
        1 <= tag <= MAX_TAG,
    ensures
        final(buf)@ == old(buf)@ + unless_empty(str_field(tag as nat, s@), s@.len() == 0),
{
    if s.as_str().is_empty() {
        assert(buf@ =~= buf@ + Seq::<u8>::empty());
    } else {
        put_string(tag, s, buf);
    }
}

/// Appends one entry of a string-to-string map field.
fn put_string_entry(tag: u32, e: &(String, String), buf: &mut Vec<u8>)
    requires
        1 <= tag <= MAX_TAG,
    ensures
        final(buf)@ == old(buf)@ + string_entry(tag as nat, *e),
{
    let mut entry: Vec<u8> = Vec::new();
    put_nonempty_string(1, &e.0, &mut entry);
    put_nonempty_string(2, &e.1, &mut entry);
    assert(entry@ =~= unless_empty(str_field(1, e.0@), e.0@.len() == 0) + unless_empty(
        str_field(2, e.1@),
        e.1@.len() == 0,
    ));
    put_bytes(tag, &entry, buf);
}

/// Appends one entry of a string-to-attribute map field.
fn put_attribute_entry(tag: u32, e: &(String, MessageAttribute), buf: &mut Vec<u8>)
    requires
        1 <= tag <= MAX_TAG,
    ensures
        final(buf)@ == old(buf)@ + attribute_entry(tag as nat, *e),
{
    let mut entry: Vec<u8> = Vec::new();
    put_nonempty_string(1, &e.0, &mut entry);
    let value = encode_attribute(&e.1);
    if value.len() == 0 {
        assert(entry@ =~= entry@ + Seq::<u8>::empty());
    } else {
        put_bytes(2, &value, &mut entry);
    }
    assert(entry@ =~= unless_empty(str_field(1, e.0@), e.0@.len() == 0) + unless_empty(
        len_field(2, attribute_bytes(e.1)),
        attribute_bytes(e.1).len() == 0,
    ));
    put_bytes(tag, &entry, buf);
}

/// Appends a string-to-string map field, one entry per pair, in order.
pub fn put_string_map(tag: u32, m: &Vec<(String, String)>, buf: &mut Vec<u8>)
    requires
        1 <= tag <= MAX_TAG,
    ensures
        final(buf)@ == old(buf)@ + string_map_field(tag as nat, m@),
{
    let ghost start = buf@;
    let mut i: usize = 0;
    while i < m.len()
        invariant
            1 <= tag <= MAX_TAG,
            i <= m@.len(),
            buf@ == start + string_map_field(tag as nat, m@.subrange(0, i as int)),
        decreases m@.len() - i,
    {
        put_string_entry(tag, &m[i], buf);
        proof {
            let f = |e: (String, String)| string_entry(tag as nat, e);
            assert(m@.subrange(0, i + 1).map_values(f).drop_last() =~= m@.subrange(0, i as int).map_values(f));
        }
        i = i + 1;
        assert(buf@ =~= start + string_map_field(tag as nat, m@.subrange(0, i as int)));
    }
    assert(m@.subrange(0, i as int) =~= m@);
}

/// Appends a string-to-attribute map field, one entry per pair, in order.
pub fn put_attribute_map(tag: u32, m: &Vec<(String, MessageAttribute)>, buf: &mut Vec<u8>)
    requires
        1 <= tag <= MAX_TAG,
    ensures
        final(buf)@ == old(buf)@ + attribute_map_field(tag as nat, m@),
{
    let ghost start = buf@;
    let mut i: usize = 0;
    while i < m.len()
        invariant
            1 <= tag <= MAX_TAG,
            i <= m@.len(),
            buf@ == start + attribute_map_field(tag as nat, m@.subrange(0, i as int)),
        decreases m@.len() - i,
    {
        put_attribute_entry(tag, &m[i], buf);
        proof {
            let f = |e: (String, MessageAttribute)| attribute_entry(tag as nat, e);
            assert(m@.subrange(0, i + 1).map_values(f).drop_last() =~= m@.subrange(0, i as int).map_values(f));
        }
        i = i + 1;
        assert(buf@ =~= start + attribute_map_field(tag as nat, m@.subrange(0, i as int)));
    }
    assert(m@.subrange(0, i as int) =~= m@);
}

/// Appends a string field that is always present: the empty string when missing.
fn put_always_string(tag: u32, o: &Option<String>, buf: &mut Vec<u8>)
    requires
        1 <= tag <= MAX_TAG,
    ensures
        final(buf)@ == old(buf)@ + always_str_field(tag as nat, *o),
{
    match o {
        Some(s) => put_string(tag, s, buf),
        None => {
            let empty = String::new();
            put_string(tag, &empty, buf);
        },
    }
}

/// Encodes a queue message, from the queue `src`, at the time `t`. Fails
/// when the message id or the receipt handle is missing; the result is
/// otherwise a function of the three arguments alone.
pub fn encode_queue_message(m: &QueueMessage, src: &QueueSource, t: IngestTime) -> (r: Result<
    Vec<u8>,
    EncodingError,
>)
    ensures
        match (r, queue_encoding(*m, *src, t)) {
            (Ok(b), Ok(s)) => b@ == s,
            (Err(e), Err(f)) => e == f,
            _ => false,
        },
{
    if m.message_id.is_none() {
        return Err(EncodingError::MissingMessageId);
    }
    if m.receipt_handle.is_none() {
        return Err(EncodingError::MissingReceiptHandle);
    }
    let mut buf: Vec<u8> = Vec::new();
    put_opt_string(1, &m.message_id, &mut buf);
    put_opt_string(2, &m.receipt_handle, &mut buf);
    put_always_string(3, &m.body, &mut buf);
    put_always_string(4, &m.md5_of_body, &mut buf);
    put_always_string(5, &m.md5_of_message_attributes, &mut buf);
    put_string_map(6, &m.attributes, &mut buf);
    put_attribute_map(7, &m.message_attributes, &mut buf);
    put_string(8, &src.queue_arn, &mut buf);
    put_string(9, &src.aws_region, &mut buf);
    put_int64(10, t.ingested_at, &mut buf);
    put_int32(11, t.ingested_date, &mut buf);
    assert(buf@ =~= queue_record(*m, *src, t));
    Ok(buf)
}

/// Encodes a generic invocation at the time `t`.
pub fn encode_request_event(e: &RequestEvent, t: IngestTime) -> (r: Vec<u8>)
    ensures
        r@ == request_record(*e, t),
{
    let mut buf: Vec<u8> = Vec::new();
    put_string(1, &e.request_id, &mut buf);
    put_string(2, &e.payload, &mut buf);
    put_string(3, &e.context, &mut buf);
    put_uint64(4, e.deadline, &mut buf);
    put_int64(5, t.ingested_at, &mut buf);
    put_int32(6, t.ingested_date, &mut buf);
    assert(buf@ =~= request_record(*e, t));
    buf
}

/// Encoding is deterministic and its two time fields agree: two records of
/// one message from one queue, stamped from the same clock reading, are the
/// same bytes (the same error when the message cannot be encoded), and the
/// date is the whole days in the whole seconds of the time field.
pub proof fn lemma_encoding_deterministic(
    m: QueueMessage,
    src: QueueSource,
    e: RequestEvent,
    micros: int,
    t1: IngestTime,
    t2: IngestTime,
)
    requires
        time_of(micros, t1),
        time_of(micros, t2),
    ensures
        queue_encoding(m, src, t1) == queue_encoding(m, src, t2),
        request_record(e, t1) == request_record(e, t2),
        t1.ingested_date == t1.ingested_at / 1_000_000 / 86400,
{
    assert(t1 == t2);
}

/// Copies the system attributes of a message, keeping their order.
pub fn convert_attributes(attrs: &Vec<(String, String)>) -> (r: Vec<(String, String)>)
    ensures
        r@ == attrs@,
{
    let mut r: Vec<(String, String)> = Vec::new();
    let mut i: usize = 0;
    while i < attrs.len()
        invariant
            i <= attrs@.len(),
            r@ == attrs@.subrange(0, i as int),
        decreases attrs@.len() - i,
    {
        let k = attrs[i].0.clone();
        let v = attrs[i].1.clone();
        r.push((k, v));
        i = i + 1;
        assert(r@ =~= attrs@.subrange(0, i as int));
    }
    assert(attrs@.subrange(0, i as int) =~= attrs@);
    r
}

/// The text of `o`, or the empty string when missing.
pub open spec fn text_or_empty(o: Option<String>) -> Seq<char> {
    match o {
        Some(s) => s@,
        None => Seq::empty(),
    }
}

fn string_or_empty(o: &Option<String>) -> (r: String)
    ensures
        r@ == text_or_empty(*o),
{
    match o {
        Some(s) => s.clone(),
        None => String::new(),
    }
}

/// The identifier of each message of a batch, empty where it is missing:
/// what the partial-failure response names.
pub fn batch_item_ids(msgs: &Vec<QueueMessage>) -> (r: Vec<String>)
    ensures
        r@.len() == msgs@.len(),
        forall|k: int| 0 <= k < msgs@.len() ==> #[trigger] r@[k]@ == text_or_empty(msgs@[k].message_id),
{
    let mut r: Vec<String> = Vec::new();
    let mut i: usize = 0;
    while i < msgs.len()
        invariant
            i <= msgs@.len(),
            r@.len() == i,
            forall|k: int| 0 <= k < i ==> #[trigger] r@[k]@ == text_or_empty(msgs@[k].message_id),
        decreases msgs@.len() - i,
    {
        let id = string_or_empty(&msgs[i].message_id);
        r.push(id);
        i = i + 1;
    }
    r
}

/// The queue of a batch, read from its first message (all messages of a batch
/// come from one queue); empty fields where missing or when the batch is empty.
pub fn batch_source(msgs: &Vec<QueueMessage>) -> (r: QueueSource)
    ensures
        msgs@.len() == 0 ==> r.queue_arn@.len() == 0 && r.aws_region@.len() == 0,
        msgs@.len() > 0 ==> r.queue_arn@ == text_or_empty(msgs@[0].event_source_arn)
            && r.aws_region@ == text_or_empty(msgs@[0].aws_region),
{
    if msgs.len() == 0 {
        QueueSource { queue_arn: String::new(), aws_region: String::new() }
    } else {
        QueueSource {
            queue_arn: string_or_empty(&msgs[0].event_source_arn),
            aws_region: string_or_empty(&msgs[0].aws_region),
        }
    }
}

} // verus!
