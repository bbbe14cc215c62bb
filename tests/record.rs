use zerobus_ingest::record::{
    batch_item_ids, batch_source, convert_attributes, encode_attribute, encode_queue_message,
    encode_request_event, ingest_time, EncodingError, IngestTime, MessageAttribute, QueueMessage,
    QueueSource, RequestEvent,
};

fn message(id: Option<&str>, receipt: Option<&str>) -> QueueMessage {
    QueueMessage {
        message_id: id.map(|s| s.to_string()),
        receipt_handle: receipt.map(|s| s.to_string()),
        body: None,
        md5_of_body: None,
        md5_of_message_attributes: None,
        attributes: Vec::new(),
        message_attributes: Vec::new(),
        event_source_arn: Some("arn:q".to_string()),
        aws_region: Some("eu".to_string()),
    }
}

fn source() -> QueueSource {
    QueueSource { queue_arn: "q".to_string(), aws_region: "r".to_string() }
}

#[test]
fn ingest_time_derives_date_from_same_instant() {
    let t = ingest_time(86_400_000_005);
    assert_eq!(t, IngestTime { ingested_at: 86_400_000_005, ingested_date: 1 });
    let t = ingest_time(86_399_999_999);
    assert_eq!(t.ingested_date, 0);
    assert_eq!(ingest_time(0), IngestTime { ingested_at: 0, ingested_date: 0 });
    let t = ingest_time(i64::MAX as u64);
    assert_eq!(t.ingested_at, i64::MAX);
    assert_eq!(t.ingested_date, 106_751_991);
}

#[test]
fn request_event_encodes_exactly() {
    let e = RequestEvent {
        request_id: "r1".to_string(),
        payload: "{}".to_string(),
        context: "c".to_string(),
        deadline: 300,
    };
    let bytes = encode_request_event(&e, ingest_time(86_400_000_005));
    let expected: Vec<u8> = vec![
        0x0A, 2, b'r', b'1', 0x12, 2, b'{', b'}', 0x1A, 1, b'c', 0x20, 0xAC, 0x02, 0x28, 0x85,
        0xC0, 0xDD, 0xEE, 0xC1, 0x02, 0x30, 0x01,
    ];
    assert_eq!(bytes, expected);
}

#[test]
fn encoding_is_deterministic() {
    let t = ingest_time(1_700_000_000_000_000);
    let m = message(Some("id"), Some("rh"));
    assert_eq!(encode_queue_message(&m, &source(), t), encode_queue_message(&m, &source(), t));
}

#[test]
fn queue_message_encodes_exactly() {
    let mut m = message(Some("i"), Some("h"));
    m.body = Some("b".to_string());
    m.attributes = vec![("k".to_string(), "v".to_string()), ("e".to_string(), String::new())];
    m.message_attributes = vec![(
        "a".to_string(),
        MessageAttribute {
            string_value: None,
            binary_value: Some(vec![7]),
            string_list_values: Vec::new(),
            binary_list_values: Vec::new(),
            data_type: Some("B".to_string()),
        },
    )];
    let t = IngestTime { ingested_at: 5, ingested_date: 0 };
    let bytes = encode_queue_message(&m, &source(), t).unwrap();
    let expected: Vec<u8> = vec![
        0x0A, 1, b'i', // message id
        0x12, 1, b'h', // receipt handle
        0x1A, 1, b'b', // body
        0x22, 0, // body digest, empty
        0x2A, 0, // attribute digest, empty
        0x32, 6, 0x0A, 1, b'k', 0x12, 1, b'v', // attribute k = v
        0x32, 3, 0x0A, 1, b'e', // attribute e, empty value left out
        0x3A, 11, 0x0A, 1, b'a', 0x12, 6, 0x12, 1, 7, 0x2A, 1, b'B', // attribute a
        0x42, 1, b'q', // queue
        0x4A, 1, b'r', // region
        0x50, 5, // ingested_at
        0x58, 0, // ingested_date
    ];
    assert_eq!(bytes, expected);
}

#[test]
fn missing_message_id_is_an_encoding_error() {
    let t = ingest_time(1);
    assert_eq!(
        encode_queue_message(&message(None, Some("h")), &source(), t),
        Err(EncodingError::MissingMessageId)
    );
    assert_eq!(
        encode_queue_message(&message(None, None), &source(), t),
        Err(EncodingError::MissingMessageId)
    );
}

#[test]
fn missing_receipt_handle_is_an_encoding_error() {
    let t = ingest_time(1);
    assert_eq!(
        encode_queue_message(&message(Some("i"), None), &source(), t),
        Err(EncodingError::MissingReceiptHandle)
    );
}

#[test]
fn long_strings_get_multi_byte_lengths() {
    let a = MessageAttribute {
        string_value: Some("x".repeat(200)),
        binary_value: None,
        string_list_values: vec!["é".to_string()],
        binary_list_values: vec![Vec::new()],
        data_type: None,
    };
    let bytes = encode_attribute(&a);
    assert_eq!(&bytes[..3], &[0x0A, 0xC8, 0x01]);
    assert_eq!(bytes.len(), 3 + 200 + 4 + 2);
    assert_eq!(&bytes[203..], &[0x1A, 2, 0xC3, 0xA9, 0x22, 0]);
}

#[test]
fn default_attribute_encodes_to_nothing() {
    let a = MessageAttribute {
        string_value: None,
        binary_value: None,
        string_list_values: Vec::new(),
        binary_list_values: Vec::new(),
        data_type: None,
    };
    assert!(encode_attribute(&a).is_empty());
}

#[test]
fn attributes_are_copied_in_order() {
    let attrs = vec![("b".to_string(), "2".to_string()), ("a".to_string(), "1".to_string())];
    assert_eq!(convert_attributes(&attrs), attrs);
    assert!(convert_attributes(&Vec::new()).is_empty());
}

#[test]
fn batch_ids_and_source_come_from_messages() {
    let msgs = vec![message(Some("m1"), Some("h")), message(None, Some("h"))];
    assert_eq!(batch_item_ids(&msgs), vec!["m1".to_string(), String::new()]);
    assert_eq!(batch_source(&msgs), QueueSource { queue_arn: "arn:q".to_string(), aws_region: "eu".to_string() });
    assert_eq!(batch_source(&Vec::new()), QueueSource { queue_arn: String::new(), aws_region: String::new() });
}
