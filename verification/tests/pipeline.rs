use flowgger::binary::binary_encode;
use flowgger::config::{Config, ConfigValue, FatalError};
use flowgger::gelf::{gelf_decode, gelf_encode};
use flowgger::ltsv::ltsv_decode;
use flowgger::output::ElasticsearchOutput;
use flowgger::queue::{Dequeued, Queue};
use flowgger::record::{Event, FieldValue, Timestamp};
use flowgger::rfc5424::rfc5424_decode;
use flowgger::splitter::{next_delimited, next_octet, split_delimited, split_octet, OctetStep};
use flowgger::{start, DecoderKind, EncoderKind, InputKind, OutputKind};

fn ts(sec: u64, nanos: u32) -> Timestamp {
    Timestamp { neg: false, sec, nanos }
}

#[test]
fn delimiter_splitting_drops_trailing_partial() {
    let frames = split_delimited(b"a\nbb\nccc", 0x0a);
    assert_eq!(frames.len(), 2);
    assert_eq!(frames[0], b"a".to_vec());
    assert_eq!(frames[1], b"bb".to_vec());
}

#[test]
fn delimiter_splitting_incremental() {
    let buf = b"a\nbb\nccc";
    let (f1, p1) = next_delimited(buf, 0, 0x0a).unwrap();
    assert_eq!(f1, b"a".to_vec());
    let (f2, p2) = next_delimited(buf, p1, 0x0a).unwrap();
    assert_eq!(f2, b"bb".to_vec());
    assert!(next_delimited(buf, p2, 0x0a).is_none());
}

#[test]
fn delimiter_splitting_empty_and_exact() {
    assert_eq!(split_delimited(b"", 0x0a).len(), 0);
    let frames = split_delimited(b"x\n", 0x0a);
    assert_eq!(frames.len(), 1);
    assert_eq!(frames[0], b"x".to_vec());
}

#[test]
fn octet_splitting_two_frames() {
    let frames = split_octet(b"5 ab\ncd3 xyz").unwrap();
    assert_eq!(frames.len(), 2);
    assert_eq!(frames[0], b"ab\ncd".to_vec());
    assert_eq!(frames[1], b"xyz".to_vec());
}

#[test]
fn octet_splitting_short_payload_fails() {
    assert!(split_octet(b"5 ab").is_none());
}

#[test]
fn octet_splitting_bad_prefix_fails() {
    assert!(split_octet(b"x5 ab").is_none());
    assert!(split_octet(b"5ab").is_none());
}

#[test]
fn octet_step_needs_more_without_eof() {
    match next_octet(b"5 ab", 0, false) {
        OctetStep::NeedMore => {}
        _ => panic!("expected NeedMore"),
    }
    match next_octet(b"5 ab", 0, true) {
        OctetStep::Malformed => {}
        _ => panic!("expected Malformed"),
    }
    match next_octet(b"", 0, true) {
        OctetStep::End => {}
        _ => panic!("expected End"),
    }
}

#[test]
fn rfc5424_example_decodes() {
    let rec = b"<34>1 2021-10-11T22:14:15.003Z host.example.com su - ID47 - boom";
    let e = rfc5424_decode(rec).unwrap();
    assert_eq!(e.facility, Some(4));
    assert_eq!(e.severity, Some(2));
    assert_eq!(e.host, Some(b"host.example.com".to_vec()));
    assert_eq!(e.appname, Some(b"su".to_vec()));
    assert_eq!(e.procid, None);
    assert_eq!(e.msgid, Some(b"ID47".to_vec()));
    assert_eq!(e.message, b"boom".to_vec());
    assert_eq!(e.extra.len(), 0);
    assert_eq!(e.timestamp, Some(ts(1633990455, 3_000_000)));
}

#[test]
fn rfc5424_structured_data() {
    let rec = b"<13>1 - web01 app 42 - [ex a=\"x\\\"y\" b=\"z\"][m2 c=\"w\"] hi";
    let e = rfc5424_decode(rec).unwrap();
    assert_eq!(e.facility, Some(1));
    assert_eq!(e.severity, Some(5));
    assert_eq!(e.timestamp, None);
    assert_eq!(e.message, b"hi".to_vec());
    assert_eq!(e.extra.len(), 3);
    assert_eq!(e.extra[0].0, b"ex.a".to_vec());
    assert_eq!(e.extra[0].1, FieldValue::Str(b"x\"y".to_vec()));
    assert_eq!(e.extra[1].0, b"ex.b".to_vec());
    assert_eq!(e.extra[1].1, FieldValue::Str(b"z".to_vec()));
    assert_eq!(e.extra[2].0, b"m2.c".to_vec());
    assert_eq!(e.extra[2].1, FieldValue::Str(b"w".to_vec()));
}

#[test]
fn rfc5424_timezone_offset() {
    let rec = b"<34>1 2021-10-11T22:14:15+02:00 h a p m - ok";
    let e = rfc5424_decode(rec).unwrap();
    assert_eq!(e.timestamp, Some(ts(1633983255, 0)));
}

#[test]
fn rfc5424_bad_pri_fails() {
    assert!(rfc5424_decode(b"<192>1 - h a p m - x").is_err());
    assert!(rfc5424_decode(b"34>1 - h a p m - x").is_err());
    assert!(rfc5424_decode(b"<34>1 - h").is_err());
}

#[test]
fn gelf_example_decodes() {
    let rec = br#"{"version":"1.1","host":"h","short_message":"m","timestamp":1.0}"#;
    let e = gelf_decode(rec).unwrap();
    assert_eq!(e.host, Some(b"h".to_vec()));
    assert_eq!(e.message, b"m".to_vec());
    assert_eq!(e.timestamp, Some(ts(1, 0)));
}

#[test]
fn gelf_missing_message_fails() {
    assert!(gelf_decode(br#"{"version":"1.1"}"#).is_err());
}

#[test]
fn gelf_not_an_object_fails() {
    assert!(gelf_decode(b"[1,2]").is_err());
    assert!(gelf_decode(b"ragged").is_err());
}

#[test]
fn gelf_extra_fields_and_level() {
    let rec = br#"{"version":"1.1","short_message":"m","level":3,"_app":"billing","count":7}"#;
    let e = gelf_decode(rec).unwrap();
    assert_eq!(e.severity, Some(3));
    assert_eq!(e.extra.len(), 2);
    assert_eq!(e.extra[0].0, b"app".to_vec());
    assert_eq!(e.extra[0].1, FieldValue::Str(b"billing".to_vec()));
    assert_eq!(e.extra[1].0, b"count".to_vec());
    assert_eq!(e.extra[1].1, FieldValue::Num(b"7".to_vec()));
}

#[test]
fn gelf_bad_level_is_omitted() {
    let rec = br#"{"version":"1.1","short_message":"m","level":99}"#;
    let e = gelf_decode(rec).unwrap();
    assert_eq!(e.severity, None);
}

#[test]
fn gelf_duplicate_key_fails() {
    let rec = br#"{"version":"1.1","short_message":"m","_a":1,"a":2}"#;
    assert!(gelf_decode(rec).is_err());
}

#[test]
fn gelf_encode_exact_bytes() {
    let mut e = Event::empty();
    e.host = Some(b"h".to_vec());
    e.message = b"m".to_vec();
    e.timestamp = Some(ts(1, 0));
    let out = gelf_encode(&e).unwrap();
    assert_eq!(
        out,
        br#"{"version":"1.1","host":"h","short_message":"m","timestamp":1.000000000}"#.to_vec()
    );
}

#[test]
fn gelf_encode_escapes_and_extras() {
    let mut e = Event::empty();
    e.message = b"a\"b\\c\nd".to_vec();
    e.severity = Some(6);
    e.extra.push((b"k".to_vec(), FieldValue::Str(b"v".to_vec())));
    let out = gelf_encode(&e).unwrap();
    assert_eq!(
        out,
        br#"{"version":"1.1","short_message":"a\"b\\c\nd","level":6,"_k":"v"}"#.to_vec()
    );
}

#[test]
fn gelf_encode_bad_number_fails() {
    let mut e = Event::empty();
    e.extra.push((b"k".to_vec(), FieldValue::Num(b"not-a-number".to_vec())));
    assert!(gelf_encode(&e).is_err());
}

#[test]
fn gelf_encode_bad_timestamp_fails() {
    let mut e = Event::empty();
    e.timestamp = Some(Timestamp { neg: false, sec: 0, nanos: 2_000_000_000 });
    assert!(gelf_encode(&e).is_err());
}

#[test]
fn gelf_round_trips_through_decode() {
    let mut e = Event::empty();
    e.host = Some(b"front-01".to_vec());
    e.message = b"payload \"quoted\" with\ttab".to_vec();
    e.timestamp = Some(ts(1633990455, 3_000_000));
    e.severity = Some(2);
    e.extra.push((b"region".to_vec(), FieldValue::Str(b"eu".to_vec())));
    e.extra.push((b"count".to_vec(), FieldValue::Num(b"12.5".to_vec())));
    e.extra.push((b"ok".to_vec(), FieldValue::Bool(true)));
    e.extra.push((b"gone".to_vec(), FieldValue::Null));
    let bytes = gelf_encode(&e).unwrap();
    let d = gelf_decode(&bytes).unwrap();
    assert_eq!(d.host, e.host);
    assert_eq!(d.message, e.message);
    assert_eq!(d.timestamp, e.timestamp);
    assert_eq!(d.severity, e.severity);
    assert_eq!(d.extra, e.extra);
    assert_eq!(d.facility, None);
    assert_eq!(d.appname, None);
}

#[test]
fn ltsv_example_decodes() {
    let rec = b"time:2021-10-11T22:14:15Z\thost:web\tlevel:4\tmessage:done\tuser:alice";
    let e = ltsv_decode(rec).unwrap();
    assert_eq!(e.timestamp, Some(ts(1633990455, 0)));
    assert_eq!(e.host, Some(b"web".to_vec()));
    assert_eq!(e.severity, Some(4));
    assert_eq!(e.message, b"done".to_vec());
    assert_eq!(e.extra.len(), 1);
    assert_eq!(e.extra[0].0, b"user".to_vec());
    assert_eq!(e.extra[0].1, FieldValue::Str(b"alice".to_vec()));
}

#[test]
fn ltsv_pair_without_colon_fails() {
    assert!(ltsv_decode(b"host:web\tnocolon").is_err());
    assert!(ltsv_decode(b"host:a\thost:b").is_err());
}

#[test]
fn binary_encode_exact_bytes() {
    let mut e = Event::empty();
    e.message = b"hi".to_vec();
    e.severity = Some(3);
    let out = binary_encode(&e).unwrap();
    assert_eq!(out, vec![1, 0, 2, b'h', b'i', 4, 0, 1, 3]);
}

#[test]
fn binary_encode_timestamp_and_extra() {
    let mut e = Event::empty();
    e.timestamp = Some(ts(1, 5));
    e.extra.push((b"k".to_vec(), FieldValue::Bool(false)));
    let out = binary_encode(&e).unwrap();
    let mut expected = vec![1, 0, 0];
    expected.extend_from_slice(&[3, 0, 13, 0, 0, 0, 0, 0, 0, 0, 0, 1, 0, 0, 0, 5]);
    expected.extend_from_slice(&[9, 0, 1, b'k', 12, 0, 1, 0]);
    assert_eq!(out, expected);
}

#[test]
fn binary_encode_too_long_fails() {
    let mut e = Event::empty();
    e.message = vec![0x61; 70_000];
    assert!(binary_encode(&e).is_err());
}

#[test]
fn queue_backpressure_capacity_one() {
    let mut q = Queue::new(1);
    assert!(q.try_enqueue(b"one".to_vec()).is_ok());
    let back = q.try_enqueue(b"two".to_vec());
    assert_eq!(back.unwrap_err(), b"two".to_vec());
    match q.dequeue() {
        Dequeued::Item(v) => assert_eq!(v, b"one".to_vec()),
        _ => panic!("expected the queued record"),
    }
    assert!(q.try_enqueue(b"two".to_vec()).is_ok());
}

#[test]
fn queue_fifo_order_and_close() {
    let mut q = Queue::new(8);
    q.try_enqueue(b"a".to_vec()).unwrap();
    q.try_enqueue(b"b".to_vec()).unwrap();
    q.close();
    assert!(q.try_enqueue(b"c".to_vec()).is_err());
    match q.dequeue() {
        Dequeued::Item(v) => assert_eq!(v, b"a".to_vec()),
        _ => panic!("expected a"),
    }
    match q.dequeue() {
        Dequeued::Item(v) => assert_eq!(v, b"b".to_vec()),
        _ => panic!("expected b"),
    }
    match q.dequeue() {
        Dequeued::Closed => {}
        _ => panic!("expected end of stream"),
    }
}

#[test]
fn queue_empty_open_says_wait() {
    let mut q = Queue::new(2);
    match q.dequeue() {
        Dequeued::Empty => {}
        _ => panic!("expected Empty"),
    }
}

#[test]
fn start_defaults() {
    let c = Config::new();
    let p = start(&c).unwrap();
    assert_eq!(p.decoder, DecoderKind::Rfc5424);
    assert_eq!(p.encoder, EncoderKind::Gelf);
    assert_eq!(p.input, InputKind::Tls);
    assert_eq!(p.output, OutputKind::Kafka);
    assert_eq!(p.queue.capacity(), 10_000_000);
    assert_eq!(p.queue.len(), 0);
}

#[test]
fn start_selects_by_name() {
    let mut c = Config::new();
    c.set(b"input.format".to_vec(), ConfigValue::Str(b"gelf".to_vec()));
    c.set(b"input.type".to_vec(), ConfigValue::Str(b"udp".to_vec()));
    c.set(b"output.format".to_vec(), ConfigValue::Str(b"binary".to_vec()));
    c.set(b"output.type".to_vec(), ConfigValue::Str(b"debug".to_vec()));
    c.set(b"input.queuesize".to_vec(), ConfigValue::Int(4));
    let p = start(&c).unwrap();
    assert_eq!(p.decoder, DecoderKind::Gelf);
    assert_eq!(p.input, InputKind::Udp);
    assert_eq!(p.encoder, EncoderKind::Binary);
    assert_eq!(p.output, OutputKind::Debug);
    assert_eq!(p.queue.capacity(), 4);
}

#[test]
fn start_rejects_bad_configuration() {
    let mut c = Config::new();
    c.set(b"input.format".to_vec(), ConfigValue::Str(b"capnp".to_vec()));
    assert!(matches!(start(&c), Err(FatalError::UnknownName(_))));

    let mut c2 = Config::new();
    c2.set(b"input.format".to_vec(), ConfigValue::Int(3));
    assert!(matches!(start(&c2), Err(FatalError::WrongType(_))));

    let mut c3 = Config::new();
    c3.set(b"input.queuesize".to_vec(), ConfigValue::Int(0));
    assert!(matches!(start(&c3), Err(FatalError::BadSize(_))));
}

#[test]
fn elasticsearch_output_requires_keys() {
    let mut c = Config::new();
    assert!(matches!(
        ElasticsearchOutput::new(&c),
        Err(FatalError::MissingKey(_))
    ));
    c.set(
        b"output.elasticsearch_endpoint".to_vec(),
        ConfigValue::Str(b"http://localhost:9200".to_vec()),
    );
    c.set(
        b"output.elasticsearch_index".to_vec(),
        ConfigValue::Str(b"logs".to_vec()),
    );
    let o = ElasticsearchOutput::new(&c).unwrap();
    assert_eq!(o.endpoint, b"http://localhost:9200".to_vec());
    assert_eq!(o.index, b"logs".to_vec());
}

#[test]
fn pipeline_end_to_end_one_record() {
    let mut c = Config::new();
    c.set(b"input.format".to_vec(), ConfigValue::Str(b"rfc5424".to_vec()));
    c.set(b"input.queuesize".to_vec(), ConfigValue::Int(16));
    let mut p = start(&c).unwrap();
    let stream = b"<34>1 - h su - - - boom\n<190>1 - h2 app - - - tail-partial";
    let frames = split_delimited(stream, 0x0a);
    assert_eq!(frames.len(), 1);
    let ev = p.decoder.decode(&frames[0]).unwrap();
    assert_eq!(ev.facility, Some(4));
    let buf = p.encoder.encode(&ev).unwrap();
    assert!(p.queue.try_enqueue(buf.clone()).is_ok());
    match p.queue.dequeue() {
        Dequeued::Item(v) => assert_eq!(v, buf),
        _ => panic!("expected the enqueued buffer"),
    }
}
