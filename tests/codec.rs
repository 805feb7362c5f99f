use stlog::codec::encode_record;
use stlog::{
    add_log_line_spec, decode_chunk, CallSiteRegistry, DecodeCorruption, LogLevel, LogLineSpec, LogRecord, Loggable,
    LoggedValue, RawFunc,
};

fn table(arities: &[usize]) -> Vec<RawFunc> {
    let mut reg = CallSiteRegistry::new();
    for a in arities {
        let spec = LogLineSpec { level: LogLevel::INFO, fmt: "", log_ident: "t", fmt_fn: Some(RawFunc::new(*a)) };
        add_log_line_spec(&mut reg, spec);
    }
    reg.freeze().unwrap()
}

fn round_trip(v: Loggable) -> (Vec<u8>, Vec<LogRecord>) {
    let bytes = encode_record(0, &[v]);
    let recs = decode_chunk(&bytes, &table(&[1])).expect("decodes");
    (bytes, recs)
}

#[test]
fn it_works() {}

#[test]
fn i64_round_trip_is_exact() {
    let (bytes, recs) = round_trip(Loggable::I64(-42));
    assert_eq!(bytes.len(), 4 + 4 + 8);
    assert_eq!(recs, vec![LogRecord { site: 0, args: vec![LoggedValue::I64(-42)] }]);
}

#[test]
fn i64_extremes_round_trip() {
    for x in [i64::MIN, -1, 0, 1, i64::MAX] {
        let (_, recs) = round_trip(Loggable::I64(x));
        assert_eq!(recs[0].args, vec![LoggedValue::I64(x)]);
    }
}

#[test]
fn f64_round_trip_keeps_the_bits() {
    for x in [0.0f64, -0.0, 5.5, f64::MAX, f64::MIN_POSITIVE, f64::INFINITY] {
        let (bytes, recs) = round_trip(Loggable::F64(x.to_bits()));
        assert_eq!(bytes.len(), 16);
        match &recs[0].args[0] {
            LoggedValue::F64(b) => assert_eq!(f64::from_bits(*b).to_bits(), x.to_bits()),
            other => panic!("unexpected {:?}", other),
        }
    }
}

#[test]
fn empty_text_round_trip() {
    let (bytes, recs) = round_trip(Loggable::Str(""));
    assert_eq!(bytes.len(), 4 + 4 + 8);
    assert_eq!(recs[0].args, vec![LoggedValue::Str(String::new())]);
}

#[test]
fn long_text_round_trip() {
    let text: String = "é-long-text ".repeat(30);
    assert!(text.len() > 255);
    let (bytes, recs) = round_trip(Loggable::Str(&text));
    assert_eq!(bytes.len(), 4 + 4 + 8 + text.len());
    assert_eq!(recs[0].args, vec![LoggedValue::Str(text.clone())]);
}

#[test]
fn record_layout_is_little_endian_fixed_width() {
    let bytes = encode_record(1, &[Loggable::I64(42)]);
    assert_eq!(bytes, vec![1, 0, 0, 0, 0, 0, 0, 0, 42, 0, 0, 0, 0, 0, 0, 0]);
    let bytes = encode_record(2, &[Loggable::Str("ab")]);
    assert_eq!(bytes, vec![2, 0, 0, 0, 2, 0, 0, 0, 2, 0, 0, 0, 0, 0, 0, 0, b'a', b'b']);
    let bytes = encode_record(3, &[Loggable::F64(1.0f64.to_bits())]);
    let mut want = vec![3, 0, 0, 0, 1, 0, 0, 0];
    want.extend_from_slice(&1.0f64.to_bits().to_le_bytes());
    assert_eq!(bytes, want);
}

#[test]
fn record_without_arguments_is_its_id() {
    let bytes = encode_record(7, &[]);
    assert_eq!(bytes, vec![7, 0, 0, 0]);
    let recs = decode_chunk(&bytes, &table(&[0, 0, 0, 0, 0, 0, 0, 0])).unwrap();
    assert_eq!(recs, vec![LogRecord { site: 7, args: vec![] }]);
}

#[test]
fn records_in_a_row_decode_in_order() {
    let mut bytes = Vec::new();
    for i in 0..10i64 {
        bytes.extend(encode_record(0, &[Loggable::I64(i), Loggable::Str("x")]));
        bytes.extend(encode_record(1, &[]));
    }
    let recs = decode_chunk(&bytes, &table(&[2, 0])).unwrap();
    assert_eq!(recs.len(), 20);
    for i in 0..10usize {
        assert_eq!(
            recs[2 * i],
            LogRecord {
                site: 0,
                args: vec![LoggedValue::I64(i as i64), LoggedValue::Str("x".to_string())]
            }
        );
        assert_eq!(recs[2 * i + 1], LogRecord { site: 1, args: vec![] });
    }
}

#[test]
fn empty_chunk_decodes_to_nothing() {
    assert_eq!(decode_chunk(&[], &table(&[1])).unwrap(), vec![]);
}

#[test]
fn unknown_site_is_reported() {
    let bytes = encode_record(3, &[]);
    assert_eq!(decode_chunk(&bytes, &table(&[0, 0])), Err(DecodeCorruption::UnknownCallSite));
}

#[test]
fn truncated_record_is_malformed() {
    let bytes = encode_record(0, &[Loggable::I64(5)]);
    let cut = &bytes[..bytes.len() - 1];
    assert_eq!(decode_chunk(cut, &table(&[1])), Err(DecodeCorruption::MalformedPayload));
    assert_eq!(decode_chunk(&bytes[..2], &table(&[1])), Err(DecodeCorruption::MalformedPayload));
}

#[test]
fn unknown_tag_is_malformed() {
    let bytes = vec![0, 0, 0, 0, 9, 0, 0, 0, 0, 0, 0, 0, 0, 0, 0, 0];
    assert_eq!(decode_chunk(&bytes, &table(&[1])), Err(DecodeCorruption::MalformedPayload));
}

#[test]
fn invalid_utf8_is_malformed() {
    let bytes = vec![0, 0, 0, 0, 2, 0, 0, 0, 1, 0, 0, 0, 0, 0, 0, 0, 0xff];
    assert_eq!(decode_chunk(&bytes, &table(&[1])), Err(DecodeCorruption::MalformedPayload));
}

#[test]
fn decoder_measures_one_record() {
    let mut bytes = encode_record(0, &[Loggable::I64(1), Loggable::Str("hey")]);
    let len = bytes.len();
    bytes.extend(encode_record(0, &[Loggable::I64(2), Loggable::Str("")]));
    let fns = table(&[2]);
    let (args, n) = fns[0].invoke(&bytes).unwrap();
    assert_eq!(n, len);
    assert_eq!(args, vec![LoggedValue::I64(1), LoggedValue::Str("hey".to_string())]);
    assert_eq!(fns[0].arg_count(), 2);
    assert_eq!(fns[0].site_id(), Some(0));
}

#[test]
fn decoder_refuses_another_sites_record() {
    let fns = table(&[1, 1]);
    let bytes = encode_record(1, &[Loggable::I64(3)]);
    assert_eq!(fns[0].invoke(&bytes), None);
    assert!(fns[1].invoke(&bytes).is_some());
}

#[test]
fn unregistered_decoder_refuses_every_record() {
    let bytes = encode_record(0, &[Loggable::I64(3)]);
    assert_eq!(RawFunc::new(1).site_id(), None);
    assert_eq!(RawFunc::new(1).invoke(&bytes), None);
}

#[test]
fn chunk_with_decoder_of_wrong_site_is_malformed() {
    let mut fns = table(&[1, 1]);
    fns.swap(0, 1);
    let bytes = encode_record(0, &[Loggable::I64(3)]);
    assert_eq!(decode_chunk(&bytes, &fns), Err(DecodeCorruption::MalformedPayload));
}

#[test]
fn conversions_into_loggable() {
    assert_eq!(Loggable::from(7i64), Loggable::I64(7));
    assert_eq!(Loggable::from("t"), Loggable::Str("t"));
}
