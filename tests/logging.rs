use std::sync::mpsc::channel;
use stlog::level::admits;
use stlog::{
    add_log_line_spec, drain_reader, get_log_level, log_record, set_log_level, CallSiteRegistry, Consumer,
    register_call_site, DecodeCorruption, FreezeError, LogLevel, LogLevelGate, LogLineSpec, LogOutcome, LogRecord,
    Loggable, LoggedValue, OverflowReports, RawFunc, RegistrationError, SiteSlot, TLSWrapper,
};

fn site(level: LogLevel, fmt: &'static str, arity: usize) -> LogLineSpec {
    LogLineSpec { level, fmt, log_ident: "logident_test", fmt_fn: Some(RawFunc::new(arity)) }
}

fn decoders(arities: &[usize]) -> Vec<RawFunc> {
    let mut reg = CallSiteRegistry::new();
    for a in arities {
        add_log_line_spec(&mut reg, site(LogLevel::INFO, "", *a));
    }
    reg.freeze().unwrap()
}

#[test]
fn levels_are_ordered() {
    let all = [LogLevel::DEBUG, LogLevel::INFO, LogLevel::WARN, LogLevel::ERROR];
    for (i, a) in all.iter().enumerate() {
        assert_eq!(a.code() as usize, i);
        assert_eq!(LogLevel::from_code(i as u8), Some(*a));
        for (j, b) in all.iter().enumerate() {
            assert_eq!(a.at_least(*b), i >= j);
            assert_eq!(admits(*a, *b), i >= j);
        }
    }
    assert_eq!(LogLevel::from_code(4), None);
}

#[test]
fn gate_starts_at_debug_and_follows_sets() {
    let gate = LogLevelGate::new();
    assert_eq!(get_log_level(&gate), LogLevel::DEBUG);
    set_log_level(&gate, LogLevel::WARN);
    assert_eq!(get_log_level(&gate), LogLevel::WARN);
    set_log_level(&gate, LogLevel::ERROR);
    assert_eq!(get_log_level(&gate), LogLevel::ERROR);
}

#[test]
fn registration_hands_out_dense_ids() {
    let mut reg = CallSiteRegistry::new();
    for i in 0..50usize {
        assert_eq!(add_log_line_spec(&mut reg, site(LogLevel::INFO, "x {}", 1)), i);
    }
    assert_eq!(reg.len(), 50);
}

#[test]
fn freezing_takes_the_decoders_once() {
    let mut reg = CallSiteRegistry::new();
    add_log_line_spec(&mut reg, site(LogLevel::INFO, "a {}", 1));
    add_log_line_spec(&mut reg, site(LogLevel::WARN, "b {} {}", 2));
    let fns = reg.freeze().unwrap();
    assert_eq!(fns.iter().map(|f| f.arg_count()).collect::<Vec<_>>(), vec![1, 2]);
    assert!(matches!(reg.freeze(), Err(FreezeError::MissingDecoder(0))));
}

#[test]
fn freezing_fails_on_a_site_without_decoder() {
    let mut reg = CallSiteRegistry::new();
    add_log_line_spec(&mut reg, site(LogLevel::INFO, "a", 0));
    add_log_line_spec(&mut reg, LogLineSpec { level: LogLevel::INFO, fmt: "b", log_ident: "b", fmt_fn: None });
    assert!(matches!(reg.freeze(), Err(FreezeError::MissingDecoder(1))));
    assert!(reg.freeze().is_err());
}

#[test]
fn written_records_come_back_in_order() {
    let (w, mut r) = cueue::cueue::<u8>(1 << 16).unwrap();
    let mut tls = TLSWrapper::new(w);
    let fns = decoders(&[1]);
    for i in 0..100i64 {
        assert!(matches!(tls.log(LogLevel::DEBUG, LogLevel::INFO, 0, &[Loggable::I64(i)]), LogOutcome::Written(16)));
    }
    let d = drain_reader(&mut r, &fns).unwrap();
    assert_eq!(d.bytes, 1600);
    assert!(!d.finished);
    let got: Vec<i64> = d
        .records
        .iter()
        .map(|rec| match rec.args[0] {
            LoggedValue::I64(x) => x,
            _ => panic!("wrong kind"),
        })
        .collect();
    assert_eq!(got, (0..100).collect::<Vec<i64>>());
}

#[test]
fn level_gate_filters_below_warn() {
    let gate = LogLevelGate::new();
    set_log_level(&gate, LogLevel::WARN);
    let (w, mut r) = cueue::cueue::<u8>(1 << 16).unwrap();
    let mut tls = TLSWrapper::new(w);
    let fns = decoders(&[1, 1, 1]);
    let level = get_log_level(&gate);
    assert_eq!(tls.log(level, LogLevel::INFO, 0, &[Loggable::I64(1)]), LogOutcome::Filtered);
    assert!(matches!(tls.log(level, LogLevel::WARN, 1, &[Loggable::I64(2)]), LogOutcome::Written(_)));
    assert!(matches!(tls.log(level, LogLevel::ERROR, 2, &[Loggable::I64(3)]), LogOutcome::Written(_)));
    let d = drain_reader(&mut r, &fns).unwrap();
    assert_eq!(
        d.records,
        vec![
            LogRecord { site: 1, args: vec![LoggedValue::I64(2)] },
            LogRecord { site: 2, args: vec![LoggedValue::I64(3)] },
        ]
    );
}

#[test]
fn scenario_three_sites_gate_info() {
    let mut reg = CallSiteRegistry::new();
    assert_eq!(add_log_line_spec(&mut reg, site(LogLevel::DEBUG, "zero", 0)), 0);
    assert_eq!(add_log_line_spec(&mut reg, site(LogLevel::INFO, "one {}", 1)), 1);
    assert_eq!(add_log_line_spec(&mut reg, site(LogLevel::ERROR, "two {}", 1)), 2);
    let fns = reg.freeze().unwrap();
    let gate = LogLevelGate::new();
    set_log_level(&gate, LogLevel::INFO);
    let (w, mut r) = cueue::cueue::<u8>(1 << 16).unwrap();
    let mut tls = TLSWrapper::new(w);
    let g = get_log_level(&gate);
    assert_eq!(tls.log(g, LogLevel::DEBUG, 0, &[]), LogOutcome::Filtered);
    tls.log(g, LogLevel::INFO, 1, &[Loggable::I64(42)]);
    tls.log(g, LogLevel::ERROR, 2, &[Loggable::Str("boom")]);
    let d = drain_reader(&mut r, &fns).unwrap();
    assert_eq!(
        d.records,
        vec![
            LogRecord { site: 1, args: vec![LoggedValue::I64(42)] },
            LogRecord { site: 2, args: vec![LoggedValue::Str("boom".to_string())] },
        ]
    );
}

#[test]
fn abandoned_queue_is_drained_before_it_is_finished() {
    let (w, mut r) = cueue::cueue::<u8>(1 << 16).unwrap();
    let mut tls = TLSWrapper::new(w);
    let fns = decoders(&[1]);
    for i in 0..5i64 {
        tls.log(LogLevel::DEBUG, LogLevel::INFO, 0, &[Loggable::I64(i)]);
    }
    drop(tls);
    let d = drain_reader(&mut r, &fns).unwrap();
    assert_eq!(d.records.len(), 5);
    assert_eq!(d.bytes, 80);
    assert!(!d.finished);
    let d = drain_reader(&mut r, &fns).unwrap();
    assert_eq!(d.bytes, 0);
    assert!(d.finished);
}

#[test]
fn live_queue_that_is_empty_is_not_finished() {
    let (w, mut r) = cueue::cueue::<u8>(1 << 16).unwrap();
    let fns = decoders(&[1]);
    let d = drain_reader(&mut r, &fns).unwrap();
    assert_eq!(d.bytes, 0);
    assert!(!d.finished);
    drop(w);
}

#[test]
fn oversized_record_is_dropped_and_reported_once() {
    let (w, mut r) = cueue::cueue::<u8>(1).unwrap();
    let cap = w.capacity();
    let mut tls = TLSWrapper::new(w);
    let mut reports = OverflowReports::new();
    let big = "x".repeat(cap);
    match tls.log(LogLevel::DEBUG, LogLevel::INFO, 0, &[Loggable::Str(&big)]) {
        LogOutcome::Dropped(overflow) => {
            assert_eq!(overflow.needed, 4 + 4 + 8 + cap);
            assert_eq!(overflow.available, cap);
            assert!(reports.first_drop(0));
        }
        other => panic!("unexpected {:?}", other),
    }
    assert!(matches!(tls.log(LogLevel::DEBUG, LogLevel::INFO, 0, &[Loggable::Str(&big)]), LogOutcome::Dropped(_)));
    assert!(!reports.first_drop(0));
    assert!(matches!(tls.log(LogLevel::DEBUG, LogLevel::INFO, 1, &[Loggable::Str(&big)]), LogOutcome::Dropped(_)));
    assert!(reports.first_drop(1));
    assert!(!reports.first_drop(1));
    assert!(matches!(tls.log(LogLevel::DEBUG, LogLevel::INFO, 0, &[Loggable::I64(1)]), LogOutcome::Written(16)));
    let d = drain_reader(&mut r, &decoders(&[1])).unwrap();
    assert_eq!(d.records, vec![LogRecord { site: 0, args: vec![LoggedValue::I64(1)] }]);
}

#[test]
fn log_record_reports_free_space() {
    let (mut w, _r) = cueue::cueue::<u8>(1).unwrap();
    let cap = w.capacity();
    assert_eq!(log_record(&mut w, 0, &[Loggable::I64(1)]), Ok(16));
    let big = "y".repeat(cap);
    let e = log_record(&mut w, 0, &[Loggable::Str(&big)]).unwrap_err();
    assert_eq!(e.available, cap - 16);
}

#[test]
fn two_producers_thousand_records_each() {
    let mut reg = CallSiteRegistry::new();
    add_log_line_spec(&mut reg, site(LogLevel::INFO, "a {}", 1));
    add_log_line_spec(&mut reg, site(LogLevel::INFO, "b {}", 1));
    let (tx, rx) = channel();
    let mut consumer = Consumer::new(&mut reg, rx).unwrap();
    let (wa, ra) = cueue::cueue::<u8>(1 << 16).unwrap();
    let (wb, rb) = cueue::cueue::<u8>(1 << 16).unwrap();
    tx.send(ra).unwrap();
    tx.send(rb).unwrap();
    let mut a = TLSWrapper::new(wa);
    let mut b = TLSWrapper::new(wb);
    let mut seen: Vec<LogRecord> = Vec::new();
    for i in 0..1000i64 {
        a.log(LogLevel::DEBUG, LogLevel::INFO, 0, &[Loggable::I64(i)]);
        b.log(LogLevel::DEBUG, LogLevel::INFO, 1, &[Loggable::I64(i)]);
        if i % 100 == 0 {
            seen.extend(consumer.sweep().unwrap().records);
        }
    }
    drop(a);
    drop(b);
    let mut sweeps = 0;
    while consumer.live_handles() > 0 {
        seen.extend(consumer.sweep().unwrap().records);
        sweeps += 1;
        assert!(sweeps < 10);
    }
    assert_eq!(seen.len(), 2000);
    for s in 0..2usize {
        let vals: Vec<LoggedValue> = seen.iter().filter(|r| r.site == s).map(|r| r.args[0].clone()).collect();
        assert_eq!(vals, (0..1000).map(LoggedValue::I64).collect::<Vec<_>>());
    }
}

#[test]
fn consumer_polls_the_directory_every_sixty_fourth_sweep() {
    let mut reg = CallSiteRegistry::new();
    add_log_line_spec(&mut reg, site(LogLevel::INFO, "a", 0));
    let (tx, rx) = channel();
    let mut consumer = Consumer::new(&mut reg, rx).unwrap();
    let first = consumer.sweep().unwrap();
    assert_eq!(first.joined, 0);
    let (_w, r) = cueue::cueue::<u8>(1).unwrap();
    tx.send(r).unwrap();
    for _ in 1..64 {
        assert_eq!(consumer.sweep().unwrap().joined, 0);
        assert_eq!(consumer.live_handles(), 0);
    }
    let rep = consumer.sweep().unwrap();
    assert_eq!(rep.joined, 1);
    assert_eq!(consumer.live_handles(), 1);
}

#[test]
fn consumer_stops_on_corrupt_chunk() {
    let mut reg = CallSiteRegistry::new();
    add_log_line_spec(&mut reg, site(LogLevel::INFO, "a", 0));
    let (tx, rx) = channel();
    let mut consumer = Consumer::new(&mut reg, rx).unwrap();
    let (mut w, r) = cueue::cueue::<u8>(1).unwrap();
    tx.send(r).unwrap();
    log_record(&mut w, 5, &[]).unwrap();
    assert_eq!(consumer.sweep().unwrap().joined, 1);
    assert!(consumer.sweep().is_err());
}

#[test]
fn consumer_needs_every_decoder() {
    let mut reg = CallSiteRegistry::new();
    add_log_line_spec(&mut reg, LogLineSpec { level: LogLevel::INFO, fmt: "b", log_ident: "b", fmt_fn: None });
    let (_tx, rx) = channel();
    assert!(matches!(Consumer::new(&mut reg, rx), Err(FreezeError::MissingDecoder(0))));
}

#[test]
fn drained_handle_of_exited_producer_is_dropped() {
    let mut reg = CallSiteRegistry::new();
    add_log_line_spec(&mut reg, site(LogLevel::INFO, "a {}", 1));
    let (tx, rx) = channel();
    let mut consumer = Consumer::new(&mut reg, rx).unwrap();
    let (mut w, r) = cueue::cueue::<u8>(1).unwrap();
    tx.send(r).unwrap();
    assert_eq!(consumer.sweep().unwrap().joined, 1);
    log_record(&mut w, 0, &[Loggable::I64(9)]).unwrap();
    drop(w);
    let rep = consumer.sweep().unwrap();
    assert_eq!(rep.records, vec![LogRecord { site: 0, args: vec![LoggedValue::I64(9)] }]);
    assert_eq!(rep.retired, 0);
    assert_eq!(consumer.live_handles(), 1);
    let rep = consumer.sweep().unwrap();
    assert_eq!(rep.retired, 1);
    assert_eq!(consumer.live_handles(), 0);
}

#[test]
fn second_registration_of_a_site_is_refused() {
    let mut reg = CallSiteRegistry::new();
    let mut slot = SiteSlot::new();
    let mut other = SiteSlot::new();
    assert_eq!(slot.id(), None);
    assert_eq!(register_call_site(&mut reg, &mut slot, site(LogLevel::INFO, "a", 0)), Ok(0));
    assert_eq!(register_call_site(&mut reg, &mut other, site(LogLevel::INFO, "b", 0)), Ok(1));
    assert_eq!(
        register_call_site(&mut reg, &mut slot, site(LogLevel::INFO, "a", 0)),
        Err(RegistrationError::AlreadyRegistered(0))
    );
    assert_eq!(reg.len(), 2);
    assert_eq!(slot.id(), Some(0));
    assert_eq!(other.id(), Some(1));
}

#[test]
fn failed_drain_keeps_the_handle_and_its_bytes() {
    let mut reg = CallSiteRegistry::new();
    add_log_line_spec(&mut reg, site(LogLevel::INFO, "a", 0));
    let (tx, rx) = channel();
    let mut consumer = Consumer::new(&mut reg, rx).unwrap();
    assert_eq!(consumer.sweep().unwrap().joined, 0);
    let (mut w, r) = cueue::cueue::<u8>(1).unwrap();
    tx.send(r).unwrap();
    for _ in 1..64 {
        consumer.sweep().unwrap();
    }
    assert_eq!(consumer.sweep().unwrap().joined, 1);
    log_record(&mut w, 3, &[]).unwrap();
    assert_eq!(consumer.sweep().err(), Some(DecodeCorruption::UnknownCallSite));
    assert_eq!(consumer.live_handles(), 1);
    assert_eq!(consumer.sweep().err(), Some(DecodeCorruption::UnknownCallSite));
}

#[test]
fn sweep_with_no_handles_succeeds() {
    let mut reg = CallSiteRegistry::new();
    let (_tx, rx) = channel::<cueue::Reader<u8>>();
    let mut consumer = Consumer::new(&mut reg, rx).unwrap();
    let rep = consumer.sweep().unwrap();
    assert_eq!((rep.records.len(), rep.retired, rep.joined), (0, 0, 0));
}

#[test]
fn one_poll_takes_every_waiting_handle() {
    let mut reg = CallSiteRegistry::new();
    let (tx, rx) = channel();
    let mut consumer = Consumer::new(&mut reg, rx).unwrap();
    let mut writers = Vec::new();
    for _ in 0..5 {
        let (w, r) = cueue::cueue::<u8>(1).unwrap();
        tx.send(r).unwrap();
        writers.push(w);
    }
    assert_eq!(consumer.sweep().unwrap().joined, 5);
    assert_eq!(consumer.live_handles(), 5);
}

#[test]
fn sweep_keeps_live_handles_in_order() {
    let mut reg = CallSiteRegistry::new();
    add_log_line_spec(&mut reg, site(LogLevel::INFO, "a {}", 1));
    let (tx, rx) = channel();
    let mut consumer = Consumer::new(&mut reg, rx).unwrap();
    let mut writers = Vec::new();
    for _ in 0..3 {
        let (w, r) = cueue::cueue::<u8>(1).unwrap();
        tx.send(r).unwrap();
        writers.push(w);
    }
    assert_eq!(consumer.sweep().unwrap().joined, 3);
    for (i, w) in writers.iter_mut().enumerate() {
        log_record(w, 0, &[Loggable::I64(i as i64)]).unwrap();
    }
    let middle = writers.remove(1);
    drop(middle);
    let rep = consumer.sweep().unwrap();
    let vals: Vec<LoggedValue> = rep.records.iter().map(|r| r.args[0].clone()).collect();
    assert_eq!(vals, vec![LoggedValue::I64(0), LoggedValue::I64(1), LoggedValue::I64(2)]);
    assert_eq!(consumer.sweep().unwrap().retired, 1);
    log_record(&mut writers[0], 0, &[Loggable::I64(10)]).unwrap();
    log_record(&mut writers[1], 0, &[Loggable::I64(12)]).unwrap();
    let rep = consumer.sweep().unwrap();
    let vals: Vec<LoggedValue> = rep.records.iter().map(|r| r.args[0].clone()).collect();
    assert_eq!(vals, vec![LoggedValue::I64(10), LoggedValue::I64(12)]);
}
