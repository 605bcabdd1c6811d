use cnc_ctrl::command::Realtime;
use cnc_ctrl::message::{
    decimal_string, Feedback, Message, ParseError, Push, Report, Response, Status,
};

fn report_of(m: &Message) -> &Report {
    match m {
        Message::Push(Push::Report(r, _)) => r,
        _ => panic!("not a report"),
    }
}

fn feedback_of(m: &Message) -> &Feedback {
    match m {
        Message::Push(Push::Feedback(f, _)) => f,
        _ => panic!("not a feedback message"),
    }
}

#[test]
fn round_trip_of_canonical_lines() {
    let mut lines = vec![
        "ok".to_string(),
        "<Idle|MPos:0.000,0.000,0.000|Bf:15,128>".to_string(),
        "[PRB:1.0,2.0,3.0:1]".to_string(),
    ];
    for n in 0..=255u32 {
        lines.push(format!("error:{}", n));
        lines.push(format!("ALARM:{}", n));
    }
    for line in lines {
        assert_eq!(Message::parse(&line).format(), line);
    }
}

#[test]
fn codes_parse_to_their_values() {
    assert!(matches!(Message::parse("ok"), Message::Response(Response::Okay)));
    assert!(matches!(Message::parse("error:22"), Message::Response(Response::Error(22))));
    assert!(matches!(Message::parse("ALARM:255"), Message::Push(Push::Alarm(255))));
    assert!(matches!(Message::parse("error:007"), Message::Response(Response::Error(7))));
    assert_eq!(Message::parse("error:007").format(), "error:7");
    assert_eq!(decimal_string(1024), "1024");
}

#[test]
fn out_of_range_codes_are_unknown() {
    assert!(matches!(Message::parse("error:256"), Message::Unknown(ref s) if s == "error:256"));
    assert!(matches!(Message::parse("ALARM:300"), Message::Unknown(_)));
    assert!(matches!(Message::parse("error:"), Message::Unknown(_)));
    assert!(matches!(Message::parse("error:1a"), Message::Unknown(_)));
}

#[test]
fn response_parse_errors() {
    assert!(matches!(Response::parse("ok"), Ok(Response::Okay)));
    assert!(matches!(Response::parse("error:9"), Ok(Response::Error(9))));
    assert!(matches!(Response::parse("error:999"), Err(ParseError::InvalidErrorCode(ref s)) if s == "error:999"));
    assert!(matches!(Response::parse("okay"), Err(ParseError::UnknownFormat(ref s)) if s == "okay"));
    assert!(matches!(Response::parse("error:x"), Err(ParseError::UnknownFormat(_))));
}

#[test]
fn push_parse_errors() {
    assert!(matches!(Push::parse("ALARM:999"), Err(ParseError::InvalidAlarmCode(ref s)) if s == "ALARM:999"));
    assert!(matches!(Push::parse("ok"), Err(ParseError::UnknownFormat(_))));
    assert!(matches!(Push::parse("<>"), Err(ParseError::UnknownFormat(_))));
    assert!(matches!(Push::parse("<|Idle>"), Err(ParseError::UnknownFormat(_))));
    assert!(matches!(Push::parse("<Idle>>"), Err(ParseError::UnknownFormat(_))));
    assert!(matches!(Push::parse("[FOO:bar]"), Err(ParseError::UnknownFormat(_))));
    assert!(matches!(Push::parse("[MSG:a]b]"), Err(ParseError::UnknownFormat(_))));
    assert!(matches!(Push::parse("[MSG]"), Err(ParseError::UnknownFormat(_))));
}

#[test]
fn report_fields() {
    let m = Message::parse("<Idle|MPos:1.500,-2.000,3.250|Bf:15,128|FS:0,0>");
    let r = report_of(&m);
    assert_eq!(r.status, Status::Idle);
    let p = r.mpos.as_ref().unwrap();
    assert_eq!((p.x.as_str(), p.y.as_str(), p.z.as_str()), ("1.500", "-2.000", "3.250"));
    assert_eq!(r.bf, Some((15, 128)));
    assert_eq!(m.format(), "<Idle|MPos:1.500,-2.000,3.250|Bf:15,128|FS:0,0>");
}

#[test]
fn report_statuses_and_missing_fields() {
    assert_eq!(report_of(&Message::parse("<Home>")).status, Status::Home);
    assert_eq!(report_of(&Message::parse("<Jog|Bf:x,3>")).status, Status::Jog);
    assert_eq!(report_of(&Message::parse("<Jog|Bf:x,3>")).bf, Some((0, 3)));
    let r = Message::parse("<Run|MPos:1,2|Bf:4>");
    assert_eq!(report_of(&r).status, Status::Unknown);
    assert!(report_of(&r).mpos.is_none());
    assert!(report_of(&r).bf.is_none());
    assert_eq!(Status::from_word("Idle"), Status::Idle);
    assert_eq!(Status::from_word("idle"), Status::Unknown);
}

#[test]
fn feedback_kinds() {
    let m = Message::parse("[PRB:1.000,2.000,3.000:1]");
    let f = feedback_of(&m);
    assert_eq!(f.kind, "PRB");
    assert_eq!(f.data, "1.000,2.000,3.000:1");
    let g = Message::parse("[G54:0.000,0.000,0.000]");
    assert_eq!(feedback_of(&g).kind, "G54");
    assert_eq!(feedback_of(&Message::parse("[MSG:Reset to continue]")).data, "Reset to continue");
    assert_eq!(feedback_of(&Message::parse("[GC:G0 G54 G17]")).kind, "GC");
    assert_eq!(feedback_of(&Message::parse("[TLO:0.000]")).kind, "TLO");
    assert!(matches!(Message::parse("[G:1]"), Message::Unknown(_)));
    assert!(matches!(Message::parse("[Gx:1]"), Message::Unknown(_)));
}

#[test]
fn unknown_lines_are_kept_verbatim() {
    let m = Message::parse("Grbl 1.1h ['$' for help]");
    assert!(matches!(m, Message::Unknown(ref s) if s == "Grbl 1.1h ['$' for help]"));
    assert_eq!(m.format(), "Grbl 1.1h ['$' for help]");
}

#[test]
fn lines_are_trimmed_on_read() {
    assert!(matches!(Message::from_line("ok\r\n"), Message::Response(Response::Okay)));
    assert!(matches!(Message::from_line("  error:5 \r"), Message::Response(Response::Error(5))));
    assert!(matches!(Message::from_line(" \r\n"), Message::Unknown(ref s) if s.is_empty()));
    assert_eq!(cnc_ctrl::text::trim_line("\t<Idle>\r"), "<Idle>");
}

#[test]
fn realtime_bytes() {
    let all = [
        (Realtime::Reset, 0x18u8),
        (Realtime::Stop, 0x19),
        (Realtime::JogCancel, 0x85),
        (Realtime::StatusQuery, 0x3f),
        (Realtime::Report, 0x80),
        (Realtime::CycleStart, 0x81),
        (Realtime::FeedHold, 0x82),
        (Realtime::ParserStateReport, 0x83),
        (Realtime::FullReport, 0x87),
    ];
    for (r, b) in all {
        assert_eq!(r.byte(), b);
        assert_eq!(Realtime::from_byte(b), Some(r));
    }
    assert_eq!(Realtime::from_byte(b'\n'), None);
    assert_eq!(Realtime::from_byte(b'G'), None);
}

#[test]
fn report_line_parse() {
    let r = Report::parse("<Idle|Bf:3,100>").unwrap();
    assert_eq!(r.status, Status::Idle);
    assert_eq!(r.bf, Some((3, 100)));
    assert!(matches!(Report::parse("Idle|Bf:3,100"), Err(ParseError::UnknownFormat(ref s)) if s == "Idle|Bf:3,100"));
    let d = Report::default();
    assert_eq!(d.status, Status::Unknown);
    assert!(d.mpos.is_none() && d.bf.is_none());
}
