use cnc_ctrl::command::{Command, Realtime};
use cnc_ctrl::driver::ResponseLog;
use cnc_ctrl::message::{Message, Response};
use cnc_ctrl::scheduler::{Action, Scheduler, SchedulerError};

fn block(s: &str) -> Command {
    Command::Block(s.to_string())
}

fn written_bytes(a: Action) -> Option<Vec<u8>> {
    match a {
        Action::Write(c) => Some(c.wire_bytes()),
        Action::AwaitMessage => None,
    }
}

/// Dispatches until the scheduler asks to wait, returning the bytes written.
fn dispatch_all<T>(s: &mut Scheduler<T>) -> Vec<u8> {
    let mut wire = Vec::new();
    while let Some(bytes) = written_bytes(s.dispatch()) {
        wire.extend(bytes);
    }
    wire
}

#[test]
fn simple_stream() {
    let mut s: Scheduler<usize> = Scheduler::new(128);
    for (i, b) in ["G0 X0", "G0 X1", "G0 X2"].iter().enumerate() {
        assert!(s.submit(block(b), i + 1).is_ok());
    }
    let wire = dispatch_all(&mut s);
    assert_eq!(wire, b"G0 X0\nG0 X1\nG0 X2\n".to_vec());
    assert_eq!(s.buffered(), 18);
    let mut log = ResponseLog::new();
    let mut owners = Vec::new();
    for _ in 0..3 {
        owners.push(s.on_message(&Message::from_line("ok")).unwrap());
        log.record(Response::Okay);
    }
    assert_eq!(owners, vec![1, 2, 3]);
    assert_eq!(
        log.entries().clone(),
        vec![(1, Response::Okay), (2, Response::Okay), (3, Response::Okay)]
    );
    assert_eq!(s.buffered(), 0);
}

#[test]
fn back_pressure() {
    let mut s: Scheduler<usize> = Scheduler::new(16);
    for i in 1..=10 {
        assert!(s.submit(block("G1 X1"), i).is_ok());
    }
    let mut log = ResponseLog::new();
    let mut owners = Vec::new();
    let mut written = 0;
    while owners.len() < 10 {
        let wire = dispatch_all(&mut s);
        written += wire.len() / 6;
        assert!(s.inflight_len() <= 2);
        assert!(s.buffered() <= 15);
        owners.push(s.on_message(&Message::from_line("ok")).unwrap());
        log.record(Response::Okay);
        if written < 10 {
            let wire = dispatch_all(&mut s);
            assert_eq!(wire.len(), 6);
            written += 1;
        }
    }
    assert_eq!(owners, (1..=10).collect::<Vec<usize>>());
    let expected: Vec<(usize, Response)> = (1..=10).map(|i| (i, Response::Okay)).collect();
    assert_eq!(log.entries().clone(), expected);
}

#[test]
fn third_block_waits_for_two_oks() {
    let mut s: Scheduler<usize> = Scheduler::new(16);
    for i in 1..=3 {
        s.submit(block("G1 X1"), i).unwrap();
    }
    assert_eq!(dispatch_all(&mut s).len(), 12);
    assert_eq!(s.pending_len(), 1);
    assert_eq!(s.on_message(&Message::from_line("ok")), Some(1));
    assert_eq!(dispatch_all(&mut s), b"G1 X1\n".to_vec());
}

#[test]
fn realtime_injection() {
    let mut s: Scheduler<u8> = Scheduler::new(128);
    s.submit(block("$H"), 0).unwrap();
    let mut wire = dispatch_all(&mut s);
    s.submit(Command::Realtime(Realtime::FeedHold), 1).unwrap();
    s.submit(block("G0 X5"), 2).unwrap();
    wire.extend(written_bytes(s.dispatch()).unwrap());
    assert_eq!(wire, vec![b'$', b'H', b'\n', 0x82]);
    assert_eq!(dispatch_all(&mut s), b"G0 X5\n".to_vec());
}

#[test]
fn realtime_overtakes_pending_blocks() {
    let mut s: Scheduler<u8> = Scheduler::new(8);
    s.submit(block("AAAAA"), 0).unwrap();
    s.submit(block("BBBBB"), 1).unwrap();
    assert_eq!(dispatch_all(&mut s), b"AAAAA\n".to_vec());
    s.submit(Command::Realtime(Realtime::StatusQuery), 2).unwrap();
    assert_eq!(dispatch_all(&mut s), vec![b'?']);
    assert_eq!(s.on_message(&Message::from_line("ok")), Some(0));
    assert_eq!(dispatch_all(&mut s), b"BBBBB\n".to_vec());
}

#[test]
fn realtime_is_never_acknowledged_or_buffered() {
    let mut s: Scheduler<u8> = Scheduler::new(16);
    s.submit(Command::Realtime(Realtime::CycleStart), 9).unwrap();
    assert_eq!(dispatch_all(&mut s), vec![0x81]);
    assert_eq!(s.buffered(), 0);
    assert_eq!(s.inflight_len(), 0);
    assert_eq!(s.on_message(&Message::from_line("ok")), None);
}

#[test]
fn no_line_feed_after_realtime() {
    let mut s: Scheduler<u8> = Scheduler::new(64);
    s.submit(Command::Realtime(Realtime::Reset), 0).unwrap();
    s.submit(block("G0"), 1).unwrap();
    s.submit(Command::Realtime(Realtime::JogCancel), 2).unwrap();
    let wire = dispatch_all(&mut s);
    assert_eq!(wire, vec![0x85, 0x18, b'G', b'0', b'\n']);
    assert_eq!(Command::Realtime(Realtime::FeedHold).wire_bytes(), vec![0x82]);
}

#[test]
fn largest_block_sendable_on_empty_buffer() {
    let mut s: Scheduler<u8> = Scheduler::new(128);
    let line = "X".repeat(126);
    s.submit(Command::Block(line.clone()), 0).unwrap();
    let wire = dispatch_all(&mut s);
    assert_eq!(wire.len(), 127);
    assert_eq!(s.buffered(), 127);
}

#[test]
fn block_filling_to_capacity_minus_one_is_sent() {
    let mut s: Scheduler<u8> = Scheduler::new(16);
    s.submit(block("0123456789"), 0).unwrap();
    s.submit(block("abc"), 1).unwrap();
    let wire = dispatch_all(&mut s);
    assert_eq!(wire.len(), 15);
    assert_eq!(s.buffered(), 15);
}

#[test]
fn block_reaching_capacity_waits() {
    let mut s: Scheduler<u8> = Scheduler::new(16);
    s.submit(block("0123456789"), 0).unwrap();
    s.submit(block("abcd"), 1).unwrap();
    assert_eq!(dispatch_all(&mut s).len(), 11);
    assert_eq!(s.pending_len(), 1);
    assert!(matches!(s.dispatch(), Action::AwaitMessage));
    assert_eq!(s.on_message(&Message::from_line("ok")), Some(0));
    assert_eq!(dispatch_all(&mut s), b"abcd\n".to_vec());
}

#[test]
fn oversized_block_refused() {
    let mut s: Scheduler<u8> = Scheduler::new(16);
    match s.submit(Command::Block("X".repeat(15)), 7) {
        Err((e, t)) => {
            assert_eq!(e, SchedulerError::OversizedBlock);
            assert_eq!(t, 7);
        }
        Ok(()) => panic!("an oversized block was accepted"),
    }
    assert_eq!(s.pending_len(), 0);
    assert!(s.submit(Command::Block("X".repeat(14)), 8).is_ok());
    assert!(s.submit(Command::Block("X".repeat(200)), 9).is_err());
}

#[test]
fn stray_response_is_discarded() {
    let mut s: Scheduler<u8> = Scheduler::new(16);
    assert_eq!(s.on_message(&Message::from_line("error:3")), None);
    assert_eq!(s.buffered(), 0);
}

#[test]
fn pushes_do_not_consume_inflight() {
    let mut s: Scheduler<u8> = Scheduler::new(32);
    s.submit(block("G0"), 1).unwrap();
    dispatch_all(&mut s);
    assert_eq!(s.on_message(&Message::from_line("<Idle|MPos:0,0,0>")), None);
    assert_eq!(s.on_message(&Message::from_line("ALARM:1")), None);
    assert_eq!(s.on_message(&Message::from_line("garbage")), None);
    assert_eq!(s.inflight_len(), 1);
    assert_eq!(s.on_message(&Message::from_line("ok")), Some(1));
}

#[test]
fn buffer_bound_holds_over_a_long_run() {
    let mut s: Scheduler<usize> = Scheduler::new(40);
    let mut next = 0usize;
    let mut seen = Vec::new();
    for round in 0..200usize {
        let len = (round * 7) % 30;
        if s.submit(Command::Block("Y".repeat(len)), next).is_ok() {
            next += 1;
        }
        if round % 5 == 0 {
            s.submit(Command::Realtime(Realtime::Report), usize::MAX).unwrap();
        }
        dispatch_all(&mut s);
        assert!(s.buffered() <= s.capacity() - 1);
        if round % 3 == 0 {
            if let Some(t) = s.on_message(&Message::from_line("ok")) {
                seen.push(t);
            }
        }
    }
    let expected: Vec<usize> = (0..seen.len()).collect();
    assert_eq!(seen, expected);
}
