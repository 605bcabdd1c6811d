use cnc_ctrl::command::{Command, Realtime};
use cnc_ctrl::driver::{
    blocks_of, check_errors, check_verdict, on_rising_edge, poll_command, poll_step, probe_csv,
    read_probe_point, shutdown_command, ControllerError, EdgeAction, Input, PollStep,
    ResponseLog, StepEvent, StepState,
};
use cnc_ctrl::message::{Message, Response, Status};

fn responses_of(lines: &[&str]) -> Vec<(usize, Response)> {
    let mut log = ResponseLog::new();
    for l in lines {
        if let Message::Response(r) = Message::from_line(l) {
            log.record(r);
        }
    }
    log.entries().clone()
}

#[test]
fn check_mode_failure() {
    let responses = responses_of(&["ok", "error:2", "ok"]);
    let errors = check_errors(&responses);
    assert_eq!(errors, vec![(2, Response::Error(2))]);
    match check_verdict(&errors) {
        Err(ControllerError::GcodeError(i, r)) => {
            assert_eq!(i, 2);
            assert_eq!(r, Response::Error(2));
        }
        _ => panic!("check mode should fail the step"),
    }
    let s = StepState::Idle.next(StepEvent::Begin { check: true });
    assert_eq!(s, StepState::Checking);
    let s = s.next(StepEvent::Checked { errors: errors.len() });
    assert_eq!(s, StepState::Failed);
    assert!(s.is_terminal());
    assert_eq!(s.next(StepEvent::AllSubmitted), StepState::Failed);
}

#[test]
fn check_mode_success_streams() {
    let responses = responses_of(&["ok", "ok"]);
    let errors = check_errors(&responses);
    assert!(errors.is_empty());
    assert!(check_verdict(&errors).is_ok());
    let mut s = StepState::Idle.next(StepEvent::Begin { check: true });
    s = s.next(StepEvent::Checked { errors: 0 });
    assert_eq!(s, StepState::Streaming);
    s = s.next(StepEvent::AllSubmitted);
    assert_eq!(s, StepState::Draining);
    s = s.next(StepEvent::IdleReported);
    assert_eq!(s, StepState::Done);
    assert!(s.is_terminal());
}

#[test]
fn step_without_check_and_transport_failure() {
    let s = StepState::Idle.next(StepEvent::Begin { check: false });
    assert_eq!(s, StepState::Streaming);
    assert!(!s.is_terminal());
    assert_eq!(s.next(StepEvent::IdleReported), StepState::Streaming);
    assert_eq!(s.next(StepEvent::TransportError), StepState::Failed);
    assert_eq!(StepState::Done.next(StepEvent::TransportError), StepState::Done);
}

#[test]
fn probe_push_during_stream() {
    let lines = ["ok", "ok", "[PRB:1.000,2.000,3.000:1]", "ok", "ok", "ok"];
    let messages: Vec<Message> = lines.iter().map(|l| Message::from_line(l)).collect();
    assert_eq!(probe_csv(&messages), "x,y,z\n1.000,2.000,3.000\n");
    let responses = responses_of(&lines);
    let expected: Vec<(usize, Response)> = (1..=5).map(|i| (i, Response::Okay)).collect();
    assert_eq!(responses, expected);
}

#[test]
fn probe_points_of_three_and_five() {
    let p = read_probe_point("1.0,-2.5,3.0,4.0,5.0:1").unwrap();
    assert_eq!((p.0.as_str(), p.1.as_str(), p.2.as_str()), ("1.0", "-2.5", "3.0"));
    assert!(read_probe_point("1.0,2.0:1").is_none());
    assert!(read_probe_point("1,2,3,4:0").is_none());
    let messages = vec![
        Message::from_line("[PRB:1,2,3:0]"),
        Message::from_line("[MSG:1,2,3:0]"),
        Message::from_line("[PRB:9,9:1]"),
        Message::from_line("[PRB:4,5,6,7,8:1]"),
    ];
    assert_eq!(probe_csv(&messages), "x,y,z\n1,2,3\n4,5,6\n");
    assert_eq!(probe_csv(&Vec::new()), "x,y,z\n");
}

#[test]
fn idle_handoff() {
    assert_eq!(poll_command(), Realtime::StatusQuery);
    let wanted = Some(Status::Idle);
    assert!(matches!(poll_step(true, Message::from_line("<Jog|MPos:0,0,0>"), wanted), PollStep::Continue));
    assert!(matches!(poll_step(true, Message::from_line("ok"), wanted), PollStep::Continue));
    match poll_step(true, Message::from_line("<Idle|MPos:1,2,3>"), wanted) {
        PollStep::Found(r) => assert_eq!(r.status, Status::Idle),
        _ => panic!("an idle report ends the wait"),
    }
    assert!(matches!(poll_step(false, Message::from_line("<Idle>"), wanted), PollStep::Cancelled));
    assert!(matches!(poll_step(true, Message::from_line("<Home>"), None), PollStep::Found(_)));
}

#[test]
fn edges_and_shutdown() {
    assert_eq!(on_rising_edge(Input::ProbeXy), EdgeAction::Inject(Realtime::JogCancel));
    assert_eq!(on_rising_edge(Input::ProbeZ), EdgeAction::Inject(Realtime::JogCancel));
    assert_eq!(on_rising_edge(Input::Signal), EdgeAction::ReleaseGate);
    assert_eq!(shutdown_command(false), Realtime::Reset);
    assert_eq!(shutdown_command(true), Realtime::Stop);
}

fn texts(cs: &[Command]) -> Vec<String> {
    cs.iter()
        .map(|c| match c {
            Command::Block(l) => l.clone(),
            Command::Realtime(_) => panic!("a file holds blocks only"),
        })
        .collect()
}

#[test]
fn file_text_to_blocks() {
    assert_eq!(texts(&blocks_of("G0 X0\nG0 X1\r\n\nG0 X2\n")), vec!["G0 X0", "G0 X1", "", "G0 X2"]);
    assert_eq!(texts(&blocks_of("G0 X0")), vec!["G0 X0"]);
    assert!(blocks_of("").is_empty());
    assert_eq!(texts(&blocks_of("\n")), vec![""]);
}
