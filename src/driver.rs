//! Decisions of the streaming driver: how responses are numbered, what check
//! mode concludes, which probed points reach the output, how a job step moves
//! between its states, when the status poller stops, and what an input edge
//! asks of the scheduler.

use vstd::prelude::*;
use vstd::string::*;
use crate::command::{Command, Realtime};
use crate::message::{
    Feedback, Message, MessageModel, Push, Report, Response, Status, same_text,
};
use crate::text::{chars_of, find, find_from, split, split_str};

verus! {

/// Why a job step failed.
#[derive(Clone, Debug)]
pub enum ControllerError {
    /// A line could not be read as what it had to be.
    ParseError { message: String, input: String },
    /// The controller rejected the block at this 1-based index.
    GcodeError(usize, Response),
    /// The transport or a channel to it failed.
    SerialError(String),
    /// A write to the transport failed.
    TransportDown,
    /// The controller closed the transport.
    TransportClosed,
    /// A block could never fit in the controller's receive buffer.
    OversizedBlock,
}

/// A line of a file without the carriage return that may end it.
pub open spec fn strip_cr(l: Seq<char>) -> Seq<char> {
    if l.len() > 0 && l.last() == '\r' {
        l.drop_last()
    } else {
        l
    }
}

/// The lines of a text as `BufRead::lines` gives them: split at line feeds,
/// no empty line after a final line feed, a trailing carriage return dropped.
pub open spec fn file_lines(text: Seq<char>) -> Seq<Seq<char>> {
    let parts = split(text, '\n');
    let parts = if parts.last().len() == 0 {
        parts.drop_last()
    } else {
        parts
    };
    parts.map_values(|l: Seq<char>| strip_cr(l))
}

/// The command is the block holding `line`.
pub open spec fn is_block_of(c: Command, line: Seq<char>) -> bool {
    match c {
        Command::Block(l) => l@ == line,
        _ => false,
    }
}

/// The blocks of a program text, one per line, in order.
pub fn blocks_of(text: &str) -> (r: Vec<Command>)
    ensures
        r@.len() == file_lines(text@).len(),
        forall|i: int|
            0 <= i < r@.len() ==> is_block_of(#[trigger] r@[i], file_lines(text@)[i]),
{
    let parts = split_str(text, '\n');
    let ghost pv = parts@.map_values(|p: String| p@);
    proof {
        crate::message::lemma_split_nonempty(text@, '\n');
    }
    let mut n = parts.len();
    assert(pv[n - 1] == parts@[n - 1]@);
    if parts[n - 1].as_str().unicode_len() == 0 {
        n = n - 1;
    }
    let ghost kept = if pv.last().len() == 0 {
        pv.drop_last()
    } else {
        pv
    };
    assert(kept.len() == n);
    let mut r: Vec<Command> = Vec::new();
    let mut i: usize = 0;
    while i < n
        invariant
            pv == parts@.map_values(|p: String| p@),
            pv == split(text@, '\n'),
            kept.len() == n,
            n <= parts@.len(),
            kept == (if pv.last().len() == 0 {
                pv.drop_last()
            } else {
                pv
            }),
            i <= n,
            r@.len() == i,
            forall|j: int|
                0 <= j < i ==> is_block_of(#[trigger] r@[j], strip_cr(kept[j])),
        decreases n - i,
    {
        let line = parts[i].as_str();
        assert(kept[i as int] == pv[i as int]);
        assert(pv[i as int] == line@);
        let len = line.unicode_len();
        let text_of_line = if len > 0 && line.get_char(len - 1) == '\r' {
            line.substring_char(0, len - 1)
        } else {
            line
        };
        assert(text_of_line@ =~= strip_cr(kept[i as int]));
        r.push(Command::Block(text_of_line.to_owned()));
        i = i + 1;
    }
    r
}

/// The responses of a stream numbered from 1 in submission order.
pub open spec fn numbered(rs: Seq<Response>) -> Seq<(usize, Response)> {
    Seq::new(rs.len(), |i: int| ((i + 1) as usize, rs[i]))
}

/// The entries whose response is an error, in order.
pub open spec fn errors_of(rs: Seq<(usize, Response)>) -> Seq<(usize, Response)>
    decreases rs.len(),
{
    if rs.len() == 0 {
        seq![]
    } else if rs.last().1 is Error {
        errors_of(rs.drop_last()).push(rs.last())
    } else {
        errors_of(rs.drop_last())
    }
}

/// Collects the responses of a stream as they arrive, numbering them from 1.
pub struct ResponseLog {
    entries: Vec<(usize, Response)>,
}

impl ResponseLog {
    /// The responses recorded so far, in arrival order.
    pub closed spec fn responses(&self) -> Seq<Response> {
        self.entries@.map_values(|e: (usize, Response)| e.1)
    }

    pub closed spec fn wf(&self) -> bool {
        self.entries@ == numbered(self.responses())
    }

    /// An empty log.
    pub fn new() -> (r: ResponseLog)
        ensures
            r.wf(),
            r.responses().len() == 0,
    {
        let r = ResponseLog { entries: Vec::new() };
        assert(r.entries@ =~= numbered(r.responses()));
        r
    }

    /// Records the next response.
    pub fn record(&mut self, r: Response)
        requires
            old(self).wf(),
            old(self).responses().len() < usize::MAX,
        ensures
            final(self).wf(),
            final(self).responses() == old(self).responses().push(r),
    {
        let n = self.entries.len();
        self.entries.push((n + 1, r));
        assert(self.responses() =~= old(self).responses().push(r));
        assert(self.entries@ =~= numbered(self.responses()));
    }

    /// The recorded responses with their 1-based indices.
    pub fn entries(&self) -> (r: &Vec<(usize, Response)>)
        requires
            self.wf(),
        ensures
            r@ == numbered(self.responses()),
    {
        &self.entries
    }
}

/// The errors among numbered responses, with their indices, in order.
pub fn check_errors(responses: &Vec<(usize, Response)>) -> (r: Vec<(usize, Response)>)
    ensures
        r@ == errors_of(responses@),
{
    let mut r: Vec<(usize, Response)> = Vec::new();
    let mut i: usize = 0;
    while i < responses.len()
        invariant
            i <= responses@.len(),
            r@ == errors_of(responses@.take(i as int)),
        decreases responses@.len() - i,
    {
        assert(responses@.take(i + 1).drop_last() =~= responses@.take(i as int));
        let e = responses[i];
        if let Response::Error(_) = e.1 {
            r.push(e);
        }
        i = i + 1;
    }
    assert(responses@.take(i as int) =~= responses@);
    r
}

/// What check mode concludes: the first rejected block fails the step.
pub fn check_verdict(errors: &Vec<(usize, Response)>) -> (r: Result<(), ControllerError>)
    ensures
        r is Ok <==> errors@.len() == 0,
        r matches Err(e) ==> e matches ControllerError::GcodeError(i, c) && (i, c) == errors@[0],
{
    if errors.len() == 0 {
        Ok(())
    } else {
        Err(ControllerError::GcodeError(errors[0].0, errors[0].1))
    }
}

/// The coordinates of a probe result `x,y,z[,a,b]:flag`: the first three of a
/// list of three or five.
pub open spec fn probe_point(data: Seq<char>) -> Option<(Seq<char>, Seq<char>, Seq<char>)> {
    let parts = split(data.take(find(data, ':') as int), ',');
    if parts.len() == 3 || parts.len() == 5 {
        Some((parts[0], parts[1], parts[2]))
    } else {
        None
    }
}

/// The CSV row of a point.
pub open spec fn csv_row(p: (Seq<char>, Seq<char>, Seq<char>)) -> Seq<char> {
    p.0 + ","@ + p.1 + ","@ + p.2 + "\n"@
}

/// The rows written for the probe results among the messages, in order.
pub open spec fn probe_rows(ms: Seq<MessageModel>) -> Seq<char>
    decreases ms.len(),
{
    if ms.len() == 0 {
        seq![]
    } else {
        let earlier = probe_rows(ms.drop_last());
        match ms.last() {
            MessageModel::Feedback(kind, data, _) => if kind == "PRB"@ && probe_point(data) is Some {
                earlier + csv_row(probe_point(data)->Some_0)
            } else {
                earlier
            },
            _ => earlier,
        }
    }
}

/// The header of the probed-points output.
pub open spec fn csv_header() -> Seq<char> {
    "x,y,z\n"@
}

/// Reads the coordinates of a probe result.
pub fn read_probe_point(data: &str) -> (r: Option<(String, String, String)>)
    ensures
        match r {
            Some((x, y, z)) => probe_point(data@) == Some((x@, y@, z@)),
            None => probe_point(data@) is None,
        },
{
    let cs = chars_of(data);
    assert(cs@.skip(0) =~= cs@);
    let colon = find_from(&cs, ':', 0);
    let coords = data.substring_char(0, colon);
    let parts = split_str(coords, ',');
    let ghost pv = parts@.map_values(|p: String| p@);
    assert(pv.len() == parts@.len());
    if parts.len() == 3 || parts.len() == 5 {
        assert(pv[0] == parts@[0]@);
        assert(pv[1] == parts@[1]@);
        assert(pv[2] == parts@[2]@);
        Some((parts[0].clone(), parts[1].clone(), parts[2].clone()))
    } else {
        None
    }
}

/// The probed-points output for the messages of a stream: the header, then
/// one `x,y,z` row for each probe result, in arrival order.
pub fn probe_csv(messages: &Vec<Message>) -> (r: String)
    ensures
        r@ == csv_header() + probe_rows(messages@.map_values(|m: Message| m@)),
{
    let mut r = "x,y,z\n".to_owned();
    let ghost mv = messages@.map_values(|m: Message| m@);
    let mut i: usize = 0;
    assert(mv.take(0) =~= Seq::<MessageModel>::empty());
    assert(r@ =~= csv_header() + probe_rows(mv.take(0)));
    while i < messages.len()
        invariant
            mv == messages@.map_values(|m: Message| m@),
            i <= messages@.len(),
            r@ == csv_header() + probe_rows(mv.take(i as int)),
        decreases messages@.len() - i,
    {
        assert(mv.take(i + 1).drop_last() =~= mv.take(i as int));
        assert(mv.take(i + 1).last() == messages@[i as int]@);
        if let Message::Push(Push::Feedback(f, _)) = &messages[i] {
            if same_text(f.kind.as_str(), "PRB") {
                if let Some((x, y, z)) = read_probe_point(f.data.as_str()) {
                    let ghost before = r@;
                    r.append(x.as_str());
                    r.append(",");
                    r.append(y.as_str());
                    r.append(",");
                    r.append(z.as_str());
                    r.append("\n");
                    assert(r@ =~= before + csv_row((x@, y@, z@)));
                }
            }
        }
        i = i + 1;
    }
    assert(mv.take(i as int) =~= mv);
    r
}

/// The states of one job step.
#[derive(Clone, Copy, Debug, PartialEq, Eq, Structural)]
pub enum StepState {
    Idle,
    Checking,
    Streaming,
    Draining,
    Done,
    Failed,
}

/// What happens to a job step.
#[derive(Clone, Copy, Debug, PartialEq, Eq, Structural)]
pub enum StepEvent {
    /// The step begins; `check` asks for check mode first.
    Begin { check: bool },
    /// Check mode finished with this many rejected blocks.
    Checked { errors: usize },
    /// The last block was submitted.
    AllSubmitted,
    /// The status poller saw the machine idle.
    IdleReported,
    /// The transport failed.
    TransportError,
}

/// The transition of the step state machine; an event that does not apply
/// leaves the state as it is.
pub open spec fn step_transition(s: StepState, e: StepEvent) -> StepState {
    match (s, e) {
        (StepState::Done, _) => StepState::Done,
        (StepState::Failed, _) => StepState::Failed,
        (_, StepEvent::TransportError) => StepState::Failed,
        (StepState::Idle, StepEvent::Begin { check }) => if check {
            StepState::Checking
        } else {
            StepState::Streaming
        },
        (StepState::Checking, StepEvent::Checked { errors }) => if errors == 0 {
            StepState::Streaming
        } else {
            StepState::Failed
        },
        (StepState::Streaming, StepEvent::AllSubmitted) => StepState::Draining,
        (StepState::Draining, StepEvent::IdleReported) => StepState::Done,
        _ => s,
    }
}

impl StepState {
    /// The state after `e`.
    pub fn next(self, e: StepEvent) -> (r: StepState)
        ensures
            r == step_transition(self, e),
    {
        match (self, e) {
            (StepState::Done, _) => StepState::Done,
            (StepState::Failed, _) => StepState::Failed,
            (_, StepEvent::TransportError) => StepState::Failed,
            (StepState::Idle, StepEvent::Begin { check }) => if check {
                StepState::Checking
            } else {
                StepState::Streaming
            },
            (StepState::Checking, StepEvent::Checked { errors }) => if errors == 0 {
                StepState::Streaming
            } else {
                StepState::Failed
            },
            (StepState::Streaming, StepEvent::AllSubmitted) => StepState::Draining,
            (StepState::Draining, StepEvent::IdleReported) => StepState::Done,
            _ => self,
        }
    }

    /// The step has ended and its resources can be released.
    pub fn is_terminal(self) -> (r: bool)
        ensures
            r == (self == StepState::Done || self == StepState::Failed),
    {
        match self {
            StepState::Done | StepState::Failed => true,
            _ => false,
        }
    }
}

/// What the status poller does with one message.
#[derive(Clone, Debug)]
pub enum PollStep {
    /// Keep polling.
    Continue,
    /// The awaited report arrived: stop polling and return it.
    Found(Report),
    /// Shutdown was requested: stop polling with no report.
    Cancelled,
}

/// The report satisfies the poller's wish: any report when no status is
/// given, else one with that status.
pub open spec fn report_wanted(r: Report, wanted: Option<Status>) -> bool {
    match wanted {
        None => true,
        Some(s) => r.status == s,
    }
}

/// Decides what the status poller does with a message, seen while `running`
/// tells whether shutdown has been requested.
pub fn poll_step(running: bool, msg: Message, wanted: Option<Status>) -> (r: PollStep)
    ensures
        !running ==> r is Cancelled,
        running ==> match msg {
            Message::Push(Push::Report(rep, _)) => if report_wanted(rep, wanted) {
                r matches PollStep::Found(x) && x@ == rep@
            } else {
                r is Continue
            },
            _ => r is Continue,
        },
{
    if !running {
        return PollStep::Cancelled;
    }
    match msg {
        Message::Push(Push::Report(rep, _)) => {
            let hit = match wanted {
                None => true,
                Some(s) => rep.status == s,
            };
            if hit {
                PollStep::Found(rep)
            } else {
                PollStep::Continue
            }
        },
        _ => PollStep::Continue,
    }
}

/// The realtime command the status poller sends at each tick.
pub fn poll_command() -> (r: Realtime)
    ensures
        r == Realtime::StatusQuery,
{
    Realtime::StatusQuery
}

/// A hardware input that raises edge events.
#[derive(Clone, Copy, Debug, PartialEq, Eq, Structural)]
pub enum Input {
    ProbeXy,
    ProbeZ,
    Signal,
}

/// What a rising edge on an input asks for.
#[derive(Clone, Copy, Debug, PartialEq, Eq, Structural)]
pub enum EdgeAction {
    /// Submit this realtime command on the scheduler's priority path.
    Inject(Realtime),
    /// Release whoever waits on the start gate.
    ReleaseGate,
}

/// A touch of a probe stops the current jog; the start signal lets a waiting step begin.
pub fn on_rising_edge(input: Input) -> (r: EdgeAction)
    ensures
        input != Input::Signal ==> r == EdgeAction::Inject(Realtime::JogCancel),
        input == Input::Signal ==> r == EdgeAction::ReleaseGate,
{
    match input {
        Input::ProbeXy | Input::ProbeZ => EdgeAction::Inject(Realtime::JogCancel),
        Input::Signal => EdgeAction::ReleaseGate,
    }
}

/// The realtime command sent on shutdown: a reset unless a plain stop is asked.
pub fn shutdown_command(prefer_stop: bool) -> (r: Realtime)
    ensures
        r == (if prefer_stop { Realtime::Stop } else { Realtime::Reset }),
{
    if prefer_stop {
        Realtime::Stop
    } else {
        Realtime::Reset
    }
}

} // verus!
