//! Controller-to-host lines: their grammar, the typed messages parsed from
//! them, and the canonical text of each message.

use vstd::prelude::*;
use vstd::string::*;
use crate::text::{
    chars_of, decimal_text, decimal_value, find, find_from, is_numeral, lemma_decimal_text_value,
    parse_decimal, split, split_str,
};

verus! {

/// The reply to one block: `ok` or `error:<code>`.
#[derive(Clone, Copy, Debug, PartialEq, Eq, Structural)]
pub enum Response {
    Okay,
    Error(u8),
}

/// The machine state named by the first field of a status report.
#[derive(Clone, Copy, Debug, PartialEq, Eq, Structural)]
pub enum Status {
    Idle,
    Home,
    Jog,
    Unknown,
}

/// A machine position as the controller wrote its three coordinates.
#[derive(Clone, Debug)]
pub struct Position {
    pub x: String,
    pub y: String,
    pub z: String,
}

/// A status report `<Status|Field:Value|...>`.
#[derive(Clone, Debug)]
pub struct Report {
    pub status: Status,
    /// The machine position of the last `MPos` field with three coordinates.
    pub mpos: Option<Position>,
    /// The planner and receive-buffer counters of the last `Bf` field with two
    /// values; a counter that is not a number reads as 0.
    pub bf: Option<(usize, usize)>,
}

/// A bracketed feedback message `[KIND:DATA]`.
#[derive(Clone, Debug)]
pub struct Feedback {
    pub kind: String,
    pub data: String,
}

/// A message the controller sends on its own, tied to no block.
#[derive(Clone, Debug)]
pub enum Push {
    Alarm(u8),
    Report(Report, String),
    Feedback(Feedback, String),
}

/// One line from the controller.
#[derive(Clone, Debug)]
pub enum Message {
    Response(Response),
    Push(Push),
    Unknown(String),
}

/// Why a line is not the message that was asked for.
#[derive(Clone, Debug)]
pub enum ParseError {
    InvalidErrorCode(String),
    InvalidAlarmCode(String),
    UnknownFormat(String),
}

/// A status report as plain values.
pub ghost struct ReportModel {
    pub status: Status,
    pub mpos: Option<(Seq<char>, Seq<char>, Seq<char>)>,
    pub bf: Option<(usize, usize)>,
}

/// A message as plain values.
pub ghost enum MessageModel {
    Response(Response),
    Alarm(u8),
    Report(ReportModel, Seq<char>),
    Feedback(Seq<char>, Seq<char>, Seq<char>),
    Unknown(Seq<char>),
}

impl View for Report {
    type V = ReportModel;

    open spec fn view(&self) -> ReportModel {
        ReportModel {
            status: self.status,
            mpos: match self.mpos {
                Some(p) => Some((p.x@, p.y@, p.z@)),
                None => None,
            },
            bf: self.bf,
        }
    }
}

impl View for Message {
    type V = MessageModel;

    open spec fn view(&self) -> MessageModel {
        match self {
            Message::Response(r) => MessageModel::Response(*r),
            Message::Push(Push::Alarm(c)) => MessageModel::Alarm(*c),
            Message::Push(Push::Report(r, raw)) => MessageModel::Report(r@, raw@),
            Message::Push(Push::Feedback(f, raw)) => MessageModel::Feedback(f.kind@, f.data@, raw@),
            Message::Unknown(raw) => MessageModel::Unknown(raw@),
        }
    }
}

/// `s` begins with `p`.
pub open spec fn has_prefix(s: Seq<char>, p: Seq<char>) -> bool {
    p.len() <= s.len() && s.take(p.len() as int) == p
}

/// `s` is `prefix` followed by a numeral.
pub open spec fn is_code_line(s: Seq<char>, prefix: Seq<char>) -> bool {
    has_prefix(s, prefix) && is_numeral(s.skip(prefix.len() as int))
}

/// The code of a line `prefix` + numeral, when it fits in a byte.
pub open spec fn code_of(s: Seq<char>, prefix: Seq<char>) -> Option<u8> {
    if is_code_line(s, prefix) && decimal_value(s.skip(prefix.len() as int)) <= 255 {
        Some(decimal_value(s.skip(prefix.len() as int)) as u8)
    } else {
        None
    }
}

/// What lies between the first and the last character.
pub open spec fn inner(s: Seq<char>) -> Seq<char> {
    s.subrange(1, s.len() - 1)
}

/// A line of the shape `<Status|...>`: the status word is not empty and holds
/// no `|`, and no `>` stands before the closing one.
pub open spec fn is_report_line(s: Seq<char>) -> bool {
    &&& s.len() >= 3
    &&& s[0] == '<'
    &&& s.last() == '>'
    &&& find(inner(s), '>') == inner(s).len()
    &&& inner(s)[0] != '|'
}

/// The machine state named by a status word.
pub open spec fn status_of(w: Seq<char>) -> Status {
    if w == "Idle"@ {
        Status::Idle
    } else if w == "Home"@ {
        Status::Home
    } else if w == "Jog"@ {
        Status::Jog
    } else {
        Status::Unknown
    }
}

/// The three coordinates of an `MPos` field that has at least three.
pub open spec fn mpos_field(f: Seq<char>) -> Option<(Seq<char>, Seq<char>, Seq<char>)> {
    let parts = split(f.skip("MPos:"@.len() as int), ',');
    if has_prefix(f, "MPos:"@) && parts.len() >= 3 {
        Some((parts[0], parts[1], parts[2]))
    } else {
        None
    }
}

/// A buffer counter: its value when it is a numeral that fits, else 0.
pub open spec fn counter_of(s: Seq<char>) -> usize {
    if is_numeral(s) && decimal_value(s) <= usize::MAX {
        decimal_value(s) as usize
    } else {
        0
    }
}

/// The two counters of a `Bf` field that has at least two values.
pub open spec fn bf_field(f: Seq<char>) -> Option<(usize, usize)> {
    let parts = split(f.skip("Bf:"@.len() as int), ',');
    if !has_prefix(f, "MPos:"@) && has_prefix(f, "Bf:"@) && parts.len() >= 2 {
        Some((counter_of(parts[0]), counter_of(parts[1])))
    } else {
        None
    }
}

/// The position of the last field that gives one.
pub open spec fn last_mpos(fields: Seq<Seq<char>>) -> Option<(Seq<char>, Seq<char>, Seq<char>)>
    decreases fields.len(),
{
    if fields.len() == 0 {
        None
    } else if mpos_field(fields.last()) is Some {
        mpos_field(fields.last())
    } else {
        last_mpos(fields.drop_last())
    }
}

/// The counters of the last field that gives them.
pub open spec fn last_bf(fields: Seq<Seq<char>>) -> Option<(usize, usize)>
    decreases fields.len(),
{
    if fields.len() == 0 {
        None
    } else if bf_field(fields.last()) is Some {
        bf_field(fields.last())
    } else {
        last_bf(fields.drop_last())
    }
}

/// The report read from the text between `<` and `>`.
pub open spec fn report_of(body: Seq<char>) -> ReportModel {
    let fields = split(body, '|');
    ReportModel {
        status: status_of(fields[0]),
        mpos: last_mpos(fields.drop_first()),
        bf: last_bf(fields.drop_first()),
    }
}

/// A feedback kind: `MSG`, `GC`, `PRB`, `TLO`, or `G` followed by digits.
pub open spec fn is_feedback_kind(k: Seq<char>) -> bool {
    k == "MSG"@ || k == "GC"@ || k == "PRB"@ || k == "TLO"@ || (k.len() >= 2 && k[0] == 'G'
        && is_numeral(k.drop_first()))
}

/// Where the kind of a feedback line ends, within its brackets.
pub open spec fn feedback_colon(s: Seq<char>) -> int {
    find(inner(s), ':') as int
}

/// A line of the shape `[KIND:DATA]` with no `]` before the closing one.
pub open spec fn is_feedback_line(s: Seq<char>) -> bool {
    &&& s.len() >= 2
    &&& s[0] == '['
    &&& s.last() == ']'
    &&& find(inner(s), ']') == inner(s).len()
    &&& feedback_colon(s) < inner(s).len()
    &&& is_feedback_kind(inner(s).take(feedback_colon(s)))
}

/// The push that a line stands for, if it is one.
pub open spec fn parse_push(s: Seq<char>) -> Option<MessageModel> {
    if code_of(s, "ALARM:"@) is Some {
        Some(MessageModel::Alarm(code_of(s, "ALARM:"@)->Some_0))
    } else if is_report_line(s) {
        Some(MessageModel::Report(report_of(inner(s)), s))
    } else if is_feedback_line(s) {
        Some(
            MessageModel::Feedback(
                inner(s).take(feedback_colon(s)),
                inner(s).skip(feedback_colon(s) + 1),
                s,
            ),
        )
    } else {
        None
    }
}

/// The message that a trimmed line stands for.
pub open spec fn parse_line(s: Seq<char>) -> MessageModel {
    if s == "ok"@ {
        MessageModel::Response(Response::Okay)
    } else if code_of(s, "error:"@) is Some {
        MessageModel::Response(Response::Error(code_of(s, "error:"@)->Some_0))
    } else if parse_push(s) is Some {
        parse_push(s)->Some_0
    } else {
        MessageModel::Unknown(s)
    }
}

/// Every code in the line is written without leading zeros.
pub open spec fn canonical_codes(s: Seq<char>) -> bool {
    &&& code_of(s, "error:"@) matches Some(c) ==> s.skip("error:"@.len() as int) == decimal_text(
        c as nat,
    )
    &&& code_of(s, "ALARM:"@) matches Some(c) ==> s.skip("ALARM:"@.len() as int) == decimal_text(
        c as nat,
    )
}

/// The canonical text of a message.
pub open spec fn format_model(m: MessageModel) -> Seq<char> {
    match m {
        MessageModel::Response(Response::Okay) => "ok"@,
        MessageModel::Response(Response::Error(c)) => "error:"@ + decimal_text(c as nat),
        MessageModel::Alarm(c) => "ALARM:"@ + decimal_text(c as nat),
        MessageModel::Report(_, raw) => raw,
        MessageModel::Feedback(_, _, raw) => raw,
        MessageModel::Unknown(raw) => raw,
    }
}

/// Whether `s` begins with `p`.
pub fn starts_with(s: &str, p: &str) -> (r: bool)
    ensures
        r == has_prefix(s@, p@),
{
    let cs = chars_of(s);
    let ps = chars_of(p);
    if ps.len() > cs.len() {
        return false;
    }
    let mut i: usize = 0;
    while i < ps.len()
        invariant
            cs@ == s@,
            ps@ == p@,
            ps@.len() <= cs@.len(),
            i <= ps@.len(),
            forall|j: int| 0 <= j < i ==> cs@[j] == ps@[j],
        decreases ps@.len() - i,
    {
        if cs[i] != ps[i] {
            assert(s@.take(p@.len() as int)[i as int] != p@[i as int]);
            return false;
        }
        i = i + 1;
    }
    assert(s@.take(p@.len() as int) =~= p@);
    true
}

/// Whether two strings hold the same characters.
pub fn same_text(a: &str, b: &str) -> (r: bool)
    ensures
        r == (a@ == b@),
{
    let r = a.unicode_len() == b.unicode_len() && starts_with(a, b);
    proof {
        if a@.len() == b@.len() && has_prefix(a@, b@) {
            assert(a@.take(b@.len() as int) =~= a@);
        }
        if a@ == b@ {
            assert(a@.take(b@.len() as int) =~= b@);
        }
    }
    r
}

/// Whether every character is an ASCII digit, and there is at least one.
pub fn is_numeral_str(s: &str) -> (r: bool)
    ensures
        r == is_numeral(s@),
{
    let cs = chars_of(s);
    let mut i: usize = 0;
    while i < cs.len()
        invariant
            cs@ == s@,
            i <= cs@.len(),
            forall|j: int| 0 <= j < i ==> crate::text::is_digit(#[trigger] cs@[j]),
        decreases cs@.len() - i,
    {
        if !('0' <= cs[i] && cs[i] <= '9') {
            return false;
        }
        i = i + 1;
    }
    cs.len() > 0
}

/// The code after `prefix`, checked as `code_of` states, and whether the line
/// had the shape at all.
fn read_code(s: &str, prefix: &str) -> (r: (bool, Option<u8>))
    ensures
        r.0 == is_code_line(s@, prefix@),
        r.1 == code_of(s@, prefix@),
{
    if !starts_with(s, prefix) {
        return (false, None);
    }
    let rest = s.substring_char(prefix.unicode_len(), s.unicode_len());
    assert(rest@ == s@.skip(prefix@.len() as int));
    if !is_numeral_str(rest) {
        return (false, None);
    }
    match parse_decimal(rest, 255) {
        Some(v) => (true, Some(v as u8)),
        None => (true, None),
    }
}

impl Status {
    /// The machine state named by a status word.
    pub fn from_word(w: &str) -> (r: Status)
        ensures
            r == status_of(w@),
    {
        if same_text(w, "Idle") {
            Status::Idle
        } else if same_text(w, "Home") {
            Status::Home
        } else if same_text(w, "Jog") {
            Status::Jog
        } else {
            Status::Unknown
        }
    }
}

fn counter(s: &String) -> (r: usize)
    ensures
        r == counter_of(s@),
{
    match parse_decimal(s.as_str(), usize::MAX as u64) {
        Some(v) => v as usize,
        None => 0,
    }
}

fn read_mpos(f: &String) -> (r: Option<Position>)
    ensures
        match r {
            Some(p) => mpos_field(f@) == Some((p.x@, p.y@, p.z@)),
            None => mpos_field(f@) is None,
        },
{
    if !starts_with(f.as_str(), "MPos:") {
        return None;
    }
    let rest = f.as_str().substring_char("MPos:".unicode_len(), f.as_str().unicode_len());
    let parts = split_str(rest, ',');
    assert(parts@.map_values(|p: String| p@).len() == parts@.len());
    if parts.len() < 3 {
        return None;
    }
    assert(parts@.map_values(|p: String| p@)[0] == parts@[0]@);
    assert(parts@.map_values(|p: String| p@)[1] == parts@[1]@);
    assert(parts@.map_values(|p: String| p@)[2] == parts@[2]@);
    Some(Position { x: parts[0].clone(), y: parts[1].clone(), z: parts[2].clone() })
}

fn read_bf(f: &String) -> (r: Option<(usize, usize)>)
    ensures
        r == bf_field(f@),
{
    if starts_with(f.as_str(), "MPos:") || !starts_with(f.as_str(), "Bf:") {
        return None;
    }
    let rest = f.as_str().substring_char("Bf:".unicode_len(), f.as_str().unicode_len());
    let parts = split_str(rest, ',');
    assert(parts@.map_values(|p: String| p@).len() == parts@.len());
    if parts.len() < 2 {
        return None;
    }
    assert(parts@.map_values(|p: String| p@)[0] == parts@[0]@);
    assert(parts@.map_values(|p: String| p@)[1] == parts@[1]@);
    Some((counter(&parts[0]), counter(&parts[1])))
}

impl Default for Report {
    /// A report of unknown status with no position and no counters.
    fn default() -> (r: Report)
        ensures
            r.status == Status::Unknown,
            r.mpos is None,
            r.bf is None,
    {
        Report { status: Status::Unknown, mpos: None, bf: None }
    }
}

impl Report {
    /// Reads a status report line `<Status|Field:Value|...>`.
    pub fn parse(line: &str) -> (r: Result<Report, ParseError>)
        ensures
            r is Ok <==> is_report_line(line@),
            match r {
                Ok(rep) => rep@ == report_of(inner(line@)),
                Err(ParseError::UnknownFormat(t)) => t@ == line@,
                Err(_) => false,
            },
    {
        let cs = chars_of(line);
        let n = cs.len();
        if n >= 3 && cs[0] == '<' && cs[n - 1] == '>' {
            let body = line.substring_char(1, n - 1);
            let bcs = chars_of(body);
            assert(bcs@.skip(0) =~= bcs@);
            assert(body@ == inner(line@));
            if find_from(&bcs, '>', 0) == bcs.len() && bcs[0] != '|' {
                return Ok(Report::from_body(body));
            }
        }
        Err(ParseError::UnknownFormat(line.to_owned()))
    }

    /// Reads the fields of a report from the text between `<` and `>`.
    pub fn from_body(body: &str) -> (r: Report)
        requires
            body@.len() > 0,
        ensures
            r@ == report_of(body@),
    {
        let fields = split_str(body, '|');
        let ghost fv = fields@.map_values(|p: String| p@);
        assert(fv == split(body@, '|'));
        proof {
            lemma_split_nonempty(body@, '|');
        }
        assert(fv[0] == fields@[0]@);
        let status = Status::from_word(fields[0].as_str());
        let mut mpos: Option<Position> = None;
        let mut bf: Option<(usize, usize)> = None;
        let mut i: usize = 1;
        assert(fv.subrange(1, 1) =~= Seq::<Seq<char>>::empty());
        while i < fields.len()
            invariant
                fv == fields@.map_values(|p: String| p@),
                1 <= i <= fields@.len(),
                match mpos {
                    Some(p) => last_mpos(fv.subrange(1, i as int)) == Some((p.x@, p.y@, p.z@)),
                    None => last_mpos(fv.subrange(1, i as int)) is None,
                },
                bf == last_bf(fv.subrange(1, i as int)),
            decreases fields@.len() - i,
        {
            let f = &fields[i];
            assert(fv[i as int] == f@);
            assert(fv.subrange(1, i + 1).drop_last() =~= fv.subrange(1, i as int));
            assert(fv.subrange(1, i + 1).last() == f@);
            match read_mpos(f) {
                Some(p) => {
                    mpos = Some(p);
                },
                None => {},
            }
            match read_bf(f) {
                Some(b) => {
                    bf = Some(b);
                },
                None => {},
            }
            i = i + 1;
        }
        assert(fv.subrange(1, fv.len() as int) =~= fv.drop_first());
        Report { status, mpos, bf }
    }
}

fn is_feedback_kind_str(k: &str) -> (r: bool)
    ensures
        r == is_feedback_kind(k@),
{
    if same_text(k, "MSG") || same_text(k, "GC") || same_text(k, "PRB") || same_text(k, "TLO") {
        return true;
    }
    let n = k.unicode_len();
    if n < 2 || k.get_char(0) != 'G' {
        return false;
    }
    let rest = k.substring_char(1, n);
    assert(rest@ =~= k@.drop_first());
    is_numeral_str(rest)
}

impl Push {
    /// Reads an alarm, a status report or a feedback message.
    pub fn parse(s: &str) -> (r: Result<Push, ParseError>)
        ensures
            r is Ok <==> parse_push(s@) is Some,
            match r {
                Ok(p) => parse_push(s@) == Some(Message::Push(p)@),
                Err(ParseError::InvalidAlarmCode(t)) => is_code_line(s@, "ALARM:"@) && t@ == s@,
                Err(ParseError::UnknownFormat(t)) => !is_code_line(s@, "ALARM:"@) && t@ == s@,
                Err(ParseError::InvalidErrorCode(_)) => false,
            },
    {
        let (shaped, code) = read_code(s, "ALARM:");
        if let Some(c) = code {
            return Ok(Push::Alarm(c));
        }
        let cs = chars_of(s);
        let n = cs.len();
        if shaped {
            proof {
                reveal_strlit("ALARM:");
            }
            assert(s@.take(6)[0] == s@[0]);
            assert(s@[0] == 'A');
            return Err(ParseError::InvalidAlarmCode(s.to_owned()));
        }
        if n >= 3 && cs[0] == '<' && cs[n - 1] == '>' {
            let body = s.substring_char(1, n - 1);
            let bcs = chars_of(body);
            assert(bcs@.skip(0) =~= bcs@);
            assert(body@ == inner(s@));
            if find_from(&bcs, '>', 0) == bcs.len() && bcs[0] != '|' {
                let report = Report::from_body(body);
                return Ok(Push::Report(report, s.to_owned()));
            }
        }
        if n >= 2 && cs[0] == '[' && cs[n - 1] == ']' {
            let body = s.substring_char(1, n - 1);
            let bcs = chars_of(body);
            let m = bcs.len();
            assert(bcs@.skip(0) =~= bcs@);
            assert(body@ == inner(s@));
            if find_from(&bcs, ']', 0) == m {
                let colon = find_from(&bcs, ':', 0);
                if colon < m {
                    let kind = body.substring_char(0, colon);
                    if is_feedback_kind_str(kind) {
                        let data = body.substring_char(colon + 1, m);
                        let feedback = Feedback { kind: kind.to_owned(), data: data.to_owned() };
                        return Ok(Push::Feedback(feedback, s.to_owned()));
                    }
                }
            }
        }
        Err(ParseError::UnknownFormat(s.to_owned()))
    }
}

impl Message {
    /// Classifies one trimmed line from the controller.
    pub fn parse(s: &str) -> (r: Message)
        ensures
            r@ == parse_line(s@),
    {
        match Response::parse(s) {
            Ok(resp) => Message::Response(resp),
            Err(_) => match Push::parse(s) {
                Ok(p) => Message::Push(p),
                Err(_) => Message::Unknown(s.to_owned()),
            },
        }
    }

    /// Classifies a line as read from the transport, surrounding whitespace
    /// and a trailing carriage return included.
    pub fn from_line(raw: &str) -> (r: Message)
        ensures
            r@ == parse_line(crate::text::trimmed(raw@)),
    {
        Message::parse(crate::text::trim_line(raw))
    }

    /// The canonical text of the message; a report, a feedback message or an
    /// unknown line gives back the line it was read from.
    pub fn format(&self) -> (r: String)
        ensures
            r@ == format_model(self@),
    {
        match self {
            Message::Response(resp) => resp.format(),
            Message::Push(Push::Alarm(c)) => {
                let mut r = "ALARM:".to_owned();
                let d = decimal_string(*c as u64);
                r.append(d.as_str());
                r
            },
            Message::Push(Push::Report(_, raw)) => raw.clone(),
            Message::Push(Push::Feedback(_, raw)) => raw.clone(),
            Message::Unknown(raw) => raw.clone(),
        }
    }
}

/// Formatting a parsed line gives the line back, whenever its codes carry no
/// leading zeros.
pub proof fn lemma_format_parse_round_trip(s: Seq<char>)
    requires
        canonical_codes(s),
    ensures
        format_model(parse_line(s)) == s,
{
    if s != "ok"@ {
        if let Some(c) = code_of(s, "error:"@) {
            assert(s =~= s.take("error:"@.len() as int) + s.skip("error:"@.len() as int));
        } else if let Some(c) = code_of(s, "ALARM:"@) {
            assert(s =~= s.take("ALARM:"@.len() as int) + s.skip("ALARM:"@.len() as int));
        }
    }
}

/// `error:N` and `ALARM:N` read back as code `N` and format to the same text,
/// for every code `N` of a byte.
pub proof fn lemma_code_lines_round_trip(n: u8)
    ensures
        parse_line("error:"@ + decimal_text(n as nat)) == MessageModel::Response(
            Response::Error(n),
        ),
        parse_line("ALARM:"@ + decimal_text(n as nat)) == MessageModel::Alarm(n),
        format_model(parse_line("error:"@ + decimal_text(n as nat))) == "error:"@ + decimal_text(
            n as nat,
        ),
        format_model(parse_line("ALARM:"@ + decimal_text(n as nat))) == "ALARM:"@ + decimal_text(
            n as nat,
        ),
{
    reveal_strlit("ok");
    reveal_strlit("error:");
    reveal_strlit("ALARM:");
    lemma_decimal_text_value(n as nat);
    let d = decimal_text(n as nat);
    let e = "error:"@ + d;
    let a = "ALARM:"@ + d;
    assert(e.take(6) =~= "error:"@);
    assert(e.skip(6) =~= d);
    assert(a.take(6) =~= "ALARM:"@);
    assert(a.skip(6) =~= d);
    assert(e.len() != "ok"@.len());
    assert(a.len() != "ok"@.len());
    assert(a[0] != "error:"@[0]);
    assert(a.take(6) != "error:"@);
}

/// Splitting always gives at least one piece.
pub proof fn lemma_split_nonempty(s: Seq<char>, sep: char)
    ensures
        split(s, sep).len() >= 1,
    decreases s.len(),
{
}

impl Response {
    /// Reads `ok` or `error:<code>`.
    pub fn parse(s: &str) -> (r: Result<Response, ParseError>)
        ensures
            match r {
                Ok(Response::Okay) => s@ == "ok"@,
                Ok(Response::Error(c)) => s@ != "ok"@ && code_of(s@, "error:"@) == Some(c),
                Err(ParseError::InvalidErrorCode(t)) => s@ != "ok"@ && is_code_line(
                    s@,
                    "error:"@,
                ) && code_of(s@, "error:"@) is None && t@ == s@,
                Err(ParseError::UnknownFormat(t)) => s@ != "ok"@ && !is_code_line(s@, "error:"@)
                    && t@ == s@,
                Err(ParseError::InvalidAlarmCode(_)) => false,
            },
    {
        if same_text(s, "ok") {
            return Ok(Response::Okay);
        }
        let (shaped, code) = read_code(s, "error:");
        match code {
            Some(c) => Ok(Response::Error(c)),
            None => if shaped {
                Err(ParseError::InvalidErrorCode(s.to_owned()))
            } else {
                Err(ParseError::UnknownFormat(s.to_owned()))
            },
        }
    }

    /// The canonical text of a response.
    pub fn format(&self) -> (r: String)
        ensures
            r@ == format_model(MessageModel::Response(*self)),
    {
        match self {
            Response::Okay => "ok".to_owned(),
            Response::Error(c) => {
                let mut r = "error:".to_owned();
                let d = decimal_string(*c as u64);
                r.append(d.as_str());
                r
            },
        }
    }
}

/// The shortest decimal numeral of `n`.
pub fn decimal_string(n: u64) -> (r: String)
    ensures
        r@ == decimal_text(n as nat),
    decreases n,
{
    if n < 10 {
        digit_str(n)
    } else {
        let mut r = decimal_string(n / 10);
        let d = digit_str(n % 10);
        r.append(d.as_str());
        r
    }
}

fn digit_str(d: u64) -> (r: String)
    requires
        d < 10,
    ensures
        r@ == seq![crate::text::digit_char(d as nat)],
{
    let s = if d == 0 {
        "0"
    } else if d == 1 {
        "1"
    } else if d == 2 {
        "2"
    } else if d == 3 {
        "3"
    } else if d == 4 {
        "4"
    } else if d == 5 {
        "5"
    } else if d == 6 {
        "6"
    } else if d == 7 {
        "7"
    } else if d == 8 {
        "8"
    } else {
        "9"
    };
    proof {
        reveal_strlit("0");
        reveal_strlit("1");
        reveal_strlit("2");
        reveal_strlit("3");
        reveal_strlit("4");
        reveal_strlit("5");
        reveal_strlit("6");
        reveal_strlit("7");
        reveal_strlit("8");
        reveal_strlit("9");
    }
    assert(s@ =~= seq![crate::text::digit_char(d as nat)]);
    s.to_owned()
}

} // verus!
