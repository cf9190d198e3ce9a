//! The diagnostic trace: the errors of a cascading failure, each tagged with
//! the stage that reported it, the deepest cause first.

use crate::error::error::{error_at, Error, ErrorKind, ErrorView, LineColLocation};
use crate::error::span::Span;
use crate::parsing::Pair;
use vstd::prelude::*;
use vstd::string::{StrSliceExecFns, StringExecFns};

verus! {

/// The stages of the compiler.
#[derive(PartialEq, Eq, Debug, Clone, Copy)]
pub enum Stage {
    Unknown,
    Parsing,
    AstBuilding,
    Binding,
    Typing,
    Compiling,
}

/// An error that a trace can hold: it has a place in the source, the text of
/// the line there, and a message. A trace keeps of an error what these
/// methods give.
pub trait TraceError: Sized {
    /// An error of no particular kind that covers `span`.
    fn from_span(span: Span, message: &str) -> Self;

    /// The kind of failure, if the error reports one.
    fn kind(&self) -> Option<ErrorKind>;

    /// Where the error lies.
    fn line_col(&self) -> LineColLocation;

    /// The source line that the error starts on.
    fn line(&self) -> &str;

    /// What went wrong.
    fn message(&self) -> &str;
}

/// Whether `kept` holds what the methods of `err` may give: its kind, its
/// place, its line and its message.
pub open spec fn reports<T: TraceError>(err: T, kept: ErrorView) -> bool {
    &&& T::kind.ensures((&err,), kept.kind)
    &&& T::line_col.ensures((&err,), kept.location)
    &&& exists|line: &str| #[trigger] T::line.ensures((&err,), line) && line@ == kept.line
    &&& exists|message: &str| #[trigger]
        T::message.ensures((&err,), message) && message@ == kept.message
}

/// The frames of a trace: the deepest cause first, then each context that it
/// passed through on its way out.
pub type Frames = Seq<(Stage, ErrorView)>;

/// A cascading failure.
#[derive(PartialEq, Eq, Debug)]
pub struct Trace {
    stack: Vec<(Stage, Error)>,
}

impl View for Trace {
    type V = Frames;

    closed spec fn view(&self) -> Frames {
        Seq::new(self.stack@.len(), |i: int| (self.stack@[i].0, self.stack@[i].1@))
    }
}

/// Copies out of an error what a trace keeps of it.
fn keep<T: TraceError>(err: &T) -> (kept: Error)
    ensures
        reports(*err, kept@),
{
    let kind = err.kind();
    let location = err.line_col();
    let line = err.line();
    let message = err.message();
    Error { kind, location, line: line.to_owned(), message: message.to_owned() }
}

/// Of an error of this library a trace keeps everything.
pub proof fn lemma_reports_all(err: Error, kept: ErrorView)
    requires
        reports(err, kept),
    ensures
        kept == err@,
{
}

impl Default for Trace {
    fn default() -> (trace: Self)
        ensures
            trace@ == Frames::empty(),
    {
        let trace = Trace { stack: Vec::new() };
        assert(trace@ =~= Frames::empty());
        trace
    }
}

impl<T: TraceError> From<(Stage, T)> for Trace {
    /// A trace with one frame: the error, reported by the stage.
    fn from(frame: (Stage, T)) -> (trace: Self)
        ensures
            trace@.len() == 1,
            trace@[0].0 == frame.0,
            reports(frame.1, trace@[0].1),
    {
        Trace::new(frame.0, frame.1)
    }
}

/// No trace can be written down in a specification: what the conversion
/// gives is stated with `from` itself.
impl<T: TraceError> vstd::std_specs::convert::FromSpecImpl<(Stage, T)> for Trace {
    open spec fn obeys_from_spec() -> bool {
        false
    }

    open spec fn from_spec(frame: (Stage, T)) -> Self {
        arbitrary()
    }
}

impl<T: TraceError> From<T> for Trace {
    /// A trace with one frame: the error, reported by no known stage.
    fn from(err: T) -> (trace: Self)
        ensures
            trace@.len() == 1,
            trace@[0].0 == Stage::Unknown,
            reports(err, trace@[0].1),
    {
        Trace::new(Stage::Unknown, err)
    }
}

/// No trace can be written down in a specification: what the conversion
/// gives is stated with `from` itself.
impl<T: TraceError> vstd::std_specs::convert::FromSpecImpl<T> for Trace {
    open spec fn obeys_from_spec() -> bool {
        false
    }

    open spec fn from_spec(err: T) -> Self {
        arbitrary()
    }
}

impl Trace {
    /// A trace with one frame: the cause.
    pub fn new<T: TraceError>(stage: Stage, err: T) -> (trace: Self)
        ensures
            trace@.len() == 1,
            trace@[0].0 == stage,
            reports(err, trace@[0].1),
    {
        let mut stack: Vec<(Stage, Error)> = Vec::new();
        stack.push((stage, keep(&err)));
        Trace { stack }
    }

    /// A trace of one frame, reported by the parser at a match.
    pub fn new_from_pair(pair: &Pair, message: String) -> (trace: Self)
        ensures
            trace@ == seq![(Stage::Parsing, error_at(None, pair.span, message@))],
    {
        let mut trace = Trace::default();
        trace.push_pest_error(Stage::Parsing, pair, message);
        assert(trace@ =~= seq![(Stage::Parsing, error_at(None, pair.span, message@))]);
        trace
    }

    /// Adds a frame on top, reported by `stage` at a match.
    pub fn push_pest_error(&mut self, stage: Stage, pair: &Pair, message: String)
        ensures
            final(self)@ == old(self)@.push((stage, error_at(None, pair.span, message@))),
    {
        let err = Error::from_span(pair.span.clone(), message.as_str());
        self.push(stage, err);
        proof {
            lemma_reports_all(err, self@.last().1);
            assert(self@ =~= old(self)@.push((stage, err@)));
        }
    }

    /// Adds a frame on top: the context through which the failure passes.
    pub fn push<T: TraceError>(&mut self, stage: Stage, err: T)
        ensures
            final(self)@.len() == old(self)@.len() + 1,
            final(self)@.drop_last() == old(self)@,
            final(self)@.last().0 == stage,
            reports(err, final(self)@.last().1),
    {
        self.stack.push((stage, keep(&err)));
        assert(self@.drop_last() =~= old(self)@);
    }

    /// The number of frames.
    pub fn len(&self) -> (count: usize)
        ensures
            count == self@.len(),
    {
        self.stack.len()
    }

    /// The stage that reported the frame at `index`, counted from the
    /// deepest.
    pub fn stage(&self, index: usize) -> (stage: Option<Stage>)
        ensures
            stage == if index < self@.len() {
                Some(self@[index as int].0)
            } else {
                None
            },
    {
        if index < self.stack.len() {
            Some(self.stack[index].0)
        } else {
            None
        }
    }

    /// The error of the frame at `index`, counted from the deepest.
    pub fn error(&self, index: usize) -> (err: Option<&Error>)
        ensures
            match err {
                Some(err) => index < self@.len() && err@ == self@[index as int].1,
                None => index >= self@.len(),
            },
    {
        if index < self.stack.len() {
            Some(&self.stack[index].1)
        } else {
            None
        }
    }

    /// The kind of the failure that started the trace: that of its deepest
    /// frame.
    pub fn cause(&self) -> (kind: Option<ErrorKind>)
        ensures
            kind == cause_of(self@),
    {
        if self.stack.len() > 0 {
            self.stack[0].1.kind
        } else {
            None
        }
    }
}

/// The kind of the failure that started a trace.
pub open spec fn cause_of(frames: Frames) -> Option<ErrorKind> {
    if frames.len() > 0 {
        frames[0].1.kind
    } else {
        None
    }
}

/// The character that stands for a digit.
pub open spec fn digit(value: int) -> char {
    if value == 0 {
        '0'
    } else if value == 1 {
        '1'
    } else if value == 2 {
        '2'
    } else if value == 3 {
        '3'
    } else if value == 4 {
        '4'
    } else if value == 5 {
        '5'
    } else if value == 6 {
        '6'
    } else if value == 7 {
        '7'
    } else if value == 8 {
        '8'
    } else {
        '9'
    }
}

/// A number written in decimal digits.
pub open spec fn decimal(value: nat) -> Seq<char>
    decreases value,
{
    if value < 10 {
        seq![digit(value as int)]
    } else {
        decimal(value / 10).push(digit((value % 10) as int))
    }
}

/// One character, `count` times.
pub open spec fn repeated(c: char, count: nat) -> Seq<char> {
    Seq::new(count, |i: int| c)
}

/// The name of a stage.
pub open spec fn stage_name(stage: Stage) -> Seq<char> {
    match stage {
        Stage::Unknown => "Unknown"@,
        Stage::Parsing => "Parsing"@,
        Stage::AstBuilding => "AstBuilding"@,
        Stage::Binding => "Binding"@,
        Stage::Typing => "Typing"@,
        Stage::Compiling => "Compiling"@,
    }
}

/// The line on which a location starts.
pub open spec fn first_line(location: LineColLocation) -> usize {
    match location {
        LineColLocation::Pos((line, _)) => line,
        LineColLocation::Span((line, _), _) => line,
    }
}

/// A location as text: `line:column`, or `line:column -> line:column`.
pub open spec fn coordinates(location: LineColLocation) -> Seq<char> {
    match location {
        LineColLocation::Pos((line, column)) => decimal(line as nat) + ":"@ + decimal(
            column as nat,
        ),
        LineColLocation::Span((line, column), (last_line, last_column)) => decimal(line as nat)
            + ":"@ + decimal(column as nat) + " -> "@ + decimal(last_line as nat) + ":"@ + decimal(
            last_column as nat,
        ),
    }
}

/// `high - low`, or zero where `low` is the greater.
pub open spec fn gap(high: int, low: int) -> nat {
    if high > low {
        (high - low) as nat
    } else {
        0
    }
}

/// The length of a text in bytes, as `str::len` gives it.
pub open spec fn byte_length(text: Seq<char>) -> usize {
    vstd::utf8::encode_utf8(text).len() as usize
}

/// The marks under a source line that show a location: a caret under a
/// position; a caret at each end of a range within one line, dashes
/// between; for a range over several lines, a caret where it starts and a
/// dash for each byte of the line from the starting column on.
pub open spec fn underline(location: LineColLocation, line: Seq<char>) -> Seq<char> {
    match location {
        LineColLocation::Pos((_, column)) => repeated(' ', column as nat) + "^"@,
        LineColLocation::Span((first, column), (last, last_column)) => if first == last {
            repeated(' ', column as nat) + "^"@ + repeated('-', gap(last_column - 1, column as int))
                + "^"@
        } else {
            repeated(' ', column as nat) + "^"@ + repeated(
                '-',
                gap(byte_length(line) as int, column as int),
            )
        },
    }
}

/// The first line of a frame: an arrow as wide as the line number, the
/// stage and the coordinates.
pub open spec fn heading(width: nat, stage: Stage, location: LineColLocation) -> Seq<char> {
    repeated('-', width) + "> "@ + stage_name(stage) + " | "@ + coordinates(location) + "\n"@
}

/// A line of a frame behind the margin: the margin's blanks, a mark, and
/// the text.
pub open spec fn margin_line(width: nat, mark: Seq<char>, text: Seq<char>) -> Seq<char> {
    repeated(' ', width) + mark + text + "\n"@
}

/// One frame of a report: the stage and the coordinates behind an arrow, the
/// source line behind its number, the underline, and the message.
pub open spec fn frame_text(stage: Stage, err: ErrorView) -> Seq<char> {
    let number = decimal(first_line(err.location) as nat);
    let width = number.len();
    heading(width, stage, err.location) + margin_line(width, "|"@, Seq::empty()) + (number + "| "@
        + err.line + "\n"@) + margin_line(width, "|"@, underline(err.location, err.line))
        + margin_line(width, "= "@, err.message)
}

/// The frames of a report, one after the other.
pub open spec fn frames_text(frames: Frames) -> Seq<char>
    decreases frames.len(),
{
    if frames.len() == 0 {
        Seq::empty()
    } else {
        frames_text(frames.drop_last()) + frame_text(frames.last().0, frames.last().1)
    }
}

/// The report of a trace: a heading, then each frame, the deepest first.
pub open spec fn rendered(frames: Frames) -> Seq<char> {
    "Deepest error first\n"@ + frames_text(frames)
}

/// The text of one digit.
fn digit_text(value: usize) -> (text: &'static str)
    requires
        value < 10,
    ensures
        text@ == seq![digit(value as int)],
{
    proof {
        reveal_strlit("0");
        reveal_strlit("1");
        reveal_strlit("2");
        reveal_strlit("3");
        reveal_strlit("4");
        reveal_strlit("5");
        reveal_strlit("6");
        reveal_strlit("7");
        reveal_strlit("8");
        reveal_strlit("9");
    }
    let text = if value == 0 {
        "0"
    } else if value == 1 {
        "1"
    } else if value == 2 {
        "2"
    } else if value == 3 {
        "3"
    } else if value == 4 {
        "4"
    } else if value == 5 {
        "5"
    } else if value == 6 {
        "6"
    } else if value == 7 {
        "7"
    } else if value == 8 {
        "8"
    } else {
        "9"
    };
    assert(text@ =~= seq![digit(value as int)]);
    text
}

/// Writes a number in decimal digits.
fn append_decimal(out: &mut String, value: usize)
    ensures
        final(out)@ == old(out)@ + decimal(value as nat),
    decreases value,
{
    if value >= 10 {
        append_decimal(out, value / 10);
    }
    out.append(digit_text(value % 10));
    assert(out@ =~= old(out)@ + decimal(value as nat));
}

/// Writes a one-character text `count` times.
fn append_repeated(out: &mut String, piece: &str, count: usize)
    requires
        piece@.len() == 1,
    ensures
        final(out)@ == old(out)@ + repeated(piece@[0], count as nat),
{
    let mut done: usize = 0;
    while done < count
        invariant
            done <= count,
            piece@.len() == 1,
            out@ == old(out)@ + repeated(piece@[0], done as nat),
        decreases count - done,
    {
        out.append(piece);
        done += 1;
        assert(out@ =~= old(out)@ + repeated(piece@[0], done as nat));
    }
}

impl Stage {
    /// The stage's name.
    pub fn name(&self) -> (name: &'static str)
        ensures
            name@ == stage_name(*self),
    {
        match self {
            Stage::Unknown => "Unknown",
            Stage::Parsing => "Parsing",
            Stage::AstBuilding => "AstBuilding",
            Stage::Binding => "Binding",
            Stage::Typing => "Typing",
            Stage::Compiling => "Compiling",
        }
    }
}

impl LineColLocation {
    /// The line on which the location starts.
    pub fn first_line(&self) -> (line: usize)
        ensures
            line == first_line(*self),
    {
        match self {
            LineColLocation::Pos((line, _)) => *line,
            LineColLocation::Span((line, _), _) => *line,
        }
    }

    /// Writes the location: `line:column`, or `line:column -> line:column`.
    fn append_coordinates(&self, out: &mut String)
        ensures
            final(out)@ == old(out)@ + coordinates(*self),
    {
        match self {
            LineColLocation::Pos((line, column)) => {
                append_decimal(out, *line);
                out.append(":");
                append_decimal(out, *column);
                assert(out@ =~= old(out)@ + coordinates(*self));
            },
            LineColLocation::Span((line, column), (last_line, last_column)) => {
                append_decimal(out, *line);
                out.append(":");
                append_decimal(out, *column);
                out.append(" -> ");
                append_decimal(out, *last_line);
                out.append(":");
                append_decimal(out, *last_column);
                assert(out@ =~= old(out)@ + coordinates(*self));
            },
        }
    }

    /// Writes the marks that show the location under its source line.
    fn append_underline(&self, out: &mut String, line: &str)
        ensures
            final(out)@ == old(out)@ + underline(*self, line@),
    {
        proof {
            reveal_strlit(" ");
            reveal_strlit("-");
        }
        match self {
            LineColLocation::Pos((_, column)) => {
                append_repeated(out, " ", *column);
                out.append("^");
                assert(out@ =~= old(out)@ + underline(*self, line@));
            },
            LineColLocation::Span((first, column), (last, last_column)) => {
                append_repeated(out, " ", *column);
                out.append("^");
                if *first == *last {
                    let dashes: usize = if *last_column > *column && *last_column - *column > 1 {
                        *last_column - 1 - *column
                    } else {
                        0
                    };
                    append_repeated(out, "-", dashes);
                    out.append("^");
                    assert(out@ =~= old(out)@ + underline(*self, line@));
                } else {
                    let width = line.len();
                    let dashes: usize = if width > *column {
                        width - *column
                    } else {
                        0
                    };
                    append_repeated(out, "-", dashes);
                    assert(out@ =~= old(out)@ + underline(*self, line@));
                }
            },
        }
    }
}

/// The first line of a frame.
fn heading_text(width: usize, stage: Stage, location: &LineColLocation) -> (text: String)
    ensures
        text@ == heading(width as nat, stage, *location),
{
    proof {
        reveal_strlit("-");
    }
    let mut text = String::new();
    append_repeated(&mut text, "-", width);
    text.append("> ");
    text.append(stage.name());
    text.append(" | ");
    location.append_coordinates(&mut text);
    text.append("\n");
    assert(text@ =~= heading(width as nat, stage, *location));
    text
}

/// A line of a frame behind the margin.
fn margin_text(width: usize, mark: &str, text: &str) -> (line: String)
    ensures
        line@ == margin_line(width as nat, mark@, text@),
{
    proof {
        reveal_strlit(" ");
    }
    let mut line = String::new();
    append_repeated(&mut line, " ", width);
    line.append(mark);
    line.append(text);
    line.append("\n");
    assert(line@ =~= margin_line(width as nat, mark@, text@));
    line
}

/// Writes one frame of a report.
fn append_frame(out: &mut String, stage: Stage, err: &Error)
    ensures
        final(out)@ == old(out)@ + frame_text(stage, err@),
{
    let mut number = String::new();
    append_decimal(&mut number, err.location.first_line());
    assert(number@ =~= decimal(first_line(err.location) as nat));
    let width = number.as_str().unicode_len();
    let mut marks = String::new();
    err.location.append_underline(&mut marks, err.line.as_str());
    assert(marks@ =~= underline(err.location, err.line@));
    let mut source = String::new();
    source.append(number.as_str());
    source.append("| ");
    source.append(err.line.as_str());
    source.append("\n");
    assert(source@ =~= number@ + "| "@ + err.line@ + "\n"@);
    let empty = String::new();
    let ghost before = out@;
    out.append(heading_text(width, stage, &err.location).as_str());
    out.append(margin_text(width, "|", empty.as_str()).as_str());
    out.append(source.as_str());
    out.append(margin_text(width, "|", marks.as_str()).as_str());
    out.append(margin_text(width, "= ", err.message.as_str()).as_str());
    assert(out@ =~= before + frame_text(stage, err@));
}

impl Trace {
    /// The report of the trace, for a reader: a heading, then a block for
    /// each frame, the deepest first, that shows the stage, the coordinates,
    /// the source line, an underline of the place, and the message.
    pub fn render(&self) -> (report: String)
        ensures
            report@ == rendered(self@),
    {
        let mut report = String::new();
        report.append("Deepest error first\n");
        let mut at: usize = 0;
        while at < self.stack.len()
            invariant
                at <= self.stack.len(),
                report@ == "Deepest error first\n"@ + frames_text(self@.take(at as int)),
            decreases self.stack.len() - at,
        {
            let ghost before = report@;
            append_frame(&mut report, self.stack[at].0, &self.stack[at].1);
            at += 1;
            proof {
                let done = self@.take(at as int);
                assert(done.drop_last() =~= self@.take(at - 1));
                assert(done.last() == self@[at - 1]);
                assert(report@ =~= "Deepest error first\n"@ + frames_text(done));
            }
        }
        assert(self@.take(at as int) =~= self@);
        report
    }
}

} // verus!
