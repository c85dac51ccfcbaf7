//! The formatting and queueing core of the asynchronous file logger.
//!
//! Every logging call renders one line, `<timestamp> - <level>  <message>`,
//! with the timestamp read from the local clock, and appends it to the
//! logger's queue of pending lines; an error-annotated call appends two
//! lines carrying the same timestamp. Nothing is ever dropped or reordered:
//! the queue grows at its tail only, so lines leave in the order the calls
//! were made. The surrounding application drains the queue and hands the
//! lines to its writer thread.

use vstd::prelude::*;
use vstd::string::*;

use crate::time::format_timestamp;
use crate::time::lemma_timestamp_shape;
use crate::time::timestamp_chars;
use crate::time::Timestamp;

verus! {

/// The four severity levels, in increasing order of gravity.
#[derive(Clone, Copy, Debug, PartialEq, Eq, Structural)]
pub enum Level {
    Debug,
    Info,
    Warn,
    Error,
}

/// The eight-character level field of a log line: the level's name, padded
/// at the right with spaces.
pub open spec fn level_field(l: Level) -> Seq<char> {
    match l {
        Level::Debug => seq!['D', 'E', 'B', 'U', 'G', ' ', ' ', ' '],
        Level::Info => seq!['I', 'N', 'F', 'O', ' ', ' ', ' ', ' '],
        Level::Warn => seq!['W', 'A', 'R', 'N', ' ', ' ', ' ', ' '],
        Level::Error => seq!['E', 'R', 'R', 'O', 'R', ' ', ' ', ' '],
    }
}

/// A complete log line: the 23-character timestamp, the ` - ` separator,
/// the padded level field, two spaces, and the message.
pub open spec fn render_line(t: Timestamp, l: Level, msg: Seq<char>) -> Seq<char> {
    timestamp_chars(t) + seq![' ', '-', ' '] + level_field(l) + seq![' ', ' '] + msg
}

fn level_field_text(l: Level) -> (r: &'static str)
    ensures
        r@ == level_field(l),
{
    match l {
        Level::Debug => {
            proof {
                reveal_strlit("DEBUG   ");
                assert("DEBUG   "@ =~= level_field(Level::Debug));
            }
            "DEBUG   "
        },
        Level::Info => {
            proof {
                reveal_strlit("INFO    ");
                assert("INFO    "@ =~= level_field(Level::Info));
            }
            "INFO    "
        },
        Level::Warn => {
            proof {
                reveal_strlit("WARN    ");
                assert("WARN    "@ =~= level_field(Level::Warn));
            }
            "WARN    "
        },
        Level::Error => {
            proof {
                reveal_strlit("ERROR   ");
                assert("ERROR   "@ =~= level_field(Level::Error));
            }
            "ERROR   "
        },
    }
}

/// Renders one log line from its parts.
pub fn format_line(t: &Timestamp, l: Level, msg: &str) -> (r: String)
    requires
        t.wf(),
    ensures
        r@ == render_line(*t, l, msg@),
{
    let mut out = format_timestamp(t);
    proof {
        reveal_strlit(" - ");
        reveal_strlit("  ");
        assert(" - "@ =~= seq![' ', '-', ' ']);
        assert("  "@ =~= seq![' ', ' ']);
    }
    out.append(" - ");
    out.append(level_field_text(l));
    out.append("  ");
    out.append(msg);
    proof {
        assert(out@ =~= render_line(*t, l, msg@));
    }
    out
}

/// Relies on std's `format!`, which renders the error through its `Display`
/// implementation; nothing is assumed of the resulting text.
#[verifier::external_body]
fn error_text<T: std::error::Error>(error: &T) -> (r: String) {
    format!("{error}")
}

/// The models of the queued lines.
pub open spec fn lines_view(v: Seq<String>) -> Seq<Seq<char>> {
    v.map_values(|s: String| s@)
}

/// The logging core: renders lines and queues them, in call order, for the
/// application's writer.
#[derive(Debug)]
pub struct Logger {
    lines: Vec<String>,
}

impl View for Logger {
    type V = Seq<Seq<char>>;

    closed spec fn view(&self) -> Seq<Seq<char>> {
        lines_view(self.lines@)
    }
}

impl Logger {
    /// A logger with no pending lines.
    pub fn new() -> (r: Logger)
        ensures
            r@ == Seq::<Seq<char>>::empty(),
    {
        let r = Logger { lines: Vec::new() };
        proof {
            assert(r@ =~= Seq::<Seq<char>>::empty());
        }
        r
    }

    /// How many lines are pending.
    pub fn len(&self) -> (r: usize)
        ensures
            r == self@.len(),
    {
        self.lines.len()
    }

    /// The pending line at position `i`.
    pub fn line_at(&self, i: usize) -> (r: &String)
        requires
            i < self@.len(),
        ensures
            r@ == self@[i as int],
    {
        &self.lines[i]
    }

    /// Hands every pending line out, oldest first, leaving the queue empty.
    pub fn drain(&mut self) -> (r: Vec<String>)
        ensures
            lines_view(r@) == old(self)@,
            final(self)@ == Seq::<Seq<char>>::empty(),
    {
        let mut taken: Vec<String> = Vec::new();
        core::mem::swap(&mut self.lines, &mut taken);
        proof {
            assert(self@ =~= Seq::<Seq<char>>::empty());
        }
        taken
    }

    /// Renders one line, stamped with the clock's current reading, and
    /// queues it.
    fn log(&mut self, level: Level, message: &str)
        ensures
            exists|t: Timestamp|
                t.wf() && final(self)@ == old(self)@.push(render_line(t, level, message@)),
    {
        let t = Timestamp::now();
        let line = format_line(&t, level, message);
        self.lines.push(line);
        proof {
            assert(self@ =~= old(self)@.push(render_line(t, level, message@)));
        }
    }

    /// Renders two lines with one clock reading — the message and the
    /// error's textual form — and queues them, the message first.
    fn log_error<T: std::error::Error>(&mut self, level: Level, message: &str, error: &T)
        ensures
            exists|t: Timestamp, e: Seq<char>|
                t.wf() && final(self)@ == old(self)@.push(render_line(t, level, message@)).push(
                    render_line(t, level, e),
                ),
    {
        let t = Timestamp::now();
        let etext = error_text(error);
        let line = format_line(&t, level, message);
        let line2 = format_line(&t, level, etext.as_str());
        self.lines.push(line);
        self.lines.push(line2);
        proof {
            assert(self@ =~= old(self)@.push(render_line(t, level, message@)).push(
                render_line(t, level, etext@),
            ));
        }
    }

    /// Queues a debug-level message.
    pub fn debug(&mut self, message: &str)
        ensures
            exists|t: Timestamp|
                t.wf() && final(self)@ == old(self)@.push(render_line(t, Level::Debug, message@)),
    {
        self.log(Level::Debug, message)
    }

    /// Queues a debug-level message and the error's textual form, as two
    /// lines with one timestamp.
    pub fn debug_error<T: std::error::Error>(&mut self, message: &str, error: &T)
        ensures
            exists|t: Timestamp, e: Seq<char>|
                t.wf() && final(self)@ == old(self)@.push(
                    render_line(t, Level::Debug, message@),
                ).push(render_line(t, Level::Debug, e)),
    {
        self.log_error(Level::Debug, message, error)
    }

    /// Queues an info-level message.
    pub fn info(&mut self, message: &str)
        ensures
            exists|t: Timestamp|
                t.wf() && final(self)@ == old(self)@.push(render_line(t, Level::Info, message@)),
    {
        self.log(Level::Info, message)
    }

    /// Queues an info-level message and the error's textual form, as two
    /// lines with one timestamp.
    pub fn info_error<T: std::error::Error>(&mut self, message: &str, error: &T)
        ensures
            exists|t: Timestamp, e: Seq<char>|
                t.wf() && final(self)@ == old(self)@.push(
                    render_line(t, Level::Info, message@),
                ).push(render_line(t, Level::Info, e)),
    {
        self.log_error(Level::Info, message, error)
    }

    /// Queues a warning-level message.
    pub fn warn(&mut self, message: &str)
        ensures
            exists|t: Timestamp|
                t.wf() && final(self)@ == old(self)@.push(render_line(t, Level::Warn, message@)),
    {
        self.log(Level::Warn, message)
    }

    /// Queues a warning-level message and the error's textual form, as two
    /// lines with one timestamp.
    pub fn warn_error<T: std::error::Error>(&mut self, message: &str, error: &T)
        ensures
            exists|t: Timestamp, e: Seq<char>|
                t.wf() && final(self)@ == old(self)@.push(
                    render_line(t, Level::Warn, message@),
                ).push(render_line(t, Level::Warn, e)),
    {
        self.log_error(Level::Warn, message, error)
    }

    /// Queues an error-level message.
    pub fn error(&mut self, message: &str)
        ensures
            exists|t: Timestamp|
                t.wf() && final(self)@ == old(self)@.push(render_line(t, Level::Error, message@)),
    {
        self.log(Level::Error, message)
    }

    /// Queues an error-level message and the error's textual form, as two
    /// lines with one timestamp.
    pub fn error_error<T: std::error::Error>(&mut self, message: &str, error: &T)
        ensures
            exists|t: Timestamp, e: Seq<char>|
                t.wf() && final(self)@ == old(self)@.push(
                    render_line(t, Level::Error, message@),
                ).push(render_line(t, Level::Error, e)),
    {
        self.log_error(Level::Error, message, error)
    }
}

/// Ordering law: queueing one more line loses nothing and moves nothing —
/// every line already queued keeps its position, and the new line stands
/// after all of them. Since each logging call queues at the tail only (its
/// contract says so through `push`), the lines of any caller leave the
/// queue in the order they were issued.
pub proof fn lemma_append_keeps_order(before: Seq<Seq<char>>, line: Seq<char>)
    ensures
        before.push(line).len() == before.len() + 1,
        forall|k: int| 0 <= k < before.len() ==> before.push(line)[k] == #[trigger] before[k],
        before.push(line)[before.len() as int] == line,
{
}

/// Every rendered log line has the fixed shape the log file promises: 23
/// timestamp characters (digits in the digit positions, the calendar
/// separators between them), the ` - ` separator, the eight-character level
/// field, two spaces, and then exactly the message.
pub proof fn lemma_line_shape(t: Timestamp, l: Level, msg: Seq<char>)
    requires
        t.wf(),
    ensures
        render_line(t, l, msg).len() == 36 + msg.len(),
        render_line(t, l, msg).subrange(0, 23) == timestamp_chars(t),
        timestamp_chars(t).len() == 23,
        forall|k: int|
            0 <= k < 23 && k != 4 && k != 7 && k != 10 && k != 13 && k != 16 && k != 19
                ==> crate::is_dec_digit(#[trigger] timestamp_chars(t)[k]),
        timestamp_chars(t)[4] == '-',
        timestamp_chars(t)[7] == '-',
        timestamp_chars(t)[10] == ' ',
        timestamp_chars(t)[13] == ':',
        timestamp_chars(t)[16] == ':',
        timestamp_chars(t)[19] == '.',
        render_line(t, l, msg).subrange(23, 26) == seq![' ', '-', ' '],
        render_line(t, l, msg).subrange(26, 34) == level_field(l),
        render_line(t, l, msg).subrange(34, 36) == seq![' ', ' '],
        render_line(t, l, msg).skip(36) == msg,
{
    lemma_timestamp_shape(t);
    assert(render_line(t, l, msg).subrange(0, 23) =~= timestamp_chars(t));
    assert(render_line(t, l, msg).subrange(23, 26) =~= seq![' ', '-', ' ']);
    assert(render_line(t, l, msg).subrange(26, 34) =~= level_field(l));
    assert(render_line(t, l, msg).subrange(34, 36) =~= seq![' ', ' ']);
    assert(render_line(t, l, msg).skip(36) =~= msg);
}

} // verus!
