//! The state of one pseudo-terminal as the controller sees it: which of
//! its ends are open, and the lines read so far. The terminal itself is
//! driven from outside; what it reports is handed in, and what has to be
//! done next is handed back.

use crate::text::blank;
use crate::text::chars_of;
use crate::text::is_blank;
use crate::text::last_items;
use crate::text::owned;
use crate::text::push_capped;
use crate::text::push_str;
use crate::text::string_of;
use crate::text::strip_line_end;
use crate::text::without_line_end;
use crate::text::clone_strings;
use vstd::prelude::*;

verus! {

/// How many lines of output a terminal keeps.
pub const MAX_OUTPUT_LINES: usize = 1000;

/// The exit code of a process that has ended.
#[derive(Debug, Clone, Copy, PartialEq, Eq, Structural)]
pub struct ExitResult {
    pub code: i32,
}

/// Why an operation on a terminal was refused.
#[derive(Debug)]
pub enum PtyError {
    /// The command holds nothing but white space.
    EmptyCommand,
    /// The terminal's writing end is closed.
    MasterClosed { task_id: String },
}

impl PtyError {
    /// What the error says.
    pub open spec fn message_text(&self) -> Seq<char> {
        match self {
            PtyError::EmptyCommand => "Empty command"@,
            PtyError::MasterClosed { task_id } => "PTY master already closed for task "@ + task_id@,
        }
    }

    /// What the error says.
    pub fn message(&self) -> (s: String)
        ensures
            s@ == self.message_text(),
    {
        match self {
            PtyError::EmptyCommand => owned("Empty command"),
            PtyError::MasterClosed { task_id } => {
                let mut out = chars_of("PTY master already closed for task ");
                push_str(&mut out, task_id.as_str());
                string_of(&out)
            },
        }
    }
}

/// How to start a command under a terminal: the program, its arguments
/// and the size of the terminal.
#[derive(Debug)]
pub struct SpawnPlan {
    pub program: String,
    pub args: Vec<String>,
    pub rows: u16,
    pub cols: u16,
    pub pixel_width: u16,
    pub pixel_height: u16,
}

/// The plan for running `command`: handed to the shell as one argument,
/// so that pipes, quoting and the like mean what they mean there, under a
/// terminal of 24 rows and 120 columns. A blank command is refused.
pub fn plan_spawn(command: &str) -> (r: Result<SpawnPlan, PtyError>)
    ensures
        match r {
            Ok(plan) => {
                &&& !is_blank(command@)
                &&& plan.program@ == "sh"@
                &&& plan.args.deep_view() == seq!["-c"@, command@]
                &&& plan.rows == 24
                &&& plan.cols == 120
                &&& plan.pixel_width == 0
                &&& plan.pixel_height == 0
            },
            Err(e) => is_blank(command@) && e == PtyError::EmptyCommand,
        },
{
    if blank(command) {
        return Err(PtyError::EmptyCommand);
    }
    let mut args: Vec<String> = Vec::new();
    args.push(owned("-c"));
    args.push(owned(command));
    assert(args.deep_view() =~= seq!["-c"@, command@]);
    Ok(SpawnPlan { program: owned("sh"), args, rows: 24, cols: 120, pixel_width: 0, pixel_height: 0 })
}

/// What one read from the terminal gave.
#[derive(Debug)]
pub enum RawRead {
    /// Some text, up to and including the end of a line if one came.
    Data(String),
    /// The other end is closed.
    Eof,
    /// Nothing is there yet.
    WouldBlock,
    /// The read failed, with the reason.
    Failed(String),
}

/// What a read means to the caller.
#[derive(Debug)]
pub enum LineRead {
    /// A line, without its line end; empty where nothing was there yet.
    Line(String),
    /// The end of the output.
    End,
    /// The read failed, with the reason.
    Failed(String),
}

/// The state of one terminal.
pub struct PtyState {
    id: String,
    history: Vec<String>,
    reader_open: bool,
    child_present: bool,
    master_open: bool,
}

impl PtyState {
    /// The id of the task that runs under the terminal.
    pub closed spec fn task_id(&self) -> Seq<char> {
        self.id@
    }

    /// The lines kept, oldest first.
    pub closed spec fn lines(&self) -> Seq<Seq<char>> {
        self.history.deep_view()
    }

    /// Whether output can still be read.
    pub closed spec fn reading(&self) -> bool {
        self.reader_open
    }

    /// Whether the child process is still held.
    pub closed spec fn alive(&self) -> bool {
        self.child_present
    }

    /// Whether input can still be written.
    pub closed spec fn writable(&self) -> bool {
        self.master_open
    }

    /// The state of a terminal that has just been opened for `task_id`.
    pub fn new(task_id: &str) -> (s: Self)
        ensures
            s.task_id() == task_id@,
            s.lines() == Seq::<Seq<char>>::empty(),
            s.reading(),
            s.alive(),
            s.writable(),
    {
        let s = PtyState {
            id: owned(task_id),
            history: Vec::new(),
            reader_open: true,
            child_present: true,
            master_open: true,
        };
        assert(s.lines() =~= Seq::<Seq<char>>::empty());
        s
    }

    /// The id of the task that runs under the terminal.
    pub fn id(&self) -> (id: &String)
        ensures
            id@ == self.task_id(),
    {
        &self.id
    }

    /// Whether the terminal has to be read at all: once the end of the
    /// output was seen, or the terminal was killed, every read gives the
    /// end again.
    pub fn wants_read(&self) -> (b: bool)
        ensures
            b == self.reading(),
    {
        self.reader_open
    }

    /// Whether `post` is `pre` after the read `raw` was taken in with the
    /// result `r`. A line loses its line end and, unless it is empty,
    /// joins the lines kept, of which the oldest leave once there are more
    /// than a thousand. The end of the output closes the reading end. A
    /// read that found nothing yet counts as an empty line. Once the
    /// reading end is closed every read gives the end of the output.
    pub open spec fn took_read(pre: &PtyState, post: &PtyState, raw: RawRead, r: LineRead) -> bool {
        &&& post.task_id() == pre.task_id()
        &&& post.alive() == pre.alive()
        &&& post.writable() == pre.writable()
        &&& !pre.reading() ==> r is End && post.lines() == pre.lines() && !post.reading()
        &&& pre.reading() ==> match raw {
            RawRead::Data(text) => {
                let line = without_line_end(text@);
                &&& r matches LineRead::Line(got)
                &&& got@ == line
                &&& post.reading()
                &&& post.lines() == if line.len() > 0 {
                    last_items(pre.lines().push(line), MAX_OUTPUT_LINES as int)
                } else {
                    pre.lines()
                }
            },
            RawRead::Eof => {
                &&& r is End
                &&& !post.reading()
                &&& post.lines() == pre.lines()
            },
            RawRead::WouldBlock => {
                &&& r matches LineRead::Line(got)
                &&& got@.len() == 0
                &&& post.reading()
                &&& post.lines() == pre.lines()
            },
            RawRead::Failed(reason) => {
                &&& r matches LineRead::Failed(got)
                &&& got@ == reason@
                &&& post.reading()
                &&& post.lines() == pre.lines()
            },
        }
    }

    /// Takes in what a read gave.
    pub fn on_read(&mut self, raw: RawRead) -> (r: LineRead)
        ensures
            PtyState::took_read(old(self), final(self), raw, r),
    {
        if !self.reader_open {
            return LineRead::End;
        }
        match raw {
            RawRead::Data(text) => {
                let mut chars = chars_of(text.as_str());
                strip_line_end(&mut chars);
                let line = string_of(&chars);
                if chars.len() > 0 {
                    let ghost before = self.history.deep_view();
                    push_capped(&mut self.history, line.clone(), MAX_OUTPUT_LINES);
                    assert(self.history.deep_view() =~= last_items(
                        before.push(line@),
                        MAX_OUTPUT_LINES as int,
                    ));
                }
                LineRead::Line(line)
            },
            RawRead::Eof => {
                self.reader_open = false;
                LineRead::End
            },
            RawRead::WouldBlock => LineRead::Line(String::new()),
            RawRead::Failed(reason) => LineRead::Failed(reason),
        }
    }

    /// The lines kept, oldest first.
    pub fn get_output(&self) -> (lines: Vec<String>)
        ensures
            lines.deep_view() == self.lines(),
    {
        clone_strings(&self.history)
    }

    /// What has to be written to the terminal to send `input`: the input
    /// and a line feed. Refused once the writing end is closed.
    pub fn send_input(&self, input: &str) -> (r: Result<String, PtyError>)
        ensures
            match r {
                Ok(payload) => self.writable() && payload@ == input@.push('\n'),
                Err(PtyError::MasterClosed { task_id }) => !self.writable() && task_id@ == self.task_id(),
                Err(_) => false,
            },
    {
        if self.master_open {
            let mut out = chars_of(input);
            out.push('\n');
            Ok(string_of(&out))
        } else {
            Err(PtyError::MasterClosed { task_id: self.id.clone() })
        }
    }

    /// Whether the child has to be asked for its status at all: once it is
    /// gone there is nobody to ask.
    pub fn wants_wait(&self) -> (b: bool)
        ensures
            b == self.alive(),
    {
        self.child_present
    }

    /// The exit status that `polled` stands for, the answer of a child
    /// asked without waiting: nothing while it still runs, else its exit
    /// code, or 1 where that is too large for `i32`.
    pub open spec fn exit_of(polled: Option<u32>) -> Option<ExitResult> {
        match polled {
            Some(code) => Some(
                ExitResult {
                    code: if code <= i32::MAX as u32 {
                        code as i32
                    } else {
                        1i32
                    },
                },
            ),
            None => None,
        }
    }

    /// What the child's status means. `polled` is what the child answered
    /// when asked without waiting: its exit code, or nothing while it still
    /// runs. A child that is gone counts as ended with code -1; an exit
    /// code too large for `i32` counts as 1.
    pub fn try_wait(&self, polled: Option<u32>) -> (r: Option<ExitResult>)
        ensures
            r == if !self.alive() {
                Some(ExitResult { code: -1i32 })
            } else {
                PtyState::exit_of(polled)
            },
    {
        if !self.child_present {
            return Some(ExitResult { code: -1 });
        }
        match polled {
            Some(code) => {
                if code <= 2147483647u32 {
                    Some(ExitResult { code: code as i32 })
                } else {
                    Some(ExitResult { code: 1 })
                }
            },
            None => None,
        }
    }

    /// Gives up the child and closes both ends. Says whether there was a
    /// child to terminate; a second call finds none.
    pub fn kill(&mut self) -> (had_child: bool)
        ensures
            had_child == old(self).alive(),
            !final(self).alive(),
            !final(self).reading(),
            !final(self).writable(),
            final(self).task_id() == old(self).task_id(),
            final(self).lines() == old(self).lines(),
    {
        let had_child = self.child_present;
        self.child_present = false;
        self.reader_open = false;
        self.master_open = false;
        had_child
    }

    /// Whether the child process is still held.
    pub fn is_alive(&self) -> (b: bool)
        ensures
            b == self.alive(),
    {
        self.child_present
    }
}

} // verus!
