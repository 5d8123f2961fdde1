use vstd::prelude::*;

verus! {

/// What the child process under the terminal reports, in this order: one
/// start, any number of outputs, one exit.
#[derive(Debug, PartialEq, Eq)]
pub enum CommandEvent {
    CommandStart(String, Vec<String>),
    Output(Vec<u8>),
    CommandExit(Option<i32>),
}

/// Whether the byte before position `i` of `s` is a carriage return, where
/// `cr_before` says whether the byte just before `s` was one.
pub open spec fn cr_at(s: Seq<u8>, i: int, cr_before: bool) -> bool {
    if i == 0 {
        cr_before
    } else {
        s[i - 1] == 13u8
    }
}

/// The child's output with a carriage return put before every bare line
/// feed (one not already preceded by a carriage return), as a terminal in
/// raw mode needs. `cr_before` says whether the output that came just
/// before `s` ended in a carriage return.
pub open spec fn crlf(s: Seq<u8>, cr_before: bool) -> Seq<u8>
    decreases s.len(),
{
    if s.len() == 0 {
        Seq::empty()
    } else {
        crlf(s.drop_last(), cr_before) + if s.last() == 10u8 && !cr_at(
            s,
            s.len() - 1,
            cr_before,
        ) {
            seq![13u8, 10u8]
        } else {
            seq![s.last()]
        }
    }
}

/// Turns each bare `\n` of `bytes` into `\r\n`, leaving `\r\n` alone.
/// `cr_before` says whether the previous chunk ended in `\r`: a chunk that
/// starts with `\n` after such a chunk is left as it is, so a `\r\n` split
/// across two chunks is not doubled.
pub fn translate_output(bytes: &[u8], cr_before: bool) -> (r: Vec<u8>)
    ensures
        r@ == crlf(bytes@, cr_before),
{
    let mut out: Vec<u8> = Vec::new();
    let mut i: usize = 0;
    while i < bytes.len()
        invariant
            0 <= i <= bytes@.len(),
            out@ == crlf(bytes@.take(i as int), cr_before),
        decreases bytes@.len() - i,
    {
        proof {
            let t = bytes@.take(i + 1);
            assert(t.drop_last() =~= bytes@.take(i as int));
            assert(cr_at(t, i as int, cr_before) == cr_at(bytes@, i as int, cr_before));
        }
        let prev_cr = if i == 0 {
            cr_before
        } else {
            bytes[i - 1] == 13u8
        };
        if bytes[i] == 10u8 && !prev_cr {
            out.push(13u8);
            out.push(10u8);
        } else {
            out.push(bytes[i]);
        }
        proof {
            assert(out@ =~= crlf(bytes@.take(i + 1), cr_before));
        }
        i = i + 1;
    }
    proof {
        assert(bytes@.take(i as int) =~= bytes@);
    }
    out
}

/// The bookkeeping of a child process under a terminal: whether its start
/// and exit have been reported, and the keyboard input not yet written to it.
pub struct ProcessState {
    cmd: String,
    args: Vec<String>,
    input_buf: std::collections::VecDeque<u8>,
    started: bool,
    exit_done: bool,
    after_cr: bool,
}

pub open spec fn strings_view(v: Seq<String>) -> Seq<Seq<char>> {
    v.map_values(|x: String| x@)
}

pub struct ProcessV {
    pub cmd: Seq<char>,
    pub args: Seq<Seq<char>>,
    pub input: Seq<u8>,
    pub started: bool,
    pub exit_done: bool,
    /// The child's last output byte so far was a carriage return.
    pub after_cr: bool,
}

impl View for ProcessState {
    type V = ProcessV;

    closed spec fn view(&self) -> ProcessV {
        ProcessV {
            cmd: self.cmd@,
            args: strings_view(self.args@),
            input: self.input_buf@,
            started: self.started,
            exit_done: self.exit_done,
            after_cr: self.after_cr,
        }
    }
}

impl ProcessState {
    pub fn new(cmd: String, args: Vec<String>) -> (r: ProcessState)
        ensures
            r@ == (ProcessV {
                cmd: cmd@,
                args: strings_view(args@),
                input: Seq::empty(),
                started: false,
                exit_done: false,
                after_cr: false,
            }),
    {
        ProcessState {
            cmd,
            args,
            input_buf: std::collections::VecDeque::new(),
            started: false,
            exit_done: false,
            after_cr: false,
        }
    }

    /// The start event, the first time only.
    pub fn poll_command_start(&mut self) -> (r: Option<CommandEvent>)
        ensures
            !old(self)@.started ==> (r matches Some(CommandEvent::CommandStart(c, a)) && c@
                == old(self)@.cmd && strings_view(a@) == old(self)@.args),
            old(self)@.started ==> r is None,
            final(self)@ == (ProcessV { started: true, ..old(self)@ }),
    {
        if self.started {
            return None;
        }
        self.started = true;
        let mut args: Vec<String> = Vec::new();
        let mut i: usize = 0;
        while i < self.args.len()
            invariant
                0 <= i <= self.args@.len(),
                strings_view(args@) == strings_view(self.args@).take(i as int),
            decreases self.args@.len() - i,
        {
            let ghost prev = args@;
            args.push(self.args[i].clone());
            proof {
                assert(strings_view(args@) =~= strings_view(prev).push(self.args@[i as int]@));
            }
            i = i + 1;
            proof {
                assert(strings_view(args@) =~= strings_view(self.args@).take(i as int));
            }
        }
        proof {
            assert(strings_view(self.args@).take(i as int) =~= strings_view(self.args@));
        }
        Some(CommandEvent::CommandStart(self.cmd.clone(), args))
    }

    /// Keyboard input read from the local terminal, queued for the child.
    pub fn poll_read_stdin(&mut self, bytes: &[u8])
        ensures
            final(self)@ == (ProcessV { input: old(self)@.input + bytes@, ..old(self)@ }),
    {
        let mut i: usize = 0;
        while i < bytes.len()
            invariant
                0 <= i <= bytes@.len(),
                self@ == (ProcessV { input: old(self)@.input + bytes@.take(i as int), ..old(self)@ }),
            decreases bytes@.len() - i,
        {
            self.input_buf.push_back(bytes[i]);
            i = i + 1;
            proof {
                assert(self@.input =~= old(self)@.input + bytes@.take(i as int));
            }
        }
        proof {
            assert(bytes@.take(i as int) =~= bytes@);
        }
    }

    /// The queued input, oldest first, to write to the child.
    pub fn pending_input(&self) -> (r: Vec<u8>)
        ensures
            r@ == self@.input,
    {
        let mut out: Vec<u8> = Vec::new();
        let mut i: usize = 0;
        while i < self.input_buf.len()
            invariant
                0 <= i <= self@.input.len(),
                out@ == self@.input.take(i as int),
            decreases self@.input.len() - i,
        {
            out.push(self.input_buf[i]);
            i = i + 1;
            proof {
                assert(out@ =~= self@.input.take(i as int));
            }
        }
        proof {
            assert(out@ =~= self@.input);
        }
        out
    }

    /// The child took the first `n` queued bytes.
    pub fn poll_write_stdin(&mut self, n: usize)
        requires
            n <= old(self)@.input.len(),
        ensures
            final(self)@ == (ProcessV { input: old(self)@.input.skip(n as int), ..old(self)@ }),
    {
        let mut i: usize = 0;
        proof {
            assert(old(self)@.input.skip(0) =~= old(self)@.input);
        }
        while i < n
            invariant
                0 <= i <= n,
                n <= old(self)@.input.len(),
                self@ == (ProcessV { input: old(self)@.input.skip(i as int), ..old(self)@ }),
            decreases n - i,
        {
            self.input_buf.pop_front();
            i = i + 1;
            proof {
                assert(self@.input =~= old(self)@.input.skip(i as int));
            }
        }
    }

    /// The event for bytes the child wrote, unless it has already exited.
    /// Whether they end in a carriage return is kept for the next chunk.
    pub fn poll_read_stdout(&mut self, bytes: &[u8]) -> (r: Option<CommandEvent>)
        ensures
            old(self)@.exit_done ==> r is None && final(self)@ == old(self)@,
            !old(self)@.exit_done ==> (r matches Some(CommandEvent::Output(b)) && b@ == crlf(
                bytes@,
                old(self)@.after_cr,
            )) && final(self)@ == (ProcessV {
                after_cr: if bytes@.len() == 0 {
                    old(self)@.after_cr
                } else {
                    bytes@.last() == 13u8
                },
                ..old(self)@
            }),
    {
        if self.exit_done {
            return None;
        }
        let out = translate_output(bytes, self.after_cr);
        if bytes.len() > 0 {
            self.after_cr = bytes[bytes.len() - 1] == 13u8;
        }
        Some(CommandEvent::Output(out))
    }

    /// The exit event, the first time only; after it the sequence ends.
    pub fn poll_command_exit(&mut self, status: Option<i32>) -> (r: Option<CommandEvent>)
        ensures
            !old(self)@.exit_done ==> (r matches Some(CommandEvent::CommandExit(s)) && s
                == status),
            old(self)@.exit_done ==> r is None,
            final(self)@ == (ProcessV { exit_done: true, ..old(self)@ }),
    {
        if self.exit_done {
            return None;
        }
        self.exit_done = true;
        Some(CommandEvent::CommandExit(status))
    }

    /// Whether the child's exit has been reported, which ends the events.
    pub fn is_finished(&self) -> (r: bool)
        ensures
            r == self@.exit_done,
    {
        self.exit_done
    }
}

} // verus!
