use vstd::prelude::*;
use crate::buffer::{Buffer, window, drop_count};
use crate::client::ClientEvent;
use crate::process::CommandEvent;
use crate::protocol::Size;

verus! {

/// What the streamer asks of its surroundings after a client event.
#[derive(Clone, Copy, Debug, PartialEq, Eq, Structural)]
pub enum ClientAction {
    Nothing,
    /// Resize the child's terminal.
    ResizePty(Size),
    /// Drop the connection to the relay and make a new one.
    Reconnect,
}

/// What the streamer asks of its surroundings after a process event.
#[derive(Clone, Copy, Debug, PartialEq, Eq, Structural)]
pub enum ProcessAction {
    Nothing,
    /// Put the local terminal in raw mode and size the child's terminal to it.
    EnterRawMode,
}

/// What to do next towards the relay.
#[derive(Debug, PartialEq, Eq)]
pub enum ServerStep {
    /// Send these bytes as one `TerminalOutput`.
    Send(Vec<u8>),
    /// The child has exited and everything has been handed over: stop.
    Finished,
    /// Nothing to send.
    Idle,
}

/// The decisions of a streaming session: one buffer of the child's output,
/// and how much of it has reached the local terminal and the relay.
pub struct StreamSession {
    buffer: Buffer,
    sent_local: usize,
    sent_remote: usize,
    needs_flush: bool,
    connected: bool,
    done: bool,
}

pub struct StreamV {
    pub contents: Seq<u8>,
    pub capacity: nat,
    pub sent_local: nat,
    pub sent_remote: nat,
    pub needs_flush: bool,
    pub connected: bool,
    pub done: bool,
}

impl View for StreamSession {
    type V = StreamV;

    closed spec fn view(&self) -> StreamV {
        StreamV {
            contents: self.buffer@,
            capacity: self.buffer.capacity(),
            sent_local: self.sent_local as nat,
            sent_remote: self.sent_remote as nat,
            needs_flush: self.needs_flush,
            connected: self.connected,
            done: self.done,
        }
    }
}

/// `n - d`, or 0 when `d` is larger.
pub open spec fn sat_sub(n: nat, d: nat) -> nat {
    if d > n {
        0
    } else {
        (n - d) as nat
    }
}

/// Both counters name a position inside the buffer.
pub open spec fn counters_ok(v: StreamV) -> bool {
    v.sent_local <= v.contents.len() && v.sent_remote <= v.contents.len() && v.contents.len()
        <= v.capacity
}

impl StreamSession {
    pub closed spec fn wf(&self) -> bool {
        self.buffer.wf() && counters_ok(self@)
    }

    /// Between any two steps, both counters lie inside the buffer, which
    /// never holds more than its capacity.
    pub proof fn law_counter_safety(&self)
        requires
            self.wf(),
        ensures
            counters_ok(self@),
    {
    }

    pub fn new(buffer_size: usize) -> (r: StreamSession)
        ensures
            r.wf(),
            r@ == (StreamV {
                contents: Seq::empty(),
                capacity: buffer_size as nat,
                sent_local: 0,
                sent_remote: 0,
                needs_flush: false,
                connected: false,
                done: false,
            }),
    {
        StreamSession {
            buffer: Buffer::new(buffer_size),
            sent_local: 0,
            sent_remote: 0,
            needs_flush: false,
            connected: false,
            done: false,
        }
    }

    /// Adds the child's output to the buffer; both counters move back by as
    /// many bytes as fell off its front.
    pub fn record_bytes(&mut self, buf: &[u8])
        requires
            old(self).wf(),
        ensures
            final(self).wf(),
            ({
                let o = old(self)@;
                let d = drop_count(o.contents, buf@, o.capacity);
                final(self)@ == StreamV {
                    contents: window(o.contents + buf@, o.capacity),
                    sent_local: sat_sub(o.sent_local, d),
                    sent_remote: sat_sub(o.sent_remote, d),
                    ..o
                }
            }),
    {
        let truncated = self.buffer.append(buf);
        if truncated > self.sent_local {
            self.sent_local = 0;
        } else {
            self.sent_local = self.sent_local - truncated;
        }
        if truncated > self.sent_remote {
            self.sent_remote = 0;
        } else {
            self.sent_remote = self.sent_remote - truncated;
        }
    }

    /// Reacts to one event of the connection to the relay. Nothing it reports
    /// is fatal: at worst it asks for a new connection.
    pub fn poll_read_client(&mut self, event: ClientEvent) -> (r: ClientAction)
        requires
            old(self).wf(),
        ensures
            final(self).wf(),
            ({
                let o = old(self)@;
                match event {
                    ClientEvent::Connect => r == ClientAction::Nothing && final(self)@ == StreamV {
                        connected: true,
                        sent_remote: 0,
                        ..o
                    },
                    ClientEvent::Disconnect => r == ClientAction::Nothing && final(self)@
                        == StreamV { connected: false, ..o },
                    ClientEvent::Start(size) => r == ClientAction::ResizePty(size) && final(self)@ == o,
                    ClientEvent::Resize(size) => r == ClientAction::ResizePty(size) && final(self)@ == o,
                    ClientEvent::ServerMessage(_) => r == ClientAction::Reconnect && final(self)@
                        == o,
                    ClientEvent::Failed => r == ClientAction::Reconnect && final(self)@ == o,
                }
            }),
    {
        match event {
            ClientEvent::Connect => {
                self.connected = true;
                self.sent_remote = 0;
                ClientAction::Nothing
            },
            ClientEvent::Disconnect => {
                self.connected = false;
                ClientAction::Nothing
            },
            ClientEvent::Start(size) => ClientAction::ResizePty(size),
            ClientEvent::Resize(size) => ClientAction::ResizePty(size),
            ClientEvent::ServerMessage(_) => ClientAction::Reconnect,
            ClientEvent::Failed => ClientAction::Reconnect,
        }
    }

    /// Reacts to one event of the child process. Its exit does not end the
    /// session: that waits until the output has been handed to the relay.
    pub fn poll_read_process(&mut self, event: CommandEvent) -> (r: ProcessAction)
        requires
            old(self).wf(),
        ensures
            final(self).wf(),
            ({
                let o = old(self)@;
                match event {
                    CommandEvent::CommandStart(..) => r == ProcessAction::EnterRawMode && final(self)@ == o,
                    CommandEvent::Output(bytes) => {
                        let d = drop_count(o.contents, bytes@, o.capacity);
                        r == ProcessAction::Nothing && final(self)@ == StreamV {
                            contents: window(o.contents + bytes@, o.capacity),
                            sent_local: sat_sub(o.sent_local, d),
                            sent_remote: sat_sub(o.sent_remote, d),
                            ..o
                        }
                    },
                    CommandEvent::CommandExit(_) => r == ProcessAction::Nothing && final(self)@
                        == StreamV { done: true, ..o },
                }
            }),
    {
        match event {
            CommandEvent::CommandStart(..) => ProcessAction::EnterRawMode,
            CommandEvent::Output(bytes) => {
                self.record_bytes(bytes.as_slice());
                ProcessAction::Nothing
            },
            CommandEvent::CommandExit(_) => {
                self.done = true;
                ProcessAction::Nothing
            },
        }
    }

    /// The buffered bytes the local terminal has not been given yet.
    pub fn poll_write_terminal(&self) -> (r: &[u8])
        requires
            self.wf(),
        ensures
            r@ == self@.contents.skip(self@.sent_local as int),
    {
        vstd::slice::slice_subrange(self.buffer.contents(), self.sent_local, self.buffer.len())
    }

    /// The local terminal took `n` more bytes; a flush is now due.
    pub fn wrote_terminal(&mut self, n: usize)
        requires
            old(self).wf(),
            n <= old(self)@.contents.len() - old(self)@.sent_local,
        ensures
            final(self).wf(),
            final(self)@ == (StreamV {
                sent_local: (old(self)@.sent_local + n) as nat,
                needs_flush: true,
                ..old(self)@
            }),
    {
        let len = self.buffer.len();
        proof {
            assert(self.sent_local + n <= len);
        }
        self.sent_local = self.sent_local + n;
        self.needs_flush = true;
    }

    /// Whether the local terminal has written bytes that were not flushed.
    pub fn poll_flush_terminal(&self) -> (r: bool)
        ensures
            r == self@.needs_flush,
    {
        self.needs_flush
    }

    /// The local terminal was flushed.
    pub fn flushed_terminal(&mut self)
        requires
            old(self).wf(),
        ensures
            final(self).wf(),
            final(self)@ == (StreamV { needs_flush: false, ..old(self)@ }),
    {
        self.needs_flush = false;
    }

    /// While connected, hands everything the relay has not been sent to it in
    /// one message. The session finishes only after the child exited and
    /// everything buffered has been handed over.
    pub fn poll_write_server(&mut self) -> (r: ServerStep)
        requires
            old(self).wf(),
        ensures
            final(self).wf(),
            ({
                let o = old(self)@;
                if o.connected && o.sent_remote < o.contents.len() {
                    r matches ServerStep::Send(b) && b@ == o.contents.skip(o.sent_remote as int)
                        && final(self)@ == StreamV { sent_remote: o.contents.len(), ..o }
                } else if o.done && o.sent_remote == o.contents.len() {
                    r is Finished && final(self)@ == o
                } else {
                    r is Idle && final(self)@ == o
                }
            }),
    {
        let len = self.buffer.len();
        if self.connected && self.sent_remote < len {
            let pending = vstd::slice::slice_subrange(self.buffer.contents(), self.sent_remote, len);
            let data = vstd::slice::slice_to_vec(pending);
            self.sent_remote = len;
            ServerStep::Send(data)
        } else if self.done && self.sent_remote == len {
            ServerStep::Finished
        } else {
            ServerStep::Idle
        }
    }
}

} // verus!
