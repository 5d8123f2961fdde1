use vstd::prelude::*;
use crate::protocol::{Auth, Message, MessageV, PROTO_VERSION, Size, queue_view};

verus! {

/// What the connection to the relay reports to its owner.
#[derive(Debug, PartialEq, Eq)]
pub enum ClientEvent {
    /// A connection was established (again).
    Connect,
    /// The connection was lost.
    Disconnect,
    /// The relay assigned the session's terminal size.
    Start(Size),
    /// The terminal size changed.
    Resize(Size),
    /// A message the connection did not interpret itself.
    ServerMessage(Message),
    /// The connection failed.
    Failed,
}

/// What the client asks of the relay once connected.
#[derive(Clone, Debug, PartialEq, Eq)]
pub enum ClientRole {
    Streamer,
    Watcher(String),
    Lister,
}

/// Where the connection to the relay stands.
#[derive(Clone, Copy, Debug, PartialEq, Eq, Structural)]
pub enum ConnState {
    Idle,
    Connecting,
    Handshaking,
    Connected,
    Reconnecting,
}

/// What a timer tick asks of the owner of the connection.
#[derive(Clone, Copy, Debug, PartialEq, Eq, Structural)]
pub enum TickAction {
    Nothing,
    /// Send a `Heartbeat`.
    SendHeartbeat,
    /// Nothing was heard for too long: the connection is dropped, and a
    /// `Disconnect` event is due.
    Disconnect,
    /// The backoff is over: start connecting.
    Connect,
}

/// The longest wait between two connection attempts, in milliseconds.
pub const MAX_BACKOFF_MS: u64 = 30000;

/// `min(30 s, 0.5 s * 2^attempts)`, in milliseconds.
pub open spec fn base_backoff(attempts: nat) -> nat
    decreases attempts,
{
    if attempts == 0 {
        500
    } else {
        let b = 2 * base_backoff((attempts - 1) as nat);
        if b > MAX_BACKOFF_MS {
            MAX_BACKOFF_MS as nat
        } else {
            b
        }
    }
}

/// The backoff moved by `jitter` thousandths of itself.
pub open spec fn backoff(attempts: nat, jitter: int) -> nat {
    (base_backoff(attempts) * (1000 + jitter) / 1000) as nat
}

/// The wait before the next connection attempt, in milliseconds: `jitter`
/// is a draw in thousandths between -250 and 250.
pub fn reconnect_delay(attempts: u32, jitter: i32) -> (r: u64)
    requires
        -250 <= jitter <= 250,
    ensures
        r == backoff(attempts as nat, jitter as int),
{
    let mut b: u64 = 500;
    let mut i: u32 = 0;
    while i < attempts && b < MAX_BACKOFF_MS
        invariant
            0 <= i <= attempts,
            b == base_backoff(i as nat),
            b <= MAX_BACKOFF_MS,
        decreases attempts - i,
    {
        b = if 2 * b > MAX_BACKOFF_MS {
            MAX_BACKOFF_MS
        } else {
            2 * b
        };
        i = i + 1;
    }
    proof {
        if i < attempts {
            lemma_saturated(i as nat, attempts as nat);
        }
    }
    let f: u64 = (1000 + jitter) as u64;
    proof {
        assert(b * f <= 30000 * 1250) by (nonlinear_arith)
            requires
                b <= 30000,
                f <= 1250,
        ;
    }
    (b * f) / 1000
}

proof fn lemma_saturated(i: nat, n: nat)
    requires
        i <= n,
        base_backoff(i) == MAX_BACKOFF_MS,
    ensures
        base_backoff(n) == MAX_BACKOFF_MS,
    decreases n - i,
{
    if i < n {
        lemma_saturated(i + 1, n);
    }
}

/// The messages that open a session for `role`: a login, then what the
/// role asks for.
pub open spec fn handshake_spec(role: ClientRole, auth: Auth, size: Size, term_type: Seq<char>) -> Seq<MessageV> {
    let login = MessageV::Login {
        proto_version: PROTO_VERSION,
        auth: auth@,
        size,
        term_type,
    };
    match role {
        ClientRole::Streamer => seq![login, MessageV::StartCasting],
        ClientRole::Watcher(id) => seq![login, MessageV::StartWatching { id: id@ }],
        ClientRole::Lister => seq![login, MessageV::ListSessions],
    }
}

/// The decisions of a connection to the relay: its state, the reconnect
/// backoff, the heartbeat and liveness clocks, and the outbound queue.
pub struct Client {
    role: ClientRole,
    state: ConnState,
    attempts: u32,
    heartbeat_ms: u64,
    last_heard: u64,
    last_heartbeat: u64,
    reconnect_at: u64,
    queue: std::collections::VecDeque<Message>,
}

pub struct ClientV {
    pub state: ConnState,
    pub attempts: nat,
    pub heartbeat_ms: nat,
    pub last_heard: nat,
    pub last_heartbeat: nat,
    pub reconnect_at: nat,
    pub queue: Seq<MessageV>,
}

impl View for Client {
    type V = ClientV;

    closed spec fn view(&self) -> ClientV {
        ClientV {
            state: self.state,
            attempts: self.attempts as nat,
            heartbeat_ms: self.heartbeat_ms as nat,
            last_heard: self.last_heard as nat,
            last_heartbeat: self.last_heartbeat as nat,
            reconnect_at: self.reconnect_at as nat,
            queue: queue_view(self.queue@),
        }
    }
}

/// The state after a connection that was up, or on its way up, is lost at
/// `now`: queued messages are dropped and the next attempt waits for the
/// backoff.
pub open spec fn lost(c: ClientV, now: nat, jitter: int) -> ClientV {
    ClientV {
        state: ConnState::Reconnecting,
        attempts: if c.attempts < u32::MAX { c.attempts + 1 } else { c.attempts },
        reconnect_at: clamp_u64(now + backoff(c.attempts, jitter)),
        queue: Seq::empty(),
        ..c
    }
}

pub open spec fn clamp_u64(n: nat) -> nat {
    if n > u64::MAX {
        u64::MAX as nat
    } else {
        n
    }
}

pub open spec fn is_active(s: ConnState) -> bool {
    s == ConnState::Connecting || s == ConnState::Handshaking || s == ConnState::Connected
}

impl Client {
    pub closed spec fn role(&self) -> ClientRole {
        self.role
    }

    /// A client that has not started connecting; `heartbeat_ms` is the
    /// heartbeat period.
    pub fn new(role: ClientRole, heartbeat_ms: u64) -> (r: Client)
        ensures
            r.role() == role,
            r@ == (ClientV {
                state: ConnState::Idle,
                attempts: 0,
                heartbeat_ms: heartbeat_ms as nat,
                last_heard: 0,
                last_heartbeat: 0,
                reconnect_at: 0,
                queue: Seq::empty(),
            }),
    {
        let r = Client {
            role,
            state: ConnState::Idle,
            attempts: 0,
            heartbeat_ms,
            last_heard: 0,
            last_heartbeat: 0,
            reconnect_at: 0,
            queue: std::collections::VecDeque::new(),
        };
        proof {
            assert(queue_view(r.queue@) =~= Seq::<MessageV>::empty());
        }
        r
    }

    pub fn state(&self) -> (r: ConnState)
        ensures
            r == self@.state,
    {
        self.state
    }

    /// Starts the first connection attempt.
    pub fn start(&mut self)
        ensures
            final(self).role() == old(self).role(),
            old(self)@.state == ConnState::Idle ==> final(self)@ == (ClientV {
                state: ConnState::Connecting,
                ..old(self)@
            }),
            old(self)@.state != ConnState::Idle ==> final(self)@ == old(self)@,
    {
        if self.state == ConnState::Idle {
            self.state = ConnState::Connecting;
        }
    }

    /// The socket is ready at `now`: the handshake to write first is
    /// returned, and a `Connect` event is due.
    pub fn connected(&mut self, now: u64, auth: &Auth, size: Size, term_type: &String) -> (r: Vec<
        Message,
    >)
        requires
            old(self)@.state == ConnState::Connecting,
        ensures
            final(self).role() == old(self).role(),
            queue_view(r@) == handshake_spec(old(self).role(), *auth, size, term_type@),
            final(self)@ == (ClientV {
                state: ConnState::Handshaking,
                last_heard: now as nat,
                last_heartbeat: now as nat,
                ..old(self)@
            }),
    {
        self.state = ConnState::Handshaking;
        self.last_heard = now;
        self.last_heartbeat = now;
        let login = Message::Login {
            proto_version: PROTO_VERSION,
            auth: auth.duplicate(),
            size,
            term_type: term_type.clone(),
        };
        let second = match &self.role {
            ClientRole::Streamer => Message::StartCasting,
            ClientRole::Watcher(id) => Message::StartWatching { id: id.clone() },
            ClientRole::Lister => Message::ListSessions,
        };
        let mut v: Vec<Message> = Vec::new();
        v.push(login);
        v.push(second);
        proof {
            assert(queue_view(v@) =~= handshake_spec(self.role, *auth, size, term_type@));
        }
        v
    }

    /// The handshake has been written: the connection is established, and
    /// the backoff starts over.
    pub fn handshake_flushed(&mut self)
        requires
            old(self)@.state == ConnState::Handshaking,
        ensures
            final(self).role() == old(self).role(),
            final(self)@ == (ClientV { state: ConnState::Connected, attempts: 0, ..old(self)@ }),
    {
        self.state = ConnState::Connected;
        self.attempts = 0;
    }

    /// The connection failed at `now` (end of input, a write error, a
    /// protocol violation, or the owner's request): `Disconnect` if it was
    /// up or on its way up, nothing otherwise.
    pub fn failed(&mut self, now: u64, jitter: i32) -> (r: Option<ClientEvent>)
        requires
            -250 <= jitter <= 250,
        ensures
            final(self).role() == old(self).role(),
            is_active(old(self)@.state) ==> r == Some(ClientEvent::Disconnect) && final(self)@
                == lost(old(self)@, now as nat, jitter as int),
            !is_active(old(self)@.state) ==> r is None && final(self)@ == old(self)@,
    {
        if self.state == ConnState::Idle || self.state == ConnState::Reconnecting {
            return None;
        }
        let delay = reconnect_delay(self.attempts, jitter);
        self.reconnect_at = if delay > u64::MAX - now {
            u64::MAX
        } else {
            now + delay
        };
        if self.attempts < u32::MAX {
            self.attempts = self.attempts + 1;
        }
        self.state = ConnState::Reconnecting;
        self.queue = std::collections::VecDeque::new();
        proof {
            assert(queue_view(self.queue@) =~= Seq::<MessageV>::empty());
        }
        Some(ClientEvent::Disconnect)
    }

    /// A message arrived at `now`. Heartbeats only prove liveness; a resize
    /// is reported as such; anything else goes to the owner.
    pub fn received(&mut self, message: Message, now: u64) -> (r: Option<ClientEvent>)
        ensures
            final(self).role() == old(self).role(),
            final(self)@ == (ClientV { last_heard: now as nat, ..old(self)@ }),
            match message@ {
                MessageV::Heartbeat => r is None,
                MessageV::Resize { size } => r == Some(ClientEvent::Resize(size)),
                _ => r matches Some(ClientEvent::ServerMessage(m)) && m@ == message@,
            },
    {
        self.last_heard = now;
        match message {
            Message::Heartbeat => None,
            Message::Resize { size } => Some(ClientEvent::Resize(size)),
            m => Some(ClientEvent::ServerMessage(m)),
        }
    }

    /// Queues `m` to be sent. Whatever is still queued when the connection
    /// is lost is dropped.
    pub fn send_message(&mut self, m: Message)
        ensures
            final(self).role() == old(self).role(),
            final(self)@ == (ClientV { queue: old(self)@.queue.push(m@), ..old(self)@ }),
    {
        let ghost mv = m@;
        let ghost q = self.queue@;
        self.queue.push_back(m);
        proof {
            assert(queue_view(self.queue@) =~= queue_view(q).push(mv));
        }
    }

    /// The oldest queued message, once the connection is established.
    pub fn next_outgoing(&mut self) -> (r: Option<Message>)
        ensures
            final(self).role() == old(self).role(),
            old(self)@.state == ConnState::Connected && old(self)@.queue.len() > 0 ==> (r matches Some(
                m,
            ) && m@ == old(self)@.queue[0] && final(self)@ == (ClientV {
                queue: old(self)@.queue.skip(1),
                ..old(self)@
            })),
            !(old(self)@.state == ConnState::Connected && old(self)@.queue.len() > 0) ==> r is None
                && final(self)@ == old(self)@,
    {
        if self.state != ConnState::Connected || self.queue.len() == 0 {
            return None;
        }
        let ghost q = self.queue@;
        let m = self.queue.pop_front();
        proof {
            assert(queue_view(self.queue@) =~= queue_view(q).skip(1));
        }
        m
    }

    /// What the clocks ask for at `now`. While connected: after three
    /// heartbeat periods with nothing heard the connection is dropped,
    /// otherwise a heartbeat is due every period. While waiting to
    /// reconnect: the next attempt starts once the backoff is over.
    pub fn tick(&mut self, now: u64, jitter: i32) -> (r: TickAction)
        requires
            -250 <= jitter <= 250,
        ensures
            final(self).role() == old(self).role(),
            ({
                let o = old(self)@;
                if o.state == ConnState::Connected {
                    if now >= o.last_heard + 3 * o.heartbeat_ms {
                        r == TickAction::Disconnect && final(self)@ == lost(o, now as nat, jitter as int)
                    } else if now >= o.last_heartbeat + o.heartbeat_ms {
                        r == TickAction::SendHeartbeat && final(self)@ == ClientV {
                            last_heartbeat: now as nat,
                            ..o
                        }
                    } else {
                        r == TickAction::Nothing && final(self)@ == o
                    }
                } else if o.state == ConnState::Reconnecting && now >= o.reconnect_at {
                    r == TickAction::Connect && final(self)@ == ClientV {
                        state: ConnState::Connecting,
                        ..o
                    }
                } else {
                    r == TickAction::Nothing && final(self)@ == o
                }
            }),
    {
        if self.state == ConnState::Connected {
            if dead_after(now, self.last_heard, self.heartbeat_ms) {
                self.failed(now, jitter);
                return TickAction::Disconnect;
            }
            if now >= self.last_heartbeat && now - self.last_heartbeat >= self.heartbeat_ms {
                self.last_heartbeat = now;
                return TickAction::SendHeartbeat;
            }
            TickAction::Nothing
        } else if self.state == ConnState::Reconnecting && now >= self.reconnect_at {
            self.state = ConnState::Connecting;
            TickAction::Connect
        } else {
            TickAction::Nothing
        }
    }
}

/// Whether `now` is at least three heartbeat periods after `last`.
fn dead_after(now: u64, last: u64, period: u64) -> (r: bool)
    ensures
        r == (now as int >= last as int + 3 * period as int),
{
    if now < last {
        return false;
    }
    let gap = now - last;
    if period > gap {
        return false;
    }
    let rest = gap - period;
    if period > rest {
        return false;
    }
    rest - period >= period
}

} // verus!
