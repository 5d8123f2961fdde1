use vstd::prelude::*;
use vstd::string::StringExecFns;
use crate::buffer::{Buffer, window, concat, lemma_window_twice};
use crate::protocol::{Auth, AuthV, Message, MessageV, Session, SessionV, Size, PROTO_VERSION, queue_view, sessions_view};

verus! {

/// What a logged-in connection does.
#[derive(Clone, Debug, PartialEq, Eq)]
pub enum Role {
    Casting,
    Watching(String),
}

pub enum RoleV {
    Casting,
    Watching(Seq<char>),
}

impl View for Role {
    type V = RoleV;

    open spec fn view(&self) -> RoleV {
        match self {
            Role::Casting => RoleV::Casting,
            Role::Watching(id) => RoleV::Watching(id@),
        }
    }
}

/// What a client said about itself when it logged in.
#[derive(Clone, Debug, PartialEq, Eq)]
pub struct Metadata {
    pub username: String,
    pub term_type: String,
    pub size: Size,
}

pub struct MetadataV {
    pub username: Seq<char>,
    pub term_type: Seq<char>,
    pub size: Size,
}

impl View for Metadata {
    type V = MetadataV;

    open spec fn view(&self) -> MetadataV {
        MetadataV { username: self.username@, term_type: self.term_type@, size: self.size }
    }
}

/// Why the relay refused a message. Every one of them closes the connection
/// that sent it, after an `Error` message that says why.
#[derive(Clone, Debug, PartialEq, Eq)]
pub enum Error {
    UnknownConnection,
    UnauthenticatedMessage,
    UnexpectedMessage,
    InvalidWatchId { id: String },
    ProtoVersionMismatch,
    UnsupportedAuth,
}

pub enum ErrorV {
    UnknownConnection,
    UnauthenticatedMessage,
    UnexpectedMessage,
    InvalidWatchId { id: Seq<char> },
    ProtoVersionMismatch,
    UnsupportedAuth,
}

impl View for Error {
    type V = ErrorV;

    open spec fn view(&self) -> ErrorV {
        match self {
            Error::UnknownConnection => ErrorV::UnknownConnection,
            Error::UnauthenticatedMessage => ErrorV::UnauthenticatedMessage,
            Error::UnexpectedMessage => ErrorV::UnexpectedMessage,
            Error::InvalidWatchId { id } => ErrorV::InvalidWatchId { id: id@ },
            Error::ProtoVersionMismatch => ErrorV::ProtoVersionMismatch,
            Error::UnsupportedAuth => ErrorV::UnsupportedAuth,
        }
    }
}

/// The text sent to a client in the `Error` message that closes it.
pub open spec fn error_text(e: ErrorV) -> Seq<char> {
    match e {
        ErrorV::UnknownConnection => "unknown connection"@,
        ErrorV::UnauthenticatedMessage => "unauthenticated message"@,
        ErrorV::UnexpectedMessage => "unexpected message"@,
        ErrorV::InvalidWatchId { id } => "invalid watch id: "@ + id,
        ErrorV::ProtoVersionMismatch => "proto version mismatch"@,
        ErrorV::UnsupportedAuth => "unsupported login method"@,
    }
}

impl Error {
    pub fn message(&self) -> (r: String)
        ensures
            r@ == error_text(self@),
    {
        match self {
            Error::UnknownConnection => "unknown connection".to_string(),
            Error::UnauthenticatedMessage => "unauthenticated message".to_string(),
            Error::UnexpectedMessage => "unexpected message".to_string(),
            Error::InvalidWatchId { id } => "invalid watch id: ".to_string().concat(
                id.as_str(),
            ),
            Error::ProtoVersionMismatch => "proto version mismatch".to_string(),
            Error::UnsupportedAuth => "unsupported login method".to_string(),
        }
    }
}

/// One client connection as the relay sees it.
pub struct Connection {
    id: String,
    role: Option<Role>,
    metadata: Option<Metadata>,
    saved_data: Buffer,
    to_send: std::collections::VecDeque<Message>,
    closed: bool,
    last_activity: u64,
}

pub struct ConnV {
    pub id: Seq<char>,
    pub role: Option<RoleV>,
    pub metadata: Option<MetadataV>,
    /// The replay buffer's contents.
    pub saved: Seq<u8>,
    /// The messages waiting to be written, oldest first.
    pub queue: Seq<MessageV>,
    pub closed: bool,
    pub last_activity: u64,
}

pub open spec fn role_view(r: Option<Role>) -> Option<RoleV> {
    match r {
        Some(x) => Some(x@),
        None => None,
    }
}

pub open spec fn metadata_view(m: Option<Metadata>) -> Option<MetadataV> {
    match m {
        Some(x) => Some(x@),
        None => None,
    }
}

impl View for Connection {
    type V = ConnV;

    closed spec fn view(&self) -> ConnV {
        ConnV {
            id: self.id@,
            role: role_view(self.role),
            metadata: metadata_view(self.metadata),
            saved: self.saved_data@,
            queue: queue_view(self.to_send@),
            closed: self.closed,
            last_activity: self.last_activity,
        }
    }
}

pub open spec fn is_caster(c: ConnV) -> bool {
    c.metadata is Some && c.role == Some(RoleV::Casting)
}

pub open spec fn watches(c: ConnV, id: Seq<char>) -> bool {
    c.metadata is Some && c.role == Some(RoleV::Watching(id))
}

pub open spec fn enqueue(c: ConnV, m: MessageV) -> ConnV {
    ConnV { queue: c.queue.push(m), ..c }
}

pub open spec fn close_with(c: ConnV, m: MessageV) -> ConnV {
    ConnV { queue: c.queue.push(m), closed: true, ..c }
}

/// Every connection watching `id` gets `m` at the end of its queue.
pub open spec fn fan_out(s: Seq<ConnV>, id: Seq<char>, m: MessageV) -> Seq<ConnV> {
    Seq::new(s.len(), |j: int| if watches(s[j], id) { enqueue(s[j], m) } else { s[j] })
}

/// Every connection watching `id` gets `Disconnected` and is closed.
pub open spec fn close_watchers(s: Seq<ConnV>, id: Seq<char>) -> Seq<ConnV> {
    Seq::new(
        s.len(),
        |j: int| if watches(s[j], id) { close_with(s[j], MessageV::Disconnected) } else { s[j] },
    )
}

/// How many connections watch `id`.
pub open spec fn watcher_count(s: Seq<ConnV>, id: Seq<char>) -> nat
    decreases s.len(),
{
    if s.len() == 0 {
        0
    } else {
        watcher_count(s.drop_last(), id) + if watches(s.last(), id) {
            1nat
        } else {
            0nat
        }
    }
}

pub open spec fn clamp_u32(n: int) -> u32 {
    if n < 0 {
        0
    } else if n > u32::MAX {
        u32::MAX
    } else {
        n as u32
    }
}

/// The directory entry of a logged-in caster.
pub open spec fn session_of(c: ConnV, all: Seq<ConnV>, now: u64) -> SessionV {
    SessionV {
        id: c.id,
        username: c.metadata->0.username,
        term_type: c.metadata->0.term_type,
        size: c.metadata->0.size,
        idle_time: clamp_u32(now - c.last_activity),
        title: Seq::empty(),
        watchers: clamp_u32(watcher_count(all, c.id) as int),
    }
}

/// The directory entries of the casters among `s`, in order.
pub open spec fn snapshot(s: Seq<ConnV>, all: Seq<ConnV>, now: u64) -> Seq<SessionV>
    decreases s.len(),
{
    if s.len() == 0 {
        Seq::empty()
    } else {
        let rest = snapshot(s.drop_last(), all, now);
        if is_caster(s.last()) {
            rest.push(session_of(s.last(), all, now))
        } else {
            rest
        }
    }
}

/// Some connection with this id is a logged-in caster.
pub open spec fn has_caster(s: Seq<ConnV>, id: Seq<char>) -> bool {
    exists|j: int| 0 <= j < s.len() && s[j].id == id && is_caster(s[j])
}

pub open spec fn caster_index(s: Seq<ConnV>, id: Seq<char>) -> int {
    choose|j: int| 0 <= j < s.len() && s[j].id == id && is_caster(s[j])
}

/// What one message does to the relay's connections, before any error
/// closes the sender: the new connections, and the error if it was refused.
pub open spec fn handle_spec(s: Seq<ConnV>, i: int, m: MessageV, cap: nat, now: u64) -> (
    Seq<ConnV>,
    Option<ErrorV>,
) {
    let c = s[i];
    if c.metadata is None {
        match m {
            MessageV::Login { proto_version, auth, size, term_type } => {
                if proto_version != PROTO_VERSION {
                    (s, Some(ErrorV::ProtoVersionMismatch))
                } else {
                    match auth {
                        AuthV::Plain { username } => (
                            s.update(
                                i,
                                ConnV {
                                    metadata: Some(MetadataV { username, term_type, size }),
                                    ..c
                                },
                            ),
                            None,
                        ),
                        _ => (s, Some(ErrorV::UnsupportedAuth)),
                    }
                }
            },
            _ => (s, Some(ErrorV::UnauthenticatedMessage)),
        }
    } else {
        match c.role {
            Some(RoleV::Casting) => match m {
                MessageV::Heartbeat => (s.update(i, enqueue(c, MessageV::Heartbeat)), None),
                MessageV::TerminalOutput { data } => (
                    fan_out(
                        s.update(i, ConnV { saved: window(c.saved + data, cap), ..c }),
                        c.id,
                        MessageV::TerminalOutput { data },
                    ),
                    None,
                ),
                MessageV::Resize { size } => (
                    fan_out(
                        s.update(
                            i,
                            ConnV {
                                metadata: Some(MetadataV { size, ..c.metadata->0 }),
                                ..c
                            },
                        ),
                        c.id,
                        MessageV::Resize { size },
                    ),
                    None,
                ),
                _ => (s, Some(ErrorV::UnexpectedMessage)),
            },
            Some(RoleV::Watching(_)) => match m {
                MessageV::Heartbeat => (s.update(i, enqueue(c, MessageV::Heartbeat)), None),
                _ => (s, Some(ErrorV::UnexpectedMessage)),
            },
            None => match m {
                MessageV::Heartbeat => (s.update(i, enqueue(c, MessageV::Heartbeat)), None),
                MessageV::ListSessions => (
                    s.update(i, enqueue(c, MessageV::Sessions { sessions: snapshot(s, s, now) })),
                    None,
                ),
                MessageV::StartCasting => (
                    s.update(i, ConnV { role: Some(RoleV::Casting), ..c }),
                    None,
                ),
                MessageV::StartWatching { id } => {
                    if has_caster(s, id) {
                        (
                            s.update(
                                i,
                                enqueue(
                                    ConnV { role: Some(RoleV::Watching(id)), ..c },
                                    MessageV::TerminalOutput { data: s[caster_index(s, id)].saved },
                                ),
                            ),
                            None,
                        )
                    } else {
                        (s, Some(ErrorV::InvalidWatchId { id }))
                    }
                },
                _ => (s, Some(ErrorV::UnexpectedMessage)),
            },
        }
    }
}

/// What receiving `m` on connection `i` at time `now` does: the connection's
/// activity time is set, the message is handled, and a refused message closes
/// the connection after an `Error` that names the reason.
pub open spec fn receive_spec(s: Seq<ConnV>, i: int, m: MessageV, cap: nat, now: u64) -> (
    Seq<ConnV>,
    Option<ErrorV>,
) {
    let s1 = s.update(i, ConnV { last_activity: now, ..s[i] });
    let (s2, e) = handle_spec(s1, i, m, cap, now);
    match e {
        None => (s2, None),
        Some(err) => (
            s2.update(i, close_with(s2[i], MessageV::Error { msg: error_text(err) })),
            Some(err),
        ),
    }
}

pub open spec fn ids_unique(s: Seq<ConnV>) -> bool {
    forall|a: int, b: int| 0 <= a < s.len() && 0 <= b < s.len() && s[a].id == s[b].id ==> a == b
}

pub open spec fn err_view(e: Option<Error>) -> Option<ErrorV> {
    match e {
        Some(x) => Some(x@),
        None => None,
    }
}

pub open spec fn result_err(r: Result<(), Error>) -> Option<ErrorV> {
    match r {
        Ok(()) => None,
        Err(x) => Some(x@),
    }
}

/// A connection that was just accepted: not logged in, nothing to send.
pub open spec fn fresh_conn(id: Seq<char>, now: u64) -> ConnV {
    ConnV {
        id,
        role: None,
        metadata: None,
        saved: Seq::empty(),
        queue: Seq::empty(),
        closed: false,
        last_activity: now,
    }
}

/// What the relay does next on a connection's write side.
#[derive(Debug, PartialEq, Eq)]
pub enum WriteStep {
    /// Write this message.
    Send(Message),
    /// The queue is drained and the connection closed: it has been dropped.
    Finished,
    /// Nothing to write yet.
    Idle,
    /// No connection has that id.
    Unknown,
}

/// The relay: every open connection, in the order they were accepted.
pub struct Server {
    connections: Vec<Connection>,
    buffer_size: usize,
}

pub open spec fn conns_view(v: Seq<Connection>) -> Seq<ConnV> {
    v.map_values(|c: Connection| c@)
}

impl View for Server {
    type V = Seq<ConnV>;

    closed spec fn view(&self) -> Seq<ConnV> {
        conns_view(self.connections@)
    }
}

pub open spec fn index_of(s: Seq<ConnV>, id: Seq<char>) -> int {
    choose|j: int| 0 <= j < s.len() && s[j].id == id
}

pub open spec fn has_id(s: Seq<ConnV>, id: Seq<char>) -> bool {
    exists|j: int| 0 <= j < s.len() && s[j].id == id
}

impl Connection {
    spec fn inv(&self, cap: nat) -> bool {
        self.saved_data.wf() && self.saved_data.capacity() == cap
    }

    fn watches_id(&self, id: &String) -> (r: bool)
        ensures
            r == watches(self@, id@),
    {
        if self.metadata.is_none() {
            return false;
        }
        match &self.role {
            Some(Role::Watching(w)) => *w == *id,
            _ => false,
        }
    }

    fn is_caster(&self) -> (r: bool)
        ensures
            r == is_caster(self@),
    {
        self.metadata.is_some() && match &self.role {
            Some(Role::Casting) => true,
            _ => false,
        }
    }
}

impl Server {
    /// The capacity of each caster's replay buffer.
    pub closed spec fn buffer_size(&self) -> nat {
        self.buffer_size as nat
    }

    pub closed spec fn wf(&self) -> bool {
        &&& ids_unique(self@)
        &&& forall|i: int|
            0 <= i < self.connections@.len() ==> #[trigger] self.connections@[i].inv(
                self.buffer_size as nat,
            )
    }

    /// Every replay buffer holds at most `buffer_size` bytes, and no two
    /// connections share an id.
    pub proof fn lemma_wf_facts(&self)
        requires
            self.wf(),
        ensures
            ids_unique(self@),
            forall|i: int| 0 <= i < self@.len() ==> #[trigger] self@[i].saved.len() <= self.buffer_size(),
    {
        assert forall|i: int| 0 <= i < self@.len() implies #[trigger] self@[i].saved.len() <= self.buffer_size() by {
            assert(self.connections@[i].inv(self.buffer_size as nat));
            self.connections@[i].saved_data.lemma_len_bounded();
        }
    }

    pub fn new(buffer_size: usize) -> (r: Server)
        ensures
            r.wf(),
            r@ == Seq::<ConnV>::empty(),
            r.buffer_size() == buffer_size,
    {
        let r = Server { connections: Vec::new(), buffer_size };
        proof {
            assert(r@ =~= Seq::<ConnV>::empty());
        }
        r
    }

    pub fn len(&self) -> (r: usize)
        ensures
            r == self@.len(),
    {
        self.connections.len()
    }

    /// The position of the connection with this id.
    pub fn find(&self, id: &String) -> (r: Option<usize>)
        requires
            self.wf(),
        ensures
            r matches Some(i) ==> i < self@.len() && self@[i as int].id == id@ && index_of(
                self@,
                id@,
            ) == i,
            r is None <==> !has_id(self@, id@),
    {
        let mut i: usize = 0;
        while i < self.connections.len()
            invariant
                0 <= i <= self@.len(),
                self.wf(),
                self@.len() == self.connections@.len(),
                forall|k: int| 0 <= k < i ==> self@[k].id != id@,
            decreases self@.len() - i,
        {
            if self.connections[i].id == *id {
                proof {
                    assert(self@[i as int].id == id@);
                    assert(has_id(self@, id@));
                    let j = index_of(self@, id@);
                    assert(self@[j].id == id@);
                    assert(ids_unique(self@));
                    assert(self@[j].id == self@[i as int].id);
                }
                return Some(i);
            }
            i = i + 1;
        }
        None
    }

    /// Takes connection `i` out; `put_back` returns it to its place.
    fn take(&mut self, i: usize) -> (c: Connection)
        requires
            i < old(self)@.len(),
        ensures
            c == old(self).connections@[i as int],
            final(self).connections@ == old(self).connections@.remove(i as int),
            final(self).buffer_size == old(self).buffer_size,
    {
        self.connections.remove(i)
    }

    /// Returns `c` to position `i`, from which `take` removed the connection
    /// it replaces.
    fn put_back(&mut self, i: usize, c: Connection, Ghost(orig): Ghost<Seq<Connection>>)
        requires
            i < orig.len(),
            old(self).connections@ == orig.remove(i as int),
            c.inv(old(self).buffer_size as nat),
            c@.id == orig[i as int]@.id,
            ids_unique(conns_view(orig)),
            forall|k: int| 0 <= k < orig.len() ==> #[trigger] orig[k].inv(old(self).buffer_size as nat),
        ensures
            final(self).connections@ == orig.update(i as int, c),
            final(self)@ == conns_view(orig).update(i as int, c@),
            final(self).buffer_size == old(self).buffer_size,
            final(self).wf(),
    {
        self.connections.insert(i, c);
        proof {
            assert(self.connections@ =~= orig.update(i as int, c));
            assert(self@ =~= conns_view(orig).update(i as int, c@));
            assert forall|k: int| 0 <= k < self.connections@.len() implies #[trigger] self.connections@[k].inv(
                self.buffer_size as nat,
            ) by {
                if k != i {
                    assert(self.connections@[k] == orig[k]);
                }
            }
            assert forall|a: int, b: int|
                0 <= a < self@.len() && 0 <= b < self@.len() && self@[a].id == self@[b].id implies a
                == b by {
                assert(self@[a].id == conns_view(orig)[a].id);
                assert(self@[b].id == conns_view(orig)[b].id);
            }
        }
    }

    /// Registers a freshly accepted connection under `id`, unless that id is
    /// taken.
    pub fn add_connection(&mut self, id: String, now: u64) -> (r: bool)
        requires
            old(self).wf(),
        ensures
            final(self).wf(),
            final(self).buffer_size() == old(self).buffer_size(),
            r == !has_id(old(self)@, id@),
            r ==> final(self)@ == old(self)@.push(fresh_conn(id@, now)),
            !r ==> final(self)@ == old(self)@,
    {
        if self.find(&id).is_some() {
            return false;
        }
        let c = Connection {
            id,
            role: None,
            metadata: None,
            saved_data: Buffer::new(self.buffer_size),
            to_send: std::collections::VecDeque::new(),
            closed: false,
            last_activity: now,
        };
        let ghost old_view = self@;
        proof {
            assert(queue_view(c.to_send@) =~= Seq::<MessageV>::empty());
            assert(c@ == fresh_conn(c.id@, now));
        }
        let ghost cv = c@;
        self.connections.push(c);
        proof {
            assert(self@ =~= old_view.push(cv));
            assert forall|i: int| 0 <= i < self.connections@.len() implies #[trigger] self.connections@[i].inv(
                self.buffer_size as nat,
            ) by {
                if i < old_view.len() {
                    assert(self.connections@[i] == old(self).connections@[i]);
                }
            }
        }
        true
    }

    /// Appends `m` to the queue of every connection watching `id`.
    fn fan_out(&mut self, id: &String, m: &Message)
        requires
            old(self).wf(),
        ensures
            final(self).wf(),
            final(self).buffer_size == old(self).buffer_size,
            final(self)@ == fan_out(old(self)@, id@, m@),
    {
        let ghost s0 = self@;
        let mut j: usize = 0;
        while j < self.connections.len()
            invariant
                0 <= j <= self@.len(),
                self@.len() == s0.len(),
                self@.len() == self.connections@.len(),
                self.buffer_size == old(self).buffer_size,
                self.wf(),
                forall|k: int| 0 <= k < j ==> self@[k] == fan_out(s0, id@, m@)[k],
                forall|k: int| j <= k < self@.len() ==> self@[k] == s0[k],
            decreases self@.len() - j,
        {
            if self.connections[j].watches_id(id) {
                let ghost before = self@;
                let ghost orig = self.connections@;
                proof {
                    assert(orig[j as int].inv(self.buffer_size as nat));
                }
                let mut c = self.take(j);
                c.to_send.push_back(m.duplicate());
                proof {
                    assert(queue_view(c.to_send@) =~= before[j as int].queue.push(m@));
                    assert(c@ == enqueue(before[j as int], m@));
                }
                self.put_back(j, c, Ghost(orig));
            }
            j = j + 1;
        }
        proof {
            assert(self@ =~= fan_out(s0, id@, m@));
        }
    }

    /// Closes every connection that watches `id`, each after a final
    /// `Disconnected`.
    pub fn handle_disconnect(&mut self, id: &String)
        requires
            old(self).wf(),
        ensures
            final(self).wf(),
            final(self).buffer_size() == old(self).buffer_size(),
            final(self)@ == close_watchers(old(self)@, id@),
    {
        let ghost s0 = self@;
        let mut j: usize = 0;
        while j < self.connections.len()
            invariant
                0 <= j <= self@.len(),
                self@.len() == s0.len(),
                self@.len() == self.connections@.len(),
                self.buffer_size == old(self).buffer_size,
                self.wf(),
                forall|k: int| 0 <= k < j ==> self@[k] == close_watchers(s0, id@)[k],
                forall|k: int| j <= k < self@.len() ==> self@[k] == s0[k],
            decreases self@.len() - j,
        {
            if self.connections[j].watches_id(id) {
                let ghost before = self@;
                let ghost orig = self.connections@;
                proof {
                    assert(orig[j as int].inv(self.buffer_size as nat));
                }
                let mut c = self.take(j);
                c.to_send.push_back(Message::Disconnected);
                c.closed = true;
                proof {
                    assert(queue_view(c.to_send@) =~= before[j as int].queue.push(
                        MessageV::Disconnected,
                    ));
                    assert(c@ == close_with(before[j as int], MessageV::Disconnected));
                }
                self.put_back(j, c, Ghost(orig));
            }
            j = j + 1;
        }
        proof {
            assert(self@ =~= close_watchers(s0, id@));
        }
    }

    fn watcher_count(&self, id: &String) -> (r: u32)
        ensures
            r == clamp_u32(watcher_count(self@, id@) as int),
    {
        let mut n: u32 = 0;
        let mut j: usize = 0;
        while j < self.connections.len()
            invariant
                0 <= j <= self@.len(),
                self@.len() == self.connections@.len(),
                n == clamp_u32(watcher_count(self@.take(j as int), id@) as int),
            decreases self@.len() - j,
        {
            proof {
                assert(self@.take(j + 1).drop_last() =~= self@.take(j as int));
            }
            if self.connections[j].watches_id(id) {
                if n < u32::MAX {
                    n = n + 1;
                }
            }
            j = j + 1;
        }
        proof {
            assert(self@.take(j as int) =~= self@);
        }
        n
    }

    /// The directory entries of the logged-in casters, in order, as seen at
    /// time `now`.
    pub fn sessions(&self, now: u64) -> (r: Vec<Session>)
        ensures
            sessions_view(r@) == snapshot(self@, self@, now),
    {
        let mut out: Vec<Session> = Vec::new();
        let mut j: usize = 0;
        while j < self.connections.len()
            invariant
                0 <= j <= self@.len(),
                self@.len() == self.connections@.len(),
                sessions_view(out@) == snapshot(self@.take(j as int), self@, now),
            decreases self@.len() - j,
        {
            proof {
                assert(self@.take(j + 1).drop_last() =~= self@.take(j as int));
            }
            let c = &self.connections[j];
            if c.is_caster() {
                let md = c.metadata.as_ref().unwrap();
                let idle: u32 = if now < c.last_activity {
                    0
                } else if now - c.last_activity > u32::MAX as u64 {
                    u32::MAX
                } else {
                    (now - c.last_activity) as u32
                };
                let x = Session {
                    id: c.id.clone(),
                    username: md.username.clone(),
                    term_type: md.term_type.clone(),
                    size: md.size,
                    idle_time: idle,
                    title: String::new(),
                    watchers: self.watcher_count(&c.id),
                };
                let ghost prev = out@;
                proof {
                    assert(x@ == session_of(self@[j as int], self@, now));
                }
                out.push(x);
                proof {
                    assert(sessions_view(out@) =~= sessions_view(prev).push(x@));
                }
            }
            j = j + 1;
        }
        proof {
            assert(self@.take(j as int) =~= self@);
        }
        out
    }

    /// Appends `m` to the queue of connection `i`.
    fn push_to(&mut self, i: usize, m: Message)
        requires
            old(self).wf(),
            i < old(self)@.len(),
        ensures
            final(self).wf(),
            final(self).buffer_size == old(self).buffer_size,
            final(self)@ == old(self)@.update(i as int, enqueue(old(self)@[i as int], m@)),
    {
        let ghost orig = self.connections@;
        proof {
            assert(orig[i as int].inv(self.buffer_size as nat));
        }
        let mut c = self.take(i);
        let ghost cv = c@;
        let ghost mv = m@;
        c.to_send.push_back(m);
        proof {
            assert(queue_view(c.to_send@) =~= cv.queue.push(mv));
            assert(c@ == enqueue(cv, mv));
        }
        self.put_back(i, c, Ghost(orig));
    }

    fn handle_login_message(&mut self, i: usize, message: Message, now: u64) -> (r: Option<
        Error,
    >)
        requires
            old(self).wf(),
            i < old(self)@.len(),
            old(self)@[i as int].metadata is None,
        ensures
            final(self).wf(),
            final(self).buffer_size == old(self).buffer_size,
            (final(self)@, err_view(r)) == handle_spec(
                old(self)@,
                i as int,
                message@,
                old(self).buffer_size as nat,
                now,
            ),
    {
        match message {
            Message::Login { proto_version, auth, size, term_type } => {
                if proto_version != PROTO_VERSION {
                    return Some(Error::ProtoVersionMismatch);
                }
                match auth {
                    Auth::Plain { username } => {
                        let ghost orig = self.connections@;
                        proof {
                            assert(orig[i as int].inv(self.buffer_size as nat));
                        }
                        let mut c = self.take(i);
                        c.metadata = Some(Metadata { username, term_type, size });
                        self.put_back(i, c, Ghost(orig));
                        None
                    },
                    Auth::RecurseCenter { .. } => Some(Error::UnsupportedAuth),
                }
            },
            _ => Some(Error::UnauthenticatedMessage),
        }
    }

    fn handle_cast_message(&mut self, i: usize, message: Message, now: u64) -> (r: Option<
        Error,
    >)
        requires
            old(self).wf(),
            i < old(self)@.len(),
            old(self)@[i as int].metadata is Some,
            old(self)@[i as int].role == Some(RoleV::Casting),
        ensures
            final(self).wf(),
            final(self).buffer_size == old(self).buffer_size,
            (final(self)@, err_view(r)) == handle_spec(
                old(self)@,
                i as int,
                message@,
                old(self).buffer_size as nat,
                now,
            ),
    {
        match message {
            Message::Heartbeat => {
                self.push_to(i, Message::Heartbeat);
                None
            },
            Message::TerminalOutput { data } => {
                let id = self.connections[i].id.clone();
                let ghost orig = self.connections@;
                proof {
                    assert(orig[i as int].inv(self.buffer_size as nat));
                }
                let mut c = self.take(i);
                c.saved_data.append(data.as_slice());
                self.put_back(i, c, Ghost(orig));
                let out = Message::TerminalOutput { data };
                self.fan_out(&id, &out);
                None
            },
            Message::Resize { size } => {
                let id = self.connections[i].id.clone();
                let ghost orig = self.connections@;
                proof {
                    assert(orig[i as int].inv(self.buffer_size as nat));
                }
                let mut c = self.take(i);
                let md = c.metadata.unwrap();
                c.metadata = Some(Metadata { size, ..md });
                self.put_back(i, c, Ghost(orig));
                self.fan_out(&id, &Message::Resize { size });
                None
            },
            _ => Some(Error::UnexpectedMessage),
        }
    }

    fn handle_watch_message(&mut self, i: usize, message: Message, now: u64) -> (r: Option<
        Error,
    >)
        requires
            old(self).wf(),
            i < old(self)@.len(),
            old(self)@[i as int].metadata is Some,
            old(self)@[i as int].role matches Some(RoleV::Watching(_)),
        ensures
            final(self).wf(),
            final(self).buffer_size == old(self).buffer_size,
            (final(self)@, err_view(r)) == handle_spec(
                old(self)@,
                i as int,
                message@,
                old(self).buffer_size as nat,
                now,
            ),
    {
        match message {
            Message::Heartbeat => {
                self.push_to(i, Message::Heartbeat);
                None
            },
            _ => Some(Error::UnexpectedMessage),
        }
    }

    fn handle_other_message(&mut self, i: usize, message: Message, now: u64) -> (r: Option<
        Error,
    >)
        requires
            old(self).wf(),
            i < old(self)@.len(),
            old(self)@[i as int].metadata is Some,
            old(self)@[i as int].role is None,
        ensures
            final(self).wf(),
            final(self).buffer_size == old(self).buffer_size,
            (final(self)@, err_view(r)) == handle_spec(
                old(self)@,
                i as int,
                message@,
                old(self).buffer_size as nat,
                now,
            ),
    {
        match message {
            Message::Heartbeat => {
                self.push_to(i, Message::Heartbeat);
                None
            },
            Message::ListSessions => {
                let sessions = self.sessions(now);
                self.push_to(i, Message::Sessions { sessions });
                None
            },
            Message::StartCasting => {
                let ghost orig = self.connections@;
                proof {
                    assert(orig[i as int].inv(self.buffer_size as nat));
                }
                let mut c = self.take(i);
                c.role = Some(Role::Casting);
                self.put_back(i, c, Ghost(orig));
                None
            },
            Message::StartWatching { id } => {
                let found = self.find(&id);
                match found {
                    Some(j) => {
                        if self.connections[j].is_caster() {
                            let data = vstd::slice::slice_to_vec(
                                self.connections[j].saved_data.contents(),
                            );
                            proof {
                                assert(has_caster(self@, id@));
                                let k = caster_index(self@, id@);
                                assert(self@[k].id == self@[j as int].id);
                            }
                            let ghost orig = self.connections@;
                            proof {
                                assert(orig[i as int].inv(self.buffer_size as nat));
                            }
                            let mut c = self.take(i);
                            let ghost cv = c@;
                            c.role = Some(Role::Watching(id));
                            let ghost mid = c@;
                            let ghost dv = data@;
                            c.to_send.push_back(Message::TerminalOutput { data });
                            proof {
                                assert(queue_view(c.to_send@) =~= mid.queue.push(
                                    MessageV::TerminalOutput { data: dv },
                                ));
                            }
                            self.put_back(i, c, Ghost(orig));
                            None
                        } else {
                            proof {
                                assert forall|k: int|
                                    0 <= k < self@.len() && self@[k].id == id@ implies !is_caster(
                                    self@[k],
                                ) by {
                                    assert(self@[k].id == self@[j as int].id);
                                }
                            }
                            Some(Error::InvalidWatchId { id })
                        }
                    },
                    None => Some(Error::InvalidWatchId { id }),
                }
            },
            _ => Some(Error::UnexpectedMessage),
        }
    }

    fn handle_message(&mut self, i: usize, message: Message, now: u64) -> (r: Option<
        Error,
    >)
        requires
            old(self).wf(),
            i < old(self)@.len(),
        ensures
            final(self).wf(),
            final(self).buffer_size == old(self).buffer_size,
            (final(self)@, err_view(r)) == handle_spec(
                old(self)@,
                i as int,
                message@,
                old(self).buffer_size as nat,
                now,
            ),
    {
        if self.connections[i].metadata.is_none() {
            self.handle_login_message(i, message, now)
        } else {
            match &self.connections[i].role {
                Some(Role::Casting) => self.handle_cast_message(i, message, now),
                Some(Role::Watching(_)) => self.handle_watch_message(i, message, now),
                None => self.handle_other_message(i, message, now),
            }
        }
    }

    /// Removes connection `i` and closes everything that watched it.
    fn remove_at(&mut self, i: usize)
        requires
            old(self).wf(),
            i < old(self)@.len(),
        ensures
            final(self).wf(),
            final(self).buffer_size == old(self).buffer_size,
            final(self)@ == close_watchers(old(self)@.remove(i as int), old(self)@[i as int].id),
    {
        let ghost s0 = self@;
        let ghost orig = self.connections@;
        let c = self.take(i);
        proof {
            assert(self@ =~= s0.remove(i as int));
            assert forall|k: int| 0 <= k < self.connections@.len() implies #[trigger] self.connections@[k].inv(
                self.buffer_size as nat,
            ) by {
                if k < i {
                    assert(self.connections@[k] == orig[k]);
                } else {
                    assert(self.connections@[k] == orig[k + 1]);
                }
            }
            assert forall|a: int, b: int|
                0 <= a < self@.len() && 0 <= b < self@.len() && self@[a].id == self@[b].id implies a
                == b by {
                let a0 = if a < i { a } else { a + 1 };
                let b0 = if b < i { b } else { b + 1 };
                assert(self@[a] == s0[a0]);
                assert(self@[b] == s0[b0]);
            }
        }
        self.handle_disconnect(&c.id);
    }

    /// Handles a message that arrived on connection `id` at time `now`. A
    /// message the connection may not send closes it, after an `Error` that
    /// gives the reason, which is returned too.
    pub fn receive(&mut self, id: &String, message: Message, now: u64) -> (r: Result<
        (),
        Error,
    >)
        requires
            old(self).wf(),
        ensures
            final(self).wf(),
            final(self).buffer_size() == old(self).buffer_size(),
            !has_id(old(self)@, id@) ==> final(self)@ == old(self)@ && r matches Err(
                Error::UnknownConnection,
            ),
            has_id(old(self)@, id@) ==> (final(self)@, result_err(r)) == receive_spec(
                old(self)@,
                index_of(old(self)@, id@),
                message@,
                old(self).buffer_size(),
                now,
            ),
    {
        let i = match self.find(id) {
            Some(i) => i,
            None => return Err(Error::UnknownConnection),
        };
        let ghost orig = self.connections@;
        proof {
            assert(orig[i as int].inv(self.buffer_size as nat));
        }
        let mut c = self.take(i);
        c.last_activity = now;
        self.put_back(i, c, Ghost(orig));
        match self.handle_message(i, message, now) {
            None => Ok(()),
            Some(e) => {
                let text = e.message();
                let ghost orig2 = self.connections@;
                proof {
                    assert(orig2[i as int].inv(self.buffer_size as nat));
                }
                let mut c = self.take(i);
                let ghost cv = c@;
                c.to_send.push_back(Message::Error { msg: text });
                c.closed = true;
                proof {
                    assert(queue_view(c.to_send@) =~= cv.queue.push(
                        MessageV::Error { msg: error_text(e@) },
                    ));
                }
                self.put_back(i, c, Ghost(orig2));
                Err(e)
            },
        }
    }

    /// The read side of connection `id` reached its end: the connection
    /// closes once its queue is written.
    pub fn read_eof(&mut self, id: &String) -> (r: bool)
        requires
            old(self).wf(),
        ensures
            final(self).wf(),
            final(self).buffer_size() == old(self).buffer_size(),
            r == has_id(old(self)@, id@),
            !r ==> final(self)@ == old(self)@,
            r ==> final(self)@ == old(self)@.update(
                index_of(old(self)@, id@),
                ConnV { closed: true, ..old(self)@[index_of(old(self)@, id@)] },
            ),
    {
        let i = match self.find(id) {
            Some(i) => i,
            None => return false,
        };
        let ghost orig = self.connections@;
        proof {
            assert(orig[i as int].inv(self.buffer_size as nat));
        }
        let mut c = self.take(i);
        c.closed = true;
        self.put_back(i, c, Ghost(orig));
        true
    }

    /// Connection `id` failed or went away: it is dropped, and everything
    /// that watched it is closed.
    pub fn drop_connection(&mut self, id: &String) -> (r: bool)
        requires
            old(self).wf(),
        ensures
            final(self).wf(),
            final(self).buffer_size() == old(self).buffer_size(),
            r == has_id(old(self)@, id@),
            !r ==> final(self)@ == old(self)@,
            r ==> final(self)@ == close_watchers(
                old(self)@.remove(index_of(old(self)@, id@)),
                id@,
            ),
    {
        match self.find(id) {
            Some(i) => {
                self.remove_at(i);
                true
            },
            None => false,
        }
    }

    /// The next thing to do on the write side of connection `id`: write the
    /// oldest queued message; or, with nothing queued on a closed connection,
    /// drop it and close its watchers.
    pub fn poll_write_connection(&mut self, id: &String) -> (r: WriteStep)
        requires
            old(self).wf(),
        ensures
            final(self).wf(),
            final(self).buffer_size() == old(self).buffer_size(),
            !has_id(old(self)@, id@) ==> final(self)@ == old(self)@ && r is Unknown,
            has_id(old(self)@, id@) ==> ({
                let i = index_of(old(self)@, id@);
                let c = old(self)@[i];
                if c.queue.len() > 0 {
                    r matches WriteStep::Send(m) && m@ == c.queue[0] && final(self)@ == old(
                        self,
                    )@.update(i, ConnV { queue: c.queue.skip(1), ..c })
                } else if c.closed {
                    r is Finished && final(self)@ == close_watchers(old(self)@.remove(i), id@)
                } else {
                    r is Idle && final(self)@ == old(self)@
                }
            }),
    {
        let i = match self.find(id) {
            Some(i) => i,
            None => return WriteStep::Unknown,
        };
        if self.connections[i].to_send.len() > 0 {
            let ghost orig = self.connections@;
            proof {
                assert(orig[i as int].inv(self.buffer_size as nat));
            }
            let mut c = self.take(i);
            let ghost cq = c.to_send@;
            let m = c.to_send.pop_front().unwrap();
            proof {
                assert(queue_view(c.to_send@) =~= queue_view(cq).skip(1));
            }
            self.put_back(i, c, Ghost(orig));
            WriteStep::Send(m)
        } else if self.connections[i].closed {
            self.remove_at(i);
            WriteStep::Finished
        } else {
            WriteStep::Idle
        }
    }
}

// ---------------------------------------------------------------------------
// Laws of the relay.

/// A connection that has not logged in gets nothing but an `Error` and a
/// close for any message but `Login`; its role stays unset and no other
/// connection changes.
pub proof fn law_gatekeeping(s: Seq<ConnV>, i: int, m: MessageV, cap: nat, now: u64)
    requires
        0 <= i < s.len(),
        s[i].metadata is None,
        !(m is Login),
    ensures
        ({
            let (t, e) = receive_spec(s, i, m, cap, now);
            &&& e == Some(ErrorV::UnauthenticatedMessage)
            &&& t.len() == s.len()
            &&& t[i].closed
            &&& t[i].queue == s[i].queue.push(
                MessageV::Error { msg: "unauthenticated message"@ },
            )
            &&& t[i].metadata is None
            &&& t[i].role == s[i].role
            &&& t[i].saved == s[i].saved
            &&& forall|j: int| 0 <= j < s.len() && j != i ==> t[j] == s[j]
        }),
{
}

/// The terminal output carried by a queue of messages, in order.
pub open spec fn output_bytes(q: Seq<MessageV>) -> Seq<u8>
    decreases q.len(),
{
    if q.len() == 0 {
        Seq::empty()
    } else {
        output_bytes(q.drop_last()) + match q.last() {
            MessageV::TerminalOutput { data } => data,
            _ => Seq::empty(),
        }
    }
}

/// The connections after connection `i` has sent each chunk in turn as
/// terminal output.
pub open spec fn cast_chunks(
    s: Seq<ConnV>,
    i: int,
    chunks: Seq<Seq<u8>>,
    cap: nat,
    now: u64,
) -> Seq<ConnV>
    decreases chunks.len(),
{
    if chunks.len() == 0 {
        s
    } else {
        receive_spec(
            cast_chunks(s, i, chunks.drop_last(), cap, now),
            i,
            MessageV::TerminalOutput { data: chunks.last() },
            cap,
            now,
        ).0
    }
}

/// Whatever a caster sends, each connection watching it gets the same bytes
/// in the same order, and the caster's replay buffer holds the newest `cap`
/// bytes of what it held before followed by everything sent.
pub proof fn law_fan_out(
    s: Seq<ConnV>,
    i: int,
    k: int,
    chunks: Seq<Seq<u8>>,
    cap: nat,
    now: u64,
)
    requires
        0 <= i < s.len(),
        0 <= k < s.len(),
        i != k,
        is_caster(s[i]),
        watches(s[k], s[i].id),
        s[i].saved.len() <= cap,
    ensures
        ({
            let t = cast_chunks(s, i, chunks, cap, now);
            &&& t.len() == s.len()
            &&& is_caster(t[i])
            &&& t[i].id == s[i].id
            &&& watches(t[k], s[i].id)
            &&& !t[k].closed || s[k].closed
            &&& output_bytes(t[k].queue) == output_bytes(s[k].queue) + concat(chunks)
            &&& t[i].saved == window(s[i].saved + concat(chunks), cap)
        }),
    decreases chunks.len(),
{
    if chunks.len() == 0 {
        assert(output_bytes(s[k].queue) + concat(chunks) =~= output_bytes(s[k].queue));
        assert(s[i].saved + concat(chunks) =~= s[i].saved);
    } else {
        let init = chunks.drop_last();
        let c = chunks.last();
        law_fan_out(s, i, k, init, cap, now);
        let u = cast_chunks(s, i, init, cap, now);
        let id = s[i].id;
        let m = MessageV::TerminalOutput { data: c };
        let u1 = u.update(i, ConnV { last_activity: now, ..u[i] });
        let u2 = u1.update(i, ConnV { saved: window(u1[i].saved + c, cap), ..u1[i] });
        let t = fan_out(u2, id, m);
        assert(handle_spec(u1, i, m, cap, now) == (t, None::<ErrorV>));
        assert(cast_chunks(s, i, chunks, cap, now) == t);
        assert(t[k] == enqueue(u[k], m));
        assert(u[k].queue.push(m).drop_last() =~= u[k].queue);
        assert(output_bytes(t[k].queue) == output_bytes(u[k].queue) + c);
        assert(concat(chunks) == concat(init) + c);
        assert(output_bytes(s[k].queue) + concat(init) + c =~= output_bytes(s[k].queue) + (
        concat(init) + c));
        lemma_window_twice(s[i].saved + concat(init), c, cap);
        assert(s[i].saved + concat(init) + c =~= s[i].saved + (concat(init) + c));
    }
}

/// When connection `i` goes away, every other connection that watched it
/// ends its queue with `Disconnected` and is closed, so that this message is
/// the last one it is written before it is dropped; the rest stay as they
/// were.
pub proof fn law_disconnect_closure(s: Seq<ConnV>, i: int)
    requires
        0 <= i < s.len(),
    ensures
        ({
            let rest = s.remove(i);
            let t = close_watchers(rest, s[i].id);
            &&& t.len() == s.len() - 1
            &&& forall|k: int|
                0 <= k < t.len() ==> if watches(rest[k], s[i].id) {
                    &&& t[k].closed
                    &&& t[k].queue.len() > 0
                    &&& t[k].queue.last() == MessageV::Disconnected
                    &&& t[k].queue.drop_last() == rest[k].queue
                } else {
                    t[k] == rest[k]
                }
        }),
{
    let rest = s.remove(i);
    let t = close_watchers(rest, s[i].id);
    assert forall|k: int| 0 <= k < t.len() && watches(rest[k], s[i].id) implies t[k].queue.drop_last()
        == rest[k].queue by {
        assert(t[k].queue.drop_last() =~= rest[k].queue);
    }
}

/// A logged-in connection without a role that asks to watch a caster starts
/// watching it, and its first output is the caster's whole replay buffer;
/// the caster itself is untouched.
pub proof fn law_join_primer(s: Seq<ConnV>, w: int, c: int, cap: nat, now: u64)
    requires
        0 <= w < s.len(),
        0 <= c < s.len(),
        w != c,
        ids_unique(s),
        is_caster(s[c]),
        s[w].metadata is Some,
        s[w].role is None,
    ensures
        ({
            let (t, e) = receive_spec(s, w, MessageV::StartWatching { id: s[c].id }, cap, now);
            &&& e is None
            &&& t.len() == s.len()
            &&& watches(t[w], s[c].id)
            &&& output_bytes(t[w].queue) == output_bytes(s[w].queue) + s[c].saved
            &&& t[c] == s[c]
        }),
{
    let id = s[c].id;
    let s1 = s.update(w, ConnV { last_activity: now, ..s[w] });
    assert(s1[c] == s[c]);
    assert(has_caster(s1, id));
    let k = caster_index(s1, id);
    assert(s1[k].id == s[k].id);
    assert(k == c);
    let q = s[w].queue.push(MessageV::TerminalOutput { data: s[c].saved });
    assert(q.drop_last() =~= s[w].queue);
}

} // verus!
