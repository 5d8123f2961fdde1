use vstd::prelude::*;

verus! {

/// The protocol version a client announces in its login message.
pub const PROTO_VERSION: u8 = 1;

/// A terminal size.
#[derive(Clone, Copy, Debug, PartialEq, Eq, Structural)]
pub struct Size {
    pub rows: u16,
    pub cols: u16,
}

/// How a client identifies itself.
#[derive(Clone, Debug, PartialEq, Eq)]
pub enum Auth {
    Plain { username: String },
    RecurseCenter { id: Option<String> },
}

pub enum AuthV {
    Plain { username: Seq<char> },
    RecurseCenter { id: Option<Seq<char>> },
}

impl View for Auth {
    type V = AuthV;

    open spec fn view(&self) -> AuthV {
        match self {
            Auth::Plain { username } => AuthV::Plain { username: username@ },
            Auth::RecurseCenter { id } => AuthV::RecurseCenter {
                id: match id {
                    Some(t) => Some(t@),
                    None => None,
                },
            },
        }
    }
}

/// A directory entry describing one streaming session.
#[derive(Clone, Debug, PartialEq, Eq)]
pub struct Session {
    pub id: String,
    pub username: String,
    pub term_type: String,
    pub size: Size,
    pub idle_time: u32,
    pub title: String,
    pub watchers: u32,
}

pub struct SessionV {
    pub id: Seq<char>,
    pub username: Seq<char>,
    pub term_type: Seq<char>,
    pub size: Size,
    pub idle_time: u32,
    pub title: Seq<char>,
    pub watchers: u32,
}

impl View for Session {
    type V = SessionV;

    open spec fn view(&self) -> SessionV {
        SessionV {
            id: self.id@,
            username: self.username@,
            term_type: self.term_type@,
            size: self.size,
            idle_time: self.idle_time,
            title: self.title@,
            watchers: self.watchers,
        }
    }
}

pub open spec fn sessions_view(s: Seq<Session>) -> Seq<SessionV> {
    s.map_values(|x: Session| x@)
}

/// Every message that travels between clients and the relay.
#[derive(Clone, Debug, PartialEq, Eq)]
pub enum Message {
    Login { proto_version: u8, auth: Auth, size: Size, term_type: String },
    StartCasting,
    StartWatching { id: String },
    Heartbeat,
    TerminalOutput { data: Vec<u8> },
    Resize { size: Size },
    ListSessions,
    Sessions { sessions: Vec<Session> },
    Disconnected,
    Error { msg: String },
}

pub enum MessageV {
    Login { proto_version: u8, auth: AuthV, size: Size, term_type: Seq<char> },
    StartCasting,
    StartWatching { id: Seq<char> },
    Heartbeat,
    TerminalOutput { data: Seq<u8> },
    Resize { size: Size },
    ListSessions,
    Sessions { sessions: Seq<SessionV> },
    Disconnected,
    Error { msg: Seq<char> },
}

impl View for Message {
    type V = MessageV;

    open spec fn view(&self) -> MessageV {
        match self {
            Message::Login { proto_version, auth, size, term_type } => MessageV::Login {
                proto_version: *proto_version,
                auth: auth@,
                size: *size,
                term_type: term_type@,
            },
            Message::StartCasting => MessageV::StartCasting,
            Message::StartWatching { id } => MessageV::StartWatching { id: id@ },
            Message::Heartbeat => MessageV::Heartbeat,
            Message::TerminalOutput { data } => MessageV::TerminalOutput { data: data@ },
            Message::Resize { size } => MessageV::Resize { size: *size },
            Message::ListSessions => MessageV::ListSessions,
            Message::Sessions { sessions } => MessageV::Sessions {
                sessions: sessions_view(sessions@),
            },
            Message::Disconnected => MessageV::Disconnected,
            Message::Error { msg } => MessageV::Error { msg: msg@ },
        }
    }
}

pub open spec fn queue_view(q: Seq<Message>) -> Seq<MessageV> {
    q.map_values(|m: Message| m@)
}

impl Auth {
    /// A copy of this value.
    pub fn duplicate(&self) -> (r: Auth)
        ensures
            r@ == self@,
    {
        match self {
            Auth::Plain { username } => Auth::Plain { username: username.clone() },
            Auth::RecurseCenter { id } => match id {
                Some(t) => Auth::RecurseCenter { id: Some(t.clone()) },
                None => Auth::RecurseCenter { id: None },
            },
        }
    }
}

impl Session {
    /// A copy of this value.
    pub fn duplicate(&self) -> (r: Session)
        ensures
            r@ == self@,
    {
        Session {
            id: self.id.clone(),
            username: self.username.clone(),
            term_type: self.term_type.clone(),
            size: self.size,
            idle_time: self.idle_time,
            title: self.title.clone(),
            watchers: self.watchers,
        }
    }
}

impl Message {
    /// A copy of this value.
    pub fn duplicate(&self) -> (r: Message)
        ensures
            r@ == self@,
    {
        match self {
            Message::Login { proto_version, auth, size, term_type } => Message::Login {
                proto_version: *proto_version,
                auth: auth.duplicate(),
                size: *size,
                term_type: term_type.clone(),
            },
            Message::StartCasting => Message::StartCasting,
            Message::StartWatching { id } => Message::StartWatching { id: id.clone() },
            Message::Heartbeat => Message::Heartbeat,
            Message::TerminalOutput { data } => Message::TerminalOutput {
                data: vstd::slice::slice_to_vec(data.as_slice()),
            },
            Message::Resize { size } => Message::Resize { size: *size },
            Message::ListSessions => Message::ListSessions,
            Message::Sessions { sessions } => {
                let mut out: Vec<Session> = Vec::new();
                let mut i: usize = 0;
                while i < sessions.len()
                    invariant
                        0 <= i <= sessions@.len(),
                        sessions_view(out@) == sessions_view(sessions@).take(i as int),
                    decreases sessions@.len() - i,
                {
                    let x = sessions[i].duplicate();
                    let ghost prev = out@;
                    out.push(x);
                    proof {
                        assert(out@ == prev.push(x));
                        assert(sessions_view(out@) =~= sessions_view(prev).push(x@));
                        assert(sessions_view(out@) =~= sessions_view(sessions@).take(i + 1));
                    }
                    i = i + 1;
                }
                proof {
                    assert(sessions_view(sessions@).take(i as int) =~= sessions_view(sessions@));
                }
                Message::Sessions { sessions: out }
            },
            Message::Disconnected => Message::Disconnected,
            Message::Error { msg } => Message::Error { msg: msg.clone() },
        }
    }
}

} // verus!
