use vstd::prelude::*;
use vstd::utf8::is_ascii_chars;
use crate::client::ClientEvent;
use crate::protocol::{Message, MessageV, Session, SessionV, sessions_view};
use crate::text::{ascii_bytes, ascii_string, decimal, lemma_ascii_concat, push_unit, unit_text};

verus! {

/// A duration in seconds as days, hours, minutes and seconds, leaving out
/// the leading units that are zero: `59s`, `1m0s`, `2h3m4s`, `1d0h0m5s`.
pub open spec fn time_text(dur: nat) -> Seq<char> {
    let secs = dur % 60;
    let m = dur / 60;
    let mins = m % 60;
    let h = m / 60;
    let hours = h % 24;
    let days = h / 24;
    if m == 0 {
        decimal(secs) + seq!['s']
    } else if h == 0 {
        decimal(mins) + seq!['m'] + decimal(secs) + seq!['s']
    } else if days == 0 {
        decimal(hours) + seq!['h'] + decimal(mins) + seq!['m'] + decimal(secs) + seq!['s']
    } else {
        decimal(days) + seq!['d'] + decimal(hours) + seq!['h'] + decimal(mins) + seq!['m']
            + decimal(secs) + seq!['s']
    }
}

/// How long a session has been idle, as shown in the session list.
pub fn format_time(dur: u32) -> (r: String)
    ensures
        r@ == time_text(dur as nat),
{
    let secs = dur % 60;
    let m = dur / 60;
    let mins = m % 60;
    let h = m / 60;
    let hours = h % 24;
    let days = h / 24;
    let mut out: Vec<u8> = Vec::new();
    let ghost ds = unit_text(days as nat, 'd', false);
    let ghost hs = unit_text(hours as nat, 'h', false);
    let ghost ms = unit_text(mins as nat, 'm', false);
    let ghost ss = unit_text(secs as nat, 's', false);
    if days > 0 {
        push_unit(&mut out, days, 100u8, Ghost('d'), false);
    }
    if h > 0 {
        push_unit(&mut out, hours, 104u8, Ghost('h'), false);
    }
    if m > 0 {
        push_unit(&mut out, mins, 109u8, Ghost('m'), false);
    }
    push_unit(&mut out, secs, 115u8, Ghost('s'), false);
    let ghost text = time_text(dur as nat);
    proof {
        let e = Seq::<char>::empty();
        let a = if days > 0 { ds } else { e };
        let b = if h > 0 { hs } else { e };
        let c = if m > 0 { ms } else { e };
        assert(ascii_bytes(e) =~= Seq::<u8>::empty());
        assert(out@ =~= ascii_bytes(a) + ascii_bytes(b) + ascii_bytes(c) + ascii_bytes(ss));
        lemma_ascii_concat(a, b);
        lemma_ascii_concat(a + b, c);
        lemma_ascii_concat(a + b + c, ss);
        assert(is_ascii_chars(e));
        assert(text =~= a + b + c + ss);
    }
    ascii_string(out, Ghost(text))
}

/// The smallest idle time among the sessions of user `u`, or 2^32 when
/// there are none.
pub open spec fn group_min(s: Seq<SessionV>, u: Seq<char>) -> nat
    decreases s.len(),
{
    if s.len() == 0 {
        u32::MAX as nat + 1
    } else {
        let r = group_min(s.drop_last(), u);
        if s.last().username == u && (s.last().idle_time as nat) < r {
            s.last().idle_time as nat
        } else {
            r
        }
    }
}

/// The position of the first session of user `u`, or `s.len()`.
pub open spec fn first_of(s: Seq<SessionV>, u: Seq<char>) -> nat
    decreases s.len(),
{
    if s.len() == 0 {
        0
    } else {
        let r = first_of(s.drop_last(), u);
        if r < s.len() - 1 {
            r
        } else if s.last().username == u {
            (s.len() - 1) as nat
        } else {
            s.len()
        }
    }
}

/// Session `p` is listed before session `q`: users whose most recently
/// active session is fresher come first (the first-listed user first on a
/// tie), a user's sessions stay together, freshest first, and the original
/// order settles the rest.
pub open spec fn listed_before(s: Seq<SessionV>, p: int, q: int) -> bool {
    let gp = group_min(s, s[p].username);
    let gq = group_min(s, s[q].username);
    let fp = first_of(s, s[p].username);
    let fq = first_of(s, s[q].username);
    let ip = s[p].idle_time;
    let iq = s[q].idle_time;
    gp < gq || (gp == gq && (fp < fq || (fp == fq && (ip < iq || (ip == iq && p < q)))))
}

/// The key code of the `n`th listed session: `a`, `b`, ... skipping `q`.
pub open spec fn key_code(n: nat) -> u32 {
    if n < 16 {
        (97 + n) as u32
    } else {
        (98 + n) as u32
    }
}

/// The sessions offered by the watch menu, each under the key that picks it.
pub struct SortedSessions {
    sessions: Vec<(u32, Session)>,
}

pub open spec fn entries_view(v: Seq<(u32, Session)>) -> Seq<(u32, SessionV)> {
    v.map_values(|e: (u32, Session)| (e.0, e.1@))
}

/// The entries list the sessions `s` in the order of `listed_before`, under
/// consecutive key codes.
pub open spec fn sorted_from(e: Seq<(u32, SessionV)>, s: Seq<SessionV>) -> bool {
    exists|order: Seq<int>|
        {
            &&& order.len() == s.len()
            &&& e.len() == s.len()
            &&& order.no_duplicates()
            &&& forall|n: int| 0 <= n < order.len() ==> 0 <= #[trigger] order[n] < s.len()
            &&& forall|n: int|
                0 <= n < e.len() ==> #[trigger] e[n] == (key_code(n as nat), s[order[n]])
            &&& forall|a: int, b: int|
                0 <= a < b < order.len() ==> listed_before(s, #[trigger] order[a], #[trigger] order[b])
        }
}

fn group_min_of(s: &Vec<Session>, u: &String) -> (r: u64)
    ensures
        r == group_min(sessions_view(s@), u@),
{
    let ghost v = sessions_view(s@);
    let mut best: u64 = 0x1_0000_0000;
    let mut i: usize = 0;
    while i < s.len()
        invariant
            0 <= i <= s@.len(),
            v == sessions_view(s@),
            best == group_min(v.take(i as int), u@),
        decreases s@.len() - i,
    {
        proof {
            assert(v.take(i + 1).drop_last() =~= v.take(i as int));
        }
        if s[i].username == *u && (s[i].idle_time as u64) < best {
            best = s[i].idle_time as u64;
        }
        i = i + 1;
    }
    proof {
        assert(v.take(i as int) =~= v);
    }
    best
}

fn first_of_user(s: &Vec<Session>, u: &String) -> (r: usize)
    ensures
        r == first_of(sessions_view(s@), u@),
{
    let ghost v = sessions_view(s@);
    let mut i: usize = 0;
    let mut found: usize = 0;
    let mut done = false;
    while i < s.len()
        invariant
            0 <= i <= s@.len(),
            v == sessions_view(s@),
            done ==> found == first_of(v.take(i as int), u@) && found < i,
            !done ==> first_of(v.take(i as int), u@) == i,
        decreases s@.len() - i,
    {
        proof {
            assert(v.take(i + 1).drop_last() =~= v.take(i as int));
        }
        if !done && s[i].username == *u {
            found = i;
            done = true;
        }
        i = i + 1;
    }
    proof {
        assert(v.take(i as int) =~= v);
    }
    if done {
        found
    } else {
        s.len()
    }
}

/// The values `listed_before` compares, for one session.
struct Rank {
    group_min: u64,
    first: usize,
    idle: u32,
}

fn before(ranks: &Vec<Rank>, p: usize, q: usize) -> (r: bool)
    requires
        p < ranks@.len(),
        q < ranks@.len(),
    ensures
        r == ({
            let a = ranks@[p as int];
            let b = ranks@[q as int];
            a.group_min < b.group_min || (a.group_min == b.group_min && (a.first < b.first || (
            a.first == b.first && (a.idle < b.idle || (a.idle == b.idle && p < q)))))
        }),
{
    let a = &ranks[p];
    let b = &ranks[q];
    a.group_min < b.group_min || (a.group_min == b.group_min && (a.first < b.first || (a.first
        == b.first && (a.idle < b.idle || (a.idle == b.idle && p < q)))))
}

impl SortedSessions {
    pub closed spec fn view_entries(&self) -> Seq<(u32, SessionV)> {
        entries_view(self.sessions@)
    }

    /// Entry `n` is listed under `key_code(n)`.
    pub closed spec fn wf(&self) -> bool {
        &&& self.sessions@.len() < 0xffff_0000
        &&& forall|n: int| 0 <= n < self.sessions@.len() ==> #[trigger] self.sessions@[n].0 == key_code(n as nat)
    }

    /// Lists the sessions by user, the most recently active users first, and
    /// gives each a key.
    pub fn new(sessions: Vec<Session>) -> (r: SortedSessions)
        requires
            sessions@.len() < 0xffff_0000,
        ensures
            r.wf(),
            sorted_from(r.view_entries(), sessions_view(sessions@)),
    {
        let ghost s = sessions_view(sessions@);
        let n = sessions.len();
        let mut ranks: Vec<Rank> = Vec::new();
        let mut i: usize = 0;
        while i < n
            invariant
                0 <= i <= n,
                n == sessions@.len(),
                s == sessions_view(sessions@),
                ranks@.len() == i,
                forall|p: int|
                    0 <= p < i ==> {
                        &&& (#[trigger] ranks@[p]).group_min == group_min(s, s[p].username)
                        &&& ranks@[p].first == first_of(s, s[p].username)
                        &&& ranks@[p].idle == s[p].idle_time
                    },
            decreases n - i,
        {
            let x = &sessions[i];
            let rank = Rank {
                group_min: group_min_of(&sessions, &x.username),
                first: first_of_user(&sessions, &x.username),
                idle: x.idle_time,
            };
            ranks.push(rank);
            i = i + 1;
        }
        let mut remaining: Vec<usize> = Vec::new();
        let mut k: usize = 0;
        while k < n
            invariant
                0 <= k <= n,
                remaining@.len() == k,
                forall|a: int| 0 <= a < k ==> #[trigger] remaining@[a] == a,
            decreases n - k,
        {
            remaining.push(k);
            k = k + 1;
        }
        let mut order: Vec<usize> = Vec::new();
        while remaining.len() > 0
            invariant
                n == sessions@.len(),
                n == ranks@.len(),
                s == sessions_view(sessions@),
                forall|p: int|
                    0 <= p < n ==> {
                        &&& (#[trigger] ranks@[p]).group_min == group_min(s, s[p].username)
                        &&& ranks@[p].first == first_of(s, s[p].username)
                        &&& ranks@[p].idle == s[p].idle_time
                    },
                order@.len() + remaining@.len() == n,
                forall|a: int| 0 <= a < order@.len() ==> #[trigger] order@[a] < n,
                forall|a: int| 0 <= a < remaining@.len() ==> #[trigger] remaining@[a] < n,
                forall|a: int, b: int|
                    0 <= a < b < order@.len() ==> #[trigger] order@[a] != #[trigger] order@[b],
                forall|a: int, b: int|
                    0 <= a < b < remaining@.len() ==> #[trigger] remaining@[a]
                        != #[trigger] remaining@[b],
                forall|a: int, b: int|
                    0 <= a < order@.len() && 0 <= b < remaining@.len() ==> listed_before(
                        s,
                        #[trigger] order@[a] as int,
                        #[trigger] remaining@[b] as int,
                    ),
                forall|a: int, b: int|
                    0 <= a < b < order@.len() ==> listed_before(
                        s,
                        #[trigger] order@[a] as int,
                        #[trigger] order@[b] as int,
                    ),
            decreases remaining@.len(),
        {
            let mut best: usize = 0;
            let mut j: usize = 1;
            while j < remaining.len()
                invariant
                    n == ranks@.len(),
                    n == sessions@.len(),
                    s == sessions_view(sessions@),
                    forall|p: int|
                        0 <= p < n ==> {
                            &&& (#[trigger] ranks@[p]).group_min == group_min(s, s[p].username)
                            &&& ranks@[p].first == first_of(s, s[p].username)
                            &&& ranks@[p].idle == s[p].idle_time
                        },
                    forall|a: int| 0 <= a < remaining@.len() ==> #[trigger] remaining@[a] < n,
                    forall|a: int, b: int|
                        0 <= a < b < remaining@.len() ==> #[trigger] remaining@[a]
                            != #[trigger] remaining@[b],
                    0 <= best < j <= remaining@.len(),
                    forall|b: int|
                        0 <= b < j && b != best ==> listed_before(
                            s,
                            remaining@[best as int] as int,
                            #[trigger] remaining@[b] as int,
                        ),
                decreases remaining@.len() - j,
            {
                if before(&ranks, remaining[j], remaining[best]) {
                    proof {
                        let x = remaining@[j as int] as int;
                        let y = remaining@[best as int] as int;
                        assert forall|b: int|
                            0 <= b < j + 1 && b != j implies listed_before(
                            s,
                            x,
                            #[trigger] remaining@[b] as int,
                        ) by {
                            if b != best {
                                assert(listed_before(s, y, remaining@[b] as int));
                            }
                        }
                    }
                    best = j;
                } else {
                    proof {
                        let x = remaining@[j as int] as int;
                        let y = remaining@[best as int] as int;
                        assert(x != y);
                        assert(listed_before(s, y, x));
                    }
                }
                j = j + 1;
            }
            let ghost old_rem = remaining@;
            let ghost old_order = order@;
            let x = remaining.remove(best);
            order.push(x);
            proof {
                assert forall|a: int, b: int|
                    0 <= a < b < order@.len() implies #[trigger] order@[a] != #[trigger] order@[b] by {
                    if b == order@.len() - 1 {
                        let ai = a;
                        assert(old_order[ai] != old_rem[best as int]) by {
                            assert(listed_before(s, old_order[ai] as int, old_rem[best as int] as int));
                        }
                    }
                }
                assert forall|a: int, b: int|
                    0 <= a < b < remaining@.len() implies #[trigger] remaining@[a]
                        != #[trigger] remaining@[b] by {
                    let a0 = if a < best { a } else { a + 1 };
                    let b0 = if b < best { b } else { b + 1 };
                    assert(remaining@[a] == old_rem[a0]);
                    assert(remaining@[b] == old_rem[b0]);
                }
                assert forall|a: int| 0 <= a < remaining@.len() implies #[trigger] remaining@[a] < n by {
                    let a0 = if a < best { a } else { a + 1 };
                    assert(remaining@[a] == old_rem[a0]);
                }
                assert forall|a: int, b: int|
                    0 <= a < order@.len() && 0 <= b < remaining@.len() implies listed_before(
                    s,
                    #[trigger] order@[a] as int,
                    #[trigger] remaining@[b] as int,
                ) by {
                    let b0 = if b < best { b } else { b + 1 };
                    assert(remaining@[b] == old_rem[b0]);
                    if a < old_order.len() {
                        assert(order@[a] == old_order[a]);
                    } else {
                        assert(b0 != best);
                    }
                }
                assert forall|a: int, b: int|
                    0 <= a < b < order@.len() implies listed_before(
                    s,
                    #[trigger] order@[a] as int,
                    #[trigger] order@[b] as int,
                ) by {
                    if b == order@.len() - 1 {
                        assert(order@[a] == old_order[a]);
                        assert(listed_before(s, old_order[a] as int, old_rem[best as int] as int));
                    } else {
                        assert(order@[a] == old_order[a]);
                        assert(order@[b] == old_order[b]);
                    }
                }
            }
        }
        let mut out: Vec<(u32, Session)> = Vec::new();
        let mut m: usize = 0;
        while m < n
            invariant
                0 <= m <= n,
                n < 0xffff_0000,
                n == sessions@.len(),
                order@.len() == n,
                s == sessions_view(sessions@),
                forall|a: int| 0 <= a < order@.len() ==> #[trigger] order@[a] < n,
                out@.len() == m,
                forall|a: int|
                    0 <= a < m ==> #[trigger] entries_view(out@)[a] == (
                        key_code(a as nat),
                        s[order@[a] as int],
                    ),
            decreases n - m,
        {
            let key: u32 = if m < 16 {
                97 + m as u32
            } else {
                98 + m as u32
            };
            let x = sessions[order[m]].duplicate();
            let ghost prev = out@;
            out.push((key, x));
            proof {
                assert(entries_view(out@) =~= entries_view(prev).push((key, x@)));
                assert(x@ == s[order@[m as int] as int]);
            }
            m = m + 1;
        }
        let ghost ord = order@.map_values(|x: usize| x as int);
        proof {
            assert(ord.no_duplicates()) by {
                assert forall|a: int, b: int|
                    0 <= a < ord.len() && 0 <= b < ord.len() && a != b implies ord[a] != ord[b] by {
                    if a < b {
                        assert(order@[a] != order@[b]);
                    } else {
                        assert(order@[b] != order@[a]);
                    }
                }
            }
            let e = entries_view(out@);
            assert forall|a: int| 0 <= a < ord.len() implies 0 <= #[trigger] ord[a] < s.len() by {
                assert(order@[a] < n);
            }
            assert forall|a: int| 0 <= a < e.len() implies #[trigger] e[a] == (
                key_code(a as nat),
                s[ord[a]],
            ) by {
                assert(entries_view(out@)[a] == (key_code(a as nat), s[order@[a] as int]));
            }
            assert forall|a: int, b: int|
                0 <= a < b < ord.len() implies listed_before(s, #[trigger] ord[a], #[trigger] ord[b]) by {
                assert(listed_before(s, order@[a] as int, order@[b] as int));
            }
        }
        let r = SortedSessions { sessions: out };
        proof {
            assert forall|a: int| 0 <= a < r.sessions@.len() implies #[trigger] r.sessions@[a].0 == key_code(a as nat) by {
                assert(entries_view(out@)[a].0 == out@[a].0);
            }
        }
        r
    }

    /// The id of the session listed under key `c`.
    pub fn id_for(&self, c: char) -> (r: Option<&str>)
        ensures
            match r {
                Some(id) => exists|n: int|
                    0 <= n < self.view_entries().len() && self.view_entries()[n].0 == c as u32
                        && self.view_entries()[n].1.id == id@,
                None => forall|n: int|
                    0 <= n < self.view_entries().len() ==> self.view_entries()[n].0 != c as u32,
            },
    {
        let code = c as u32;
        let mut i: usize = 0;
        while i < self.sessions.len()
            invariant
                0 <= i <= self.sessions@.len(),
                code == c as u32,
                forall|n: int| 0 <= n < i ==> self.view_entries()[n].0 != code,
            decreases self.sessions@.len() - i,
        {
            if self.sessions[i].0 == code {
                let id = self.sessions[i].1.id.as_str();
                proof {
                    assert(self.view_entries()[i as int].1.id == id@);
                    assert(exists|n: int|
                        0 <= n < self.view_entries().len() && self.view_entries()[n].0 == c as u32
                            && self.view_entries()[n].1.id == id@);
                }
                return Some(id);
            }
            i = i + 1;
        }
        None
    }

    pub fn len(&self) -> (r: usize)
        ensures
            r == self.view_entries().len(),
    {
        self.sessions.len()
    }

    /// The key code and the session of entry `n`.
    pub fn entry(&self, n: usize) -> (r: (u32, &Session))
        requires
            n < self.view_entries().len(),
        ensures
            r.0 == self.view_entries()[n as int].0,
            r.1@ == self.view_entries()[n as int].1,
    {
        (self.sessions[n].0, &self.sessions[n].1)
    }
}

/// Where the watch menu stands.
pub enum WatchState {
    /// Waiting for the list of sessions.
    LoggingIn,
    /// Showing the list, waiting for a key.
    Choosing(SortedSessions),
    /// Showing the session with this id.
    Watching(String),
}

pub enum WatchStateV {
    LoggingIn,
    Choosing(Seq<(u32, SessionV)>),
    Watching(Seq<char>),
}

/// What the watch menu asks of its surroundings.
#[derive(Debug, PartialEq, Eq)]
pub enum WatchAction {
    Nothing,
    /// Ask the relay for its sessions.
    ListSessions,
    /// Show the list of sessions just received.
    ShowSessions,
    /// Clear the screen and connect to watch this session.
    Watch(String),
    /// Write the watched session's output.
    Output(Vec<u8>),
    /// The relay reported an error with this text; the menu ends.
    ServerError(String),
    /// The menu ends.
    Quit,
}

/// The relay sent the menu a message it has no use for.
#[derive(Clone, Copy, Debug, PartialEq, Eq, Structural)]
pub enum WatchError {
    UnexpectedMessage,
}

/// The decisions of the watch menu.
pub struct WatchSession {
    state: WatchState,
}

impl View for WatchSession {
    type V = WatchStateV;

    closed spec fn view(&self) -> WatchStateV {
        match self.state {
            WatchState::LoggingIn => WatchStateV::LoggingIn,
            WatchState::Choosing(s) => WatchStateV::Choosing(s.view_entries()),
            WatchState::Watching(id) => WatchStateV::Watching(id@),
        }
    }
}

/// The id listed under key `c`, if any.
pub open spec fn listed_id(e: Seq<(u32, SessionV)>, c: char) -> Option<Seq<char>> {
    if exists|n: int| 0 <= n < e.len() && e[n].0 == c as u32 {
        Some(e[choose|n: int| 0 <= n < e.len() && e[n].0 == c as u32].1.id)
    } else {
        None
    }
}

/// The key codes of the entries are all different.
pub open spec fn keys_distinct(e: Seq<(u32, SessionV)>) -> bool {
    forall|a: int, b: int| 0 <= a < e.len() && 0 <= b < e.len() && e[a].0 == e[b].0 ==> a == b
}

impl SortedSessions {
    /// No two entries share a key.
    pub proof fn lemma_keys_distinct(&self)
        requires
            self.wf(),
        ensures
            keys_distinct(self.view_entries()),
    {
    }
}

impl WatchSession {
    pub closed spec fn wf(&self) -> bool {
        match self.state {
            WatchState::Choosing(s) => s.wf(),
            _ => true,
        }
    }

    pub fn new() -> (r: WatchSession)
        ensures
            r.wf(),
            r@ == WatchStateV::LoggingIn,
    {
        WatchSession { state: WatchState::LoggingIn }
    }

    /// The sessions on offer, while the list is shown.
    pub fn choices(&self) -> (r: Option<&SortedSessions>)
        ensures
            match self@ {
                WatchStateV::Choosing(e) => r matches Some(s) && s.view_entries() == e,
                _ => r is None,
            },
    {
        match &self.state {
            WatchState::Choosing(s) => Some(s),
            _ => None,
        }
    }

    /// Reacts to a key typed on the local terminal.
    pub fn poll_input(&mut self, key: char) -> (r: WatchAction)
        requires
            old(self).wf(),
        ensures
            final(self).wf(),
            match old(self)@ {
                WatchStateV::LoggingIn => r == WatchAction::Nothing && final(self)@ == old(self)@,
                WatchStateV::Choosing(e) => if key == ' ' {
                    r == WatchAction::ListSessions && final(self)@ == old(self)@
                } else if key == 'q' {
                    r == WatchAction::Quit && final(self)@ == old(self)@
                } else {
                    match listed_id(e, key) {
                        Some(id) => r matches WatchAction::Watch(x) && x@ == id && final(self)@
                            == WatchStateV::Watching(id),
                        None => r == WatchAction::Nothing && final(self)@ == old(self)@,
                    }
                },
                WatchStateV::Watching(_) => if key == 'q' {
                    r == WatchAction::ListSessions && final(self)@ == WatchStateV::LoggingIn
                } else {
                    r == WatchAction::Nothing && final(self)@ == old(self)@
                },
            },
    {
        match &self.state {
            WatchState::LoggingIn => WatchAction::Nothing,
            WatchState::Choosing(sessions) => {
                if key == ' ' {
                    WatchAction::ListSessions
                } else if key == 'q' {
                    WatchAction::Quit
                } else {
                    match sessions.id_for(key) {
                        Some(id) => {
                            let id = id.to_string();
                            proof {
                                sessions.lemma_keys_distinct();
                                let e = sessions.view_entries();
                                let m = choose|n: int| 0 <= n < e.len() && e[n].0 == key as u32;
                                assert(e[m].1.id == id@);
                            }
                            let w = id.clone();
                            self.state = WatchState::Watching(id);
                            WatchAction::Watch(w)
                        },
                        None => WatchAction::Nothing,
                    }
                }
            },
            WatchState::Watching(_) => {
                if key == 'q' {
                    self.state = WatchState::LoggingIn;
                    WatchAction::ListSessions
                } else {
                    WatchAction::Nothing
                }
            },
        }
    }

    /// Reacts to an event of the connection that lists sessions: a
    /// (re)connection asks for the list again, a list is shown and offered.
    pub fn poll_list_client(&mut self, event: ClientEvent) -> (r: Result<WatchAction, WatchError>)
        requires
            old(self).wf(),
        ensures
            final(self).wf(),
            match event {
                ClientEvent::Connect => r == Ok::<WatchAction, WatchError>(WatchAction::ListSessions)
                    && final(self)@ == WatchStateV::LoggingIn,
                ClientEvent::ServerMessage(m) => match m@ {
                    MessageV::Sessions { sessions } => sessions.len() < 0xffff_0000 ==> (r
                        == Ok::<WatchAction, WatchError>(WatchAction::ShowSessions) && (final(self)@ matches WatchStateV::Choosing(e)
                        && sorted_from(e, sessions))) && (sessions.len() >= 0xffff_0000 ==> r
                        == Err::<WatchAction, WatchError>(WatchError::UnexpectedMessage) && final(self)@
                        == old(self)@),
                    _ => r == Err::<WatchAction, WatchError>(WatchError::UnexpectedMessage) && final(self)@ == old(self)@,
                },
                _ => r == Ok::<WatchAction, WatchError>(WatchAction::Nothing) && final(self)@ == old(self)@,
            },
    {
        match event {
            ClientEvent::Connect => {
                self.state = WatchState::LoggingIn;
                Ok(WatchAction::ListSessions)
            },
            ClientEvent::ServerMessage(m) => match m {
                Message::Sessions { sessions } => {
                    if sessions.len() >= 0xffff_0000 {
                        return Err(WatchError::UnexpectedMessage);
                    }
                    let sorted = SortedSessions::new(sessions);
                    self.state = WatchState::Choosing(sorted);
                    Ok(WatchAction::ShowSessions)
                },
                _ => Err(WatchError::UnexpectedMessage),
            },
            _ => Ok(WatchAction::Nothing),
        }
    }

    /// Reacts to an event of the connection that watches a session, while
    /// one is watched: output is shown, and the end of the session or an
    /// error from the relay ends the menu.
    pub fn poll_watch_client(&mut self, event: ClientEvent) -> (r: Result<WatchAction, WatchError>)
        requires
            old(self).wf(),
        ensures
            final(self).wf(),
            final(self)@ == old(self)@,
            !(old(self)@ is Watching) ==> r == Ok::<WatchAction, WatchError>(WatchAction::Nothing),
            old(self)@ is Watching ==> match event {
                ClientEvent::ServerMessage(m) => match m@ {
                    MessageV::TerminalOutput { data } => r matches Ok(WatchAction::Output(d)) && d@
                        == data,
                    MessageV::Disconnected => r == Ok::<WatchAction, WatchError>(WatchAction::Quit),
                    MessageV::Error { msg } => r matches Ok(WatchAction::ServerError(t)) && t@
                        == msg,
                    _ => r == Err::<WatchAction, WatchError>(WatchError::UnexpectedMessage),
                },
                _ => r == Ok::<WatchAction, WatchError>(WatchAction::Nothing),
            },
    {
        match &self.state {
            WatchState::Watching(_) => {},
            _ => {
                return Ok(WatchAction::Nothing);
            },
        }
        match event {
            ClientEvent::ServerMessage(m) => match m {
                Message::TerminalOutput { data } => Ok(WatchAction::Output(data)),
                Message::Disconnected => Ok(WatchAction::Quit),
                Message::Error { msg } => Ok(WatchAction::ServerError(msg)),
                _ => Err(WatchError::UnexpectedMessage),
            },
            _ => Ok(WatchAction::Nothing),
        }
    }
}

} // verus!
