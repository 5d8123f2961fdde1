use vstd::prelude::*;
use vstd::utf8::*;
use vstd::string::*;
use crate::text::string_from_utf8;
use crate::protocol::{Auth, AuthV, Message, MessageV, Session, SessionV, Size, sessions_view};

verus! {

broadcast use {encode_utf8_valid_utf8, encode_utf8_decode_utf8};

/// The largest frame payload that is written or accepted.
pub const MAX_FRAME: usize = 16777216;

// ---------------------------------------------------------------------------
// The wire format, as sequences of bytes.

pub open spec fn enc16(x: u16) -> Seq<u8> {
    seq![((x >> 8u16) & 0xffu16) as u8, (x & 0xffu16) as u8]
}

pub open spec fn enc32(x: u32) -> Seq<u8> {
    seq![
        ((x >> 24u32) & 0xffu32) as u8,
        ((x >> 16u32) & 0xffu32) as u8,
        ((x >> 8u32) & 0xffu32) as u8,
        (x & 0xffu32) as u8,
    ]
}

pub open spec fn be16(b0: u8, b1: u8) -> u16 {
    ((b0 as u16) << 8u16) | (b1 as u16)
}

pub open spec fn be32(b0: u8, b1: u8, b2: u8, b3: u8) -> u32 {
    ((b0 as u32) << 24u32) | ((b1 as u32) << 16u32) | ((b2 as u32) << 8u32) | (b3 as u32)
}

pub open spec fn enc_blob(b: Seq<u8>) -> Seq<u8> {
    enc32(b.len() as u32) + b
}

pub open spec fn enc_str(s: Seq<char>) -> Seq<u8> {
    enc_blob(encode_utf8(s))
}

pub open spec fn enc_size(sz: Size) -> Seq<u8> {
    enc16(sz.rows) + enc16(sz.cols)
}

pub open spec fn enc_auth(a: AuthV) -> Seq<u8> {
    match a {
        AuthV::Plain { username } => seq![0u8] + enc_str(username),
        AuthV::RecurseCenter { id } => match id {
            None => seq![1u8, 0u8],
            Some(t) => seq![1u8, 1u8] + enc_str(t),
        },
    }
}

pub open spec fn enc_session(s: SessionV) -> Seq<u8> {
    enc_str(s.id) + enc_str(s.username) + enc_str(s.term_type) + enc_size(s.size) + enc32(
        s.idle_time,
    ) + enc_str(s.title) + enc32(s.watchers)
}

/// The sessions one after another, without a count.
pub open spec fn enc_session_list(l: Seq<SessionV>) -> Seq<u8>
    decreases l.len(),
{
    if l.len() == 0 {
        Seq::empty()
    } else {
        enc_session(l[0]) + enc_session_list(l.skip(1))
    }
}

pub open spec fn tag_of(m: MessageV) -> u8 {
    match m {
        MessageV::Login { .. } => 0,
        MessageV::StartCasting => 1,
        MessageV::StartWatching { .. } => 2,
        MessageV::Heartbeat => 3,
        MessageV::TerminalOutput { .. } => 4,
        MessageV::Resize { .. } => 5,
        MessageV::ListSessions => 6,
        MessageV::Sessions { .. } => 7,
        MessageV::Disconnected => 8,
        MessageV::Error { .. } => 9,
    }
}

/// A message's payload: its tag byte, then its fields.
pub open spec fn enc_payload(m: MessageV) -> Seq<u8> {
    seq![tag_of(m)] + match m {
        MessageV::Login { proto_version, auth, size, term_type } => seq![proto_version]
            + enc_auth(auth) + enc_size(size) + enc_str(term_type),
        MessageV::StartWatching { id } => enc_str(id),
        MessageV::TerminalOutput { data } => enc_blob(data),
        MessageV::Resize { size } => enc_size(size),
        MessageV::Sessions { sessions } => enc32(sessions.len() as u32) + enc_session_list(
            sessions,
        ),
        MessageV::Error { msg } => enc_str(msg),
        _ => Seq::empty(),
    }
}

/// A whole frame: the payload's length, then the payload.
pub open spec fn enc_frame(m: MessageV) -> Seq<u8> {
    enc32(enc_payload(m).len() as u32) + enc_payload(m)
}

// Which values the length fields can describe.

pub open spec fn str_fits(s: Seq<char>) -> bool {
    encode_utf8(s).len() <= MAX_FRAME
}

pub open spec fn auth_fits(a: AuthV) -> bool {
    match a {
        AuthV::Plain { username } => str_fits(username),
        AuthV::RecurseCenter { id } => match id {
            None => true,
            Some(t) => str_fits(t),
        },
    }
}

pub open spec fn session_fits(s: SessionV) -> bool {
    str_fits(s.id) && str_fits(s.username) && str_fits(s.term_type) && str_fits(s.title)
}

/// Every length field of the message fits in its frame.
pub open spec fn message_fits(m: MessageV) -> bool {
    match m {
        MessageV::Login { auth, term_type, .. } => auth_fits(auth) && str_fits(term_type),
        MessageV::StartWatching { id } => str_fits(id),
        MessageV::TerminalOutput { data } => data.len() <= MAX_FRAME,
        MessageV::Sessions { sessions } => sessions.len() <= MAX_FRAME && forall|i: int|
            0 <= i < sessions.len() ==> session_fits(#[trigger] sessions[i]),
        MessageV::Error { msg } => str_fits(msg),
        _ => true,
    }
}

/// The message can be written: its fields fit and so does the whole payload.
pub open spec fn writable(m: MessageV) -> bool {
    message_fits(m) && enc_payload(m).len() <= MAX_FRAME
}

// ---------------------------------------------------------------------------
// Reading: each decoder returns the value and the bytes after it.

pub open spec fn dec8(s: Seq<u8>) -> Option<(u8, Seq<u8>)> {
    if s.len() >= 1 {
        Some((s[0], s.skip(1)))
    } else {
        None
    }
}

pub open spec fn dec16(s: Seq<u8>) -> Option<(u16, Seq<u8>)> {
    if s.len() >= 2 {
        Some((be16(s[0], s[1]), s.skip(2)))
    } else {
        None
    }
}

pub open spec fn dec32(s: Seq<u8>) -> Option<(u32, Seq<u8>)> {
    if s.len() >= 4 {
        Some((be32(s[0], s[1], s[2], s[3]), s.skip(4)))
    } else {
        None
    }
}

pub open spec fn dec_blob(s: Seq<u8>) -> Option<(Seq<u8>, Seq<u8>)> {
    match dec32(s) {
        Some((n, r)) => if n <= r.len() {
            Some((r.take(n as int), r.skip(n as int)))
        } else {
            None
        },
        None => None,
    }
}

pub open spec fn dec_str(s: Seq<u8>) -> Option<(Seq<char>, Seq<u8>)> {
    match dec_blob(s) {
        Some((b, r)) => if valid_utf8(b) {
            Some((decode_utf8(b), r))
        } else {
            None
        },
        None => None,
    }
}

pub open spec fn dec_size(s: Seq<u8>) -> Option<(Size, Seq<u8>)> {
    match dec16(s) {
        Some((rows, r)) => match dec16(r) {
            Some((cols, r2)) => Some((Size { rows, cols }, r2)),
            None => None,
        },
        None => None,
    }
}

pub open spec fn dec_auth(s: Seq<u8>) -> Option<(AuthV, Seq<u8>)> {
    match dec8(s) {
        Some((t, r)) => if t == 0 {
            match dec_str(r) {
                Some((u, r2)) => Some((AuthV::Plain { username: u }, r2)),
                None => None,
            }
        } else if t == 1 {
            match dec8(r) {
                Some((o, r2)) => if o == 0 {
                    Some((AuthV::RecurseCenter { id: None }, r2))
                } else if o == 1 {
                    match dec_str(r2) {
                        Some((id, r3)) => Some((AuthV::RecurseCenter { id: Some(id) }, r3)),
                        None => None,
                    }
                } else {
                    None
                },
                None => None,
            }
        } else {
            None
        },
        None => None,
    }
}

#[verifier::opaque]
pub open spec fn dec_session(s: Seq<u8>) -> Option<(SessionV, Seq<u8>)> {
    match dec_str(s) {
        Some((id, r1)) => match dec_str(r1) {
            Some((username, r2)) => match dec_str(r2) {
                Some((term_type, r3)) => match dec_size(r3) {
                    Some((size, r4)) => match dec32(r4) {
                        Some((idle_time, r5)) => match dec_str(r5) {
                            Some((title, r6)) => match dec32(r6) {
                                Some((watchers, r7)) => Some(
                                    (
                                        SessionV {
                                            id,
                                            username,
                                            term_type,
                                            size,
                                            idle_time,
                                            title,
                                            watchers,
                                        },
                                        r7,
                                    ),
                                ),
                                None => None,
                            },
                            None => None,
                        },
                        None => None,
                    },
                    None => None,
                },
                None => None,
            },
            None => None,
        },
        None => None,
    }
}

/// `n` sessions one after another.
pub open spec fn dec_session_list(s: Seq<u8>, n: nat) -> Option<(Seq<SessionV>, Seq<u8>)>
    decreases n,
{
    if n == 0 {
        Some((Seq::empty(), s))
    } else {
        match dec_session(s) {
            Some((x, r)) => match dec_session_list(r, (n - 1) as nat) {
                Some((xs, r2)) => Some((seq![x] + xs, r2)),
                None => None,
            },
            None => None,
        }
    }
}

/// The message a payload holds, when it holds exactly one.
#[verifier::opaque]
pub open spec fn dec_payload(s: Seq<u8>) -> Option<MessageV> {
    match dec8(s) {
        Some((tag, r)) => if tag == 0 {
            match dec8(r) {
                Some((proto_version, r1)) => match dec_auth(r1) {
                    Some((auth, r2)) => match dec_size(r2) {
                        Some((size, r3)) => match dec_str(r3) {
                            Some((term_type, r4)) => if r4.len() == 0 {
                                Some(MessageV::Login { proto_version, auth, size, term_type })
                            } else {
                                None
                            },
                            None => None,
                        },
                        None => None,
                    },
                    None => None,
                },
                None => None,
            }
        } else if tag == 2 {
            match dec_str(r) {
                Some((id, r1)) => if r1.len() == 0 {
                    Some(MessageV::StartWatching { id })
                } else {
                    None
                },
                None => None,
            }
        } else if tag == 4 {
            match dec_blob(r) {
                Some((data, r1)) => if r1.len() == 0 {
                    Some(MessageV::TerminalOutput { data })
                } else {
                    None
                },
                None => None,
            }
        } else if tag == 5 {
            match dec_size(r) {
                Some((size, r1)) => if r1.len() == 0 {
                    Some(MessageV::Resize { size })
                } else {
                    None
                },
                None => None,
            }
        } else if tag == 7 {
            match dec32(r) {
                Some((n, r1)) => match dec_session_list(r1, n as nat) {
                    Some((sessions, r2)) => if r2.len() == 0 {
                        Some(MessageV::Sessions { sessions })
                    } else {
                        None
                    },
                    None => None,
                },
                None => None,
            }
        } else if tag == 9 {
            match dec_str(r) {
                Some((msg, r1)) => if r1.len() == 0 {
                    Some(MessageV::Error { msg })
                } else {
                    None
                },
                None => None,
            }
        } else if r.len() != 0 {
            None
        } else if tag == 1 {
            Some(MessageV::StartCasting)
        } else if tag == 3 {
            Some(MessageV::Heartbeat)
        } else if tag == 6 {
            Some(MessageV::ListSessions)
        } else if tag == 8 {
            Some(MessageV::Disconnected)
        } else {
            None
        },
        None => None,
    }
}

/// Why a frame could not be read.
#[derive(Clone, Copy, Debug, PartialEq, Eq, Structural)]
pub enum CodecError {
    /// The input ended cleanly, before any frame began.
    Eof,
    /// The input ended in the middle of a frame.
    UnexpectedEof,
    /// The frame's payload is larger than `MAX_FRAME`.
    Oversize,
    /// The payload's first byte names no message.
    InvalidTag,
    /// The payload does not hold exactly one message of its tag.
    Malformed,
}

pub open spec fn valid_tag(t: u8) -> bool {
    t <= 9
}

/// What reading one frame from the front of `s` gives: the message and the
/// bytes after the frame, or the reason it fails.
pub open spec fn read_spec(s: Seq<u8>) -> Result<(MessageV, Seq<u8>), CodecError> {
    if s.len() == 0 {
        Err(CodecError::Eof)
    } else if s.len() < 4 {
        Err(CodecError::UnexpectedEof)
    } else {
        let n = be32(s[0], s[1], s[2], s[3]);
        if n > MAX_FRAME {
            Err(CodecError::Oversize)
        } else if s.len() < 4 + n {
            Err(CodecError::UnexpectedEof)
        } else {
            let payload = s.subrange(4, 4 + n);
            if payload.len() == 0 || !valid_tag(payload[0]) {
                Err(CodecError::InvalidTag)
            } else {
                match dec_payload(payload) {
                    Some(m) => Ok((m, s.skip(4 + n))),
                    None => Err(CodecError::Malformed),
                }
            }
        }
    }
}

// ---------------------------------------------------------------------------
// Reading back what was written.

proof fn lemma_be16(x: u16)
    ensures
        be16(((x >> 8u16) & 0xffu16) as u8, (x & 0xffu16) as u8) == x,
{
    assert(((((((x >> 8u16) & 0xffu16) as u8) as u16) << 8u16) | (((x & 0xffu16) as u8) as u16))
        == x) by (bit_vector);
}

proof fn lemma_be32(x: u32)
    ensures
        be32(
            ((x >> 24u32) & 0xffu32) as u8,
            ((x >> 16u32) & 0xffu32) as u8,
            ((x >> 8u32) & 0xffu32) as u8,
            (x & 0xffu32) as u8,
        ) == x,
{
    assert((((((x >> 24u32) & 0xffu32) as u8) as u32) << 24u32) | (((((x >> 16u32) & 0xffu32)
        as u8) as u32) << 16u32) | (((((x >> 8u32) & 0xffu32) as u8) as u32) << 8u32) | (((x
        & 0xffu32) as u8) as u32) == x) by (bit_vector);
}

proof fn lemma_dec16(x: u16, rest: Seq<u8>)
    ensures
        dec16(enc16(x) + rest) == Some((x, rest)),
{
    lemma_be16(x);
    assert((enc16(x) + rest).skip(2) =~= rest);
}

proof fn lemma_dec32(x: u32, rest: Seq<u8>)
    ensures
        dec32(enc32(x) + rest) == Some((x, rest)),
{
    lemma_be32(x);
    assert((enc32(x) + rest).skip(4) =~= rest);
}

proof fn lemma_dec_blob(b: Seq<u8>, rest: Seq<u8>)
    requires
        b.len() <= MAX_FRAME,
    ensures
        dec_blob(enc_blob(b) + rest) == Some((b, rest)),
{
    assert(enc_blob(b) + rest =~= enc32(b.len() as u32) + (b + rest));
    lemma_dec32(b.len() as u32, b + rest);
    assert((b + rest).take(b.len() as int) =~= b);
    assert((b + rest).skip(b.len() as int) =~= rest);
}

proof fn lemma_dec_str(s: Seq<char>, rest: Seq<u8>)
    requires
        str_fits(s),
    ensures
        dec_str(enc_str(s) + rest) == Some((s, rest)),
{
    lemma_dec_blob(encode_utf8(s), rest);
}

proof fn lemma_dec_size(sz: Size, rest: Seq<u8>)
    ensures
        dec_size(enc_size(sz) + rest) == Some((sz, rest)),
{
    assert(enc_size(sz) + rest =~= enc16(sz.rows) + (enc16(sz.cols) + rest));
    lemma_dec16(sz.rows, enc16(sz.cols) + rest);
    lemma_dec16(sz.cols, rest);
}

proof fn lemma_dec_auth(a: AuthV, rest: Seq<u8>)
    requires
        auth_fits(a),
    ensures
        dec_auth(enc_auth(a) + rest) == Some((a, rest)),
{
    let e = enc_auth(a) + rest;
    match a {
        AuthV::Plain { username } => {
            assert(e.skip(1) =~= enc_str(username) + rest);
            lemma_dec_str(username, rest);
        },
        AuthV::RecurseCenter { id } => match id {
            None => {
                assert(e.skip(1).skip(1) =~= rest);
            },
            Some(t) => {
                assert(e.skip(1).skip(1) =~= enc_str(t) + rest);
                lemma_dec_str(t, rest);
            },
        },
    }
}

proof fn lemma_dec_session(x: SessionV, rest: Seq<u8>)
    requires
        session_fits(x),
    ensures
        dec_session(enc_session(x) + rest) == Some((x, rest)),
{
    reveal(dec_session);
    let r7 = rest;
    let r6 = enc32(x.watchers) + r7;
    let r5 = enc_str(x.title) + r6;
    let r4 = enc32(x.idle_time) + r5;
    let r3 = enc_size(x.size) + r4;
    let r2 = enc_str(x.term_type) + r3;
    let r1 = enc_str(x.username) + r2;
    assert(enc_session(x) + rest =~= enc_str(x.id) + r1);
    lemma_dec_str(x.id, r1);
    lemma_dec_str(x.username, r2);
    lemma_dec_str(x.term_type, r3);
    lemma_dec_size(x.size, r4);
    lemma_dec32(x.idle_time, r5);
    lemma_dec_str(x.title, r6);
    lemma_dec32(x.watchers, r7);
}

proof fn lemma_dec_session_list(l: Seq<SessionV>, rest: Seq<u8>)
    requires
        forall|i: int| 0 <= i < l.len() ==> session_fits(#[trigger] l[i]),
    ensures
        dec_session_list(enc_session_list(l) + rest, l.len()) == Some((l, rest)),
    decreases l.len(),
{
    if l.len() > 0 {
        let tail = l.skip(1);
        assert forall|i: int| 0 <= i < tail.len() implies session_fits(#[trigger] tail[i]) by {
            assert(tail[i] == l[i + 1]);
        }
        lemma_dec_session_list(tail, rest);
        assert(enc_session_list(l) + rest =~= enc_session(l[0]) + (enc_session_list(tail)
            + rest));
        assert(session_fits(l[0]));
        lemma_dec_session(l[0], enc_session_list(tail) + rest);
        assert(seq![l[0]] + tail =~= l);
    }
}

proof fn lemma_dec_payload(m: MessageV)
    requires
        message_fits(m),
    ensures
        dec_payload(enc_payload(m)) == Some(m),
{
    reveal(dec_payload);
    let e = enc_payload(m);
    let r = e.skip(1);
    let empty = Seq::<u8>::empty();
    match m {
        MessageV::Login { proto_version, auth, size, term_type } => {
            let r3 = enc_str(term_type) + empty;
            let r2 = enc_size(size) + r3;
            let r1 = enc_auth(auth) + r2;
            assert(r =~= seq![proto_version] + r1);
            assert((seq![proto_version] + r1).skip(1) =~= r1);
            lemma_dec_auth(auth, r2);
            lemma_dec_size(size, r3);
            lemma_dec_str(term_type, empty);
            assert(enc_str(term_type) + empty =~= enc_str(term_type));
        },
        MessageV::StartWatching { id } => {
            assert(r =~= enc_str(id) + empty);
            lemma_dec_str(id, empty);
        },
        MessageV::TerminalOutput { data } => {
            assert(r =~= enc_blob(data) + empty);
            lemma_dec_blob(data, empty);
        },
        MessageV::Resize { size } => {
            assert(r =~= enc_size(size) + empty);
            lemma_dec_size(size, empty);
        },
        MessageV::Sessions { sessions } => {
            assert(r =~= enc32(sessions.len() as u32) + (enc_session_list(sessions) + empty));
            lemma_dec32(sessions.len() as u32, enc_session_list(sessions) + empty);
            lemma_dec_session_list(sessions, empty);
        },
        MessageV::Error { msg } => {
            assert(r =~= enc_str(msg) + empty);
            lemma_dec_str(msg, empty);
        },
        _ => {
            assert(r =~= empty);
        },
    }
}

/// Reading a frame back from what writing a message produced, followed by
/// anything at all, gives that message and leaves exactly what followed.
pub proof fn law_round_trip(m: MessageV, rest: Seq<u8>)
    requires
        writable(m),
    ensures
        read_spec(enc_frame(m) + rest) == Ok::<(MessageV, Seq<u8>), CodecError>((m, rest)),
{
    let p = enc_payload(m);
    let s = enc_frame(m) + rest;
    lemma_dec32(p.len() as u32, p + rest);
    assert(s =~= enc32(p.len() as u32) + (p + rest));
    assert(s.subrange(4, 4 + p.len() as int) =~= p);
    assert(s.skip(4 + p.len() as int) =~= rest);
    lemma_dec_payload(m);
}

// ---------------------------------------------------------------------------
// Writing.

fn put_u16(out: &mut Vec<u8>, x: u16)
    ensures
        final(out)@ == old(out)@ + enc16(x),
{
    out.push(((x >> 8u16) & 0xffu16) as u8);
    out.push((x & 0xffu16) as u8);
    proof {
        assert(final(out)@ =~= old(out)@ + enc16(x));
    }
}

fn put_u32(out: &mut Vec<u8>, x: u32)
    ensures
        final(out)@ == old(out)@ + enc32(x),
{
    out.push(((x >> 24u32) & 0xffu32) as u8);
    out.push(((x >> 16u32) & 0xffu32) as u8);
    out.push(((x >> 8u32) & 0xffu32) as u8);
    out.push((x & 0xffu32) as u8);
    proof {
        assert(final(out)@ =~= old(out)@ + enc32(x));
    }
}

fn put_blob(out: &mut Vec<u8>, b: &[u8])
    requires
        b@.len() <= MAX_FRAME,
    ensures
        final(out)@ == old(out)@ + enc_blob(b@),
{
    put_u32(out, b.len() as u32);
    let ghost start = out@;
    let mut i: usize = 0;
    while i < b.len()
        invariant
            0 <= i <= b@.len(),
            out@ == start + b@.take(i as int),
        decreases b@.len() - i,
    {
        out.push(b[i]);
        i = i + 1;
        proof {
            assert(out@ =~= start + b@.take(i as int));
        }
    }
    proof {
        assert(b@.take(b@.len() as int) =~= b@);
    }
}

fn put_str(out: &mut Vec<u8>, s: &String)
    requires
        str_fits(s@),
    ensures
        final(out)@ == old(out)@ + enc_str(s@),
{
    put_blob(out, s.as_str().as_bytes());
}

fn put_size(out: &mut Vec<u8>, sz: Size)
    ensures
        final(out)@ == old(out)@ + enc_size(sz),
{
    put_u16(out, sz.rows);
    put_u16(out, sz.cols);
    proof {
        assert(final(out)@ =~= old(out)@ + enc_size(sz));
    }
}

fn put_auth(out: &mut Vec<u8>, a: &Auth)
    requires
        auth_fits(a@),
    ensures
        final(out)@ == old(out)@ + enc_auth(a@),
{
    match a {
        Auth::Plain { username } => {
            out.push(0u8);
            put_str(out, username);
        },
        Auth::RecurseCenter { id } => {
            out.push(1u8);
            match id {
                None => {
                    out.push(0u8);
                },
                Some(t) => {
                    out.push(1u8);
                    put_str(out, t);
                },
            }
        },
    }
    proof {
        assert(final(out)@ =~= old(out)@ + enc_auth(a@));
    }
}

fn put_session(out: &mut Vec<u8>, x: &Session)
    requires
        session_fits(x@),
    ensures
        final(out)@ == old(out)@ + enc_session(x@),
{
    put_str(out, &x.id);
    put_str(out, &x.username);
    put_str(out, &x.term_type);
    put_size(out, x.size);
    put_u32(out, x.idle_time);
    put_str(out, &x.title);
    put_u32(out, x.watchers);
    proof {
        assert(final(out)@ =~= old(out)@ + enc_session(x@));
    }
}

proof fn lemma_session_list_push(l: Seq<SessionV>, x: SessionV)
    ensures
        enc_session_list(l.push(x)) == enc_session_list(l) + enc_session(x),
    decreases l.len(),
{
    if l.len() == 0 {
        assert(l.push(x).skip(1) =~= Seq::<SessionV>::empty());
        assert(l.push(x)[0] == x);
        assert(enc_session_list(Seq::<SessionV>::empty()) == Seq::<u8>::empty());
        assert(enc_session_list(l) == Seq::<u8>::empty());
        assert(enc_session_list(l.push(x)) =~= enc_session(x));
    } else {
        lemma_session_list_push(l.skip(1), x);
        assert(l.push(x).skip(1) =~= l.skip(1).push(x));
        assert(enc_session_list(l.push(x)) =~= enc_session_list(l) + enc_session(x));
    }
}

fn put_session_list(out: &mut Vec<u8>, l: &Vec<Session>)
    requires
        forall|i: int| 0 <= i < l@.len() ==> session_fits(#[trigger] l@[i]@),
    ensures
        final(out)@ == old(out)@ + enc_session_list(sessions_view(l@)),
{
    let ghost start = out@;
    let mut i: usize = 0;
    while i < l.len()
        invariant
            0 <= i <= l@.len(),
            forall|k: int| 0 <= k < l@.len() ==> session_fits(#[trigger] l@[k]@),
            out@ == start + enc_session_list(sessions_view(l@).take(i as int)),
        decreases l@.len() - i,
    {
        put_session(out, &l[i]);
        proof {
            let v = sessions_view(l@);
            lemma_session_list_push(v.take(i as int), l@[i as int]@);
            assert(v.take(i as int).push(l@[i as int]@) =~= v.take(i + 1));
        }
        i = i + 1;
    }
    proof {
        assert(sessions_view(l@).take(l@.len() as int) =~= sessions_view(l@));
    }
}

/// The number of bytes in the UTF-8 form of `s`.
fn str_len(s: &String) -> (r: usize)
    ensures
        r == encode_utf8(s@).len(),
{
    s.as_str().as_bytes().len()
}

fn sessions_fit(sessions: &Vec<Session>) -> (r: bool)
    ensures
        r == (forall|k: int|
            0 <= k < sessions@.len() ==> session_fits(#[trigger] sessions_view(sessions@)[k])),
{
    let mut i: usize = 0;
    while i < sessions.len()
        invariant
            0 <= i <= sessions@.len(),
            forall|k: int| 0 <= k < i ==> session_fits(#[trigger] sessions_view(sessions@)[k]),
        decreases sessions@.len() - i,
    {
        let x = &sessions[i];
        if str_len(&x.id) > MAX_FRAME || str_len(&x.username) > MAX_FRAME || str_len(
            &x.term_type,
        ) > MAX_FRAME || str_len(&x.title) > MAX_FRAME {
            proof {
                assert(!session_fits(sessions_view(sessions@)[i as int]));
            }
            return false;
        }
        i = i + 1;
    }
    true
}

/// Whether every length field of `m` fits in a frame.
pub fn fits(m: &Message) -> (r: bool)
    ensures
        r == message_fits(m@),
{
    match m {
        Message::Login { auth, term_type, .. } => {
            let a = match auth {
                Auth::Plain { username } => str_len(&username) <= MAX_FRAME,
                Auth::RecurseCenter { id } => match id {
                    None => true,
                    Some(t) => str_len(&t) <= MAX_FRAME,
                },
            };
            a && str_len(&term_type) <= MAX_FRAME
        },
        Message::StartWatching { id } => str_len(&id) <= MAX_FRAME,
        Message::TerminalOutput { data } => data.len() <= MAX_FRAME,
        Message::Sessions { sessions } => sessions.len() <= MAX_FRAME && sessions_fit(sessions),
        Message::Error { msg } => str_len(&msg) <= MAX_FRAME,
        _ => true,
    }
}

/// Appends the payload of `m` to `out`.
#[verifier::rlimit(50)]
fn put_payload(out: &mut Vec<u8>, m: &Message)
    requires
        message_fits(m@),
    ensures
        final(out)@ == old(out)@ + enc_payload(m@),
{
    let ghost start = out@;
    match m {
        Message::Login { proto_version, auth, size, term_type } => {
            out.push(0u8);
            out.push(*proto_version);
            put_auth(out, auth);
            put_size(out, *size);
            put_str(out, term_type);
            proof {
                assert(out@ =~= start + enc_payload(m@));
            }
        },
        Message::StartCasting => {
            out.push(1u8);
            proof {
                assert(out@ =~= start + enc_payload(m@));
            }
        },
        Message::StartWatching { id } => {
            out.push(2u8);
            put_str(out, id);
            proof {
                assert(out@ =~= start + enc_payload(m@));
            }
        },
        Message::Heartbeat => {
            out.push(3u8);
            proof {
                assert(out@ =~= start + enc_payload(m@));
            }
        },
        Message::TerminalOutput { data } => {
            out.push(4u8);
            put_blob(out, data.as_slice());
            proof {
                assert(out@ =~= start + enc_payload(m@));
            }
        },
        Message::Resize { size } => {
            out.push(5u8);
            put_size(out, *size);
            proof {
                assert(out@ =~= start + enc_payload(m@));
            }
        },
        Message::ListSessions => {
            out.push(6u8);
            proof {
                assert(out@ =~= start + enc_payload(m@));
            }
        },
        Message::Sessions { sessions } => {
            out.push(7u8);
            put_u32(out, sessions.len() as u32);
            proof {
                assert forall|i: int| 0 <= i < sessions@.len() implies session_fits(
                    #[trigger] sessions@[i]@,
                ) by {
                    assert(sessions_view(sessions@)[i] == sessions@[i]@);
                }
            }
            put_session_list(out, sessions);
            proof {
                assert(out@ =~= start + enc_payload(m@));
            }
        },
        Message::Disconnected => {
            out.push(8u8);
            proof {
                assert(out@ =~= start + enc_payload(m@));
            }
        },
        Message::Error { msg } => {
            out.push(9u8);
            put_str(out, msg);
            proof {
                assert(out@ =~= start + enc_payload(m@));
            }
        },
    }
}

/// Encodes `m` as one frame, or fails with `Oversize` when it cannot be
/// described by the frame's length fields.
pub fn write(m: &Message) -> (r: Result<Vec<u8>, CodecError>)
    ensures
        writable(m@) ==> (r matches Ok(v) && v@ == enc_frame(m@)),
        !writable(m@) ==> r == Err::<Vec<u8>, CodecError>(CodecError::Oversize),
{
    if !fits(m) {
        return Err(CodecError::Oversize);
    }
    let mut payload: Vec<u8> = Vec::new();
    put_payload(&mut payload, m);
    proof {
        assert(payload@ =~= enc_payload(m@));
    }
    if payload.len() > MAX_FRAME {
        return Err(CodecError::Oversize);
    }
    let mut out: Vec<u8> = Vec::new();
    put_u32(&mut out, payload.len() as u32);
    put_blob_raw(&mut out, &payload);
    proof {
        assert(out@ =~= enc_frame(m@));
    }
    Ok(out)
}

/// Appends `b` to `out` as it is.
fn put_blob_raw(out: &mut Vec<u8>, b: &Vec<u8>)
    ensures
        final(out)@ == old(out)@ + b@,
{
    let ghost start = out@;
    let mut i: usize = 0;
    while i < b.len()
        invariant
            0 <= i <= b@.len(),
            out@ == start + b@.take(i as int),
        decreases b@.len() - i,
    {
        out.push(b[i]);
        i = i + 1;
        proof {
            assert(out@ =~= start + b@.take(i as int));
        }
    }
    proof {
        assert(b@.take(b@.len() as int) =~= b@);
    }
}

// ---------------------------------------------------------------------------
// Reading.

fn get_u8(buf: &[u8], pos: usize) -> (r: Option<(u8, usize)>)
    requires
        pos <= buf@.len(),
    ensures
        match dec8(buf@.skip(pos as int)) {
            Some((v, rest)) => r matches Some((x, p)) && x == v && p <= buf@.len() && buf@.skip(
                p as int,
            ) == rest,
            None => r is None,
        },
{
    if pos < buf.len() {
        proof {
            assert(buf@.skip(pos as int).skip(1) =~= buf@.skip(pos + 1));
        }
        Some((buf[pos], pos + 1))
    } else {
        None
    }
}

fn get_u16(buf: &[u8], pos: usize) -> (r: Option<(u16, usize)>)
    requires
        pos <= buf@.len(),
    ensures
        match dec16(buf@.skip(pos as int)) {
            Some((v, rest)) => r matches Some((x, p)) && x == v && p <= buf@.len() && buf@.skip(
                p as int,
            ) == rest,
            None => r is None,
        },
{
    if buf.len() - pos >= 2 {
        let x = ((buf[pos] as u16) << 8u16) | (buf[pos + 1] as u16);
        proof {
            assert(buf@.skip(pos as int).skip(2) =~= buf@.skip(pos + 2));
        }
        Some((x, pos + 2))
    } else {
        None
    }
}

fn get_u32(buf: &[u8], pos: usize) -> (r: Option<(u32, usize)>)
    requires
        pos <= buf@.len(),
    ensures
        match dec32(buf@.skip(pos as int)) {
            Some((v, rest)) => r matches Some((x, p)) && x == v && p <= buf@.len() && buf@.skip(
                p as int,
            ) == rest,
            None => r is None,
        },
{
    if buf.len() - pos >= 4 {
        let x = ((buf[pos] as u32) << 24u32) | ((buf[pos + 1] as u32) << 16u32) | ((buf[pos
            + 2] as u32) << 8u32) | (buf[pos + 3] as u32);
        proof {
            assert(buf@.skip(pos as int).skip(4) =~= buf@.skip(pos + 4));
        }
        Some((x, pos + 4))
    } else {
        None
    }
}

/// Copies `buf[start..end]` into a new vector.
fn copy_range(buf: &[u8], start: usize, end: usize) -> (r: Vec<u8>)
    requires
        start <= end <= buf@.len(),
    ensures
        r@ == buf@.subrange(start as int, end as int),
{
    let mut out: Vec<u8> = Vec::new();
    let mut i: usize = start;
    while i < end
        invariant
            start <= i <= end <= buf@.len(),
            out@ == buf@.subrange(start as int, i as int),
        decreases end - i,
    {
        out.push(buf[i]);
        i = i + 1;
        proof {
            assert(out@ =~= buf@.subrange(start as int, i as int));
        }
    }
    out
}

fn get_blob(buf: &[u8], pos: usize) -> (r: Option<(Vec<u8>, usize)>)
    requires
        pos <= buf@.len(),
    ensures
        match dec_blob(buf@.skip(pos as int)) {
            Some((v, rest)) => r matches Some((x, p)) && x@ == v && p <= buf@.len() && buf@.skip(
                p as int,
            ) == rest,
            None => r is None,
        },
{
    match get_u32(buf, pos) {
        None => None,
        Some((n, p)) => {
            if n as usize <= buf.len() - p {
                let end = p + n as usize;
                let data = copy_range(buf, p, end);
                proof {
                    let r = buf@.skip(p as int);
                    assert(r.take(n as int) =~= data@);
                    assert(r.skip(n as int) =~= buf@.skip(end as int));
                }
                Some((data, end))
            } else {
                None
            }
        },
    }
}

fn get_str(buf: &[u8], pos: usize) -> (r: Option<(String, usize)>)
    requires
        pos <= buf@.len(),
    ensures
        match dec_str(buf@.skip(pos as int)) {
            Some((v, rest)) => r matches Some((x, p)) && x@ == v && p <= buf@.len() && buf@.skip(
                p as int,
            ) == rest,
            None => r is None,
        },
{
    match get_blob(buf, pos) {
        None => None,
        Some((data, p)) => match string_from_utf8(data) {
            Some(s) => Some((s, p)),
            None => None,
        },
    }
}

fn get_size(buf: &[u8], pos: usize) -> (r: Option<(Size, usize)>)
    requires
        pos <= buf@.len(),
    ensures
        match dec_size(buf@.skip(pos as int)) {
            Some((v, rest)) => r matches Some((x, p)) && x == v && p <= buf@.len() && buf@.skip(
                p as int,
            ) == rest,
            None => r is None,
        },
{
    match get_u16(buf, pos) {
        None => None,
        Some((rows, p)) => match get_u16(buf, p) {
            None => None,
            Some((cols, p2)) => Some((Size { rows, cols }, p2)),
        },
    }
}

fn get_auth(buf: &[u8], pos: usize) -> (r: Option<(Auth, usize)>)
    requires
        pos <= buf@.len(),
    ensures
        match dec_auth(buf@.skip(pos as int)) {
            Some((v, rest)) => r matches Some((x, p)) && x@ == v && p <= buf@.len() && buf@.skip(
                p as int,
            ) == rest,
            None => r is None,
        },
{
    match get_u8(buf, pos) {
        None => None,
        Some((t, p)) => {
            if t == 0 {
                match get_str(buf, p) {
                    None => None,
                    Some((username, p2)) => Some((Auth::Plain { username }, p2)),
                }
            } else if t == 1 {
                match get_u8(buf, p) {
                    None => None,
                    Some((o, p2)) => {
                        if o == 0 {
                            Some((Auth::RecurseCenter { id: None }, p2))
                        } else if o == 1 {
                            match get_str(buf, p2) {
                                None => None,
                                Some((id, p3)) => Some((Auth::RecurseCenter { id: Some(id) }, p3)),
                            }
                        } else {
                            None
                        }
                    },
                }
            } else {
                None
            }
        },
    }
}

fn get_session(buf: &[u8], pos: usize) -> (r: Option<(Session, usize)>)
    requires
        pos <= buf@.len(),
    ensures
        match dec_session(buf@.skip(pos as int)) {
            Some((v, rest)) => r matches Some((x, p)) && x@ == v && p <= buf@.len() && buf@.skip(
                p as int,
            ) == rest,
            None => r is None,
        },
{
    proof {
        reveal(dec_session);
    }
    let (id, p1) = match get_str(buf, pos) {
        None => return None,
        Some(v) => v,
    };
    let (username, p2) = match get_str(buf, p1) {
        None => return None,
        Some(v) => v,
    };
    let (term_type, p3) = match get_str(buf, p2) {
        None => return None,
        Some(v) => v,
    };
    let (size, p4) = match get_size(buf, p3) {
        None => return None,
        Some(v) => v,
    };
    let (idle_time, p5) = match get_u32(buf, p4) {
        None => return None,
        Some(v) => v,
    };
    let (title, p6) = match get_str(buf, p5) {
        None => return None,
        Some(v) => v,
    };
    let (watchers, p7) = match get_u32(buf, p6) {
        None => return None,
        Some(v) => v,
    };
    Some((Session { id, username, term_type, size, idle_time, title, watchers }, p7))
}

/// `n` sessions one after another, starting at `pos`.
fn get_session_list(buf: &[u8], pos: usize, n: u32) -> (r: Option<(Vec<Session>, usize)>)
    requires
        pos <= buf@.len(),
    ensures
        match dec_session_list(buf@.skip(pos as int), n as nat) {
            Some((v, rest)) => r matches Some((x, p)) && sessions_view(x@) == v && p
                <= buf@.len() && buf@.skip(p as int) == rest,
            None => r is None,
        },
{
    let mut out: Vec<Session> = Vec::new();
    let mut p = pos;
    let mut i: u32 = 0;
    while i < n
        invariant
            0 <= i <= n,
            p <= buf@.len(),
            dec_session_list(buf@.skip(pos as int), n as nat) == match dec_session_list(
                buf@.skip(p as int),
                (n - i) as nat,
            ) {
                Some((xs, r)) => Some((sessions_view(out@) + xs, r)),
                None => None,
            },
        decreases n - i,
    {
        match get_session(buf, p) {
            None => {
                return None;
            },
            Some((x, p2)) => {
                proof {
                    let v = sessions_view(out@);
                    let w = sessions_view(out@.push(x));
                    assert(w =~= v + seq![x@]);
                    match dec_session_list(buf@.skip(p2 as int), (n - i - 1) as nat) {
                        Some((xs, r)) => {
                            assert(v + (seq![x@] + xs) =~= w + xs);
                        },
                        None => {},
                    }
                }
                out.push(x);
                p = p2;
                i = i + 1;
            },
        }
    }
    proof {
        assert(sessions_view(out@) + Seq::<SessionV>::empty() =~= sessions_view(out@));
    }
    Some((out, p))
}

/// The message that `payload` holds, when it holds exactly one.
#[verifier::rlimit(50)]
pub fn parse_payload(payload: &[u8]) -> (r: Option<Message>)
    ensures
        match dec_payload(payload@) {
            Some(v) => r matches Some(m) && m@ == v,
            None => r is None,
        },
{
    proof {
        reveal(dec_payload);
        assert(payload@.skip(0) =~= payload@);
    }
    let len = payload.len();
    let (tag, p) = match get_u8(payload, 0) {
        None => return None,
        Some(v) => v,
    };
    if tag == 0 {
        let (proto_version, p1) = match get_u8(payload, p) {
            None => return None,
            Some(v) => v,
        };
        let (auth, p2) = match get_auth(payload, p1) {
            None => return None,
            Some(v) => v,
        };
        let (size, p3) = match get_size(payload, p2) {
            None => return None,
            Some(v) => v,
        };
        let (term_type, p4) = match get_str(payload, p3) {
            None => return None,
            Some(v) => v,
        };
        if p4 == len {
            Some(Message::Login { proto_version, auth, size, term_type })
        } else {
            None
        }
    } else if tag == 2 {
        match get_str(payload, p) {
            Some((id, p1)) => if p1 == len {
                Some(Message::StartWatching { id })
            } else {
                None
            },
            None => None,
        }
    } else if tag == 4 {
        match get_blob(payload, p) {
            Some((data, p1)) => if p1 == len {
                Some(Message::TerminalOutput { data })
            } else {
                None
            },
            None => None,
        }
    } else if tag == 5 {
        match get_size(payload, p) {
            Some((size, p1)) => if p1 == len {
                Some(Message::Resize { size })
            } else {
                None
            },
            None => None,
        }
    } else if tag == 7 {
        match get_u32(payload, p) {
            Some((n, p1)) => match get_session_list(payload, p1, n) {
                Some((sessions, p2)) => if p2 == len {
                    Some(Message::Sessions { sessions })
                } else {
                    None
                },
                None => None,
            },
            None => None,
        }
    } else if tag == 9 {
        match get_str(payload, p) {
            Some((msg, p1)) => if p1 == len {
                Some(Message::Error { msg })
            } else {
                None
            },
            None => None,
        }
    } else if p != len {
        None
    } else if tag == 1 {
        Some(Message::StartCasting)
    } else if tag == 3 {
        Some(Message::Heartbeat)
    } else if tag == 6 {
        Some(Message::ListSessions)
    } else if tag == 8 {
        Some(Message::Disconnected)
    } else {
        None
    }
}

/// Reads one frame from the front of `buf`: the message and the number of
/// bytes the frame took, or why no frame could be read.
pub fn read(buf: &[u8]) -> (r: Result<(Message, usize), CodecError>)
    ensures
        match read_spec(buf@) {
            Ok((v, rest)) => r matches Ok((m, n)) && m@ == v && n <= buf@.len() && buf@.skip(
                n as int,
            ) == rest,
            Err(e) => r == Err::<(Message, usize), CodecError>(e),
        },
{
    if buf.len() == 0 {
        return Err(CodecError::Eof);
    }
    proof {
        assert(buf@.skip(0) =~= buf@);
    }
    let n = match get_u32(buf, 0) {
        None => return Err(CodecError::UnexpectedEof),
        Some((n, _)) => n,
    };
    if n as usize > MAX_FRAME {
        return Err(CodecError::Oversize);
    }
    if buf.len() - 4 < n as usize {
        return Err(CodecError::UnexpectedEof);
    }
    let end = 4 + n as usize;
    let payload = vstd::slice::slice_subrange(buf, 4, end);
    if payload.len() == 0 || payload[0] > 9 {
        return Err(CodecError::InvalidTag);
    }
    match parse_payload(payload) {
        Some(m) => Ok((m, end)),
        None => Err(CodecError::Malformed),
    }
}

} // verus!
