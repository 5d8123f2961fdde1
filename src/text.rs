use vstd::prelude::*;
use vstd::utf8::*;

verus! {

broadcast use {encode_utf8_valid_utf8, encode_utf8_decode_utf8, is_ascii_chars_encode_utf8};

/// Relies on `String::from_utf8`: it succeeds exactly when the bytes are valid
/// UTF-8, and the string then holds the characters they encode.
#[verifier::external_body]
pub(crate) fn string_from_utf8(v: Vec<u8>) -> (r: Option<String>)
    ensures
        r is Some <==> valid_utf8(v@),
        r matches Some(s) ==> s@ == decode_utf8(v@),
{
    String::from_utf8(v).ok()
}

pub open spec fn digit(n: nat) -> char {
    ((n % 10) + 48) as char
}

/// `n` in decimal, without leading zeros.
pub open spec fn decimal(n: nat) -> Seq<char>
    decreases n,
{
    if n < 10 {
        seq![digit(n)]
    } else {
        decimal(n / 10).push(digit(n % 10))
    }
}

/// `n` in decimal, with a leading zero below ten.
pub open spec fn decimal2(n: nat) -> Seq<char> {
    if n < 10 {
        seq!['0', digit(n)]
    } else {
        decimal(n)
    }
}

pub open spec fn ascii_bytes(s: Seq<char>) -> Seq<u8> {
    s.map_values(|c: char| c as u8)
}


proof fn lemma_decimal_ascii(n: nat)
    ensures
        is_ascii_chars(decimal(n)),
    decreases n,
{
    if n >= 10 {
        lemma_decimal_ascii(n / 10);
    }
}

/// Appends the ASCII bytes of `n` in decimal.
pub(crate) fn push_decimal(out: &mut Vec<u8>, n: u32)
    ensures
        final(out)@ == old(out)@ + ascii_bytes(decimal(n as nat)),
    decreases n,
{
    if n >= 10 {
        push_decimal(out, n / 10);
    }
    let d: u8 = (n % 10) as u8 + 48;
    out.push(d);
    proof {
        assert(out@ =~= old(out)@ + ascii_bytes(decimal(n as nat)));
    }
}

/// Appends the ASCII bytes of `n` in decimal, at least two digits.
pub(crate) fn push_decimal2(out: &mut Vec<u8>, n: u32)
    ensures
        final(out)@ == old(out)@ + ascii_bytes(decimal2(n as nat)),
{
    if n < 10 {
        out.push(48u8);
    }
    push_decimal(out, n);
    proof {
        assert(final(out)@ =~= old(out)@ + ascii_bytes(decimal2(n as nat)));
    }
}

/// The string whose characters are the ASCII text `s`, from its bytes.
pub(crate) fn ascii_string(b: Vec<u8>, Ghost(s): Ghost<Seq<char>>) -> (r: String)
    requires
        is_ascii_chars(s),
        b@ == ascii_bytes(s),
    ensures
        r@ == s,
{
    proof {
        assert(encode_utf8(s) =~= b@);
    }
    match string_from_utf8(b) {
        Some(r) => r,
        None => String::new(),
    }
}

pub proof fn lemma_decimal_is_ascii(n: nat)
    ensures
        is_ascii_chars(decimal(n)),
        is_ascii_chars(decimal2(n)),
{
    lemma_decimal_ascii(n);
}

pub proof fn lemma_ascii_concat(a: Seq<char>, b: Seq<char>)
    ensures
        ascii_bytes(a + b) == ascii_bytes(a) + ascii_bytes(b),
        is_ascii_chars(a) && is_ascii_chars(b) ==> is_ascii_chars(a + b),
{
    assert(ascii_bytes(a + b) =~= ascii_bytes(a) + ascii_bytes(b));
    if is_ascii_chars(a) && is_ascii_chars(b) {
        assert forall|i: int| 0 <= i < (a + b).len() implies '\0' <= #[trigger] (a + b)[i] <= '\u{7f}' by {
            if i < a.len() {
                assert((a + b)[i] == a[i]);
            } else {
                assert((a + b)[i] == b[i - a.len()]);
            }
        }
    }
}

/// `n` in decimal, at least two digits if `padded`, followed by `c`.
pub open spec fn unit_text(n: nat, c: char, padded: bool) -> Seq<char> {
    (if padded {
        decimal2(n)
    } else {
        decimal(n)
    }) + seq![c]
}

/// Appends the ASCII bytes of `n` in decimal, at least two digits if
/// `padded`, then `unit`.
pub(crate) fn push_unit(out: &mut Vec<u8>, n: u32, unit: u8, Ghost(c): Ghost<char>, padded: bool)
    requires
        c as u32 == unit as u32,
        unit < 128,
    ensures
        final(out)@ == old(out)@ + ascii_bytes(unit_text(n as nat, c, padded)),
        is_ascii_chars(unit_text(n as nat, c, padded)),
{
    let ghost num = if padded {
        decimal2(n as nat)
    } else {
        decimal(n as nat)
    };
    if padded {
        push_decimal2(out, n);
    } else {
        push_decimal(out, n);
    }
    out.push(unit);
    proof {
        lemma_ascii_concat(num, seq![c]);
        lemma_decimal_is_ascii(n as nat);
        assert(ascii_bytes(seq![c]) =~= seq![unit]);
        assert(final(out)@ =~= old(out)@ + ascii_bytes(unit_text(n as nat, c, padded)));
    }
}

} // verus!
