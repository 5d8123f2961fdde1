use vstd::prelude::*;
use vstd::utf8::is_ascii_chars;
use crate::text::{ascii_bytes, ascii_string, lemma_ascii_concat, push_unit, unit_text};

verus! {

/// A duration in seconds as days, hours, minutes and seconds, leaving out
/// the leading units that are zero and writing every later unit with two
/// digits: `5s`, `1m05s`, `2h03m04s`, `1d00h00m05s`.
pub open spec fn padded_time_text(dur: nat) -> Seq<char> {
    let secs = dur % 60;
    let m = dur / 60;
    let mins = m % 60;
    let h = m / 60;
    let hours = h % 24;
    let days = h / 24;
    if m == 0 {
        unit_text(secs, 's', false)
    } else if h == 0 {
        unit_text(mins, 'm', false) + unit_text(secs, 's', true)
    } else if days == 0 {
        unit_text(hours, 'h', false) + unit_text(mins, 'm', true) + unit_text(secs, 's', true)
    } else {
        unit_text(days, 'd', false) + unit_text(hours, 'h', true) + unit_text(mins, 'm', true)
            + unit_text(secs, 's', true)
    }
}

/// How long a session has been idle, as shown in the web session list.
pub fn format_time(dur: u32) -> (r: String)
    ensures
        r@ == padded_time_text(dur as nat),
{
    let secs = dur % 60;
    let m = dur / 60;
    let mins = m % 60;
    let h = m / 60;
    let hours = h % 24;
    let days = h / 24;
    let mut out: Vec<u8> = Vec::new();
    let ghost ds = unit_text(days as nat, 'd', false);
    let ghost hs = unit_text(hours as nat, 'h', days > 0);
    let ghost ms = unit_text(mins as nat, 'm', h > 0);
    let ghost ss = unit_text(secs as nat, 's', m > 0);
    if days > 0 {
        push_unit(&mut out, days, 100u8, Ghost('d'), false);
    }
    if h > 0 {
        push_unit(&mut out, hours, 104u8, Ghost('h'), days > 0);
    }
    if m > 0 {
        push_unit(&mut out, mins, 109u8, Ghost('m'), h > 0);
    }
    push_unit(&mut out, secs, 115u8, Ghost('s'), m > 0);
    let ghost text = padded_time_text(dur as nat);
    proof {
        let e = Seq::<char>::empty();
        let a = if days > 0 { ds } else { e };
        let b = if h > 0 { hs } else { e };
        let c = if m > 0 { ms } else { e };
        assert(ascii_bytes(e) =~= Seq::<u8>::empty());
        assert(out@ =~= ascii_bytes(a) + ascii_bytes(b) + ascii_bytes(c) + ascii_bytes(ss));
        lemma_ascii_concat(a, b);
        lemma_ascii_concat(a + b, c);
        lemma_ascii_concat(a + b + c, ss);
        assert(is_ascii_chars(e));
        assert(text =~= a + b + c + ss);
    }
    ascii_string(out, Ghost(text))
}

} // verus!
