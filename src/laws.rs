//! What holds of every escaped text: it is printable, and the usual decoding
//! of the escape grammar gives the bytes back.
use vstd::prelude::*;

use crate::render::EscapeDefaultFmt;
use crate::table::{escape_all, escape_of, hex_digit, is_printable, letter_of};

verus! {

/// The byte that a short escape `\l` stands for.
pub open spec fn unletter(l: char) -> Option<u8> {
    if l == '\\' {
        Some(0x5c)
    } else if l == '\'' {
        Some(0x27)
    } else if l == '"' {
        Some(0x22)
    } else if l == 't' {
        Some(0x09)
    } else if l == 'r' {
        Some(0x0d)
    } else if l == 'n' {
        Some(0x0a)
    } else {
        None
    }
}

/// The value of a hexadecimal digit of either case.
pub open spec fn hex_value(c: char) -> Option<u8> {
    let v = c as u32;
    if 0x30 <= v <= 0x39 {
        Some((v - 0x30) as u8)
    } else if 0x61 <= v <= 0x66 {
        Some((v - 0x61 + 10) as u8)
    } else if 0x41 <= v <= 0x46 {
        Some((v - 0x41 + 10) as u8)
    } else {
        None
    }
}

/// `b` in front of a decoded sequence; nothing if decoding failed.
pub open spec fn prepend(b: u8, rest: Option<Seq<u8>>) -> Option<Seq<u8>> {
    match rest {
        Some(r) => Some(seq![b] + r),
        None => None,
    }
}

/// The usual decoding of escaped text: a printable character other than a
/// backslash stands for itself, `\\ \' \" \t \r \n` for their bytes, and
/// `\x` with two hexadecimal digits for the byte of that value. Any other
/// text does not decode.
pub open spec fn unescape(s: Seq<char>) -> Option<Seq<u8>>
    decreases s.len(),
{
    if s.len() == 0 {
        Some(Seq::empty())
    } else if s[0] != '\\' {
        if is_printable(s[0]) {
            prepend((s[0] as u32) as u8, unescape(s.skip(1)))
        } else {
            None
        }
    } else if s.len() >= 2 && unletter(s[1]) is Some {
        prepend(unletter(s[1])->0, unescape(s.skip(2)))
    } else if s.len() >= 4 && s[1] == 'x' && hex_value(s[2]) is Some && hex_value(s[3]) is Some {
        prepend((hex_value(s[2])->0 * 16 + hex_value(s[3])->0) as u8, unescape(s.skip(4)))
    } else {
        None
    }
}

proof fn lemma_hex_digit(n: u8)
    requires
        n < 16,
    ensures
        is_printable(hex_digit(n)),
        hex_value(hex_digit(n)) == Some(n),
{
}

proof fn lemma_escape_of_printable(b: u8)
    ensures
        forall|i: int| 0 <= i < escape_of(b).len() ==> is_printable(#[trigger] escape_of(b)[i]),
{
    if letter_of(b) is None && !(0x20 <= b <= 0x7e) {
        lemma_hex_digit(b / 16);
        lemma_hex_digit(b % 16);
    }
}

/// Escaped text holds printable ASCII characters only: no control character
/// and nothing outside ASCII.
pub proof fn lemma_escaped_printable(bs: Seq<u8>)
    ensures
        forall|i: int|
            0 <= i < escape_all(bs).len() ==> is_printable(#[trigger] escape_all(bs)[i]),
    decreases bs.len(),
{
    if bs.len() > 0 {
        lemma_escaped_printable(bs.drop_last());
        lemma_escape_of_printable(bs.last());
        let front = escape_all(bs.drop_last());
        let back = escape_of(bs.last());
        assert forall|i: int| 0 <= i < escape_all(bs).len() implies is_printable(
            #[trigger] escape_all(bs)[i],
        ) by {
            if i < front.len() {
                assert(escape_all(bs)[i] == front[i]);
            } else {
                assert(escape_all(bs)[i] == back[i - front.len()]);
            }
        }
    }
}

proof fn lemma_unescape_one(b: u8, t: Seq<char>)
    ensures
        unescape(escape_of(b) + t) == prepend(b, unescape(t)),
{
    let e = escape_of(b);
    let s = e + t;
    assert(s.skip(e.len() as int) =~= t);
    match letter_of(b) {
        Some(l) => {
            assert(s[0] == '\\' && s[1] == l);
        },
        None => {
            if 0x20 <= b <= 0x7e {
                assert(s[0] == b as char);
            } else {
                lemma_hex_digit(b / 16);
                lemma_hex_digit(b % 16);
                assert(s[0] == '\\' && s[1] == 'x');
                assert(s[2] == hex_digit(b / 16) && s[3] == hex_digit(b % 16));
                assert((b / 16) * 16 + b % 16 == b);
            }
        },
    }
}

/// Decoding the escaped text of any byte sequence gives that sequence back.
pub proof fn lemma_round_trip(bs: Seq<u8>)
    ensures
        unescape(escape_all(bs)) == Some(bs),
    decreases bs.len(),
{
    if bs.len() > 0 {
        let rest = bs.skip(1);
        lemma_round_trip(rest);
        assert(bs =~= seq![bs[0]] + rest);
        crate::table::lemma_escape_all_append(seq![bs[0]], rest);
        crate::table::lemma_escape_all_push(Seq::empty(), bs[0]);
        assert(Seq::<u8>::empty().push(bs[0]) =~= seq![bs[0]]);
        assert(Seq::<char>::empty() + escape_of(bs[0]) =~= escape_of(bs[0]));
        lemma_unescape_one(bs[0], escape_all(rest));
    }
}

/// Two renderers over the same bytes render the same text.
pub proof fn lemma_render_deterministic(a: EscapeDefaultFmt, b: EscapeDefaultFmt)
    requires
        a@ == b@,
    ensures
        escape_all(a@) == escape_all(b@),
{
}

} // verus!
