//! The escaping table: what each byte value becomes.
use vstd::prelude::*;

verus! {

/// A character in the printable ASCII range, space (0x20) to tilde (0x7E).
pub open spec fn is_printable(c: char) -> bool {
    0x20 <= c as u32 <= 0x7e
}

/// The letter that follows the backslash for the bytes with a short escape.
pub open spec fn letter_of(b: u8) -> Option<char> {
    if b == 0x5c {
        Some('\\')
    } else if b == 0x27 {
        Some('\'')
    } else if b == 0x22 {
        Some('"')
    } else if b == 0x09 {
        Some('t')
    } else if b == 0x0d {
        Some('r')
    } else if b == 0x0a {
        Some('n')
    } else {
        None
    }
}

/// The lowercase hexadecimal digit for a value below 16.
pub open spec fn hex_digit(n: u8) -> char
    recommends
        n < 16,
{
    if n < 10 {
        (n + 0x30) as u8 as char
    } else {
        (n - 10 + 0x61) as u8 as char
    }
}

/// The characters that one byte escapes to.
pub open spec fn escape_of(b: u8) -> Seq<char> {
    match letter_of(b) {
        Some(l) => seq!['\\', l],
        None => if 0x20 <= b <= 0x7e {
            seq![b as char]
        } else {
            seq!['\\', 'x', hex_digit(b / 16), hex_digit(b % 16)]
        },
    }
}

/// The escaped text of a byte sequence: the escapes of its bytes, in order.
pub open spec fn escape_all(bs: Seq<u8>) -> Seq<char>
    decreases bs.len(),
{
    if bs.len() == 0 {
        Seq::empty()
    } else {
        escape_all(bs.drop_last()) + escape_of(bs.last())
    }
}

/// Escaping one more byte appends that byte's escape.
pub proof fn lemma_escape_all_push(s: Seq<u8>, b: u8)
    ensures
        escape_all(s.push(b)) == escape_all(s) + escape_of(b),
{
    assert(s.push(b).drop_last() =~= s);
}

/// Escaping distributes over concatenation.
pub proof fn lemma_escape_all_append(a: Seq<u8>, b: Seq<u8>)
    ensures
        escape_all(a + b) == escape_all(a) + escape_all(b),
    decreases b.len(),
{
    if b.len() == 0 {
        assert(a + b =~= a);
        assert(escape_all(a) + escape_all(b) =~= escape_all(a));
    } else {
        lemma_escape_all_append(a, b.drop_last());
        assert((a + b).drop_last() =~= a + b.drop_last());
        assert((a + b).last() == b.last());
        assert(escape_all(a) + escape_all(b.drop_last()) + escape_of(b.last()) =~= escape_all(a)
            + (escape_all(b.drop_last()) + escape_of(b.last())));
    }
}

/// The escaped text of `s` starts with the escapes of its first `i` bytes,
/// followed by the escape of byte `i`.
pub proof fn lemma_escape_all_prefix(s: Seq<u8>, i: int, j: int)
    requires
        0 <= i < s.len(),
        0 <= j <= escape_of(s[i]).len(),
    ensures
        escape_all(s.take(i)).len() + escape_of(s[i]).len() <= escape_all(s).len(),
        escape_all(s).take(escape_all(s.take(i)).len() + j) == escape_all(s.take(i)) + escape_of(
            s[i],
        ).take(j),
{
    let head = s.take(i);
    let tail = s.skip(i + 1);
    assert(s =~= head.push(s[i]) + tail);
    lemma_escape_all_append(head.push(s[i]), tail);
    lemma_escape_all_push(head, s[i]);
    assert(escape_all(s).take(escape_all(head).len() + j) =~= escape_all(head) + escape_of(
        s[i],
    ).take(j));
}

/// The letter of the short escape of `b`, if it has one.
pub fn escape_letter(b: u8) -> (r: Option<char>)
    ensures
        r == letter_of(b),
{
    if b == 0x5c {
        Some('\\')
    } else if b == 0x27 {
        Some('\'')
    } else if b == 0x22 {
        Some('"')
    } else if b == 0x09 {
        Some('t')
    } else if b == 0x0d {
        Some('r')
    } else if b == 0x0a {
        Some('n')
    } else {
        None
    }
}

/// The lowercase hexadecimal digit for `n`.
pub fn hex_digit_char(n: u8) -> (c: char)
    requires
        n < 16,
    ensures
        c == hex_digit(n),
{
    if n < 10 {
        (n + 0x30) as char
    } else {
        (n - 10 + 0x61) as char
    }
}

/// How many characters `b` escapes to: 1, 2 or 4.
pub fn escaped_len(b: u8) -> (n: usize)
    ensures
        n == escape_of(b).len(),
{
    if escape_letter(b).is_some() {
        2
    } else if 0x20 <= b && b <= 0x7e {
        1
    } else {
        4
    }
}

/// The `i`-th character of the escape of `b`.
pub fn escaped_char(b: u8, i: usize) -> (c: char)
    requires
        i < escape_of(b).len(),
    ensures
        c == escape_of(b)[i as int],
{
    match escape_letter(b) {
        Some(l) => if i == 0 {
            '\\'
        } else {
            l
        },
        None => if 0x20 <= b && b <= 0x7e {
            b as char
        } else if i == 0 {
            '\\'
        } else if i == 1 {
            'x'
        } else if i == 2 {
            hex_digit_char(b / 16)
        } else {
            hex_digit_char(b % 16)
        },
    }
}

} // verus!
