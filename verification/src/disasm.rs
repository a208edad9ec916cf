//! Listing of machine code in hexadecimal.

use crate::ffi::stream;
use crate::ffi::stream::push_hex_byte;
use crate::text;
use vstd::prelude::*;

verus! {

/// `n` in hexadecimal with at least `width` digits.
pub open spec fn hex(n: nat, width: nat) -> Seq<char>
    decreases n, width,
{
    if n < 16 && width <= 1 {
        seq![stream::hex_char(n as int)]
    } else {
        hex(n / 16, (if width > 0 {
            width - 1
        } else {
            0
        }) as nat).push(stream::hex_char((n % 16) as int))
    }
}

/// The bytes of a line, each as two digits and a blank.
pub open spec fn bytes_text(b: Seq<u8>) -> Seq<char>
    decreases b.len(),
{
    if b.len() == 0 {
        Seq::empty()
    } else {
        bytes_text(b.drop_last()) + stream::hex_byte(b.last()) + " "@
    }
}

/// The line of the 16 bytes, or what is left of them, from place `16 * i`.
pub open spec fn line_text(code: Seq<u8>, i: int) -> Seq<char> {
    let end = if 16 * i + 16 < code.len() {
        16 * i + 16
    } else {
        code.len() as int
    };
    "  "@ + hex((16 * i) as nat, 4) + ": "@ + bytes_text(code.subrange(16 * i, end))
}

fn push_hex(s: &mut String, n: usize, width: usize)
    ensures
        final(s)@ == old(s)@ + hex(n as nat, width as nat),
    decreases n, width,
{
    if n < 16 && width <= 1 {
        push_hex_digit(s, n as u8);
    } else {
        let rest: usize = if width > 0 {
            width - 1
        } else {
            0
        };
        push_hex(s, n / 16, rest);
        push_hex_digit(s, (n % 16) as u8);
        assert(s@ =~= old(s)@ + hex(n as nat, width as nat));
    }
}

fn push_hex_digit(s: &mut String, d: u8)
    requires
        d < 16,
    ensures
        final(s)@ == old(s)@.push(stream::hex_char(d as int)),
        final(s)@ == old(s)@ + seq![stream::hex_char(d as int)],
{
    s.append(stream::hex_digit(d));
    assert(s@ =~= old(s)@.push(stream::hex_char(d as int)));
}

/// The listing of machine code: one line for every 16 bytes, with the place of the first.
pub fn dump_lines(code: &[u8]) -> (r: Vec<String>)
    ensures
        r@.len() == (code@.len() + 15) / 16,
        forall|i: int| 0 <= i < r@.len() ==> (#[trigger] r@[i])@ == line_text(code@, i),
{
    let mut r: Vec<String> = Vec::new();
    let mut at: usize = 0;
    while at < code.len()
        invariant
            at <= code@.len(),
            at == 16 * r@.len() || at == code@.len(),
            r@.len() == (at + 15) / 16,
            forall|i: int| 0 <= i < r@.len() ==> (#[trigger] r@[i])@ == line_text(code@, i),
        decreases code@.len() - at,
    {
        let end: usize = if code.len() - at > 16 {
            at + 16
        } else {
            code.len()
        };
        let mut line = String::from_str("  ");
        push_hex(&mut line, at, 4);
        line.append(": ");
        let ghost head = line@;
        let mut k: usize = at;
        while k < end
            invariant
                at <= k <= end <= code@.len(),
                line@ == head + bytes_text(code@.subrange(at as int, k as int)),
            decreases end - k,
        {
            push_hex_byte(&mut line, code[k]);
            line.append(" ");
            k += 1;
            proof {
                let part = code@.subrange(at as int, k as int);
                assert(part.drop_last() =~= code@.subrange(at as int, k - 1));
                assert(line@ =~= head + bytes_text(part));
            }
        }
        assert(line@ =~= line_text(code@, r@.len() as int));
        r.push(line);
        at = end;
    }
    r
}

/// The line above a listing.
pub fn dump_title(len: usize) -> (r: String)
    ensures
        r@ == "Generated "@ + text::decimal(len as nat) + " bytes of machine code:"@,
{
    let mut r = String::from_str("Generated ");
    text::push_decimal(&mut r, len as u64);
    r.append(" bytes of machine code:");
    r
}

/// The value of a hexadecimal digit.
pub open spec fn hex_value(c: char) -> int {
    if '0' <= c <= '9' {
        c as int - '0' as int
    } else {
        c as int - 'a' as int + 10
    }
}

/// The number that a row of hexadecimal digits stands for.
pub open spec fn read_hex(s: Seq<char>) -> int
    decreases s.len(),
{
    if s.len() == 0 {
        0
    } else {
        16 * read_hex(s.drop_last()) + hex_value(s.last())
    }
}

/// A place in hexadecimal has at least the digits that are asked for, and they give it back.
pub proof fn places_are_read_back(n: nat, width: nat)
    ensures
        hex(n, width).len() >= width,
        hex(n, width).len() > 0,
        read_hex(hex(n, width)) == n,
    decreases n, width,
{
    reveal_with_fuel(read_hex, 2);
    if n < 16 && width <= 1 {
        assert(seq![stream::hex_char(n as int)].drop_last() =~= Seq::<char>::empty());
    } else {
        let rest = (if width > 0 {
            width - 1
        } else {
            0
        }) as nat;
        places_are_read_back(n / 16, rest);
        let head = hex(n / 16, rest);
        let d = stream::hex_char((n % 16) as int);
        assert(head.push(d).drop_last() =~= head);
        assert(hex(n, width) == head.push(d));
    }
}

/// The bytes of a line are listed in their order, three characters for each: its two digits, which
/// give it back, and a blank.
pub proof fn bytes_are_listed_in_order(b: Seq<u8>, i: int)
    requires
        0 <= i < b.len(),
    ensures
        bytes_text(b).len() == 3 * b.len(),
        16 * hex_value(bytes_text(b)[3 * i]) + hex_value(bytes_text(b)[3 * i + 1]) == b[i],
        bytes_text(b)[3 * i + 2] == ' ',
    decreases b.len(),
{
    reveal_strlit(" ");
    let head = bytes_text(b.drop_last());
    lemma_bytes_length(b.drop_last());
    if i < b.len() - 1 {
        bytes_are_listed_in_order(b.drop_last(), i);
        assert(b.drop_last()[i] == b[i]);
    } else {
        let x = b[i] as int / 16;
        let y = b[i] as int % 16;
        assert(16 * x + y == b[i] && 0 <= x < 16 && 0 <= y < 16);
    }
}

proof fn lemma_bytes_length(b: Seq<u8>)
    ensures
        bytes_text(b).len() == 3 * b.len(),
    decreases b.len(),
{
    reveal_strlit(" ");
    if b.len() > 0 {
        lemma_bytes_length(b.drop_last());
    }
}

/// A line begins with the place of its first byte, which is sixteen times the number of the line,
/// and lists that byte and those behind it, up to sixteen.
pub proof fn lines_list_sixteen_bytes(code: Seq<u8>, i: int)
    requires
        0 <= i,
        16 * i < code.len(),
    ensures
        16 * (i + 1) <= code.len() ==> line_text(code, i) == "  "@ + hex((16 * i) as nat, 4) + ": "@
            + bytes_text(code.subrange(16 * i, 16 * i + 16)),
        16 * (i + 1) > code.len() ==> line_text(code, i) == "  "@ + hex((16 * i) as nat, 4) + ": "@
            + bytes_text(code.subrange(16 * i, code.len() as int)),
{
}

} // verus!
