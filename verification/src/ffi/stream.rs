//! Decoding of a stream of instructions.

use vstd::prelude::*;
use crate::text;
use crate::text::push_decimal;
use crate::types::Instr;

verus! {

/// The character of a hexadecimal digit.
pub open spec fn hex_char(d: int) -> char {
    if d < 10 {
        (48 + d) as char
    } else {
        (87 + d) as char
    }
}

/// A byte as two hexadecimal digits.
pub open spec fn hex_byte(b: u8) -> Seq<char> {
    seq![hex_char(b as int / 16), hex_char(b as int % 16)]
}

/// A hexadecimal digit.
pub fn hex_digit(d: u8) -> (r: &'static str)
    requires
        d < 16,
    ensures
        r@ == seq![hex_char(d as int)],
{
    proof {
        reveal_strlit("0");
        reveal_strlit("1");
        reveal_strlit("2");
        reveal_strlit("3");
        reveal_strlit("4");
        reveal_strlit("5");
        reveal_strlit("6");
        reveal_strlit("7");
        reveal_strlit("8");
        reveal_strlit("9");
        reveal_strlit("a");
        reveal_strlit("b");
        reveal_strlit("c");
        reveal_strlit("d");
        reveal_strlit("e");
        reveal_strlit("f");
    }
    match d {
        0 => "0",
        1 => "1",
        2 => "2",
        3 => "3",
        4 => "4",
        5 => "5",
        6 => "6",
        7 => "7",
        8 => "8",
        9 => "9",
        10 => "a",
        11 => "b",
        12 => "c",
        13 => "d",
        14 => "e",
        _ => "f",
    }
}

/// Appends a byte as two hexadecimal digits.
pub fn push_hex_byte(s: &mut String, b: u8)
    ensures
        final(s)@ == old(s)@ + hex_byte(b),
{
    s.append(hex_digit(b / 16));
    s.append(hex_digit(b % 16));
    assert(s@ =~= old(s)@ + hex_byte(b));
}

/// The message that decoding failed at a place.
pub open spec fn failure_text(offset: usize, byte: u8) -> Seq<char> {
    "Failed to deserialize instruction at offset "@ + text::decimal(offset as nat) + " (byte: 0x"@
        + hex_byte(byte) + ")"@
}

/// A stream of instructions that is being decoded.
#[derive(Debug)]
pub struct StreamDecoder {
    /// Bytes decoded so far.
    pub offset: usize,
    /// Instructions decoded so far.
    pub instrs: Vec<Instr>,
}

impl StreamDecoder {
    /// A decoder at the start of a stream.
    pub fn new() -> (r: Self)
        ensures
            r.offset == 0,
            r.instrs@.len() == 0,
    {
        StreamDecoder { offset: 0, instrs: Vec::new() }
    }

    /// Whether bytes are left to decode.
    pub fn wants_more(&self, data: &[u8]) -> (r: bool)
        ensures
            r == (self.offset < data@.len()),
    {
        self.offset < data.len()
    }

    /// Takes what was decoded at the current place: the next instruction with the number of
    /// bytes it took, or nothing where the bytes are no instruction.
    pub fn accept(&mut self, data: &[u8], decoded: Option<(Instr, usize)>) -> (r: Result<(), String>)
        requires
            old(self).offset < data@.len(),
            decoded matches Some(d) ==> 0 < d.1 && old(self).offset + d.1 <= usize::MAX,
        ensures
            match decoded {
                Some(d) => r is Ok && final(self).offset == old(self).offset + d.1 && final(
                    self).instrs@ == old(self).instrs@.push(d.0),
                None => r matches Err(e) && e@ == failure_text(
                    old(self).offset,
                    data@[old(self).offset as int],
                ) && *final(self) == *old(self),
            },
    {
        match decoded {
            Some((instr, consumed)) => {
                self.instrs.push(instr);
                self.offset = self.offset + consumed;
                Ok(())
            },
            None => {
                let mut s = String::from_str("Failed to deserialize instruction at offset ");
                push_decimal(&mut s, self.offset as u64);
                s.append(" (byte: 0x");
                push_hex_byte(&mut s, data[self.offset]);
                s.append(")");
                Err(s)
            },
        }
    }
}

} // verus!
