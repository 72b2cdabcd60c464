//! UTF-8 helpers for the tokenizer: the width of a codepoint from its
//! leading byte, and byte-level decoding of a codepoint from a slice.
//!
//! Decoding follows the usual accumulate-six-bits-per-continuation-byte
//! scheme and does not itself validate continuation bytes; the string
//! scanner only needs widths to step over multi-byte characters.

use vstd::prelude::*;

verus! {

/// How many bytes a UTF-8 encoded codepoint occupies, judged from its
/// leading byte; 0 for a byte that cannot begin a codepoint.
pub open spec fn spec_utf8_char_width(x: u8) -> u8 {
    if x < 0x80 {
        1
    } else if x < 0xC2 {
        0
    } else if x < 0xE0 {
        2
    } else if x < 0xF0 {
        3
    } else if x < 0xF5 {
        4
    } else {
        0
    }
}

/// The initial accumulator for a leading byte: its low `7 - width` bits.
pub open spec fn spec_utf8_first_byte(byte: u8, width: u32) -> u32 {
    (byte & (0x7Fu8 >> width)) as u32
}

/// The accumulator extended with the low six bits of a continuation byte.
pub open spec fn spec_utf8_acc_cont_byte(ch: u32, byte: u8) -> u32 {
    (ch << 6u32) | ((byte & 0x3Fu8) as u32)
}

pub open spec fn spec_utf8_is_cont_byte(byte: u8) -> bool {
    byte & 0xC0u8 == 0x80u8
}

/// The value decoded from a multi-byte sequence: leading byte `x`
/// (`x >= 0x80`) followed by its continuation bytes.
pub open spec fn spec_multibyte_code_point(x: u8, bytes: Seq<u8>) -> u32
    recommends
        bytes.len() >= 3,
{
    let init = spec_utf8_first_byte(x, 2);
    let y = bytes[0];
    if x >= 0xE0 {
        let z = bytes[1];
        let y_z = spec_utf8_acc_cont_byte((y & 0x3Fu8) as u32, z);
        if x >= 0xF0 {
            let w = bytes[2];
            ((init & 7) << 18u32) | spec_utf8_acc_cont_byte(y_z, w)
        } else {
            (init << 12u32) | y_z
        }
    } else {
        spec_utf8_acc_cont_byte(init, y)
    }
}

/// How many bytes `next_code_point` reads, judged from the first byte.
pub open spec fn spec_code_point_bytes_read(x: u8) -> int {
    if x < 0x80 {
        1
    } else if x < 0xE0 {
        2
    } else if x < 0xF0 {
        3
    } else {
        4
    }
}

/// The first codepoint of a byte sequence, by the same scheme.
pub open spec fn spec_next_code_point(bytes: Seq<u8>) -> u32
    recommends
        bytes.len() >= 1,
{
    if bytes[0] < 0x80 {
        bytes[0] as u32
    } else {
        spec_multibyte_code_point(bytes[0], bytes.subrange(1, bytes.len() as int))
    }
}

pub fn utf8_first_byte(byte: u8, width: u32) -> (r: u32)
    requires
        width < 8,
    ensures
        r == spec_utf8_first_byte(byte, width),
{
    (byte & (0x7Fu8 >> width)) as u32
}

pub fn utf8_acc_cont_byte(ch: u32, byte: u8) -> (r: u32)
    ensures
        r == spec_utf8_acc_cont_byte(ch, byte),
{
    (ch << 6u32) | ((byte & 0x3Fu8) as u32)
}

pub fn utf8_is_cont_byte(byte: u8) -> (r: bool)
    ensures
        r == spec_utf8_is_cont_byte(byte),
{
    (byte & 0xC0u8) == 0x80u8
}

pub fn unwrap_or_0(opt: Option<u8>) -> (r: u8)
    ensures
        r == match opt {
            Some(byte) => byte,
            None => 0u8,
        },
{
    match opt {
        Some(byte) => byte,
        None => 0,
    }
}

pub fn utf8_char_width(x: u8) -> (r: u8)
    ensures
        r == spec_utf8_char_width(x),
{
    if x < 0x80 {
        1
    } else if x < 0xC2 {
        0
    } else if x < 0xE0 {
        2
    } else if x < 0xF0 {
        3
    } else if x < 0xF5 {
        4
    } else {
        0
    }
}

/// Decodes a multi-byte codepoint whose leading byte `x` has already been
/// read; `bytes` holds the bytes after it.
pub fn definitely_next_codepoint(x: u8, bytes: &[u8]) -> (r: u32)
    requires
        x >= 0x80,
        bytes@.len() >= spec_code_point_bytes_read(x) - 1,
    ensures
        r == spec_multibyte_code_point(x, bytes@),
{
    let init = utf8_first_byte(x, 2);
    let y = bytes[0];
    let mut ch = utf8_acc_cont_byte(init, y);
    if x >= 0xE0 {
        let z = bytes[1];
        let y_z = utf8_acc_cont_byte((y & 0x3Fu8) as u32, z);
        ch = (init << 12u32) | y_z;
        if x >= 0xF0 {
            let w = bytes[2];
            ch = ((init & 7) << 18u32) | utf8_acc_cont_byte(y_z, w);
        }
    }
    ch
}

/// The UTF-8 encoding of a character: one to four bytes, by the usual
/// leading-byte-plus-six-bit-continuation scheme.
pub open spec fn spec_char_utf8(c: char) -> Seq<u8> {
    let u = c as u32;
    if u < 0x80 {
        seq![u as u8]
    } else if u < 0x800 {
        seq![(0xC0u32 | (u >> 6u32)) as u8, (0x80u32 | (u & 0x3Fu32)) as u8]
    } else if u < 0x10000 {
        seq![
            (0xE0u32 | (u >> 12u32)) as u8,
            (0x80u32 | ((u >> 6u32) & 0x3Fu32)) as u8,
            (0x80u32 | (u & 0x3Fu32)) as u8,
        ]
    } else {
        seq![
            (0xF0u32 | (u >> 18u32)) as u8,
            (0x80u32 | ((u >> 12u32) & 0x3Fu32)) as u8,
            (0x80u32 | ((u >> 6u32) & 0x3Fu32)) as u8,
            (0x80u32 | (u & 0x3Fu32)) as u8,
        ]
    }
}

/// Appends the UTF-8 encoding of `c` to `out`.
pub fn push_char_utf8(out: &mut Vec<u8>, c: char)
    ensures
        final(out)@ == old(out)@ + spec_char_utf8(c),
{
    let u = c as u32;
    if u < 0x80 {
        out.push(u as u8);
    } else if u < 0x800 {
        out.push((0xC0u32 | (u >> 6u32)) as u8);
        out.push((0x80u32 | (u & 0x3Fu32)) as u8);
    } else if u < 0x10000 {
        out.push((0xE0u32 | (u >> 12u32)) as u8);
        out.push((0x80u32 | ((u >> 6u32) & 0x3Fu32)) as u8);
        out.push((0x80u32 | (u & 0x3Fu32)) as u8);
    } else {
        out.push((0xF0u32 | (u >> 18u32)) as u8);
        out.push((0x80u32 | ((u >> 12u32) & 0x3Fu32)) as u8);
        out.push((0x80u32 | ((u >> 6u32) & 0x3Fu32)) as u8);
        out.push((0x80u32 | (u & 0x3Fu32)) as u8);
    }
    proof {
        assert(out@ =~= old(out)@ + spec_char_utf8(c));
    }
}

/// Reads the first codepoint out of a non-empty byte slice, which must hold
/// all the bytes the leading byte announces.
pub fn next_code_point(bytes: &[u8]) -> (r: Option<u32>)
    requires
        bytes@.len() >= 1,
        bytes@.len() >= spec_code_point_bytes_read(bytes@[0]),
    ensures
        r == Some(spec_next_code_point(bytes@)),
{
    let x = bytes[0];
    if x < 128 {
        return Some(x as u32);
    }
    let rest = vstd::slice::slice_subrange(bytes, 1, bytes.len());
    Some(definitely_next_codepoint(x, rest))
}

/// The last codepoint of a byte sequence, decoded backwards: continuation
/// bytes accumulate from the end until a leading byte is found, with
/// missing bytes read as 0.
pub open spec fn spec_last_code_point(bytes: Seq<u8>) -> u32
    recommends
        bytes.len() >= 1,
{
    let w = bytes.last();
    if w < 128 {
        w as u32
    } else {
        let z = if bytes.len() >= 2 {
            bytes[bytes.len() - 2]
        } else {
            0
        };
        let ch2 = spec_utf8_first_byte(z, 2);
        if spec_utf8_is_cont_byte(z) {
            let y = if bytes.len() >= 3 {
                bytes[bytes.len() - 3]
            } else {
                0
            };
            let ch3 = spec_utf8_first_byte(y, 3);
            if spec_utf8_is_cont_byte(y) {
                let x = if bytes.len() >= 4 {
                    bytes[bytes.len() - 4]
                } else {
                    0
                };
                let ch4 = spec_utf8_acc_cont_byte(spec_utf8_first_byte(x, 4), y);
                spec_utf8_acc_cont_byte(spec_utf8_acc_cont_byte(ch4, z), w)
            } else {
                spec_utf8_acc_cont_byte(spec_utf8_acc_cont_byte(ch3, z), w)
            }
        } else {
            spec_utf8_acc_cont_byte(ch2, w)
        }
    }
}

/// Reads the last codepoint out of a non-empty byte slice, decoding
/// backwards from the end.
pub fn next_code_point_reverse(bytes: &[u8]) -> (r: Option<u32>)
    requires
        bytes@.len() >= 1,
    ensures
        r == Some(spec_last_code_point(bytes@)),
{
    let len = bytes.len();
    let w = bytes[len - 1];
    if w < 128 {
        return Some(w as u32);
    }
    let z = if len >= 2 {
        bytes[len - 2]
    } else {
        0
    };
    let mut ch = utf8_first_byte(z, 2);
    if utf8_is_cont_byte(z) {
        let y = if len >= 3 {
            bytes[len - 3]
        } else {
            0
        };
        ch = utf8_first_byte(y, 3);
        if utf8_is_cont_byte(y) {
            let x = if len >= 4 {
                bytes[len - 4]
            } else {
                0
            };
            ch = utf8_first_byte(x, 4);
            ch = utf8_acc_cont_byte(ch, y);
        }
        ch = utf8_acc_cont_byte(ch, z);
    }
    ch = utf8_acc_cont_byte(ch, w);
    Some(ch)
}

} // verus!
