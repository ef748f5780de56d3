//! The terminal redraw protocol, produced as byte strings: erase the
//! current line and rewrite prompt plus buffer content for the input line,
//! write a finished output line, or step the cursor sideways.
use vstd::prelude::*;
use vstd::string::StrSliceExecFns;
use vstd::utf8::encode_utf8;

use crate::buffer::CursorBuffer;
use crate::text::{dec_bytes, spec_dec_bytes};

verus! {

/// The erase-current-line escape followed by a carriage return.
pub open spec fn spec_erase_seq() -> Seq<u8> {
    seq![27u8, 91u8, 50u8, 75u8, 13u8]
}

/// The line terminator written in raw mode.
pub open spec fn spec_newline_seq() -> Seq<u8> {
    seq![13u8, 10u8]
}

/// The escape that moves the cursor `n` columns left.
pub open spec fn spec_cursor_left(n: int) -> Seq<u8> {
    seq![27u8, 91u8] + spec_dec_bytes(n) + seq![68u8]
}

/// The escape that moves the cursor `n` columns right.
pub open spec fn spec_cursor_right(n: int) -> Seq<u8> {
    seq![27u8, 91u8] + spec_dec_bytes(n) + seq![67u8]
}

/// The input-line redraw: erase the current line, return to column 0,
/// write the prompt and the buffer, then step the cursor back to its
/// offset when it is not at the end.
pub open spec fn spec_input_redraw(prompt: Seq<char>, content: Seq<char>, pos: int) -> Seq<u8> {
    spec_erase_seq() + encode_utf8(prompt) + encode_utf8(content) + if pos < content.len() {
        spec_cursor_left(content.len() - pos)
    } else {
        Seq::empty()
    }
}

/// A finished output line: prompt, text, and nothing else. The caller adds
/// the terminator.
pub open spec fn spec_output_line(prompt: Seq<char>, text: Seq<char>) -> Seq<u8> {
    encode_utf8(prompt) + encode_utf8(text)
}

/// Writes the line terminator.
pub fn newline_bytes() -> (r: Vec<u8>)
    ensures
        r@ == spec_newline_seq(),
{
    let mut v: Vec<u8> = Vec::new();
    v.push(13);
    v.push(10);
    proof {
        assert(v@ =~= spec_newline_seq());
    }
    v
}

/// Writes the cursor-left escape.
pub fn cursor_left_bytes(n: u64) -> (r: Vec<u8>)
    ensures
        r@ == spec_cursor_left(n as int),
{
    let mut v: Vec<u8> = Vec::new();
    v.push(27);
    v.push(91);
    let mut d = dec_bytes(n);
    v.append(&mut d);
    v.push(68);
    proof {
        assert(v@ =~= spec_cursor_left(n as int));
    }
    v
}

/// Writes the cursor-right escape.
pub fn cursor_right_bytes(n: u64) -> (r: Vec<u8>)
    ensures
        r@ == spec_cursor_right(n as int),
{
    let mut v: Vec<u8> = Vec::new();
    v.push(27);
    v.push(91);
    let mut d = dec_bytes(n);
    v.append(&mut d);
    v.push(67);
    proof {
        assert(v@ =~= spec_cursor_right(n as int));
    }
    v
}

/// Redraws the input line for the given prompt and buffer.
pub fn input_redraw(prompt: &str, buf: &CursorBuffer) -> (r: Vec<u8>)
    requires
        buf.wf(),
    ensures
        r@ == spec_input_redraw(prompt@, buf@, buf.spec_pos() as int),
{
    let mut out: Vec<u8> = Vec::new();
    out.push(27);
    out.push(91);
    out.push(50);
    out.push(75);
    out.push(13);
    proof {
        assert(out@ =~= spec_erase_seq());
    }
    let mut pb = prompt.as_bytes_vec();
    out.append(&mut pb);
    let mut cb = buf.as_bytes();
    out.append(&mut cb);
    let len = buf.len();
    let pos = buf.get_pos();
    if pos < len {
        let mut lb = cursor_left_bytes((len - pos) as u64);
        out.append(&mut lb);
        proof {
            assert(out@ =~= spec_input_redraw(prompt@, buf@, buf.spec_pos() as int));
        }
    } else {
        proof {
            assert(out@ =~= spec_input_redraw(prompt@, buf@, buf.spec_pos() as int));
        }
    }
    out
}

/// Writes a finished output line for the given prompt and text.
pub fn output_line(prompt: &str, text: &str) -> (r: Vec<u8>)
    ensures
        r@ == spec_output_line(prompt@, text@),
{
    let mut out = prompt.as_bytes_vec();
    let mut tb = text.as_bytes_vec();
    out.append(&mut tb);
    out
}

} // verus!
