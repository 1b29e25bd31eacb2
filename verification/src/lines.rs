//! Lines and columns of byte positions in a text.

use vstd::prelude::*;
use vstd::utf8::{encode_utf8, is_char_boundary};

verus! {

/// How many of the first `n` bytes end a line.
pub open spec fn newlines(bytes: Seq<u8>, n: nat) -> nat
    decreases n,
{
    if n == 0 || n > bytes.len() {
        0
    } else {
        newlines(bytes, (n - 1) as nat) + if bytes[n - 1] == 10u8 {
            1nat
        } else {
            0nat
        }
    }
}

/// How many lines the first `n` bytes hold: those that a line break ends, and an unfinished one
/// behind the last line break, where it holds anything.
pub open spec fn line_count(bytes: Seq<u8>, n: nat) -> nat {
    newlines(bytes, n) + if 0 < n <= bytes.len() && bytes[n - 1] != 10u8 {
        1nat
    } else {
        0nat
    }
}

/// Where the line that holds position `n` starts: behind the last line break among the first
/// `n` bytes.
pub open spec fn line_start(bytes: Seq<u8>, n: nat) -> nat
    decreases n,
{
    if n == 0 || n > bytes.len() {
        0
    } else if bytes[n - 1] == 10u8 {
        n
    } else {
        line_start(bytes, (n - 1) as nat)
    }
}

/// The number of lines in the first `n` bytes of a text, and the column of position `n`; nothing
/// where the position is outside of the text or inside a character.
pub open spec fn line_and_column(text: Seq<char>, n: nat) -> Option<(nat, nat)> {
    let bytes = encode_utf8(text);
    if n <= bytes.len() && is_char_boundary(bytes, n as int) {
        Some((line_count(bytes, n), (n - line_start(bytes, n)) as nat))
    } else {
        None
    }
}

/// The number of lines before a byte position of a text, and the column of the position.
pub fn position(text: &str, n: usize) -> (r: Option<(usize, usize)>)
    ensures
        match line_and_column(text@, n as nat) {
            Some((line, column)) => r is Some && r->Some_0.0 == line && r->Some_0.1 == column,
            None => r is None,
        },
{
    let bytes = text.as_bytes();
    if n > bytes.len() || !text.is_char_boundary(n) {
        return None;
    }
    let mut line: usize = 0;
    let mut start: usize = 0;
    let mut i: usize = 0;
    while i < n
        invariant
            n <= bytes@.len(),
            i <= n,
            line == newlines(bytes@, i as nat),
            line <= i,
            line == i ==> i == 0 || bytes@[i - 1] == 10u8,
            start == line_start(bytes@, i as nat),
            start <= i,
        decreases n - i,
    {
        if bytes[i] == 10u8 {
            line = line + 1;
            start = i + 1;
        }
        i = i + 1;
    }
    if n > 0 && bytes[n - 1] != 10u8 {
        line = line + 1;
    }
    Some((line, n - start))
}

} // verus!
