//! The texts of open documents, and how edits change them.

use vstd::prelude::*;
use vstd::string::StringExecFns;
use vstd::utf8::{
    encode_utf8, encode_utf8_valid_utf8, is_ascii_chars_encode_utf8, is_char_boundary,
    is_char_boundary_iff_is_leading_byte, length_of_first_scalar, pop_first_scalar, valid_utf8,
};

use crate::definitions::Range;

verus! {

/// A change of a document: `text` takes the place of a range, or of everything. Places in a line
/// count bytes.
#[derive(Debug, PartialEq)]
pub struct ContentChange {
    pub range: Option<Range>,
    pub text: String,
}

/// The place of the first line break from `i` on.
pub open spec fn line_break(bytes: Seq<u8>, i: nat) -> Option<nat>
    decreases (if i < bytes.len() { bytes.len() - i } else { 0 }),
{
    if i >= bytes.len() {
        None
    } else if bytes[i as int] == 10u8 {
        Some(i)
    } else {
        line_break(bytes, i + 1)
    }
}

/// A line that a line break ended, without the carriage return before the line break.
pub open spec fn without_return(line: Seq<u8>) -> Seq<u8> {
    if line.len() > 0 && line.last() == 13u8 {
        line.drop_last()
    } else {
        line
    }
}

/// `done` and the lines of a text. A line break at the end does not begin another line.
pub open spec fn lines_from(bytes: Seq<u8>, done: Seq<Seq<u8>>) -> Seq<Seq<u8>>
    decreases bytes.len(),
    via lines_shrink
{
    match line_break(bytes, 0) {
        Some(p) => lines_from(
            bytes.subrange(p as int + 1, bytes.len() as int),
            done.push(without_return(bytes.subrange(0, p as int))),
        ),
        None => if bytes.len() == 0 {
            done
        } else {
            done.push(bytes)
        },
    }
}

#[via_fn]
proof fn lines_shrink(bytes: Seq<u8>, done: Seq<Seq<u8>>) {
    lemma_line_break(bytes, 0);
}

proof fn lemma_line_break(bytes: Seq<u8>, i: nat)
    ensures
        match line_break(bytes, i) {
            Some(p) => i <= p < bytes.len() && bytes[p as int] == 10u8,
            None => true,
        },
    decreases (if i < bytes.len() { bytes.len() - i } else { 0 }),
{
    if i < bytes.len() && bytes[i as int] != 10u8 {
        lemma_line_break(bytes, i + 1);
    }
}

/// The lines of a text.
pub open spec fn text_lines(bytes: Seq<u8>) -> Seq<Seq<u8>> {
    lines_from(bytes, Seq::empty())
}

pub open spec fn encoded(parts: Seq<&str>) -> Seq<Seq<u8>> {
    parts.map_values(|s: &str| encode_utf8(s@))
}

/// Behind a line break, and before it, a character ends.
proof fn lemma_break_is_boundary(bytes: Seq<u8>, p: int)
    requires
        valid_utf8(bytes),
        0 <= p < bytes.len(),
        bytes[p] <= 0x7f,
    ensures
        is_char_boundary(bytes, p),
        is_char_boundary(bytes, p + 1),
    decreases bytes.len(),
{
    is_char_boundary_iff_is_leading_byte(bytes, p);
    reveal_with_fuel(is_char_boundary, 3);
    let n = length_of_first_scalar(bytes);
    if p > 0 {
        // not inside the first character, whose further bytes are not single ones
        assert(p >= n);
        let rest = pop_first_scalar(bytes);
        assert(rest[p - n] == bytes[p]);
        lemma_break_is_boundary(rest, p - n);
    }
}

/// The lines of a text, without line breaks.
pub fn lines<'a>(text: &'a str) -> (r: Vec<&'a str>)
    ensures
        encoded(r@) == text_lines(encode_utf8(text@)),
{
    let mut found: Vec<&'a str> = Vec::new();
    let mut rest: &'a str = text;
    let ghost goal = text_lines(encode_utf8(text@));
    assert(encoded(found@) =~= Seq::empty());
    loop
        invariant
            goal == text_lines(encode_utf8(text@)),
            goal == lines_from(encode_utf8(rest@), encoded(found@)),
        decreases encode_utf8(rest@).len(),
    {
        let bytes = rest.as_bytes();
        let ghost content = encode_utf8(rest@);
        let n: usize = bytes.len();
        let mut p: usize = 0;
        while p < n && bytes[p] != 10u8
            invariant
                p <= n,
                n == bytes@.len(),
                bytes@ == content,
                line_break(content, 0) == line_break(content, p as nat),
            decreases n - p,
        {
            p = p + 1;
        }
        let ghost before = encoded(found@);
        if p >= n {
            if n > 0 {
                found.push(rest);
                assert(encoded(found@) =~= before.push(content));
            }
            return found;
        }
        proof {
            encode_utf8_valid_utf8(rest@);
            lemma_break_is_boundary(content, p as int);
        }
        let (ended, next) = rest.split_at(p + 1);
        proof {
            let whole = content.subrange(0, p as int + 1);
            assert(encode_utf8(ended@) == whole);
            encode_utf8_valid_utf8(ended@);
            lemma_break_is_boundary(whole, p as int);
        }
        let (line, _) = ended.split_at(p);
        assert(encode_utf8(line@) =~= content.subrange(0, p as int));
        let stripped: &'a str = if p > 0 && bytes[p - 1] == 13u8 {
            proof {
                encode_utf8_valid_utf8(line@);
                lemma_break_is_boundary(encode_utf8(line@), p as int - 1);
            }
            let (kept, _) = line.split_at(p - 1);
            assert(encode_utf8(kept@) =~= without_return(content.subrange(0, p as int)));
            kept
        } else {
            line
        };
        found.push(stripped);
        assert(encoded(found@) =~= before.push(without_return(content.subrange(0, p as int))));
        assert(encode_utf8(next@) =~= content.subrange(p as int + 1, content.len() as int));
        rest = next;
    }
}

/// The encoding of two texts in a row.
proof fn lemma_encode_joined(a: Seq<char>, b: Seq<char>)
    ensures
        encode_utf8(a + b) == encode_utf8(a) + encode_utf8(b),
    decreases a.len(),
{
    if a.len() == 0 {
        assert(a + b =~= b);
        assert(encode_utf8(a) + encode_utf8(b) =~= encode_utf8(b));
    } else {
        lemma_encode_joined(a.drop_first(), b);
        assert((a + b).drop_first() =~= a.drop_first() + b);
        assert((a + b)[0] == a[0]);
        assert(encode_utf8(a + b) =~= encode_utf8(a) + encode_utf8(b));
    }
}

/// What becomes of the line with number `i`: lines outside of the range stay; the text stands behind
/// what comes before the range in its first line, and before what comes behind it in its last.
/// Nothing where the range begins or ends outside of a line or inside a character.
pub open spec fn edited_line(line: Seq<u8>, i: nat, range: Range, text: Seq<u8>) -> Option<Seq<u8>> {
    let start = range.start.character as int;
    let end = range.end.character as int;
    if i < range.start.line || i > range.end.line {
        Some(line + seq![10u8])
    } else {
        let first = if i == range.start.line {
            if is_char_boundary(line, start) {
                Some(line.subrange(0, start) + text)
            } else {
                None
            }
        } else {
            Some(Seq::empty())
        };
        let last = if i == range.end.line {
            if is_char_boundary(line, end) {
                Some(line.subrange(end, line.len() as int) + seq![10u8])
            } else {
                None
            }
        } else {
            Some(Seq::empty())
        };
        match (first, last) {
            (Some(f), Some(l)) => Some(f + l),
            _ => None,
        }
    }
}

/// What becomes of the first `n` lines.
pub open spec fn edited_lines(lines: Seq<Seq<u8>>, n: nat, range: Range, text: Seq<u8>) -> Option<
    Seq<u8>,
>
    decreases n,
{
    if n == 0 || n > lines.len() {
        Some(Seq::empty())
    } else {
        match (
            edited_lines(lines, (n - 1) as nat, range, text),
            edited_line(lines[n - 1], (n - 1) as nat, range, text),
        ) {
            (Some(before), Some(line)) => Some(before + line),
            _ => None,
        }
    }
}

/// The text after a change. What is added behind the last line is added to the text as it is.
pub open spec fn edited(bytes: Seq<u8>, range: Option<Range>, text: Seq<u8>) -> Option<Seq<u8>> {
    match range {
        None => Some(text),
        Some(r) => {
            let lines = text_lines(bytes);
            if r.start.line == lines.len() {
                Some(bytes + text)
            } else {
                edited_lines(lines, lines.len(), r, text)
            }
        },
    }
}

fn add_text(content: &mut String, more: &str)
    ensures
        encode_utf8(final(content)@) == encode_utf8(old(content)@) + encode_utf8(more@),
{
    proof {
        lemma_encode_joined(content@, more@);
    }
    content.append(more);
}

fn add_line_break(content: &mut String)
    ensures
        encode_utf8(final(content)@) == encode_utf8(old(content)@) + seq![10u8],
{
    proof {
        reveal_strlit("\n");
        assert("\n"@ =~= seq!['\n']);
        is_ascii_chars_encode_utf8("\n"@);
        assert(encode_utf8("\n"@) =~= seq![10u8]);
    }
    add_text(content, "\n");
}

fn edit_line(content: &mut String, line: &str, i: usize, range: &Range, text: &str) -> (r: bool)
    ensures
        match edited_line(encode_utf8(line@), i as nat, *range, encode_utf8(text@)) {
            Some(after) => r && encode_utf8(final(content)@) == encode_utf8(old(content)@) + after,
            None => !r,
        },
{
    broadcast use encode_utf8_valid_utf8;

    let ghost before = encode_utf8(content@);
    let ghost bytes = encode_utf8(line@);
    let start_line: usize = range.start.line as usize;
    let end_line: usize = range.end.line as usize;
    let start_col: usize = range.start.character as usize;
    let end_col: usize = range.end.character as usize;
    if i < start_line || i > end_line {
        add_text(content, line);
        add_line_break(content);
        assert(encode_utf8(content@) =~= before + (bytes + seq![10u8]));
        return true;
    }
    let ghost mut first: Seq<u8> = Seq::empty();
    if i == start_line {
        if !line.is_char_boundary(start_col) {
            return false;
        }
        let (kept, _) = line.split_at(start_col);
        add_text(content, kept);
        add_text(content, text);
        proof {
            first = bytes.subrange(0, start_col as int) + encode_utf8(text@);
            assert(encode_utf8(kept@) =~= bytes.subrange(0, start_col as int));
        }
    }
    assert(encode_utf8(content@) =~= before + first);
    if i == end_line {
        if !line.is_char_boundary(end_col) {
            return false;
        }
        let (_, kept) = line.split_at(end_col);
        add_text(content, kept);
        add_line_break(content);
        let ghost last = bytes.subrange(end_col as int, bytes.len() as int) + seq![10u8];
        assert(encode_utf8(content@) =~= before + (first + last));
    } else {
        assert(first + Seq::<u8>::empty() =~= first);
    }
    true
}

/// Applies a change to a text. Nothing comes back where the change begins or ends outside of a line
/// or inside a character.
pub fn update_file_contents(prev_content: &String, content_change: &ContentChange) -> (r: Option<
    String,
>)
    ensures
        match edited(
            encode_utf8(prev_content@),
            content_change.range,
            encode_utf8(content_change.text@),
        ) {
            Some(bytes) => r is Some && encode_utf8(r->Some_0@) == bytes,
            None => r is None,
        },
{
    let range: Range = match content_change.range {
        Some(range) => range,
        None => {
            // when no range is provided, the entire file is sent
            return Some(content_change.text.clone());
        },
    };
    let ghost bytes = encode_utf8(prev_content@);
    let ghost text = encode_utf8(content_change.text@);
    let ghost split = text_lines(bytes);
    let found = lines(prev_content.as_str());
    if range.start.line as usize == found.len() {
        // changes at the end of the file are added to the buffer
        let mut grown = prev_content.clone();
        add_text(&mut grown, content_change.text.as_str());
        return Some(grown);
    }
    let mut new_content = String::new();
    assert(encode_utf8(new_content@) =~= Seq::<u8>::empty());
    let mut i: usize = 0;
    while i < found.len()
        invariant
            i <= found@.len(),
            split == encoded(found@),
            bytes == encode_utf8(prev_content@),
            split == text_lines(bytes),
            text == encode_utf8(content_change.text@),
            content_change.range == Some(range),
            range.start.line != split.len(),
            edited_lines(split, i as nat, range, text) == Some(encode_utf8(new_content@)),
        decreases found@.len() - i,
    {
        assert(split[i as int] == encode_utf8(found@[i as int]@));
        if !edit_line(&mut new_content, found[i], i, &range, content_change.text.as_str()) {
            proof {
                lemma_edit_fails(split, (i + 1) as nat, range, text);
            }
            return None;
        }
        i = i + 1;
    }
    Some(new_content)
}

proof fn lemma_edit_fails(lines: Seq<Seq<u8>>, n: nat, range: Range, text: Seq<u8>)
    requires
        0 < n <= lines.len(),
        edited_lines(lines, n, range, text) is None,
    ensures
        edited_lines(lines, lines.len(), range, text) is None,
    decreases lines.len() - n,
{
    if n < lines.len() {
        lemma_edit_fails(lines, n + 1, range, text);
    }
}

} // verus!
