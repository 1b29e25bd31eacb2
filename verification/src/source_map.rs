//! Source maps: which source range each instruction of a bytecode belongs to.

use foundry_compilers::artifacts::sourcemap;
use vstd::prelude::*;

verus! {

/// What an instruction does to the call stack of the source program.
#[derive(Clone, Copy, Debug, PartialEq, Eq, Structural)]
pub enum Jump {
    /// Goes into a function.
    In,
    /// Returns from a function.
    Out,
    Regular,
}

/// The source range of one instruction.
#[derive(Clone, Copy, Debug, PartialEq, Eq, Structural)]
pub struct SourceElement {
    pub offset: u32,
    pub length: u32,
    pub jump: Jump,
}

/// A source map has one element for each instruction.
pub type SourceMap = Vec<SourceElement>;

/// What `foundry_compilers::artifacts::sourcemap::parse` reads out of a text: offset, length
/// and jump of each element; nothing where it rejects the text.
pub uninterp spec fn parsed_source_map(text: Seq<char>) -> Option<Seq<SourceElement>>;

/// Calls `foundry_compilers::artifacts::sourcemap::parse`, which expands the compressed form
/// of a source map. The result is named, not spelled out: it is claimed to depend on the
/// text alone.
#[verifier::external_body]
pub(crate) fn parse(text: &str) -> (r: Option<SourceMap>)
    ensures
        match parsed_source_map(text@) {
            Some(elements) => r is Some && r->Some_0@ == elements,
            None => r is None,
        },
{
    let elements = sourcemap::parse(text).ok()?;
    let convert = |e: &sourcemap::SourceElement| SourceElement {
        offset: e.offset(),
        length: e.length(),
        jump: match e.jump() {
            sourcemap::Jump::In => Jump::In,
            sourcemap::Jump::Out => Jump::Out,
            sourcemap::Jump::Regular => Jump::Regular,
        },
    };
    Some(elements.iter().map(convert).collect())
}

/// Whether the range of `e` is `length` bytes from `start` on.
pub open spec fn covers(e: SourceElement, start: u32, length: u32) -> bool {
    e.offset == start && e.length == length
}

/// The number of the first of the elements from `i` on with the given range.
pub open spec fn first_match_from(map: Seq<SourceElement>, start: u32, length: u32, i: nat) -> Option<
    nat,
>
    decreases (if i < map.len() { map.len() - i } else { 0 }),
{
    if i >= map.len() {
        None
    } else if covers(map[i as int], start, length) {
        Some(i)
    } else {
        first_match_from(map, start, length, i + 1)
    }
}

/// The number of the last of the first `n` elements with the given range.
pub open spec fn last_match_below(map: Seq<SourceElement>, start: u32, length: u32, n: nat) -> Option<
    nat,
>
    decreases n,
{
    if n == 0 || n > map.len() {
        None
    } else if covers(map[n - 1], start, length) {
        Some((n - 1) as nat)
    } else {
        last_match_below(map, start, length, (n - 1) as nat)
    }
}

/// The number of the last of the first `n` elements with the given range that returns from
/// a function.
pub open spec fn last_return_below(map: Seq<SourceElement>, start: u32, length: u32, n: nat) -> Option<
    nat,
>
    decreases n,
{
    if n == 0 || n > map.len() {
        None
    } else if covers(map[n - 1], start, length) && map[n - 1].jump == Jump::Out {
        Some((n - 1) as nat)
    } else {
        last_return_below(map, start, length, (n - 1) as nat)
    }
}

/// The number of the first of the elements from `i` on with the given range that stands
/// right behind one that returns from a function.
pub open spec fn first_after_return(map: Seq<SourceElement>, start: u32, length: u32, i: nat) -> Option<
    nat,
>
    decreases (if i < map.len() { map.len() - i } else { 0 }),
{
    if i >= map.len() {
        None
    } else if i > 0 && covers(map[i as int], start, length) && map[i - 1].jump == Jump::Out {
        Some(i)
    } else {
        first_after_return(map, start, length, i + 1)
    }
}

/// The number of the first element with the given range.
pub fn first_match(map: &SourceMap, start: u32, length: u32) -> (r: Option<usize>)
    ensures
        r is Some == first_match_from(map@, start, length, 0) is Some,
        r is Some ==> r->Some_0 == first_match_from(map@, start, length, 0)->Some_0,
        r is Some ==> r->Some_0 < map@.len(),
{
    let mut i: usize = 0;
    while i < map.len()
        invariant
            i <= map@.len(),
            first_match_from(map@, start, length, 0) == first_match_from(
                map@,
                start,
                length,
                i as nat,
            ),
        decreases map@.len() - i,
    {
        if map[i].offset == start && map[i].length == length {
            return Some(i);
        }
        i = i + 1;
    }
    None
}

/// The number of the last element with the given range.
pub fn last_match(map: &SourceMap, start: u32, length: u32) -> (r: Option<usize>)
    ensures
        r is Some == last_match_below(map@, start, length, map@.len()) is Some,
        r is Some ==> r->Some_0 == last_match_below(map@, start, length, map@.len())->Some_0,
{
    let mut n: usize = map.len();
    while n > 0
        invariant
            n <= map@.len(),
            last_match_below(map@, start, length, map@.len()) == last_match_below(
                map@,
                start,
                length,
                n as nat,
            ),
        decreases n,
    {
        if map[n - 1].offset == start && map[n - 1].length == length {
            return Some(n - 1);
        }
        n = n - 1;
    }
    None
}

/// The number of the last element with the given range that returns from a function.
pub fn last_return(map: &SourceMap, start: u32, length: u32) -> (r: Option<usize>)
    ensures
        r is Some == last_return_below(map@, start, length, map@.len()) is Some,
        r is Some ==> r->Some_0 == last_return_below(map@, start, length, map@.len())->Some_0,
{
    let mut n: usize = map.len();
    while n > 0
        invariant
            n <= map@.len(),
            last_return_below(map@, start, length, map@.len()) == last_return_below(
                map@,
                start,
                length,
                n as nat,
            ),
        decreases n,
    {
        if map[n - 1].offset == start && map[n - 1].length == length && map[n - 1].jump
            == Jump::Out {
            return Some(n - 1);
        }
        n = n - 1;
    }
    None
}

/// The number of the first element with the given range that stands right behind one that
/// returns from a function.
pub fn after_return(map: &SourceMap, start: u32, length: u32) -> (r: Option<usize>)
    ensures
        r is Some == first_after_return(map@, start, length, 0) is Some,
        r is Some ==> r->Some_0 == first_after_return(map@, start, length, 0)->Some_0,
{
    let mut i: usize = 0;
    while i < map.len()
        invariant
            i <= map@.len(),
            first_after_return(map@, start, length, 0) == first_after_return(
                map@,
                start,
                length,
                i as nat,
            ),
        decreases map@.len() - i,
    {
        if i > 0 && map[i].offset == start && map[i].length == length && map[i - 1].jump
            == Jump::Out {
            return Some(i);
        }
        i = i + 1;
    }
    None
}

} // verus!
