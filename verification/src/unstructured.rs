//! Values that are drawn from raw bytes.

use arbitrary::Unstructured;
use vstd::prelude::*;

use crate::primitives::be_value;

verus! {

/// The raw bytes out of which `arbitrary` draws values.
#[verifier::external_type_specification]
#[verifier::external_body]
pub struct ExUnstructured<'a>(Unstructured<'a>);

/// The bytes that have not been used yet.
pub uninterp spec fn bytes_left(u: Unstructured<'_>) -> Seq<u8>;

/// What is left of the bytes behind the first `used`.
pub open spec fn after(data: Seq<u8>, used: nat) -> Seq<u8> {
    if used <= data.len() {
        data.skip(used as int)
    } else {
        Seq::empty()
    }
}

/// How many bytes a number up to `width` takes.
pub open spec fn bytes_for(width: nat) -> nat
    decreases width,
{
    if width == 0 {
        0
    } else {
        1 + bytes_for(width / 256)
    }
}

/// How many bytes are used to draw a number out of a range that is `width` wide: as many as the
/// width takes, or all that are left.
pub open spec fn bytes_drawn(data: Seq<u8>, width: nat) -> nat {
    if bytes_for(width) <= data.len() {
        bytes_for(width)
    } else {
        data.len()
    }
}

/// The number from `lo` to `hi` that the bytes stand for: the first of them, read from the most
/// significant one on, wrapped into the range.
pub open spec fn drawn(data: Seq<u8>, lo: int, hi: int) -> int {
    lo + be_value(data.take(bytes_drawn(data, (hi - lo) as nat) as int)) as int % (hi - lo + 1)
}

/// `Unstructured::int_in_range` takes no more bytes than the width of the range needs, fewer where
/// the data ends, and adds what they say, modulo the number of choices, to the start of the range.
/// It does not fail, and panics only on an empty range.
#[verifier::external_body]
pub(crate) fn int_in_range(u: &mut Unstructured<'_>, lo: i32, hi: i32) -> (r: Option<i32>)
    requires
        lo <= hi,
    ensures
        r is Some,
        r->Some_0 == drawn(bytes_left(*old(u)), lo as int, hi as int),
        bytes_left(*final(u)) == after(
            bytes_left(*old(u)),
            bytes_drawn(bytes_left(*old(u)), (hi - lo) as nat),
        ),
{
    u.int_in_range(lo..=hi).ok()
}

/// `Unstructured::choose` draws the place of the choice, and fails where there is none to choose.
#[verifier::external_body]
pub(crate) fn choose_one(u: &mut Unstructured<'_>, choices: &[u16]) -> (r: Option<u16>)
    ensures
        choices@.len() == 0 ==> r is None && bytes_left(*final(u)) == bytes_left(*old(u)),
        choices@.len() > 0 ==> {
            &&& r == Some(choices@[drawn(bytes_left(*old(u)), 0, choices@.len() - 1)])
            &&& bytes_left(*final(u)) == after(
                bytes_left(*old(u)),
                bytes_drawn(bytes_left(*old(u)), (choices@.len() - 1) as nat),
            )
        },
{
    u.choose(choices).ok().copied()
}

/// `Unstructured::arbitrary` for `bool` takes one byte and looks at its lowest bit; without a
/// byte it says no.
#[verifier::external_body]
pub(crate) fn arbitrary_bool(u: &mut Unstructured<'_>) -> (r: Option<bool>)
    ensures
        r == Some(bytes_left(*old(u)).len() > 0 && bytes_left(*old(u))[0] % 2 == 1),
        bytes_left(*final(u)) == after(
            bytes_left(*old(u)),
            if bytes_left(*old(u)).len() > 0 { 1 } else { 0 },
        ),
{
    u.arbitrary::<bool>().ok()
}

pub proof fn lemma_after_twice(data: Seq<u8>, first: nat, second: nat)
    ensures
        after(after(data, first), second) == after(data, first + second),
{
    assert(after(after(data, first), second) =~= after(data, first + second));
}

pub proof fn lemma_drawn(data: Seq<u8>, lo: int, hi: int)
    requires
        lo <= hi,
    ensures
        lo <= drawn(data, lo, hi) <= hi,
        data.len() == 0 ==> drawn(data, lo, hi) == lo,
        data.len() > 0 && lo < hi ==> bytes_drawn(data, (hi - lo) as nat) > 0,
{
    let v = be_value(data.take(bytes_drawn(data, (hi - lo) as nat) as int)) as int;
    let n = hi - lo + 1;
    assert(0 <= v % n < n) by (nonlinear_arith)
        requires
            n > 0,
            v >= 0,
    ;
    if data.len() == 0 {
        assert(data.take(0).len() == 0);
        assert(v == 0);
        assert(0int % n == 0) by (nonlinear_arith)
            requires
                n > 0,
        ;
    }
}

} // verus!
