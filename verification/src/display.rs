//! What the pages show of a package that is worked out rather than drawn.

use vstd::prelude::*;
use vstd::utf8::encode_utf8;
use vstd::wrapping::u32_specs::{wrapping_add, wrapping_mul};
use crate::text::{chars_of, find_char, index_of, slice_of, string_of};

verus! {

/// The day part of a timestamp: what comes before the `T` that starts its
/// time, or all of it when there is none.
pub open spec fn day_of(timestamp: Seq<char>) -> Seq<char> {
    timestamp.take(index_of(timestamp, 'T') as int)
}

/// The day part of a timestamp, which is as much of it as is worth showing.
pub fn on_day(timestamp: &str) -> (r: String)
    ensures
        r@ == day_of(timestamp@),
{
    let t = chars_of(timestamp);
    let k = find_char(&t, 'T', 0);
    assert(t@.skip(0) =~= t@);
    string_of(&slice_of(&t, 0, k))
}

/// The hash an adapter's colour is chosen by: each byte of its id folded
/// in as `hash * 31 + byte`, wrapping at 32 bits.
pub open spec fn id_hash(bytes: Seq<u8>) -> u32
    decreases bytes.len(),
{
    if bytes.len() == 0 {
        0
    } else {
        wrapping_add(wrapping_mul(id_hash(bytes.drop_last()), 31), bytes.last() as u32)
    }
}

/// The hue an adapter is drawn in, in whole degrees: the same adapter is
/// always the same colour.
pub open spec fn hue_degrees(adapter_id: Seq<char>) -> u32 {
    id_hash(encode_utf8(adapter_id)) % 360
}

/// The hue an adapter is drawn in, in whole degrees, below 360.
pub fn adapter_hue(adapter_id: &str) -> (r: u32)
    ensures
        r == hue_degrees(adapter_id@),
        r < 360,
{
    let bytes = adapter_id.as_bytes();
    let mut hash: u32 = 0;
    let mut i: usize = 0;
    assert(bytes@.take(0).len() == 0);
    while i < bytes.len()
        invariant
            i <= bytes@.len(),
            bytes@ == encode_utf8(adapter_id@),
            hash == id_hash(bytes@.take(i as int)),
        decreases bytes@.len() - i,
    {
        assert(bytes@.take(i + 1).drop_last() =~= bytes@.take(i as int));
        assert(bytes@.take(i + 1).last() == bytes@[i as int]);
        hash = hash.wrapping_mul(31).wrapping_add(bytes[i] as u32);
        i = i + 1;
    }
    assert(bytes@.take(i as int) =~= bytes@);
    hash % 360
}

} // verus!
