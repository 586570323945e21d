//! How file names are shown in the result table.

use vstd::prelude::*;

verus! {

/// File names longer than this many bytes are shortened.
pub const MAX_NAME_BYTES: usize = 30;

/// A shortened file name keeps this many bytes, then `...`.
pub const KEPT_NAME_BYTES: usize = 27;

/// `b` continues a UTF-8 sequence: cutting a string before it would split
/// a character.
pub open spec fn is_continuation_byte(b: u8) -> bool {
    0x80 <= b < 0xC0
}

/// The name shown for a file: the name itself when it has at most 30
/// bytes, else its first 27 bytes followed by `...`.
pub open spec fn shown_name(name: Seq<u8>) -> Seq<u8> {
    if name.len() > MAX_NAME_BYTES {
        name.take(KEPT_NAME_BYTES as int) + seq![46u8, 46u8, 46u8]
    } else {
        name
    }
}

/// Shorten a long file name (the bytes of a UTF-8 string) for display.  A
/// long name must not have a character across its 27th byte.
pub fn truncate_file_name(name: &[u8]) -> (r: Vec<u8>)
    requires
        name@.len() > MAX_NAME_BYTES ==> !is_continuation_byte(name@[KEPT_NAME_BYTES as int]),
    ensures
        r@ == shown_name(name@),
        r@.len() <= MAX_NAME_BYTES,
        r@.len() <= name@.len(),
{
    let n = name.len();
    let mut r: Vec<u8> = Vec::new();
    let keep = if n > MAX_NAME_BYTES {
        KEPT_NAME_BYTES
    } else {
        n
    };
    let mut i: usize = 0;
    while i < keep
        invariant
            n == name@.len(),
            keep <= n,
            i <= keep,
            r@ == name@.take(i as int),
        decreases keep - i,
    {
        r.push(name[i]);
        i = i + 1;
        assert(r@ =~= name@.take(i as int));
    }
    if n > MAX_NAME_BYTES {
        r.push(46u8);
        r.push(46u8);
        r.push(46u8);
        assert(r@ =~= name@.take(KEPT_NAME_BYTES as int) + seq![46u8, 46u8, 46u8]);
    } else {
        assert(name@.take(n as int) =~= name@);
    }
    r
}

} // verus!
