//! UTF-8 validity of byte sequences.
//!
//! Simple strings and simple-error messages are text on the wire: their
//! payload bytes must form valid UTF-8.  `is_utf8` states the well-formed
//! byte patterns of RFC 3629 (shortest forms only, no surrogates, up to
//! U+10FFFF), and `check_utf8_range` decides it.

use vstd::prelude::*;

verus! {

/// A continuation byte `10xxxxxx`.
pub open spec fn utf8_cont(b: u8) -> bool {
    0x80 <= b <= 0xBF
}

/// The byte sequence is well-formed UTF-8.
pub open spec fn is_utf8(s: Seq<u8>) -> bool
    decreases s.len(),
{
    if s.len() == 0 {
        true
    } else {
        let b0 = s[0];
        if b0 < 0x80 {
            is_utf8(s.skip(1))
        } else if 0xC2 <= b0 <= 0xDF {
            s.len() >= 2 && utf8_cont(s[1]) && is_utf8(s.skip(2))
        } else if b0 == 0xE0 {
            s.len() >= 3 && 0xA0 <= s[1] <= 0xBF && utf8_cont(s[2]) && is_utf8(s.skip(3))
        } else if 0xE1 <= b0 <= 0xEC || 0xEE <= b0 <= 0xEF {
            s.len() >= 3 && utf8_cont(s[1]) && utf8_cont(s[2]) && is_utf8(s.skip(3))
        } else if b0 == 0xED {
            s.len() >= 3 && 0x80 <= s[1] <= 0x9F && utf8_cont(s[2]) && is_utf8(s.skip(3))
        } else if b0 == 0xF0 {
            s.len() >= 4 && 0x90 <= s[1] <= 0xBF && utf8_cont(s[2]) && utf8_cont(s[3])
                && is_utf8(s.skip(4))
        } else if 0xF1 <= b0 <= 0xF3 {
            s.len() >= 4 && utf8_cont(s[1]) && utf8_cont(s[2]) && utf8_cont(s[3])
                && is_utf8(s.skip(4))
        } else if b0 == 0xF4 {
            s.len() >= 4 && 0x80 <= s[1] <= 0x8F && utf8_cont(s[2]) && utf8_cont(s[3])
                && is_utf8(s.skip(4))
        } else {
            false
        }
    }
}

/// Decides whether the bytes of `s` in `[from, to)` are well-formed UTF-8.
pub fn check_utf8_range(s: &[u8], from: usize, to: usize) -> (r: bool)
    requires
        from <= to <= s@.len(),
    ensures
        r == is_utf8(s@.subrange(from as int, to as int)),
{
    let whole: Ghost<Seq<u8>> = Ghost(s@.subrange(from as int, to as int));
    let mut i: usize = from;
    loop
        invariant
            from <= i <= to <= s@.len(),
            whole@ == s@.subrange(from as int, to as int),
            is_utf8(whole@) == is_utf8(s@.subrange(i as int, to as int)),
        decreases to - i,
    {
        let rest: Ghost<Seq<u8>> = Ghost(s@.subrange(i as int, to as int));
        if i >= to {
            assert(rest@.len() == 0);
            return true;
        }
        let b0 = *vstd::slice::slice_index_get(s, i);
        assert(rest@[0] == b0);
        let n: usize = to - i;
        if b0 < 0x80 {
            assert(rest@.skip(1) =~= s@.subrange(i + 1, to as int));
            i = i + 1;
        } else if 0xC2 <= b0 && b0 <= 0xDF {
            if n < 2 {
                return false;
            }
            let b1 = *vstd::slice::slice_index_get(s, i + 1);
            assert(rest@[1] == b1);
            if !(0x80 <= b1 && b1 <= 0xBF) {
                return false;
            }
            assert(rest@.skip(2) =~= s@.subrange(i + 2, to as int));
            i = i + 2;
        } else if 0xE0 <= b0 && b0 <= 0xEF {
            if n < 3 {
                return false;
            }
            let b1 = *vstd::slice::slice_index_get(s, i + 1);
            let b2 = *vstd::slice::slice_index_get(s, i + 2);
            assert(rest@[1] == b1 && rest@[2] == b2);
            let lo1: u8 = if b0 == 0xE0 {
                0xA0
            } else {
                0x80
            };
            let hi1: u8 = if b0 == 0xED {
                0x9F
            } else {
                0xBF
            };
            if !(lo1 <= b1 && b1 <= hi1) {
                return false;
            }
            if !(0x80 <= b2 && b2 <= 0xBF) {
                return false;
            }
            assert(rest@.skip(3) =~= s@.subrange(i + 3, to as int));
            i = i + 3;
        } else if 0xF0 <= b0 && b0 <= 0xF4 {
            if n < 4 {
                return false;
            }
            let b1 = *vstd::slice::slice_index_get(s, i + 1);
            let b2 = *vstd::slice::slice_index_get(s, i + 2);
            let b3 = *vstd::slice::slice_index_get(s, i + 3);
            assert(rest@[1] == b1 && rest@[2] == b2 && rest@[3] == b3);
            let lo1: u8 = if b0 == 0xF0 {
                0x90
            } else {
                0x80
            };
            let hi1: u8 = if b0 == 0xF4 {
                0x8F
            } else {
                0xBF
            };
            if !(lo1 <= b1 && b1 <= hi1) {
                return false;
            }
            if !(0x80 <= b2 && b2 <= 0xBF) {
                return false;
            }
            if !(0x80 <= b3 && b3 <= 0xBF) {
                return false;
            }
            assert(rest@.skip(4) =~= s@.subrange(i + 4, to as int));
            i = i + 4;
        } else {
            return false;
        }
    }
}

} // verus!
