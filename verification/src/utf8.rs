//! Validity of payload text. Bulk String and Simple String payloads must
//! be well-formed UTF-8; a frame whose payload is not is a protocol error.
//!
//! The predicate follows the well-formed byte sequences of RFC 3629: one
//! leading byte introduces a one- to four-byte scalar, continuation bytes
//! lie in `0x80..=0xBF`, and the overlong, surrogate and out-of-range
//! encodings are excluded by the tightened ranges after `0xE0`, `0xED`,
//! `0xF0` and `0xF4`.

use vstd::prelude::*;

verus! {

/// Whether `b` is a UTF-8 continuation byte.
pub open spec fn is_cont(b: u8) -> bool {
    0x80 <= b <= 0xBF
}

/// Whether `s` is a well-formed UTF-8 byte string.
pub open spec fn is_utf8(s: Seq<u8>) -> bool
    decreases s.len(),
{
    if s.len() == 0 {
        true
    } else {
        let b0 = s[0];
        if b0 < 0x80 {
            is_utf8(s.skip(1))
        } else if 0xC2 <= b0 && b0 <= 0xDF {
            if s.len() >= 2 && is_cont(s[1]) {
                is_utf8(s.skip(2))
            } else {
                false
            }
        } else if b0 == 0xE0 {
            if s.len() >= 3 && 0xA0 <= s[1] && s[1] <= 0xBF && is_cont(s[2]) {
                is_utf8(s.skip(3))
            } else {
                false
            }
        } else if (0xE1 <= b0 && b0 <= 0xEC) || b0 == 0xEE || b0 == 0xEF {
            if s.len() >= 3 && is_cont(s[1]) && is_cont(s[2]) {
                is_utf8(s.skip(3))
            } else {
                false
            }
        } else if b0 == 0xED {
            if s.len() >= 3 && 0x80 <= s[1] && s[1] <= 0x9F && is_cont(s[2]) {
                is_utf8(s.skip(3))
            } else {
                false
            }
        } else if b0 == 0xF0 {
            if s.len() >= 4 && 0x90 <= s[1] && s[1] <= 0xBF && is_cont(s[2]) && is_cont(s[3]) {
                is_utf8(s.skip(4))
            } else {
                false
            }
        } else if 0xF1 <= b0 && b0 <= 0xF3 {
            if s.len() >= 4 && is_cont(s[1]) && is_cont(s[2]) && is_cont(s[3]) {
                is_utf8(s.skip(4))
            } else {
                false
            }
        } else if b0 == 0xF4 {
            if s.len() >= 4 && 0x80 <= s[1] && s[1] <= 0x8F && is_cont(s[2]) && is_cont(s[3]) {
                is_utf8(s.skip(4))
            } else {
                false
            }
        } else {
            false
        }
    }
}

/// Decides whether `s[from .. to]` is well-formed UTF-8.
#[verifier::loop_isolation(false)]
pub fn check_utf8(s: &Vec<u8>, from: usize, to: usize) -> (r: bool)
    requires
        from <= to <= s@.len(),
    ensures
        r == is_utf8(s@.subrange(from as int, to as int)),
{
    let ghost sub = s@.subrange(from as int, to as int);
    proof {
        assert(sub.skip(0) =~= sub);
    }
    let mut i: usize = from;
    while i < to
        invariant
            from <= i <= to,
            is_utf8(sub) == is_utf8(sub.skip(i - from)),
        decreases to - i,
    {
        let ghost tail = sub.skip(i - from);
        proof {
            assert(tail.len() == to - i);
            assert forall|k: int| 0 <= k < tail.len() implies tail[k] == s@[i + k] by {}
        }
        let b0 = s[i];
        let avail = to - i;
        let w: usize;
        if b0 < 0x80 {
            w = 1;
        } else if 0xC2 <= b0 && b0 <= 0xDF {
            if !(avail >= 2 && 0x80 <= s[i + 1] && s[i + 1] <= 0xBF) {
                return false;
            }
            w = 2;
        } else if b0 == 0xE0 {
            if !(avail >= 3 && 0xA0 <= s[i + 1] && s[i + 1] <= 0xBF && 0x80 <= s[i + 2] && s[i + 2]
                <= 0xBF) {
                return false;
            }
            w = 3;
        } else if (0xE1 <= b0 && b0 <= 0xEC) || b0 == 0xEE || b0 == 0xEF {
            if !(avail >= 3 && 0x80 <= s[i + 1] && s[i + 1] <= 0xBF && 0x80 <= s[i + 2] && s[i + 2]
                <= 0xBF) {
                return false;
            }
            w = 3;
        } else if b0 == 0xED {
            if !(avail >= 3 && 0x80 <= s[i + 1] && s[i + 1] <= 0x9F && 0x80 <= s[i + 2] && s[i + 2]
                <= 0xBF) {
                return false;
            }
            w = 3;
        } else if b0 == 0xF0 {
            if !(avail >= 4 && 0x90 <= s[i + 1] && s[i + 1] <= 0xBF && 0x80 <= s[i + 2] && s[i + 2]
                <= 0xBF && 0x80 <= s[i + 3] && s[i + 3] <= 0xBF) {
                return false;
            }
            w = 4;
        } else if 0xF1 <= b0 && b0 <= 0xF3 {
            if !(avail >= 4 && 0x80 <= s[i + 1] && s[i + 1] <= 0xBF && 0x80 <= s[i + 2] && s[i + 2]
                <= 0xBF && 0x80 <= s[i + 3] && s[i + 3] <= 0xBF) {
                return false;
            }
            w = 4;
        } else if b0 == 0xF4 {
            if !(avail >= 4 && 0x80 <= s[i + 1] && s[i + 1] <= 0x8F && 0x80 <= s[i + 2] && s[i + 2]
                <= 0xBF && 0x80 <= s[i + 3] && s[i + 3] <= 0xBF) {
                return false;
            }
            w = 4;
        } else {
            return false;
        }
        proof {
            assert(tail.skip(w as int) =~= sub.skip(i - from + w));
        }
        i = i + w;
    }
    proof {
        assert(sub.skip(to - from) =~= Seq::<u8>::empty());
    }
    true
}

} // verus!
