//! Well-formedness of UTF-8 byte sequences.
//!
//! A page's buffer always holds well-formed UTF-8, and loading a file is
//! rejected when its bytes are not. The definition below is the standard
//! table: one- to four-byte characters, with the narrowed second-byte windows
//! that rule out overlong encodings, surrogate code points, and code points
//! above U+10FFFF.

use vstd::prelude::*;

verus! {

/// A byte in `0x80..=0xBF`, the range of UTF-8 continuation bytes.
pub open spec fn is_cont_byte(b: u8) -> bool {
    0x80 <= b && b <= 0xBF
}

/// Length in bytes of the encoded character introduced by lead byte `b`,
/// or 0 if `b` cannot begin a character.
pub open spec fn lead_len(b: u8) -> int {
    if b < 0x80 {
        1
    } else if 0xC2 <= b && b <= 0xDF {
        2
    } else if 0xE0 <= b && b <= 0xEF {
        3
    } else if 0xF0 <= b && b <= 0xF4 {
        4
    } else {
        0
    }
}

/// The allowed range of the second byte depends on the lead byte: `0xE0` and
/// `0xF0` exclude overlong encodings, `0xED` excludes the surrogate range,
/// and `0xF4` caps code points at U+10FFFF.
pub open spec fn second_byte_ok(b0: u8, b1: u8) -> bool {
    if b0 == 0xE0 {
        0xA0 <= b1 && b1 <= 0xBF
    } else if b0 == 0xED {
        0x80 <= b1 && b1 <= 0x9F
    } else if b0 == 0xF0 {
        0x90 <= b1 && b1 <= 0xBF
    } else if b0 == 0xF4 {
        0x80 <= b1 && b1 <= 0x8F
    } else {
        is_cont_byte(b1)
    }
}

/// A complete well-formed encoded character starts at index `i` of `s`.
pub open spec fn char_at_ok(s: Seq<u8>, i: int) -> bool {
    &&& 0 <= i < s.len()
    &&& lead_len(s[i]) >= 1
    &&& i + lead_len(s[i]) <= s.len()
    &&& lead_len(s[i]) >= 2 ==> second_byte_ok(s[i], s[i + 1])
    &&& lead_len(s[i]) >= 3 ==> is_cont_byte(s[i + 2])
    &&& lead_len(s[i]) == 4 ==> is_cont_byte(s[i + 3])
}

/// The bytes of `s` from index `i` to the end are a sequence of well-formed
/// encoded characters.
pub open spec fn utf8_from(s: Seq<u8>, i: int) -> bool
    decreases s.len() - i when 0 <= i <= s.len()
{
    i == s.len() || (char_at_ok(s, i) && utf8_from(s, i + lead_len(s[i])))
}

/// `s` is well-formed UTF-8.
pub open spec fn is_utf8(s: Seq<u8>) -> bool {
    utf8_from(s, 0)
}

/// Decides whether `s` is well-formed UTF-8, scanning one encoded character
/// at a time.
pub fn is_valid_utf8(s: &Vec<u8>) -> (r: bool)
    ensures
        r == is_utf8(s@),
{
    let n = s.len();
    let mut i: usize = 0;
    while i < n
        invariant
            i <= n,
            n == s@.len(),
            is_utf8(s@) == utf8_from(s@, i as int),
        decreases n - i,
    {
        let b0 = s[i];
        let len: usize = if b0 < 0x80 {
            1
        } else if 0xC2 <= b0 && b0 <= 0xDF {
            2
        } else if 0xE0 <= b0 && b0 <= 0xEF {
            3
        } else if 0xF0 <= b0 && b0 <= 0xF4 {
            4
        } else {
            0
        };
        if len == 0 || n - i < len {
            assert(!char_at_ok(s@, i as int));
            return false;
        }
        if len >= 2 {
            let b1 = s[i + 1];
            let second_ok = if b0 == 0xE0 {
                0xA0 <= b1 && b1 <= 0xBF
            } else if b0 == 0xED {
                0x80 <= b1 && b1 <= 0x9F
            } else if b0 == 0xF0 {
                0x90 <= b1 && b1 <= 0xBF
            } else if b0 == 0xF4 {
                0x80 <= b1 && b1 <= 0x8F
            } else {
                0x80 <= b1 && b1 <= 0xBF
            };
            if !second_ok {
                assert(!char_at_ok(s@, i as int));
                return false;
            }
            if len >= 3 {
                let b2 = s[i + 2];
                if !(0x80 <= b2 && b2 <= 0xBF) {
                    assert(!char_at_ok(s@, i as int));
                    return false;
                }
            }
            if len == 4 {
                let b3 = s[i + 3];
                if !(0x80 <= b3 && b3 <= 0xBF) {
                    assert(!char_at_ok(s@, i as int));
                    return false;
                }
            }
        }
        assert(char_at_ok(s@, i as int));
        assert(lead_len(s@[i as int]) == len as int);
        i = i + len;
    }
    true
}

} // verus!
