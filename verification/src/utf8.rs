use vstd::prelude::*;

verus! {

/// A UTF-8 continuation byte.
pub open spec fn is_cont(b: u8) -> bool {
    0x80 <= b < 0xC0
}

/// The length of the well-formed UTF-8 character starting at position
/// `i` of `s`, or 0 where none starts there. The ranges rule out
/// overlong encodings, surrogates and values above the last code
/// point, exactly as decoding to text does.
pub open spec fn utf8_len_at(s: Seq<u8>, i: int) -> int {
    if !(0 <= i < s.len()) {
        0
    } else if s[i] < 0x80 {
        1
    } else if 0xC2 <= s[i] < 0xE0 {
        if i + 2 <= s.len() && is_cont(s[i + 1]) {
            2
        } else {
            0
        }
    } else if s[i] == 0xE0 {
        if i + 3 <= s.len() && 0xA0 <= s[i + 1] < 0xC0 && is_cont(s[i + 2]) {
            3
        } else {
            0
        }
    } else if 0xE1 <= s[i] <= 0xEC || 0xEE <= s[i] <= 0xEF {
        if i + 3 <= s.len() && is_cont(s[i + 1]) && is_cont(s[i + 2]) {
            3
        } else {
            0
        }
    } else if s[i] == 0xED {
        if i + 3 <= s.len() && 0x80 <= s[i + 1] < 0xA0 && is_cont(s[i + 2]) {
            3
        } else {
            0
        }
    } else if s[i] == 0xF0 {
        if i + 4 <= s.len() && 0x90 <= s[i + 1] < 0xC0 && is_cont(s[i + 2]) && is_cont(s[i + 3]) {
            4
        } else {
            0
        }
    } else if 0xF1 <= s[i] <= 0xF3 {
        if i + 4 <= s.len() && is_cont(s[i + 1]) && is_cont(s[i + 2]) && is_cont(s[i + 3]) {
            4
        } else {
            0
        }
    } else if s[i] == 0xF4 {
        if i + 4 <= s.len() && 0x80 <= s[i + 1] < 0x90 && is_cont(s[i + 2]) && is_cont(s[i + 3]) {
            4
        } else {
            0
        }
    } else {
        0
    }
}

/// The bytes of `s` from position `i` on are a well-formed UTF-8 text.
pub open spec fn is_utf8_from(s: Seq<u8>, i: int) -> bool
    decreases s.len() - i
        when 0 <= i <= s.len()
{
    if i == s.len() {
        true
    } else {
        utf8_len_at(s, i) > 0 && is_utf8_from(s, i + utf8_len_at(s, i))
    }
}

/// `s` is a well-formed UTF-8 text.
pub open spec fn is_utf8(s: Seq<u8>) -> bool {
    is_utf8_from(s, 0)
}

fn cont(b: u8) -> (r: bool)
    ensures
        r == is_cont(b),
{
    0x80 <= b && b < 0xC0
}

/// Decides whether `s` is a well-formed UTF-8 text.
pub fn check_utf8(s: &[u8]) -> (r: bool)
    ensures
        r == is_utf8(s@),
{
    let n = s.len();
    let mut i: usize = 0;
    while i < n
        invariant
            i <= n,
            n == s@.len(),
            is_utf8(s@) == is_utf8_from(s@, i as int),
        decreases n - i,
    {
        let b = s[i];
        if b < 0x80 {
            i += 1;
        } else if 0xC2 <= b && b < 0xE0 {
            if n - i >= 2 && cont(s[i + 1]) {
                i += 2;
            } else {
                return false;
            }
        } else if b == 0xE0 {
            if n - i >= 3 && 0xA0 <= s[i + 1] && s[i + 1] < 0xC0 && cont(s[i + 2]) {
                i += 3;
            } else {
                return false;
            }
        } else if (0xE1 <= b && b <= 0xEC) || b == 0xEE || b == 0xEF {
            if n - i >= 3 && cont(s[i + 1]) && cont(s[i + 2]) {
                i += 3;
            } else {
                return false;
            }
        } else if b == 0xED {
            if n - i >= 3 && 0x80 <= s[i + 1] && s[i + 1] < 0xA0 && cont(s[i + 2]) {
                i += 3;
            } else {
                return false;
            }
        } else if b == 0xF0 {
            if n - i >= 4 && 0x90 <= s[i + 1] && s[i + 1] < 0xC0 && cont(s[i + 2]) && cont(s[i + 3]) {
                i += 4;
            } else {
                return false;
            }
        } else if 0xF1 <= b && b <= 0xF3 {
            if n - i >= 4 && cont(s[i + 1]) && cont(s[i + 2]) && cont(s[i + 3]) {
                i += 4;
            } else {
                return false;
            }
        } else if b == 0xF4 {
            if n - i >= 4 && 0x80 <= s[i + 1] && s[i + 1] < 0x90 && cont(s[i + 2]) && cont(s[i + 3]) {
                i += 4;
            } else {
                return false;
            }
        } else {
            return false;
        }
    }
    true
}

} // verus!
