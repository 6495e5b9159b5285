//! Parsing of 24-hour `"HH:MM"` clock labels into seconds since midnight.

use vstd::prelude::*;

verus! {

/// The character is one of the ten ASCII decimal digits.
pub open spec fn is_clock_digit(c: char) -> bool {
    '0' <= c && c <= '9'
}

/// Numeric value of an ASCII decimal digit.
pub open spec fn digit_val(c: char) -> int {
    c as int - '0' as int
}

/// Hour denoted by the first two characters of a label.
pub open spec fn clock_hour(s: Seq<char>) -> int {
    10 * digit_val(s[0]) + digit_val(s[1])
}

/// Minute denoted by the last two characters of a label.
pub open spec fn clock_minute(s: Seq<char>) -> int {
    10 * digit_val(s[3]) + digit_val(s[4])
}

/// The label is a well-formed 24-hour clock time: exactly five characters
/// `HH:MM`, with `00 <= HH <= 23` and `00 <= MM <= 59`.
pub open spec fn clock_label_ok(s: Seq<char>) -> bool {
    &&& s.len() == 5
    &&& is_clock_digit(s[0])
    &&& is_clock_digit(s[1])
    &&& s[2] == ':'
    &&& is_clock_digit(s[3])
    &&& is_clock_digit(s[4])
    &&& clock_hour(s) <= 23
    &&& clock_minute(s) <= 59
}

/// Seconds since midnight denoted by a well-formed label.
pub open spec fn clock_seconds_of(s: Seq<char>) -> int {
    3600 * clock_hour(s) + 60 * clock_minute(s)
}

/// Parses a 24-hour `"HH:MM"` label into seconds since midnight, returning
/// `None` exactly when the label does not match that syntax or denotes an
/// out-of-range hour or minute.
pub fn parse_clock_time(s: &str) -> (r: Option<i64>)
    ensures
        clock_label_ok(s@) ==> (r matches Some(v) && v as int == clock_seconds_of(s@)),
        !clock_label_ok(s@) ==> r is None,
{
    if !s.is_ascii() {
        proof {
            if clock_label_ok(s@) {
                assert forall|i: int| 0 <= i < s@.len() implies '\0' <= #[trigger] s@[i]
                    <= '\u{7f}' by {
                    assert(s@.len() == 5);
                    if i == 2 {
                        assert(s@[i] == ':');
                    }
                }
                assert(false);
            }
        }
        return None;
    }
    proof {
        vstd::string::is_ascii_spec_bytes(s);
    }
    let bytes = s.as_bytes();
    if bytes.len() != 5 {
        return None;
    }
    let b0 = bytes[0];
    let b1 = bytes[1];
    let b2 = bytes[2];
    let b3 = bytes[3];
    let b4 = bytes[4];
    proof {
        assert(b0 == s@[0] as u8 && b1 == s@[1] as u8 && b2 == s@[2] as u8 && b3 == s@[3] as u8
            && b4 == s@[4] as u8);
    }
    if b2 != 58 {
        return None;
    }
    if b0 < 48 || b0 > 57 || b1 < 48 || b1 > 57 || b3 < 48 || b3 > 57 || b4 < 48 || b4 > 57 {
        return None;
    }
    let hour: i64 = 10 * ((b0 - 48) as i64) + ((b1 - 48) as i64);
    let minute: i64 = 10 * ((b3 - 48) as i64) + ((b4 - 48) as i64);
    if hour > 23 || minute > 59 {
        return None;
    }
    Some(3600 * hour + 60 * minute)
}

} // verus!
