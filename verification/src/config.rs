//! Startup configuration: screen layout and duration parsing.

use vstd::prelude::*;
use crate::textfmt::str_chars;

verus! {

/// Whether `c` is a decimal digit.
pub open spec fn is_digit(c: char) -> bool {
    48 <= c as u32 <= 57
}

/// The numeric value of the digit `c`.
pub open spec fn digit_val(c: char) -> int {
    c as u32 - 48
}

/// Whether every character of `s` is a decimal digit.
pub open spec fn all_digits(s: Seq<char>) -> bool {
    forall|i: int| 0 <= i < s.len() ==> is_digit(#[trigger] s[i])
}

/// The value of the decimal digit string `s`.
pub open spec fn digits_val(s: Seq<char>) -> int
    decreases s.len(),
{
    if s.len() == 0 {
        0
    } else {
        digits_val(s.drop_last()) * 10 + digit_val(s.last())
    }
}

/// The value of a digit string is never below the value of any of its
/// prefixes.
proof fn lemma_digits_val_prefix_le(s: Seq<char>, i: int)
    requires
        0 <= i <= s.len(),
        all_digits(s),
    ensures
        digits_val(s.subrange(0, i)) <= digits_val(s),
    decreases s.len() - i,
{
    if i == s.len() {
        assert(s.subrange(0, i) =~= s);
    } else {
        assert(s.subrange(0, i + 1).drop_last() =~= s.subrange(0, i));
        assert(s.subrange(0, i + 1).last() == s[i]);
        assert(digits_val(s.subrange(0, i)) >= 0) by {
            lemma_digits_val_nonneg(s.subrange(0, i));
        }
        assert(digits_val(s.subrange(0, i)) <= digits_val(s.subrange(0, i + 1)));
        lemma_digits_val_prefix_le(s, i + 1);
    }
}

/// The value of a digit string is never negative.
proof fn lemma_digits_val_nonneg(s: Seq<char>)
    requires
        all_digits(s),
    ensures
        digits_val(s) >= 0,
    decreases s.len(),
{
    if s.len() > 0 {
        assert(all_digits(s.drop_last()));
        lemma_digits_val_nonneg(s.drop_last());
    }
}

/// Seconds per duration unit: hours, minutes, or seconds.
pub open spec fn duration_unit_secs(c: char) -> int {
    if c == 'h' {
        3600
    } else if c == 'm' {
        60
    } else {
        1
    }
}

/// The parse error reported for a malformed magnitude, by unit.
pub open spec fn spec_magnitude_error(c: char) -> Seq<char> {
    if c == 'h' {
        "Invalid hours"@
    } else if c == 'm' {
        "Invalid minutes"@
    } else {
        "Invalid seconds"@
    }
}

/// The error reported for a malformed magnitude, matching the unit suffix.
fn magnitude_error(c: char) -> (r: String)
    ensures
        r@ == spec_magnitude_error(c),
{
    if c == 'h' {
        "Invalid hours".to_owned()
    } else if c == 'm' {
        "Invalid minutes".to_owned()
    } else {
        "Invalid seconds".to_owned()
    }
}

/// Whether `s` is a well-formed compact duration: a nonempty decimal
/// magnitude, then one of the unit suffixes `h`, `m` or `s`, with a total
/// second count that fits the result type.
pub open spec fn spec_duration_ok(s: Seq<char>) -> bool {
    &&& s.len() >= 2
    &&& (s.last() == 'h' || s.last() == 'm' || s.last() == 's')
    &&& all_digits(s.drop_last())
    &&& digits_val(s.drop_last()) * duration_unit_secs(s.last()) <= u64::MAX
}

/// The second count denoted by a well-formed compact duration.
pub open spec fn spec_duration_secs(s: Seq<char>) -> int {
    digits_val(s.drop_last()) * duration_unit_secs(s.last())
}

/// Parses a compact duration such as "30m", "1h" or "20s" into a number of
/// seconds. A string without a trailing unit is rejected with a message
/// naming the expected suffixes; a magnitude that is empty, non-numeric or
/// too large is rejected with a message naming the unit.
pub fn parse_duration(s: &str) -> (r: Result<u64, String>)
    ensures
        spec_duration_ok(s@) ==> (r matches Ok(v) && v == spec_duration_secs(s@)),
        !spec_duration_ok(s@) ==> (r matches Err(e) && e@ == (
        if s@.len() > 0 && (s@.last() == 'h' || s@.last() == 'm' || s@.last() == 's') {
            spec_magnitude_error(s@.last())
        } else {
            "Duration must end with 'h', 'm', or 's'"@
        })),
{
    let cs = str_chars(s);
    let n = cs.len();
    if n == 0 {
        return Err("Duration must end with 'h', 'm', or 's'".to_owned());
    }
    let unit_c = cs[n - 1];
    if !(unit_c == 'h' || unit_c == 'm' || unit_c == 's') {
        return Err("Duration must end with 'h', 'm', or 's'".to_owned());
    }
    let unit: u64 = if unit_c == 'h' {
        3600
    } else if unit_c == 'm' {
        60
    } else {
        1
    };
    if n == 1 {
        return Err(magnitude_error(unit_c));
    }
    let ghost mag = s@.drop_last();
    proof {
        assert(mag =~= s@.subrange(0, n - 1));
    }
    let mut acc: u64 = 0;
    let mut i: usize = 0;
    while i < n - 1
        invariant
            0 <= i <= n - 1,
            n == s@.len(),
            n >= 2,
            cs@ == s@,
            mag == s@.subrange(0, n - 1),
            unit_c == s@.last(),
            unit == duration_unit_secs(unit_c),
            unit_c == 'h' || unit_c == 'm' || unit_c == 's',
            all_digits(s@.subrange(0, i as int)),
            acc == digits_val(s@.subrange(0, i as int)),
        decreases n - 1 - i,
    {
        #[verifier::truncate]
        let x = cs[i] as u32;
        proof {
            assert(x == s@[i as int] as u32);
        }
        if x < 48 || x > 57 {
            proof {
                assert(!is_digit(s@[i as int]));
                assert(mag[i as int] == s@[i as int]);
                assert(!all_digits(mag));
            }
            return Err(magnitude_error(unit_c));
        }
        proof {
            assert(is_digit(s@[i as int]));
            assert(forall|j: int| 0 <= j < i + 1 ==> #[trigger] s@.subrange(0, i + 1)[j] == s@[j]);
        }
        let d = (x - 48) as u64;
        if acc > (u64::MAX - d) / 10 {
            proof {
                assert(all_digits(s@.subrange(0, i + 1)));
                assert(s@.subrange(0, i + 1).drop_last() =~= s@.subrange(0, i as int));
                assert(digits_val(s@.subrange(0, i + 1)) == acc * 10 + d);
                assert(acc * 10 + d > u64::MAX) by (nonlinear_arith)
                    requires
                        acc > (u64::MAX - d) / 10,
                        0 <= d <= 9,
                ;
                if all_digits(mag) {
                    lemma_digits_val_prefix_le(mag, i + 1);
                    assert(mag.subrange(0, i + 1) =~= s@.subrange(0, i + 1));
                    assert(digits_val(mag) > u64::MAX);
                    assert(duration_unit_secs(unit_c) >= 1);
                    lemma_digits_val_nonneg(mag);
                    assert(digits_val(mag) * duration_unit_secs(unit_c) > u64::MAX)
                        by (nonlinear_arith)
                        requires
                            digits_val(mag) > u64::MAX,
                            duration_unit_secs(unit_c) >= 1,
                    ;
                }
            }
            return Err(magnitude_error(unit_c));
        }
        proof {
            assert(s@.subrange(0, i + 1).drop_last() =~= s@.subrange(0, i as int));
            assert(all_digits(s@.subrange(0, i + 1)));
        }
        acc = acc * 10 + d;
        i += 1;
    }
    proof {
        assert(s@.subrange(0, n - 1) =~= mag);
        assert(acc == digits_val(mag));
        lemma_digits_val_nonneg(mag);
    }
    if acc > u64::MAX / unit {
        proof {
            assert(acc * unit > u64::MAX) by (nonlinear_arith)
                requires
                    acc > u64::MAX / unit,
                    unit >= 1,
                    acc >= 0,
            ;
        }
        return Err(magnitude_error(unit_c));
    }
    proof {
        assert(acc * unit <= u64::MAX) by (nonlinear_arith)
            requires
                acc <= u64::MAX / unit,
                unit >= 1,
                acc >= 0,
        ;
    }
    Ok(acc * unit)
}

/// Fixed screen-row assignments for the lock screen's entities, computed once
/// from the number of title lines and fixed gaps.
pub struct Layout {
    pub countdown_row: u16,
    pub title_row: u16,
    pub prompt_row: u16,
    pub feedback_row: u16,
}

impl Layout {
    /// The countdown sits on the top row, the title right below it, the
    /// prompt after the title plus a one-line gap, and the feedback banner
    /// directly under the prompt.
    pub fn new(title_lines: u16) -> (r: Layout)
        requires
            title_lines <= u16::MAX - 3,
        ensures
            r.countdown_row == 0,
            r.title_row == 1,
            r.prompt_row == 2 + title_lines,
            r.feedback_row == 3 + title_lines,
    {
        Layout {
            countdown_row: 0,
            title_row: 1,
            prompt_row: 2 + title_lines,
            feedback_row: 3 + title_lines,
        }
    }
}

} // verus!
