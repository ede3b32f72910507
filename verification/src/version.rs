//! Engine-version parsing and the flag-regime predicate.
//!
//! The engine-version string of a bundle header (for example `2021.3.16f1`)
//! is scanned for its first three decimal numbers. The resulting triple
//! selects which bit of the archive flags denotes encryption and whether the
//! pre-data padding flag is honored.

use vstd::prelude::*;

verus! {

/// True for ASCII decimal digits.
pub open spec fn is_ascii_digit(c: u8) -> bool {
    0x30 <= c <= 0x39
}

/// Value of a run of ASCII digits read as a decimal number.
pub open spec fn digits_val(s: Seq<u8>) -> int
    decreases s.len(),
{
    if s.len() == 0 {
        0
    } else {
        digits_val(s.drop_last()) * 10 + (s.last() - 0x30)
    }
}

/// A digit run parses to a `u32` exactly when its value fits.
pub open spec fn parse_digits(s: Seq<u8>) -> Option<u32> {
    if digits_val(s) <= u32::MAX {
        Some(digits_val(s) as u32)
    } else {
        None
    }
}

/// The numbers collected by the scan, starting at position `i` with the
/// already-collected numbers `nums` and the pending digit run `cur`.
/// Scanning stops once three numbers are in hand; a run whose value
/// overflows a `u32` is skipped.
pub open spec fn engine_nums(s: Seq<u8>, i: int, nums: Seq<u32>, cur: Seq<u8>) -> Seq<u32>
    decreases s.len() - i when 0 <= i <= s.len()
{
    if i < 0 || i >= s.len() {
        if cur.len() > 0 && nums.len() < 3 {
            match parse_digits(cur) {
                Some(n) => nums.push(n),
                None => nums,
            }
        } else {
            nums
        }
    } else if nums.len() >= 3 {
        nums
    } else {
        let c = s[i];
        if is_ascii_digit(c) {
            engine_nums(s, i + 1, nums, cur.push(c))
        } else if cur.len() > 0 {
            match parse_digits(cur) {
                Some(n) => engine_nums(s, i + 1, nums.push(n), Seq::empty()),
                None => engine_nums(s, i + 1, nums, Seq::empty()),
            }
        } else {
            engine_nums(s, i + 1, nums, Seq::empty())
        }
    }
}

/// The `(major, minor, patch)` triple of an engine-version string, when the
/// string holds at least three numbers.
pub open spec fn spec_parse_engine_version(s: Seq<u8>) -> Option<(u32, u32, u32)> {
    let nums = engine_nums(s, 0, Seq::empty(), Seq::empty());
    if nums.len() >= 3 {
        Some((nums[0], nums[1], nums[2]))
    } else {
        None
    }
}

/// True for engine versions that use the newer archive-flag assignments:
/// `>= 2020.3.34`, `>= 2021.3.2`, `>= 2022.1.1`, or any major `>= 2023`.
pub open spec fn spec_uses_new_archive_flags(major: u32, minor: u32, patch: u32) -> bool {
    if major < 2020 {
        false
    } else if major == 2020 {
        minor > 3 || (minor == 3 && patch >= 34)
    } else if major == 2021 {
        minor > 3 || (minor == 3 && patch >= 2)
    } else if major == 2022 {
        minor > 1 || (minor == 1 && patch >= 1)
    } else {
        true
    }
}

/// The value of a run of digits is never negative.
proof fn lemma_digits_val_nonneg(s: Seq<u8>)
    requires
        forall|i: int| 0 <= i < s.len() ==> is_ascii_digit(#[trigger] s[i]),
    ensures
        digits_val(s) >= 0,
    decreases s.len(),
{
    if s.len() > 0 {
        assert(is_ascii_digit(s[s.len() - 1]));
        lemma_digits_val_nonneg(s.drop_last());
    }
}

/// Parse the first three decimal numbers of an engine-version string.
pub fn parse_engine_version(s: &Vec<u8>) -> (r: Option<(u32, u32, u32)>)
    ensures
        r == spec_parse_engine_version(s@),
{
    let mut nums: Vec<u32> = Vec::new();
    let mut cur_val: u32 = 0;
    let mut cur_len: usize = 0;
    let mut cur_overflow: bool = false;
    let ghost mut cur: Seq<u8> = Seq::empty();
    let mut i: usize = 0;
    while i < s.len() && nums.len() < 3
        invariant
            i <= s@.len(),
            cur.len() == cur_len,
            cur_len <= i,
            forall|k: int| 0 <= k < cur.len() ==> is_ascii_digit(#[trigger] cur[k]),
            !cur_overflow ==> digits_val(cur) == cur_val,
            cur_overflow ==> digits_val(cur) > u32::MAX,
            engine_nums(s@, 0, Seq::empty(), Seq::empty()) == engine_nums(
                s@,
                i as int,
                nums@,
                cur,
            ),
            nums@.len() <= 3,
        decreases s@.len() - i,
    {
        let ghost nums0 = nums@;
        let ghost cur0 = cur;
        let ghost i0 = i as int;
        let c = s[i];
        proof {
            assert(s@[i0] == c);
        }
        if 0x30 <= c && c <= 0x39 {
            let d = (c - 0x30) as u32;
            if cur_overflow || cur_val > (u32::MAX - d) / 10 {
                proof {
                    lemma_digits_val_nonneg(cur);
                    assert(cur.push(c).drop_last() =~= cur);
                    assert(cur.push(c).last() == c);
                    assert(digits_val(cur.push(c)) == digits_val(cur) * 10 + (c - 0x30));
                    if !cur_overflow {
                        assert(cur_val * 10 + d > u32::MAX) by (nonlinear_arith)
                            requires
                                cur_val > ((u32::MAX - d) / 10) as int,
                                0 <= d <= 9,
                        ;
                    } else {
                        assert(digits_val(cur) * 10 + (c - 0x30) > u32::MAX) by (nonlinear_arith)
                            requires
                                digits_val(cur) > u32::MAX,
                                c >= 0x30,
                        ;
                    }
                }
                cur_overflow = true;
            } else {
                proof {
                    assert(cur.push(c).drop_last() =~= cur);
                    assert(cur.push(c).last() == c);
                    assert(digits_val(cur.push(c)) == digits_val(cur) * 10 + (c - 0x30));
                    assert(cur_val * 10 + d <= u32::MAX) by (nonlinear_arith)
                        requires
                            cur_val <= ((u32::MAX - d) / 10) as int,
                            0 <= d <= 9,
                    ;
                }
                cur_val = cur_val * 10 + d;
            }
            cur_len = cur_len + 1;
            proof {
                cur = cur.push(c);
            }
        } else if cur_len > 0 {
            if !cur_overflow {
                nums.push(cur_val);
            }
            cur_val = 0;
            cur_len = 0;
            cur_overflow = false;
            proof {
                cur = Seq::empty();
            }
        } else {
            proof {
                assert(cur =~= Seq::empty());
            }
        }
        i = i + 1;
        proof {
            assert(engine_nums(s@, i0, nums0, cur0) == engine_nums(s@, i0 + 1, nums@, cur));
        }
    }
    proof {
        if i < s@.len() {
            assert(nums@.len() >= 3);
            assert(engine_nums(s@, i as int, nums@, cur) == nums@);
        } else {
            assert(i == s@.len());
        }
    }
    if nums.len() < 3 && cur_len > 0 && !cur_overflow {
        nums.push(cur_val);
    }
    if nums.len() >= 3 {
        Some((nums[0], nums[1], nums[2]))
    } else {
        None
    }
}

/// Decide the archive-flag regime from an engine-version triple.
pub fn uses_new_archive_flags(major: u32, minor: u32, patch: u32) -> (r: bool)
    ensures
        r == spec_uses_new_archive_flags(major, minor, patch),
{
    if major < 2020 {
        false
    } else if major == 2020 {
        minor > 3 || (minor == 3 && patch >= 34)
    } else if major == 2021 {
        minor > 3 || (minor == 3 && patch >= 2)
    } else if major == 2022 {
        minor > 1 || (minor == 1 && patch >= 1)
    } else {
        true
    }
}

} // verus!
