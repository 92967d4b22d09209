use vstd::prelude::*;
use vstd::string::StrSliceExecFns;

verus! {

/// What scanning a duration string yields: a total number of seconds, or one
/// of the two rejections the scan can end in.
pub enum DurationOutcome {
    Value(nat),
    BadNumber,
    BadChar,
}

pub open spec fn is_duration_digit(c: char) -> bool {
    '0' <= c && c <= '9'
}

pub open spec fn is_duration_unit(c: char) -> bool {
    c == 's' || c == 'm' || c == 'h' || c == 'd' || c == 'w'
}

/// How many seconds one step of a unit is worth.
pub open spec fn unit_seconds(c: char) -> nat
    recommends
        is_duration_unit(c),
{
    if c == 's' {
        1
    } else if c == 'm' {
        60
    } else if c == 'h' {
        3600
    } else if c == 'd' {
        86400
    } else {
        604800
    }
}

/// The value of a run of decimal digits, most significant first.
pub open spec fn digits_value(s: Seq<char>) -> nat
    decreases s.len(),
{
    if s.len() == 0 {
        0
    } else {
        digits_value(s.drop_last()) * 10 + (s.last() as int - '0' as int) as nat
    }
}

/// The outcome of scanning `s` from position `i` with the digits `cur`
/// collected since the last unit: digits accumulate; a unit closes the
/// pending number, which must be a representable one, and weights it; what
/// is pending at the end counts as seconds. Any other character is rejected.
pub open spec fn duration_scan(s: Seq<char>, i: int, cur: Seq<char>) -> DurationOutcome
    decreases s.len() - i,
{
    if i < 0 || i >= s.len() {
        if cur.len() == 0 {
            DurationOutcome::Value(0)
        } else if digits_value(cur) <= u64::MAX {
            DurationOutcome::Value(digits_value(cur))
        } else {
            DurationOutcome::BadNumber
        }
    } else if is_duration_digit(s[i]) {
        duration_scan(s, i + 1, cur.push(s[i]))
    } else if is_duration_unit(s[i]) {
        if cur.len() == 0 || digits_value(cur) > u64::MAX {
            DurationOutcome::BadNumber
        } else {
            match duration_scan(s, i + 1, Seq::empty()) {
                DurationOutcome::Value(rest) => DurationOutcome::Value(
                    digits_value(cur) * unit_seconds(s[i]) + rest,
                ),
                e => e,
            }
        }
    } else {
        DurationOutcome::BadChar
    }
}

/// What a whole duration string denotes.
pub open spec fn duration_outcome(s: Seq<char>) -> DurationOutcome {
    duration_scan(s, 0, Seq::empty())
}

/// The outcome with `t` more seconds already accumulated.
pub open spec fn outcome_plus(o: DurationOutcome, t: nat) -> DurationOutcome {
    match o {
        DurationOutcome::Value(v) => DurationOutcome::Value(t + v),
        e => e,
    }
}

/// The running total of the scan stays within `u64` at every step that
/// completes a number: scans of such strings can be accumulated in a `u64`
/// without overflow.
pub open spec fn duration_fits(s: Seq<char>, i: int, cur: Seq<char>, total: nat) -> bool
    decreases s.len() - i,
{
    if i < 0 || i >= s.len() {
        cur.len() == 0 || digits_value(cur) > u64::MAX || total + digits_value(cur) <= u64::MAX
    } else if is_duration_digit(s[i]) {
        duration_fits(s, i + 1, cur.push(s[i]), total)
    } else if is_duration_unit(s[i]) {
        cur.len() == 0 || digits_value(cur) > u64::MAX || (total + digits_value(cur)
            * unit_seconds(s[i]) <= u64::MAX && duration_fits(
            s,
            i + 1,
            Seq::empty(),
            total + digits_value(cur) * unit_seconds(s[i]),
        ))
    } else {
        true
    }
}

/// Turns a duration such as `"1h30m"` into seconds: runs of digits weighted
/// by the unit that follows them (`s`, `m`, `h`, `d`, `w`), a trailing bare
/// number counting as seconds. A number too large for `u64` or an empty one
/// is rejected, as is any other character. Strings whose running total would
/// leave `u64` are excluded: on those the reference behaviour is a failed
/// debug assertion, not a result.
pub fn parse_duration_to_seconds(duration: &str) -> (r: Result<u64, String>)
    requires
        duration_fits(duration@, 0, Seq::empty(), 0),
    ensures
        match duration_outcome(duration@) {
            DurationOutcome::Value(v) => r matches Ok(n) && n == v,
            DurationOutcome::BadNumber => r matches Err(e) && e@ == "Invalid number"@,
            DurationOutcome::BadChar => r matches Err(e) && e@
                == "Invalid character in duration string"@,
        },
{
    let n = duration.unicode_len();
    let mut total: u64 = 0;
    let mut cur_val: u64 = 0;
    let mut cur_empty: bool = true;
    let mut cur_over: bool = false;
    let ghost mut cur: Seq<char> = Seq::empty();
    let mut i: usize = 0;
    while i < n
        invariant
            i <= n,
            n == duration@.len(),
            cur_empty == (cur.len() == 0),
            !cur_over ==> cur_val == digits_value(cur),
            cur_over ==> digits_value(cur) > u64::MAX,
            duration_outcome(duration@) == outcome_plus(
                duration_scan(duration@, i as int, cur),
                total as nat,
            ),
            duration_fits(duration@, i as int, cur, total as nat),
        decreases n - i,
    {
        let c = duration.get_char(i);
        if '0' <= c && c <= '9' {
            let d: u64 = (c as u32 - '0' as u32) as u64;
            proof {
                assert(cur.push(c).drop_last() =~= cur);
                assert(cur.push(c).last() == c);
                assert(digits_value(cur.push(c)) == digits_value(cur) * 10 + d);
            }
            if !cur_over {
                match cur_val.checked_mul(10) {
                    Some(m) => match m.checked_add(d) {
                        Some(v) => {
                            cur_val = v;
                        },
                        None => {
                            cur_over = true;
                        },
                    },
                    None => {
                        cur_over = true;
                    },
                }
            }
            proof {
                cur = cur.push(c);
            }
            cur_empty = false;
        } else if c == 's' || c == 'm' || c == 'h' || c == 'd' || c == 'w' {
            if cur_empty || cur_over {
                proof {
                    assert(duration_scan(duration@, i as int, cur)
                        == DurationOutcome::BadNumber);
                }
                return Err("Invalid number".to_string());
            }
            let unit: u64 = if c == 's' {
                1
            } else if c == 'm' {
                60
            } else if c == 'h' {
                3600
            } else if c == 'd' {
                86400
            } else {
                604800
            };
            proof {
                assert(unit == unit_seconds(c));
                assert(total + digits_value(cur) * unit_seconds(c) <= u64::MAX);
            }
            let add = cur_val * unit;
            total = total + add;
            proof {
                let rest = duration_scan(duration@, i + 1, Seq::empty());
                assert(duration_scan(duration@, i as int, cur) == (match rest {
                    DurationOutcome::Value(v) => DurationOutcome::Value(
                        digits_value(cur) * unit_seconds(c) + v,
                    ),
                    e => e,
                }));
                cur = Seq::empty();
            }
            cur_val = 0;
            cur_empty = true;
            cur_over = false;
        } else {
            proof {
                assert(duration_scan(duration@, i as int, cur) == DurationOutcome::BadChar);
            }
            return Err("Invalid character in duration string".to_string());
        }
        i = i + 1;
    }
    if !cur_empty {
        if cur_over {
            return Err("Invalid number".to_string());
        }
        total = total + cur_val;
    }
    Ok(total)
}

} // verus!
