//! Reading the structured-syslog timestamp profile: a date-time such as
//! `2021-10-11T22:14:15.003Z`, with an optional fraction and either `Z` or
//! a numeric offset, turned into seconds since the Unix epoch.
//!
//! Instants before the epoch are refused; years run to 9999.

use vstd::prelude::*;

use crate::bytes::{digit_run_end, digits_val, is_digit, lemma_digit_run_end, lemma_digits_val_bound,
    lemma_pow10_values, parse_u64_digits, pow10, pow10_exec, take_digits};
use crate::gelf::lemma_nanos_bound;
use crate::record::Timestamp;

verus! {

pub open spec fn is_leap(y: nat) -> bool {
    y % 4 == 0 && (y % 100 != 0 || y % 400 == 0)
}

/// Leap years strictly before year `y`, counted from year 1.
pub open spec fn leaps_before(y: nat) -> nat
    recommends
        y >= 1,
{
    ((y - 1) / 4 - (y - 1) / 100 + (y - 1) / 400) as nat
}

/// Days in the given month.
pub open spec fn days_in_month(y: nat, m: nat) -> nat
    recommends
        1 <= m <= 12,
{
    if m == 2 {
        if is_leap(y) {
            29
        } else {
            28
        }
    } else if m == 4 || m == 6 || m == 9 || m == 11 {
        30
    } else {
        31
    }
}

/// Days in the months before `m` in year `y`.
pub open spec fn cum_days(y: nat, m: nat) -> nat
    recommends
        1 <= m <= 12,
{
    let leap: nat = if is_leap(y) {
        1
    } else {
        0
    };
    if m <= 1 {
        0
    } else if m == 2 {
        31
    } else if m == 3 {
        59 + leap
    } else if m == 4 {
        90 + leap
    } else if m == 5 {
        120 + leap
    } else if m == 6 {
        151 + leap
    } else if m == 7 {
        181 + leap
    } else if m == 8 {
        212 + leap
    } else if m == 9 {
        243 + leap
    } else if m == 10 {
        273 + leap
    } else if m == 11 {
        304 + leap
    } else {
        334 + leap
    }
}

/// Days from 1970-01-01 to the given date.
pub open spec fn days_from_civil(y: nat, m: nat, d: nat) -> nat
    recommends
        1970 <= y,
        1 <= m <= 12,
        1 <= d <= days_in_month(y, m),
{
    ((y - 1970) * 365 + (leaps_before(y) - leaps_before(1970)) + cum_days(y, m) + (d - 1)) as nat
}

/// The instant an RFC 3339 date-time token denotes, if the token is well
/// formed, the fields are in range, and the instant is not before the
/// epoch.
pub open spec fn spec_rfc3339(t: Seq<u8>) -> Option<Timestamp> {
    if t.len() >= 20 && is_digit(t[0]) && is_digit(t[1]) && is_digit(t[2]) && is_digit(t[3]) && t[4]
        == 0x2d && is_digit(t[5]) && is_digit(t[6]) && t[7] == 0x2d && is_digit(t[8]) && is_digit(
        t[9],
    ) && t[10] == 0x54 && is_digit(t[11]) && is_digit(t[12]) && t[13] == 0x3a && is_digit(t[14])
        && is_digit(t[15]) && t[16] == 0x3a && is_digit(t[17]) && is_digit(t[18]) {
        let y = digits_val(t.subrange(0, 4));
        let mo = digits_val(t.subrange(5, 7));
        let d = digits_val(t.subrange(8, 10));
        let h = digits_val(t.subrange(11, 13));
        let mi = digits_val(t.subrange(14, 16));
        let sec = digits_val(t.subrange(17, 19));
        if 1970 <= y && 1 <= mo <= 12 && 1 <= d <= days_in_month(y, mo) && h <= 23 && mi <= 59
            && sec <= 59 {
            let fe: int = if t[19] == 0x2e {
                digit_run_end(t, 20)
            } else {
                19
            };
            if fe > 20 || t[19] != 0x2e {
                let nanos: nat = if t[19] == 0x2e {
                    let fr = t.subrange(20, fe);
                    let take: int = if fr.len() >= 9 {
                        9
                    } else {
                        fr.len() as int
                    };
                    digits_val(fr.take(take)) * pow10((9 - take) as nat)
                } else {
                    0
                };
                let local = days_from_civil(y, mo, d) * 86400 + h * 3600 + mi * 60 + sec;
                if fe == t.len() - 1 && t[fe] == 0x5a {
                    Option::Some(
                        Timestamp { neg: false, sec: local as u64, nanos: nanos as u32 },
                    )
                } else if fe == t.len() - 6 && (t[fe] == 0x2b || t[fe] == 0x2d) && is_digit(
                    t[fe + 1],
                ) && is_digit(t[fe + 2]) && t[fe + 3] == 0x3a && is_digit(t[fe + 4]) && is_digit(
                    t[fe + 5],
                ) {
                    let oh = digits_val(t.subrange(fe + 1, fe + 3));
                    let om = digits_val(t.subrange(fe + 4, fe + 6));
                    if oh <= 23 && om <= 59 {
                        let off = (oh * 60 + om) * 60;
                        if t[fe] == 0x2b {
                            if local >= off {
                                Option::Some(
                                    Timestamp {
                                        neg: false,
                                        sec: (local - off) as u64,
                                        nanos: nanos as u32,
                                    },
                                )
                            } else {
                                Option::None
                            }
                        } else {
                            Option::Some(
                                Timestamp {
                                    neg: false,
                                    sec: (local + off) as u64,
                                    nanos: nanos as u32,
                                },
                            )
                        }
                    } else {
                        Option::None
                    }
                } else {
                    Option::None
                }
            } else {
                Option::None
            }
        } else {
            Option::None
        }
    } else {
        Option::None
    }
}

/// The whole-second part of a well-formed date-time stays small.
pub proof fn lemma_civil_bounds(y: nat, mo: nat, d: nat)
    requires
        1970 <= y < 10000,
        1 <= mo <= 12,
        1 <= d <= days_in_month(y, mo),
    ensures
        days_from_civil(y, mo, d) < 3_000_000,
        leaps_before(y) >= leaps_before(1970),
{
    assert(leaps_before(1970) == 477);
    assert(leaps_before(y) == ((y - 1) / 4 - (y - 1) / 100 + (y - 1) / 400) as nat);
    assert((y - 1) / 100 <= (y - 1) / 4) by (nonlinear_arith)
        requires
            y >= 1,
    ;
    assert((y - 1) / 4 >= 492) by (nonlinear_arith)
        requires
            y >= 1970,
    ;
    assert((y - 1) / 100 >= (y - 1) / 400) by (nonlinear_arith)
        requires
            y >= 1,
    ;
    assert(leaps_before(y) >= (y - 1) / 400 + 492 - 19);
    assert((y - 1) / 4 < 2500) by (nonlinear_arith)
        requires
            y < 10000,
    ;
    assert(leaps_before(y) <= (y - 1) / 4 + (y - 1) / 400);
    assert((y - 1) / 400 <= 25) by (nonlinear_arith)
        requires
            y < 10000,
    ;
    assert((y - 1970) * 365 <= 8030 * 365) by (nonlinear_arith)
        requires
            y < 10000,
    ;
}

/// Reads an RFC 3339 date-time token.
#[verifier::rlimit(100)]
pub fn parse_rfc3339(t: &[u8]) -> (r: Option<Timestamp>)
    ensures
        r == spec_rfc3339(t@),
        match r {
            Some(ts) => ts.valid(),
            None => true,
        },
{
    if !(t.len() >= 20) {
        return None;
    }
    let digits_ok = is_dig(t, 0) && is_dig(t, 1) && is_dig(t, 2) && is_dig(t, 3) && t[4] == 0x2d
        && is_dig(t, 5) && is_dig(t, 6) && t[7] == 0x2d && is_dig(t, 8) && is_dig(t, 9) && t[10]
        == 0x54 && is_dig(t, 11) && is_dig(t, 12) && t[13] == 0x3a && is_dig(t, 14) && is_dig(t, 15)
        && t[16] == 0x3a && is_dig(t, 17) && is_dig(t, 18);
    if !digits_ok {
        return None;
    }
    let y = small_val(t, 0, 4);
    let mo = small_val(t, 5, 7);
    let d = small_val(t, 8, 10);
    let h = small_val(t, 11, 13);
    let mi = small_val(t, 14, 16);
    let sec = small_val(t, 17, 19);
    let dim = days_in_month_exec(y, mo);
    if !(1970 <= y && 1 <= mo && mo <= 12 && 1 <= d && d <= dim && h <= 23 && mi <= 59 && sec
        <= 59) {
        return None;
    }
    let fe: usize = if t[19] == 0x2e {
        take_digits(t, 20)
    } else {
        19
    };
    proof {
        if t@[19] == 0x2e {
            lemma_digit_run_end(t@, 20);
        }
    }
    if !(fe > 20 || t[19] != 0x2e) {
        return None;
    }
    let take: usize = if t[19] == 0x2e {
        let fl = fe - 20;
        if fl >= 9 {
            9
        } else {
            fl
        }
    } else {
        0
    };
    let nine = if t[19] == 0x2e {
        match parse_u64_digits(t, 20, 20 + take) {
            Some(v) => v,
            None => {
                proof {
                    lemma_digits_val_bound(t@.subrange(20, 20 + take as int));
                    lemma_pow10_values();
                    if (take as int) < 9 {
                        crate::bytes::lemma_pow10_add(take as nat, (9 - take) as nat);
                        assert(pow10(take as nat) <= pow10(9)) by (nonlinear_arith)
                            requires
                                pow10(9) == pow10(take as nat) * pow10((9 - take) as nat),
                                pow10((9 - take) as nat) >= 1,
                                pow10(take as nat) >= 0,
                        ;
                    }
                    assert(false);
                }
                0
            },
        }
    } else {
        0
    };
    proof {
        if t@[19] == 0x2e {
            let fr = t@.subrange(20, fe as int);
            assert(fr.take(take as int) =~= t@.subrange(20, 20 + take as int));
            lemma_nanos_bound(fr, take as int);
        }
    }
    let scale = pow10_exec(9 - take);
    let nanos64 = if t[19] == 0x2e {
        nine * scale
    } else {
        0
    };
    let nanos = nanos64 as u32;
    let days = days_from_civil_exec(y, mo, d);
    let local: u64 = days * 86400 + (h as u64) * 3600 + (mi as u64) * 60 + sec as u64;
    if fe == t.len() - 1 && t[fe] == 0x5a {
        return Some(Timestamp { neg: false, sec: local, nanos });
    }
    if t.len() >= 6 && fe == t.len() - 6 && (t[fe] == 0x2b || t[fe] == 0x2d) && is_dig(t, fe + 1)
        && is_dig(t, fe + 2) && t[fe + 3] == 0x3a && is_dig(t, fe + 4) && is_dig(t, fe + 5) {
        let oh = small_val(t, fe + 1, fe + 3);
        let om = small_val(t, fe + 4, fe + 6);
        if oh <= 23 && om <= 59 {
            let off: u64 = (oh as u64 * 60 + om as u64) * 60;
            if t[fe] == 0x2b {
                if local >= off {
                    return Some(Timestamp { neg: false, sec: local - off, nanos });
                } else {
                    return None;
                }
            } else {
                return Some(Timestamp { neg: false, sec: local + off, nanos });
            }
        } else {
            return None;
        }
    }
    None
}

fn is_dig(t: &[u8], i: usize) -> (r: bool)
    requires
        i < t@.len(),
    ensures
        r == is_digit(t@[i as int]),
{
    0x30 <= t[i] && t[i] <= 0x39
}

/// The value of a short digit run `t[i..j]`, at most four digits.
fn small_val(t: &[u8], i: usize, j: usize) -> (v: u32)
    requires
        i <= j <= t@.len(),
        j - i <= 4,
        forall|k: int| i <= k < j ==> is_digit(t@[k]),
    ensures
        v as nat == digits_val(t@.subrange(i as int, j as int)),
        v < 10000,
{
    proof {
        lemma_digits_val_bound(t@.subrange(i as int, j as int));
        lemma_pow10_values();
        if ((j - i) as int) < 4 {
            crate::bytes::lemma_pow10_add((j - i) as nat, (4 - (j - i)) as nat);
            assert(pow10((j - i) as nat) <= pow10(4)) by (nonlinear_arith)
                requires
                    pow10(4) == pow10((j - i) as nat) * pow10((4 - (j - i)) as nat),
                    pow10((4 - (j - i)) as nat) >= 1,
                    pow10((j - i) as nat) >= 0,
            ;
        }
    }
    match parse_u64_digits(t, i, j) {
        Some(v) => v as u32,
        None => {
            proof {
                assert(false);
            }
            0
        },
    }
}

fn days_in_month_exec(y: u32, m: u32) -> (r: u32)
    ensures
        r as nat == days_in_month(y as nat, m as nat),
{
    if m == 2 {
        if y % 4 == 0 && (y % 100 != 0 || y % 400 == 0) {
            29
        } else {
            28
        }
    } else if m == 4 || m == 6 || m == 9 || m == 11 {
        30
    } else {
        31
    }
}

#[verifier::rlimit(60)]
fn days_from_civil_exec(y: u32, m: u32, d: u32) -> (r: u64)
    requires
        1970 <= y < 10000,
        1 <= m <= 12,
        1 <= d,
        d as nat <= days_in_month(y as nat, m as nat),
    ensures
        r as nat == days_from_civil(y as nat, m as nat, d as nat),
        r < 3_000_000,
{
    proof {
        lemma_civil_bounds(y as nat, m as nat, d as nat);
    }
    let leaps_y: u64 = ((y as u64 - 1) / 4 - (y as u64 - 1) / 100 + (y as u64 - 1) / 400);
    let leap: u64 = if y % 4 == 0 && (y % 100 != 0 || y % 400 == 0) {
        1
    } else {
        0
    };
    let cum: u64 = if m <= 1 {
        0
    } else if m == 2 {
        31
    } else if m == 3 {
        59 + leap
    } else if m == 4 {
        90 + leap
    } else if m == 5 {
        120 + leap
    } else if m == 6 {
        151 + leap
    } else if m == 7 {
        181 + leap
    } else if m == 8 {
        212 + leap
    } else if m == 9 {
        243 + leap
    } else if m == 10 {
        273 + leap
    } else if m == 11 {
        304 + leap
    } else {
        334 + leap
    };
    (y as u64 - 1970) * 365 + (leaps_y - 477) + cum + (d as u64 - 1)
}

} // verus!
