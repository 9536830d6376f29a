use vstd::prelude::*;

verus! {

/// ASCII decimal digit.
pub open spec fn is_digit(b: u8) -> bool {
    0x30 <= b && b <= 0x39
}

pub fn is_digit_exec(b: u8) -> (r: bool)
    ensures
        r == is_digit(b),
{
    0x30 <= b && b <= 0x39
}

pub open spec fn digit_val(b: u8) -> nat
    recommends
        is_digit(b),
{
    if b >= 0x30 {
        (b - 0x30) as nat
    } else {
        0
    }
}

pub open spec fn all_digits(s: Seq<u8>) -> bool {
    forall|i: int| 0 <= i < s.len() ==> is_digit(s[i])
}

/// Value of a run of ASCII digits, most significant first.
pub open spec fn digits_val(s: Seq<u8>) -> nat
    decreases s.len(),
{
    if s.len() == 0 {
        0
    } else {
        digits_val(s.drop_last()) * 10 + digit_val(s.last())
    }
}

/// The decimal digits of `n`: no leading zero, a single `0` for zero.
pub open spec fn dec_digits(n: nat) -> Seq<u8>
    decreases n,
{
    if n < 10 {
        seq![(0x30 + n) as u8]
    } else {
        dec_digits(n / 10).push((0x30 + n % 10) as u8)
    }
}

pub proof fn lemma_dec_digits(n: nat)
    ensures
        dec_digits(n).len() >= 1,
        all_digits(dec_digits(n)),
        digits_val(dec_digits(n)) == n,
        n > 0 ==> dec_digits(n)[0] != 0x30,
    decreases n,
{
    if n < 10 {
        let s = dec_digits(n);
        assert(s.drop_last() =~= Seq::<u8>::empty());
        assert(digits_val(Seq::<u8>::empty()) == 0);
        assert(digits_val(s) == digit_val(s.last()));
    } else {
        lemma_dec_digits(n / 10);
        let s = dec_digits(n);
        assert(s.drop_last() =~= dec_digits(n / 10));
        assert(digits_val(s) == (n / 10) * 10 + n % 10);
        assert((n / 10) * 10 + n % 10 == n) by (nonlinear_arith);
    }
}

pub open spec fn pow10(k: nat) -> nat
    decreases k,
{
    if k == 0 {
        1
    } else {
        10 * pow10((k - 1) as nat)
    }
}

pub proof fn lemma_pow10_add(a: nat, b: nat)
    ensures
        pow10(a + b) == pow10(a) * pow10(b),
    decreases a,
{
    if a == 0 {
        assert(pow10(0 + b) == 1 * pow10(b)) by (nonlinear_arith)
            requires
                pow10(0 + b) == pow10(b),
        ;
    } else {
        lemma_pow10_add((a - 1) as nat, b);
        assert((a - 1) + b == (a + b - 1));
        assert(pow10(a + b) == 10 * pow10(((a - 1) + b) as nat));
        assert(10 * (pow10((a - 1) as nat) * pow10(b)) == (10 * pow10((a - 1) as nat)) * pow10(b))
            by (nonlinear_arith);
    }
}

pub proof fn lemma_pow10_values()
    ensures
        pow10(0) == 1,
        pow10(1) == 10,
        pow10(2) == 100,
        pow10(3) == 1000,
        pow10(4) == 10000,
        pow10(5) == 100000,
        pow10(6) == 1000000,
        pow10(7) == 10000000,
        pow10(8) == 100000000,
        pow10(9) == 1000000000,
{
    assert(pow10(0) == 1);
    assert(pow10(1) == 10);
    assert(pow10(2) == 100);
    assert(pow10(3) == 1000);
    assert(pow10(4) == 10000);
    assert(pow10(5) == 100000);
    assert(pow10(6) == 1000000);
    assert(pow10(7) == 10000000);
    assert(pow10(8) == 100000000);
    assert(pow10(9) == 1000000000);
}

/// Ten to the `k`, executably, for small `k`.
pub fn pow10_exec(k: usize) -> (r: u64)
    requires
        k <= 9,
    ensures
        r as nat == pow10(k as nat),
{
    proof {
        lemma_pow10_values();
    }
    if k == 0 {
        1
    } else if k == 1 {
        10
    } else if k == 2 {
        100
    } else if k == 3 {
        1000
    } else if k == 4 {
        10000
    } else if k == 5 {
        100000
    } else if k == 6 {
        1000000
    } else if k == 7 {
        10000000
    } else if k == 8 {
        100000000
    } else {
        1000000000
    }
}

pub proof fn lemma_digits_val_bound(s: Seq<u8>)
    requires
        all_digits(s),
    ensures
        digits_val(s) < pow10(s.len()),
    decreases s.len(),
{
    if s.len() > 0 {
        assert(all_digits(s.drop_last()));
        lemma_digits_val_bound(s.drop_last());
        assert(digit_val(s.last()) <= 9);
        assert(digits_val(s.drop_last()) * 10 + 9 < pow10(s.len())) by (nonlinear_arith)
            requires
                digits_val(s.drop_last()) < pow10((s.len() - 1) as nat),
                pow10(s.len()) == 10 * pow10((s.len() - 1) as nat),
        ;
    }
}

/// The `w` least-significant decimal digits of `n`, zero padded.
pub open spec fn dec_fixed(n: nat, w: nat) -> Seq<u8>
    decreases w,
{
    if w == 0 {
        Seq::empty()
    } else {
        dec_fixed(n / 10, (w - 1) as nat).push((0x30 + n % 10) as u8)
    }
}

pub proof fn lemma_dec_fixed(n: nat, w: nat)
    ensures
        dec_fixed(n, w).len() == w,
        all_digits(dec_fixed(n, w)),
        n < pow10(w) ==> digits_val(dec_fixed(n, w)) == n,
    decreases w,
{
    if w > 0 {
        lemma_dec_fixed(n / 10, (w - 1) as nat);
        let s = dec_fixed(n, w);
        assert(s.drop_last() =~= dec_fixed(n / 10, (w - 1) as nat));
        if n < pow10(w) {
            assert(n / 10 < pow10((w - 1) as nat) && (n / 10) * 10 + n % 10 == n)
                by (nonlinear_arith)
                requires
                    n < pow10(w),
                    pow10(w) == 10 * pow10((w - 1) as nat),
            ;
        }
    }
}

/// A digit run surrounded as `s[i..j]` all digits and `s[j]` not a digit
/// pins `digit_run_end` down.
pub proof fn lemma_digit_run_end_value(s: Seq<u8>, i: int, j: int)
    requires
        0 <= i <= j <= s.len(),
        forall|k: int| i <= k < j ==> is_digit(s[k]),
        j == s.len() || !is_digit(s[j]),
    ensures
        digit_run_end(s, i) == j,
    decreases j - i,
{
    if i < j {
        lemma_digit_run_end_value(s, i + 1, j);
    }
}

/// Index just past the digit run that starts at `i`.
pub open spec fn digit_run_end(s: Seq<u8>, i: int) -> int
    recommends
        0 <= i <= s.len(),
    decreases s.len() - i,
{
    if i < s.len() && is_digit(s[i]) {
        digit_run_end(s, i + 1)
    } else {
        i
    }
}

pub proof fn lemma_digit_run_end(s: Seq<u8>, i: int)
    requires
        0 <= i <= s.len(),
    ensures
        i <= digit_run_end(s, i) <= s.len(),
        forall|j: int| i <= j < digit_run_end(s, i) ==> is_digit(s[j]),
        digit_run_end(s, i) < s.len() ==> !is_digit(s[digit_run_end(s, i)]),
    decreases s.len() - i,
{
    if i < s.len() && is_digit(s[i]) {
        lemma_digit_run_end(s, i + 1);
    }
}

/// Extending a digit run to the right never lowers its value.
pub proof fn lemma_digits_val_le(s: Seq<u8>, i: int, m: int, j: int)
    requires
        0 <= i <= m <= j <= s.len(),
    ensures
        digits_val(s.subrange(i, m)) <= digits_val(s.subrange(i, j)),
    decreases j - m,
{
    if m < j {
        lemma_digits_val_le(s, i, m, j - 1);
        let t = s.subrange(i, j);
        assert(t.drop_last() =~= s.subrange(i, j - 1));
        assert(digits_val(s.subrange(i, j - 1)) * 10 >= digits_val(s.subrange(i, j - 1)))
            by (nonlinear_arith);
    }
}

pub fn take_digits(s: &[u8], i: usize) -> (j: usize)
    requires
        i <= s@.len(),
    ensures
        j as int == digit_run_end(s@, i as int),
{
    let mut j = i;
    while j < s.len() && is_digit_exec(s[j])
        invariant
            i <= j <= s@.len(),
            digit_run_end(s@, i as int) == digit_run_end(s@, j as int),
        decreases s@.len() - j,
    {
        j = j + 1;
    }
    j
}

/// Reads the decimal value of `s[i..j]`, whose bytes must all be digits;
/// refuses a value that does not fit in a `u64`.
pub fn parse_u64_digits(s: &[u8], i: usize, j: usize) -> (r: Option<u64>)
    requires
        i <= j <= s@.len(),
        forall|k: int| i <= k < j ==> is_digit(s@[k]),
    ensures
        match r {
            Some(v) => v as nat == digits_val(s@.subrange(i as int, j as int)),
            None => digits_val(s@.subrange(i as int, j as int)) > u64::MAX,
        },
{
    let mut val: u64 = 0;
    let mut k = i;
    while k < j
        invariant
            i <= k <= j <= s@.len(),
            forall|m: int| i <= m < j ==> is_digit(s@[m]),
            val as nat == digits_val(s@.subrange(i as int, k as int)),
        decreases j - k,
    {
        let d = s[k] - 0x30;
        if val > (u64::MAX - d as u64) / 10 {
            proof {
                let part = s@.subrange(i as int, k as int + 1);
                assert(part.drop_last() =~= s@.subrange(i as int, k as int));
                assert(part.last() == s@[k as int]);
                assert(digits_val(part) > u64::MAX) by {
                    assert(val as nat * 10 + digit_val(s@[k as int]) > u64::MAX)
                        by (nonlinear_arith)
                        requires
                            val > (u64::MAX - digit_val(s@[k as int])) / 10,
                            digit_val(s@[k as int]) <= 9,
                    ;
                }
                lemma_digits_val_le(s@, i as int, k as int + 1, j as int);
            }
            return None;
        }
        proof {
            let part = s@.subrange(i as int, k as int + 1);
            assert(part.drop_last() =~= s@.subrange(i as int, k as int));
            assert(part.last() == s@[k as int]);
            assert(val as nat * 10 + digit_val(s@[k as int]) <= u64::MAX)
                by (nonlinear_arith)
                requires
                    val <= (u64::MAX - digit_val(s@[k as int])) / 10,
                    digit_val(s@[k as int]) <= 9,
            ;
        }
        val = val * 10 + d as u64;
        k = k + 1;
    }
    proof {
        assert(s@.subrange(i as int, k as int) =~= s@.subrange(i as int, j as int));
    }
    Some(val)
}

/// The decimal digits of `n`, as executable bytes.
pub fn u64_to_dec(n: u64) -> (v: Vec<u8>)
    ensures
        v@ == dec_digits(n as nat),
    decreases n,
{
    if n < 10 {
        let mut v: Vec<u8> = Vec::new();
        v.push(0x30 + n as u8);
        proof {
            assert(v@ =~= dec_digits(n as nat));
        }
        v
    } else {
        let mut v = u64_to_dec(n / 10);
        v.push(0x30 + (n % 10) as u8);
        proof {
            assert(v@ =~= dec_digits(n as nat));
        }
        v
    }
}

/// Copies `s[i..j]` into a fresh buffer.
pub fn copy_subrange(s: &[u8], i: usize, j: usize) -> (v: Vec<u8>)
    requires
        i <= j <= s@.len(),
    ensures
        v@ == s@.subrange(i as int, j as int),
{
    let mut v: Vec<u8> = Vec::new();
    let mut k = i;
    while k < j
        invariant
            i <= k <= j <= s@.len(),
            v@ == s@.subrange(i as int, k as int),
        decreases j - k,
    {
        v.push(s[k]);
        k = k + 1;
        proof {
            assert(v@ =~= s@.subrange(i as int, k as int));
        }
    }
    v
}

/// Byte-for-byte equality of two slices.
pub fn bytes_eq(a: &[u8], b: &[u8]) -> (r: bool)
    ensures
        r == (a@ == b@),
{
    if a.len() != b.len() {
        return false;
    }
    let mut k: usize = 0;
    while k < a.len()
        invariant
            0 <= k <= a@.len(),
            a@.len() == b@.len(),
            forall|m: int| 0 <= m < k ==> a@[m] == b@[m],
        decreases a@.len() - k,
    {
        if a[k] != b[k] {
            return false;
        }
        k = k + 1;
    }
    proof {
        assert(a@ =~= b@);
    }
    true
}

} // verus!
