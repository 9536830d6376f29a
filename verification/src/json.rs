//! A small JSON reader and writer for the log-envelope format.
//!
//! Text is handled as UTF-8 bytes. A document is one object whose member
//! values are strings, numbers, `true`, `false` or `null`; nested objects
//! and arrays are refused, numbers keep their exact source text, and the
//! only unicode escapes accepted are `\u00XX` for ASCII code points.

use vstd::prelude::*;

use crate::bytes::{digit_run_end, is_digit, is_digit_exec, lemma_digit_run_end, take_digits};
use crate::record::{fields_view, FieldValue, FieldValueModel};

verus! {

// ---------------------------------------------------------------- whitespace

pub open spec fn is_ws(b: u8) -> bool {
    b == 0x20 || b == 0x09 || b == 0x0a || b == 0x0d
}

/// First position at or after `i` that is not JSON whitespace.
pub open spec fn ws_end(s: Seq<u8>, i: int) -> int
    recommends
        0 <= i <= s.len(),
    decreases s.len() - i,
{
    if i < s.len() && is_ws(s[i]) {
        ws_end(s, i + 1)
    } else {
        i
    }
}

pub proof fn lemma_ws_end(s: Seq<u8>, i: int)
    requires
        0 <= i <= s.len(),
    ensures
        i <= ws_end(s, i) <= s.len(),
    decreases s.len() - i,
{
    if i < s.len() && is_ws(s[i]) {
        lemma_ws_end(s, i + 1);
    }
}

pub fn take_ws(s: &[u8], i: usize) -> (j: usize)
    requires
        i <= s@.len(),
    ensures
        j as int == ws_end(s@, i as int),
        i <= j <= s@.len(),
{
    let mut j = i;
    while j < s.len() && (s[j] == 0x20 || s[j] == 0x09 || s[j] == 0x0a || s[j] == 0x0d)
        invariant
            i <= j <= s@.len(),
            ws_end(s@, i as int) == ws_end(s@, j as int),
        decreases s@.len() - j,
    {
        j = j + 1;
    }
    j
}

// ------------------------------------------------------------------ strings

pub open spec fn hex_digit(n: nat) -> u8
    recommends
        n < 16,
{
    if n < 10 {
        (0x30 + n) as u8
    } else {
        (0x57 + n) as u8
    }
}

pub open spec fn is_hex(b: u8) -> bool {
    is_digit(b) || (0x61 <= b && b <= 0x66) || (0x41 <= b && b <= 0x46)
}

pub open spec fn hex_val(b: u8) -> nat
    recommends
        is_hex(b),
{
    if is_digit(b) {
        (b - 0x30) as nat
    } else if 0x61 <= b && b <= 0x66 {
        (b - 0x57) as nat
    } else if 0x41 <= b && b <= 0x46 {
        (b - 0x37) as nat
    } else {
        0
    }
}

/// Shorthand escapes: the byte each stands for.
pub open spec fn unescape_short(e: u8) -> Option<u8> {
    if e == 0x22 {
        Option::Some(0x22u8)
    } else if e == 0x5c {
        Option::Some(0x5cu8)
    } else if e == 0x2f {
        Option::Some(0x2fu8)
    } else if e == 0x62 {
        Option::Some(0x08u8)
    } else if e == 0x66 {
        Option::Some(0x0cu8)
    } else if e == 0x6e {
        Option::Some(0x0au8)
    } else if e == 0x72 {
        Option::Some(0x0du8)
    } else if e == 0x74 {
        Option::Some(0x09u8)
    } else {
        Option::None
    }
}

pub fn unescape_short_exec(e: u8) -> (r: Option<u8>)
    ensures
        r == unescape_short(e),
{
    if e == 0x22 {
        Some(0x22)
    } else if e == 0x5c {
        Some(0x5c)
    } else if e == 0x2f {
        Some(0x2f)
    } else if e == 0x62 {
        Some(0x08)
    } else if e == 0x66 {
        Some(0x0c)
    } else if e == 0x6e {
        Some(0x0a)
    } else if e == 0x72 {
        Some(0x0d)
    } else if e == 0x74 {
        Some(0x09)
    } else {
        None
    }
}

/// How one byte is written inside a JSON string literal.
pub open spec fn esc_byte(b: u8) -> Seq<u8> {
    if b == 0x22 {
        seq![0x5cu8, 0x22u8]
    } else if b == 0x5c {
        seq![0x5cu8, 0x5cu8]
    } else if b == 0x08 {
        seq![0x5cu8, 0x62u8]
    } else if b == 0x0c {
        seq![0x5cu8, 0x66u8]
    } else if b == 0x0a {
        seq![0x5cu8, 0x6eu8]
    } else if b == 0x0d {
        seq![0x5cu8, 0x72u8]
    } else if b == 0x09 {
        seq![0x5cu8, 0x74u8]
    } else if b < 0x20 {
        seq![0x5cu8, 0x75u8, 0x30u8, 0x30u8, hex_digit((b >> 4) as nat), hex_digit((b & 0x0f) as nat)]
    } else {
        seq![b]
    }
}

/// A whole byte string, escaped.
pub open spec fn esc_bytes(s: Seq<u8>) -> Seq<u8>
    decreases s.len(),
{
    if s.len() == 0 {
        Seq::empty()
    } else {
        esc_byte(s[0]) + esc_bytes(s.skip(1))
    }
}

pub proof fn lemma_esc_bytes_push(s: Seq<u8>, b: u8)
    ensures
        esc_bytes(s.push(b)) == esc_bytes(s) + esc_byte(b),
    decreases s.len(),
{
    if s.len() == 0 {
        assert(s.push(b)[0] == b);
        assert(s.push(b).skip(1) =~= Seq::<u8>::empty());
        assert(esc_bytes(s.push(b)) == esc_byte(b) + esc_bytes(Seq::<u8>::empty()));
        assert(esc_bytes(s.push(b)) =~= esc_bytes(s) + esc_byte(b));
    } else {
        assert(s.push(b)[0] == s[0]);
        assert(s.push(b).skip(1) =~= s.skip(1).push(b));
        lemma_esc_bytes_push(s.skip(1), b);
        assert(esc_bytes(s.push(b)) =~= esc_bytes(s) + esc_byte(b));
    }
}

/// Appends the escaped form of `s` to `out`.
pub fn append_escaped(out: &mut Vec<u8>, s: &[u8])
    ensures
        final(out)@ == old(out)@ + esc_bytes(s@),
{
    let mut i: usize = 0;
    proof {
        assert(s@.take(0) =~= Seq::<u8>::empty());
        assert(out@ =~= out@ + esc_bytes(s@.take(0)));
    }
    while i < s.len()
        invariant
            i <= s@.len(),
            out@ == old(out)@ + esc_bytes(s@.take(i as int)),
        decreases s@.len() - i,
    {
        let b = s[i];
        if b == 0x22 {
            out.push(0x5c);
            out.push(0x22);
        } else if b == 0x5c {
            out.push(0x5c);
            out.push(0x5c);
        } else if b == 0x08 {
            out.push(0x5c);
            out.push(0x62);
        } else if b == 0x0c {
            out.push(0x5c);
            out.push(0x66);
        } else if b == 0x0a {
            out.push(0x5c);
            out.push(0x6e);
        } else if b == 0x0d {
            out.push(0x5c);
            out.push(0x72);
        } else if b == 0x09 {
            out.push(0x5c);
            out.push(0x74);
        } else if b < 0x20 {
            proof {
                assert((b >> 4) < 16 && (b & 0x0f) < 16) by (bit_vector);
            }
            out.push(0x5c);
            out.push(0x75);
            out.push(0x30);
            out.push(0x30);
            let hi = b >> 4;
            let lo = b & 0x0f;
            out.push(if hi < 10 { 0x30 + hi } else { 0x57 + hi });
            out.push(if lo < 10 { 0x30 + lo } else { 0x57 + lo });
        } else {
            out.push(b);
        }
        proof {
            lemma_esc_bytes_push(s@.take(i as int), b);
            assert(s@.take(i as int).push(b) =~= s@.take(i as int + 1));
            assert(out@ =~= old(out)@ + esc_bytes(s@.take(i as int + 1)));
        }
        i = i + 1;
    }
    proof {
        assert(s@.take(s@.len() as int) =~= s@);
    }
}

/// Reads a string-literal body starting just after the opening quote:
/// the unescaped bytes and the position just past the closing quote.
pub open spec fn spec_parse_string_body(s: Seq<u8>, i: int) -> Option<(Seq<u8>, int)>
    recommends
        0 <= i,
    decreases s.len() - i,
    when 0 <= i <= s.len()
{
    if i >= s.len() {
        Option::None
    } else if s[i] == 0x22 {
        Option::Some((Seq::empty(), i + 1))
    } else if s[i] == 0x5c {
        if i + 1 >= s.len() {
            Option::None
        } else if s[i + 1] == 0x75 {
            if i + 6 <= s.len() && is_hex(s[i + 2]) && is_hex(s[i + 3]) && is_hex(s[i + 4])
                && is_hex(s[i + 5]) && s[i + 2] == 0x30 && s[i + 3] == 0x30 && hex_val(s[i + 4])
                * 16 + hex_val(s[i + 5]) < 0x80 {
                match spec_parse_string_body(s, i + 6) {
                    Option::Some((t, j)) => Option::Some(
                        (seq![(hex_val(s[i + 4]) * 16 + hex_val(s[i + 5])) as u8] + t, j),
                    ),
                    Option::None => Option::None,
                }
            } else {
                Option::None
            }
        } else {
            match unescape_short(s[i + 1]) {
                Option::Some(b) => match spec_parse_string_body(s, i + 2) {
                    Option::Some((t, j)) => Option::Some((seq![b] + t, j)),
                    Option::None => Option::None,
                },
                Option::None => Option::None,
            }
        }
    } else if s[i] < 0x20 {
        Option::None
    } else {
        match spec_parse_string_body(s, i + 1) {
            Option::Some((t, j)) => Option::Some((seq![s[i]] + t, j)),
            Option::None => Option::None,
        }
    }
}

pub proof fn lemma_parse_string_body_bounds(s: Seq<u8>, i: int)
    requires
        0 <= i <= s.len(),
    ensures
        match spec_parse_string_body(s, i) {
            Option::Some((t, j)) => i < j <= s.len(),
            Option::None => true,
        },
    decreases s.len() - i,
{
    if i < s.len() {
        if s[i] == 0x5c {
            if i + 1 < s.len() {
                if s[i + 1] == 0x75 {
                    if i + 6 <= s.len() {
                        lemma_parse_string_body_bounds(s, i + 6);
                    }
                } else {
                    if i + 2 <= s.len() {
                        lemma_parse_string_body_bounds(s, i + 2);
                    }
                }
            }
        } else if s[i] != 0x22 && s[i] >= 0x20 {
            lemma_parse_string_body_bounds(s, i + 1);
        }
    }
}

/// Reads a string-literal body; `pos` is just after the opening quote.
pub fn parse_string_body(s: &[u8], pos: usize) -> (r: Option<(Vec<u8>, usize)>)
    requires
        pos <= s@.len(),
    ensures
        match r {
            Some(p) => spec_parse_string_body(s@, pos as int) == Option::Some((p.0@, p.1 as int))
                && pos < p.1 <= s@.len(),
            None => spec_parse_string_body(s@, pos as int) == Option::<(Seq<u8>, int)>::None,
        },
{
    let mut acc: Vec<u8> = Vec::new();
    let mut i = pos;
    loop
        invariant
            pos <= i <= s@.len(),
            spec_parse_string_body(s@, pos as int) == (match spec_parse_string_body(
                s@,
                i as int,
            ) {
                Option::Some((t, j)) => Option::Some((acc@ + t, j)),
                Option::None => Option::<(Seq<u8>, int)>::None,
            }),
        decreases s@.len() - i,
    {
        proof {
            lemma_parse_string_body_bounds(s@, pos as int);
            lemma_parse_string_body_bounds(s@, i as int);
        }
        if i >= s.len() {
            return None;
        }
        let b = s[i];
        if b == 0x22 {
            proof {
                assert(acc@ + Seq::<u8>::empty() =~= acc@);
            }
            return Some((acc, i + 1));
        } else if b == 0x5c {
            if i + 1 >= s.len() {
                return None;
            }
            let e = s[i + 1];
            if e == 0x75 {
                if s.len() - i >= 6 {
                    let h0 = s[i + 2];
                    let h1 = s[i + 3];
                    let h2 = s[i + 4];
                    let h3 = s[i + 5];
                    let hex_ok = is_hex_exec(h0) && is_hex_exec(h1) && is_hex_exec(h2)
                        && is_hex_exec(h3);
                    if hex_ok && h0 == 0x30 && h1 == 0x30 {
                        let v = hex_val_exec(h2) * 16 + hex_val_exec(h3);
                        if v < 0x80 {
                            let ghost prev = acc@;
                            acc.push(v as u8);
                            proof {
                                if spec_parse_string_body(s@, i as int + 6) is Some {
                                    let (t, j) = spec_parse_string_body(s@, i as int + 6)->Some_0;
                                    assert(prev + (seq![v as u8] + t) =~= acc@ + t);
                                }
                            }
                            i = i + 6;
                        } else {
                            return None;
                        }
                    } else {
                        return None;
                    }
                } else {
                    return None;
                }
            } else {
                match unescape_short_exec(e) {
                    Some(u) => {
                        let ghost prev = acc@;
                        acc.push(u);
                        proof {
                            if spec_parse_string_body(s@, i as int + 2) is Some {
                                let (t, j) = spec_parse_string_body(s@, i as int + 2)->Some_0;
                                assert(prev + (seq![u] + t) =~= acc@ + t);
                            }
                        }
                        i = i + 2;
                    },
                    None => {
                        return None;
                    },
                }
            }
        } else if b < 0x20 {
            return None;
        } else {
            let ghost prev = acc@;
            acc.push(b);
            proof {
                if spec_parse_string_body(s@, i as int + 1) is Some {
                    let (t, j) = spec_parse_string_body(s@, i as int + 1)->Some_0;
                    assert(prev + (seq![b] + t) =~= acc@ + t);
                }
            }
            i = i + 1;
        }
    }
}

// ------------------------------------------------------------------ numbers

/// End of the integer part at `i` (`0`, or a nonzero digit run).
pub open spec fn int_end(s: Seq<u8>, i: int) -> Option<int>
    recommends
        0 <= i <= s.len(),
{
    if i < s.len() && is_digit(s[i]) {
        if s[i] == 0x30 {
            if i + 1 < s.len() && is_digit(s[i + 1]) {
                Option::None
            } else {
                Option::Some(i + 1)
            }
        } else {
            Option::Some(digit_run_end(s, i))
        }
    } else {
        Option::None
    }
}

/// End of the optional fraction part at `ie`.
pub open spec fn frac_end(s: Seq<u8>, ie: int) -> Option<int>
    recommends
        0 <= ie <= s.len(),
{
    if ie < s.len() && s[ie] == 0x2e {
        let d = digit_run_end(s, ie + 1);
        if d == ie + 1 {
            Option::None
        } else {
            Option::Some(d)
        }
    } else {
        Option::Some(ie)
    }
}

/// End of the optional exponent part at `fe`.
pub open spec fn exp_end(s: Seq<u8>, fe: int) -> Option<int>
    recommends
        0 <= fe <= s.len(),
{
    if fe < s.len() && (s[fe] == 0x65 || s[fe] == 0x45) {
        let q = if fe + 1 < s.len() && (s[fe + 1] == 0x2b || s[fe + 1] == 0x2d) {
            fe + 2
        } else {
            fe + 1
        };
        let d = digit_run_end(s, q);
        if d == q {
            Option::None
        } else {
            Option::Some(d)
        }
    } else {
        Option::Some(fe)
    }
}

/// End of the JSON number that starts at `i`, if one does.
pub open spec fn spec_number_end(s: Seq<u8>, i: int) -> Option<int>
    recommends
        0 <= i <= s.len(),
{
    let p = if i < s.len() && s[i] == 0x2d {
        i + 1
    } else {
        i
    };
    match int_end(s, p) {
        Option::Some(ie) => match frac_end(s, ie) {
            Option::Some(fe) => exp_end(s, fe),
            Option::None => Option::None,
        },
        Option::None => Option::None,
    }
}

/// `t` is exactly one JSON number.
pub open spec fn is_json_number(t: Seq<u8>) -> bool {
    spec_number_end(t, 0) == Option::Some(t.len() as int)
}

pub proof fn lemma_number_end_bounds(s: Seq<u8>, i: int)
    requires
        0 <= i <= s.len(),
    ensures
        match spec_number_end(s, i) {
            Option::Some(e) => i < e <= s.len(),
            Option::None => true,
        },
{
    let p = if i < s.len() && s[i] == 0x2d {
        i + 1
    } else {
        i
    };
    if p < s.len() && is_digit(s[p]) {
        lemma_digit_run_end(s, p);
        if int_end(s, p) is Some {
            let ie = int_end(s, p)->Some_0;
            assert(p < ie <= s.len());
            if ie < s.len() && s[ie] == 0x2e {
                lemma_digit_run_end(s, ie + 1);
            }
            if frac_end(s, ie) is Some {
                let fe = frac_end(s, ie)->Some_0;
                if fe < s.len() && (s[fe] == 0x65 || s[fe] == 0x45) {
                    let q = if fe + 1 < s.len() && (s[fe + 1] == 0x2b || s[fe + 1] == 0x2d) {
                        fe + 2
                    } else {
                        fe + 1
                    };
                    if q <= s.len() {
                        lemma_digit_run_end(s, q);
                    }
                }
            }
        }
    }
}

/// Finds the end of the JSON number starting at `pos`.
pub fn number_end(s: &[u8], pos: usize) -> (r: Option<usize>)
    requires
        pos <= s@.len(),
    ensures
        match r {
            Some(e) => spec_number_end(s@, pos as int) == Option::Some(e as int) && pos < e
                <= s@.len(),
            None => spec_number_end(s@, pos as int) == Option::<int>::None,
        },
{
    proof {
        lemma_number_end_bounds(s@, pos as int);
    }
    let p = if pos < s.len() && s[pos] == 0x2d {
        pos + 1
    } else {
        pos
    };
    if !(p < s.len() && is_digit_exec(s[p])) {
        return None;
    }
    let ie = if s[p] == 0x30 {
        if p + 1 < s.len() && is_digit_exec(s[p + 1]) {
            return None;
        }
        p + 1
    } else {
        take_digits(s, p)
    };
    proof {
        lemma_digit_run_end(s@, p as int);
    }
    let fe = if ie < s.len() && s[ie] == 0x2e {
        let d = take_digits(s, ie + 1);
        if d == ie + 1 {
            return None;
        }
        d
    } else {
        ie
    };
    proof {
        if (ie as int) < s@.len() && s@[ie as int] == 0x2e {
            lemma_digit_run_end(s@, ie as int + 1);
        }
    }
    let ee = if fe < s.len() && (s[fe] == 0x65 || s[fe] == 0x45) {
        let q = if fe + 1 < s.len() && (s[fe + 1] == 0x2b || s[fe + 1] == 0x2d) {
            fe + 2
        } else {
            fe + 1
        };
        let d = take_digits(s, q);
        if d == q {
            return None;
        }
        d
    } else {
        fe
    };
    Some(ee)
}

/// Checks that `t` is exactly one JSON number.
pub fn is_json_number_exec(t: &[u8]) -> (r: bool)
    ensures
        r == is_json_number(t@),
{
    match number_end(t, 0) {
        Some(e) => e == t.len(),
        None => false,
    }
}

// ------------------------------------------------------------------- values

/// One member value: a string, number, `true`, `false` or `null`.
pub open spec fn spec_parse_value(s: Seq<u8>, i: int) -> Option<(FieldValueModel, int)>
    recommends
        0 <= i <= s.len(),
{
    if i >= s.len() {
        Option::None
    } else if s[i] == 0x22 {
        match spec_parse_string_body(s, i + 1) {
            Option::Some((t, j)) => Option::Some((FieldValueModel::Str(t), j)),
            Option::None => Option::None,
        }
    } else if s[i] == 0x74 {
        if i + 4 <= s.len() && s[i + 1] == 0x72 && s[i + 2] == 0x75 && s[i + 3] == 0x65 {
            Option::Some((FieldValueModel::Bool(true), i + 4))
        } else {
            Option::None
        }
    } else if s[i] == 0x66 {
        if i + 5 <= s.len() && s[i + 1] == 0x61 && s[i + 2] == 0x6c && s[i + 3] == 0x73 && s[i + 4]
            == 0x65 {
            Option::Some((FieldValueModel::Bool(false), i + 5))
        } else {
            Option::None
        }
    } else if s[i] == 0x6e {
        if i + 4 <= s.len() && s[i + 1] == 0x75 && s[i + 2] == 0x6c && s[i + 3] == 0x6c {
            Option::Some((FieldValueModel::Null, i + 4))
        } else {
            Option::None
        }
    } else {
        match spec_number_end(s, i) {
            Option::Some(e) => Option::Some((FieldValueModel::Num(s.subrange(i, e)), e)),
            Option::None => Option::None,
        }
    }
}

pub fn parse_value(s: &[u8], pos: usize) -> (r: Option<(FieldValue, usize)>)
    requires
        pos <= s@.len(),
    ensures
        match r {
            Some(p) => spec_parse_value(s@, pos as int) == Option::Some((p.0@, p.1 as int)) && pos
                < p.1 <= s@.len(),
            None => spec_parse_value(s@, pos as int) == Option::<(FieldValueModel, int)>::None,
        },
{
    if pos >= s.len() {
        return None;
    }
    let b = s[pos];
    if b == 0x22 {
        match parse_string_body(s, pos + 1) {
            Some((t, j)) => Some((FieldValue::Str(t), j)),
            None => None,
        }
    } else if b == 0x74 {
        if s.len() - pos >= 4 && s[pos + 1] == 0x72 && s[pos + 2] == 0x75 && s[pos + 3] == 0x65 {
            Some((FieldValue::Bool(true), pos + 4))
        } else {
            None
        }
    } else if b == 0x66 {
        if s.len() - pos >= 5 && s[pos + 1] == 0x61 && s[pos + 2] == 0x6c && s[pos + 3] == 0x73
            && s[pos + 4] == 0x65 {
            Some((FieldValue::Bool(false), pos + 5))
        } else {
            None
        }
    } else if b == 0x6e {
        if s.len() - pos >= 4 && s[pos + 1] == 0x75 && s[pos + 2] == 0x6c && s[pos + 3] == 0x6c {
            Some((FieldValue::Null, pos + 4))
        } else {
            None
        }
    } else {
        match number_end(s, pos) {
            Some(e) => {
                let raw = crate::bytes::copy_subrange(s, pos, e);
                Some((FieldValue::Num(raw), e))
            },
            None => None,
        }
    }
}

// ------------------------------------------------------------------ objects

/// The members of an object from `i` (just after `{` or `,`) to the
/// closing `}`: the keys and values in source order, and the position just
/// past the brace.
pub open spec fn spec_parse_members(s: Seq<u8>, i: int) -> Option<
    (Seq<(Seq<u8>, FieldValueModel)>, int),
>
    recommends
        0 <= i <= s.len(),
    decreases s.len() - i,
    when 0 <= i <= s.len()
{
    let k = ws_end(s, i);
    if k < s.len() && s[k] == 0x22 {
        match spec_parse_string_body(s, k + 1) {
            Option::Some((key, j)) => {
                if j <= s.len() {
                    let c = ws_end(s, j);
                    if c < s.len() && s[c] == 0x3a {
                        match spec_parse_value(s, ws_end(s, c + 1)) {
                            Option::Some((val, e)) => {
                                if e <= s.len() {
                                    let t = ws_end(s, e);
                                    if t < s.len() && s[t] == 0x2c {
                                        if i < t + 1 <= s.len() {
                                            match spec_parse_members(s, t + 1) {
                                                Option::Some((rest, e2)) => Option::Some(
                                                    (seq![(key, val)] + rest, e2),
                                                ),
                                                Option::None => Option::None,
                                            }
                                        } else {
                                            Option::None
                                        }
                                    } else if t < s.len() && s[t] == 0x7d {
                                        Option::Some((seq![(key, val)], t + 1))
                                    } else {
                                        Option::None
                                    }
                                } else {
                                    Option::None
                                }
                            },
                            Option::None => Option::None,
                        }
                    } else {
                        Option::None
                    }
                } else {
                    Option::None
                }
            },
            Option::None => Option::None,
        }
    } else {
        Option::None
    }
}

pub fn parse_members(s: &[u8], pos: usize) -> (r: Option<(Vec<(Vec<u8>, FieldValue)>, usize)>)
    requires
        pos <= s@.len(),
    ensures
        match r {
            Some(p) => spec_parse_members(s@, pos as int) == Option::Some(
                (fields_view(p.0@), p.1 as int),
            ) && pos < p.1 <= s@.len(),
            None => spec_parse_members(s@, pos as int) == Option::<
                (Seq<(Seq<u8>, FieldValueModel)>, int),
            >::None,
        },
{
    let mut acc: Vec<(Vec<u8>, FieldValue)> = Vec::new();
    let mut cur = pos;
    loop
        invariant
            pos <= cur <= s@.len(),
            spec_parse_members(s@, pos as int) == (match spec_parse_members(s@, cur as int) {
                Option::Some((fs, e)) => Option::Some((fields_view(acc@) + fs, e)),
                Option::None => Option::<(Seq<(Seq<u8>, FieldValueModel)>, int)>::None,
            }),
        decreases s@.len() - cur,
    {
        let k = take_ws(s, cur);
        if !(k < s.len() && s[k] == 0x22) {
            return None;
        }
        let (key, j) = match parse_string_body(s, k + 1) {
            Some(p) => p,
            None => {
                return None;
            },
        };
        let c = take_ws(s, j);
        if !(c < s.len() && s[c] == 0x3a) {
            return None;
        }
        let v = take_ws(s, c + 1);
        let (val, e) = match parse_value(s, v) {
            Some(p) => p,
            None => {
                return None;
            },
        };
        let t = take_ws(s, e);
        let ghost prev = acc@;
        if t < s.len() && s[t] == 0x2c {
            acc.push((key, val));
            proof {
                assert(fields_view(acc@) =~= fields_view(prev).push((key@, val@)));
                if spec_parse_members(s@, t as int + 1) is Some {
                    let (rest, e2) = spec_parse_members(s@, t as int + 1)->Some_0;
                    assert(fields_view(prev) + (seq![(key@, val@)] + rest) =~= fields_view(acc@)
                        + rest);
                }
            }
            cur = t + 1;
        } else if t < s.len() && s[t] == 0x7d {
            acc.push((key, val));
            proof {
                assert(fields_view(acc@) =~= fields_view(prev).push((key@, val@)));
                assert(fields_view(prev) + seq![(key@, val@)] =~= fields_view(acc@));
                assert(fields_view(acc@) + Seq::<(Seq<u8>, FieldValueModel)>::empty() =~= fields_view(
                    acc@,
                ));
                assert(spec_parse_members(s@, cur as int) == Option::Some(
                    (seq![(key@, val@)], t as int + 1),
                ));
            }
            return Some((acc, t + 1));
        } else {
            return None;
        }
    }
}

/// A whole document: one object, nothing but whitespace around it.
pub open spec fn spec_parse_object(s: Seq<u8>) -> Option<Seq<(Seq<u8>, FieldValueModel)>> {
    let i = ws_end(s, 0);
    if i < s.len() && s[i] == 0x7b {
        let j = ws_end(s, i + 1);
        if j < s.len() && s[j] == 0x7d {
            if ws_end(s, j + 1) == s.len() {
                Option::Some(Seq::empty())
            } else {
                Option::None
            }
        } else {
            match spec_parse_members(s, i + 1) {
                Option::Some((fields, e)) => {
                    if ws_end(s, e) == s.len() {
                        Option::Some(fields)
                    } else {
                        Option::None
                    }
                },
                Option::None => Option::None,
            }
        }
    } else {
        Option::None
    }
}

pub fn parse_object(s: &[u8]) -> (r: Option<Vec<(Vec<u8>, FieldValue)>>)
    ensures
        match r {
            Some(fields) => spec_parse_object(s@) == Option::Some(fields_view(fields@)),
            None => spec_parse_object(s@) == Option::<Seq<(Seq<u8>, FieldValueModel)>>::None,
        },
{
    let i = take_ws(s, 0);
    if !(i < s.len() && s[i] == 0x7b) {
        return None;
    }
    let j = take_ws(s, i + 1);
    if j < s.len() && s[j] == 0x7d {
        if take_ws(s, j + 1) == s.len() {
            let empty_fields: Vec<(Vec<u8>, FieldValue)> = Vec::new();
            proof {
                assert(fields_view(empty_fields@) =~= Seq::<(Seq<u8>, FieldValueModel)>::empty());
            }
            return Some(empty_fields);
        } else {
            return None;
        }
    }
    match parse_members(s, i + 1) {
        Some((fields, e)) => {
            if take_ws(s, e) == s.len() {
                Some(fields)
            } else {
                None
            }
        },
        None => None,
    }
}

pub fn is_hex_exec(b: u8) -> (r: bool)
    ensures
        r == is_hex(b),
{
    is_digit_exec(b) || (0x61 <= b && b <= 0x66) || (0x41 <= b && b <= 0x46)
}

pub fn hex_val_exec(b: u8) -> (r: u8)
    requires
        is_hex(b),
    ensures
        r as nat == hex_val(b),
        r < 16,
{
    if 0x30 <= b && b <= 0x39 {
        b - 0x30
    } else if 0x61 <= b && b <= 0x66 {
        b - 0x57
    } else {
        b - 0x37
    }
}

} // verus!
