//! Round-trip laws for the JSON log-envelope format.
//!
//! The encoder writes an event as one member list; the decoder folds a
//! member list back into an event. These lemmas prove the fold inverts the
//! encoder's layout field by field: every attribute the envelope carries
//! comes back equal, and only the attributes the envelope cannot carry
//! (facility, appname, procid, msgid) are lost.

use vstd::prelude::*;

use crate::bytes::{dec_digits, dec_fixed, digits_val, digit_run_end, all_digits, is_digit,
    lemma_dec_digits, lemma_dec_fixed, lemma_digit_run_end_value, lemma_pow10_values, pow10};
use crate::gelf::{canonical_ts, gelf_init, json_str, key_colon, key_host, key_level, key_message,
    key_short_message, key_timestamp, key_version, norm_key, render_extra, render_extras,
    render_value, spec_gelf_decode, spec_gelf_encodable, spec_gelf_encode, spec_gelf_fold,
    spec_gelf_step, spec_level_to_severity, spec_num_to_timestamp, ts_text, version_11, GelfAcc};
use crate::json::{esc_byte, esc_bytes, exp_end, frac_end, hex_digit, hex_val, int_end, is_hex,
    is_json_number, is_ws, spec_number_end, spec_parse_members, spec_parse_object,
    spec_parse_string_body, spec_parse_value, unescape_short, ws_end};
use crate::record::{EventModel, FieldValueModel, Timestamp};

verus! {

/// A well-formed timestamp survives being written as a decimal number and
/// read back.
pub proof fn lemma_ts_text_round_trip(t: Timestamp)
    requires
        t.valid(),
    ensures
        spec_num_to_timestamp(ts_text(t)) == Option::Some(t),
{
    let txt = ts_text(t);
    let sd = dec_digits(t.sec as nat);
    let fd = dec_fixed(t.nanos as nat, 9);
    lemma_dec_digits(t.sec as nat);
    lemma_dec_fixed(t.nanos as nat, 9);
    lemma_pow10_values();
    let p: int = if t.neg {
        1
    } else {
        0
    };
    let ie = p + sd.len() as int;
    assert(txt.len() == p + sd.len() + 1 + 9);
    assert(forall|k: int| p <= k < ie ==> txt[k] == sd[k - p]);
    assert(txt[ie] == 0x2e);
    assert(forall|k: int| ie + 1 <= k < txt.len() ==> txt[k] == fd[k - (ie + 1)]);
    lemma_digit_run_end_value(txt, p, ie);
    assert(digit_run_end(txt, p) == ie);
    assert(txt.subrange(p, ie) =~= sd);
    assert(digits_val(txt.subrange(p, ie)) == t.sec as nat);
    lemma_digit_run_end_value(txt, ie + 1, txt.len() as int);
    let fe = digit_run_end(txt, ie + 1);
    assert(fe == txt.len());
    let fr = txt.subrange(ie + 1, fe);
    assert(fr =~= fd);
    assert(fr.take(9) =~= fd);
    assert(digits_val(fr.take(9)) == t.nanos as nat);
    assert(pow10(0) == 1);
    let neg0 = txt.len() > 0 && txt[0] == 0x2d;
    if t.neg {
        assert(txt[0] == 0x2d);
        assert(neg0);
    } else {
        assert(txt[0] == sd[0]);
        assert(is_digit(sd[0]));
        assert(!neg0);
    }
    assert(canonical_ts(neg0, t.sec, t.nanos) == t);
    assert(digits_val(txt.subrange(p, ie)) <= u64::MAX);
    assert(digits_val(txt.subrange(p, ie)) as u64 == t.sec);
    assert(digits_val(fr.take(9)) * pow10(0) == t.nanos as nat);
    assert((digits_val(fr.take(9)) * pow10(0)) as u32 == t.nanos);
    assert(ie != p);
    assert(ie < txt.len() && txt[ie] == 0x2e);
    assert(fe == txt.len() && fe > ie + 1);
    assert(spec_num_to_timestamp(txt) == Option::Some(t));
}

/// A severity survives being written as decimal digits and read back.
pub proof fn lemma_level_round_trip(l: u8)
    requires
        l < 8,
    ensures
        spec_level_to_severity(dec_digits(l as nat)) == Option::Some(l),
{
    lemma_dec_digits(l as nat);
}


/// `hex_digit` writes a hex digit that reads back to the same value.
proof fn lemma_hex_digit_round_trip(n: nat)
    requires
        n < 16,
    ensures
        is_hex(hex_digit(n)),
        hex_val(hex_digit(n)) == n,
{
}

/// A string literal written by the escaper reads back to the original
/// bytes: parsing from just after the opening quote consumes the escaped
/// text and the closing quote.
pub proof fn lemma_parse_escaped_string(s: Seq<u8>, i: int, x: Seq<u8>)
    requires
        0 <= i,
        i + esc_bytes(x).len() + 1 <= s.len(),
        s.subrange(i, i + esc_bytes(x).len() + 1) == esc_bytes(x) + seq![0x22u8],
    ensures
        spec_parse_string_body(s, i) == Option::Some((x, i + esc_bytes(x).len() + 1)),
    decreases x.len(),
{
    let eb = esc_bytes(x);
    let l = eb.len() as int;
    assert(forall|j: int|
        0 <= j < l + 1 ==> s[i + j] == #[trigger] (eb + seq![0x22u8])[j]) by {
        assert(forall|j: int|
            0 <= j < l + 1 ==> s[i + j] == #[trigger] s.subrange(i, i + l + 1)[j]);
    }
    if x.len() == 0 {
        assert(s[i] == 0x22) by {
            assert(s[i + 0] == (eb + seq![0x22u8])[0]);
        }
        assert(x =~= Seq::<u8>::empty());
    } else {
        let b = x[0];
        let e0 = esc_byte(b);
        let k = e0.len() as int;
        assert(eb == e0 + esc_bytes(x.skip(1)));
        let l2 = esc_bytes(x.skip(1)).len() as int;
        assert(l == k + l2);
        assert(forall|j: int| 0 <= j < k ==> (eb + seq![0x22u8])[j] == e0[j]);
        assert(s.subrange(i + k, i + k + l2 + 1) =~= esc_bytes(x.skip(1)) + seq![0x22u8]) by {
            assert(forall|j: int|
                0 <= j < l2 + 1 ==> (esc_bytes(x.skip(1)) + seq![0x22u8])[j] == (eb + seq![
                    0x22u8,
                ])[k + j]);
        }
        lemma_parse_escaped_string(s, i + k, x.skip(1));
        if b == 0x22 || b == 0x5c || b == 0x08 || b == 0x0c || b == 0x0a || b == 0x0d || b
            == 0x09 {
            assert(k == 2);
            assert(s[i] == 0x5c && s[i + 1] == e0[1]) by {
                assert(s[i + 0] == (eb + seq![0x22u8])[0]);
                assert(s[i + 1] == (eb + seq![0x22u8])[1]);
                assert((eb + seq![0x22u8])[0] == e0[0]);
            }
            assert(e0[1] != 0x75);
            assert(unescape_short(e0[1]) == Option::Some(b));
            assert(spec_parse_string_body(s, i) == Option::Some((seq![b] + x.skip(1), i + l + 1)));
        } else if b < 0x20 {
            assert(k == 6);
            assert(s[i] == 0x5c && s[i + 1] == 0x75 && s[i + 2] == 0x30 && s[i + 3] == 0x30
                && s[i + 4] == e0[4] && s[i + 5] == e0[5]) by {
                assert(s[i + 0] == (eb + seq![0x22u8])[0]);
                assert(s[i + 1] == (eb + seq![0x22u8])[1]);
                assert(s[i + 2] == (eb + seq![0x22u8])[2]);
                assert(s[i + 3] == (eb + seq![0x22u8])[3]);
                assert(s[i + 4] == (eb + seq![0x22u8])[4]);
                assert(s[i + 5] == (eb + seq![0x22u8])[5]);
                assert((eb + seq![0x22u8])[0] == e0[0]);
                assert((eb + seq![0x22u8])[1] == e0[1]);
                assert((eb + seq![0x22u8])[2] == e0[2]);
                assert((eb + seq![0x22u8])[3] == e0[3]);
                assert((eb + seq![0x22u8])[4] == e0[4]);
                assert((eb + seq![0x22u8])[5] == e0[5]);
            }
            assert((b >> 4) < 16 && (b & 0x0f) < 16) by (bit_vector);
            lemma_hex_digit_round_trip((b >> 4) as nat);
            lemma_hex_digit_round_trip((b & 0x0f) as nat);
            assert(e0[4] == hex_digit((b >> 4) as nat));
            assert(e0[5] == hex_digit((b & 0x0f) as nat));
            assert((b >> 4) * 16 + (b & 0x0f) == b) by (bit_vector);
            assert(hex_val(s[i + 4]) * 16 + hex_val(s[i + 5]) == b);
            assert(b < 0x80) by (bit_vector)
                requires
                    b < 0x20,
            ;
            assert(is_hex(s[i + 2]) && is_hex(s[i + 3]));
            assert(spec_parse_string_body(s, i) == Option::Some((seq![b] + x.skip(1), i + l + 1)));
        } else {
            assert(k == 1);
            assert(s[i] == b) by {
                assert(s[i + 0] == (eb + seq![0x22u8])[0]);
                assert((eb + seq![0x22u8])[0] == e0[0]);
            }
            assert(b != 0x22 && b != 0x5c && b >= 0x20);
            assert(spec_parse_string_body(s, i) == Option::Some((seq![b] + x.skip(1), i + l + 1)));
        }
        assert(seq![b] + x.skip(1) =~= x);
    }
}


/// A digit run inside a copied region ends where the original's does.
proof fn lemma_digit_run_copy(s: Seq<u8>, i: int, t: Seq<u8>, a: int)
    requires
        0 <= i,
        i + t.len() <= s.len(),
        s.subrange(i, i + t.len()) == t,
        0 <= a <= t.len(),
        digit_run_end(t, a) == t.len() ==> i + t.len() == s.len() || !is_digit(s[i + t.len()]),
    ensures
        digit_run_end(s, i + a) == i + digit_run_end(t, a),
{
    crate::bytes::lemma_digit_run_end(t, a);
    let r = digit_run_end(t, a);
    assert(forall|j: int| 0 <= j < t.len() ==> #[trigger] t[j] == s.subrange(i, i + t.len())[j]);
    assert(forall|k: int| i + a <= k < i + r ==> is_digit(s[k])) by {
        assert(forall|k: int|
            i + a <= k < i + r ==> s.subrange(i, i + t.len())[k - i] == #[trigger] s[k]);
    }
    if r < t.len() {
        assert(s.subrange(i, i + t.len())[r] == s[i + r]);
        assert(!is_digit(s[i + r]));
    }
    lemma_digit_run_end_value(s, i + a, i + r);
}

/// A decimal number embedded in a larger buffer, followed by a byte that
/// cannot extend it, parses to exactly its own length.
pub proof fn lemma_parse_number_at(s: Seq<u8>, i: int, t: Seq<u8>)
    requires
        0 <= i,
        i + t.len() <= s.len(),
        s.subrange(i, i + t.len()) == t,
        is_json_number(t),
        i + t.len() < s.len(),
        !is_digit(s[i + t.len()]),
        s[i + t.len()] != 0x2e,
        s[i + t.len()] != 0x65,
        s[i + t.len()] != 0x45,
    ensures
        spec_number_end(s, i) == Option::Some(i + t.len()),
{
    let n = t.len() as int;
    let after = s[i + n];
    assert(forall|j: int| 0 <= j < n ==> #[trigger] t[j] == s[i + j]) by {
        assert(forall|j: int| 0 <= j < n ==> #[trigger] t[j] == s.subrange(i, i + n)[j]);
        assert(forall|j: int|
            0 <= j < n ==> s.subrange(i, i + n)[j] == #[trigger] s[i + j]);
    }
    assert(spec_number_end(t, 0) == Option::Some(n));
    assert(n > 0);
    let p: int = if t[0] == 0x2d {
        1
    } else {
        0
    };
    assert(t[0] == s[i + 0]);
    assert((i < s.len() && s[i] == 0x2d) == (t[0] == 0x2d));
    assert(int_end(t, p) is Some);
    let ie = int_end(t, p)->Some_0;
    crate::bytes::lemma_digit_run_end(t, p);
    assert(p < t.len() && is_digit(t[p]));
    assert(t[p] == s[i + p]);
    assert(int_end(s, i + p) == Option::Some(i + ie)) by {
        if t[p] == 0x30 {
            assert(ie == p + 1);
            if p + 1 < n {
                assert(t[p + 1] == s[i + p + 1]);
            }
        } else {
            lemma_digit_run_copy(s, i, t, p);
        }
    }
    assert(0 <= ie <= n) by {
        if t[p] != 0x30 {
            crate::bytes::lemma_digit_run_end(t, p);
        }
    }
    assert(frac_end(t, ie) is Some);
    let fe = frac_end(t, ie)->Some_0;
    assert(frac_end(s, i + ie) == Option::Some(i + fe)) by {
        if ie < n {
            assert(t[ie] == s[i + ie]);
        }
        if ie < n && t[ie] == 0x2e {
            lemma_digit_run_copy(s, i, t, ie + 1);
        }
    }
    assert(0 <= fe <= n) by {
        if ie < n && t[ie] == 0x2e {
            crate::bytes::lemma_digit_run_end(t, ie + 1);
        }
    }
    assert(exp_end(t, fe) == Option::Some(n));
    assert(exp_end(s, i + fe) == Option::Some(i + n)) by {
        if fe < n {
            assert(t[fe] == s[i + fe]);
        }
        if fe < n && (t[fe] == 0x65 || t[fe] == 0x45) {
            let q: int = if fe + 1 < n && (t[fe + 1] == 0x2b || t[fe + 1] == 0x2d) {
                fe + 2
            } else {
                fe + 1
            };
            assert(q <= n);
            if fe + 1 < n {
                assert(t[fe + 1] == s[i + fe + 1]);
            }
            lemma_digit_run_copy(s, i, t, q);
        }
    }
}


proof fn lemma_bytes_at(s: Seq<u8>, i: int, t: Seq<u8>, j: int)
    requires
        0 <= i,
        i + t.len() <= s.len(),
        s.subrange(i, i + t.len()) == t,
        0 <= j < t.len(),
    ensures
        s[i + j] == t[j],
{
    assert(s.subrange(i, i + t.len())[j] == s[i + j]);
}

proof fn lemma_subrange_at(s: Seq<u8>, i: int, t: Seq<u8>, a: int, b: int)
    requires
        0 <= i,
        i + t.len() <= s.len(),
        s.subrange(i, i + t.len()) == t,
        0 <= a <= b <= t.len(),
    ensures
        s.subrange(i + a, i + b) == t.subrange(a, b),
{
    assert forall|j: int| 0 <= j < b - a implies s.subrange(i + a, i + b)[j] == t.subrange(
        a,
        b,
    )[j] by {
        assert(s.subrange(i + a, i + b)[j] == s[i + a + j]);
        lemma_bytes_at(s, i, t, a + j);
    }
    assert(s.subrange(i + a, i + b) =~= t.subrange(a, b));
}

/// A member value can be written at all: a numeric value is a real
/// decimal number.
pub open spec fn value_writable(v: FieldValueModel) -> bool {
    match v {
        FieldValueModel::Num(t) => is_json_number(t),
        _ => true,
    }
}

/// One member as the encoder writes it: key string, colon, value.
pub open spec fn rend_member(f: (Seq<u8>, FieldValueModel)) -> Seq<u8> {
    json_str(f.0) + seq![0x3au8] + render_value(f.1)
}

/// A member list as the encoder writes it, closing brace included.
pub open spec fn members_text(fs: Seq<(Seq<u8>, FieldValueModel)>) -> Seq<u8>
    decreases fs.len(),
{
    if fs.len() == 0 {
        seq![0x7du8]
    } else if fs.len() == 1 {
        rend_member(fs[0]) + seq![0x7du8]
    } else {
        rend_member(fs[0]) + seq![0x2cu8] + members_text(fs.skip(1))
    }
}

/// A numeric text's first byte is a sign or digit.
proof fn lemma_number_first_byte(t: Seq<u8>)
    requires
        is_json_number(t),
    ensures
        t.len() >= 1,
        t[0] == 0x2d || is_digit(t[0]),
{
    crate::bytes::lemma_digit_run_end(t, 0);
}

/// Parsing one rendered value embedded before a `,` or `}`.
proof fn lemma_parse_value_of_render(s: Seq<u8>, i: int, v: FieldValueModel)
    requires
        0 <= i,
        value_writable(v),
        i + render_value(v).len() < s.len(),
        s.subrange(i, i + render_value(v).len()) == render_value(v),
        s[i + render_value(v).len()] == 0x2c || s[i + render_value(v).len()] == 0x7d,
    ensures
        spec_parse_value(s, i) == Option::Some((v, i + render_value(v).len())),
{
    let rv = render_value(v);
    let l = rv.len() as int;
    match v {
        FieldValueModel::Str(x) => {
            lemma_bytes_at(s, i, rv, 0);
            assert(s[i] == 0x22);
            lemma_subrange_at(s, i, rv, 1, l);
            assert(rv.subrange(1, l) =~= esc_bytes(x) + seq![0x22u8]);
            lemma_parse_escaped_string(s, i + 1, x);
            assert(spec_parse_string_body(s, i + 1) == Option::Some((x, i + l)));
        },
        FieldValueModel::Num(t) => {
            lemma_number_first_byte(t);
            lemma_bytes_at(s, i, rv, 0);
            assert(s[i] == t[0]);
            assert(s[i] != 0x22 && s[i] != 0x74 && s[i] != 0x66 && s[i] != 0x6e);
            lemma_parse_number_at(s, i, t);
            assert(s.subrange(i, i + l) == t);
        },
        FieldValueModel::Bool(b) => {
            if b {
                lemma_bytes_at(s, i, rv, 0);
                lemma_bytes_at(s, i, rv, 1);
                lemma_bytes_at(s, i, rv, 2);
                lemma_bytes_at(s, i, rv, 3);
                assert(s[i] == 0x74 && s[i + 1] == 0x72 && s[i + 2] == 0x75 && s[i + 3] == 0x65);
            } else {
                lemma_bytes_at(s, i, rv, 0);
                lemma_bytes_at(s, i, rv, 1);
                lemma_bytes_at(s, i, rv, 2);
                lemma_bytes_at(s, i, rv, 3);
                lemma_bytes_at(s, i, rv, 4);
                assert(s[i] == 0x66 && s[i + 1] == 0x61 && s[i + 2] == 0x6c && s[i + 3] == 0x73
                    && s[i + 4] == 0x65);
            }
        },
        FieldValueModel::Null => {
            lemma_bytes_at(s, i, rv, 0);
            lemma_bytes_at(s, i, rv, 1);
            lemma_bytes_at(s, i, rv, 2);
            lemma_bytes_at(s, i, rv, 3);
            assert(s[i] == 0x6e && s[i + 1] == 0x75 && s[i + 2] == 0x6c && s[i + 3] == 0x6c);
        },
    }
}

/// Parsing the rendered member list after the opening brace or a comma
/// gives back exactly the members.
proof fn lemma_parse_members_of_render(s: Seq<u8>, i: int, fs: Seq<(Seq<u8>, FieldValueModel)>)
    requires
        fs.len() >= 1,
        forall|k: int| 0 <= k < fs.len() ==> value_writable(#[trigger] fs[k].1),
        0 <= i,
        i + members_text(fs).len() <= s.len(),
        s.subrange(i, i + members_text(fs).len()) == members_text(fs),
    ensures
        spec_parse_members(s, i) == Option::Some((fs, i + members_text(fs).len())),
    decreases fs.len(),
{
    let mt = members_text(fs);
    let l = mt.len() as int;
    let f0 = fs[0];
    let rm = rend_member(f0);
    let kl = json_str(f0.0).len() as int;
    let vl = render_value(f0.1).len() as int;
    assert(rm.len() == kl + vl + 1);
    assert(l >= rm.len() + 1);
    assert(mt.subrange(0, rm.len() as int) =~= rm) by {
        if fs.len() == 1 {
            assert(forall|j: int| 0 <= j < rm.len() ==> mt[j] == rm[j]);
        } else {
            assert(forall|j: int| 0 <= j < rm.len() ==> mt[j] == rm[j]);
        }
    }
    lemma_subrange_at(s, i, mt, 0, rm.len() as int);
    assert(s.subrange(i, i + rm.len()) == rm);
    // the key string
    lemma_bytes_at(s, i, rm, 0);
    assert(s[i] == 0x22);
    assert(!is_ws(s[i]));
    assert(ws_end(s, i) == i);
    lemma_subrange_at(s, i, rm, 1, kl);
    assert(rm.subrange(1, kl) =~= esc_bytes(f0.0) + seq![0x22u8]);
    lemma_parse_escaped_string(s, i + 1, f0.0);
    assert(spec_parse_string_body(s, i + 1) == Option::Some((f0.0, i + kl)));
    // the colon
    lemma_bytes_at(s, i, rm, kl);
    assert(s[i + kl] == 0x3a);
    assert(!is_ws(s[i + kl]));
    assert(ws_end(s, i + kl) == i + kl);
    // the value
    let vstart = i + kl + 1;
    lemma_subrange_at(s, i, rm, kl + 1, rm.len() as int);
    assert(rm.subrange(kl + 1, rm.len() as int) =~= render_value(f0.1));
    assert(s.subrange(vstart, vstart + vl) == render_value(f0.1));
    let vend = vstart + vl;
    lemma_bytes_at(s, i, mt, rm.len() as int);
    assert(vend == i + rm.len());
    if fs.len() == 1 {
        assert(mt[rm.len() as int] == 0x7d);
        assert(s[vend] == 0x7d);
    } else {
        assert(mt[rm.len() as int] == 0x2c);
        assert(s[vend] == 0x2c);
    }
    assert(value_writable(f0.1));
    lemma_parse_value_of_render(s, vstart, f0.1);
    assert(!is_ws(s[vstart]));
    assert(ws_end(s, vstart) == vstart);
    assert(!is_ws(s[vend]));
    assert(ws_end(s, vend) == vend);
    if fs.len() == 1 {
        assert(spec_parse_members(s, i) == Option::Some((seq![(f0.0, f0.1)], vend + 1)));
        assert(seq![(f0.0, f0.1)] =~= fs);
        assert(vend + 1 == i + l);
    } else {
        let rest = fs.skip(1);
        let rl = members_text(rest).len() as int;
        assert(mt =~= rm + seq![0x2cu8] + members_text(rest));
        lemma_subrange_at(s, i, mt, rm.len() as int + 1, l);
        assert(mt.subrange(rm.len() as int + 1, l) =~= members_text(rest));
        assert(forall|k: int| 0 <= k < rest.len() ==> value_writable(#[trigger] rest[k].1)) by {
            assert(forall|k: int| 0 <= k < rest.len() ==> rest[k] == fs[k + 1]);
        }
        lemma_parse_members_of_render(s, vend + 1, rest);
        assert(spec_parse_members(s, i) == Option::Some((seq![(f0.0, f0.1)] + rest, i + l)));
        assert(seq![(f0.0, f0.1)] + rest =~= fs);
    }
}

/// The member list the envelope encoder lays out for an event.
pub open spec fn gelf_extra_fields(extra: Seq<(Seq<u8>, FieldValueModel)>) -> Seq<
    (Seq<u8>, FieldValueModel),
> {
    extra.map_values(|p: (Seq<u8>, FieldValueModel)| (seq![0x5fu8] + p.0, p.1))
}

pub open spec fn gelf_fields(m: EventModel) -> Seq<(Seq<u8>, FieldValueModel)> {
    seq![(key_version(), FieldValueModel::Str(version_11()))] + (match m.host {
        Option::Some(h) => seq![(key_host(), FieldValueModel::Str(h))],
        Option::None => Seq::<(Seq<u8>, FieldValueModel)>::empty(),
    }) + seq![(key_short_message(), FieldValueModel::Str(m.message))] + (match m.timestamp {
        Option::Some(t) => seq![(key_timestamp(), FieldValueModel::Num(ts_text(t)))],
        Option::None => Seq::<(Seq<u8>, FieldValueModel)>::empty(),
    }) + (match m.severity {
        Option::Some(l) => seq![(key_level(), FieldValueModel::Num(dec_digits(l as nat)))],
        Option::None => Seq::<(Seq<u8>, FieldValueModel)>::empty(),
    }) + gelf_extra_fields(m.extra)
}

/// The attributes the envelope cannot carry, dropped; everything else
/// kept.
pub open spec fn gelf_projection(m: EventModel) -> EventModel {
    EventModel {
        facility: Option::None,
        appname: Option::None,
        procid: Option::None,
        msgid: Option::None,
        ..m
    }
}

/// One unfolding step of the member fold.
proof fn lemma_fold_cons(
    f: (Seq<u8>, FieldValueModel),
    rest: Seq<(Seq<u8>, FieldValueModel)>,
    acc: GelfAcc,
)
    ensures
        spec_gelf_fold(seq![f] + rest, acc) == (match spec_gelf_step(acc, f.0, f.1) {
            Option::Some(a2) => spec_gelf_fold(rest, a2),
            Option::None => Option::<GelfAcc>::None,
        }),
{
    let fs = seq![f] + rest;
    assert(fs[0] == f);
    assert(fs.skip(1) =~= rest);
}

/// Folding the `_`-prefixed extra fields appends them, in order, to the
/// accumulated event, provided no key repeats.
proof fn lemma_fold_extras(acc: GelfAcc, extra: Seq<(Seq<u8>, FieldValueModel)>)
    requires
        forall|i: int, j: int| 0 <= i < j < extra.len() ==> extra[i].0 != extra[j].0,
        forall|i: int, x: int|
            0 <= i < extra.len() && 0 <= x < acc.ev.extra.len() ==> acc.ev.extra[x].0
                != extra[i].0,
    ensures
        spec_gelf_fold(gelf_extra_fields(extra), acc) == Option::Some(
            GelfAcc { ev: EventModel { extra: acc.ev.extra + extra, ..acc.ev }, ..acc },
        ),
    decreases extra.len(),
{
    if extra.len() == 0 {
        assert(gelf_extra_fields(extra).len() == 0);
        assert(acc.ev.extra + extra =~= acc.ev.extra);
        assert(GelfAcc { ev: EventModel { extra: acc.ev.extra + extra, ..acc.ev }, ..acc }
            == acc);
    } else {
        let f0 = extra[0];
        let key = seq![0x5fu8] + f0.0;
        assert(gelf_extra_fields(extra)[0] == (key, f0.1));
        assert(gelf_extra_fields(extra) =~= seq![(key, f0.1)] + gelf_extra_fields(extra.skip(1)));
        lemma_fold_cons((key, f0.1), gelf_extra_fields(extra.skip(1)), acc);
        assert(key[0] == 0x5f);
        assert(key != key_version() && key != key_host() && key != key_short_message() && key
            != key_message() && key != key_timestamp() && key != key_level()) by {
            assert(key_version()[0] == 0x76 && key_host()[0] == 0x68 && key_short_message()[0]
                == 0x73 && key_message()[0] == 0x6d && key_timestamp()[0] == 0x74 && key_level()[0]
                == 0x6c);
        }
        assert(norm_key(key) =~= f0.0);
        assert(!(exists|x: int|
            0 <= x < acc.ev.extra.len() && #[trigger] acc.ev.extra[x].0 == f0.0)) by {
            if exists|x: int| 0 <= x < acc.ev.extra.len() && #[trigger] acc.ev.extra[x].0 == f0.0 {
                let x = choose|x: int|
                    0 <= x < acc.ev.extra.len() && #[trigger] acc.ev.extra[x].0 == f0.0;
                assert(acc.ev.extra[x].0 != extra[0].0);
                assert(false);
            }
        }
        let acc2 = GelfAcc {
            ev: EventModel { extra: acc.ev.extra.push((f0.0, f0.1)), ..acc.ev },
            ..acc
        };
        assert(spec_gelf_step(acc, key, f0.1) == Option::Some(acc2)) by {
            assert(acc.ev.extra.push((norm_key(key), f0.1)) == acc.ev.extra.push((f0.0, f0.1)));
        }
        assert(forall|i: int, j: int|
            0 <= i < j < extra.skip(1).len() ==> extra.skip(1)[i].0 != extra.skip(1)[j].0);
        assert(forall|i: int, x: int|
            0 <= i < extra.skip(1).len() && 0 <= x < acc2.ev.extra.len() ==> acc2.ev.extra[x].0
                != extra.skip(1)[i].0) by {
            assert(forall|i: int|
                0 <= i < extra.skip(1).len() ==> extra.skip(1)[i] == extra[i + 1]);
            assert(forall|x: int|
                0 <= x < acc.ev.extra.len() ==> acc2.ev.extra[x] == acc.ev.extra[x]);
            assert(acc2.ev.extra[acc.ev.extra.len() as int] == (f0.0, f0.1));
        }
        lemma_fold_extras(acc2, extra.skip(1));
        assert(acc2.ev.extra + extra.skip(1) =~= acc.ev.extra + extra);
    }
}

/// The field-level round trip: folding the member list the encoder lays
/// out gives back exactly the event, less the attributes the envelope
/// does not carry. Together with the encoder's and decoder's own
/// contracts, this pins the decode of an encoded event down to the
/// member-list parse.
pub proof fn lemma_gelf_fields_round_trip(m: EventModel)
    requires
        m.valid(),
    ensures
        spec_gelf_fold(gelf_fields(m), gelf_init()) matches Option::Some(acc) && acc.has_version
            && acc.has_msg && acc.ev == gelf_projection(m),
{
    let fs = gelf_fields(m);
    let acc0 = gelf_init();
    let host_seg: Seq<(Seq<u8>, FieldValueModel)> = match m.host {
        Option::Some(h) => seq![(key_host(), FieldValueModel::Str(h))],
        Option::None => Seq::empty(),
    };
    let ts_seg: Seq<(Seq<u8>, FieldValueModel)> = match m.timestamp {
        Option::Some(t) => seq![(key_timestamp(), FieldValueModel::Num(ts_text(t)))],
        Option::None => Seq::empty(),
    };
    let lvl_seg: Seq<(Seq<u8>, FieldValueModel)> = match m.severity {
        Option::Some(l) => seq![(key_level(), FieldValueModel::Num(dec_digits(l as nat)))],
        Option::None => Seq::empty(),
    };
    let msg_f = (key_short_message(), FieldValueModel::Str(m.message));
    let extras = gelf_extra_fields(m.extra);
    let rest1 = host_seg + seq![msg_f] + ts_seg + lvl_seg + extras;
    assert(fs =~= seq![(key_version(), FieldValueModel::Str(version_11()))] + rest1);
    lemma_fold_cons((key_version(), FieldValueModel::Str(version_11())), rest1, acc0);
    let acc1 = GelfAcc { has_version: true, ..acc0 };
    assert(spec_gelf_step(acc0, key_version(), FieldValueModel::Str(version_11()))
        == Option::Some(acc1));

    assert(key_host() != key_version() && key_short_message() != key_version()
        && key_timestamp() != key_version() && key_level() != key_version()) by {
        assert(key_host().len() != key_version().len());
        assert(key_short_message().len() != key_version().len());
        assert(key_timestamp().len() != key_version().len());
        assert(key_level().len() != key_version().len());
    }
    assert(key_short_message() != key_host() && key_timestamp() != key_host() && key_level()
        != key_host()) by {
        assert(key_short_message().len() != key_host().len());
        assert(key_timestamp().len() != key_host().len());
        assert(key_level().len() != key_host().len());
    }
    assert(key_short_message() != key_message() && key_timestamp() != key_message()
        && key_timestamp() != key_short_message() && key_level() != key_short_message()
        && key_level() != key_message() && key_level() != key_timestamp()) by {
        assert(key_short_message().len() != key_message().len());
        assert(key_timestamp()[0] != key_message()[0]);
        assert(key_timestamp().len() != key_short_message().len());
        assert(key_level().len() != key_short_message().len());
        assert(key_level().len() != key_message().len());
        assert(key_level().len() != key_timestamp().len());
    }

    let acc2 = match m.host {
        Option::Some(h) => GelfAcc {
            ev: EventModel { host: Option::Some(h), ..acc1.ev },
            has_host: true,
            ..acc1
        },
        Option::None => acc1,
    };
    let rest2 = seq![msg_f] + ts_seg + lvl_seg + extras;
    match m.host {
        Option::Some(h) => {
            assert(rest1 =~= seq![(key_host(), FieldValueModel::Str(h))] + rest2);
            lemma_fold_cons((key_host(), FieldValueModel::Str(h)), rest2, acc1);
            assert(spec_gelf_step(acc1, key_host(), FieldValueModel::Str(h)) == Option::Some(
                acc2,
            ));
        },
        Option::None => {
            assert(rest1 =~= rest2);
        },
    }

    let rest3 = ts_seg + lvl_seg + extras;
    assert(rest2 =~= seq![msg_f] + rest3);
    lemma_fold_cons(msg_f, rest3, acc2);
    let acc3 = GelfAcc { ev: EventModel { message: m.message, ..acc2.ev }, has_msg: true, ..acc2 };
    assert(spec_gelf_step(acc2, key_short_message(), FieldValueModel::Str(m.message))
        == Option::Some(acc3));

    let acc4 = match m.timestamp {
        Option::Some(t) => GelfAcc {
            ev: EventModel { timestamp: Option::Some(t), ..acc3.ev },
            has_ts: true,
            ..acc3
        },
        Option::None => acc3,
    };
    let rest4 = lvl_seg + extras;
    match m.timestamp {
        Option::Some(t) => {
            assert(rest3 =~= seq![(key_timestamp(), FieldValueModel::Num(ts_text(t)))] + rest4);
            lemma_fold_cons((key_timestamp(), FieldValueModel::Num(ts_text(t))), rest4, acc3);
            lemma_ts_text_round_trip(t);
            assert(spec_gelf_step(acc3, key_timestamp(), FieldValueModel::Num(ts_text(t)))
                == Option::Some(acc4));
        },
        Option::None => {
            assert(rest3 =~= rest4);
        },
    }

    let acc5 = match m.severity {
        Option::Some(l) => GelfAcc {
            ev: EventModel { severity: Option::Some(l), ..acc4.ev },
            has_level: true,
            ..acc4
        },
        Option::None => acc4,
    };
    match m.severity {
        Option::Some(l) => {
            assert(rest4 =~= seq![(key_level(), FieldValueModel::Num(dec_digits(l as nat)))]
                + extras);
            lemma_fold_cons((key_level(), FieldValueModel::Num(dec_digits(l as nat))), extras, acc4);
            lemma_level_round_trip(l);
            assert(spec_gelf_step(acc4, key_level(), FieldValueModel::Num(dec_digits(l as nat)))
                == Option::Some(acc5));
        },
        Option::None => {
            assert(rest4 =~= extras);
        },
    }

    assert(acc5.ev.extra =~= Seq::<(Seq<u8>, FieldValueModel)>::empty());
    lemma_fold_extras(acc5, m.extra);
    let acc6 = GelfAcc { ev: EventModel { extra: acc5.ev.extra + m.extra, ..acc5.ev }, ..acc5 };
    assert(acc5.ev.extra + m.extra =~= m.extra);
    assert(acc6.ev == gelf_projection(m));
    assert(spec_gelf_fold(fs, acc0) == Option::Some(acc6));
}


/// The members after the first, each with its leading comma, and the
/// closing brace.
spec fn tail_text(fs: Seq<(Seq<u8>, FieldValueModel)>) -> Seq<u8>
    decreases fs.len(),
{
    if fs.len() == 0 {
        seq![0x7du8]
    } else {
        seq![0x2cu8] + rend_member(fs[0]) + tail_text(fs.skip(1))
    }
}

proof fn lemma_members_tail(fs: Seq<(Seq<u8>, FieldValueModel)>)
    requires
        fs.len() >= 1,
    ensures
        members_text(fs) == rend_member(fs[0]) + tail_text(fs.skip(1)),
    decreases fs.len(),
{
    if fs.len() == 1 {
        assert(fs.skip(1).len() == 0);
        assert(members_text(fs) =~= rend_member(fs[0]) + tail_text(fs.skip(1)));
    } else {
        lemma_members_tail(fs.skip(1));
        assert(fs.skip(1)[0] == fs[1]);
        assert(fs.skip(1).skip(1) =~= fs.skip(2));
        assert(members_text(fs) =~= rend_member(fs[0]) + tail_text(fs.skip(1)));
    }
}

proof fn lemma_tail_cons(f: (Seq<u8>, FieldValueModel), rest: Seq<(Seq<u8>, FieldValueModel)>)
    ensures
        tail_text(seq![f] + rest) == seq![0x2cu8] + rend_member(f) + tail_text(rest),
{
    let fs = seq![f] + rest;
    assert(fs[0] == f);
    assert(fs.skip(1) =~= rest);
}

/// The extras chain the encoder writes is the tail text of the
/// `_`-prefixed extra members.
proof fn lemma_extras_tail(extra: Seq<(Seq<u8>, FieldValueModel)>)
    ensures
        render_extras(extra) + seq![0x7du8] == tail_text(gelf_extra_fields(extra)),
    decreases extra.len(),
{
    if extra.len() == 0 {
        assert(gelf_extra_fields(extra).len() == 0);
        assert(render_extras(extra) + seq![0x7du8] =~= tail_text(gelf_extra_fields(extra)));
    } else {
        lemma_extras_tail(extra.skip(1));
        let f0 = extra[0];
        let key = seq![0x5fu8] + f0.0;
        assert(gelf_extra_fields(extra)[0] == (key, f0.1));
        assert(gelf_extra_fields(extra) =~= seq![(key, f0.1)] + gelf_extra_fields(extra.skip(1)));
        lemma_tail_cons((key, f0.1), gelf_extra_fields(extra.skip(1)));
        assert(esc_bytes(key) == esc_byte(0x5f) + esc_bytes(key.skip(1)));
        assert(key.skip(1) =~= f0.0);
        assert(esc_byte(0x5f) =~= seq![0x5fu8]);
        assert(rend_member((key, f0.1)) =~= seq![0x22u8, 0x5fu8] + esc_bytes(f0.0) + seq![
            0x22u8,
            0x3au8,
        ] + render_value(f0.1));
        assert(render_extra(f0.0, f0.1) =~= seq![0x2cu8] + rend_member((key, f0.1)));
        assert(render_extras(extra) =~= render_extra(f0.0, f0.1) + render_extras(extra.skip(1)));
        assert(render_extras(extra) + seq![0x7du8] =~= tail_text(gelf_extra_fields(extra)));
    }
}

pub open spec fn host_part(m: EventModel) -> Seq<u8> {
    match m.host {
        Option::Some(h) => key_colon(key_host()) + json_str(h),
        Option::None => Seq::<u8>::empty(),
    }
}

pub open spec fn ts_part(m: EventModel) -> Seq<u8> {
    match m.timestamp {
        Option::Some(t) => key_colon(key_timestamp()) + ts_text(t),
        Option::None => Seq::<u8>::empty(),
    }
}

pub open spec fn lvl_part(m: EventModel) -> Seq<u8> {
    match m.severity {
        Option::Some(l) => key_colon(key_level()) + dec_digits(l as nat),
        Option::None => Seq::<u8>::empty(),
    }
}

/// The rest of the member list, flattened into the encoder's segments.
#[verifier::rlimit(100)]
proof fn lemma_tail_decomp(m: EventModel)
    ensures
        gelf_fields(m).len() >= 1,
        gelf_fields(m)[0] == (key_version(), FieldValueModel::Str(version_11())),
        tail_text(gelf_fields(m).skip(1)) == host_part(m) + (key_colon(key_short_message())
            + json_str(m.message)) + ts_part(m) + lvl_part(m) + (render_extras(m.extra) + seq![
            0x7du8,
        ]),
{
    let host_seg: Seq<(Seq<u8>, FieldValueModel)> = match m.host {
        Option::Some(h) => seq![(key_host(), FieldValueModel::Str(h))],
        Option::None => Seq::empty(),
    };
    let msg_f = (key_short_message(), FieldValueModel::Str(m.message));
    let ts_seg: Seq<(Seq<u8>, FieldValueModel)> = match m.timestamp {
        Option::Some(t) => seq![(key_timestamp(), FieldValueModel::Num(ts_text(t)))],
        Option::None => Seq::empty(),
    };
    let lvl_seg: Seq<(Seq<u8>, FieldValueModel)> = match m.severity {
        Option::Some(l) => seq![(key_level(), FieldValueModel::Num(dec_digits(l as nat)))],
        Option::None => Seq::empty(),
    };
    let extras = gelf_extra_fields(m.extra);
    let rest1 = host_seg + seq![msg_f] + ts_seg + lvl_seg + extras;
    let fs = gelf_fields(m);
    let vfield = (key_version(), FieldValueModel::Str(version_11()));
    assert(fs =~= seq![vfield] + rest1);
    assert(fs[0] == vfield);
    assert(fs.skip(1) =~= rest1);
    lemma_extras_tail(m.extra);

    let t_extras = tail_text(extras);
    let t_lvl = tail_text(lvl_seg + extras);
    assert(t_lvl =~= lvl_part(m) + t_extras) by {
        match m.severity {
            Option::Some(l) => {
                let f = (key_level(), FieldValueModel::Num(dec_digits(l as nat)));
                assert(lvl_seg + extras =~= seq![f] + extras);
                lemma_tail_cons(f, extras);
            },
            Option::None => {
                assert(lvl_seg + extras =~= extras);
            },
        }
    }
    let t_ts = tail_text(ts_seg + lvl_seg + extras);
    assert(ts_seg + lvl_seg + extras =~= ts_seg + (lvl_seg + extras));
    assert(t_ts =~= ts_part(m) + t_lvl) by {
        match m.timestamp {
            Option::Some(t) => {
                let f = (key_timestamp(), FieldValueModel::Num(ts_text(t)));
                assert(ts_seg + (lvl_seg + extras) =~= seq![f] + (lvl_seg + extras));
                lemma_tail_cons(f, lvl_seg + extras);
            },
            Option::None => {
                assert(ts_seg + (lvl_seg + extras) =~= lvl_seg + extras);
            },
        }
    }
    let t_msg = tail_text(seq![msg_f] + ts_seg + lvl_seg + extras);
    assert(seq![msg_f] + ts_seg + lvl_seg + extras =~= seq![msg_f] + (ts_seg + lvl_seg + extras));
    assert(t_msg =~= key_colon(key_short_message()) + json_str(m.message) + t_ts) by {
        lemma_tail_cons(msg_f, ts_seg + lvl_seg + extras);
    }
    let t_host = tail_text(rest1);
    assert(rest1 =~= host_seg + (seq![msg_f] + ts_seg + lvl_seg + extras));
    assert(t_host =~= host_part(m) + t_msg) by {
        match m.host {
            Option::Some(h) => {
                let f = (key_host(), FieldValueModel::Str(h));
                assert(host_seg + (seq![msg_f] + ts_seg + lvl_seg + extras) =~= seq![f] + (seq![
                    msg_f,
                ] + ts_seg + lvl_seg + extras));
                lemma_tail_cons(f, seq![msg_f] + ts_seg + lvl_seg + extras);
            },
            Option::None => {
                assert(host_seg + (seq![msg_f] + ts_seg + lvl_seg + extras) =~= seq![msg_f]
                    + ts_seg + lvl_seg + extras);
            },
        }
    }
    assert(t_host =~= host_part(m) + (key_colon(key_short_message()) + json_str(m.message))
        + ts_part(m) + lvl_part(m) + (render_extras(m.extra) + seq![0x7du8]));
}

/// The encoder's whole record is the opening brace and the member list.
#[verifier::rlimit(100)]
proof fn lemma_encode_is_members(m: EventModel)
    ensures
        spec_gelf_encode(m) == seq![0x7bu8] + members_text(gelf_fields(m)),
{
    let fs = gelf_fields(m);
    lemma_tail_decomp(m);
    lemma_members_tail(fs);
    let vfield = (key_version(), FieldValueModel::Str(version_11()));
    assert(rend_member(vfield) =~= json_str(key_version()) + seq![0x3au8] + json_str(
        version_11(),
    ));
    assert(spec_gelf_encode(m) =~= seq![0x7bu8] + (rend_member(vfield) + tail_text(fs.skip(1))));
}

/// The timestamp text the encoder writes is a decimal number.
proof fn lemma_ts_text_is_number(t: Timestamp)
    requires
        t.valid(),
    ensures
        is_json_number(ts_text(t)),
{
    let txt = ts_text(t);
    let sd = dec_digits(t.sec as nat);
    let fd = dec_fixed(t.nanos as nat, 9);
    lemma_dec_digits(t.sec as nat);
    lemma_dec_fixed(t.nanos as nat, 9);
    let p: int = if t.neg {
        1
    } else {
        0
    };
    let ie = p + sd.len() as int;
    assert(txt.len() == p + sd.len() + 1 + 9);
    assert(forall|k: int| p <= k < ie ==> txt[k] == sd[k - p]);
    assert(txt[ie] == 0x2e);
    assert(forall|k: int| ie + 1 <= k < txt.len() ==> txt[k] == fd[k - (ie + 1)]);
    if t.neg {
        assert(txt[0] == 0x2d);
    } else {
        assert(txt[0] == sd[0]);
    }
    lemma_digit_run_end_value(txt, p, ie);
    assert(is_digit(txt[p]));
    assert(int_end(txt, p) == Option::Some(ie)) by {
        if txt[p] == 0x30 {
            assert(sd[0] == 0x30);
            assert(t.sec == 0);
            assert(sd.len() == 1);
            assert(txt[p + 1] == 0x2e);
        }
    }
    lemma_digit_run_end_value(txt, ie + 1, txt.len() as int);
    assert(frac_end(txt, ie) == Option::Some(txt.len() as int));
    assert(exp_end(txt, txt.len() as int) == Option::Some(txt.len() as int));
}

/// A severity's digits are a decimal number.
proof fn lemma_level_text_is_number(l: u8)
    requires
        l < 8,
    ensures
        is_json_number(dec_digits(l as nat)),
{
    lemma_dec_digits(l as nat);
    let txt = dec_digits(l as nat);
    assert(txt =~= seq![(0x30 + l) as u8]);
    lemma_digit_run_end_value(txt, 0, 1);
    assert(int_end(txt, 0) == Option::Some(1int));
    assert(frac_end(txt, 1) == Option::Some(1int));
    assert(exp_end(txt, 1) == Option::Some(1int));
}

/// The round trip: decoding an encoded event always succeeds and gives
/// the event back, less only the attributes the envelope cannot carry
/// (facility, appname, procid, msgid).
pub proof fn lemma_gelf_round_trip(m: EventModel)
    requires
        m.valid(),
        spec_gelf_encodable(m),
    ensures
        spec_gelf_decode(spec_gelf_encode(m)) == Option::Some(gelf_projection(m)),
{
    let fields = gelf_fields(m);
    let e = spec_gelf_encode(m);
    lemma_encode_is_members(m);
    let mt = members_text(fields);
    assert(fields.len() >= 1);
    assert(forall|k: int| 0 <= k < fields.len() ==> value_writable(#[trigger] fields[k].1)) by {
        assert forall|k: int| 0 <= k < fields.len() implies value_writable(
            #[trigger] fields[k].1,
        ) by {
            let host_len: int = match m.host {
                Option::Some(_) => 1,
                Option::None => 0,
            };
            let ts_len: int = match m.timestamp {
                Option::Some(_) => 1,
                Option::None => 0,
            };
            let lvl_len: int = match m.severity {
                Option::Some(_) => 1,
                Option::None => 0,
            };
            let extras_start = 2 + host_len + ts_len + lvl_len;
            match m.timestamp {
                Option::Some(t) => {
                    lemma_ts_text_is_number(t);
                },
                Option::None => {},
            }
            match m.severity {
                Option::Some(l) => {
                    lemma_level_text_is_number(l);
                },
                Option::None => {},
            }
            if k >= extras_start {
                assert(fields[k] == gelf_extra_fields(m.extra)[k - extras_start]);
                assert(gelf_extra_fields(m.extra)[k - extras_start].1 == m.extra[k
                    - extras_start].1);
            }
        }
    }
    assert(e.subrange(1, 1 + mt.len() as int) =~= mt) by {
        assert(forall|j: int|
            0 <= j < mt.len() ==> e.subrange(1, 1 + mt.len() as int)[j] == #[trigger] mt[j]);
    }
    lemma_parse_members_of_render(e, 1, fields);
    assert(e[0] == 0x7b);
    assert(ws_end(e, 0) == 0);
    let rm0 = rend_member(fields[0]);
    assert(mt[0] == rm0[0]) by {
        if fields.len() == 1 {
        } else {
        }
    }
    assert(e[1] == 0x22) by {
        assert(e[1] == mt[0]);
        assert(rm0[0] == 0x22);
    }
    assert(ws_end(e, 1) == 1);
    assert(spec_parse_object(e) == Option::Some(fields)) by {
        assert(ws_end(e, mt.len() as int + 1) == e.len());
    }
    lemma_gelf_fields_round_trip(m);
}

} // verus!
