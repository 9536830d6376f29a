//! The structured-syslog wire format:
//! `<PRI>VERSION TIMESTAMP HOST APP PROCID MSGID STRUCTURED-DATA [MSG]`.
//!
//! PRI is a decimal up to 191, split into facility (PRI / 8) and severity
//! (PRI % 8). A `-` in a field means absent. STRUCTURED-DATA is `-` or
//! bracketed `[SDID PARAM="VALUE" ...]` groups; every PARAM becomes an
//! additional field keyed `SDID.PARAM`, with `\"`, `\\` and `\]` unescaped
//! in the value. A record that breaks this shape is a decode error.

use vstd::prelude::*;

use crate::bytes::{all_digits, copy_subrange, digit_run_end, digits_val, is_digit,
    lemma_digit_run_end, parse_u64_digits, take_digits};
use crate::gelf::append_bytes;
use crate::record::{fields_view, DecodeError, Event, EventModel, FieldValue, FieldValueModel,
    Timestamp};
use crate::splitter::{find_byte, find_byte_from, lemma_find_byte};
use crate::timestamp::{spec_rfc3339, parse_rfc3339};

verus! {

/// End of the space-separated token that starts at `i`.
pub open spec fn token_end(s: Seq<u8>, i: int) -> int {
    match find_byte(s, i, 0x20) {
        Option::Some(k) => k,
        Option::None => s.len() as int,
    }
}

pub fn token_end_exec(s: &[u8], i: usize) -> (j: usize)
    requires
        i <= s@.len(),
    ensures
        j as int == token_end(s@, i as int),
        i <= j <= s@.len(),
        j < s@.len() ==> s@[j as int] == 0x20,
{
    proof {
        lemma_find_byte(s@, i as int, 0x20);
    }
    match find_byte_from(s, i, 0x20) {
        Some(k) => k,
        None => s.len(),
    }
}

/// A token that is a single `-` stands for an absent value.
pub open spec fn nil_token(tok: Seq<u8>) -> Option<Seq<u8>> {
    if tok == seq![0x2du8] {
        Option::None
    } else {
        Option::Some(tok)
    }
}

/// `<PRI>`: one to three digits, at most 191, and the position after `>`.
pub open spec fn spec_pri(s: Seq<u8>) -> Option<(u8, int)> {
    if s.len() > 0 && s[0] == 0x3c {
        let e = digit_run_end(s, 1);
        if 1 < e <= 4 && e < s.len() && s[e] == 0x3e {
            let v = digits_val(s.subrange(1, e));
            if v <= 191 {
                Option::Some((v as u8, e + 1))
            } else {
                Option::None
            }
        } else {
            Option::None
        }
    } else {
        Option::None
    }
}

pub fn parse_pri(s: &[u8]) -> (r: Option<(u8, usize)>)
    ensures
        match r {
            Some(p) => spec_pri(s@) == Option::Some((p.0, p.1 as int)) && p.0 <= 191 && 0 < p.1
                <= s@.len(),
            None => spec_pri(s@) == Option::<(u8, int)>::None,
        },
{
    if !(s.len() > 0 && s[0] == 0x3c) {
        return None;
    }
    let e = take_digits(s, 1);
    proof {
        lemma_digit_run_end(s@, 1);
    }
    if !(1 < e && e <= 4 && e < s.len() && s[e] == 0x3e) {
        return None;
    }
    match parse_u64_digits(s, 1, e) {
        Some(v) => {
            if v <= 191 {
                Some((v as u8, e + 1))
            } else {
                None
            }
        },
        None => {
            proof {
                crate::bytes::lemma_pow10_values();
                crate::bytes::lemma_digits_val_bound(s@.subrange(1, e as int));
                assert(false);
            }
            None
        },
    }
}

/// End of an SD name: the run free of space, `]`, `=` and `"`.
pub open spec fn sd_name_end(s: Seq<u8>, i: int) -> int
    recommends
        0 <= i <= s.len(),
    decreases s.len() - i,
{
    if i < s.len() && !(s[i] == 0x20 || s[i] == 0x5d || s[i] == 0x3d || s[i] == 0x22) {
        sd_name_end(s, i + 1)
    } else {
        i
    }
}

pub fn sd_name_end_exec(s: &[u8], i: usize) -> (j: usize)
    requires
        i <= s@.len(),
    ensures
        j as int == sd_name_end(s@, i as int),
        i <= j <= s@.len(),
{
    let mut j = i;
    while j < s.len() && !(s[j] == 0x20 || s[j] == 0x5d || s[j] == 0x3d || s[j] == 0x22)
        invariant
            i <= j <= s@.len(),
            sd_name_end(s@, i as int) == sd_name_end(s@, j as int),
        decreases s@.len() - j,
    {
        j = j + 1;
    }
    j
}

/// An SD param value body, after the opening quote: `\"`, `\\` and `\]`
/// unescape, any other byte (a lone backslash included) is literal, the
/// closing quote ends it.
pub open spec fn spec_sd_value(s: Seq<u8>, i: int) -> Option<(Seq<u8>, int)>
    recommends
        0 <= i,
    decreases s.len() - i,
    when 0 <= i <= s.len()
{
    if i >= s.len() {
        Option::None
    } else if s[i] == 0x22 {
        Option::Some((Seq::empty(), i + 1))
    } else if s[i] == 0x5c && i + 1 < s.len() && (s[i + 1] == 0x22 || s[i + 1] == 0x5c || s[i + 1]
        == 0x5d) {
        match spec_sd_value(s, i + 2) {
            Option::Some((t, j)) => Option::Some((seq![s[i + 1]] + t, j)),
            Option::None => Option::None,
        }
    } else {
        match spec_sd_value(s, i + 1) {
            Option::Some((t, j)) => Option::Some((seq![s[i]] + t, j)),
            Option::None => Option::None,
        }
    }
}

pub fn parse_sd_value(s: &[u8], i: usize) -> (r: Option<(Vec<u8>, usize)>)
    requires
        i <= s@.len(),
    ensures
        match r {
            Some(p) => spec_sd_value(s@, i as int) == Option::Some((p.0@, p.1 as int)) && i < p.1
                <= s@.len(),
            None => spec_sd_value(s@, i as int) == Option::<(Seq<u8>, int)>::None,
        },
    decreases s@.len() - i,
{
    if i >= s.len() {
        return None;
    }
    let b = s[i];
    if b == 0x22 {
        let v: Vec<u8> = Vec::new();
        proof {
            assert(v@ =~= Seq::<u8>::empty());
        }
        return Some((v, i + 1));
    }
    if b == 0x5c && i + 1 < s.len() && (s[i + 1] == 0x22 || s[i + 1] == 0x5c || s[i + 1] == 0x5d) {
        match parse_sd_value(s, i + 2) {
            Some((mut t, j)) => {
                let ghost prev = t@;
                t.insert(0, s[i + 1]);
                proof {
                    assert(t@ =~= seq![s@[i as int + 1]] + prev);
                }
                Some((t, j))
            },
            None => None,
        }
    } else {
        match parse_sd_value(s, i + 1) {
            Some((mut t, j)) => {
                let ghost prev = t@;
                t.insert(0, b);
                proof {
                    assert(t@ =~= seq![s@[i as int]] + prev);
                }
                Some((t, j))
            },
            None => None,
        }
    }
}

/// The params of one SD group, from just after the SDID to just past the
/// closing `]`; each becomes a field keyed `SDID.PARAM`.
pub open spec fn spec_params(s: Seq<u8>, p: int, sdid: Seq<u8>) -> Option<
    (Seq<(Seq<u8>, FieldValueModel)>, int),
>
    recommends
        0 <= p <= s.len(),
    decreases s.len() - p,
    when 0 <= p <= s.len()
{
    if p < s.len() && s[p] == 0x5d {
        Option::Some((Seq::empty(), p + 1))
    } else if p < s.len() && s[p] == 0x20 {
        let ne = sd_name_end(s, p + 1);
        if ne > p + 1 && ne < s.len() && s[ne] == 0x3d && ne + 1 < s.len() && s[ne + 1] == 0x22 {
            match spec_sd_value(s, ne + 2) {
                Option::Some((v, ve)) => {
                    if p < ve <= s.len() {
                        match spec_params(s, ve, sdid) {
                            Option::Some((fs, e)) => Option::Some(
                                (
                                    seq![
                                        (
                                            sdid + seq![0x2eu8] + s.subrange(p + 1, ne),
                                            FieldValueModel::Str(v),
                                        ),
                                    ] + fs,
                                    e,
                                ),
                            ),
                            Option::None => Option::None,
                        }
                    } else {
                        Option::None
                    }
                },
                Option::None => Option::None,
            }
        } else {
            Option::None
        }
    } else {
        Option::None
    }
}

pub fn parse_params(s: &[u8], p: usize, sdid: &Vec<u8>) -> (r: Option<
    (Vec<(Vec<u8>, FieldValue)>, usize),
>)
    requires
        p <= s@.len(),
    ensures
        match r {
            Some(pp) => spec_params(s@, p as int, sdid@) == Option::Some(
                (fields_view(pp.0@), pp.1 as int),
            ) && p < pp.1 <= s@.len(),
            None => spec_params(s@, p as int, sdid@) == Option::<
                (Seq<(Seq<u8>, FieldValueModel)>, int),
            >::None,
        },
    decreases s@.len() - p,
{
    if p < s.len() && s[p] == 0x5d {
        let fs: Vec<(Vec<u8>, FieldValue)> = Vec::new();
        proof {
            assert(fields_view(fs@) =~= Seq::<(Seq<u8>, FieldValueModel)>::empty());
        }
        return Some((fs, p + 1));
    }
    if !(p < s.len() && s[p] == 0x20) {
        return None;
    }
    let ne = sd_name_end_exec(s, p + 1);
    if !(ne > p + 1 && ne < s.len() && s[ne] == 0x3d && ne + 1 < s.len() && s[ne + 1] == 0x22) {
        return None;
    }
    match parse_sd_value(s, ne + 2) {
        Some((v, ve)) => {
            match parse_params(s, ve, sdid) {
                Some((mut fs, e)) => {
                    let mut key = crate::record::copy_bytes(sdid);
                    key.push(0x2e);
                    append_bytes(&mut key, copy_subrange(s, p + 1, ne).as_slice());
                    proof {
                        assert(key@ =~= sdid@ + seq![0x2eu8] + s@.subrange(p as int + 1, ne as int));
                    }
                    let ghost prev = fs@;
                    fs.insert(0, (key, FieldValue::Str(v)));
                    proof {
                        assert(fields_view(fs@) =~= seq![
                            (
                                sdid@ + seq![0x2eu8] + s@.subrange(p as int + 1, ne as int),
                                FieldValueModel::Str(v@),
                            ),
                        ] + fields_view(prev));
                    }
                    Some((fs, e))
                },
                None => None,
            }
        },
        None => None,
    }
}

/// One `[SDID PARAM="VALUE" ...]` group at `i`.
pub open spec fn spec_group(s: Seq<u8>, i: int) -> Option<(Seq<(Seq<u8>, FieldValueModel)>, int)>
    recommends
        0 <= i <= s.len(),
{
    if i < s.len() && s[i] == 0x5b {
        let ne = sd_name_end(s, i + 1);
        if ne > i + 1 {
            spec_params(s, ne, s.subrange(i + 1, ne))
        } else {
            Option::None
        }
    } else {
        Option::None
    }
}

pub fn parse_group(s: &[u8], i: usize) -> (r: Option<(Vec<(Vec<u8>, FieldValue)>, usize)>)
    requires
        i <= s@.len(),
    ensures
        match r {
            Some(p) => spec_group(s@, i as int) == Option::Some((fields_view(p.0@), p.1 as int))
                && i < p.1 <= s@.len(),
            None => spec_group(s@, i as int) == Option::<
                (Seq<(Seq<u8>, FieldValueModel)>, int),
            >::None,
        },
{
    if !(i < s.len() && s[i] == 0x5b) {
        return None;
    }
    let ne = sd_name_end_exec(s, i + 1);
    if !(ne > i + 1) {
        return None;
    }
    let sdid = copy_subrange(s, i + 1, ne);
    parse_params(s, ne, &sdid)
}

/// One or more SD groups starting at `i`, all their fields in order.
pub open spec fn spec_parse_sd(s: Seq<u8>, i: int) -> Option<(Seq<(Seq<u8>, FieldValueModel)>, int)>
    recommends
        0 <= i <= s.len(),
    decreases s.len() - i,
    when 0 <= i <= s.len()
{
    match spec_group(s, i) {
        Option::Some((fs, j)) => {
            if i < j <= s.len() {
                if j < s.len() && s[j] == 0x5b {
                    match spec_parse_sd(s, j) {
                        Option::Some((fs2, k)) => Option::Some((fs + fs2, k)),
                        Option::None => Option::None,
                    }
                } else {
                    Option::Some((fs, j))
                }
            } else {
                Option::None
            }
        },
        Option::None => Option::None,
    }
}

pub fn parse_sd(s: &[u8], i: usize) -> (r: Option<(Vec<(Vec<u8>, FieldValue)>, usize)>)
    requires
        i <= s@.len(),
    ensures
        match r {
            Some(p) => spec_parse_sd(s@, i as int) == Option::Some(
                (fields_view(p.0@), p.1 as int),
            ) && i < p.1 <= s@.len(),
            None => spec_parse_sd(s@, i as int) == Option::<
                (Seq<(Seq<u8>, FieldValueModel)>, int),
            >::None,
        },
    decreases s@.len() - i,
{
    match parse_group(s, i) {
        Some((mut fs, j)) => {
            if j < s.len() && s[j] == 0x5b {
                match parse_sd(s, j) {
                    Some((mut fs2, k)) => {
                        let ghost a = fs@;
                        let ghost b = fs2@;
                        fs.append(&mut fs2);
                        proof {
                            assert(fields_view(a + b) =~= fields_view(a) + fields_view(b));
                        }
                        Some((fs, k))
                    },
                    None => None,
                }
            } else {
                Some((fs, j))
            }
        },
        None => None,
    }
}

/// Keys pairwise distinct.
pub open spec fn keys_unique_fields(fs: Seq<(Seq<u8>, FieldValueModel)>) -> bool {
    forall|i: int, j: int| 0 <= i < j < fs.len() ==> fs[i].0 != fs[j].0
}

pub fn fields_unique(v: &Vec<(Vec<u8>, FieldValue)>) -> (r: bool)
    ensures
        r == keys_unique_fields(fields_view(v@)),
{
    let mut i: usize = 1;
    if v.len() == 0 {
        return true;
    }
    while i < v.len()
        invariant
            1 <= i <= v@.len(),
            forall|a: int, b: int| 0 <= a < b < i ==> fields_view(v@)[a].0 != fields_view(v@)[b].0,
        decreases v@.len() - i,
    {
        let mut a: usize = 0;
        while a < i
            invariant
                0 <= a <= i < v@.len(),
                forall|x: int| 0 <= x < a ==> fields_view(v@)[x].0 != fields_view(v@)[i as int].0,
            decreases i - a,
        {
            if crate::bytes::bytes_eq(v[a].0.as_slice(), v[i].0.as_slice()) {
                proof {
                    assert(fields_view(v@)[a as int].0 == fields_view(v@)[i as int].0);
                }
                return false;
            }
            a = a + 1;
        }
        i = i + 1;
    }
    true
}

/// What a structured-syslog record decodes to, if anything.
pub open spec fn spec_rfc5424_decode(s: Seq<u8>) -> Option<EventModel> {
    match spec_pri(s) {
        Option::Some((pri, i1)) => {
            let ve = token_end(s, i1);
            if ve > i1 && all_digits(s.subrange(i1, ve)) && s[i1] != 0x30 && ve < s.len() && s[ve]
                == 0x20 {
                let ts_s = ve + 1;
                let te = token_end(s, ts_s);
                if te > ts_s && te < s.len() && s[te] == 0x20 {
                    let tok = s.subrange(ts_s, te);
                    let tso: Option<Option<Timestamp>> = if tok == seq![0x2du8] {
                        Option::Some(Option::None)
                    } else {
                        match spec_rfc3339(tok) {
                            Option::Some(t) => Option::Some(Option::Some(t)),
                            Option::None => Option::None,
                        }
                    };
                    match tso {
                        Option::Some(ts) => spec_rfc5424_after_ts(s, pri, ts, te + 1),
                        Option::None => Option::None,
                    }
                } else {
                    Option::None
                }
            } else {
                Option::None
            }
        },
        Option::None => Option::None,
    }
}

/// The fields from HOST on, once PRI, VERSION and TIMESTAMP are read.
pub open spec fn spec_rfc5424_after_ts(
    s: Seq<u8>,
    pri: u8,
    ts: Option<Timestamp>,
    hs: int,
) -> Option<EventModel>
    recommends
        0 <= hs <= s.len(),
{
    let he = token_end(s, hs);
    if he > hs && he < s.len() && s[he] == 0x20 {
        let host = nil_token(s.subrange(hs, he));
        let as_ = he + 1;
        let ae = token_end(s, as_);
        if ae > as_ && ae < s.len() && s[ae] == 0x20 {
            let app = nil_token(s.subrange(as_, ae));
            let ps = ae + 1;
            let pe = token_end(s, ps);
            if pe > ps && pe < s.len() && s[pe] == 0x20 {
                let procid = nil_token(s.subrange(ps, pe));
                let ms = pe + 1;
                let me = token_end(s, ms);
                if me > ms && me < s.len() && s[me] == 0x20 {
                    let msgid = nil_token(s.subrange(ms, me));
                    let sd = me + 1;
                    let sdr: Option<(Seq<(Seq<u8>, FieldValueModel)>, int)> = if sd < s.len()
                        && s[sd] == 0x2d {
                        Option::Some((Seq::empty(), sd + 1))
                    } else {
                        spec_parse_sd(s, sd)
                    };
                    match sdr {
                        Option::Some((fields, after)) => {
                            if keys_unique_fields(fields) && after <= s.len() {
                                let msg: Option<Seq<u8>> = if after == s.len() {
                                    Option::Some(Seq::empty())
                                } else if after < s.len() && s[after] == 0x20 {
                                    Option::Some(s.subrange(after + 1, s.len() as int))
                                } else {
                                    Option::None
                                };
                                match msg {
                                    Option::Some(m) => Option::Some(
                                        EventModel {
                                            timestamp: ts,
                                            host,
                                            facility: Option::Some((pri / 8) as u8),
                                            severity: Option::Some((pri % 8) as u8),
                                            appname: app,
                                            procid,
                                            msgid,
                                            message: m,
                                            extra: fields,
                                        },
                                    ),
                                    Option::None => Option::None,
                                }
                            } else {
                                Option::None
                            }
                        },
                        Option::None => Option::None,
                    }
                } else {
                    Option::None
                }
            } else {
                Option::None
            }
        } else {
            Option::None
        }
    } else {
        Option::None
    }
}

/// Reads one token that may be `-` for absent.
fn read_nil_token(s: &[u8], i: usize, j: usize) -> (r: Option<Vec<u8>>)
    requires
        i <= j <= s@.len(),
    ensures
        match r {
            Some(v) => nil_token(s@.subrange(i as int, j as int)) == Option::Some(v@),
            None => nil_token(s@.subrange(i as int, j as int)) == Option::<Seq<u8>>::None,
        },
{
    if j - i == 1 && s[i] == 0x2d {
        proof {
            assert(s@.subrange(i as int, j as int) =~= seq![0x2du8]);
        }
        None
    } else {
        proof {
            if s@.subrange(i as int, j as int) == seq![0x2du8] {
                assert(s@.subrange(i as int, j as int).len() == 1);
                assert(s@.subrange(i as int, j as int)[0] == s@[i as int]);
                assert(seq![0x2du8][0] == 0x2d);
            }
        }
        Some(copy_subrange(s, i, j))
    }
}

/// Decodes one framed record in the structured-syslog format.
pub fn rfc5424_decode(buf: &[u8]) -> (r: Result<Event, DecodeError>)
    ensures
        match r {
            Ok(e) => spec_rfc5424_decode(buf@) == Option::Some(e@),
            Err(_) => spec_rfc5424_decode(buf@) == Option::<EventModel>::None,
        },
{
    let (pri, i1) = match parse_pri(buf) {
        Some(p) => p,
        None => {
            return Err(DecodeError::Malformed);
        },
    };
    let ve = token_end_exec(buf, i1);
    let digits_end = take_digits(buf, i1);
    proof {
        lemma_digit_run_end(buf@, i1 as int);
        lemma_find_byte(buf@, i1 as int, 0x20);
        if digits_end as int >= ve as int && ve > i1 {
            assert(all_digits(buf@.subrange(i1 as int, ve as int)));
        }
    }
    if !(ve > i1 && digits_end >= ve && buf[i1] != 0x30 && ve < buf.len()) {
        proof {
            if ve > i1 && digits_end < ve && ve <= buf@.len() {
                assert(!is_digit(buf@[digits_end as int]));
                assert(buf@.subrange(i1 as int, ve as int)[digits_end as int - i1 as int]
                    == buf@[digits_end as int]);
                assert(!all_digits(buf@.subrange(i1 as int, ve as int)));
            }
        }
        return Err(DecodeError::Malformed);
    }
    let ts_s = ve + 1;
    let te = token_end_exec(buf, ts_s);
    if !(te > ts_s && te < buf.len()) {
        return Err(DecodeError::Malformed);
    }
    let ts: Option<Timestamp> = if te - ts_s == 1 && buf[ts_s] == 0x2d {
        proof {
            assert(buf@.subrange(ts_s as int, te as int) =~= seq![0x2du8]);
        }
        None
    } else {
        proof {
            if buf@.subrange(ts_s as int, te as int) == seq![0x2du8] {
                assert(buf@.subrange(ts_s as int, te as int).len() == 1);
                assert(buf@.subrange(ts_s as int, te as int)[0] == buf@[ts_s as int]);
                assert(seq![0x2du8][0] == 0x2d);
            }
        }
        let tok = copy_subrange(buf, ts_s, te);
        match parse_rfc3339(tok.as_slice()) {
            Some(t) => Some(t),
            None => {
                return Err(DecodeError::Malformed);
            },
        }
    };
    let hs = te + 1;
    let he = token_end_exec(buf, hs);
    if !(he > hs && he < buf.len()) {
        return Err(DecodeError::Malformed);
    }
    let host = read_nil_token(buf, hs, he);
    let as_ = he + 1;
    let ae = token_end_exec(buf, as_);
    if !(ae > as_ && ae < buf.len()) {
        return Err(DecodeError::Malformed);
    }
    let app = read_nil_token(buf, as_, ae);
    let ps = ae + 1;
    let pe = token_end_exec(buf, ps);
    if !(pe > ps && pe < buf.len()) {
        return Err(DecodeError::Malformed);
    }
    let procid = read_nil_token(buf, ps, pe);
    let ms = pe + 1;
    let me = token_end_exec(buf, ms);
    if !(me > ms && me < buf.len()) {
        return Err(DecodeError::Malformed);
    }
    let msgid = read_nil_token(buf, ms, me);
    let sd = me + 1;
    let sd_res: Option<(Vec<(Vec<u8>, FieldValue)>, usize)> = if sd < buf.len() && buf[sd] == 0x2d {
        let fs: Vec<(Vec<u8>, FieldValue)> = Vec::new();
        proof {
            assert(fields_view(fs@) =~= Seq::<(Seq<u8>, FieldValueModel)>::empty());
        }
        Some((fs, sd + 1))
    } else {
        parse_sd(buf, sd)
    };
    let (fields, after) = match sd_res {
        Some(p) => p,
        None => {
            return Err(DecodeError::Malformed);
        },
    };
    if !fields_unique(&fields) {
        return Err(DecodeError::Malformed);
    }
    let message: Vec<u8> = if after == buf.len() {
        let m: Vec<u8> = Vec::new();
        proof {
            assert(m@ =~= Seq::<u8>::empty());
        }
        m
    } else if after < buf.len() && buf[after] == 0x20 {
        copy_subrange(buf, after + 1, buf.len())
    } else {
        return Err(DecodeError::Malformed);
    };
    let ev = Event {
        timestamp: ts,
        host,
        facility: Some(pri / 8),
        severity: Some(pri % 8),
        appname: app,
        procid,
        msgid,
        message,
        extra: fields,
    };
    Ok(ev)
}

} // verus!
