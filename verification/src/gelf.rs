//! The JSON log-envelope format: decoding a record into an `Event` and
//! encoding an `Event` back into envelope bytes.
//!
//! A record is one JSON object. `version` and `short_message` (or its alias
//! `message`) are required; `host`, `timestamp` (seconds since the epoch,
//! possibly fractional) and `level` (a severity, 0 to 7) are optional and
//! are omitted from the event when malformed; every other member becomes an
//! additional field, a single leading `_` stripped from its key. A repeated
//! key is a decode error.

use vstd::prelude::*;

use crate::bytes::{all_digits, copy_subrange, digit_run_end, digits_val, dec_digits, dec_fixed,
    bytes_eq, lemma_digit_run_end, lemma_digits_val_bound, lemma_pow10_add, parse_u64_digits,
    pow10, pow10_exec, take_digits};
use crate::json::{esc_bytes, append_escaped, is_json_number, is_json_number_exec,
    spec_parse_object, parse_object};
use crate::record::{fields_view, DecodeError, EncodeError, Event, EventModel, FieldValue,
    FieldValueModel, Timestamp};

verus! {

// ------------------------------------------------------------ the key names

pub open spec fn key_version() -> Seq<u8> {
    seq![0x76u8, 0x65u8, 0x72u8, 0x73u8, 0x69u8, 0x6fu8, 0x6eu8]
}

pub open spec fn key_host() -> Seq<u8> {
    seq![0x68u8, 0x6fu8, 0x73u8, 0x74u8]
}

pub open spec fn key_short_message() -> Seq<u8> {
    seq![0x73u8, 0x68u8, 0x6fu8, 0x72u8, 0x74u8, 0x5fu8, 0x6du8, 0x65u8, 0x73u8, 0x73u8, 0x61u8,
        0x67u8, 0x65u8]
}

pub open spec fn key_message() -> Seq<u8> {
    seq![0x6du8, 0x65u8, 0x73u8, 0x73u8, 0x61u8, 0x67u8, 0x65u8]
}

pub open spec fn key_timestamp() -> Seq<u8> {
    seq![0x74u8, 0x69u8, 0x6du8, 0x65u8, 0x73u8, 0x74u8, 0x61u8, 0x6du8, 0x70u8]
}

pub open spec fn key_level() -> Seq<u8> {
    seq![0x6cu8, 0x65u8, 0x76u8, 0x65u8, 0x6cu8]
}

pub open spec fn version_11() -> Seq<u8> {
    seq![0x31u8, 0x2eu8, 0x31u8]
}

pub fn lit_version() -> (v: Vec<u8>)
    ensures
        v@ == key_version(),
{
    let mut v: Vec<u8> = Vec::new();
    v.push(0x76);
    v.push(0x65);
    v.push(0x72);
    v.push(0x73);
    v.push(0x69);
    v.push(0x6f);
    v.push(0x6e);
    proof {
        assert(v@ =~= key_version());
    }
    v
}

pub fn lit_host() -> (v: Vec<u8>)
    ensures
        v@ == key_host(),
{
    let mut v: Vec<u8> = Vec::new();
    v.push(0x68);
    v.push(0x6f);
    v.push(0x73);
    v.push(0x74);
    proof {
        assert(v@ =~= key_host());
    }
    v
}

pub fn lit_short_message() -> (v: Vec<u8>)
    ensures
        v@ == key_short_message(),
{
    let mut v: Vec<u8> = Vec::new();
    v.push(0x73);
    v.push(0x68);
    v.push(0x6f);
    v.push(0x72);
    v.push(0x74);
    v.push(0x5f);
    v.push(0x6d);
    v.push(0x65);
    v.push(0x73);
    v.push(0x73);
    v.push(0x61);
    v.push(0x67);
    v.push(0x65);
    proof {
        assert(v@ =~= key_short_message());
    }
    v
}

pub fn lit_message() -> (v: Vec<u8>)
    ensures
        v@ == key_message(),
{
    let mut v: Vec<u8> = Vec::new();
    v.push(0x6d);
    v.push(0x65);
    v.push(0x73);
    v.push(0x73);
    v.push(0x61);
    v.push(0x67);
    v.push(0x65);
    proof {
        assert(v@ =~= key_message());
    }
    v
}

pub fn lit_timestamp() -> (v: Vec<u8>)
    ensures
        v@ == key_timestamp(),
{
    let mut v: Vec<u8> = Vec::new();
    v.push(0x74);
    v.push(0x69);
    v.push(0x6d);
    v.push(0x65);
    v.push(0x73);
    v.push(0x74);
    v.push(0x61);
    v.push(0x6d);
    v.push(0x70);
    proof {
        assert(v@ =~= key_timestamp());
    }
    v
}

pub fn lit_level() -> (v: Vec<u8>)
    ensures
        v@ == key_level(),
{
    let mut v: Vec<u8> = Vec::new();
    v.push(0x6c);
    v.push(0x65);
    v.push(0x76);
    v.push(0x65);
    v.push(0x6c);
    proof {
        assert(v@ =~= key_level());
    }
    v
}

pub fn lit_version_11() -> (v: Vec<u8>)
    ensures
        v@ == version_11(),
{
    let mut v: Vec<u8> = Vec::new();
    v.push(0x31);
    v.push(0x2e);
    v.push(0x31);
    proof {
        assert(v@ =~= version_11());
    }
    v
}

// ------------------------------------------------- numeric field conversion

/// A canonical timestamp: never a minus sign on zero.
pub open spec fn canonical_ts(neg: bool, sec: u64, nanos: u32) -> Timestamp {
    Timestamp { neg: neg && !(sec == 0 && nanos == 0), sec, nanos }
}

/// The timestamp a decimal number text denotes: whole seconds and the
/// first nine fraction digits as nanoseconds. Exponent notation and
/// seconds beyond `u64` do not convert.
pub open spec fn spec_num_to_timestamp(t: Seq<u8>) -> Option<Timestamp> {
    let neg0 = t.len() > 0 && t[0] == 0x2d;
    let p: int = if neg0 {
        1
    } else {
        0
    };
    let ie = digit_run_end(t, p);
    let secv = digits_val(t.subrange(p, ie));
    if ie == p {
        Option::None
    } else if ie < t.len() && t[ie] == 0x2e {
        let fe = digit_run_end(t, ie + 1);
        if fe == t.len() && fe > ie + 1 {
            let fr = t.subrange(ie + 1, fe);
            let take: int = if fr.len() >= 9 {
                9
            } else {
                fr.len() as int
            };
            let nan = digits_val(fr.take(take)) * pow10((9 - take) as nat);
            if secv > u64::MAX {
                Option::None
            } else {
                Option::Some(canonical_ts(neg0, secv as u64, nan as u32))
            }
        } else {
            Option::None
        }
    } else if ie == t.len() {
        if secv > u64::MAX {
            Option::None
        } else {
            Option::Some(canonical_ts(neg0, secv as u64, 0))
        }
    } else {
        Option::None
    }
}

/// The nanosecond part of a converted number stays below one second.
pub proof fn lemma_nanos_bound(fr: Seq<u8>, take: int)
    requires
        all_digits(fr),
        0 <= take <= 9,
        take <= fr.len(),
    ensures
        digits_val(fr.take(take)) * pow10((9 - take) as nat) < 1_000_000_000,
{
    assert(all_digits(fr.take(take)));
    lemma_digits_val_bound(fr.take(take));
    lemma_pow10_add(take as nat, (9 - take) as nat);
    crate::bytes::lemma_pow10_values();
    assert(digits_val(fr.take(take)) * pow10((9 - take) as nat) < pow10(take as nat) * pow10(
        (9 - take) as nat,
    )) by (nonlinear_arith)
        requires
            digits_val(fr.take(take)) < pow10(take as nat),
            pow10((9 - take) as nat) >= 1,
    ;
}

pub fn num_to_timestamp(t: &[u8]) -> (r: Option<Timestamp>)
    ensures
        r == spec_num_to_timestamp(t@),
        match r {
            Some(ts) => ts.valid(),
            None => true,
        },
{
    let n = t.len();
    let neg0 = n > 0 && t[0] == 0x2d;
    let p: usize = if neg0 {
        1
    } else {
        0
    };
    let ie = take_digits(t, p);
    proof {
        lemma_digit_run_end(t@, p as int);
    }
    if ie == p {
        return None;
    }
    if ie < n && t[ie] == 0x2e {
        let fe = take_digits(t, ie + 1);
        proof {
            lemma_digit_run_end(t@, ie as int + 1);
        }
        if fe == n && fe > ie + 1 {
            let fl = fe - (ie + 1);
            let take: usize = if fl >= 9 {
                9
            } else {
                fl
            };
            let nine = match parse_u64_digits(t, ie + 1, ie + 1 + take) {
                Some(v) => v,
                None => {
                    proof {
                        let fr = t@.subrange(ie as int + 1, fe as int);
                        assert(fr.take(take as int) =~= t@.subrange(
                            ie as int + 1,
                            ie as int + 1 + take,
                        ));
                        lemma_digits_val_bound(t@.subrange(ie as int + 1, ie as int + 1 + take));
                        crate::bytes::lemma_pow10_values();
                        if take < 9 {
                            lemma_pow10_add(take as nat, (9 - take) as nat);
                            assert(pow10(take as nat) <= pow10(9)) by (nonlinear_arith)
                                requires
                                    pow10(9) == pow10(take as nat) * pow10((9 - take) as nat),
                                    pow10((9 - take) as nat) >= 1,
                                    pow10(take as nat) >= 0,
                            ;
                        }
                        assert(false);
                    }
                    0
                },
            };
            proof {
                let fr = t@.subrange(ie as int + 1, fe as int);
                assert(fr.take(take as int) =~= t@.subrange(ie as int + 1, ie as int + 1 + take));
                lemma_nanos_bound(fr, take as int);
            }
            let scale = pow10_exec(9 - take);
            let nanos64 = nine * scale;
            proof {
                let fr = t@.subrange(ie as int + 1, fe as int);
                assert(nine as nat * scale as nat == digits_val(fr.take(take as int)) * pow10(
                    (9 - take) as nat,
                ));
            }
            let nanos = nanos64 as u32;
            match parse_u64_digits(t, p, ie) {
                Some(sec) => {
                    let ts = Timestamp { neg: neg0 && !(sec == 0 && nanos == 0), sec, nanos };
                    Some(ts)
                },
                None => None,
            }
        } else {
            None
        }
    } else if ie == n {
        match parse_u64_digits(t, p, ie) {
            Some(sec) => {
                let ts = Timestamp { neg: neg0 && !(sec == 0), sec, nanos: 0 };
                Some(ts)
            },
            None => None,
        }
    } else {
        None
    }
}

/// The severity a decimal number text denotes, when it is a plain integer
/// no larger than 7.
pub open spec fn spec_level_to_severity(t: Seq<u8>) -> Option<u8> {
    if t.len() > 0 && all_digits(t) && digits_val(t) <= 7 {
        Option::Some(digits_val(t) as u8)
    } else {
        Option::None
    }
}

pub fn level_to_severity(t: &[u8]) -> (r: Option<u8>)
    ensures
        r == spec_level_to_severity(t@),
        match r {
            Some(s) => s < 8,
            None => true,
        },
{
    let e = take_digits(t, 0);
    proof {
        lemma_digit_run_end(t@, 0);
    }
    if t.len() == 0 || e != t.len() {
        return None;
    }
    proof {
        assert(t@.subrange(0, t@.len() as int) =~= t@);
    }
    match parse_u64_digits(t, 0, t.len()) {
        Some(v) => {
            if v <= 7 {
                Some(v as u8)
            } else {
                None
            }
        },
        None => None,
    }
}

// ------------------------------------------------------------ decoding fold

/// A key's place in the event: a leading `_` is stripped.
pub open spec fn norm_key(k: Seq<u8>) -> Seq<u8> {
    if k.len() > 0 && k[0] == 0x5f {
        k.skip(1)
    } else {
        k
    }
}

/// The decoding state while folding an object's members into an event.
pub struct GelfAcc {
    pub ev: EventModel,
    pub has_version: bool,
    pub has_host: bool,
    pub has_ts: bool,
    pub has_level: bool,
    pub has_msg: bool,
}

pub open spec fn gelf_init() -> GelfAcc {
    GelfAcc {
        ev: EventModel {
            timestamp: Option::None,
            host: Option::None,
            facility: Option::None,
            severity: Option::None,
            appname: Option::None,
            procid: Option::None,
            msgid: Option::None,
            message: Seq::empty(),
            extra: Seq::empty(),
        },
        has_version: false,
        has_host: false,
        has_ts: false,
        has_level: false,
        has_msg: false,
    }
}

/// Folds one member into the state; `None` is a decode error (a repeated
/// key, or a mandatory field of the wrong shape).
pub open spec fn spec_gelf_step(acc: GelfAcc, key: Seq<u8>, val: FieldValueModel) -> Option<
    GelfAcc,
> {
    if key == key_version() {
        if acc.has_version {
            Option::None
        } else {
            match val {
                FieldValueModel::Str(_) => Option::Some(GelfAcc { has_version: true, ..acc }),
                _ => Option::None,
            }
        }
    } else if key == key_host() {
        if acc.has_host {
            Option::None
        } else {
            match val {
                FieldValueModel::Str(h) => Option::Some(
                    GelfAcc {
                        ev: EventModel { host: Option::Some(h), ..acc.ev },
                        has_host: true,
                        ..acc
                    },
                ),
                _ => Option::Some(GelfAcc { has_host: true, ..acc }),
            }
        }
    } else if key == key_short_message() || key == key_message() {
        if acc.has_msg {
            Option::None
        } else {
            match val {
                FieldValueModel::Str(m) => Option::Some(
                    GelfAcc { ev: EventModel { message: m, ..acc.ev }, has_msg: true, ..acc },
                ),
                _ => Option::None,
            }
        }
    } else if key == key_timestamp() {
        if acc.has_ts {
            Option::None
        } else {
            match val {
                FieldValueModel::Num(t) => Option::Some(
                    GelfAcc {
                        ev: EventModel { timestamp: spec_num_to_timestamp(t), ..acc.ev },
                        has_ts: true,
                        ..acc
                    },
                ),
                _ => Option::Some(GelfAcc { has_ts: true, ..acc }),
            }
        }
    } else if key == key_level() {
        if acc.has_level {
            Option::None
        } else {
            match val {
                FieldValueModel::Num(t) => Option::Some(
                    GelfAcc {
                        ev: EventModel { severity: spec_level_to_severity(t), ..acc.ev },
                        has_level: true,
                        ..acc
                    },
                ),
                _ => Option::Some(GelfAcc { has_level: true, ..acc }),
            }
        }
    } else {
        let nk = norm_key(key);
        if exists|x: int| 0 <= x < acc.ev.extra.len() && #[trigger] acc.ev.extra[x].0 == nk {
            Option::None
        } else {
            Option::Some(
                GelfAcc { ev: EventModel { extra: acc.ev.extra.push((nk, val)), ..acc.ev }, ..acc },
            )
        }
    }
}

pub open spec fn spec_gelf_fold(fields: Seq<(Seq<u8>, FieldValueModel)>, acc: GelfAcc) -> Option<
    GelfAcc,
>
    decreases fields.len(),
{
    if fields.len() == 0 {
        Option::Some(acc)
    } else {
        match spec_gelf_step(acc, fields[0].0, fields[0].1) {
            Option::Some(a2) => spec_gelf_fold(fields.skip(1), a2),
            Option::None => Option::None,
        }
    }
}

/// What a record's bytes decode to, if anything.
pub open spec fn spec_gelf_decode(s: Seq<u8>) -> Option<EventModel> {
    match spec_parse_object(s) {
        Option::Some(fields) => match spec_gelf_fold(fields, gelf_init()) {
            Option::Some(acc) => {
                if acc.has_version && acc.has_msg {
                    Option::Some(acc.ev)
                } else {
                    Option::None
                }
            },
            Option::None => Option::None,
        },
        Option::None => Option::None,
    }
}

/// Is `key` already among the extra fields?
fn find_key(extra: &Vec<(Vec<u8>, FieldValue)>, key: &[u8]) -> (r: bool)
    ensures
        r == (exists|x: int|
            0 <= x < fields_view(extra@).len() && #[trigger] fields_view(extra@)[x].0 == key@),
{
    let mut i: usize = 0;
    while i < extra.len()
        invariant
            i <= extra@.len(),
            forall|x: int| 0 <= x < i ==> #[trigger] fields_view(extra@)[x].0 != key@,
        decreases extra@.len() - i,
    {
        if bytes_eq(extra[i].0.as_slice(), key) {
            assert(fields_view(extra@)[i as int].0 == key@);
            return true;
        }
        i = i + 1;
    }
    false
}

/// Decodes one framed record in the JSON log-envelope format.
pub fn gelf_decode(buf: &[u8]) -> (r: Result<Event, DecodeError>)
    ensures
        match r {
            Ok(e) => spec_gelf_decode(buf@) == Option::Some(e@),
            Err(_) => spec_gelf_decode(buf@) == Option::<EventModel>::None,
        },
{
    let fields = match parse_object(buf) {
        Some(f) => f,
        None => {
            return Err(DecodeError::Malformed);
        },
    };
    let mut ev = Event::empty();
    let mut has_version = false;
    let mut has_host = false;
    let mut has_ts = false;
    let mut has_level = false;
    let mut has_msg = false;
    let k_version = lit_version();
    let k_host = lit_host();
    let k_short = lit_short_message();
    let k_message = lit_message();
    let k_timestamp = lit_timestamp();
    let k_level = lit_level();
    let ghost all = fields_view(fields@);
    let mut i: usize = 0;
    proof {
        assert(all.skip(0) =~= all);
    }
    while i < fields.len()
        invariant
            i <= fields@.len(),
            all == fields_view(fields@),
            spec_parse_object(buf@) == Option::Some(all),
            k_version@ == key_version(),
            k_host@ == key_host(),
            k_short@ == key_short_message(),
            k_message@ == key_message(),
            k_timestamp@ == key_timestamp(),
            k_level@ == key_level(),
            spec_gelf_fold(all, gelf_init()) == spec_gelf_fold(
                all.skip(i as int),
                GelfAcc { ev: ev@, has_version, has_host, has_ts, has_level, has_msg },
            ),
        decreases fields@.len() - i,
    {
        let ghost acc = GelfAcc { ev: ev@, has_version, has_host, has_ts, has_level, has_msg };
        proof {
            assert(all.skip(i as int)[0] == all[i as int]);
            assert(all.skip(i as int).skip(1) =~= all.skip(i as int + 1));
        }
        let key = &fields[i].0;
        let val = &fields[i].1;
        proof {
            assert(all[i as int] == (key@, val@));
        }
        if bytes_eq(key.as_slice(), k_version.as_slice()) {
            if has_version {
                return Err(DecodeError::Malformed);
            }
            match val {
                FieldValue::Str(_) => {
                    has_version = true;
                },
                _ => {
                    return Err(DecodeError::Malformed);
                },
            }
        } else if bytes_eq(key.as_slice(), k_host.as_slice()) {
            if has_host {
                return Err(DecodeError::Malformed);
            }
            has_host = true;
            match val {
                FieldValue::Str(h) => {
                    ev.host = Some(crate::record::copy_bytes(h));
                },
                _ => {},
            }
        } else if bytes_eq(key.as_slice(), k_short.as_slice()) || bytes_eq(
            key.as_slice(),
            k_message.as_slice(),
        ) {
            if has_msg {
                return Err(DecodeError::Malformed);
            }
            match val {
                FieldValue::Str(m) => {
                    ev.message = crate::record::copy_bytes(m);
                    has_msg = true;
                },
                _ => {
                    return Err(DecodeError::Malformed);
                },
            }
        } else if bytes_eq(key.as_slice(), k_timestamp.as_slice()) {
            if has_ts {
                return Err(DecodeError::Malformed);
            }
            has_ts = true;
            match val {
                FieldValue::Num(t) => {
                    ev.timestamp = num_to_timestamp(t.as_slice());
                },
                _ => {},
            }
        } else if bytes_eq(key.as_slice(), k_level.as_slice()) {
            if has_level {
                return Err(DecodeError::Malformed);
            }
            has_level = true;
            match val {
                FieldValue::Num(t) => {
                    ev.severity = level_to_severity(t.as_slice());
                },
                _ => {},
            }
        } else {
            let nk: Vec<u8> = if key.len() > 0 && key[0] == 0x5f {
                copy_subrange(key.as_slice(), 1, key.len())
            } else {
                crate::record::copy_bytes(key)
            };
            proof {
                assert(nk@ == norm_key(key@));
            }
            if find_key(&ev.extra, nk.as_slice()) {
                return Err(DecodeError::Malformed);
            }
            let ghost old_extra = ev.extra@;
            ev.extra.push((nk, val.duplicate()));
            proof {
                assert(fields_view(ev.extra@) =~= fields_view(old_extra).push((norm_key(key@), val@)));
            }
        }
        proof {
            let acc2 = GelfAcc { ev: ev@, has_version, has_host, has_ts, has_level, has_msg };
            assert(spec_gelf_step(acc, key@, val@) == Option::Some(acc2));
        }
        i = i + 1;
    }
    proof {
        assert(all.skip(fields@.len() as int) =~= Seq::<(Seq<u8>, FieldValueModel)>::empty());
    }
    if has_version && has_msg {
        Ok(ev)
    } else {
        Err(DecodeError::Malformed)
    }
}


// ----------------------------------------------------------------- encoding

/// A JSON string literal: quote, escaped bytes, quote.
pub open spec fn json_str(t: Seq<u8>) -> Seq<u8> {
    seq![0x22u8] + esc_bytes(t) + seq![0x22u8]
}

/// The timestamp as a decimal number: sign, whole seconds, a dot, and the
/// nanosecond part as exactly nine digits.
pub open spec fn ts_text(t: Timestamp) -> Seq<u8> {
    (if t.neg {
        seq![0x2du8]
    } else {
        Seq::<u8>::empty()
    }) + dec_digits(t.sec as nat) + seq![0x2eu8] + dec_fixed(t.nanos as nat, 9)
}

pub open spec fn render_value(v: FieldValueModel) -> Seq<u8> {
    match v {
        FieldValueModel::Str(t) => json_str(t),
        FieldValueModel::Num(t) => t,
        FieldValueModel::Bool(b) => {
            if b {
                seq![0x74u8, 0x72u8, 0x75u8, 0x65u8]
            } else {
                seq![0x66u8, 0x61u8, 0x6cu8, 0x73u8, 0x65u8]
            }
        },
        FieldValueModel::Null => seq![0x6eu8, 0x75u8, 0x6cu8, 0x6cu8],
    }
}

/// One additional field: a comma, the key with a `_` prefix, a colon, the
/// value.
pub open spec fn render_extra(k: Seq<u8>, v: FieldValueModel) -> Seq<u8> {
    seq![0x2cu8, 0x22u8, 0x5fu8] + esc_bytes(k) + seq![0x22u8, 0x3au8] + render_value(v)
}

pub open spec fn render_extras(fs: Seq<(Seq<u8>, FieldValueModel)>) -> Seq<u8>
    decreases fs.len(),
{
    if fs.len() == 0 {
        Seq::empty()
    } else {
        render_extra(fs[0].0, fs[0].1) + render_extras(fs.skip(1))
    }
}

pub proof fn lemma_render_extras_push(fs: Seq<(Seq<u8>, FieldValueModel)>, f: (Seq<u8>, FieldValueModel))
    ensures
        render_extras(fs.push(f)) == render_extras(fs) + render_extra(f.0, f.1),
    decreases fs.len(),
{
    if fs.len() == 0 {
        assert(fs.push(f)[0] == f);
        assert(fs.push(f).skip(1) =~= Seq::<(Seq<u8>, FieldValueModel)>::empty());
        assert(render_extras(fs.push(f)) == render_extra(f.0, f.1) + render_extras(
            Seq::<(Seq<u8>, FieldValueModel)>::empty(),
        ));
        assert(render_extras(fs.push(f)) =~= render_extras(fs) + render_extra(f.0, f.1));
    } else {
        assert(fs.push(f)[0] == fs[0]);
        assert(fs.push(f).skip(1) =~= fs.skip(1).push(f));
        lemma_render_extras_push(fs.skip(1), f);
        assert(render_extras(fs.push(f)) =~= render_extras(fs) + render_extra(f.0, f.1));
    }
}

/// A later field after the first: comma, key, colon.
pub open spec fn key_colon(k: Seq<u8>) -> Seq<u8> {
    seq![0x2cu8] + json_str(k) + seq![0x3au8]
}

/// What the envelope encoder accepts: a well-formed timestamp and numeric
/// extras that really are decimal numbers.
pub open spec fn spec_gelf_encodable(m: EventModel) -> bool {
    &&& match m.timestamp {
        Option::Some(t) => t.valid(),
        Option::None => true,
    }
    &&& forall|i: int|
        0 <= i < m.extra.len() ==> match #[trigger] m.extra[i].1 {
            FieldValueModel::Num(t) => is_json_number(t),
            _ => true,
        }
}

/// The envelope bytes for an event: `version` then `host` (if any), the
/// message, `timestamp` and `level` (if any), then every additional field
/// with a `_` prefix on its key.
pub open spec fn spec_gelf_encode(m: EventModel) -> Seq<u8> {
    seq![0x7bu8] + json_str(key_version()) + seq![0x3au8] + json_str(version_11()) + (match m.host {
        Option::Some(h) => key_colon(key_host()) + json_str(h),
        Option::None => Seq::<u8>::empty(),
    }) + key_colon(key_short_message()) + json_str(m.message) + (match m.timestamp {
        Option::Some(t) => key_colon(key_timestamp()) + ts_text(t),
        Option::None => Seq::<u8>::empty(),
    }) + (match m.severity {
        Option::Some(l) => key_colon(key_level()) + dec_digits(l as nat),
        Option::None => Seq::<u8>::empty(),
    }) + render_extras(m.extra) + seq![0x7du8]
}

/// Appends a copy of `s`.
pub fn append_bytes(out: &mut Vec<u8>, s: &[u8])
    ensures
        final(out)@ == old(out)@ + s@,
{
    let mut i: usize = 0;
    while i < s.len()
        invariant
            i <= s@.len(),
            out@ == old(out)@ + s@.take(i as int),
        decreases s@.len() - i,
    {
        out.push(s[i]);
        i = i + 1;
        proof {
            assert(old(out)@ + s@.take(i as int - 1) + seq![s@[i as int - 1]] =~= old(out)@
                + s@.take(i as int));
        }
    }
    proof {
        assert(old(out)@ + s@.take(s@.len() as int) =~= old(out)@ + s@);
    }
}

/// Appends `t` as a JSON string literal.
pub fn append_json_str(out: &mut Vec<u8>, t: &[u8])
    ensures
        final(out)@ == old(out)@ + json_str(t@),
{
    out.push(0x22);
    append_escaped(out, t);
    out.push(0x22);
    proof {
        assert(out@ =~= old(out)@ + json_str(t@));
    }
}

/// Appends one member value.
pub fn append_value(out: &mut Vec<u8>, v: &FieldValue)
    ensures
        final(out)@ == old(out)@ + render_value(v@),
{
    match v {
        FieldValue::Str(t) => {
            append_json_str(out, t.as_slice());
        },
        FieldValue::Num(t) => {
            append_bytes(out, t.as_slice());
        },
        FieldValue::Bool(b) => {
            if *b {
                out.push(0x74);
                out.push(0x72);
                out.push(0x75);
                out.push(0x65);
            } else {
                out.push(0x66);
                out.push(0x61);
                out.push(0x6c);
                out.push(0x73);
                out.push(0x65);
            }
            proof {
                assert(out@ =~= old(out)@ + render_value(v@));
            }
        },
        FieldValue::Null => {
            out.push(0x6e);
            out.push(0x75);
            out.push(0x6c);
            out.push(0x6c);
            proof {
                assert(out@ =~= old(out)@ + render_value(v@));
            }
        },
    }
}

/// The `w` least-significant decimal digits of `n`, zero padded,
/// executably.
pub fn dec_fixed_exec(n: u64, w: usize) -> (v: Vec<u8>)
    ensures
        v@ == dec_fixed(n as nat, w as nat),
    decreases w,
{
    if w == 0 {
        let v: Vec<u8> = Vec::new();
        proof {
            assert(v@ =~= dec_fixed(n as nat, 0));
        }
        v
    } else {
        let mut v = dec_fixed_exec(n / 10, w - 1);
        v.push(0x30 + (n % 10) as u8);
        proof {
            assert(v@ =~= dec_fixed(n as nat, w as nat));
        }
        v
    }
}

/// Appends the timestamp as a decimal number of seconds.
pub fn append_ts(out: &mut Vec<u8>, t: Timestamp)
    ensures
        final(out)@ == old(out)@ + ts_text(t),
{
    if t.neg {
        out.push(0x2d);
    }
    let sec = crate::bytes::u64_to_dec(t.sec);
    append_bytes(out, sec.as_slice());
    out.push(0x2e);
    let frac = dec_fixed_exec(t.nanos as u64, 9);
    append_bytes(out, frac.as_slice());
    proof {
        assert(out@ =~= old(out)@ + ts_text(t));
    }
}

/// Appends `,"key":` for a later member.
pub fn append_key_colon(out: &mut Vec<u8>, k: &[u8])
    ensures
        final(out)@ == old(out)@ + key_colon(k@),
{
    out.push(0x2c);
    append_json_str(out, k);
    out.push(0x3a);
    proof {
        assert(out@ =~= old(out)@ + key_colon(k@));
    }
}

/// Encodes an event as one JSON log-envelope record.
pub fn gelf_encode(e: &Event) -> (r: Result<Vec<u8>, EncodeError>)
    ensures
        match r {
            Ok(v) => spec_gelf_encodable(e@) && v@ == spec_gelf_encode(e@),
            Err(_) => !spec_gelf_encodable(e@),
        },
{
    match e.timestamp {
        Some(t) => {
            if !(t.nanos < 1_000_000_000 && !(t.neg && t.sec == 0 && t.nanos == 0)) {
                return Err(EncodeError::BadTimestamp);
            }
        },
        None => {},
    }
    let mut i: usize = 0;
    while i < e.extra.len()
        invariant
            i <= e.extra@.len(),
            forall|x: int|
                0 <= x < i ==> match #[trigger] fields_view(e.extra@)[x].1 {
                    FieldValueModel::Num(t) => is_json_number(t),
                    _ => true,
                },
        decreases e.extra@.len() - i,
    {
        match &e.extra[i].1 {
            FieldValue::Num(t) => {
                if !is_json_number_exec(t.as_slice()) {
                    proof {
                        assert(match fields_view(e.extra@)[i as int].1 {
                            FieldValueModel::Num(t2) => !is_json_number(t2),
                            _ => false,
                        });
                    }
                    return Err(EncodeError::BadNumber);
                }
            },
            _ => {},
        }
        i = i + 1;
    }
    let mut out: Vec<u8> = Vec::new();
    out.push(0x7b);
    let k_version = lit_version();
    append_json_str(&mut out, k_version.as_slice());
    out.push(0x3a);
    let v11 = lit_version_11();
    append_json_str(&mut out, v11.as_slice());
    let ghost after_version = out@;
    proof {
        assert(after_version =~= seq![0x7bu8] + json_str(key_version()) + seq![0x3au8] + json_str(
            version_11(),
        ));
    }
    match &e.host {
        Some(h) => {
            let k_host = lit_host();
            append_key_colon(&mut out, k_host.as_slice());
            append_json_str(&mut out, h.as_slice());
        },
        None => {},
    }
    let ghost after_host = out@;
    proof {
        assert(after_host =~= after_version + (match e@.host {
            Option::Some(h) => key_colon(key_host()) + json_str(h),
            Option::None => Seq::<u8>::empty(),
        }));
    }
    let k_short = lit_short_message();
    append_key_colon(&mut out, k_short.as_slice());
    append_json_str(&mut out, e.message.as_slice());
    let ghost after_msg = out@;
    proof {
        assert(after_msg =~= after_host + key_colon(key_short_message()) + json_str(e@.message));
    }
    match e.timestamp {
        Some(t) => {
            let k_timestamp = lit_timestamp();
            append_key_colon(&mut out, k_timestamp.as_slice());
            append_ts(&mut out, t);
        },
        None => {},
    }
    let ghost after_ts = out@;
    proof {
        assert(after_ts =~= after_msg + (match e@.timestamp {
            Option::Some(t) => key_colon(key_timestamp()) + ts_text(t),
            Option::None => Seq::<u8>::empty(),
        }));
    }
    match e.severity {
        Some(l) => {
            let k_level = lit_level();
            append_key_colon(&mut out, k_level.as_slice());
            let digits = crate::bytes::u64_to_dec(l as u64);
            append_bytes(&mut out, digits.as_slice());
        },
        None => {},
    }
    let ghost after_level = out@;
    proof {
        assert(after_level =~= after_ts + (match e@.severity {
            Option::Some(l) => key_colon(key_level()) + dec_digits(l as nat),
            Option::None => Seq::<u8>::empty(),
        }));
    }
    let mut x: usize = 0;
    proof {
        assert(fields_view(e.extra@).take(0) =~= Seq::<(Seq<u8>, FieldValueModel)>::empty());
        assert(out@ =~= after_level + render_extras(fields_view(e.extra@).take(0)));
    }
    while x < e.extra.len()
        invariant
            x <= e.extra@.len(),
            out@ == after_level + render_extras(fields_view(e.extra@).take(x as int)),
        decreases e.extra@.len() - x,
    {
        out.push(0x2c);
        out.push(0x22);
        out.push(0x5f);
        append_escaped(&mut out, e.extra[x].0.as_slice());
        out.push(0x22);
        out.push(0x3a);
        append_value(&mut out, &e.extra[x].1);
        proof {
            let fv = fields_view(e.extra@);
            lemma_render_extras_push(fv.take(x as int), fv[x as int]);
            assert(fv.take(x as int).push(fv[x as int]) =~= fv.take(x as int + 1));
            assert(out@ =~= after_level + render_extras(fv.take(x as int)) + render_extra(
                fv[x as int].0,
                fv[x as int].1,
            ));
            assert(out@ =~= after_level + render_extras(fv.take(x as int + 1)));
        }
        x = x + 1;
    }
    out.push(0x7d);
    proof {
        assert(fields_view(e.extra@).take(e.extra@.len() as int) =~= fields_view(e.extra@));
        assert(out@ =~= spec_gelf_encode(e@));
    }
    Ok(out)
}

} // verus!
