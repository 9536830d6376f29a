//! The tab-separated key/value format: each record is `label:value` pairs
//! separated by a horizontal tab. The labels `time`, `host`, `level` and
//! `message` map to the event's own attributes; every other label becomes
//! an additional field. A pair without a colon, or a repeated label, fails
//! the whole record.

use vstd::prelude::*;

use crate::bytes::{bytes_eq, copy_subrange};
use crate::gelf::{spec_level_to_severity, level_to_severity};
use crate::record::{fields_view, DecodeError, Event, EventModel, FieldValue, FieldValueModel,
    Timestamp};
use crate::splitter::{find_byte, find_byte_from, lemma_find_byte};
use crate::timestamp::{spec_rfc3339, parse_rfc3339};

verus! {

pub open spec fn key_time() -> Seq<u8> {
    seq![0x74u8, 0x69u8, 0x6du8, 0x65u8]
}

pub fn lit_time() -> (v: Vec<u8>)
    ensures
        v@ == key_time(),
{
    let mut v: Vec<u8> = Vec::new();
    v.push(0x74);
    v.push(0x69);
    v.push(0x6d);
    v.push(0x65);
    proof {
        assert(v@ =~= key_time());
    }
    v
}

pub open spec fn key_lhost() -> Seq<u8> {
    seq![0x68u8, 0x6fu8, 0x73u8, 0x74u8]
}

pub fn lit_lhost() -> (v: Vec<u8>)
    ensures
        v@ == key_lhost(),
{
    let mut v: Vec<u8> = Vec::new();
    v.push(0x68);
    v.push(0x6f);
    v.push(0x73);
    v.push(0x74);
    proof {
        assert(v@ =~= key_lhost());
    }
    v
}

pub open spec fn key_llevel() -> Seq<u8> {
    seq![0x6cu8, 0x65u8, 0x76u8, 0x65u8, 0x6cu8]
}

pub fn lit_llevel() -> (v: Vec<u8>)
    ensures
        v@ == key_llevel(),
{
    let mut v: Vec<u8> = Vec::new();
    v.push(0x6c);
    v.push(0x65);
    v.push(0x76);
    v.push(0x65);
    v.push(0x6c);
    proof {
        assert(v@ =~= key_llevel());
    }
    v
}

pub open spec fn key_lmessage() -> Seq<u8> {
    seq![0x6du8, 0x65u8, 0x73u8, 0x73u8, 0x61u8, 0x67u8, 0x65u8]
}

pub fn lit_lmessage() -> (v: Vec<u8>)
    ensures
        v@ == key_lmessage(),
{
    let mut v: Vec<u8> = Vec::new();
    v.push(0x6d);
    v.push(0x65);
    v.push(0x73);
    v.push(0x73);
    v.push(0x61);
    v.push(0x67);
    v.push(0x65);
    proof {
        assert(v@ =~= key_lmessage());
    }
    v
}


/// The label/value pairs of one record: segments split on tab, each with
/// a colon; the colon must come before the segment's end.
pub open spec fn spec_ltsv_fields(s: Seq<u8>, i: int) -> Option<Seq<(Seq<u8>, Seq<u8>)>>
    recommends
        0 <= i <= s.len(),
    decreases s.len() - i,
    when 0 <= i <= s.len()
{
    let e: int = match find_byte(s, i, 0x09) {
        Option::Some(k) => k,
        Option::None => s.len() as int,
    };
    match find_byte(s, i, 0x3a) {
        Option::Some(c) => {
            if c < e {
                let pair = (s.subrange(i, c), s.subrange(c + 1, e));
                if e == s.len() {
                    Option::Some(seq![pair])
                } else if i < e + 1 <= s.len() {
                    match spec_ltsv_fields(s, e + 1) {
                        Option::Some(rest) => Option::Some(seq![pair] + rest),
                        Option::None => Option::None,
                    }
                } else {
                    Option::None
                }
            } else {
                Option::None
            }
        },
        Option::None => Option::None,
    }
}

pub fn parse_ltsv_fields(s: &[u8], i: usize) -> (r: Option<Vec<(Vec<u8>, Vec<u8>)>>)
    requires
        i <= s@.len(),
    ensures
        match r {
            Some(fs) => spec_ltsv_fields(s@, i as int) == Option::Some(
                fs@.map_values(|p: (Vec<u8>, Vec<u8>)| (p.0@, p.1@)),
            ),
            None => spec_ltsv_fields(s@, i as int) == Option::<Seq<(Seq<u8>, Seq<u8>)>>::None,
        },
    decreases s@.len() - i,
{
    proof {
        lemma_find_byte(s@, i as int, 0x09);
        lemma_find_byte(s@, i as int, 0x3a);
    }
    let e: usize = match find_byte_from(s, i, 0x09) {
        Some(k) => k,
        None => s.len(),
    };
    let c: usize = match find_byte_from(s, i, 0x3a) {
        Some(k) => k,
        None => {
            return None;
        },
    };
    if !(c < e) {
        return None;
    }
    let label = copy_subrange(s, i, c);
    let value = copy_subrange(s, c + 1, e);
    if e == s.len() {
        let mut fs: Vec<(Vec<u8>, Vec<u8>)> = Vec::new();
        fs.push((label, value));
        proof {
            assert(fs@.map_values(|p: (Vec<u8>, Vec<u8>)| (p.0@, p.1@)) =~= seq![
                (s@.subrange(i as int, c as int), s@.subrange(c as int + 1, e as int)),
            ]);
        }
        Some(fs)
    } else {
        match parse_ltsv_fields(s, e + 1) {
            Some(mut rest) => {
                let ghost prev = rest@;
                rest.insert(0, (label, value));
                proof {
                    assert(rest@.map_values(|p: (Vec<u8>, Vec<u8>)| (p.0@, p.1@)) =~= seq![
                        (s@.subrange(i as int, c as int), s@.subrange(c as int + 1, e as int)),
                    ] + prev.map_values(|p: (Vec<u8>, Vec<u8>)| (p.0@, p.1@)));
                }
                Some(rest)
            },
            None => None,
        }
    }
}

/// The decoding state while folding pairs into an event.
pub struct LtsvAcc {
    pub ev: EventModel,
    pub has_time: bool,
    pub has_host: bool,
    pub has_level: bool,
    pub has_msg: bool,
}

pub open spec fn ltsv_init() -> LtsvAcc {
    LtsvAcc {
        ev: EventModel {
            timestamp: Option::None,
            host: Option::None,
            facility: Option::None,
            severity: Option::None,
            appname: Option::None,
            procid: Option::None,
            msgid: Option::None,
            message: Seq::empty(),
            extra: Seq::empty(),
        },
        has_time: false,
        has_host: false,
        has_level: false,
        has_msg: false,
    }
}

/// Folds one pair into the state; a repeated label is a decode error, a
/// malformed `time` or `level` value is omitted.
pub open spec fn spec_ltsv_step(acc: LtsvAcc, k: Seq<u8>, v: Seq<u8>) -> Option<LtsvAcc> {
    if k == key_time() {
        if acc.has_time {
            Option::None
        } else {
            Option::Some(
                LtsvAcc {
                    ev: EventModel { timestamp: spec_rfc3339(v), ..acc.ev },
                    has_time: true,
                    ..acc
                },
            )
        }
    } else if k == key_lhost() {
        if acc.has_host {
            Option::None
        } else {
            Option::Some(
                LtsvAcc {
                    ev: EventModel { host: Option::Some(v), ..acc.ev },
                    has_host: true,
                    ..acc
                },
            )
        }
    } else if k == key_llevel() {
        if acc.has_level {
            Option::None
        } else {
            Option::Some(
                LtsvAcc {
                    ev: EventModel { severity: spec_level_to_severity(v), ..acc.ev },
                    has_level: true,
                    ..acc
                },
            )
        }
    } else if k == key_lmessage() {
        if acc.has_msg {
            Option::None
        } else {
            Option::Some(
                LtsvAcc { ev: EventModel { message: v, ..acc.ev }, has_msg: true, ..acc },
            )
        }
    } else {
        if exists|x: int| 0 <= x < acc.ev.extra.len() && #[trigger] acc.ev.extra[x].0 == k {
            Option::None
        } else {
            Option::Some(
                LtsvAcc {
                    ev: EventModel {
                        extra: acc.ev.extra.push((k, FieldValueModel::Str(v))),
                        ..acc.ev
                    },
                    ..acc
                },
            )
        }
    }
}

pub open spec fn spec_ltsv_fold(fields: Seq<(Seq<u8>, Seq<u8>)>, acc: LtsvAcc) -> Option<LtsvAcc>
    decreases fields.len(),
{
    if fields.len() == 0 {
        Option::Some(acc)
    } else {
        match spec_ltsv_step(acc, fields[0].0, fields[0].1) {
            Option::Some(a2) => spec_ltsv_fold(fields.skip(1), a2),
            Option::None => Option::None,
        }
    }
}

/// What a tab-separated record decodes to, if anything.
pub open spec fn spec_ltsv_decode(s: Seq<u8>) -> Option<EventModel> {
    match spec_ltsv_fields(s, 0) {
        Option::Some(fields) => match spec_ltsv_fold(fields, ltsv_init()) {
            Option::Some(acc) => Option::Some(acc.ev),
            Option::None => Option::None,
        },
        Option::None => Option::None,
    }
}

/// Is `key` already among the extra fields?
fn ltsv_find_key(extra: &Vec<(Vec<u8>, FieldValue)>, key: &[u8]) -> (r: bool)
    ensures
        r == (exists|x: int|
            0 <= x < fields_view(extra@).len() && #[trigger] fields_view(extra@)[x].0 == key@),
{
    let mut i: usize = 0;
    while i < extra.len()
        invariant
            i <= extra@.len(),
            forall|x: int| 0 <= x < i ==> #[trigger] fields_view(extra@)[x].0 != key@,
        decreases extra@.len() - i,
    {
        if bytes_eq(extra[i].0.as_slice(), key) {
            assert(fields_view(extra@)[i as int].0 == key@);
            return true;
        }
        i = i + 1;
    }
    false
}

/// Decodes one framed record in the tab-separated key/value format.
pub fn ltsv_decode(buf: &[u8]) -> (r: Result<Event, DecodeError>)
    ensures
        match r {
            Ok(e) => spec_ltsv_decode(buf@) == Option::Some(e@),
            Err(_) => spec_ltsv_decode(buf@) == Option::<EventModel>::None,
        },
{
    let fields = match parse_ltsv_fields(buf, 0) {
        Some(f) => f,
        None => {
            return Err(DecodeError::Malformed);
        },
    };
    let ghost all = fields@.map_values(|p: (Vec<u8>, Vec<u8>)| (p.0@, p.1@));
    let mut ev = Event::empty();
    let mut has_time = false;
    let mut has_host = false;
    let mut has_level = false;
    let mut has_msg = false;
    let k_time = lit_time();
    let k_host = lit_lhost();
    let k_level = lit_llevel();
    let k_message = lit_lmessage();
    let mut i: usize = 0;
    proof {
        assert(all.skip(0) =~= all);
    }
    while i < fields.len()
        invariant
            i <= fields@.len(),
            all == fields@.map_values(|p: (Vec<u8>, Vec<u8>)| (p.0@, p.1@)),
            spec_ltsv_fields(buf@, 0) == Option::Some(all),
            k_time@ == key_time(),
            k_host@ == key_lhost(),
            k_level@ == key_llevel(),
            k_message@ == key_lmessage(),
            spec_ltsv_fold(all, ltsv_init()) == spec_ltsv_fold(
                all.skip(i as int),
                LtsvAcc { ev: ev@, has_time, has_host, has_level, has_msg },
            ),
        decreases fields@.len() - i,
    {
        let ghost acc = LtsvAcc { ev: ev@, has_time, has_host, has_level, has_msg };
        proof {
            assert(all.skip(i as int)[0] == all[i as int]);
            assert(all.skip(i as int).skip(1) =~= all.skip(i as int + 1));
        }
        let k = &fields[i].0;
        let v = &fields[i].1;
        proof {
            assert(all[i as int] == (k@, v@));
        }
        if bytes_eq(k.as_slice(), k_time.as_slice()) {
            if has_time {
                return Err(DecodeError::Malformed);
            }
            has_time = true;
            ev.timestamp = parse_rfc3339(v.as_slice());
        } else if bytes_eq(k.as_slice(), k_host.as_slice()) {
            if has_host {
                return Err(DecodeError::Malformed);
            }
            has_host = true;
            ev.host = Some(crate::record::copy_bytes(v));
        } else if bytes_eq(k.as_slice(), k_level.as_slice()) {
            if has_level {
                return Err(DecodeError::Malformed);
            }
            has_level = true;
            ev.severity = level_to_severity(v.as_slice());
        } else if bytes_eq(k.as_slice(), k_message.as_slice()) {
            if has_msg {
                return Err(DecodeError::Malformed);
            }
            has_msg = true;
            ev.message = crate::record::copy_bytes(v);
        } else {
            if ltsv_find_key(&ev.extra, k.as_slice()) {
                return Err(DecodeError::Malformed);
            }
            let ghost old_extra = ev.extra@;
            ev.extra.push((crate::record::copy_bytes(k), FieldValue::Str(
                crate::record::copy_bytes(v),
            )));
            proof {
                assert(fields_view(ev.extra@) =~= fields_view(old_extra).push((
                    k@,
                    FieldValueModel::Str(v@),
                )));
            }
        }
        proof {
            let acc2 = LtsvAcc { ev: ev@, has_time, has_host, has_level, has_msg };
            assert(spec_ltsv_step(acc, k@, v@) == Option::Some(acc2));
        }
        i = i + 1;
    }
    proof {
        assert(all.skip(fields@.len() as int) =~= Seq::<(Seq<u8>, Seq<u8>)>::empty());
    }
    Ok(ev)
}

} // verus!
