//! The compact binary sink format: a sequence of tagged, length-prefixed
//! fields. Each field is one tag byte, a two-byte big-endian length, and
//! that many payload bytes. The message is always present; optional
//! attributes appear only when set; each additional field is a key field
//! followed by a value field. A field longer than 65535 bytes cannot be
//! represented and is an encode error.

use vstd::prelude::*;

use crate::gelf::append_bytes;
use crate::record::{fields_view, EncodeError, Event, EventModel, FieldValueModel, Timestamp};

verus! {

pub const TAG_MESSAGE: u8 = 1;

pub const TAG_HOST: u8 = 2;

pub const TAG_TIMESTAMP: u8 = 3;

pub const TAG_SEVERITY: u8 = 4;

pub const TAG_FACILITY: u8 = 5;

pub const TAG_APPNAME: u8 = 6;

pub const TAG_PROCID: u8 = 7;

pub const TAG_MSGID: u8 = 8;

pub const TAG_KEY: u8 = 9;

pub const TAG_STR: u8 = 10;

pub const TAG_NUM: u8 = 11;

pub const TAG_BOOL: u8 = 12;

pub const TAG_NULL: u8 = 13;

/// `w` big-endian bytes of `n`.
pub open spec fn be_bytes(n: nat, w: nat) -> Seq<u8>
    decreases w,
{
    if w == 0 {
        Seq::empty()
    } else {
        be_bytes(n / 256, (w - 1) as nat).push((n % 256) as u8)
    }
}

pub proof fn lemma_be_bytes_len(n: nat, w: nat)
    ensures
        be_bytes(n, w).len() == w,
    decreases w,
{
    if w > 0 {
        lemma_be_bytes_len(n / 256, (w - 1) as nat);
    }
}

/// One field: tag, two-byte big-endian length, payload.
pub open spec fn tlv(tag: u8, payload: Seq<u8>) -> Seq<u8> {
    seq![tag] + be_bytes(payload.len(), 2) + payload
}

pub open spec fn fits(payload: Seq<u8>) -> bool {
    payload.len() <= 0xffff
}

/// The timestamp payload: a sign byte, eight bytes of seconds, four bytes
/// of nanoseconds.
pub open spec fn ts_payload(t: Timestamp) -> Seq<u8> {
    seq![(if t.neg { 1u8 } else { 0u8 })] + be_bytes(t.sec as nat, 8) + be_bytes(t.nanos as nat, 4)
}

pub open spec fn render_extra_bin(k: Seq<u8>, v: FieldValueModel) -> Seq<u8> {
    tlv(TAG_KEY, k) + (match v {
        FieldValueModel::Str(t) => tlv(TAG_STR, t),
        FieldValueModel::Num(t) => tlv(TAG_NUM, t),
        FieldValueModel::Bool(b) => tlv(
            TAG_BOOL,
            seq![
                (if b {
                    1u8
                } else {
                    0u8
                }),
            ],
        ),
        FieldValueModel::Null => tlv(TAG_NULL, Seq::empty()),
    })
}

pub open spec fn render_extras_bin(fs: Seq<(Seq<u8>, FieldValueModel)>) -> Seq<u8>
    decreases fs.len(),
{
    if fs.len() == 0 {
        Seq::empty()
    } else {
        render_extra_bin(fs[0].0, fs[0].1) + render_extras_bin(fs.skip(1))
    }
}

pub proof fn lemma_render_extras_bin_push(
    fs: Seq<(Seq<u8>, FieldValueModel)>,
    f: (Seq<u8>, FieldValueModel),
)
    ensures
        render_extras_bin(fs.push(f)) == render_extras_bin(fs) + render_extra_bin(f.0, f.1),
    decreases fs.len(),
{
    if fs.len() == 0 {
        assert(fs.push(f)[0] == f);
        assert(fs.push(f).skip(1) =~= Seq::<(Seq<u8>, FieldValueModel)>::empty());
        assert(render_extras_bin(fs.push(f)) == render_extra_bin(f.0, f.1) + render_extras_bin(
            Seq::<(Seq<u8>, FieldValueModel)>::empty(),
        ));
        assert(render_extras_bin(fs.push(f)) =~= render_extras_bin(fs) + render_extra_bin(
            f.0,
            f.1,
        ));
    } else {
        assert(fs.push(f)[0] == fs[0]);
        assert(fs.push(f).skip(1) =~= fs.skip(1).push(f));
        lemma_render_extras_bin_push(fs.skip(1), f);
        assert(render_extras_bin(fs.push(f)) =~= render_extras_bin(fs) + render_extra_bin(
            f.0,
            f.1,
        ));
    }
}

/// One additional field fits the schema's two-byte lengths.
pub open spec fn extra_fits(m: EventModel, x: int) -> bool {
    fits(m.extra[x].0) && (match m.extra[x].1 {
        FieldValueModel::Str(t) => fits(t),
        FieldValueModel::Num(t) => fits(t),
        _ => true,
    })
}

/// Whether every field of the event fits the schema's two-byte lengths.
pub open spec fn spec_binary_encodable(m: EventModel) -> bool {
    &&& fits(m.message)
    &&& match m.host {
        Option::Some(h) => fits(h),
        Option::None => true,
    }
    &&& match m.appname {
        Option::Some(a) => fits(a),
        Option::None => true,
    }
    &&& match m.procid {
        Option::Some(p) => fits(p),
        Option::None => true,
    }
    &&& match m.msgid {
        Option::Some(x) => fits(x),
        Option::None => true,
    }
    &&& forall|i: int| 0 <= i < m.extra.len() ==> #[trigger] extra_fits(m, i)
}

/// The binary record for an event: the message, then each optional
/// attribute that is present, then the additional fields in order.
pub open spec fn spec_binary_encode(m: EventModel) -> Seq<u8> {
    tlv(TAG_MESSAGE, m.message) + (match m.host {
        Option::Some(h) => tlv(TAG_HOST, h),
        Option::None => Seq::<u8>::empty(),
    }) + (match m.timestamp {
        Option::Some(t) => tlv(TAG_TIMESTAMP, ts_payload(t)),
        Option::None => Seq::<u8>::empty(),
    }) + (match m.severity {
        Option::Some(s) => tlv(TAG_SEVERITY, seq![s]),
        Option::None => Seq::<u8>::empty(),
    }) + (match m.facility {
        Option::Some(f) => tlv(TAG_FACILITY, seq![f]),
        Option::None => Seq::<u8>::empty(),
    }) + (match m.appname {
        Option::Some(a) => tlv(TAG_APPNAME, a),
        Option::None => Seq::<u8>::empty(),
    }) + (match m.procid {
        Option::Some(p) => tlv(TAG_PROCID, p),
        Option::None => Seq::<u8>::empty(),
    }) + (match m.msgid {
        Option::Some(x) => tlv(TAG_MSGID, x),
        Option::None => Seq::<u8>::empty(),
    }) + render_extras_bin(m.extra)
}

/// Appends `w` big-endian bytes of `n`.
fn append_be(out: &mut Vec<u8>, n: u64, w: usize)
    requires
        w <= 8,
    ensures
        final(out)@ == old(out)@ + be_bytes(n as nat, w as nat),
    decreases w,
{
    if w == 0 {
        proof {
            assert(out@ =~= out@ + be_bytes(n as nat, 0));
        }
    } else {
        append_be(out, n / 256, w - 1);
        out.push((n % 256) as u8);
        proof {
            assert(out@ =~= old(out)@ + be_bytes(n as nat, w as nat));
        }
    }
}

/// Appends one tagged, length-prefixed field; the payload must fit.
fn append_tlv(out: &mut Vec<u8>, tag: u8, payload: &[u8])
    requires
        payload@.len() <= 0xffff,
    ensures
        final(out)@ == old(out)@ + tlv(tag, payload@),
{
    out.push(tag);
    append_be(out, payload.len() as u64, 2);
    append_bytes(out, payload);
    proof {
        assert(out@ =~= old(out)@ + tlv(tag, payload@));
    }
}

fn fits_exec(payload: &[u8]) -> (r: bool)
    ensures
        r == fits(payload@),
{
    payload.len() <= 0xffff
}

/// Encodes an event in the compact binary schema.
pub fn binary_encode(e: &Event) -> (r: Result<Vec<u8>, EncodeError>)
    ensures
        match r {
            Ok(v) => spec_binary_encodable(e@) && v@ == spec_binary_encode(e@),
            Err(_) => !spec_binary_encodable(e@),
        },
{
    if !fits_exec(e.message.as_slice()) {
        return Err(EncodeError::TooLong);
    }
    match &e.host {
        Some(h) => {
            if !fits_exec(h.as_slice()) {
                return Err(EncodeError::TooLong);
            }
        },
        None => {},
    }
    match &e.appname {
        Some(a) => {
            if !fits_exec(a.as_slice()) {
                return Err(EncodeError::TooLong);
            }
        },
        None => {},
    }
    match &e.procid {
        Some(p) => {
            if !fits_exec(p.as_slice()) {
                return Err(EncodeError::TooLong);
            }
        },
        None => {},
    }
    match &e.msgid {
        Some(x) => {
            if !fits_exec(x.as_slice()) {
                return Err(EncodeError::TooLong);
            }
        },
        None => {},
    }
    let mut i: usize = 0;
    while i < e.extra.len()
        invariant
            i <= e.extra@.len(),
            forall|x: int| 0 <= x < i ==> #[trigger] extra_fits(e@, x),
        decreases e.extra@.len() - i,
    {
        if !fits_exec(e.extra[i].0.as_slice()) {
            proof {
                assert(!fits(e@.extra[i as int].0));
                assert(!extra_fits(e@, i as int));
            }
            return Err(EncodeError::TooLong);
        }
        match &e.extra[i].1 {
            crate::record::FieldValue::Str(t) => {
                if !fits_exec(t.as_slice()) {
                    proof {
                        assert(e@.extra[i as int]
                            == (e.extra@[i as int].0@, e.extra@[i as int].1@));
                        assert(match e@.extra[i as int].1 {
                            FieldValueModel::Str(t2) => !fits(t2),
                            _ => false,
                        });
                        assert(!extra_fits(e@, i as int));
                    }
                    return Err(EncodeError::TooLong);
                }
            },
            crate::record::FieldValue::Num(t) => {
                if !fits_exec(t.as_slice()) {
                    proof {
                        assert(e@.extra[i as int]
                            == (e.extra@[i as int].0@, e.extra@[i as int].1@));
                        assert(match e@.extra[i as int].1 {
                            FieldValueModel::Num(t2) => !fits(t2),
                            _ => false,
                        });
                        assert(!extra_fits(e@, i as int));
                    }
                    return Err(EncodeError::TooLong);
                }
            },
            _ => {},
        }
        proof {
            assert(e@.extra[i as int] == (e.extra@[i as int].0@, e.extra@[i as int].1@));
            assert(extra_fits(e@, i as int));
        }
        i = i + 1;
    }
    let mut out: Vec<u8> = Vec::new();
    append_tlv(&mut out, TAG_MESSAGE, e.message.as_slice());
    let ghost a1 = out@;
    proof {
        assert(a1 =~= tlv(TAG_MESSAGE, e@.message));
    }
    match &e.host {
        Some(h) => {
            append_tlv(&mut out, TAG_HOST, h.as_slice());
        },
        None => {},
    }
    let ghost a2 = out@;
    proof {
        assert(a2 =~= a1 + (match e@.host {
            Option::Some(h) => tlv(TAG_HOST, h),
            Option::None => Seq::<u8>::empty(),
        }));
    }
    match e.timestamp {
        Some(t) => {
            let mut payload: Vec<u8> = Vec::new();
            payload.push(if t.neg {
                1
            } else {
                0
            });
            append_be(&mut payload, t.sec, 8);
            append_be(&mut payload, t.nanos as u64, 4);
            proof {
                lemma_be_bytes_len(t.sec as nat, 8);
                lemma_be_bytes_len(t.nanos as nat, 4);
                assert(payload@ =~= ts_payload(t));
                assert(payload@.len() <= 0xffff);
            }
            append_tlv(&mut out, TAG_TIMESTAMP, payload.as_slice());
        },
        None => {},
    }
    let ghost a3 = out@;
    proof {
        assert(a3 =~= a2 + (match e@.timestamp {
            Option::Some(t) => tlv(TAG_TIMESTAMP, ts_payload(t)),
            Option::None => Seq::<u8>::empty(),
        }));
    }
    match e.severity {
        Some(sv) => {
            let mut payload: Vec<u8> = Vec::new();
            payload.push(sv);
            proof {
                assert(payload@ =~= seq![sv]);
            }
            append_tlv(&mut out, TAG_SEVERITY, payload.as_slice());
        },
        None => {},
    }
    let ghost a4 = out@;
    proof {
        assert(a4 =~= a3 + (match e@.severity {
            Option::Some(sv) => tlv(TAG_SEVERITY, seq![sv]),
            Option::None => Seq::<u8>::empty(),
        }));
    }
    match e.facility {
        Some(f) => {
            let mut payload: Vec<u8> = Vec::new();
            payload.push(f);
            proof {
                assert(payload@ =~= seq![f]);
            }
            append_tlv(&mut out, TAG_FACILITY, payload.as_slice());
        },
        None => {},
    }
    let ghost a5 = out@;
    proof {
        assert(a5 =~= a4 + (match e@.facility {
            Option::Some(f) => tlv(TAG_FACILITY, seq![f]),
            Option::None => Seq::<u8>::empty(),
        }));
    }
    match &e.appname {
        Some(a) => {
            append_tlv(&mut out, TAG_APPNAME, a.as_slice());
        },
        None => {},
    }
    let ghost a6 = out@;
    proof {
        assert(a6 =~= a5 + (match e@.appname {
            Option::Some(a) => tlv(TAG_APPNAME, a),
            Option::None => Seq::<u8>::empty(),
        }));
    }
    match &e.procid {
        Some(p) => {
            append_tlv(&mut out, TAG_PROCID, p.as_slice());
        },
        None => {},
    }
    let ghost a7 = out@;
    proof {
        assert(a7 =~= a6 + (match e@.procid {
            Option::Some(p) => tlv(TAG_PROCID, p),
            Option::None => Seq::<u8>::empty(),
        }));
    }
    match &e.msgid {
        Some(x) => {
            append_tlv(&mut out, TAG_MSGID, x.as_slice());
        },
        None => {},
    }
    let ghost a8 = out@;
    proof {
        assert(a8 =~= a7 + (match e@.msgid {
            Option::Some(x) => tlv(TAG_MSGID, x),
            Option::None => Seq::<u8>::empty(),
        }));
    }
    let mut x: usize = 0;
    proof {
        assert(e@.extra.take(0) =~= Seq::<(Seq<u8>, FieldValueModel)>::empty());
        assert(out@ =~= a8 + render_extras_bin(e@.extra.take(0)));
    }
    while x < e.extra.len()
        invariant
            x <= e.extra@.len(),
            forall|y: int| 0 <= y < e.extra@.len() ==> #[trigger] extra_fits(e@, y),
            out@ == a8 + render_extras_bin(e@.extra.take(x as int)),
        decreases e.extra@.len() - x,
    {
        proof {
            assert(e@.extra[x as int]
                == (e.extra@[x as int].0@, e.extra@[x as int].1@));
            assert(extra_fits(e@, x as int));
            assert(fits(e@.extra[x as int].0));
        }
        append_tlv(&mut out, TAG_KEY, e.extra[x].0.as_slice());
        match &e.extra[x].1 {
            crate::record::FieldValue::Str(t) => {
                append_tlv(&mut out, TAG_STR, t.as_slice());
            },
            crate::record::FieldValue::Num(t) => {
                append_tlv(&mut out, TAG_NUM, t.as_slice());
            },
            crate::record::FieldValue::Bool(b) => {
                let mut payload: Vec<u8> = Vec::new();
                payload.push(if *b {
                    1
                } else {
                    0
                });
                proof {
                    assert(payload@.len() <= 0xffff);
                }
                append_tlv(&mut out, TAG_BOOL, payload.as_slice());
                proof {
                    assert(payload@ =~= seq![
                        (if e@.extra[x as int].1 matches FieldValueModel::Bool(
                            true,
                        ) {
                            1u8
                        } else {
                            0u8
                        }),
                    ]);
                }
            },
            crate::record::FieldValue::Null => {
                let payload: Vec<u8> = Vec::new();
                proof {
                    assert(payload@ =~= Seq::<u8>::empty());
                }
                append_tlv(&mut out, TAG_NULL, payload.as_slice());
            },
        }
        proof {
            let fv = e@.extra;
            lemma_render_extras_bin_push(fv.take(x as int), fv[x as int]);
            assert(fv.take(x as int).push(fv[x as int]) =~= fv.take(x as int + 1));
            assert(out@ =~= a8 + render_extras_bin(fv.take(x as int + 1)));
        }
        x = x + 1;
    }
    proof {
        assert(e@.extra.take(e.extra@.len() as int) =~= e@.extra);
        assert(out@ =~= spec_binary_encode(e@));
        assert(spec_binary_encodable(e@));
    }
    Ok(out)
}

} // verus!
