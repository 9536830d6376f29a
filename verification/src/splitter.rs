//! Framing: turning a continuous byte stream into discrete records.
//!
//! Two disciplines. Delimiter framing ends a frame at the first terminator
//! byte, which is consumed and excluded; trailing bytes with no terminator
//! are an incomplete frame and are never surfaced. Octet-counting framing
//! reads a decimal length, one space, and exactly that many payload bytes,
//! so payloads may contain any byte; a malformed prefix or a stream that
//! closes early is a framing error that ends the connection.

use vstd::prelude::*;

use crate::bytes::{copy_subrange, digit_run_end, digits_val, is_digit, lemma_digit_run_end,
    parse_u64_digits, take_digits};

verus! {

/// First position at or after `i` holding `b`.
pub open spec fn find_byte(s: Seq<u8>, i: int, b: u8) -> Option<int>
    recommends
        0 <= i <= s.len(),
    decreases s.len() - i,
{
    if i >= s.len() {
        Option::None
    } else if s[i] == b {
        Option::Some(i)
    } else {
        find_byte(s, i + 1, b)
    }
}

pub proof fn lemma_find_byte(s: Seq<u8>, i: int, b: u8)
    requires
        0 <= i <= s.len(),
    ensures
        match find_byte(s, i, b) {
            Option::Some(k) => i <= k < s.len() && s[k] == b && (forall|j: int|
                i <= j < k ==> s[j] != b),
            Option::None => forall|j: int| i <= j < s.len() ==> s[j] != b,
        },
    decreases s.len() - i,
{
    if i < s.len() && s[i] != b {
        lemma_find_byte(s, i + 1, b);
    }
}

pub fn find_byte_from(s: &[u8], i: usize, b: u8) -> (r: Option<usize>)
    requires
        i <= s@.len(),
    ensures
        match r {
            Some(k) => find_byte(s@, i as int, b) == Option::Some(k as int),
            None => find_byte(s@, i as int, b) == Option::<int>::None,
        },
{
    let mut j = i;
    while j < s.len()
        invariant
            i <= j <= s@.len(),
            find_byte(s@, i as int, b) == find_byte(s@, j as int, b),
        decreases s@.len() - j,
    {
        if s[j] == b {
            return Some(j);
        }
        j = j + 1;
    }
    None
}

/// The next delimited frame of `s` at or after `i`: the bytes before the
/// first terminator, and the position just past that terminator. `None`
/// means the remaining bytes hold no complete frame yet.
pub open spec fn spec_next_delimited(s: Seq<u8>, i: int, sep: u8) -> Option<(Seq<u8>, int)> {
    match find_byte(s, i, sep) {
        Option::Some(k) => Option::Some((s.subrange(i, k), k + 1)),
        Option::None => Option::None,
    }
}

/// All complete delimited frames of `s` from `i` on; an unterminated tail
/// is dropped.
pub open spec fn spec_split_delimited(s: Seq<u8>, i: int, sep: u8) -> Seq<Seq<u8>>
    recommends
        0 <= i <= s.len(),
    decreases s.len() - i,
    when 0 <= i <= s.len()
{
    match find_byte(s, i, sep) {
        Option::Some(k) => {
            if i <= k < s.len() {
                seq![s.subrange(i, k)] + spec_split_delimited(s, k + 1, sep)
            } else {
                Seq::empty()
            }
        },
        Option::None => Seq::empty(),
    }
}

/// One step of delimiter framing. Returns the frame (terminator excluded)
/// and the position after the terminator, or `None` when the bytes from
/// `pos` on hold no terminator: the caller must read more, and at stream
/// end the incomplete tail is dropped, never surfaced.
pub fn next_delimited(buf: &[u8], pos: usize, sep: u8) -> (r: Option<(Vec<u8>, usize)>)
    requires
        pos <= buf@.len(),
    ensures
        match r {
            Some(p) => spec_next_delimited(buf@, pos as int, sep) == Option::Some(
                (p.0@, p.1 as int),
            ),
            None => spec_next_delimited(buf@, pos as int, sep) == Option::<(Seq<u8>, int)>::None,
        },
{
    match find_byte_from(buf, pos, sep) {
        Some(k) => {
            proof {
                lemma_find_byte(buf@, pos as int, sep);
            }
            let n: usize = buf.len();
            assert(k < n);
            Some((copy_subrange(buf, pos, k), k + 1))
        },
        None => None,
    }
}

/// All complete delimited frames of `buf`, in stream order.
pub fn split_delimited(buf: &[u8], sep: u8) -> (r: Vec<Vec<u8>>)
    ensures
        r@.map_values(|f: Vec<u8>| f@) == spec_split_delimited(buf@, 0, sep),
{
    let mut frames: Vec<Vec<u8>> = Vec::new();
    let mut pos: usize = 0;
    loop
        invariant
            pos <= buf@.len(),
            spec_split_delimited(buf@, 0, sep) == frames@.map_values(|f: Vec<u8>| f@)
                + spec_split_delimited(buf@, pos as int, sep),
        decreases buf@.len() - pos,
    {
        proof {
            lemma_find_byte(buf@, pos as int, sep);
        }
        match next_delimited(buf, pos, sep) {
            Some((frame, next)) => {
                let ghost old_frames = frames@;
                frames.push(frame);
                proof {
                    assert(frames@.map_values(|f: Vec<u8>| f@) =~= old_frames.map_values(
                        |f: Vec<u8>| f@,
                    ).push(frame@));
                    assert(spec_split_delimited(buf@, 0, sep) =~= frames@.map_values(
                        |f: Vec<u8>| f@,
                    ) + spec_split_delimited(buf@, next as int, sep));
                }
                pos = next;
            },
            None => {
                proof {
                    assert(spec_split_delimited(buf@, pos as int, sep) =~= Seq::<Seq<u8>>::empty());
                    assert(spec_split_delimited(buf@, 0, sep) =~= frames@.map_values(
                        |f: Vec<u8>| f@,
                    ));
                }
                return frames;
            },
        }
    }
}

/// One step of octet-counting framing.
pub enum OctetStep {
    /// A complete frame: its payload and the position just past it.
    Frame(Vec<u8>, usize),
    /// The buffer ends before the frame does and the stream is still open.
    NeedMore,
    /// The stream ended cleanly on a frame boundary.
    End,
    /// The length prefix is not a decimal count followed by a space, or the
    /// stream closed before the counted payload was complete.
    Malformed,
}

pub enum OctetStepModel {
    Frame(Seq<u8>, int),
    NeedMore,
    End,
    Malformed,
}

impl View for OctetStep {
    type V = OctetStepModel;

    open spec fn view(&self) -> OctetStepModel {
        match self {
            OctetStep::Frame(f, n) => OctetStepModel::Frame(f@, *n as int),
            OctetStep::NeedMore => OctetStepModel::NeedMore,
            OctetStep::End => OctetStepModel::End,
            OctetStep::Malformed => OctetStepModel::Malformed,
        }
    }
}

/// The octet-counting step at position `i`: a decimal count, one space,
/// then exactly that many payload bytes. `eof` says the stream is known
/// to end with this buffer.
pub open spec fn spec_next_octet(s: Seq<u8>, i: int, eof: bool) -> OctetStepModel
    recommends
        0 <= i <= s.len(),
{
    if i == s.len() {
        if eof {
            OctetStepModel::End
        } else {
            OctetStepModel::NeedMore
        }
    } else {
        let e = digit_run_end(s, i);
        if e == i {
            OctetStepModel::Malformed
        } else if e == s.len() {
            if eof {
                OctetStepModel::Malformed
            } else {
                OctetStepModel::NeedMore
            }
        } else if s[e] != 0x20 {
            OctetStepModel::Malformed
        } else {
            let len = digits_val(s.subrange(i, e));
            if s.len() - (e + 1) < len {
                if eof {
                    OctetStepModel::Malformed
                } else {
                    OctetStepModel::NeedMore
                }
            } else {
                OctetStepModel::Frame(s.subrange(e + 1, e + 1 + len), e + 1 + len)
            }
        }
    }
}

/// One step of octet-counting framing over `buf` from `pos`.
pub fn next_octet(buf: &[u8], pos: usize, eof: bool) -> (r: OctetStep)
    requires
        pos <= buf@.len(),
    ensures
        r@ == spec_next_octet(buf@, pos as int, eof),
        match r {
            OctetStep::Frame(_, n) => pos < n <= buf@.len(),
            _ => true,
        },
{
    if pos == buf.len() {
        if eof {
            return OctetStep::End;
        } else {
            return OctetStep::NeedMore;
        }
    }
    let e = take_digits(buf, pos);
    proof {
        lemma_digit_run_end(buf@, pos as int);
    }
    if e == pos {
        return OctetStep::Malformed;
    }
    if e == buf.len() {
        if eof {
            return OctetStep::Malformed;
        } else {
            return OctetStep::NeedMore;
        }
    }
    if buf[e] != 0x20 {
        return OctetStep::Malformed;
    }
    let avail = buf.len() - (e + 1);
    match parse_u64_digits(buf, pos, e) {
        None => {
            proof {
                assert(avail as nat <= u64::MAX);
            }
            if eof {
                OctetStep::Malformed
            } else {
                OctetStep::NeedMore
            }
        },
        Some(len) => {
            if (avail as u64) < len {
                if eof {
                    OctetStep::Malformed
                } else {
                    OctetStep::NeedMore
                }
            } else {
                let len_us = len as usize;
                let payload = copy_subrange(buf, e + 1, e + 1 + len_us);
                OctetStep::Frame(payload, e + 1 + len_us)
            }
        },
    }
}

/// All frames of a complete octet-counted stream from `i` on; `None` when
/// the stream is malformed.
pub open spec fn spec_split_octet(s: Seq<u8>, i: int) -> Option<Seq<Seq<u8>>>
    recommends
        0 <= i <= s.len(),
    decreases s.len() - i,
    when 0 <= i <= s.len()
{
    match spec_next_octet(s, i, true) {
        OctetStepModel::End => Option::Some(Seq::empty()),
        OctetStepModel::Frame(f, j) => {
            if i < j <= s.len() {
                match spec_split_octet(s, j) {
                    Option::Some(rest) => Option::Some(seq![f] + rest),
                    Option::None => Option::None,
                }
            } else {
                Option::None
            }
        },
        _ => Option::None,
    }
}

/// Splits a complete octet-counted stream into its frames; a framing error
/// is unrecoverable for the stream.
pub fn split_octet(buf: &[u8]) -> (r: Option<Vec<Vec<u8>>>)
    ensures
        match r {
            Some(frames) => spec_split_octet(buf@, 0) == Option::Some(
                frames@.map_values(|f: Vec<u8>| f@),
            ),
            None => spec_split_octet(buf@, 0) == Option::<Seq<Seq<u8>>>::None,
        },
{
    let mut frames: Vec<Vec<u8>> = Vec::new();
    let mut pos: usize = 0;
    loop
        invariant
            pos <= buf@.len(),
            spec_split_octet(buf@, 0) == (match spec_split_octet(buf@, pos as int) {
                Option::Some(rest) => Option::Some(frames@.map_values(|f: Vec<u8>| f@) + rest),
                Option::None => Option::<Seq<Seq<u8>>>::None,
            }),
        decreases buf@.len() - pos,
    {
        match next_octet(buf, pos, true) {
            OctetStep::End => {
                proof {
                    assert(frames@.map_values(|f: Vec<u8>| f@) + Seq::<Seq<u8>>::empty()
                        =~= frames@.map_values(|f: Vec<u8>| f@));
                }
                return Some(frames);
            },
            OctetStep::Frame(frame, next) => {
                let ghost old_frames = frames@;
                frames.push(frame);
                proof {
                    assert(frames@.map_values(|f: Vec<u8>| f@) =~= old_frames.map_values(
                        |f: Vec<u8>| f@,
                    ).push(frame@));
                    if spec_split_octet(buf@, next as int) is Some {
                        assert(old_frames.map_values(|f: Vec<u8>| f@) + (seq![frame@]
                            + spec_split_octet(buf@, next as int)->Some_0)
                            =~= frames@.map_values(|f: Vec<u8>| f@) + spec_split_octet(
                            buf@,
                            next as int,
                        )->Some_0);
                    }
                }
                pos = next;
            },
            _ => {
                return None;
            },
        }
    }
}

} // verus!
