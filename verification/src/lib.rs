//! A log collection pipeline core: byte-stream framing, decoders for three
//! wire formats, encoders for two sink formats, and a bounded FIFO queue
//! that hands encoded records from producers to consumers.
//!
//! `start` turns looked-up configuration values into a ready pipeline:
//! the selected input transport, decoder, encoder and sink, and the queue
//! with its configured capacity. Driving the transports and sinks is the
//! embedding program's part; every decision about bytes and records is
//! made, and specified, here.

pub mod binary;
pub mod bytes;
pub mod config;
pub mod gelf;
pub mod gelf_laws;
pub mod json;
pub mod ltsv;
pub mod output;
pub mod queue;
pub mod record;
pub mod rfc5424;
pub mod splitter;
pub mod timestamp;

use vstd::prelude::*;

use crate::bytes::bytes_eq;
use crate::config::{spec_lookup, Config, ConfigValueModel, FatalError};
use crate::queue::Queue;
use crate::record::{DecodeError, EncodeError, Event, EventModel};

verus! {

pub open spec fn name_input_format() -> Seq<u8> {
    seq![0x69u8, 0x6eu8, 0x70u8, 0x75u8, 0x74u8, 0x2eu8, 0x66u8, 0x6fu8, 0x72u8, 0x6du8, 0x61u8, 0x74u8]
}

pub fn lit_input_format() -> (v: Vec<u8>)
    ensures
        v@ == name_input_format(),
{
    let mut v: Vec<u8> = Vec::new();
    v.push(0x69);
    v.push(0x6e);
    v.push(0x70);
    v.push(0x75);
    v.push(0x74);
    v.push(0x2e);
    v.push(0x66);
    v.push(0x6f);
    v.push(0x72);
    v.push(0x6d);
    v.push(0x61);
    v.push(0x74);
    proof {
        assert(v@ =~= name_input_format());
    }
    v
}

pub open spec fn name_input_type() -> Seq<u8> {
    seq![0x69u8, 0x6eu8, 0x70u8, 0x75u8, 0x74u8, 0x2eu8, 0x74u8, 0x79u8, 0x70u8, 0x65u8]
}

pub fn lit_input_type() -> (v: Vec<u8>)
    ensures
        v@ == name_input_type(),
{
    let mut v: Vec<u8> = Vec::new();
    v.push(0x69);
    v.push(0x6e);
    v.push(0x70);
    v.push(0x75);
    v.push(0x74);
    v.push(0x2e);
    v.push(0x74);
    v.push(0x79);
    v.push(0x70);
    v.push(0x65);
    proof {
        assert(v@ =~= name_input_type());
    }
    v
}

pub open spec fn name_input_queuesize() -> Seq<u8> {
    seq![0x69u8, 0x6eu8, 0x70u8, 0x75u8, 0x74u8, 0x2eu8, 0x71u8, 0x75u8, 0x65u8, 0x75u8, 0x65u8, 0x73u8, 0x69u8, 0x7au8, 0x65u8]
}

pub fn lit_input_queuesize() -> (v: Vec<u8>)
    ensures
        v@ == name_input_queuesize(),
{
    let mut v: Vec<u8> = Vec::new();
    v.push(0x69);
    v.push(0x6e);
    v.push(0x70);
    v.push(0x75);
    v.push(0x74);
    v.push(0x2e);
    v.push(0x71);
    v.push(0x75);
    v.push(0x65);
    v.push(0x75);
    v.push(0x65);
    v.push(0x73);
    v.push(0x69);
    v.push(0x7a);
    v.push(0x65);
    proof {
        assert(v@ =~= name_input_queuesize());
    }
    v
}

pub open spec fn name_output_format() -> Seq<u8> {
    seq![0x6fu8, 0x75u8, 0x74u8, 0x70u8, 0x75u8, 0x74u8, 0x2eu8, 0x66u8, 0x6fu8, 0x72u8, 0x6du8, 0x61u8, 0x74u8]
}

pub fn lit_output_format() -> (v: Vec<u8>)
    ensures
        v@ == name_output_format(),
{
    let mut v: Vec<u8> = Vec::new();
    v.push(0x6f);
    v.push(0x75);
    v.push(0x74);
    v.push(0x70);
    v.push(0x75);
    v.push(0x74);
    v.push(0x2e);
    v.push(0x66);
    v.push(0x6f);
    v.push(0x72);
    v.push(0x6d);
    v.push(0x61);
    v.push(0x74);
    proof {
        assert(v@ =~= name_output_format());
    }
    v
}

pub open spec fn name_output_type() -> Seq<u8> {
    seq![0x6fu8, 0x75u8, 0x74u8, 0x70u8, 0x75u8, 0x74u8, 0x2eu8, 0x74u8, 0x79u8, 0x70u8, 0x65u8]
}

pub fn lit_output_type() -> (v: Vec<u8>)
    ensures
        v@ == name_output_type(),
{
    let mut v: Vec<u8> = Vec::new();
    v.push(0x6f);
    v.push(0x75);
    v.push(0x74);
    v.push(0x70);
    v.push(0x75);
    v.push(0x74);
    v.push(0x2e);
    v.push(0x74);
    v.push(0x79);
    v.push(0x70);
    v.push(0x65);
    proof {
        assert(v@ =~= name_output_type());
    }
    v
}

pub open spec fn name_rfc5424() -> Seq<u8> {
    seq![0x72u8, 0x66u8, 0x63u8, 0x35u8, 0x34u8, 0x32u8, 0x34u8]
}

pub fn lit_rfc5424() -> (v: Vec<u8>)
    ensures
        v@ == name_rfc5424(),
{
    let mut v: Vec<u8> = Vec::new();
    v.push(0x72);
    v.push(0x66);
    v.push(0x63);
    v.push(0x35);
    v.push(0x34);
    v.push(0x32);
    v.push(0x34);
    proof {
        assert(v@ =~= name_rfc5424());
    }
    v
}

pub open spec fn name_gelf() -> Seq<u8> {
    seq![0x67u8, 0x65u8, 0x6cu8, 0x66u8]
}

pub fn lit_gelf() -> (v: Vec<u8>)
    ensures
        v@ == name_gelf(),
{
    let mut v: Vec<u8> = Vec::new();
    v.push(0x67);
    v.push(0x65);
    v.push(0x6c);
    v.push(0x66);
    proof {
        assert(v@ =~= name_gelf());
    }
    v
}

pub open spec fn name_ltsv() -> Seq<u8> {
    seq![0x6cu8, 0x74u8, 0x73u8, 0x76u8]
}

pub fn lit_ltsv() -> (v: Vec<u8>)
    ensures
        v@ == name_ltsv(),
{
    let mut v: Vec<u8> = Vec::new();
    v.push(0x6c);
    v.push(0x74);
    v.push(0x73);
    v.push(0x76);
    proof {
        assert(v@ =~= name_ltsv());
    }
    v
}

pub open spec fn name_json() -> Seq<u8> {
    seq![0x6au8, 0x73u8, 0x6fu8, 0x6eu8]
}

pub fn lit_json() -> (v: Vec<u8>)
    ensures
        v@ == name_json(),
{
    let mut v: Vec<u8> = Vec::new();
    v.push(0x6a);
    v.push(0x73);
    v.push(0x6f);
    v.push(0x6e);
    proof {
        assert(v@ =~= name_json());
    }
    v
}

pub open spec fn name_binary() -> Seq<u8> {
    seq![0x62u8, 0x69u8, 0x6eu8, 0x61u8, 0x72u8, 0x79u8]
}

pub fn lit_binary() -> (v: Vec<u8>)
    ensures
        v@ == name_binary(),
{
    let mut v: Vec<u8> = Vec::new();
    v.push(0x62);
    v.push(0x69);
    v.push(0x6e);
    v.push(0x61);
    v.push(0x72);
    v.push(0x79);
    proof {
        assert(v@ =~= name_binary());
    }
    v
}

pub open spec fn name_redis() -> Seq<u8> {
    seq![0x72u8, 0x65u8, 0x64u8, 0x69u8, 0x73u8]
}

pub fn lit_redis() -> (v: Vec<u8>)
    ensures
        v@ == name_redis(),
{
    let mut v: Vec<u8> = Vec::new();
    v.push(0x72);
    v.push(0x65);
    v.push(0x64);
    v.push(0x69);
    v.push(0x73);
    proof {
        assert(v@ =~= name_redis());
    }
    v
}

pub open spec fn name_stdin() -> Seq<u8> {
    seq![0x73u8, 0x74u8, 0x64u8, 0x69u8, 0x6eu8]
}

pub fn lit_stdin() -> (v: Vec<u8>)
    ensures
        v@ == name_stdin(),
{
    let mut v: Vec<u8> = Vec::new();
    v.push(0x73);
    v.push(0x74);
    v.push(0x64);
    v.push(0x69);
    v.push(0x6e);
    proof {
        assert(v@ =~= name_stdin());
    }
    v
}

pub open spec fn name_tcp() -> Seq<u8> {
    seq![0x74u8, 0x63u8, 0x70u8]
}

pub fn lit_tcp() -> (v: Vec<u8>)
    ensures
        v@ == name_tcp(),
{
    let mut v: Vec<u8> = Vec::new();
    v.push(0x74);
    v.push(0x63);
    v.push(0x70);
    proof {
        assert(v@ =~= name_tcp());
    }
    v
}

pub open spec fn name_syslog_tcp() -> Seq<u8> {
    seq![0x73u8, 0x79u8, 0x73u8, 0x6cu8, 0x6fu8, 0x67u8, 0x2du8, 0x74u8, 0x63u8, 0x70u8]
}

pub fn lit_syslog_tcp() -> (v: Vec<u8>)
    ensures
        v@ == name_syslog_tcp(),
{
    let mut v: Vec<u8> = Vec::new();
    v.push(0x73);
    v.push(0x79);
    v.push(0x73);
    v.push(0x6c);
    v.push(0x6f);
    v.push(0x67);
    v.push(0x2d);
    v.push(0x74);
    v.push(0x63);
    v.push(0x70);
    proof {
        assert(v@ =~= name_syslog_tcp());
    }
    v
}

pub open spec fn name_tcp_co() -> Seq<u8> {
    seq![0x74u8, 0x63u8, 0x70u8, 0x5fu8, 0x63u8, 0x6fu8]
}

pub fn lit_tcp_co() -> (v: Vec<u8>)
    ensures
        v@ == name_tcp_co(),
{
    let mut v: Vec<u8> = Vec::new();
    v.push(0x74);
    v.push(0x63);
    v.push(0x70);
    v.push(0x5f);
    v.push(0x63);
    v.push(0x6f);
    proof {
        assert(v@ =~= name_tcp_co());
    }
    v
}

pub open spec fn name_tcpco() -> Seq<u8> {
    seq![0x74u8, 0x63u8, 0x70u8, 0x63u8, 0x6fu8]
}

pub fn lit_tcpco() -> (v: Vec<u8>)
    ensures
        v@ == name_tcpco(),
{
    let mut v: Vec<u8> = Vec::new();
    v.push(0x74);
    v.push(0x63);
    v.push(0x70);
    v.push(0x63);
    v.push(0x6f);
    proof {
        assert(v@ =~= name_tcpco());
    }
    v
}

pub open spec fn name_syslog_tcp_co() -> Seq<u8> {
    seq![0x73u8, 0x79u8, 0x73u8, 0x6cu8, 0x6fu8, 0x67u8, 0x2du8, 0x74u8, 0x63u8, 0x70u8, 0x5fu8, 0x63u8, 0x6fu8]
}

pub fn lit_syslog_tcp_co() -> (v: Vec<u8>)
    ensures
        v@ == name_syslog_tcp_co(),
{
    let mut v: Vec<u8> = Vec::new();
    v.push(0x73);
    v.push(0x79);
    v.push(0x73);
    v.push(0x6c);
    v.push(0x6f);
    v.push(0x67);
    v.push(0x2d);
    v.push(0x74);
    v.push(0x63);
    v.push(0x70);
    v.push(0x5f);
    v.push(0x63);
    v.push(0x6f);
    proof {
        assert(v@ =~= name_syslog_tcp_co());
    }
    v
}

pub open spec fn name_syslog_tcpco() -> Seq<u8> {
    seq![0x73u8, 0x79u8, 0x73u8, 0x6cu8, 0x6fu8, 0x67u8, 0x2du8, 0x74u8, 0x63u8, 0x70u8, 0x63u8, 0x6fu8]
}

pub fn lit_syslog_tcpco() -> (v: Vec<u8>)
    ensures
        v@ == name_syslog_tcpco(),
{
    let mut v: Vec<u8> = Vec::new();
    v.push(0x73);
    v.push(0x79);
    v.push(0x73);
    v.push(0x6c);
    v.push(0x6f);
    v.push(0x67);
    v.push(0x2d);
    v.push(0x74);
    v.push(0x63);
    v.push(0x70);
    v.push(0x63);
    v.push(0x6f);
    proof {
        assert(v@ =~= name_syslog_tcpco());
    }
    v
}

pub open spec fn name_tls() -> Seq<u8> {
    seq![0x74u8, 0x6cu8, 0x73u8]
}

pub fn lit_tls() -> (v: Vec<u8>)
    ensures
        v@ == name_tls(),
{
    let mut v: Vec<u8> = Vec::new();
    v.push(0x74);
    v.push(0x6c);
    v.push(0x73);
    proof {
        assert(v@ =~= name_tls());
    }
    v
}

pub open spec fn name_syslog_tls() -> Seq<u8> {
    seq![0x73u8, 0x79u8, 0x73u8, 0x6cu8, 0x6fu8, 0x67u8, 0x2du8, 0x74u8, 0x6cu8, 0x73u8]
}

pub fn lit_syslog_tls() -> (v: Vec<u8>)
    ensures
        v@ == name_syslog_tls(),
{
    let mut v: Vec<u8> = Vec::new();
    v.push(0x73);
    v.push(0x79);
    v.push(0x73);
    v.push(0x6c);
    v.push(0x6f);
    v.push(0x67);
    v.push(0x2d);
    v.push(0x74);
    v.push(0x6c);
    v.push(0x73);
    proof {
        assert(v@ =~= name_syslog_tls());
    }
    v
}

pub open spec fn name_tls_co() -> Seq<u8> {
    seq![0x74u8, 0x6cu8, 0x73u8, 0x5fu8, 0x63u8, 0x6fu8]
}

pub fn lit_tls_co() -> (v: Vec<u8>)
    ensures
        v@ == name_tls_co(),
{
    let mut v: Vec<u8> = Vec::new();
    v.push(0x74);
    v.push(0x6c);
    v.push(0x73);
    v.push(0x5f);
    v.push(0x63);
    v.push(0x6f);
    proof {
        assert(v@ =~= name_tls_co());
    }
    v
}

pub open spec fn name_tlsco() -> Seq<u8> {
    seq![0x74u8, 0x6cu8, 0x73u8, 0x63u8, 0x6fu8]
}

pub fn lit_tlsco() -> (v: Vec<u8>)
    ensures
        v@ == name_tlsco(),
{
    let mut v: Vec<u8> = Vec::new();
    v.push(0x74);
    v.push(0x6c);
    v.push(0x73);
    v.push(0x63);
    v.push(0x6f);
    proof {
        assert(v@ =~= name_tlsco());
    }
    v
}

pub open spec fn name_syslog_tls_co() -> Seq<u8> {
    seq![0x73u8, 0x79u8, 0x73u8, 0x6cu8, 0x6fu8, 0x67u8, 0x2du8, 0x74u8, 0x6cu8, 0x73u8, 0x5fu8, 0x63u8, 0x6fu8]
}

pub fn lit_syslog_tls_co() -> (v: Vec<u8>)
    ensures
        v@ == name_syslog_tls_co(),
{
    let mut v: Vec<u8> = Vec::new();
    v.push(0x73);
    v.push(0x79);
    v.push(0x73);
    v.push(0x6c);
    v.push(0x6f);
    v.push(0x67);
    v.push(0x2d);
    v.push(0x74);
    v.push(0x6c);
    v.push(0x73);
    v.push(0x5f);
    v.push(0x63);
    v.push(0x6f);
    proof {
        assert(v@ =~= name_syslog_tls_co());
    }
    v
}

pub open spec fn name_syslog_tlsco() -> Seq<u8> {
    seq![0x73u8, 0x79u8, 0x73u8, 0x6cu8, 0x6fu8, 0x67u8, 0x2du8, 0x74u8, 0x6cu8, 0x73u8, 0x63u8, 0x6fu8]
}

pub fn lit_syslog_tlsco() -> (v: Vec<u8>)
    ensures
        v@ == name_syslog_tlsco(),
{
    let mut v: Vec<u8> = Vec::new();
    v.push(0x73);
    v.push(0x79);
    v.push(0x73);
    v.push(0x6c);
    v.push(0x6f);
    v.push(0x67);
    v.push(0x2d);
    v.push(0x74);
    v.push(0x6c);
    v.push(0x73);
    v.push(0x63);
    v.push(0x6f);
    proof {
        assert(v@ =~= name_syslog_tlsco());
    }
    v
}

pub open spec fn name_udp() -> Seq<u8> {
    seq![0x75u8, 0x64u8, 0x70u8]
}

pub fn lit_udp() -> (v: Vec<u8>)
    ensures
        v@ == name_udp(),
{
    let mut v: Vec<u8> = Vec::new();
    v.push(0x75);
    v.push(0x64);
    v.push(0x70);
    proof {
        assert(v@ =~= name_udp());
    }
    v
}

pub open spec fn name_debug() -> Seq<u8> {
    seq![0x64u8, 0x65u8, 0x62u8, 0x75u8, 0x67u8]
}

pub fn lit_debug() -> (v: Vec<u8>)
    ensures
        v@ == name_debug(),
{
    let mut v: Vec<u8> = Vec::new();
    v.push(0x64);
    v.push(0x65);
    v.push(0x62);
    v.push(0x75);
    v.push(0x67);
    proof {
        assert(v@ =~= name_debug());
    }
    v
}

pub open spec fn name_kafka() -> Seq<u8> {
    seq![0x6bu8, 0x61u8, 0x66u8, 0x6bu8, 0x61u8]
}

pub fn lit_kafka() -> (v: Vec<u8>)
    ensures
        v@ == name_kafka(),
{
    let mut v: Vec<u8> = Vec::new();
    v.push(0x6b);
    v.push(0x61);
    v.push(0x66);
    v.push(0x6b);
    v.push(0x61);
    proof {
        assert(v@ =~= name_kafka());
    }
    v
}

pub open spec fn name_elasticsearch() -> Seq<u8> {
    seq![0x65u8, 0x6cu8, 0x61u8, 0x73u8, 0x74u8, 0x69u8, 0x63u8, 0x73u8, 0x65u8, 0x61u8, 0x72u8, 0x63u8, 0x68u8]
}

pub fn lit_elasticsearch() -> (v: Vec<u8>)
    ensures
        v@ == name_elasticsearch(),
{
    let mut v: Vec<u8> = Vec::new();
    v.push(0x65);
    v.push(0x6c);
    v.push(0x61);
    v.push(0x73);
    v.push(0x74);
    v.push(0x69);
    v.push(0x63);
    v.push(0x73);
    v.push(0x65);
    v.push(0x61);
    v.push(0x72);
    v.push(0x63);
    v.push(0x68);
    proof {
        assert(v@ =~= name_elasticsearch());
    }
    v
}


/// The wire format a connection's records arrive in.
#[derive(Clone, Copy, Debug, PartialEq, Eq, Structural)]
pub enum DecoderKind {
    Rfc5424,
    Gelf,
    Ltsv,
}

/// The sink format records leave in.
#[derive(Clone, Copy, Debug, PartialEq, Eq, Structural)]
pub enum EncoderKind {
    Gelf,
    Binary,
}

/// The transport records arrive over.
#[derive(Clone, Copy, Debug, PartialEq, Eq, Structural)]
pub enum InputKind {
    Redis,
    Stdin,
    Tcp,
    TcpCo,
    Tls,
    TlsCo,
    Udp,
}

/// The sink records are delivered to.
#[derive(Clone, Copy, Debug, PartialEq, Eq, Structural)]
pub enum OutputKind {
    Debug,
    Kafka,
    Elasticsearch,
}

/// What the selected decoder makes of a framed record.
pub open spec fn spec_decode(kind: DecoderKind, s: Seq<u8>) -> Option<EventModel> {
    match kind {
        DecoderKind::Rfc5424 => crate::rfc5424::spec_rfc5424_decode(s),
        DecoderKind::Gelf => crate::gelf::spec_gelf_decode(s),
        DecoderKind::Ltsv => crate::ltsv::spec_ltsv_decode(s),
    }
}

impl DecoderKind {
    /// Decodes one framed record in this kind's wire format.
    pub fn decode(&self, buf: &[u8]) -> (r: Result<Event, DecodeError>)
        ensures
            match r {
                Ok(e) => spec_decode(*self, buf@) == Option::Some(e@),
                Err(_) => spec_decode(*self, buf@) == Option::<EventModel>::None,
            },
    {
        match self {
            DecoderKind::Rfc5424 => crate::rfc5424::rfc5424_decode(buf),
            DecoderKind::Gelf => crate::gelf::gelf_decode(buf),
            DecoderKind::Ltsv => crate::ltsv::ltsv_decode(buf),
        }
    }
}

/// Whether the selected encoder accepts the event.
pub open spec fn spec_encodable(kind: EncoderKind, m: EventModel) -> bool {
    match kind {
        EncoderKind::Gelf => crate::gelf::spec_gelf_encodable(m),
        EncoderKind::Binary => crate::binary::spec_binary_encodable(m),
    }
}

/// The sink bytes the selected encoder produces.
pub open spec fn spec_encode(kind: EncoderKind, m: EventModel) -> Seq<u8> {
    match kind {
        EncoderKind::Gelf => crate::gelf::spec_gelf_encode(m),
        EncoderKind::Binary => crate::binary::spec_binary_encode(m),
    }
}

impl EncoderKind {
    /// Serializes an event into sink-ready bytes.
    pub fn encode(&self, e: &Event) -> (r: Result<Vec<u8>, EncodeError>)
        ensures
            match r {
                Ok(v) => spec_encodable(*self, e@) && v@ == spec_encode(*self, e@),
                Err(_) => !spec_encodable(*self, e@),
            },
    {
        match self {
            EncoderKind::Gelf => crate::gelf::gelf_encode(e),
            EncoderKind::Binary => crate::binary::binary_encode(e),
        }
    }
}

/// The decoder each `input.format` name selects.
pub open spec fn spec_decoder_of_name(n: Seq<u8>) -> Option<DecoderKind> {
    if n == name_rfc5424() {
        Option::Some(DecoderKind::Rfc5424)
    } else if n == name_gelf() {
        Option::Some(DecoderKind::Gelf)
    } else if n == name_ltsv() {
        Option::Some(DecoderKind::Ltsv)
    } else {
        Option::None
    }
}

/// The encoder each `output.format` name selects.
pub open spec fn spec_encoder_of_name(n: Seq<u8>) -> Option<EncoderKind> {
    if n == name_gelf() || n == name_json() {
        Option::Some(EncoderKind::Gelf)
    } else if n == name_binary() {
        Option::Some(EncoderKind::Binary)
    } else {
        Option::None
    }
}

/// The transport each `input.type` name selects, aliases included.
pub open spec fn spec_input_of_name(n: Seq<u8>) -> Option<InputKind> {
    if n == name_redis() {
        Option::Some(InputKind::Redis)
    } else if n == name_stdin() {
        Option::Some(InputKind::Stdin)
    } else if n == name_tcp() || n == name_syslog_tcp() {
        Option::Some(InputKind::Tcp)
    } else if n == name_tcp_co() || n == name_tcpco() || n == name_syslog_tcp_co() || n
        == name_syslog_tcpco() {
        Option::Some(InputKind::TcpCo)
    } else if n == name_tls() || n == name_syslog_tls() {
        Option::Some(InputKind::Tls)
    } else if n == name_tls_co() || n == name_tlsco() || n == name_syslog_tls_co() || n
        == name_syslog_tlsco() {
        Option::Some(InputKind::TlsCo)
    } else if n == name_udp() {
        Option::Some(InputKind::Udp)
    } else {
        Option::None
    }
}

/// The sink each `output.type` name selects.
pub open spec fn spec_output_of_name(n: Seq<u8>) -> Option<OutputKind> {
    if n == name_debug() {
        Option::Some(OutputKind::Debug)
    } else if n == name_kafka() {
        Option::Some(OutputKind::Kafka)
    } else if n == name_elasticsearch() {
        Option::Some(OutputKind::Elasticsearch)
    } else {
        Option::None
    }
}

fn get_decoder(name: &[u8]) -> (r: Option<DecoderKind>)
    ensures
        r == spec_decoder_of_name(name@),
{
    if bytes_eq(name, lit_rfc5424().as_slice()) {
        Some(DecoderKind::Rfc5424)
    } else if bytes_eq(name, lit_gelf().as_slice()) {
        Some(DecoderKind::Gelf)
    } else if bytes_eq(name, lit_ltsv().as_slice()) {
        Some(DecoderKind::Ltsv)
    } else {
        None
    }
}

fn get_encoder(name: &[u8]) -> (r: Option<EncoderKind>)
    ensures
        r == spec_encoder_of_name(name@),
{
    if bytes_eq(name, lit_gelf().as_slice()) || bytes_eq(name, lit_json().as_slice()) {
        Some(EncoderKind::Gelf)
    } else if bytes_eq(name, lit_binary().as_slice()) {
        Some(EncoderKind::Binary)
    } else {
        None
    }
}

/// The transport a configured name selects.
pub fn get_input(name: &[u8]) -> (r: Option<InputKind>)
    ensures
        r == spec_input_of_name(name@),
{
    if bytes_eq(name, lit_redis().as_slice()) {
        Some(InputKind::Redis)
    } else if bytes_eq(name, lit_stdin().as_slice()) {
        Some(InputKind::Stdin)
    } else if bytes_eq(name, lit_tcp().as_slice()) || bytes_eq(name, lit_syslog_tcp().as_slice()) {
        Some(InputKind::Tcp)
    } else if bytes_eq(name, lit_tcp_co().as_slice()) || bytes_eq(name, lit_tcpco().as_slice())
        || bytes_eq(name, lit_syslog_tcp_co().as_slice()) || bytes_eq(
        name,
        lit_syslog_tcpco().as_slice(),
    ) {
        Some(InputKind::TcpCo)
    } else if bytes_eq(name, lit_tls().as_slice()) || bytes_eq(name, lit_syslog_tls().as_slice()) {
        Some(InputKind::Tls)
    } else if bytes_eq(name, lit_tls_co().as_slice()) || bytes_eq(name, lit_tlsco().as_slice())
        || bytes_eq(name, lit_syslog_tls_co().as_slice()) || bytes_eq(
        name,
        lit_syslog_tlsco().as_slice(),
    ) {
        Some(InputKind::TlsCo)
    } else if bytes_eq(name, lit_udp().as_slice()) {
        Some(InputKind::Udp)
    } else {
        None
    }
}

fn get_output(name: &[u8]) -> (r: Option<OutputKind>)
    ensures
        r == spec_output_of_name(name@),
{
    if bytes_eq(name, lit_debug().as_slice()) {
        Some(OutputKind::Debug)
    } else if bytes_eq(name, lit_kafka().as_slice()) {
        Some(OutputKind::Kafka)
    } else if bytes_eq(name, lit_elasticsearch().as_slice()) {
        Some(OutputKind::Elasticsearch)
    } else {
        None
    }
}

/// A configured pipeline, ready for the embedding program to drive.
pub struct Pipeline {
    pub input: InputKind,
    pub decoder: DecoderKind,
    pub encoder: EncoderKind,
    pub output: OutputKind,
    pub queue: Queue,
}

/// A string-typed lookup with its default, as the startup decision sees it.
pub open spec fn spec_str_or(
    cfg: Seq<(Seq<u8>, ConfigValueModel)>,
    key: Seq<u8>,
    default: Seq<u8>,
) -> Option<Seq<u8>> {
    match spec_lookup(cfg, key) {
        Option::Some(ConfigValueModel::Str(s)) => Option::Some(s),
        Option::Some(_) => Option::None,
        Option::None => Option::Some(default),
    }
}

pub open spec fn spec_int_or(
    cfg: Seq<(Seq<u8>, ConfigValueModel)>,
    key: Seq<u8>,
    default: i64,
) -> Option<i64> {
    match spec_lookup(cfg, key) {
        Option::Some(ConfigValueModel::Int(n)) => Option::Some(n),
        Option::Some(_) => Option::None,
        Option::None => Option::Some(default),
    }
}

/// What startup selects from the configuration: the transport, decoder,
/// encoder, sink and queue capacity, or nothing when any key is of the
/// wrong type, any name unknown, or the queue size not a positive integer
/// that fits the machine.
pub open spec fn spec_start(cfg: Seq<(Seq<u8>, ConfigValueModel)>) -> Option<
    (InputKind, DecoderKind, EncoderKind, OutputKind, int),
> {
    match spec_str_or(cfg, name_input_format(), name_rfc5424()) {
        Option::Some(fname) => match spec_decoder_of_name(fname) {
            Option::Some(dec) => match spec_str_or(cfg, name_input_type(), name_syslog_tls()) {
                Option::Some(tname) => match spec_input_of_name(tname) {
                    Option::Some(inp) => match spec_str_or(
                        cfg,
                        name_output_format(),
                        name_gelf(),
                    ) {
                        Option::Some(ename) => match spec_encoder_of_name(ename) {
                            Option::Some(enc) => match spec_str_or(
                                cfg,
                                name_output_type(),
                                name_kafka(),
                            ) {
                                Option::Some(oname) => match spec_output_of_name(oname) {
                                    Option::Some(out) => match spec_int_or(
                                        cfg,
                                        name_input_queuesize(),
                                        10_000_000,
                                    ) {
                                        Option::Some(qs) => {
                                            if 1 <= qs && qs <= usize::MAX {
                                                Option::Some((inp, dec, enc, out, qs as int))
                                            } else {
                                                Option::None
                                            }
                                        },
                                        Option::None => Option::None,
                                    },
                                    Option::None => Option::None,
                                },
                                Option::None => Option::None,
                            },
                            Option::None => Option::None,
                        },
                        Option::None => Option::None,
                    },
                    Option::None => Option::None,
                },
                Option::None => Option::None,
            },
            Option::None => Option::None,
        },
        Option::None => Option::None,
    }
}

/// Builds the pipeline the configuration asks for: format and transport
/// names resolved (with the standard defaults), the queue created empty
/// and open at the configured capacity. A missing required shape is a
/// fatal startup error naming the offending key or value; the process
/// must not serve on it.
pub fn start(config: &Config) -> (r: Result<Pipeline, FatalError>)
    ensures
        match r {
            Ok(p) => spec_start(config@) == Option::Some(
                (p.input, p.decoder, p.encoder, p.output, p.queue@.capacity as int),
            ) && p.queue@.items == Seq::<Seq<u8>>::empty() && !p.queue@.closed && p.queue.wf(),
            Err(_) => spec_start(config@) == Option::<
                (InputKind, DecoderKind, EncoderKind, OutputKind, int),
            >::None,
        },
{
    let fname = match config.lookup_str_or(lit_input_format().as_slice(), lit_rfc5424()) {
        Ok(v) => v,
        Err(e) => {
            return Err(e);
        },
    };
    let decoder = match get_decoder(fname.as_slice()) {
        Some(d) => d,
        None => {
            return Err(FatalError::UnknownName(fname));
        },
    };
    let tname = match config.lookup_str_or(lit_input_type().as_slice(), lit_syslog_tls()) {
        Ok(v) => v,
        Err(e) => {
            return Err(e);
        },
    };
    let input = match get_input(tname.as_slice()) {
        Some(i) => i,
        None => {
            return Err(FatalError::UnknownName(tname));
        },
    };
    let ename = match config.lookup_str_or(lit_output_format().as_slice(), lit_gelf()) {
        Ok(v) => v,
        Err(e) => {
            return Err(e);
        },
    };
    let encoder = match get_encoder(ename.as_slice()) {
        Some(c) => c,
        None => {
            return Err(FatalError::UnknownName(ename));
        },
    };
    let oname = match config.lookup_str_or(lit_output_type().as_slice(), lit_kafka()) {
        Ok(v) => v,
        Err(e) => {
            return Err(e);
        },
    };
    let output = match get_output(oname.as_slice()) {
        Some(o) => o,
        None => {
            return Err(FatalError::UnknownName(oname));
        },
    };
    let qs = match config.lookup_int_or(lit_input_queuesize().as_slice(), 10_000_000) {
        Ok(v) => v,
        Err(e) => {
            return Err(e);
        },
    };
    if !(1 <= qs && qs as u64 <= usize::MAX as u64) {
        return Err(FatalError::BadSize(lit_input_queuesize()));
    }
    let queue = Queue::new(qs as usize);
    Ok(Pipeline { input, decoder, encoder, output, queue })
}

} // verus!
