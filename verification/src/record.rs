use vstd::prelude::*;

verus! {

/// A point in time: whole seconds since the Unix epoch plus a nanosecond
/// remainder, with an explicit sign so instants before the epoch can be
/// carried without floating point. `neg` means the instant lies
/// `sec + nanos / 1e9` seconds *before* the epoch.
#[derive(Clone, Copy, Debug, PartialEq, Eq, Structural)]
pub struct Timestamp {
    pub neg: bool,
    pub sec: u64,
    pub nanos: u32,
}

impl Timestamp {
    /// A well-formed timestamp keeps the nanosecond part below one second
    /// and never writes a minus sign on zero.
    pub open spec fn valid(self) -> bool {
        self.nanos < 1_000_000_000 && (self.neg ==> !(self.sec == 0 && self.nanos == 0))
    }
}

/// The value of one additional event field.
///
/// Numbers keep their exact decimal source text, so re-serialising an event
/// never loses precision and never needs floating point.
#[derive(Clone, Debug, PartialEq, Eq)]
pub enum FieldValue {
    Str(Vec<u8>),
    Num(Vec<u8>),
    Bool(bool),
    Null,
}

/// Mathematical model of a `FieldValue`.
pub enum FieldValueModel {
    Str(Seq<u8>),
    Num(Seq<u8>),
    Bool(bool),
    Null,
}

/// Copies a byte buffer with its contents pinned down.
pub fn copy_bytes(v: &Vec<u8>) -> (r: Vec<u8>)
    ensures
        r@ == v@,
{
    let mut out: Vec<u8> = Vec::new();
    let mut i: usize = 0;
    while i < v.len()
        invariant
            i <= v@.len(),
            out@ == v@.subrange(0, i as int),
        decreases v@.len() - i,
    {
        out.push(v[i]);
        i = i + 1;
        proof {
            assert(out@ =~= v@.subrange(0, i as int));
        }
    }
    proof {
        assert(v@.subrange(0, v@.len() as int) =~= v@);
    }
    out
}

impl FieldValue {
    /// A copy whose model is the same.
    pub fn duplicate(&self) -> (r: FieldValue)
        ensures
            r@ == self@,
    {
        match self {
            FieldValue::Str(s) => FieldValue::Str(copy_bytes(s)),
            FieldValue::Num(s) => FieldValue::Num(copy_bytes(s)),
            FieldValue::Bool(b) => FieldValue::Bool(*b),
            FieldValue::Null => FieldValue::Null,
        }
    }
}

impl View for FieldValue {
    type V = FieldValueModel;

    open spec fn view(&self) -> FieldValueModel {
        match self {
            FieldValue::Str(s) => FieldValueModel::Str(s@),
            FieldValue::Num(s) => FieldValueModel::Num(s@),
            FieldValue::Bool(b) => FieldValueModel::Bool(*b),
            FieldValue::Null => FieldValueModel::Null,
        }
    }
}

/// A framed record the selected decoder could not turn into an event; the
/// record is dropped, the stream goes on.
#[derive(Clone, Copy, Debug, PartialEq, Eq, Structural)]
pub enum DecodeError {
    Malformed,
}

/// An event the selected encoder cannot serialize.
#[derive(Clone, Copy, Debug, PartialEq, Eq, Structural)]
pub enum EncodeError {
    /// A numeric field value is not a decimal number.
    BadNumber,
    /// The timestamp is not well formed.
    BadTimestamp,
    /// A field exceeds the binary schema's representable size.
    TooLong,
}

/// The structured result of decoding one framed record.
///
/// The message body is always present, even if empty; every other attribute
/// is optional and absent rather than defaulted when the input does not
/// carry it. Text is carried as UTF-8 bytes, passed through verbatim.
#[derive(Clone, Debug, PartialEq, Eq)]
pub struct Event {
    pub timestamp: Option<Timestamp>,
    pub host: Option<Vec<u8>>,
    pub facility: Option<u8>,
    pub severity: Option<u8>,
    pub appname: Option<Vec<u8>>,
    pub procid: Option<Vec<u8>>,
    pub msgid: Option<Vec<u8>>,
    pub message: Vec<u8>,
    pub extra: Vec<(Vec<u8>, FieldValue)>,
}

/// Mathematical model of an `Event`.
pub struct EventModel {
    pub timestamp: Option<Timestamp>,
    pub host: Option<Seq<u8>>,
    pub facility: Option<u8>,
    pub severity: Option<u8>,
    pub appname: Option<Seq<u8>>,
    pub procid: Option<Seq<u8>>,
    pub msgid: Option<Seq<u8>>,
    pub message: Seq<u8>,
    pub extra: Seq<(Seq<u8>, FieldValueModel)>,
}

/// View of an executable field list.
pub open spec fn fields_view(v: Seq<(Vec<u8>, FieldValue)>) -> Seq<(Seq<u8>, FieldValueModel)> {
    v.map_values(|p: (Vec<u8>, FieldValue)| (p.0@, p.1@))
}

pub open spec fn view_opt_bytes(o: Option<Vec<u8>>) -> Option<Seq<u8>> {
    match o {
        Option::Some(v) => Option::Some(v@),
        Option::None => Option::None,
    }
}

impl View for Event {
    type V = EventModel;

    open spec fn view(&self) -> EventModel {
        EventModel {
            timestamp: self.timestamp,
            host: view_opt_bytes(self.host),
            facility: self.facility,
            severity: self.severity,
            appname: view_opt_bytes(self.appname),
            procid: view_opt_bytes(self.procid),
            msgid: view_opt_bytes(self.msgid),
            message: self.message@,
            extra: fields_view(self.extra@),
        }
    }
}

impl EventModel {
    /// Additional-field keys are unique: the mapping is a map, not a bag.
    pub open spec fn keys_unique(self) -> bool {
        forall|i: int, j: int|
            0 <= i < j < self.extra.len() ==> self.extra[i].0 != self.extra[j].0
    }

    /// Structural well-formedness of a decoded event: facility and severity
    /// stay in their syslog ranges, the timestamp is well formed and the
    /// extra-field keys are unique.
    pub open spec fn valid(self) -> bool {
        &&& match self.facility {
            Option::Some(f) => f < 24,
            Option::None => true,
        }
        &&& match self.severity {
            Option::Some(s) => s < 8,
            Option::None => true,
        }
        &&& match self.timestamp {
            Option::Some(t) => t.valid(),
            Option::None => true,
        }
        &&& self.keys_unique()
    }
}

impl Event {
    /// An event with just an empty message: the starting point decoders
    /// fill in.
    pub fn empty() -> (e: Event)
        ensures
            e@ == (EventModel {
                timestamp: Option::None,
                host: Option::None,
                facility: Option::None,
                severity: Option::None,
                appname: Option::None,
                procid: Option::None,
                msgid: Option::None,
                message: Seq::<u8>::empty(),
                extra: Seq::<(Seq<u8>, FieldValueModel)>::empty(),
            }),
    {
        let e = Event {
            timestamp: None,
            host: None,
            facility: None,
            severity: None,
            appname: None,
            procid: None,
            msgid: None,
            message: Vec::new(),
            extra: Vec::new(),
        };
        proof {
            assert(e@.message =~= Seq::<u8>::empty());
            assert(e@.extra =~= Seq::<(Seq<u8>, FieldValueModel)>::empty());
        }
        e
    }
}

} // verus!
