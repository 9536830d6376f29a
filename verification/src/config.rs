//! The configuration the core consumes: a plain key/value store with typed
//! lookups and caller-supplied defaults. Reading and parsing the operator's
//! file is outside the core; the core only receives the entries and
//! refuses, fatally, a present key of the wrong type.

use vstd::prelude::*;

use crate::bytes::bytes_eq;
use crate::record::copy_bytes;

verus! {

/// One configuration value.
#[derive(Clone, Debug, PartialEq, Eq)]
pub enum ConfigValue {
    Str(Vec<u8>),
    Int(i64),
    Bool(bool),
}

pub enum ConfigValueModel {
    Str(Seq<u8>),
    Int(i64),
    Bool(bool),
}

impl View for ConfigValue {
    type V = ConfigValueModel;

    open spec fn view(&self) -> ConfigValueModel {
        match self {
            ConfigValue::Str(s) => ConfigValueModel::Str(s@),
            ConfigValue::Int(n) => ConfigValueModel::Int(*n),
            ConfigValue::Bool(b) => ConfigValueModel::Bool(*b),
        }
    }
}

impl ConfigValue {
    /// A copy whose model is the same.
    pub fn duplicate(&self) -> (r: ConfigValue)
        ensures
            r@ == self@,
    {
        match self {
            ConfigValue::Str(s) => ConfigValue::Str(copy_bytes(s)),
            ConfigValue::Int(n) => ConfigValue::Int(*n),
            ConfigValue::Bool(b) => ConfigValue::Bool(*b),
        }
    }
}

/// A fatal startup error: the process must not start serving on an
/// ambiguous configuration. Carries the offending key or value.
#[derive(Clone, Debug, PartialEq, Eq)]
pub enum FatalError {
    /// A required key is absent.
    MissingKey(Vec<u8>),
    /// The key is present with a value of the wrong type.
    WrongType(Vec<u8>),
    /// A format, transport or sink name that the system does not know.
    UnknownName(Vec<u8>),
    /// A size that must be a positive integer is not.
    BadSize(Vec<u8>),
}

/// The key/value store. A key set later shadows an earlier one.
pub struct Config {
    entries: Vec<(Vec<u8>, ConfigValue)>,
}

pub open spec fn entries_view(v: Seq<(Vec<u8>, ConfigValue)>) -> Seq<(Seq<u8>, ConfigValueModel)> {
    v.map_values(|p: (Vec<u8>, ConfigValue)| (p.0@, p.1@))
}

impl View for Config {
    type V = Seq<(Seq<u8>, ConfigValueModel)>;

    closed spec fn view(&self) -> Seq<(Seq<u8>, ConfigValueModel)> {
        entries_view(self.entries@)
    }
}

/// The first entry for `key` at or after `i` decides the lookup.
pub open spec fn spec_lookup_from(
    entries: Seq<(Seq<u8>, ConfigValueModel)>,
    key: Seq<u8>,
    i: int,
) -> Option<ConfigValueModel>
    recommends
        0 <= i <= entries.len(),
    decreases entries.len() - i,
    when 0 <= i <= entries.len()
{
    if i >= entries.len() {
        Option::None
    } else if entries[i].0 == key {
        Option::Some(entries[i].1)
    } else {
        spec_lookup_from(entries, key, i + 1)
    }
}

pub open spec fn spec_lookup(
    entries: Seq<(Seq<u8>, ConfigValueModel)>,
    key: Seq<u8>,
) -> Option<ConfigValueModel> {
    spec_lookup_from(entries, key, 0)
}

impl Config {
    pub fn new() -> (c: Config)
        ensures
            c@ == Seq::<(Seq<u8>, ConfigValueModel)>::empty(),
    {
        let c = Config { entries: Vec::new() };
        proof {
            assert(c@ =~= Seq::<(Seq<u8>, ConfigValueModel)>::empty());
        }
        c
    }

    /// Adds an entry in front, so it shadows any earlier one for the key.
    pub fn set(&mut self, key: Vec<u8>, value: ConfigValue)
        ensures
            final(self)@ == seq![(key@, value@)] + old(self)@,
    {
        let ghost prev = self@;
        self.entries.insert(0, (key, value));
        proof {
            assert(entries_view(self.entries@) =~= seq![
                (self.entries@[0].0@, self.entries@[0].1@),
            ] + prev);
        }
    }

    /// The value stored for `key`, if any.
    pub fn lookup(&self, key: &[u8]) -> (r: Option<ConfigValue>)
        ensures
            match r {
                Some(v) => spec_lookup(self@, key@) == Option::Some(v@),
                None => spec_lookup(self@, key@) == Option::<ConfigValueModel>::None,
            },
    {
        let mut i: usize = 0;
        while i < self.entries.len()
            invariant
                i <= self.entries@.len(),
                self@ == entries_view(self.entries@),
                spec_lookup(self@, key@) == spec_lookup_from(self@, key@, i as int),
            decreases self.entries@.len() - i,
        {
            if bytes_eq(self.entries[i].0.as_slice(), key) {
                proof {
                    assert(self@[i as int] == (self.entries@[i as int].0@, self.entries@[i as int].1@));
                }
                return Some(self.entries[i].1.duplicate());
            }
            proof {
                assert(self@[i as int] == (self.entries@[i as int].0@, self.entries@[i as int].1@));
            }
            i = i + 1;
        }
        None
    }

    /// A string lookup with a default: the default when the key is absent,
    /// the stored text when it holds a string, and a fatal error when it
    /// holds anything else.
    pub fn lookup_str_or(&self, key: &[u8], default: Vec<u8>) -> (r: Result<Vec<u8>, FatalError>)
        ensures
            match r {
                Ok(v) => match spec_lookup(self@, key@) {
                    Option::Some(m) => m == ConfigValueModel::Str(v@),
                    Option::None => v@ == default@,
                },
                Err(_) => match spec_lookup(self@, key@) {
                    Option::Some(m) => !(m is Str),
                    Option::None => false,
                },
            },
    {
        match self.lookup(key) {
            None => Ok(default),
            Some(ConfigValue::Str(s)) => Ok(s),
            Some(_) => Err(FatalError::WrongType(crate::bytes::copy_subrange(
                key,
                0,
                key.len(),
            ))),
        }
    }

    /// An integer lookup with a default, fatal on a non-integer value.
    pub fn lookup_int_or(&self, key: &[u8], default: i64) -> (r: Result<i64, FatalError>)
        ensures
            match r {
                Ok(v) => match spec_lookup(self@, key@) {
                    Option::Some(m) => m == ConfigValueModel::Int(v),
                    Option::None => v == default,
                },
                Err(_) => match spec_lookup(self@, key@) {
                    Option::Some(m) => !(m is Int),
                    Option::None => false,
                },
            },
    {
        match self.lookup(key) {
            None => Ok(default),
            Some(ConfigValue::Int(n)) => Ok(n),
            Some(_) => Err(FatalError::WrongType(crate::bytes::copy_subrange(
                key,
                0,
                key.len(),
            ))),
        }
    }

    /// A boolean lookup with a default, fatal on a non-boolean value.
    pub fn lookup_bool_or(&self, key: &[u8], default: bool) -> (r: Result<bool, FatalError>)
        ensures
            match r {
                Ok(v) => match spec_lookup(self@, key@) {
                    Option::Some(m) => m == ConfigValueModel::Bool(v),
                    Option::None => v == default,
                },
                Err(_) => match spec_lookup(self@, key@) {
                    Option::Some(m) => !(m is Bool),
                    Option::None => false,
                },
            },
    {
        match self.lookup(key) {
            None => Ok(default),
            Some(ConfigValue::Bool(b)) => Ok(b),
            Some(_) => Err(FatalError::WrongType(crate::bytes::copy_subrange(
                key,
                0,
                key.len(),
            ))),
        }
    }
}

} // verus!
