//! The search-index sink's configured identity: its endpoint and index
//! are required string keys, checked fatally at startup. Delivering
//! buffers over HTTP is the embedding program's part.

use vstd::prelude::*;

use crate::config::{spec_lookup, Config, ConfigValueModel, FatalError};

verus! {

pub open spec fn key_es_endpoint() -> Seq<u8> {
    seq![0x6fu8, 0x75u8, 0x74u8, 0x70u8, 0x75u8, 0x74u8, 0x2eu8, 0x65u8, 0x6cu8, 0x61u8, 0x73u8, 0x74u8, 0x69u8, 0x63u8, 0x73u8, 0x65u8, 0x61u8, 0x72u8, 0x63u8, 0x68u8, 0x5fu8, 0x65u8, 0x6eu8, 0x64u8, 0x70u8, 0x6fu8, 0x69u8, 0x6eu8, 0x74u8]
}

pub fn lit_es_endpoint() -> (v: Vec<u8>)
    ensures
        v@ == key_es_endpoint(),
{
    let mut v: Vec<u8> = Vec::new();
    v.push(0x6f);
    v.push(0x75);
    v.push(0x74);
    v.push(0x70);
    v.push(0x75);
    v.push(0x74);
    v.push(0x2e);
    v.push(0x65);
    v.push(0x6c);
    v.push(0x61);
    v.push(0x73);
    v.push(0x74);
    v.push(0x69);
    v.push(0x63);
    v.push(0x73);
    v.push(0x65);
    v.push(0x61);
    v.push(0x72);
    v.push(0x63);
    v.push(0x68);
    v.push(0x5f);
    v.push(0x65);
    v.push(0x6e);
    v.push(0x64);
    v.push(0x70);
    v.push(0x6f);
    v.push(0x69);
    v.push(0x6e);
    v.push(0x74);
    proof {
        assert(v@ =~= key_es_endpoint());
    }
    v
}

pub open spec fn key_es_index() -> Seq<u8> {
    seq![0x6fu8, 0x75u8, 0x74u8, 0x70u8, 0x75u8, 0x74u8, 0x2eu8, 0x65u8, 0x6cu8, 0x61u8, 0x73u8, 0x74u8, 0x69u8, 0x63u8, 0x73u8, 0x65u8, 0x61u8, 0x72u8, 0x63u8, 0x68u8, 0x5fu8, 0x69u8, 0x6eu8, 0x64u8, 0x65u8, 0x78u8]
}

pub fn lit_es_index() -> (v: Vec<u8>)
    ensures
        v@ == key_es_index(),
{
    let mut v: Vec<u8> = Vec::new();
    v.push(0x6f);
    v.push(0x75);
    v.push(0x74);
    v.push(0x70);
    v.push(0x75);
    v.push(0x74);
    v.push(0x2e);
    v.push(0x65);
    v.push(0x6c);
    v.push(0x61);
    v.push(0x73);
    v.push(0x74);
    v.push(0x69);
    v.push(0x63);
    v.push(0x73);
    v.push(0x65);
    v.push(0x61);
    v.push(0x72);
    v.push(0x63);
    v.push(0x68);
    v.push(0x5f);
    v.push(0x69);
    v.push(0x6e);
    v.push(0x64);
    v.push(0x65);
    v.push(0x78);
    proof {
        assert(v@ =~= key_es_index());
    }
    v
}


/// The search-index sink: where encoded records are posted.
pub struct ElasticsearchOutput {
    pub endpoint: Vec<u8>,
    pub index: Vec<u8>,
}

impl ElasticsearchOutput {
    /// Reads the sink's two required keys; missing or non-string values
    /// are fatal startup errors.
    pub fn new(config: &Config) -> (r: Result<ElasticsearchOutput, FatalError>)
        ensures
            match r {
                Ok(o) => spec_lookup(config@, key_es_endpoint()) == Option::Some(
                    ConfigValueModel::Str(o.endpoint@),
                ) && spec_lookup(config@, key_es_index()) == Option::Some(
                    ConfigValueModel::Str(o.index@),
                ),
                Err(_) => !(spec_lookup(config@, key_es_endpoint()) matches Option::Some(
                    ConfigValueModel::Str(_),
                )) || !(spec_lookup(config@, key_es_index()) matches Option::Some(
                    ConfigValueModel::Str(_),
                )),
            },
    {
        let endpoint = match config.lookup(lit_es_endpoint().as_slice()) {
            Some(crate::config::ConfigValue::Str(s)) => s,
            Some(_) => {
                return Err(FatalError::WrongType(lit_es_endpoint()));
            },
            None => {
                return Err(FatalError::MissingKey(lit_es_endpoint()));
            },
        };
        let index = match config.lookup(lit_es_index().as_slice()) {
            Some(crate::config::ConfigValue::Str(s)) => s,
            Some(_) => {
                return Err(FatalError::WrongType(lit_es_index()));
            },
            None => {
                return Err(FatalError::MissingKey(lit_es_index()));
            },
        };
        Ok(ElasticsearchOutput { endpoint, index })
    }
}

} // verus!
