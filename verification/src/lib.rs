//! Matching and serving core of an HTTP service-virtualisation server.

pub mod bitset;
pub mod compare;
pub mod copies;
pub mod datadir;
pub mod debug;
pub mod delivery;
pub mod events;
pub mod fault;
pub mod fields;
pub mod flow_store;
pub mod generators;
pub mod headers;
pub mod imposter;
pub mod journal;
pub mod json;
pub mod lookup;
pub mod matching;
pub mod pipeline;
pub mod predicate;
pub mod predicates;
pub mod proxy;
pub mod proxy_run;
pub mod query;
pub mod record;
pub mod regex_cache;
pub mod responses;
pub mod serving;
pub mod snapshot;
pub mod structural_hash;
pub mod stub;
pub mod stub_index;
pub mod text;
pub mod types;
