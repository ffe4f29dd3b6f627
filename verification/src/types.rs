//! Stubs, responses and imposter configuration.

use crate::json::Json;
use crate::predicate::Predicate;
use vstd::prelude::*;

verus! {

/// Whether a body is text or base64 of raw bytes.
#[derive(Clone, Copy, Debug, PartialEq, Eq, Structural)]
pub enum ResponseMode {
    Text,
    Binary,
}

/// A fixed response.
#[derive(Debug)]
pub struct IsResponse {
    pub status_code: u16,
    /// One entry per header name, one value per header line.
    pub headers: Vec<(String, Vec<String>)>,
    pub body: Option<Json>,
    pub mode: ResponseMode,
}

/// What is done to a response before it is served.
#[derive(Debug)]
pub struct ResponseBehaviors {
    /// How long to wait, as configured; how many milliseconds that is, is drawn per request.
    pub wait: Option<Json>,
    /// How often a response is served before the next one's turn.
    pub repeat: Option<u32>,
    /// Rules that copy request values into the response.
    pub copy: Vec<Json>,
    /// Rules that look values up in data files.
    pub lookup: Vec<Json>,
    /// A script that rewrites the response.
    pub decorate: Option<String>,
    /// Commands the body is piped through, in order.
    pub shell_transform: Vec<String>,
}

/// A delay before the response: fixed, or drawn from a range.
#[derive(Debug)]
pub struct RiftLatencyFault {
    /// The probability with which it strikes, as the bits of a double.
    pub probability_bits: u64,
    pub ms: Option<u64>,
    pub min_ms: u64,
    pub max_ms: u64,
}

/// An error response in place of the configured one.
#[derive(Debug)]
pub struct RiftErrorFault {
    /// The probability with which it strikes, as the bits of a double.
    pub probability_bits: u64,
    pub status: u16,
    pub body: Option<String>,
    pub headers: Vec<(String, String)>,
}

/// A transport-level fault, by name.
#[derive(Debug)]
pub struct RiftTcpFault {
    /// The probability with which it strikes, as the bits of a double.
    pub probability_bits: u64,
    pub kind: String,
}

/// The faults a response may meet. Whether each one strikes is drawn per request.
#[derive(Debug)]
pub struct RiftFaultConfig {
    pub latency: Option<RiftLatencyFault>,
    pub error: Option<RiftErrorFault>,
    pub tcp: Option<RiftTcpFault>,
}

/// A script that answers in place of a fixed response.
#[derive(Debug)]
pub struct RiftScriptConfig {
    pub engine: Option<String>,
    pub code: Option<String>,
}

/// Extensions of a fixed response.
#[derive(Debug)]
pub struct RiftResponseExtension {
    pub fault: Option<RiftFaultConfig>,
    pub script: Option<RiftScriptConfig>,
    pub templated: bool,
}

/// The first occurrence of `from` in a proxied path becomes `to`.
#[derive(Debug)]
pub struct PathRewrite {
    pub from: String,
    pub to: String,
}

/// A response fetched from an upstream, and how it is recorded.
#[derive(Debug)]
pub struct ProxyResponse {
    pub to: String,
    /// `proxyOnce`, `proxyAlways` or `proxyTransparent`; stubs of an empty one are placed as for
    /// `proxyOnce`.
    pub mode: String,
    pub predicate_generators: Vec<Json>,
    pub add_wait_behavior: bool,
    pub add_decorate_behavior: Option<String>,
    pub inject_headers: Vec<(String, String)>,
    pub path_rewrite: Option<PathRewrite>,
}

/// One of a stub's responses.
#[derive(Debug)]
pub enum StubResponse {
    Is {
        is: IsResponse,
        behaviors: Option<ResponseBehaviors>,
        rift: Option<RiftResponseExtension>,
    },
    Proxy { proxy: ProxyResponse },
    Inject { inject: String, behaviors: Option<ResponseBehaviors> },
    Fault { fault: String },
    RiftScript { script: RiftScriptConfig },
}

impl StubResponse {
    /// How often this response is served before the next one's turn.
    pub open spec fn repeat(&self) -> Option<u32> {
        match self {
            StubResponse::Is { is: _, behaviors: Some(b), rift: _ } => b.repeat,
            StubResponse::Inject { inject: _, behaviors: Some(b) } => b.repeat,
            _ => None,
        }
    }

    /// How often this response is served before the next one's turn, where it says so.
    pub fn get_repeat(&self) -> (r: Option<u32>)
        ensures
            r == self.repeat(),
    {
        match self {
            StubResponse::Is { is: _, behaviors: Some(b), rift: _ } => b.repeat,
            StubResponse::Inject { inject: _, behaviors: Some(b) } => b.repeat,
            _ => None,
        }
    }
}

/// Predicates, and the responses served in turn where they hold.
#[derive(Debug)]
pub struct Stub {
    pub id: Option<String>,
    pub predicates: Vec<Predicate>,
    pub responses: Vec<StubResponse>,
    /// The scenario this stub belongs to.
    pub scenario_name: Option<String>,
    /// The stub takes part only where its scenario is in this state.
    pub required_scenario_state: Option<String>,
    /// The state the scenario moves to when this stub is served.
    pub new_scenario_state: Option<String>,
    /// The stub takes part only for this flow.
    pub space: Option<String>,
    /// A path pattern that names path parameters.
    pub route_pattern: Option<String>,
    /// The upstream the stub was recorded from.
    pub recorded_from: Option<String>,
}

/// Connection settings of a Redis flow store.
#[derive(Debug)]
pub struct RedisConfig {
    pub url: String,
    pub pool_size: usize,
    pub key_prefix: String,
}

/// Where flow state is kept, and what identifies a flow.
#[derive(Debug)]
pub struct RiftFlowStateConfig {
    pub backend: String,
    pub ttl_seconds: u32,
    /// `imposter_port`, or `header:` and a header's name.
    pub flow_id_source: Option<String>,
    pub redis: Option<RedisConfig>,
}

/// Extensions of an imposter.
#[derive(Debug)]
pub struct RiftConfig {
    pub flow_state: Option<RiftFlowStateConfig>,
}

/// An imposter's configuration.
#[derive(Debug)]
pub struct ImposterConfig {
    pub port: Option<u16>,
    pub protocol: String,
    pub name: Option<String>,
    pub stubs: Vec<Stub>,
    pub record_requests: bool,
    pub allow_cors: bool,
    pub strict_behaviors: bool,
    /// Where unmatched requests are forwarded.
    pub default_forward: Option<String>,
    /// What unmatched requests are answered with.
    pub default_response: Option<IsResponse>,
    pub rift: Option<RiftConfig>,
}

} // verus!
