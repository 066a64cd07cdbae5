//! Kinetix: the decision core of a self-hosted LLM proxy.

pub mod admin;
pub mod affinity;
pub mod alerts;
pub mod api;
pub mod assets;
pub mod attempt;
pub mod auth;
pub mod bench;
pub mod clock;
pub mod config;
pub mod cost;
pub mod credentials;
pub mod crypto;
pub mod ids;
pub mod ingress;
pub mod inventory;
pub mod json;
pub mod limits;
pub mod live;
pub mod logqueue;
pub mod metrics;
pub mod net;
pub mod number;
pub mod order;
pub mod outbound;
pub mod package;
pub mod params;
pub mod pipeline;
pub mod plan;
pub mod plugins;
pub mod pool;
pub mod predicate;
pub mod probe;
pub mod ratelimit;
pub mod registry;
pub mod request;
pub mod sse;
pub mod stream;
pub mod text;
pub mod types;
pub mod upstream;
pub mod wire;
