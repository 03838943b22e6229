//! Request admission, HTTP framing, audit reports and TLS set-up for a
//! small legal-document analysis server.

pub mod audit;
pub mod grok;
pub mod http;
pub mod text;
pub mod tls;
pub mod tracker;

pub use audit::{create_fallback_response, AiReply, AuditRequest, AuditResponse};
pub use grok::Message;
pub use tracker::{ConnectionTracker, PeerAddr};
