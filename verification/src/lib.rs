//! Policy-based access control core: roles, versioned policies with a
//! draft/active/archived lifecycle, allow/deny rules, subject bindings,
//! session-token authentication, and the decision engine that evaluates
//! requests against the policies bound to an identity.

pub mod engine;
pub mod gate;
pub mod laws;
pub mod model;
pub mod requests;
pub mod session;
pub mod store;
