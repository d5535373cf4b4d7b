//! Who may do what: roles, scopes, shared-access rules and tokens.

pub mod grant;
pub mod laws;
pub mod policy;
pub mod role;
pub mod scope;
pub mod token;
