//! Role-based authorization decisions over decoded token claims.
//!
//! A role is an `action:path` pair; claims carry granted role strings and
//! audience strings; `is_authorized` decides which granted roles permit a
//! requested resource key, directly or by audience substitution.

pub mod api_policy;
pub mod role_policy;
pub mod text;
