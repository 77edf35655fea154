//! Roles and what they grant.

pub mod role;
