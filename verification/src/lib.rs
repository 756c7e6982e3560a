//! Rank-ordered route matching and guard-forwarding dispatch.

pub mod catalogue;
pub mod decode;
pub mod dispatch;
pub mod form;
pub mod guard;
pub mod matcher;
pub mod pattern;
pub mod request;
pub mod site;
pub mod table;
pub mod text;
pub mod value;
