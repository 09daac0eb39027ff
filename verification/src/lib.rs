//! Field extraction from mail bodies, rendering of the extracted fields as a
//! quoted, delimited table, and the decisions of the mail session that
//! supplies the bodies.

pub mod error;
pub mod fields;
pub mod pipeline;
pub mod row;
pub mod secret;
pub mod session;
pub mod settings;
pub mod text;
pub mod wire;
