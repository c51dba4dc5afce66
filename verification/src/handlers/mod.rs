//! What the HTTP handlers decide: health status, list paging, the daily
//! offset and the shape of the distribution responses.

pub mod health;
pub mod meta;
pub mod poem;
