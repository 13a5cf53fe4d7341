pub mod headers;
pub mod opts;
