//! Verified core of a collection synchronizer for a digital music platform:
//! the durable download cache and its line format, decimal and token
//! formatting, payload extraction, pagination and link-resolution logic, and
//! the transport policies (token-bucket rate limiting, retry decisions).

pub mod api;
pub mod cache;
pub mod cli;
pub mod cookies;
pub mod error;
pub mod middlewares;
pub mod num;
pub mod text;
