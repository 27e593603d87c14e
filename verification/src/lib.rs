//! Normalization, formatting, validation and parsing for postal addresses.
//!
//! Every public function here is pure: the same input always gives the
//! same output, and none of them touch the filesystem, the network, or any
//! other ambient state.
pub mod address;
pub mod cli;
pub mod laws;
pub mod states;
pub mod text;

pub use address::{
    format_address, format_international_address, format_us_address, normalize_us_postal_code,
    normalize_us_region, normalize_whitespace, parse_us_address, validate, Address,
    ValidationIssue,
};
