//! A verified parser for HTTP URLs.
//!
//! The crate decomposes a raw text string into scheme, host, port, path and
//! query components, with fixed defaulting rules (port `80`, path `/`) and a
//! closed error taxonomy.  Every executable function carries a contract that
//! pins its result down over a character-sequence model of the input, and the
//! round-trip law between parsing and the canonical serialization is proved.

pub mod digits;
pub mod http_client;
pub mod model;
pub mod raw_url;
pub mod scan;
pub mod url;
