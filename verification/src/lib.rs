//! An in-memory lookup service over two fixed datasets: an ordered list of
//! category records and a map from category identifier to a detail payload.
//!
//! The heart of the library is the slicing rule of
//! [`categories::Categories::get_categories`]: a signed `count` selects a
//! prefix of the category list, and a negative `count` means "all but the
//! last `|count|`", clamped at both ends. Lookups by identifier resolve to
//! the first matching record, or to a fixed empty sentinel record on a miss;
//! detail lookups instead owe their caller a present key.
//!
//! The data itself is supplied by the host at construction time, already
//! parsed into [`json::JsonValue`] trees; loading and deserializing the
//! bundled text is the host's business, not this library's.

pub mod categories;
pub mod details;
pub mod json;
pub mod record;
