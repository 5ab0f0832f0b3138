//! Decoder for a fixed-layout exchange quote feed (marker `B6034`).
//!
//! The library turns captured frame payloads into structured quotes: a
//! byte-level validity filter, a declarative fixed-width field extractor,
//! scaled-integer price and time conversions, bid/ask level assembly, and an
//! aggregation and formatting stage with optional stable time-ordering.

pub mod collect;
pub mod extract;
pub mod frame;
pub mod numtext;
pub mod quote;
pub mod timefmt;

pub use collect::csv_header;
pub use collect::process_frames;
pub use collect::render_quotes;
pub use collect::sort_by_accept_time;
pub use extract::digest;
pub use frame::is_valid_quote;
pub use numtext::fmt_two_dec;
pub use numtext::two_dec;
pub use quote::build_bidasks;
pub use quote::build_quote;
pub use quote::DecodeError;
pub use quote::Quote;
pub use timefmt::accept_dt;
