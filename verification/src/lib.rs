#![verifier::loop_isolation(false)]
//! Normalizes chat exports from four structurally distinct sources into one
//! canonical message record, then filters, merges, and serializes that record
//! stream into a compact representation.
//!
//! Pipeline: raw export text -> platform parser (eager or lazy) -> ordered
//! canonical records -> filter stage -> merge stage -> serializer -> output
//! text. Eager and lazy parsing are proved to agree, so the two execution
//! modes yield identical output.

pub mod datetime;
pub mod extract;
pub mod filter;
pub mod json;
pub mod json_parse;
pub mod lines;
pub mod merge;
pub mod pipeline;
pub mod platform;
pub mod record;
pub mod render;
pub mod roundtrip;
pub mod stream;
pub mod text;
pub mod time;

pub use platform::Format;
pub use platform::Platform;
pub use record::ConfigError;
pub use record::FilterConfig;
pub use record::Message;
pub use record::OutputConfig;
pub use record::ParseError;
pub use stream::MessageStream;
pub use time::Date;
pub use time::Timestamp;
