//! Subtitle documents in the SubRip text format: timestamps with carry
//! arithmetic, single subtitles, and whole collections, each with a parser
//! and a renderer whose behaviour is stated over sequences of characters.

pub mod encoding;
pub mod error;
pub mod line_endings;
pub mod number;
pub mod order;
pub mod round_trip;
pub mod subtitle;
pub mod subtitles;
pub mod text;
pub mod timestamp;

pub use error::ParsingError;
pub use number::IntError;
pub use subtitle::Subtitle;
pub use subtitles::Subtitles;
pub use timestamp::Timestamp;
