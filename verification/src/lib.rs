pub mod ast;
pub mod clause;
pub mod from_tokens;
pub mod into_tokens;
pub mod round_trip;
pub mod segment_laws;
pub mod sentence_segment;
pub mod tag;
pub mod textualize;
pub mod token;
pub mod well_formed;
