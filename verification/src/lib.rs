//! A pretty-printer core for FIX protocol messages: it extracts tag=value
//! fields from raw text, classifies each line as a full message, a partial
//! message or ordinary text, and renders the result under a configurable set
//! of transforms (colourization, stripping, tag and value translation,
//! repeating-group folding, summary templating).
use vstd::prelude::*;

pub mod fields;
pub mod fold;
pub mod laws;
pub mod numeral;
pub mod options;
pub mod render;
pub mod router;
pub mod strutil;
pub mod summary;
pub mod tables;

verus! {

} // verus!
