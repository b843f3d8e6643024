//! Media export planning and container rewriting for the towavue runtime.
//!
//! Every module holds verified logic: the decisions of an export around its
//! encoder process, encoder arguments and filter graphs (timelines and
//! high-depth video included), option validation, reading loudness reports,
//! the checks that notice a source changed under an export,
//! and byte-level PNG, APNG, JPEG, GIF and ISO-BMFF (AVIF) scanning and
//! rewriting. Process control, file access and floating point stay with
//! callers.
use vstd::prelude::*;

pub mod error;
pub mod text;
pub mod metadata;
pub mod parse;
pub mod audio_options;
pub mod loudness;
pub mod path;
pub mod edits;
pub mod formats;
pub mod bytes;
pub mod jpeg;
pub mod png;
pub mod gif;
pub mod avif;
pub mod sequence;
pub mod args;
pub mod timeline;
pub mod high_depth;
pub mod export;
pub mod stamp;
pub mod images;
pub mod laws;
pub mod apng_laws;
pub mod meaning_laws;

verus! {

} // verus!
