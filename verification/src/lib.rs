//! A protocol for rebuilding typed values from a source that knows nothing of
//! their types: by asking the source for one thing after another, or by
//! reading the tokens it hands out.
//!
//! - [`decoder`] is the interface of a source that is asked; [`de`] that of a
//!   source that hands out [`token`]s, with [`reading`] to say what the tokens
//!   come to and [`error`] for what goes wrong.
//! - [`animal`] and [`outer`] each hold a value of one shape and the adapter
//!   that serves it through both interfaces; [`replay`] serves any tokens.
//! - [`json`] is a tree of values with builders for lists and objects.
//! - [`text`], [`assoc`] and [`char_map`] are what the others are built on.

pub mod animal;
pub mod assoc;
pub mod char_map;
pub mod de;
pub mod decoder;
pub mod error;
pub mod json;
pub mod outer;
pub mod reading;
pub mod replay;
pub mod text;
pub mod token;
