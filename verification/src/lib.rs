//! A text buffer addressed by cursor: the arithmetic that takes a
//! (column, row) position to an offset in the text and back, and an editing
//! session that keeps a cursor inside its buffer while commands change both.
//!
//! - `lines`: the lines of a text, as mathematics.
//! - `encoding`: the bytes that characters take, and offsets in bytes.
//! - `address`: from cursors to offsets and back.
//! - `buffer`: changes to a `String` at an offset.
//! - `model`: what the commands of a session do, as mathematics.
//! - `session`: the session that carries them out.
//! - `keys`: from key presses to commands.
//! - `std_specs`: what is taken on trust of the standard library.
//!
//! The library does no input or output. It says when the text is to be
//! written; reading keys, painting the screen and writing the file are left
//! to the program around it.

pub mod address;
pub mod buffer;
pub mod encoding;
pub mod keys;
pub mod lines;
pub mod model;
pub mod session;
pub mod std_specs;

pub use address::{index_to_position, line_length, position_to_index, total_lines};
pub use keys::{decode_key, Key, KeyPress};
pub use model::{Command, Outcome};
pub use session::{can_initialize, initialize_text_buffer, EditSession};
