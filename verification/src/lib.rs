//! Inline ANSI terminal styling.
//!
//! A style tag such as `"FgbN"` is a short string of directives: `F` or `B`
//! followed by a color letter selects a foreground or background color,
//! `b`, `i` and `u` switch on bold, italic and underline, and `N` asks for a
//! leading newline. The [`decode`] module turns such a tag into the ordered
//! list of ANSI Select Graphic Rendition (SGR) codes it denotes, and the
//! [`render`] module wraps display text in the matching escape sequences and
//! joins a sequence of styled entries into one output string.
//!
//! Rendering decodes tags leniently, skipping anything it does not
//! recognize; [`decode::decode_strict`] is the fail-fast alternative for
//! validating tags up front. The [`laws`] module proves, once for all
//! inputs, how the decoders and the joined output behave.

pub mod decode;
pub mod laws;
pub mod render;

pub use crate::render::color_str;
