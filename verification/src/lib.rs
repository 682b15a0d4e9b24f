//! Text layout and font fallback for a small X11 drawing layer.
//!
//! The crate decodes UTF-8 text, splits it into runs that one font of an
//! ordered chain can render, measures and elides each run against the width
//! that is left, and reports what has to be drawn. It talks to no server:
//! fonts come in as records of their metrics and glyphs, and what is to be
//! painted goes out as plain values.
//!
//! - [`utf8`] decodes one codepoint at a time.
//! - [`font`] holds the record of one font and measures text in it.
//! - [`fontset`] searches the font chain.
//! - [`run`] scans, fits and elides one run.
//! - [`segment`] is one step of layout, [`layout`] says what all steps
//!   together come to, and [`text`] lays a text out on a canvas.
//! - [`drw`] is the canvas with its colours and rectangles.
//! - [`laws`] holds what is true of every layout.
//! - [`xerror`] tells the errors of the X server that may be ignored.

pub mod drw;
pub mod font;
pub mod fontset;
pub mod laws;
pub mod layout;
pub mod run;
pub mod segment;
pub mod text;
pub mod utf8;
pub mod xerror;
