//! Bridge between the coloured output of a command and a Kakoune fifo buffer.
//!
//! The text of the command goes to the buffer with its styling removed; the
//! styling becomes a queue of ranges that a small server hands out on demand,
//! up to the position the editor has displayed so far.
//!
//! - [`fifo`] holds the relay, which turns each line of output into clean
//!   text and ranges;
//! - [`range_specs`] holds the queue between relay and server, and what the
//!   server answers to a request;
//! - [`range`] holds positions, selections and ranges, and their text form;
//! - [`face`] writes style effects as Kakoune faces, and text with styling
//!   codes as text with face markup;
//! - [`ansi`] finds the styling codes in a line;
//! - [`escape`] is the scanner that finds what must be escaped in text put
//!   into a Kakoune command;
//! - [`command`] puts together the messages for the editor's control socket;
//! - [`args`] and [`mktemp`] hold what the command line asks for and the
//!   names of the files of one run;
//! - [`init`] writes the commands that set the editor up for a run;
//! - [`text`] holds what the others share for building and scanning text.
//!
//! The library reads and writes nothing: whoever runs the command and owns
//! the fifo and the sockets hands it lines and requests, and does what it
//! answers.

pub mod ansi;
pub mod args;
pub mod command;
pub mod error;
pub mod escape;
pub mod face;
pub mod fifo;
pub mod init;
pub mod mktemp;
pub mod range;
pub mod range_specs;
pub mod text;
