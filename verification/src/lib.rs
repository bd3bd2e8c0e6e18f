//! A verified core for a `head`-style utility: print the first N lines or
//! the first N bytes of each named input, with per-file headers when more
//! than one input is named.
//!
//! The library is split in three parts:
//! - [`args`]: command-line validation, producing a [`args::Config`];
//! - [`render`]: the line and byte renderers for a single input;
//! - [`orchestrate`]: the run over all inputs, including headers and
//!   per-source open-failure diagnostics.
//!
//! All I/O stays outside: callers hand each source's bytes (or its open
//! error) to [`orchestrate::run`] and write the returned output themselves.

pub mod args;
pub mod orchestrate;
pub mod render;

pub use args::Config;
pub use args::HeadError;
pub use args::Mode;
pub use args::error_message;
pub use args::get_args;
pub use args::parse_positive;
pub use orchestrate::RunOutput;
pub use orchestrate::SourceOutcome;
pub use orchestrate::diag_line;
pub use orchestrate::run;
pub use render::head_bytes;
pub use render::head_lines;
pub use render::header_line;
