//! A linter for BPF C code.
//!
//! At the source code level, individual lints can be disabled with
//! source code comments of the form
//! ```c
//! /* bpflint: disable=probe-read */
//! bpf_probe_read(/* ... */);
//! ```
//!
//! A directive placed in front of a block or a function disables the
//! lint for everything inside it. The directive `bpflint: disable=all`
//! disables every lint.

pub mod ansi_color;
pub mod directive;
pub mod highlight;
pub mod lines;
pub mod lint;
pub mod mime;
pub mod position;
pub mod report;
pub mod syntax;
pub mod text;
pub mod version;

pub use crate::ansi_color::AnsiColor24;
pub use crate::ansi_color::hex_color_to_ansi;
pub use crate::ansi_color::parse_hex_byte;
pub use crate::ansi_color::parse_hex_digit;
pub use crate::highlight::HighlightError;
pub use crate::highlight::HighlightStep;
pub use crate::highlight::Highlighter;
pub use crate::highlight::ansi_for_highlight;
pub use crate::highlight::create_highlighter;
pub use crate::highlight::render_highlighted;
pub use crate::lint::Capture;
pub use crate::lint::Lint;
pub use crate::lint::LintError;
pub use crate::lint::LintMatch;
pub use crate::lint::builtin_lints;
pub use crate::lint::collect_matches;
pub use crate::lint::is_lint_disabled;
pub use crate::lint::lint;
pub use crate::lint::lint_custom;
pub use crate::lint::lint_custom_with_warnings;
pub use crate::lint::lint_with_warnings;
pub use crate::mime::content_type;
pub use crate::position::Point;
pub use crate::position::Range;
pub use crate::report::Opts;
pub use crate::report::report_terminal;
pub use crate::report::report_terminal_opts;
pub use crate::syntax::SyntaxNode;
pub use crate::syntax::SyntaxTree;
pub use crate::version::Version;
pub use crate::version::VersionError;
