use vstd::prelude::*;

use crate::ansi_color::ansi_fg;
use crate::ansi_color::AnsiColor24;
use crate::lint::text_eq;
use crate::text::lossy;
use crate::text::lossy_text;

use tree_sitter_highlight::HighlightEvent;

verus! {

#[verifier::external_type_specification]
#[verifier::external_body]
pub struct ExHighlightConfiguration(tree_sitter_highlight::HighlightConfiguration);

/// One step of a highlighted rendering, as the highlighter reports it.
#[derive(Clone, Copy, Debug, PartialEq, Eq, Structural)]
pub enum HighlightStep {
    /// Source bytes `start..end`, shown as they are.
    Source { start: usize, end: usize },
    /// The start of a highlighted span, by highlight index.
    Start(usize),
    /// The end of the innermost highlighted span.
    End,
}

/// The highlight groups that get a color, and their colors (after GitHub's
/// Sublime theme).
pub open spec fn group_color(name: Seq<char>) -> Option<(u8, u8, u8)> {
    if name == "function"@ || name == "attribute"@ {
        Some((121u8, 93u8, 163u8))
    } else if name == "function.builtin"@ || name == "constant"@ || name == "variable"@ || name
        == "number"@ || name == "property"@ || name == "macro"@ {
        Some((0u8, 134u8, 179u8))
    } else if name == "keyword"@ || name == "type"@ || name == "operator"@ {
        Some((167u8, 29u8, 93u8))
    } else if name == "string"@ {
        Some((24u8, 54u8, 145u8))
    } else if name == "comment"@ {
        Some((150u8, 152u8, 150u8))
    } else if name == "punctuation"@ || name == "namespace"@ {
        Some((51u8, 51u8, 51u8))
    } else {
        None
    }
}

/// The escape sequence that resets all attributes.
pub open spec fn reset_seq() -> Seq<char> {
    "\x1b[0m"@
}

/// The escape sequence for highlight group `name`: its color, or a reset for
/// a group without one.
pub open spec fn group_seq(name: Seq<char>) -> Seq<char> {
    match group_color(name) {
        Some(c) => ansi_fg(c.0 as nat, c.1 as nat, c.2 as nat),
        None => reset_seq(),
    }
}

/// The characters of each name.
pub open spec fn name_views(names: Seq<String>) -> Seq<Seq<char>> {
    names.map_values(|s: String| s@)
}

/// The name of highlight `h`, or `unknown` where there is none.
pub open spec fn highlight_name(names: Seq<Seq<char>>, h: int) -> Seq<char> {
    if 0 <= h < names.len() {
        names[h]
    } else {
        "unknown"@
    }
}

/// The text of one step.
pub open spec fn step_text(code: Seq<u8>, names: Seq<Seq<char>>, step: HighlightStep) -> Seq<char> {
    match step {
        HighlightStep::Source { start, end } => if start <= end <= code.len() {
            lossy_text(code.subrange(start as int, end as int))
        } else {
            Seq::empty()
        },
        HighlightStep::Start(h) => group_seq(highlight_name(names, h as int)),
        HighlightStep::End => reset_seq(),
    }
}

/// The text of a highlighted rendering: the steps' texts in order.
pub open spec fn highlighted(code: Seq<u8>, names: Seq<Seq<char>>, steps: Seq<HighlightStep>) -> Seq<
    char,
>
    decreases steps.len(),
{
    if steps.len() == 0 {
        Seq::empty()
    } else {
        highlighted(code, names, steps.drop_last()) + step_text(code, names, steps.last())
    }
}

/// The color of a highlight group, if it has one.
pub fn group_color_of(name: &str) -> (r: Option<AnsiColor24>)
    ensures
        match group_color(name@) {
            Some(c) => (r matches Some(a) && a.0 == c.0 && a.1 == c.1 && a.2 == c.2),
            None => r is None,
        },
{
    proof {
        reveal_strlit("function");
        reveal_strlit("attribute");
        reveal_strlit("function.builtin");
        reveal_strlit("constant");
        reveal_strlit("variable");
        reveal_strlit("number");
        reveal_strlit("property");
        reveal_strlit("macro");
        reveal_strlit("keyword");
        reveal_strlit("type");
        reveal_strlit("operator");
        reveal_strlit("string");
        reveal_strlit("comment");
        reveal_strlit("punctuation");
        reveal_strlit("namespace");
    }
    if text_eq(name, "function") || text_eq(name, "attribute") {
        Some(AnsiColor24(121, 93, 163))
    } else if text_eq(name, "function.builtin") || text_eq(name, "constant") || text_eq(name, "variable")
        || text_eq(name, "number") || text_eq(name, "property") || text_eq(name, "macro") {
        Some(AnsiColor24(0, 134, 179))
    } else if text_eq(name, "keyword") || text_eq(name, "type") || text_eq(name, "operator") {
        Some(AnsiColor24(167, 29, 93))
    } else if text_eq(name, "string") {
        Some(AnsiColor24(24, 54, 145))
    } else if text_eq(name, "comment") {
        Some(AnsiColor24(150, 152, 150))
    } else if text_eq(name, "punctuation") || text_eq(name, "namespace") {
        Some(AnsiColor24(51, 51, 51))
    } else {
        None
    }
}

/// The escape sequence for highlight `h`: the color of its group, or a reset
/// where the group has none.
pub fn ansi_for_highlight(h: usize, names: &Vec<String>) -> (r: String)
    ensures
        r@ == group_seq(highlight_name(name_views(names@), h as int)),
{
    let ghost views = name_views(names@);
    proof { reveal_strlit("unknown"); reveal_strlit("\x1b[0m"); }
    let name: &str = if h < names.len() {
        names[h].as_str()
    } else {
        "unknown"
    };
    assert(name@ == highlight_name(views, h as int));
    match group_color_of(name) {
        Some(c) => c.as_ansi_fg(),
        None => String::from_str(AnsiColor24::reset()),
    }
}

/// Renders `code` as the highlighter's steps describe it, with the escape
/// sequences of the highlight groups around highlighted spans.
pub fn render_highlighted(code: &[u8], names: &Vec<String>, steps: &Vec<HighlightStep>) -> (r: String)
    ensures
        r@ == highlighted(code@, name_views(names@), steps@),
{
    let ghost views = name_views(names@);
    let mut out = String::new();
    let mut k: usize = 0;
    while k < steps.len()
        invariant
            k <= steps@.len(),
            views == name_views(names@),
            out@ == highlighted(code@, views, steps@.take(k as int)),
        decreases steps@.len() - k,
    {
        let ghost before = out@;
        match steps[k] {
            HighlightStep::Source { start, end } => {
                if start <= end && end <= code.len() {
                    out.append(lossy(&code[start..end]).as_str());
                }
            },
            HighlightStep::Start(h) => {
                out.append(ansi_for_highlight(h, names).as_str());
            },
            HighlightStep::End => {
                proof { reveal_strlit("\x1b[0m"); }
                out.append(AnsiColor24::reset());
            },
        }
        assert(out@ =~= before + step_text(code@, views, steps@[k as int]));
        assert(steps@.take(k + 1).drop_last() =~= steps@.take(k as int));
        k = k + 1;
    }
    assert(steps@.take(k as int) =~= steps@);
    out
}

/// The highlight group names that get a color.
fn recognized_names() -> (r: Vec<String>) {
    vec![
        String::from_str("function"),
        String::from_str("function.builtin"),
        String::from_str("keyword"),
        String::from_str("string"),
        String::from_str("comment"),
        String::from_str("type"),
        String::from_str("constant"),
        String::from_str("variable"),
        String::from_str("number"),
        String::from_str("operator"),
        String::from_str("attribute"),
        String::from_str("property"),
        String::from_str("punctuation"),
        String::from_str("macro"),
        String::from_str("namespace"),
    ]
}

/// Relies on `tree_sitter_highlight::HighlightConfiguration::new` with the
/// `tree_sitter_bpf_c` grammar and its highlight query.
#[verifier::external_body]
fn new_highlight_config() -> (r: Option<tree_sitter_highlight::HighlightConfiguration>) {
    tree_sitter_highlight::HighlightConfiguration::new(
        tree_sitter_bpf_c::LANGUAGE.into(),
        "bpf-c",
        tree_sitter_bpf_c::HIGHLIGHTS_QUERY,
        "",
        "",
    ).ok()
}

/// Relies on `tree_sitter_highlight::HighlightConfiguration::configure`: sets
/// the highlight names that the configuration recognizes.
#[verifier::external_body]
fn configure(config: &mut tree_sitter_highlight::HighlightConfiguration, names: &Vec<String>) {
    config.configure(names)
}

/// Relies on `tree_sitter_highlight::HighlightConfiguration::names`: the
/// capture names of the configuration's query.
#[verifier::external_body]
fn config_names(config: &tree_sitter_highlight::HighlightConfiguration) -> (r: Vec<String>) {
    config.names().iter().map(|n| n.to_string()).collect()
}

/// Relies on `tree_sitter_highlight::Highlighter::highlight`: the steps of
/// highlighting `code`, or `None` where the highlighter fails.
#[verifier::external_body]
fn highlight_steps(config: &tree_sitter_highlight::HighlightConfiguration, code: &[u8]) -> (r: Option<Vec<HighlightStep>>) {
    let mut highlighter = tree_sitter_highlight::Highlighter::new();
    let events = highlighter.highlight(config, code, None, None, |_| None).ok()?;
    events.map(|event| event.ok().map(|event| match event {
        HighlightEvent::Source { start, end } => HighlightStep::Source { start, end },
        HighlightEvent::HighlightStart(h) => HighlightStep::Start(h.0),
        HighlightEvent::HighlightEnd => HighlightStep::End,
    })).collect()
}

/// A way to decorate source code for display.
pub enum Highlighter {
    /// Shows the code as it is.
    Plain,
    /// Colors the code by syntax, with the capture names of its query.
    Syntax(tree_sitter_highlight::HighlightConfiguration, Vec<String>),
}

/// Why highlighting failed.
#[derive(Clone, Copy, Debug, PartialEq, Eq, Structural)]
pub enum HighlightError {
    /// The highlight query of the grammar does not compile.
    Config,
    /// The highlighter gave up on the code.
    Highlight,
}

/// Creates a highlighter: a plain one unless `color` is asked for.
pub fn create_highlighter(color: bool) -> (r: Result<Highlighter, HighlightError>)
    ensures
        !color ==> r matches Ok(Highlighter::Plain),
        color ==> !(r matches Ok(Highlighter::Plain)),
{
    if !color {
        return Ok(Highlighter::Plain);
    }
    let mut config = match new_highlight_config() {
        Some(c) => c,
        None => return Err(HighlightError::Config),
    };
    configure(&mut config, &recognized_names());
    let names = config_names(&config);
    Ok(Highlighter::Syntax(config, names))
}

impl Highlighter {
    /// Renders `code` for display.
    pub fn highlight(&self, code: &[u8]) -> (r: Result<String, HighlightError>)
        ensures
            self is Plain ==> (r matches Ok(s) && s@ == lossy_text(code@)),
            self matches Highlighter::Syntax(_, names) ==> (r matches Ok(s) ==> exists|steps: Seq<HighlightStep>|
                s@ == #[trigger] highlighted(code@, name_views(names@), steps)),
    {
        match self {
            Highlighter::Plain => Ok(lossy(code)),
            Highlighter::Syntax(config, names) => {
                match highlight_steps(config, code) {
                    Some(steps) => {
                        let s = render_highlighted(code, names, &steps);
                        Ok(s)
                    },
                    None => Err(HighlightError::Highlight),
                }
            },
        }
    }
}

} // verus!
