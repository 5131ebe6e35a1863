use bpflint::HighlightStep;
use bpflint::Highlighter;
use bpflint::ansi_for_highlight;
use bpflint::create_highlighter;
use bpflint::render_highlighted;

fn names() -> Vec<String> {
    vec!["keyword".to_string(), "variable".to_string(), "nothing".to_string()]
}

#[test]
fn plain_highlighter_keeps_text() {
    let h = create_highlighter(false).unwrap();
    assert!(matches!(h, Highlighter::Plain));
    assert_eq!(h.highlight(b"int x;\n").unwrap(), "int x;\n");
    assert_eq!(h.highlight(b"a\xffb").unwrap(), "a\u{fffd}b");
}

#[test]
fn highlight_sequences_by_group() {
    assert_eq!(ansi_for_highlight(0, &names()), "\x1b[38;2;167;29;93m");
    assert_eq!(ansi_for_highlight(1, &names()), "\x1b[38;2;0;134;179m");
    assert_eq!(ansi_for_highlight(2, &names()), "\x1b[0m");
    assert_eq!(ansi_for_highlight(7, &names()), "\x1b[0m");
}

#[test]
fn rendering_follows_steps() {
    let steps = vec![
        HighlightStep::Start(0),
        HighlightStep::Source { start: 0, end: 3 },
        HighlightStep::End,
        HighlightStep::Source { start: 3, end: 4 },
        HighlightStep::Start(1),
        HighlightStep::Source { start: 4, end: 5 },
        HighlightStep::End,
        HighlightStep::Source { start: 5, end: 6 },
    ];
    let text = render_highlighted(b"int x;", &names(), &steps);
    assert_eq!(text, "\x1b[38;2;167;29;93mint\x1b[0m \x1b[38;2;0;134;179mx\x1b[0m;");
}

fn strip_escapes(s: &str) -> String {
    let mut out = String::new();
    let mut in_escape = false;
    for c in s.chars() {
        if in_escape {
            if c == 'm' {
                in_escape = false;
            }
        } else if c == '\x1b' {
            in_escape = true;
        } else {
            out.push(c);
        }
    }
    out
}

#[test]
fn syntax_highlighter_colors_code() {
    let code = "int main(void) {\n    return 0;\n}\n";
    let h = create_highlighter(true).unwrap();
    assert!(matches!(h, Highlighter::Syntax(..)));
    let text = h.highlight(code.as_bytes()).unwrap();
    assert!(text.contains('\x1b'));
    assert_eq!(strip_escapes(&text), code);
}
