use bpflint::Lint;
use bpflint::LintMatch;
use bpflint::Point;
use bpflint::builtin_lints;
use bpflint::lint;
use bpflint::Capture;
use bpflint::LintError;
use bpflint::Range;
use bpflint::SyntaxNode;
use bpflint::SyntaxTree;
use bpflint::collect_matches;
use bpflint::is_lint_disabled;
use bpflint::lint_custom;
use bpflint::report_terminal;

fn lint_foo() -> Lint {
    Lint {
        name: "foo".to_string(),
        code: "(call_expression\n    function: (identifier) @function (#eq? @function \"foo\")\n)\n"
        .to_string(),
        message: "foo".to_string(),
    }
}


/// Make sure that internal captures (named as "__xxx") are not
/// reported as matches.
#[test]
fn internal_capture_reporting() {
    let code = "bar();\n";
    let lint = Lint {
        name: "bar".to_string(),
        code: "(call_expression\n    function: (identifier) @__function (#eq? @__function \"bar\")\n)\n"
        .to_string(),
        message: "a message".to_string(),
    };
    let matches = lint_custom(code.as_bytes(), &[lint]).unwrap();
    assert!(matches.is_empty(), "{matches:?}");
}

/// Check that our built-in lints exhibit the expected set of
/// properties.
#[test]
fn validate_lints() {
    for lint in builtin_lints() {
        let Lint {
            name,
            code,
            message,
        } = lint;
        let query = tree_sitter::Query::new(&tree_sitter_bpf_c::LANGUAGE.into(), &code).unwrap();
        assert_eq!(
            query.pattern_count(),
            1,
            "lint `{name}` has too many pattern matches: only a single one is supported currently"
        );

        let last = message.chars().last().unwrap();
        assert!(
            !['.', '!', '?', '\n'].contains(&last),
            "`message` property of lint `{name}` should be concise and not a fully blown sentence with punctuation"
        );
    }
}

/// Check that some basic linting works as expected.
#[test]
fn basic_linting() {
    let code = "/* A handler for something */\nSEC(\"tp_btf/sched_switch\")\nint handle__sched_switch(u64 *ctx)\n{\n    struct task_struct *prev = (struct task_struct *)ctx[1];\n    struct event event = {0};\n    bpf_probe_read(event.comm, TASK_COMM_LEN, prev->comm);\n    return 0;\n}\n";

    let matches = lint(code.as_bytes()).unwrap();
    assert_eq!(matches.len(), 1);

    let LintMatch {
        lint_name,
        message,
        range,
    } = &matches[0];
    assert_eq!(lint_name, "probe-read");
    assert!(
        message.starts_with("bpf_probe_read() is deprecated"),
        "{message}"
    );
    assert_eq!(&code[range.bytes.clone()], "bpf_probe_read");
    assert_eq!(range.start_point, Point { row: 6, col: 4 });
    assert_eq!(range.end_point, Point { row: 6, col: 18 });
}

/// Check that reported matches are sorted by line number.
#[test]
fn sorted_match_reporting() {
    let code = "bar();\nfoo();\n";
    let lint = Lint {
        name: "bar".to_string(),
        code: "(call_expression\n    function: (identifier) @function (#eq? @function \"bar\")\n)\n"
        .to_string(),
        message: "bar".to_string(),
    };
    let matches = lint_custom(code.as_bytes(), &[lint_foo(), lint]).unwrap();
    assert_eq!(matches.len(), 2);
    assert_eq!(matches[0].lint_name, "bar");
    assert_eq!(matches[1].lint_name, "foo");
}

/// Check that we can disable lints by name for a given statement.
#[test]
fn lint_disabling() {
    let code = "/* bpflint: disable=foo */\nfoo();\n// bpflint: disable=foo\nfoo();\n// bpflint: disable=all\nfoo();\n";
    let matches = lint_custom(code.as_bytes(), &[lint_foo()]).unwrap();
    assert_eq!(matches.len(), 0, "{matches:?}");
}

/// Check that we can disable lints by name for a given block.
#[test]
fn lint_disabling_recursive() {
    let code = "/* bpflint: disable=foo */\n{\n    {\n        foo();\n    }\n}\n";
    let matches = lint_custom(code.as_bytes(), &[lint_foo()]).unwrap();
    assert_eq!(matches.len(), 0, "{matches:?}");

    let code = "/* bpflint: disable=foo */\nvoid test_fn(void) {\n    foo();\n}\n";
    let matches = lint_custom(code.as_bytes(), &[lint_foo()]).unwrap();
    assert_eq!(matches.len(), 0, "{matches:?}");
}

/// Check that erroneous disabling syntax is not accidentally recognized.
#[test]
fn lint_invalid_disabling() {
    let code = "/* bpflint: disabled=foo */\nfoo();\n/* disabled=foo */\nfoo();\n// disabled=foo\nfoo();\n// bpflint: foo\nfoo();\n// bpflint: disable=bar\nfoo();\n\nvoid test_fn(void) {\n    /* bpflint: disable=foo */\n    foobar();\n    foo();\n}\n";
    let matches = lint_custom(code.as_bytes(), &[lint_foo()]).unwrap();
    assert_eq!(matches.len(), 6, "{matches:?}");
}

fn call_lint(name: &str) -> Lint {
    Lint {
        name: name.to_string(),
        code: format!(
            "(call_expression\n    function: (identifier) @function (#eq? @function \"{name}\")\n)\n"
        ),
        message: format!("{name} called"),
    }
}

/// A directive covers only the statement right after it.
#[test]
fn directive_covers_next_statement_only() {
    let code = "// bpflint: disable=all\nfoo();\nfoo();\n";
    let matches = lint_custom(code.as_bytes(), &[lint_foo()]).unwrap();
    assert_eq!(matches.len(), 1);
    assert_eq!(matches[0].range.start_point, Point { row: 2, col: 0 });
}

/// `disable=all` silences every lint; `disable=<name>` only the named one.
#[test]
fn disable_all_versus_named() {
    let code = "// bpflint: disable=all\n{ foo(); bar(); }\n// bpflint: disable=bar\n{ foo(); bar(); }\n";
    let matches = lint_custom(code.as_bytes(), &[call_lint("foo"), call_lint("bar")]).unwrap();
    assert_eq!(matches.len(), 1);
    assert_eq!(matches[0].lint_name, "foo");
    assert_eq!(matches[0].range.start_point, Point { row: 3, col: 2 });
}

/// Only the exact spelling of a directive is honoured.
#[test]
fn near_miss_directives() {
    let code = "// bpflint: disable=fo\nfoo();\n// bpflint: enable=foo\nfoo();\n// bpflint disable=foo\nfoo();\n// bpflint: disable=foo2\nfoo();\n";
    let matches = lint_custom(code.as_bytes(), &[lint_foo()]).unwrap();
    assert_eq!(matches.len(), 4);
}

/// Findings at the same position keep the order of their lints.
#[test]
fn equal_positions_keep_lint_order() {
    let code = "foo();\n";
    let mut other = call_lint("foo");
    other.name = "other".to_string();
    let matches = lint_custom(code.as_bytes(), &[other, lint_foo()]).unwrap();
    assert_eq!(matches.len(), 2);
    assert_eq!(matches[0].lint_name, "other");
    assert_eq!(matches[1].lint_name, "foo");
}

/// A lint whose query does not compile fails the whole run, naming it.
#[test]
fn broken_query_is_reported() {
    let code = "foo();\n";
    let broken = Lint {
        name: "broken".to_string(),
        code: "(call_expression".to_string(),
        message: "never".to_string(),
    };
    match lint_custom(code.as_bytes(), &[lint_foo(), broken]) {
        Err(LintError::Query(name)) => assert_eq!(name, "broken"),
        other => panic!("unexpected result: {other:?}"),
    }
}

/// No lints, no matches; empty source, no matches.
#[test]
fn nothing_to_report() {
    assert!(lint_custom(b"foo();\n", &[]).unwrap().is_empty());
    assert!(lint_custom(b"", &[lint_foo()]).unwrap().is_empty());
}

/// The `core-read` lint flags both spellings, reported in source order.
#[test]
fn core_read_basic() {
    let code = "SEC(\"tp_btf/sched_switch\")\nint handle__sched_switch(u64 *ctx)\n{\n    struct task_struct *prev = (struct task_struct *)ctx[1];\n    struct task_struct *next = (struct task_struct *)ctx[2];\n    int prev_pid = 0;\n    bpf_core_read(&prev_pid, sizeof(prev_pid), &prev->pid);\n    int next_prev_pid = BPF_CORE_READ(next, pid);\n    return 0;\n}\n";
    let mut report = String::new();
    for m in lint(code.as_bytes()).unwrap() {
        report_terminal(&m, code.as_bytes(), "<stdin>", &mut report);
    }
    let expected = "warning: [core-read] bpf_core_read() and BPF_CORE_READ() are deprecated and replaced by bpf_core_cast(); refer to https://docs.ebpf.io/ebpf-library/libbpf/ebpf/bpf_core_cast/\n  --> <stdin>:6:4\n  | \n6 |     bpf_core_read(&prev_pid, sizeof(prev_pid), &prev->pid);\n  |     ^^^^^^^^^^^^^\n  | \nwarning: [core-read] bpf_core_read() and BPF_CORE_READ() are deprecated and replaced by bpf_core_cast(); refer to https://docs.ebpf.io/ebpf-library/libbpf/ebpf/bpf_core_cast/\n  --> <stdin>:7:24\n  | \n7 |     int next_prev_pid = BPF_CORE_READ(next, pid);\n  |                         ^^^^^^^^^^^^^\n  | \n";
    assert_eq!(report, expected);
}

fn node(kind: &str, bytes: std::ops::Range<usize>, parent: Option<usize>, prev: Option<usize>) -> SyntaxNode {
    SyntaxNode {
        id: bytes.start * 100 + bytes.end,
        kind: kind.to_string(),
        range: Range {
            bytes,
            start_point: Point::default(),
            end_point: Point::default(),
        },
        parent,
        prev_sibling: prev,
    }
}

/// A tree for `/* bpflint: disable=foo */\n{ foo(); }\nfoo();\n`: the
/// directive precedes the block, not the last statement.
fn hand_tree() -> (SyntaxTree, Vec<u8>) {
    let code = b"/* bpflint: disable=foo */\n{ foo(); }\nfoo();\n".to_vec();
    let tree = SyntaxTree {
        nodes: vec![
            node("translation_unit", 0..45, None, None),
            node("comment", 0..26, Some(0), None),
            node("compound_statement", 27..37, Some(0), Some(1)),
            node("expression_statement", 29..35, Some(2), None),
            node("call_expression", 29..34, Some(3), None),
            node("expression_statement", 38..44, Some(0), Some(2)),
            node("call_expression", 38..43, Some(5), None),
        ],
    };
    (tree, code)
}

#[test]
fn disabled_inside_covered_block() {
    let (tree, code) = hand_tree();
    assert!(is_lint_disabled("foo", 4, &tree, &code));
    assert!(is_lint_disabled("foo", 2, &tree, &code));
    assert!(!is_lint_disabled("bar", 4, &tree, &code));
    assert!(!is_lint_disabled("foo", 6, &tree, &code));
    assert!(!is_lint_disabled("foo", 0, &tree, &code));
}

#[test]
fn collect_drops_internal_and_disabled() {
    let (tree, code) = hand_tree();
    let captures = vec![vec![
        Capture { name: "function".to_string(), node: 6 },
        Capture { name: "__function".to_string(), node: 6 },
        Capture { name: "function".to_string(), node: 4 },
    ]];
    let matches = collect_matches(&tree, &code, &[lint_foo()], &captures);
    assert_eq!(matches.len(), 1);
    assert_eq!(matches[0].range.bytes, 38..43);
    assert_eq!(matches[0].lint_name, "foo");
    assert_eq!(matches[0].message, "foo");
}

#[test]
fn collect_sorts_by_start_then_end() {
    let code = b"abcdef".to_vec();
    let at = |start: (usize, usize), end: (usize, usize)| SyntaxNode {
        id: start.0 * 1000 + start.1 * 100 + end.0 * 10 + end.1,
        kind: "identifier".to_string(),
        range: Range {
            bytes: 0..1,
            start_point: Point { row: start.0, col: start.1 },
            end_point: Point { row: end.0, col: end.1 },
        },
        parent: None,
        prev_sibling: None,
    };
    let tree = SyntaxTree {
        nodes: vec![at((1, 0), (1, 4)), at((0, 5), (2, 0)), at((1, 0), (1, 2)), at((0, 5), (0, 9))],
    };
    let caps: Vec<Capture> =
        (0..4).map(|node| Capture { name: "x".to_string(), node }).collect();
    let matches = collect_matches(&tree, &code, &[lint_foo()], &vec![caps]);
    let starts: Vec<(usize, usize, usize, usize)> = matches
        .iter()
        .map(|m| (m.range.start_point.row, m.range.start_point.col, m.range.end_point.row, m.range.end_point.col))
        .collect();
    assert_eq!(starts, vec![(0, 5, 0, 9), (0, 5, 2, 0), (1, 0, 1, 2), (1, 0, 1, 4)]);
}

/// A comment that is not valid UTF-8 holds no directive.
#[test]
fn invalid_utf8_comment_is_no_directive() {
    let code = b"/* bpflint: disable=foo \xff */\nfoo();\n/* bpflint: disable=foo */\nfoo();\n";
    let matches = lint_custom(code, &[lint_foo()]).unwrap();
    assert_eq!(matches.len(), 1);
    assert_eq!(matches[0].range.start_point, Point { row: 1, col: 0 });
}

/// Lint `code` with the shipped lints and report every match.
fn lint_report(code: &str) -> String {
    let mut r = String::new();
    for m in lint(code.as_bytes()).unwrap() {
        report_terminal(&m, code.as_bytes(), "<stdin>", &mut r);
    }
    r
}

/// Check basic functioning of the `get-current-task` lint.
#[test]
fn get_current_task_basic() {
    let code = "SEC(\"tp_btf/irq_handler_entry\")\nint on_irq_handler_entry(u64 *cxt)\n{\n  struct task_struct *task;\n\n  task = (struct task_struct *)bpf_get_current_task();\n  if (!task)\n    return 0;\n\n  return 1;\n}\n";
    let expected = "warning: [get-current-task] bpf_get_current_task() is difficult to use; consider using the stricter typed bpf_get_current_task_btf() instead; refer to bpf-helpers(7)\n  --> <stdin>:5:31\n  | \n5 |   task = (struct task_struct *)bpf_get_current_task();\n  |                                ^^^^^^^^^^^^^^^^^^^^\n  | \n";
    assert_eq!(lint_report(code), expected);
}

/// Make sure that we would match a call with empty parentheses, but
/// some white spaces.
#[test]
fn whitespace_call() {
    let code = "bpf_get_current_task(  );\n";
    let expected = "warning: [get-current-task] bpf_get_current_task() is difficult to use; consider using the stricter typed bpf_get_current_task_btf() instead; refer to bpf-helpers(7)\n  --> <stdin>:0:0\n  | \n0 | bpf_get_current_task(  );\n  | ^^^^^^^^^^^^^^^^^^^^\n  | \n";
    assert_eq!(lint_report(code), expected);
}

/// Make sure that we don't match a function with the same name but a
/// different signature.
#[test]
fn no_match_different_signature() {
    let code = "task = (struct task_struct *)bpf_get_current_task(\"foobar\");\n";
    assert_eq!(lint_report(code), "");

    let code = "task = (struct task_struct *)bpf_get_current_task(/* WRONG */);\n";
    assert_eq!(lint_report(code), "");
}

/// The first lint whose query does not compile is the one named.
#[test]
fn first_broken_query_is_named() {
    let broken = |name: &str| Lint {
        name: name.to_string(),
        code: "(nonsense".to_string(),
        message: "never".to_string(),
    };
    match lint_custom(b"foo();\n", &[lint_foo(), broken("first"), broken("second")]) {
        Err(LintError::Query(name)) => assert_eq!(name, "first"),
        other => panic!("unexpected result: {other:?}"),
    }
}

/// Ordinary code stays within the query engine's limits, so no warning is
/// reported, and the matches are those of `lint_custom`.
#[test]
fn warnings_on_ordinary_code() {
    let code = b"foo();\nbar();\nfoo();\n";
    let (matches, exceeded) = bpflint::lint_custom_with_warnings(code, &[lint_foo()]).unwrap();
    assert!(exceeded.is_empty());
    assert_eq!(matches.len(), 2);
    let (matches, exceeded) = bpflint::lint_with_warnings(b"bpf_probe_read(a, b, c);\n").unwrap();
    assert!(exceeded.is_empty());
    assert_eq!(matches.len(), 1);
    assert_eq!(matches[0].lint_name, "probe-read");
}
