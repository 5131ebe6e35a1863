use bpflint::LintMatch;
use bpflint::Opts;
use bpflint::Point;
use bpflint::Range;
use bpflint::report_terminal;
use bpflint::report_terminal_opts;

/// Tests that a match with an empty range includes no code snippet.
#[test]
fn empty_range_reporting() {
    let code = "int main() {}\n";

    let m = LintMatch {
        lint_name: "bogus-file-extension".to_string(),
        message: "by convention BPF C code should use the file extension '.bpf.c'".to_string(),
        range: Range {
            bytes: 0..0,
            start_point: Point::default(),
            end_point: Point::default(),
        },
    };
    let mut report = String::new();
    report_terminal(&m, code.as_bytes(), "./no_bytes.c", &mut report);
    let expected = "warning: [bogus-file-extension] by convention BPF C code should use the file extension '.bpf.c'\n  --> ./no_bytes.c:0:0\n";
    assert_eq!(report, expected);
}

/// Make sure that multi-line matches are reported correctly.
#[test]
fn multi_line_report() {
    let code = "SEC(\"tp_btf/sched_switch\")\nint handle__sched_switch(u64 *ctx) {\n    bpf_probe_read(\n      event.comm,\n      TASK_COMM_LEN,\n      prev->comm);\n    return 0;\n}\n";

    let m = LintMatch {
        lint_name: "probe-read".to_string(),
        message: "bpf_probe_read() is deprecated".to_string(),
        range: Range {
            bytes: 68..140,
            start_point: Point { row: 2, col: 4 },
            end_point: Point { row: 5, col: 17 },
        },
    };
    let mut report = String::new();
    report_terminal(&m, code.as_bytes(), "<stdin>", &mut report);
    let expected = "warning: [probe-read] bpf_probe_read() is deprecated\n  --> <stdin>:2:4\n  | \n2 |  /     bpf_probe_read(\n3 |  |       event.comm,\n4 |  |       TASK_COMM_LEN,\n5 |  |       prev->comm);\n  |  |_________________^\n  | \n";
    assert_eq!(report, expected);
}

/// Make sure that multi-line matches that are straddling a power of
/// ten line number are reported correctly.
#[test]
fn multi_line_report_line_numbers() {
    let code = "/* A\n * bunch\n * of\n * filling\n */\nSEC(\"tp_btf/sched_switch\")\nint handle__sched_switch(u64 *ctx) {\n    bpf_probe_read(\n      event.comm,\n      TASK_COMM_LEN,\n      prev->comm);\n    return 0;\n}\n";

    let m = LintMatch {
        lint_name: "probe-read".to_string(),
        message: "bpf_probe_read() is deprecated".to_string(),
        range: Range {
            bytes: 103..175,
            start_point: Point { row: 7, col: 4 },
            end_point: Point { row: 10, col: 17 },
        },
    };
    let mut report = String::new();
    report_terminal(&m, code.as_bytes(), "<stdin>", &mut report);
    let expected = "warning: [probe-read] bpf_probe_read() is deprecated\n  --> <stdin>:7:4\n   | \n 7 |  /     bpf_probe_read(\n 8 |  |       event.comm,\n 9 |  |       TASK_COMM_LEN,\n10 |  |       prev->comm);\n   |  |_________________^\n   | \n";
    assert_eq!(report, expected);
}

/// Check that we "correctly" report matches effectively spanning
/// the end of the file.
///
/// This can happen for queries that use `preproc_def`, because it
/// includes trailing newlines in its match.
#[test]
fn multi_line_trailing_line_empty() {
    let code = "#define DONT_ENABLE 1\n";
    let m = LintMatch {
        lint_name: "lint".to_string(),
        message: "message".to_string(),
        range: Range {
            bytes: 0..21,
            start_point: Point { row: 0, col: 0 },
            end_point: Point { row: 1, col: 0 },
        },
    };

    let mut report = String::new();
    report_terminal(&m, code.as_bytes(), "<stdin>", &mut report);

    // Note that ideally we'd fine a way to just highlight the
    // entire line instead of using the multi-line reporting path
    // here, but it's not trivial to do so.
    let expected = "warning: [lint] message\n  --> <stdin>:0:0\n  | \n0 |  / #define DONT_ENABLE 1\n  |  |^\n  | \n";
    assert_eq!(report, expected);
}

/// Check that our "terminal" reporting works as expected.
#[test]
fn terminal_reporting() {
    let code = "SEC(\"tp_btf/sched_switch\")\nint handle__sched_switch(u64 *ctx)\n{\n    struct task_struct *prev = (struct task_struct *)ctx[1];\n    struct event event = {0};\n    bpf_probe_read(event.comm, TASK_COMM_LEN, prev->comm);\n    return 0;\n}\n";

    let m = LintMatch {
        lint_name: "probe-read".to_string(),
        message: "bpf_probe_read() is deprecated".to_string(),
        range: Range {
            bytes: 160..174,
            start_point: Point { row: 6, col: 4 },
            end_point: Point { row: 6, col: 18 },
        },
    };
    let mut report = String::new();
    report_terminal(&m, code.as_bytes(), "<stdin>", &mut report);
    let expected = "warning: [probe-read] bpf_probe_read() is deprecated\n  --> <stdin>:6:4\n  | \n6 |     bpf_probe_read(event.comm, TASK_COMM_LEN, prev->comm);\n  |     ^^^^^^^^^^^^^^\n  | \n";
    assert_eq!(report, expected);
}

/// Check that reporting works properly when the match is on the
/// very first line of input.
#[test]
fn report_top_most_line() {
    let code = "SEC(\"kprobe/test\")\nint handle__test(void)\n{\n}\n";

    let m = LintMatch {
        lint_name: "unstable-attach-point".to_string(),
        message: "kprobe/kretprobe/fentry/fexit are unstable".to_string(),
        range: Range {
            bytes: 4..17,
            start_point: Point { row: 0, col: 4 },
            end_point: Point { row: 0, col: 17 },
        },
    };
    let mut report = String::new();
    report_terminal(&m, code.as_bytes(), "<stdin>", &mut report);
    let expected = "warning: [unstable-attach-point] kprobe/kretprobe/fentry/fexit are unstable\n  --> <stdin>:0:4\n  | \n0 | SEC(\"kprobe/test\")\n  |     ^^^^^^^^^^^^^\n  | \n";
    assert_eq!(report, expected);
}

/// Test that `report_terminal_opts` with `Opts::default()` behaves
/// identically to `report_terminal`.
#[test]
fn report_terminal_opts_none_context() {
    let code = "SEC(\"tp_btf/sched_switch\")\nint handle__sched_switch(u64 *ctx)\n{\n    struct task_struct *prev = (struct task_struct *)ctx[1];\n    struct event event = {0};\n    bpf_probe_read(event.comm, TASK_COMM_LEN, prev->comm);\n    return 0;\n}\n";

    let m = LintMatch {
        lint_name: "probe-read".to_string(),
        message: "bpf_probe_read() is deprecated".to_string(),
        range: Range {
            bytes: 160..174,
            start_point: Point { row: 5, col: 4 },
            end_point: Point { row: 5, col: 18 },
        },
    };

    let mut report_old = String::new();
    let mut report_new = String::new();

    report_terminal(&m, code.as_bytes(), "<stdin>", &mut report_old);
    report_terminal_opts(
        &m,
        code.as_bytes(),
        "<stdin>",
        &Opts::default(),
        &mut report_new,
    );

    assert_eq!(report_old, report_new);
}

/// Test `report_terminal_opts` with extra context lines.
#[test]
fn report_terminal_opts_with_context() {
    let code = "SEC(\"tp_btf/sched_switch\")\nint handle__sched_switch(u64 *ctx)\n{\n    struct task_struct *prev = (struct task_struct *)ctx[1];\n    struct event event = {0};\n    bpf_probe_read(event.comm, TASK_COMM_LEN, prev->comm);\n    return 0;\n}\n";

    let m = LintMatch {
        lint_name: "probe-read".to_string(),
        message: "bpf_probe_read() is deprecated".to_string(),
        range: Range {
            bytes: 160..174,
            start_point: Point { row: 5, col: 4 },
            end_point: Point { row: 5, col: 18 },
        },
    };
    let mut report = String::new();
    report_terminal_opts(
        &m,
        code.as_bytes(),
        "<stdin>",
        &Opts {
            extra_lines: (2, 1),
                        },
        &mut report,
    );

    let expected = "warning: [probe-read] bpf_probe_read() is deprecated\n  --> <stdin>:5:4\n  | \n3 |     struct task_struct *prev = (struct task_struct *)ctx[1];\n4 |     struct event event = {0};\n5 |     bpf_probe_read(event.comm, TASK_COMM_LEN, prev->comm);\n  |     ^^^^^^^^^^^^^^\n6 |     return 0;\n  | \n";
    assert_eq!(report, expected);
}

/// Test context lines with multi-line matches.
#[test]
fn report_terminal_opts_multiline_with_context() {
    let code = "SEC(\"tp_btf/sched_switch\")\nint handle__sched_switch(u64 *ctx) {\n    bpf_probe_read(\n      event.comm,\n      TASK_COMM_LEN,\n      prev->comm);\n    return 0;\n}\n";

    let m = LintMatch {
        lint_name: "probe-read".to_string(),
        message: "bpf_probe_read() is deprecated".to_string(),
        range: Range {
            bytes: 68..140,
            start_point: Point { row: 2, col: 4 },
            end_point: Point { row: 5, col: 17 },
        },
    };
    let mut report = String::new();
    report_terminal_opts(
        &m,
        code.as_bytes(),
        "<stdin>",
        &Opts {
            extra_lines: (1, 1),
                        },
        &mut report,
    );

    let expected = "warning: [probe-read] bpf_probe_read() is deprecated\n  --> <stdin>:2:4\n  | \n1 | int handle__sched_switch(u64 *ctx) {\n2 |  /     bpf_probe_read(\n3 |  |       event.comm,\n4 |  |       TASK_COMM_LEN,\n5 |  |       prev->comm);\n  |  |_________________^\n6 |     return 0;\n  | \n";
    assert_eq!(report, expected);
}

/// Test context lines when there aren't enough lines before the error.
#[test]
fn report_terminal_opts_insufficient_context_before() {
    let code = "SEC(\"kprobe/test\")\nint handle__test(void)\n{\n}\n";

    let m = LintMatch {
        lint_name: "unstable-attach-point".to_string(),
        message: "kprobe/kretprobe/fentry/fexit are unstable".to_string(),
        range: Range {
            bytes: 4..17,
            start_point: Point { row: 0, col: 4 },
            end_point: Point { row: 0, col: 17 },
        },
    };
    let mut report = String::new();
    report_terminal_opts(
        &m,
        code.as_bytes(),
        "<stdin>",
        &Opts {
            extra_lines: (5, 2),
                        },
        &mut report,
    );

    let expected = "warning: [unstable-attach-point] kprobe/kretprobe/fentry/fexit are unstable\n  --> <stdin>:0:4\n  | \n0 | SEC(\"kprobe/test\")\n  |     ^^^^^^^^^^^^^\n1 | int handle__test(void)\n2 | {\n  | \n";
    assert_eq!(report, expected);
}

/// Test context lines when there aren't enough lines after the error.
#[test]
fn report_terminal_opts_insufficient_context_after() {
    let code = "SEC(\"tp_btf/sched_switch\")\nint handle__sched_switch(u64 *ctx)\n{\n    bpf_probe_read(event.comm, TASK_COMM_LEN, prev->comm);\n}\n";

    let m = LintMatch {
        lint_name: "probe-read".to_string(),
        message: "bpf_probe_read() is deprecated".to_string(),
        range: Range {
            bytes: 68..82,
            start_point: Point { row: 3, col: 4 },
            end_point: Point { row: 3, col: 18 },
        },
    };
    let mut report = String::new();
    report_terminal_opts(
        &m,
        code.as_bytes(),
        "<stdin>",
        &Opts {
            extra_lines: (1, 5),
                        },
        &mut report,
    );

    let expected = "warning: [probe-read] bpf_probe_read() is deprecated\n  --> <stdin>:3:4\n  | \n2 | {\n3 |     bpf_probe_read(event.comm, TASK_COMM_LEN, prev->comm);\n  |     ^^^^^^^^^^^^^^\n4 | }\n  | \n";
    assert_eq!(report, expected);
}

fn probe_read_match(bytes: std::ops::Range<usize>, start: Point, end: Point) -> LintMatch {
    LintMatch {
        lint_name: "probe-read".to_string(),
        message: "bpf_probe_read() is deprecated".to_string(),
        range: Range {
            bytes,
            start_point: start,
            end_point: end,
        },
    }
}

/// Rendering the same input twice gives the same text.
#[test]
fn report_is_deterministic() {
    let code = "int x;\n    bpf_probe_read(a, b, c);\nreturn 0;\n";
    let m = probe_read_match(11..25, Point { row: 1, col: 4 }, Point { row: 1, col: 18 });
    let opts = Opts { extra_lines: (1, 1) };
    let mut first = String::new();
    let mut second = String::new();
    report_terminal_opts(&m, code.as_bytes(), "a.bpf.c", &opts, &mut first);
    report_terminal_opts(&m, code.as_bytes(), "a.bpf.c", &opts, &mut second);
    assert_eq!(first, second);
    let expected = "warning: [probe-read] bpf_probe_read() is deprecated\n  --> a.bpf.c:1:4\n  | \n0 | int x;\n1 |     bpf_probe_read(a, b, c);\n  |     ^^^^^^^^^^^^^^\n2 | return 0;\n  | \n";
    assert_eq!(first, expected);
}

/// A zero-width match gets no body even when context is asked for.
#[test]
fn empty_range_with_context() {
    let code = "a\nb\nc\n";
    let m = probe_read_match(2..2, Point { row: 1, col: 0 }, Point { row: 1, col: 0 });
    let mut report = String::new();
    report_terminal_opts(&m, code.as_bytes(), "x.c", &Opts { extra_lines: (3, 3) }, &mut report);
    assert_eq!(report, "warning: [probe-read] bpf_probe_read() is deprecated\n  --> x.c:1:0\n");
}

/// The report is appended to what the sink already holds.
#[test]
fn report_appends() {
    let code = "foo();\n";
    let m = probe_read_match(0..3, Point { row: 0, col: 0 }, Point { row: 0, col: 3 });
    let mut report = "previous\n".to_string();
    report_terminal(&m, code.as_bytes(), "f.c", &mut report);
    assert_eq!(
        report,
        "previous\nwarning: [probe-read] bpf_probe_read() is deprecated\n  --> f.c:0:0\n  | \n0 | foo();\n  | ^^^\n  | \n"
    );
}

/// The gutter widens with the row number of the last context line, and
/// invalid UTF-8 in a shown line is replaced.
#[test]
fn gutter_width_and_invalid_utf8() {
    let mut code = Vec::new();
    for _ in 0..9 {
        code.extend_from_slice(b"x\n");
    }
    code.extend_from_slice(b"f(\xff);\nlast\n");
    let m = probe_read_match(18..19, Point { row: 9, col: 0 }, Point { row: 9, col: 1 });
    let mut report = String::new();
    report_terminal_opts(&m, &code, "g.c", &Opts { extra_lines: (1, 1) }, &mut report);
    assert_eq!(
        report,
        "warning: [probe-read] bpf_probe_read() is deprecated\n  --> g.c:9:0\n   | \n 8 | x\n 9 | f(\u{fffd});\n   | ^\n10 | last\n   | \n"
    );
}
