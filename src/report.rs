use vstd::prelude::*;

use crate::lines::find_line_begin;
use crate::lines::find_line_end;
use crate::lines::lemma_line_begin_bounds;
use crate::lines::lemma_line_end_bounds;
use crate::lines::line_at;
use crate::lines::line_begin;
use crate::lines::line_end;
use crate::lint::LintMatch;
use crate::position::Range;
use crate::text::decimal;
use crate::text::decimal_len;
use crate::text::lossy;
use crate::text::lossy_text;
use crate::text::pad_left;
use crate::text::push_decimal;
use crate::text::push_padded;
use crate::text::push_repeat;
use crate::text::push_spaces;
use crate::text::repeat;

verus! {

/// Configuration options for terminal reporting.
#[derive(Clone, Copy, Debug)]
pub struct Opts {
    /// Extra lines of context to report before and after a match.
    pub extra_lines: (u8, u8),
}

impl Default for Opts {
    fn default() -> (r: Opts)
        ensures
            r.extra_lines == (0u8, 0u8),
    {
        Opts { extra_lines: (0, 0) }
    }
}

/// The gutter in front of a source line: the row number, right-aligned.
pub open spec fn gutter(row: int, width: nat) -> Seq<char> {
    pad_left(decimal(row as nat), width) + seq![' ', '|', ' ']
}

/// A gutter line without a row number or source text.
pub open spec fn blank(width: nat) -> Seq<char> {
    repeat(' ', width) + seq![' ', '|', ' ', '\n']
}

/// A source line with its gutter.
pub open spec fn source_line(code: Seq<u8>, start: int, row: int, width: nat) -> Seq<char> {
    gutter(row, width) + lossy_text(line_at(code, start)) + seq!['\n']
}

/// Up to `n` lines preceding the line that begins at `begin`, oldest first,
/// the nearest one labelled `row - 1`.
pub open spec fn context_before(code: Seq<u8>, begin: int, n: nat, row: int, width: nat) -> Seq<
    char,
>
    decreases n,
{
    if n == 0 || begin <= 0 || row <= 0 {
        Seq::empty()
    } else {
        let b = line_begin(code, begin - 1);
        context_before(code, b, (n - 1) as nat, row - 1, width) + source_line(
            code,
            b,
            row - 1,
            width,
        )
    }
}

/// Up to `n` lines from the one that begins at `pos` on, labelled from `row`;
/// a line is only shown where it begins inside the text.
pub open spec fn context_after(code: Seq<u8>, pos: int, n: nat, row: int, width: nat) -> Seq<char>
    decreases n,
{
    if n == 0 || pos >= code.len() {
        Seq::empty()
    } else {
        source_line(code, pos, row, width) + context_after(
            code,
            line_end(code, pos) + 1,
            (n - 1) as nat,
            row + 1,
            width,
        )
    }
}

/// The marked lines of a match over several rows: the first bracketed with
/// `/`, each of the `more` following ones with `|`, as far as the text goes.
pub open spec fn multi_rows(code: Seq<u8>, pos: int, row: int, more: nat, first: bool, width: nat) -> Seq<
    char,
>
    decreases more,
{
    if !first && pos >= code.len() {
        Seq::empty()
    } else {
        let line = gutter(row, width) + seq![' ', if first { '/' } else { '|' }, ' '] + lossy_text(
            line_at(code, pos),
        ) + seq!['\n'];
        if more == 0 {
            line
        } else {
            line + multi_rows(code, line_end(code, pos) + 1, row + 1, (more - 1) as nat, false, width)
        }
    }
}

/// Where the text continues after the rows that `multi_rows` shows.
pub open spec fn multi_next(code: Seq<u8>, pos: int, more: nat, first: bool) -> int
    decreases more,
{
    if !first && pos >= code.len() {
        pos
    } else if more == 0 {
        line_end(code, pos) + 1
    } else {
        multi_next(code, line_end(code, pos) + 1, (more - 1) as nat, false)
    }
}

/// The header of a report: the lint, its message and the location.
pub open spec fn report_header(m: LintMatch, path: Seq<char>) -> Seq<char> {
    "warning: ["@ + m.lint_name@ + "] "@ + m.message@ + seq!['\n'] + "  --> "@ + path + seq![':'] + decimal(
        m.range.start_point.row as nat,
    ) + seq![':'] + decimal(m.range.start_point.col as nat) + seq!['\n']
}

/// The marked source of a match, from the first matched line to the marker
/// line below it.
pub open spec fn report_body(r: Range, code: Seq<u8>, width: nat) -> Seq<char> {
    let lb = line_begin(code, r.bytes.start as int);
    if r.start_point.row == r.end_point.row {
        source_line(code, lb, r.start_point.row as int, width) + repeat(' ', width) + seq![' ', '|', ' ']
            + repeat(' ', r.start_point.col as nat) + repeat(
            '^',
            (r.end_point.col - r.start_point.col) as nat,
        ) + seq!['\n']
    } else {
        multi_rows(
            code,
            lb,
            r.start_point.row as int,
            (r.end_point.row - r.start_point.row) as nat,
            true,
            width,
        ) + repeat(' ', width) + seq![' ', '|', ' ', ' ', '|'] + repeat('_', r.end_point.col as nat)
            + seq!['^', '\n']
    }
}

/// Where the text continues after the marked source of a match.
pub open spec fn body_next(r: Range, code: Seq<u8>) -> int {
    let lb = line_begin(code, r.bytes.start as int);
    if r.start_point.row == r.end_point.row {
        line_end(code, lb) + 1
    } else {
        multi_next(code, lb, (r.end_point.row - r.start_point.row) as nat, true)
    }
}

/// The width of the line-number gutter: the digits of the largest row shown.
pub open spec fn gutter_width(r: Range, after: nat) -> nat {
    decimal((r.end_point.row + after) as nat).len()
}

/// The full terminal report of match `m` in `code`, with `before` and `after`
/// lines of context.
pub open spec fn report_text(m: LintMatch, code: Seq<u8>, path: Seq<char>, before: nat, after: nat) -> Seq<
    char,
> {
    let r = m.range;
    if r.bytes.start >= r.bytes.end {
        report_header(m, path)
    } else {
        let width = gutter_width(r, after);
        let lb = line_begin(code, r.bytes.start as int);
        report_header(m, path) + blank(width) + context_before(
            code,
            lb,
            before,
            r.start_point.row as int,
            width,
        ) + report_body(r, code, width) + context_after(
            code,
            body_next(r, code),
            after,
            r.end_point.row + 1,
            width,
        ) + blank(width)
    }
}

/// What a report needs of a match: a well-formed range that lies in `code`,
/// and rows whose numbers fit.
pub open spec fn reportable(m: LintMatch, code: Seq<u8>, after: nat) -> bool {
    &&& m.range.wf()
    &&& m.range.bytes.end <= code.len()
    &&& code.len() < usize::MAX
    &&& m.range.end_point.row + after <= usize::MAX
}

fn push_blank(out: &mut String, width: usize)
    ensures
        final(out)@ == old(out)@ + blank(width as nat),
{
    push_spaces(out, width);
    proof { reveal_strlit(" | \n"); }
    out.append(" | \n");
    assert(out@ =~= old(out)@ + blank(width as nat));
}

fn push_gutter(out: &mut String, row: usize, width: usize)
    ensures
        final(out)@ == old(out)@ + gutter(row as int, width as nat),
{
    push_padded(out, row, width);
    proof { reveal_strlit(" | "); }
    out.append(" | ");
    assert(out@ =~= old(out)@ + gutter(row as int, width as nat));
}

/// Appends the line that starts at `start`; returns where the next one starts.
fn push_source_line(out: &mut String, code: &[u8], start: usize, row: usize, width: usize) -> (next: usize)
    requires
        start <= code@.len() < usize::MAX,
    ensures
        final(out)@ == old(out)@ + source_line(code@, start as int, row as int, width as nat),
        next == line_end(code@, start as int) + 1,
{
    let end = find_line_end(code, start);
    push_gutter(out, row, width);
    out.append(lossy(&code[start..end]).as_str());
    proof { reveal_strlit("\n"); }
    out.append("\n");
    assert(code@.subrange(start as int, end as int) == line_at(code@, start as int));
    assert(out@ =~= old(out)@ + source_line(code@, start as int, row as int, width as nat));
    end + 1
}

fn push_context_before(out: &mut String, code: &[u8], begin: usize, n: usize, row: usize, width: usize)
    requires
        begin <= code@.len() < usize::MAX,
    ensures
        final(out)@ == old(out)@ + context_before(code@, begin as int, n as nat, row as int, width as nat),
    decreases n,
{
    if n == 0 || begin == 0 || row == 0 {
        assert(out@ =~= old(out)@ + context_before(code@, begin as int, n as nat, row as int, width as nat));
        return;
    }
    let b = find_line_begin(code, begin - 1);
    push_context_before(out, code, b, n - 1, row - 1, width);
    push_source_line(out, code, b, row - 1, width);
    proof {
        lemma_line_begin_bounds(code@, begin - 1);
    }
    assert(out@ =~= old(out)@ + context_before(code@, begin as int, n as nat, row as int, width as nat));
}

fn push_context_after(out: &mut String, code: &[u8], pos: usize, n: usize, row: usize, width: usize)
    requires
        code@.len() < usize::MAX,
        n > 0 ==> row + n - 1 <= usize::MAX,
    ensures
        final(out)@ == old(out)@ + context_after(code@, pos as int, n as nat, row as int, width as nat),
    decreases n,
{
    if n == 0 || pos >= code.len() {
        assert(out@ =~= old(out)@ + context_after(code@, pos as int, n as nat, row as int, width as nat));
        return;
    }
    let next = push_source_line(out, code, pos, row, width);
    if n > 1 {
        push_context_after(out, code, next, n - 1, row + 1, width);
    } else {
        assert(context_after(code@, next as int, 0, row + 1, width as nat) =~= Seq::empty());
    }
    assert(out@ =~= old(out)@ + context_after(code@, pos as int, n as nat, row as int, width as nat));
}

fn push_multi_rows(out: &mut String, code: &[u8], pos: usize, row: usize, more: usize, first: bool, width: usize) -> (next: usize)
    requires
        pos <= code@.len() + 1,
        first ==> pos <= code@.len(),
        code@.len() < usize::MAX,
        row + more <= usize::MAX,
    ensures
        final(out)@ == old(out)@ + multi_rows(code@, pos as int, row as int, more as nat, first, width as nat),
        next == multi_next(code@, pos as int, more as nat, first),
    decreases more,
{
    if !first && pos >= code.len() {
        assert(out@ =~= old(out)@ + multi_rows(code@, pos as int, row as int, more as nat, first, width as nat));
        return pos;
    }
    proof {
        lemma_line_end_bounds(code@, pos as int);
    }
    let end = find_line_end(code, pos);
    push_gutter(out, row, width);
    if first {
        proof { reveal_strlit(" / "); }
        out.append(" / ");
    } else {
        proof { reveal_strlit(" | "); }
        out.append(" | ");
    }
    out.append(lossy(&code[pos..end]).as_str());
    proof { reveal_strlit("\n"); }
    out.append("\n");
    assert(code@.subrange(pos as int, end as int) == line_at(code@, pos as int));
    let ghost line = gutter(row as int, width as nat) + seq![' ', if first { '/' } else { '|' }, ' '] + lossy_text(
        line_at(code@, pos as int),
    ) + seq!['\n'];
    assert(out@ =~= old(out)@ + line);
    if more == 0 {
        return end + 1;
    }
    let next = push_multi_rows(out, code, end + 1, row + 1, more - 1, false, width);
    assert(out@ =~= old(out)@ + multi_rows(code@, pos as int, row as int, more as nat, first, width as nat));
    next
}

/// Report a lint match in terminal style, without extra lines of context.
///
/// - `m` is the match to create a report for
/// - `code` is the source code in question, as passed to the linter
/// - `path` names the file to which `code` corresponds
/// - `out` receives the report
pub fn report_terminal(m: &LintMatch, code: &[u8], path: &str, out: &mut String)
    requires
        reportable(*m, code@, 0),
    ensures
        final(out)@ == old(out)@ + report_text(*m, code@, path@, 0, 0),
{
    let opts = Opts { extra_lines: (0, 0) };
    report_terminal_opts(m, code, path, &opts, out)
}

/// Report a lint match in terminal style with extra lines for context as
/// configured in `opts`.
pub fn report_terminal_opts(m: &LintMatch, code: &[u8], path: &str, opts: &Opts, out: &mut String)
    requires
        reportable(*m, code@, opts.extra_lines.1 as nat),
    ensures
        final(out)@ == old(out)@ + report_text(
            *m,
            code@,
            path@,
            opts.extra_lines.0 as nat,
            opts.extra_lines.1 as nat,
        ),
{
    let r = &m.range;
    let before = opts.extra_lines.0 as usize;
    let after = opts.extra_lines.1 as usize;

    push_header(out, m, path);
    if r.is_empty() {
        return;
    }

    let width = decimal_len(r.end_point.row + after);
    push_blank(out, width);
    let lb = find_line_begin(code, r.bytes.start);
    push_context_before(out, code, lb, before, r.start_point.row, width);
    let next = push_body(out, r, code, lb, width);
    if after > 0 {
        push_context_after(out, code, next, after, r.end_point.row + 1, width);
    } else {
        assert(context_after(code@, next as int, 0, r.end_point.row + 1, width as nat) =~= Seq::empty());
    }
    push_blank(out, width);
    let ghost w = width as nat;
    assert(out@ =~= old(out)@ + (report_header(*m, path@) + blank(w) + context_before(code@, lb as int, before as nat, r.start_point.row as int, w)
        + report_body(*r, code@, w) + context_after(code@, body_next(*r, code@), after as nat, r.end_point.row + 1, w) + blank(w)));
}

fn push_header(out: &mut String, m: &LintMatch, path: &str)
    ensures
        final(out)@ == old(out)@ + report_header(*m, path@),
{
    proof {
        reveal_strlit("warning: [");
        reveal_strlit("] ");
        reveal_strlit("\n");
        reveal_strlit("  --> ");
        reveal_strlit(":");
    }
    out.append("warning: [");
    out.append(m.lint_name.as_str());
    out.append("] ");
    out.append(m.message.as_str());
    out.append("\n");
    out.append("  --> ");
    out.append(path);
    out.append(":");
    push_decimal(out, m.range.start_point.row);
    out.append(":");
    push_decimal(out, m.range.start_point.col);
    out.append("\n");
    assert(out@ =~= old(out)@ + report_header(*m, path@));
}

/// Appends the marked source of a match; returns where the text continues.
fn push_body(out: &mut String, r: &Range, code: &[u8], lb: usize, width: usize) -> (next: usize)
    requires
        r.wf(),
        r.bytes.end <= code@.len() < usize::MAX,
        lb == line_begin(code@, r.bytes.start as int),
    ensures
        final(out)@ == old(out)@ + report_body(*r, code@, width as nat),
        next == body_next(*r, code@),
{
    proof {
        lemma_line_begin_bounds(code@, r.bytes.start as int);
    }
    let start_row = r.start_point.row;
    let end_row = r.end_point.row;
    let next: usize;
    if start_row == end_row {
        next = push_source_line(out, code, lb, start_row, width);
        push_spaces(out, width);
        proof { reveal_strlit(" | "); reveal_strlit("^"); reveal_strlit("\n"); }
        out.append(" | ");
        push_spaces(out, r.start_point.col);
        push_repeat(out, "^", r.end_point.col - r.start_point.col);
        out.append("\n");
    } else {
        next = push_multi_rows(out, code, lb, start_row, end_row - start_row, true, width);
        push_spaces(out, width);
        proof { reveal_strlit(" |  |"); reveal_strlit("_"); reveal_strlit("^\n"); }
        out.append(" |  |");
        push_repeat(out, "_", r.end_point.col);
        out.append("^\n");
    }
    assert(out@ =~= old(out)@ + report_body(*r, code@, width as nat));
    next
}

/// A match that covers no byte is reported by its header and location alone.
pub proof fn lemma_empty_range_report(m: LintMatch, code: Seq<u8>, path: Seq<char>, before: nat, after: nat)
    requires
        m.range.bytes.start >= m.range.bytes.end,
    ensures
        report_text(m, code, path, before, after) == report_header(m, path),
{
}

/// Reports depend on nothing but their inputs: matches with the same lint
/// name, message and range give the same report of the same source.
pub proof fn lemma_report_deterministic(
    m1: LintMatch,
    m2: LintMatch,
    code: Seq<u8>,
    path: Seq<char>,
    before: nat,
    after: nat,
)
    requires
        m1@ == m2@,
    ensures
        report_text(m1, code, path, before, after) == report_text(m2, code, path, before, after),
{
}

} // verus!
