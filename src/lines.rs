use vstd::prelude::*;

verus! {

/// Where the line holding byte `pos` begins: just after the last newline
/// before `pos`, or at the start of the text.
pub open spec fn line_begin(code: Seq<u8>, pos: int) -> int
    decreases pos,
{
    if pos <= 0 {
        0
    } else if code[pos - 1] == 10u8 {
        pos
    } else {
        line_begin(code, pos - 1)
    }
}

/// Where the line that starts at `start` ends: at the next newline, or at the
/// end of the text.
pub open spec fn line_end(code: Seq<u8>, start: int) -> int
    decreases code.len() - start,
{
    if start >= code.len() {
        code.len() as int
    } else if code[start] == 10u8 {
        start
    } else {
        line_end(code, start + 1)
    }
}

/// The bytes of the line that starts at `start`, without its newline.
pub open spec fn line_at(code: Seq<u8>, start: int) -> Seq<u8> {
    code.subrange(start, line_end(code, start))
}

pub proof fn lemma_line_begin_bounds(code: Seq<u8>, pos: int)
    requires
        0 <= pos <= code.len(),
    ensures
        0 <= line_begin(code, pos) <= pos,
        line_begin(code, pos) > 0 ==> code[line_begin(code, pos) - 1] == 10u8,
    decreases pos,
{
    if pos > 0 && code[pos - 1] != 10u8 {
        lemma_line_begin_bounds(code, pos - 1);
    }
}

pub proof fn lemma_line_end_bounds(code: Seq<u8>, start: int)
    requires
        0 <= start <= code.len(),
    ensures
        start <= line_end(code, start) <= code.len(),
        line_end(code, start) < code.len() ==> code[line_end(code, start)] == 10u8,
    decreases code.len() - start,
{
    if start < code.len() && code[start] != 10u8 {
        lemma_line_end_bounds(code, start + 1);
    }
}

/// Finds where the line holding byte `pos` begins.
pub fn find_line_begin(code: &[u8], pos: usize) -> (r: usize)
    requires
        pos <= code@.len(),
    ensures
        r as int == line_begin(code@, pos as int),
        r <= pos,
{
    let mut i: usize = pos;
    while i > 0 && code[i - 1] != 10u8
        invariant
            i <= pos <= code@.len(),
            line_begin(code@, i as int) == line_begin(code@, pos as int),
        decreases i,
    {
        i = i - 1;
    }
    i
}

/// Finds where the line that starts at `start` ends.
pub fn find_line_end(code: &[u8], start: usize) -> (r: usize)
    requires
        start <= code@.len(),
    ensures
        r as int == line_end(code@, start as int),
        start <= r <= code@.len(),
{
    let mut i: usize = start;
    while i < code.len() && code[i] != 10u8
        invariant
            start <= i <= code@.len(),
            line_end(code@, i as int) == line_end(code@, start as int),
        decreases code@.len() - i,
    {
        i = i + 1;
    }
    i
}

} // verus!
