use vstd::prelude::*;

verus! {

/// The characters that Rust's `char::is_whitespace` accepts: Unicode's
/// `White_Space` property.
pub open spec fn is_white(c: char) -> bool {
    ('\u{9}' <= c <= '\u{d}') || c == ' ' || c == '\u{85}' || c == '\u{a0}' || c == '\u{1680}'
        || ('\u{2000}' <= c <= '\u{200a}') || c == '\u{2028}' || c == '\u{2029}' || c
        == '\u{202f}' || c == '\u{205f}' || c == '\u{3000}'
}

/// `s` with every leading repetition of `p` removed.
pub open spec fn strip_start_all(s: Seq<char>, p: Seq<char>) -> Seq<char>
    decreases s.len(),
{
    if p.len() > 0 && s.len() >= p.len() && s.take(p.len() as int) == p {
        strip_start_all(s.skip(p.len() as int), p)
    } else {
        s
    }
}

/// `s` with every trailing repetition of `p` removed.
pub open spec fn strip_end_all(s: Seq<char>, p: Seq<char>) -> Seq<char>
    decreases s.len(),
{
    if p.len() > 0 && s.len() >= p.len() && s.skip(s.len() - p.len()) == p {
        strip_end_all(s.take(s.len() - p.len()), p)
    } else {
        s
    }
}

pub open spec fn trim_start(s: Seq<char>) -> Seq<char>
    decreases s.len(),
{
    if s.len() > 0 && is_white(s[0]) {
        trim_start(s.drop_first())
    } else {
        s
    }
}

pub open spec fn trim_end(s: Seq<char>) -> Seq<char>
    decreases s.len(),
{
    if s.len() > 0 && is_white(s.last()) {
        trim_end(s.drop_last())
    } else {
        s
    }
}

/// `s` without surrounding whitespace.
pub open spec fn trim(s: Seq<char>) -> Seq<char> {
    trim_end(trim_start(s))
}

pub open spec fn starts_with(s: Seq<char>, p: Seq<char>) -> bool {
    s.len() >= p.len() && s.take(p.len() as int) == p
}

/// The text of a comment without its delimiters and surrounding whitespace.
pub open spec fn comment_body(text: Seq<char>) -> Seq<char> {
    trim(strip_end_all(strip_start_all(strip_start_all(text, "//"@), "/*"@), "*/"@))
}

/// The key of a `bpflint: disable=<key>` directive in a comment, if the
/// comment is one.
pub open spec fn directive_key(text: Seq<char>) -> Option<Seq<char>> {
    let body = comment_body(text);
    if starts_with(body, "bpflint:"@) {
        let rest = trim(body.skip(8));
        if starts_with(rest, "disable="@) {
            Some(rest.skip(8))
        } else {
            None
        }
    } else {
        None
    }
}

/// Whether a comment with `text` disables the lint called `name`.
pub open spec fn directive_disables(text: Seq<char>, name: Seq<char>) -> bool {
    match directive_key(text) {
        Some(key) => key == "all"@ || key == name,
        None => false,
    }
}

/// Whether `c` is whitespace.
pub fn is_whitespace(c: char) -> (r: bool)
    ensures
        r == is_white(c),
{
    ('\u{9}' <= c && c <= '\u{d}') || c == ' ' || c == '\u{85}' || c == '\u{a0}' || c == '\u{1680}'
        || ('\u{2000}' <= c && c <= '\u{200a}') || c == '\u{2028}' || c == '\u{2029}' || c
        == '\u{202f}' || c == '\u{205f}' || c == '\u{3000}'
}

/// Whether `t[lo..hi]` begins with `p`.
fn has_prefix_at(t: &Vec<char>, lo: usize, hi: usize, p: &str) -> (r: bool)
    requires
        lo <= hi <= t@.len(),
    ensures
        r == starts_with(t@.subrange(lo as int, hi as int), p@),
{
    let n = p.unicode_len();
    if hi - lo < n {
        return false;
    }
    let ghost s = t@.subrange(lo as int, hi as int);
    let mut k: usize = 0;
    while k < n
        invariant
            k <= n == p@.len(),
            lo + n <= hi <= t@.len(),
            s == t@.subrange(lo as int, hi as int),
            forall|j: int| 0 <= j < k ==> s[j] == p@[j],
        decreases n - k,
    {
        if t[lo + k] != p.get_char(k) {
            assert(s.take(n as int)[k as int] != p@[k as int]);
            return false;
        }
        k = k + 1;
    }
    assert(s.take(n as int) =~= p@);
    true
}

/// Whether `t[lo..hi]` ends with `p`.
fn has_suffix_at(t: &Vec<char>, lo: usize, hi: usize, p: &str) -> (r: bool)
    requires
        lo <= hi <= t@.len(),
    ensures
        r == {
            let s = t@.subrange(lo as int, hi as int);
            s.len() >= p@.len() && s.skip(s.len() - p@.len()) == p@
        },
{
    let n = p.unicode_len();
    if hi - lo < n {
        return false;
    }
    let ghost s = t@.subrange(lo as int, hi as int);
    let base = hi - n;
    let mut k: usize = 0;
    while k < n
        invariant
            k <= n == p@.len(),
            lo <= base == hi - n,
            hi <= t@.len(),
            s == t@.subrange(lo as int, hi as int),
            forall|j: int| 0 <= j < k ==> s[s.len() - n + j] == p@[j],
        decreases n - k,
    {
        if t[base + k] != p.get_char(k) {
            assert(s.skip(s.len() - n)[k as int] != p@[k as int]);
            return false;
        }
        k = k + 1;
    }
    assert(s.skip(s.len() - n) =~= p@);
    true
}

/// Removes every leading repetition of `p` from `t[lo..hi]`; returns the new start.
fn strip_start_at(t: &Vec<char>, lo: usize, hi: usize, p: &str) -> (r: usize)
    requires
        lo <= hi <= t@.len(),
        p@.len() > 0,
    ensures
        lo <= r <= hi,
        t@.subrange(r as int, hi as int) == strip_start_all(t@.subrange(lo as int, hi as int), p@),
{
    let n = p.unicode_len();
    let mut i: usize = lo;
    while has_prefix_at(t, i, hi, p)
        invariant
            lo <= i <= hi <= t@.len(),
            n == p@.len() > 0,
            strip_start_all(t@.subrange(i as int, hi as int), p@) == strip_start_all(
                t@.subrange(lo as int, hi as int),
                p@,
            ),
        decreases hi - i,
    {
        assert(t@.subrange(i as int, hi as int).skip(n as int) =~= t@.subrange(i + n, hi as int));
        i = i + n;
    }
    i
}

/// Removes every trailing repetition of `p` from `t[lo..hi]`; returns the new end.
fn strip_end_at(t: &Vec<char>, lo: usize, hi: usize, p: &str) -> (r: usize)
    requires
        lo <= hi <= t@.len(),
        p@.len() > 0,
    ensures
        lo <= r <= hi,
        t@.subrange(lo as int, r as int) == strip_end_all(t@.subrange(lo as int, hi as int), p@),
{
    let n = p.unicode_len();
    let mut i: usize = hi;
    while has_suffix_at(t, lo, i, p)
        invariant
            lo <= i <= hi <= t@.len(),
            n == p@.len() > 0,
            strip_end_all(t@.subrange(lo as int, i as int), p@) == strip_end_all(
                t@.subrange(lo as int, hi as int),
                p@,
            ),
        decreases i - lo,
    {
        assert(t@.subrange(lo as int, i as int).take(i - lo - n) =~= t@.subrange(lo as int, i - n));
        i = i - n;
    }
    i
}

/// Removes surrounding whitespace from `t[lo..hi]`; returns the new bounds.
fn trim_at(t: &Vec<char>, lo: usize, hi: usize) -> (r: (usize, usize))
    requires
        lo <= hi <= t@.len(),
    ensures
        lo <= r.0 <= r.1 <= hi,
        t@.subrange(r.0 as int, r.1 as int) == trim(t@.subrange(lo as int, hi as int)),
{
    let mut i: usize = lo;
    while i < hi && is_whitespace(t[i])
        invariant
            lo <= i <= hi <= t@.len(),
            trim_start(t@.subrange(i as int, hi as int)) == trim_start(
                t@.subrange(lo as int, hi as int),
            ),
        decreases hi - i,
    {
        assert(t@.subrange(i as int, hi as int).drop_first() =~= t@.subrange(i + 1, hi as int));
        i = i + 1;
    }
    let mut j: usize = hi;
    while j > i && is_whitespace(t[j - 1])
        invariant
            lo <= i <= j <= hi <= t@.len(),
            trim_end(t@.subrange(i as int, j as int)) == trim(t@.subrange(lo as int, hi as int)),
        decreases j - i,
    {
        assert(t@.subrange(i as int, j as int).drop_last() =~= t@.subrange(i as int, j - 1));
        j = j - 1;
    }
    (i, j)
}

/// Whether `t[lo..hi]` is exactly `s`.
fn equals_at(t: &Vec<char>, lo: usize, hi: usize, s: &str) -> (r: bool)
    requires
        lo <= hi <= t@.len(),
    ensures
        r == (t@.subrange(lo as int, hi as int) == s@),
{
    let n = s.unicode_len();
    if hi - lo != n {
        return false;
    }
    let r = has_prefix_at(t, lo, hi, s);
    assert(t@.subrange(lo as int, hi as int).take(n as int) =~= t@.subrange(lo as int, hi as int));
    r
}

/// Whether a comment with text `text` disables the lint called `name`.
pub fn disables(text: &Vec<char>, name: &str) -> (r: bool)
    ensures
        r == directive_disables(text@, name@),
{
    proof {
        reveal_strlit("//");
        reveal_strlit("/*");
        reveal_strlit("*/");
        reveal_strlit("bpflint:");
        reveal_strlit("disable=");
        reveal_strlit("all");
    }
    let n = text.len();
    assert(text@.subrange(0, n as int) =~= text@);
    let lo = strip_start_at(text, 0, n, "//");
    let lo = strip_start_at(text, lo, n, "/*");
    let hi = strip_end_at(text, lo, n, "*/");
    let (lo, hi) = trim_at(text, lo, hi);
    let ghost body = text@.subrange(lo as int, hi as int);
    assert(body == comment_body(text@));
    if !has_prefix_at(text, lo, hi, "bpflint:") {
        return false;
    }
    assert(body.skip(8) =~= text@.subrange(lo + 8, hi as int));
    let (lo, hi) = trim_at(text, lo + 8, hi);
    let ghost rest = text@.subrange(lo as int, hi as int);
    if !has_prefix_at(text, lo, hi, "disable=") {
        return false;
    }
    assert(rest.skip(8) =~= text@.subrange(lo + 8, hi as int));
    equals_at(text, lo + 8, hi, "all") || equals_at(text, lo + 8, hi, name)
}

/// A comment disables a lint only through a `bpflint:` directive whose
/// remainder is `disable=` followed by `all` or by the lint's exact name.
pub proof fn lemma_only_exact_directives(text: Seq<char>, name: Seq<char>)
    requires
        directive_disables(text, name),
    ensures
        starts_with(comment_body(text), "bpflint:"@),
        starts_with(trim(comment_body(text).skip(8)), "disable="@),
        trim(comment_body(text).skip(8)).skip(8) == "all"@ || trim(comment_body(text).skip(8)).skip(8)
            == name,
{
}

proof fn lemma_trim_start_plain(s: Seq<char>)
    requires
        s.len() > 0 ==> !is_white(s[0]),
    ensures
        trim_start(s) == s,
{
}

proof fn lemma_trim_end_plain(s: Seq<char>)
    requires
        s.len() > 0 ==> !is_white(s.last()),
    ensures
        trim_end(s) == s,
{
}

/// `bpflint: disable=all` disables every lint, and `bpflint: disable=<key>`
/// disables exactly the lint named `<key>`.
pub proof fn lemma_disable_key(key: Seq<char>, name: Seq<char>)
    requires
        key.len() > 0,
        !is_white(key.last()),
        key.last() != '/',
    ensures
        directive_disables("bpflint: disable="@ + key, name) == (key == "all"@ || key == name),
{
    reveal_strlit("bpflint: disable=");
    reveal_strlit("bpflint:");
    reveal_strlit("disable=");
    reveal_strlit("//");
    reveal_strlit("/*");
    reveal_strlit("*/");
    let text = "bpflint: disable="@ + key;
    assert(text[0] == 'b');
    assert(text.take(2)[0] == 'b' && "//"@[0] == '/' && "/*"@[0] == '/');
    assert(text.take(2) != "//"@);
    assert(text.take(2) != "/*"@);
    assert(strip_start_all(text, "//"@) == text);
    assert(strip_start_all(text, "/*"@) == text);
    assert(text.last() == key.last());
    assert(text.skip(text.len() - 2)[1] == key.last());
    assert("*/"@[1] == '/');
    assert(text.skip(text.len() - 2) != "*/"@);
    assert(strip_end_all(text, "*/"@) == text);
    lemma_trim_start_plain(text);
    lemma_trim_end_plain(text);
    assert(comment_body(text) == text);
    assert(text.take(8) =~= "bpflint:"@);
    let after = text.skip(8);
    assert(after[0] == ' ');
    assert(after.drop_first() =~= "disable="@ + key);
    let rest = "disable="@ + key;
    lemma_trim_start_plain(rest);
    assert(trim_start(after) == rest);
    assert(rest.last() == key.last());
    lemma_trim_end_plain(rest);
    assert(rest.take(8) =~= "disable="@);
    assert(rest.skip(8) =~= key);
}

} // verus!
