use vstd::prelude::*;

use crate::text::decimal;
use crate::text::digit_char;

verus! {

/// A version in the form of a (major, minor, patch) triple.
#[derive(Clone, Copy, Debug, PartialEq, Eq, PartialOrd, Ord, Structural)]
pub struct Version(pub u8, pub u8, pub u8);

/// Why a version string was rejected.
#[derive(Clone, Copy, Debug, PartialEq, Eq, Structural)]
pub enum VersionError {
    /// The string does not consist of exactly three dot-separated parts.
    PartCount,
    /// The major part is not an integer in `0..=255`.
    Major,
    /// The minor part is not an integer in `0..=255`.
    Minor,
    /// The patch part is not an integer in `0..=255`.
    Patch,
}

/// The pieces of `s` between occurrences of `sep`, in order.
pub open spec fn split_on(s: Seq<char>, sep: char) -> Seq<Seq<char>>
    decreases s.len(),
{
    if s.len() == 0 {
        seq![Seq::<char>::empty()]
    } else {
        let p = split_on(s.drop_last(), sep);
        if s.last() == sep {
            p.push(Seq::<char>::empty())
        } else {
            p.update(p.len() - 1, p.last().push(s.last()))
        }
    }
}

pub open spec fn is_digit(c: char) -> bool {
    '0' <= c <= '9'
}

pub open spec fn digit_value(c: char) -> nat {
    (c as nat - '0' as nat) as nat
}

/// The number that a string of decimal digits denotes.
pub open spec fn digits_value(d: Seq<char>) -> nat
    decreases d.len(),
{
    if d.len() == 0 {
        0
    } else {
        digits_value(d.drop_last()) * 10 + digit_value(d.last())
    }
}

/// What follows an optional leading `+`.
pub open spec fn unsigned_digits(t: Seq<char>) -> Seq<char> {
    if t.len() > 0 && t[0] == '+' {
        t.drop_first()
    } else {
        t
    }
}

/// A decimal integer in `0..=255`, with an optional leading `+`, as Rust's
/// integer parsing reads it.
pub open spec fn parse_u8(t: Seq<char>) -> Option<u8> {
    let d = unsigned_digits(t);
    if d.len() > 0 && (forall|i: int| 0 <= i < d.len() ==> is_digit(#[trigger] d[i]))
        && digits_value(d) <= 255 {
        Some(digits_value(d) as u8)
    } else {
        None
    }
}

/// The outcome of reading `s` as `major.minor.patch`.
pub open spec fn parse_version(s: Seq<char>) -> Result<Version, VersionError> {
    let parts = split_on(s, '.');
    if parts.len() != 3 {
        Err(VersionError::PartCount)
    } else if parse_u8(parts[0]) is None {
        Err(VersionError::Major)
    } else if parse_u8(parts[1]) is None {
        Err(VersionError::Minor)
    } else if parse_u8(parts[2]) is None {
        Err(VersionError::Patch)
    } else {
        Ok(Version(parse_u8(parts[0])->0, parse_u8(parts[1])->0, parse_u8(parts[2])->0))
    }
}

proof fn lemma_digits_value_grows(d: Seq<char>, n: int)
    requires
        0 <= n <= d.len(),
        forall|i: int| 0 <= i < d.len() ==> is_digit(#[trigger] d[i]),
    ensures
        digits_value(d.take(n)) <= digits_value(d),
    decreases d.len() - n,
{
    if n < d.len() {
        lemma_digits_value_grows(d, n + 1);
        assert(d.take(n + 1).drop_last() =~= d.take(n));
    } else {
        assert(d.take(n) =~= d);
    }
}

/// Reads a decimal integer in `0..=255` from `t`.
fn parse_part(t: &Vec<char>) -> (r: Option<u8>)
    ensures
        r == parse_u8(t@),
{
    let ghost tt = t@;
    let start: usize = if t.len() > 0 && t[0] == '+' {
        1
    } else {
        0
    };
    let ghost d = unsigned_digits(tt);
    assert(d =~= tt.subrange(start as int, tt.len() as int));
    if start >= t.len() {
        return None;
    }
    let mut acc: u32 = 0;
    let mut i: usize = start;
    while i < t.len()
        invariant
            start <= i <= t.len(),
            tt == t@,
            d == unsigned_digits(tt),
            d =~= t@.subrange(start as int, t.len() as int),
            forall|k: int| 0 <= k < i - start ==> is_digit(#[trigger] d[k]),
            acc as nat == digits_value(d.take(i - start)),
            acc <= 255,
        decreases t.len() - i,
    {
        let c = t[i];
        assert(d[i - start] == c);
        if !('0' <= c && c <= '9') {
            assert(!is_digit(d[i - start]));
            assert(!(forall|k: int| 0 <= k < d.len() ==> is_digit(#[trigger] d[k])));
            assert(parse_u8(tt) is None);
            return None;
        }
        let ghost before = d.take(i - start);
        acc = acc * 10 + (c as u32 - '0' as u32);
        assert(d.take(i + 1 - start).drop_last() =~= before);
        assert(d.take(i + 1 - start).last() == c);
        i = i + 1;
        if acc > 255 {
            proof {
                if forall|k: int| 0 <= k < d.len() ==> is_digit(#[trigger] d[k]) {
                    lemma_digits_value_grows(d, i - start);
                }
                assert(parse_u8(tt) is None);
            }
            return None;
        }
    }
    assert(d.take(i - start) =~= d);
    Some(acc as u8)
}

impl Version {
    /// Reads a version written as `major.minor.patch`, each part a decimal
    /// integer in `0..=255`.
    pub fn parse(s: &str) -> (r: Result<Version, VersionError>)
        ensures
            r == parse_version(s@),
    {
        let n = s.unicode_len();
        let mut parts: Vec<Vec<char>> = Vec::new();
        let mut cur: Vec<char> = Vec::new();
        let mut i: usize = 0;
        while i < n
            invariant
                n == s@.len(),
                i <= n,
                parts@.map_values(|p: Vec<char>| p@).push(cur@) == split_on(s@.take(i as int), '.'),
            decreases n - i,
        {
            let c = s.get_char(i);
            let ghost prev = s@.take(i as int);
            assert(s@.take(i + 1).drop_last() =~= prev);
            if c == '.' {
                parts.push(cur);
                cur = Vec::new();
                assert(parts@.map_values(|p: Vec<char>| p@).push(cur@) =~= split_on(
                    prev,
                    '.',
                ).push(Seq::<char>::empty()));
            } else {
                let ghost old_cur = cur@;
                cur.push(c);
                assert(parts@.map_values(|p: Vec<char>| p@).push(cur@) =~= split_on(prev, '.').update(
                    split_on(prev, '.').len() - 1,
                    old_cur.push(c),
                ));
            }
            i = i + 1;
        }
        assert(s@.take(n as int) =~= s@);
        parts.push(cur);
        let ghost views = parts@.map_values(|p: Vec<char>| p@);
        assert(views =~= split_on(s@, '.'));
        if parts.len() != 3 {
            return Err(VersionError::PartCount);
        }
        assert(views[0] == parts[0]@ && views[1] == parts[1]@ && views[2] == parts[2]@);
        let major = match parse_part(&parts[0]) {
            Some(v) => v,
            None => return Err(VersionError::Major),
        };
        let minor = match parse_part(&parts[1]) {
            Some(v) => v,
            None => return Err(VersionError::Minor),
        };
        let patch = match parse_part(&parts[2]) {
            Some(v) => v,
            None => return Err(VersionError::Patch),
        };
        Ok(Version(major, minor, patch))
    }

    /// Whether `self` orders before `other`, part by part.
    pub fn lt(&self, other: &Version) -> (r: bool)
        ensures
            r == version_lt(*self, *other),
    {
        self.0 < other.0 || (self.0 == other.0 && (self.1 < other.1 || (self.1 == other.1
            && self.2 < other.2)))
    }
}

/// Lexicographic order on versions: major first, then minor, then patch.
pub open spec fn version_lt(a: Version, b: Version) -> bool {
    a.0 < b.0 || (a.0 == b.0 && (a.1 < b.1 || (a.1 == b.1 && a.2 < b.2)))
}

impl std::str::FromStr for Version {
    type Err = VersionError;

    fn from_str(s: &str) -> (r: Result<Version, VersionError>)
        ensures
            r == parse_version(s@),
    {
        Version::parse(s)
    }
}

proof fn lemma_split_plain(s: Seq<char>, sep: char)
    requires
        forall|i: int| 0 <= i < s.len() ==> s[i] != sep,
    ensures
        split_on(s, sep) == seq![s],
    decreases s.len(),
{
    if s.len() > 0 {
        lemma_split_plain(s.drop_last(), sep);
        assert(s.drop_last().push(s.last()) =~= s);
        assert(seq![s.drop_last()].update(0, s.drop_last().push(s.last())) =~= seq![s]);
    } else {
        assert(s =~= Seq::<char>::empty());
    }
}

proof fn lemma_split_after_sep(x: Seq<char>, y: Seq<char>, sep: char)
    requires
        forall|i: int| 0 <= i < y.len() ==> y[i] != sep,
    ensures
        split_on(x.push(sep) + y, sep) == split_on(x, sep).push(y),
    decreases y.len(),
{
    let z = x.push(sep) + y;
    if y.len() == 0 {
        assert(z =~= x.push(sep));
        assert(z.drop_last() =~= x);
        assert(y =~= Seq::<char>::empty());
    } else {
        lemma_split_after_sep(x, y.drop_last(), sep);
        assert(z.drop_last() =~= x.push(sep) + y.drop_last());
        let p = split_on(x, sep).push(y.drop_last());
        assert(y.drop_last().push(y.last()) =~= y);
        assert(z.last() == y.last());
        assert(p.update(p.len() - 1, p.last().push(y.last())) =~= split_on(x, sep).push(y));
    }
}

proof fn lemma_digit_char(d: nat)
    requires
        d < 10,
    ensures
        is_digit(digit_char(d)),
        digit_value(digit_char(d)) == d,
{
}

proof fn lemma_decimal_digits(n: nat)
    ensures
        forall|i: int| 0 <= i < decimal(n).len() ==> is_digit(#[trigger] decimal(n)[i]),
        digits_value(decimal(n)) == n,
        decimal(n).len() > 0,
    decreases n,
{
    if n < 10 {
        lemma_digit_char(n);
        assert(decimal(n).drop_last() =~= Seq::<char>::empty());
        assert(digits_value(Seq::<char>::empty()) == 0);
        assert(digits_value(decimal(n)) == digits_value(decimal(n).drop_last()) * 10 + digit_value(decimal(n).last()));
    } else {
        lemma_digit_char(n % 10);
        lemma_decimal_digits(n / 10);
        assert(decimal(n).drop_last() =~= decimal(n / 10));
        vstd::arithmetic::div_mod::lemma_fundamental_div_mod(n as int, 10);
        assert(decimal(n).last() == digit_char(n % 10));
        assert(digits_value(decimal(n)) == digits_value(decimal(n / 10)) * 10 + digit_value(digit_char(n % 10)));
        assert((n / 10) * 10 + n % 10 == n) by (nonlinear_arith)
            requires n == 10 * (n / 10) + n % 10;
    }
}

proof fn lemma_parse_decimal(n: u8)
    ensures
        parse_u8(decimal(n as nat)) == Some(n),
        forall|i: int| 0 <= i < decimal(n as nat).len() ==> decimal(n as nat)[i] != '.',
{
    lemma_decimal_digits(n as nat);
    let d = decimal(n as nat);
    assert(is_digit(d[0]));
    assert(unsigned_digits(d) == d);
    assert forall|i: int| 0 <= i < d.len() implies d[i] != '.' by {
        assert(is_digit(d[i]));
    }
}

/// Writing a version as `major.minor.patch` in decimal and reading it back
/// gives the same version.
pub proof fn lemma_version_round_trip(v: Version)
    ensures
        parse_version(decimal(v.0 as nat) + seq!['.'] + decimal(v.1 as nat) + seq!['.'] + decimal(
            v.2 as nat,
        )) == Ok::<Version, VersionError>(v),
{
    let (a, b, c) = (decimal(v.0 as nat), decimal(v.1 as nat), decimal(v.2 as nat));
    lemma_parse_decimal(v.0);
    lemma_parse_decimal(v.1);
    lemma_parse_decimal(v.2);
    lemma_split_plain(a, '.');
    lemma_split_after_sep(a, b, '.');
    let ab = a.push('.') + b;
    lemma_split_after_sep(ab, c, '.');
    assert(a + seq!['.'] + b + seq!['.'] + c =~= ab.push('.') + c);
    let parts = split_on(ab.push('.') + c, '.');
    assert(parts =~= seq![a, b, c]);
}

} // verus!
