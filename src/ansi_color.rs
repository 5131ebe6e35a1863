use vstd::prelude::*;
use vstd::string::StringSliceAdditionalSpecFns;

use crate::text::decimal;
use crate::text::push_decimal;

verus! {

/// A lower-case hexadecimal digit.
pub open spec fn is_hex_digit(c: u8) -> bool {
    (48u8 <= c <= 57u8) || (97u8 <= c <= 102u8)
}

/// The value of a lower-case hexadecimal digit.
pub open spec fn hex_value(c: u8) -> nat {
    if c <= 57u8 {
        (c - 48) as nat
    } else {
        (c - 87) as nat
    }
}

/// A color written as six lower-case hexadecimal digits, with an optional
/// leading `#`.
pub open spec fn is_hex_color(b: Seq<u8>) -> bool {
    let start: int = if b.len() > 0 && b[0] == 35u8 { 1 } else { 0 };
    b.len() == start + 6 && forall|i: int| start <= i < b.len() ==> is_hex_digit(#[trigger] b[i])
}

/// Where the six digits of a hexadecimal color begin.
pub open spec fn hex_start(b: Seq<u8>) -> int {
    if b.len() > 0 && b[0] == 35u8 { 1 } else { 0 }
}

/// The byte that two hexadecimal digits denote.
pub open spec fn hex_byte(high: u8, low: u8) -> nat {
    hex_value(high) * 16 + hex_value(low)
}

/// The escape sequence that selects the 24-bit foreground color `(r, g, b)`.
pub open spec fn ansi_fg(r: nat, g: nat, b: nat) -> Seq<char> {
    "\x1b[38;2;"@ + decimal(r) + seq![';'] + decimal(g) + seq![';'] + decimal(b) + seq!['m']
}

/// Parse a hexadecimal digit to its value.
pub fn parse_hex_digit(c: u8) -> (r: u8)
    requires
        is_hex_digit(c),
    ensures
        r as nat == hex_value(c),
        r < 16,
{
    if c <= 57 {
        c - 48
    } else {
        c - 87
    }
}

/// Parse two hexadecimal digits into a byte value.
pub fn parse_hex_byte(high: u8, low: u8) -> (r: u8)
    requires
        is_hex_digit(high),
        is_hex_digit(low),
    ensures
        r as nat == hex_byte(high, low),
{
    parse_hex_digit(high) * 16 + parse_hex_digit(low)
}

fn push_fg(out: &mut String, r: u8, g: u8, b: u8)
    ensures
        final(out)@ == old(out)@ + ansi_fg(r as nat, g as nat, b as nat),
{
    proof {
        reveal_strlit("\x1b[38;2;");
        reveal_strlit(";");
        reveal_strlit("m");
    }
    out.append("\x1b[38;2;");
    push_decimal(out, r as usize);
    out.append(";");
    push_decimal(out, g as usize);
    out.append(";");
    push_decimal(out, b as usize);
    out.append("m");
    assert(out@ =~= old(out)@ + ansi_fg(r as nat, g as nat, b as nat));
}

/// Convert a color written in hexadecimal, such as `#795da3`, to the ANSI
/// escape sequence that selects it as foreground color.
pub fn hex_color_to_ansi(color: &str) -> (r: String)
    requires
        is_hex_color(color.spec_bytes()),
    ensures
        ({
            let b = color.spec_bytes();
            let s = hex_start(b);
            r@ == ansi_fg(
                hex_byte(b[s], b[s + 1]),
                hex_byte(b[s + 2], b[s + 3]),
                hex_byte(b[s + 4], b[s + 5]),
            )
        }),
{
    let bytes = color.as_bytes();
    let start: usize = if bytes.len() > 0 && bytes[0] == 35u8 {
        1
    } else {
        0
    };
    let r = parse_hex_byte(bytes[start], bytes[start + 1]);
    let g = parse_hex_byte(bytes[start + 2], bytes[start + 3]);
    let b = parse_hex_byte(bytes[start + 4], bytes[start + 5]);
    let mut out = String::new();
    push_fg(&mut out, r, g, b);
    assert(out@ =~= ansi_fg(r as nat, g as nat, b as nat));
    out
}

/// A 24-bit (true color) ANSI color.
#[derive(Clone, Copy, Debug)]
pub struct AnsiColor24(pub u8, pub u8, pub u8);

impl AnsiColor24 {
    /// The ANSI escape sequence that selects this color as foreground color.
    pub fn as_ansi_fg(&self) -> (r: String)
        ensures
            r@ == ansi_fg(self.0 as nat, self.1 as nat, self.2 as nat),
    {
        let mut out = String::new();
        push_fg(&mut out, self.0, self.1, self.2);
        assert(out@ =~= ansi_fg(self.0 as nat, self.1 as nat, self.2 as nat));
        out
    }

    /// The ANSI escape sequence that resets all attributes.
    pub fn reset() -> (r: &'static str)
        ensures
            r@ == "\x1b[0m"@,
    {
        "\x1b[0m"
    }
}

} // verus!
