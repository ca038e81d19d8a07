//! CSS text for colours.

use vstd::prelude::*;
use vstd::string::{StrSliceExecFns, StringExecFns};
use crate::color::Color;

verus! {

/// The decimal digit `d`.
pub open spec fn digit_char(d: nat) -> char {
    if d == 0 {
        '0'
    } else if d == 1 {
        '1'
    } else if d == 2 {
        '2'
    } else if d == 3 {
        '3'
    } else if d == 4 {
        '4'
    } else if d == 5 {
        '5'
    } else if d == 6 {
        '6'
    } else if d == 7 {
        '7'
    } else if d == 8 {
        '8'
    } else {
        '9'
    }
}

/// The decimal numeral of `n`, without leading zeros.
pub open spec fn decimal(n: nat) -> Seq<char>
    decreases n,
{
    if n < 10 {
        seq![digit_char(n)]
    } else {
        decimal(n / 10).push(digit_char(n % 10))
    }
}

/// `n` hundredths written with two decimals: `1234` is `12.34`.
pub open spec fn hundredths(n: nat) -> Seq<char> {
    decimal(n / 100) + seq!['.', digit_char((n / 10) % 10), digit_char(n % 10)]
}

/// The CSS form of a colour: `rgb(r, g, b)` or `hsl(h, s%, l%)`, the hue
/// in degrees and saturation and lightness in percent, each with two decimals.
pub open spec fn css_of(c: Color) -> Seq<char> {
    match c {
        Color::RGB { r, g, b } => seq!['r', 'g', 'b', '('] + decimal(r as nat) + seq![',', ' '] + decimal(g as nat)
            + seq![',', ' '] + decimal(b as nat) + seq![')'],
        Color::HSL { h, s, l } => seq!['h', 's', 'l', '('] + hundredths(h as nat) + seq![',', ' '] + hundredths(
            s as nat,
        ) + seq!['%', ',', ' '] + hundredths(l as nat) + seq!['%', ')'],
    }
}

fn push_digit(out: &mut String, d: u32)
    requires
        d < 10,
    ensures
        final(out)@ == old(out)@.push(digit_char(d as nat)),
{
    let digits: &str = "0123456789";
    proof {
        reveal_strlit("0123456789");
    }
    let one = digits.substring_char(d as usize, d as usize + 1);
    out.append(one);
    proof {
        assert(one@ =~= seq![digit_char(d as nat)]);
    }
}

fn push_decimal(out: &mut String, n: u32)
    ensures
        final(out)@ == old(out)@ + decimal(n as nat),
    decreases n,
{
    if n >= 10 {
        push_decimal(out, n / 10);
    }
    push_digit(out, n % 10);
    proof {
        if n < 10 {
            assert(n % 10 == n);
        }
    }
    assert(final(out)@ =~= old(out)@ + decimal(n as nat));
}

fn push_hundredths(out: &mut String, n: u32)
    ensures
        final(out)@ == old(out)@ + hundredths(n as nat),
{
    push_decimal(out, n / 100);
    out.append(".");
    push_digit(out, (n / 10) % 10);
    push_digit(out, n % 10);
    proof {
        reveal_strlit(".");
    }
    assert(final(out)@ =~= old(out)@ + hundredths(n as nat));
}

fn push_str(out: &mut String, s: &str)
    ensures
        final(out)@ == old(out)@ + s@,
{
    out.append(s);
}

impl Color {
    /// The colour as CSS text.
    pub fn to_css(self) -> (r: String)
        ensures
            r@ == css_of(self),
    {
        let mut out = String::new();
        match self {
            Color::RGB { r, g, b } => {
                push_str(&mut out, "rgb(");
                push_decimal(&mut out, r as u32);
                push_str(&mut out, ", ");
                push_decimal(&mut out, g as u32);
                push_str(&mut out, ", ");
                push_decimal(&mut out, b as u32);
                push_str(&mut out, ")");
                proof {
                    reveal_strlit("rgb(");
                    reveal_strlit(", ");
                    reveal_strlit(")");
                }
            },
            Color::HSL { h, s, l } => {
                push_str(&mut out, "hsl(");
                push_hundredths(&mut out, h);
                push_str(&mut out, ", ");
                push_hundredths(&mut out, s);
                push_str(&mut out, "%, ");
                push_hundredths(&mut out, l);
                push_str(&mut out, "%)");
                proof {
                    reveal_strlit("hsl(");
                    reveal_strlit(", ");
                    reveal_strlit("%, ");
                    reveal_strlit("%)");
                }
            },
        }
        assert(out@ =~= css_of(self));
        out
    }
}

} // verus!
