//! Numbers, sizes and durations as text.

use vstd::prelude::*;
use vstd::string::{StrSliceExecFns, StringExecFns};
use crate::file::SizeBytes;

verus! {

/// The character of a decimal digit.
pub open spec fn digit(d: nat) -> char {
    if d == 0 {
        '0'
    } else if d == 1 {
        '1'
    } else if d == 2 {
        '2'
    } else if d == 3 {
        '3'
    } else if d == 4 {
        '4'
    } else if d == 5 {
        '5'
    } else if d == 6 {
        '6'
    } else if d == 7 {
        '7'
    } else if d == 8 {
        '8'
    } else {
        '9'
    }
}

/// A number in decimal digits, without leading zeros.
pub open spec fn digits(n: nat) -> Seq<char>
    decreases n,
{
    if n < 10 {
        seq![digit(n)]
    } else {
        digits(n / 10).push(digit(n % 10))
    }
}

/// The last three decimal digits of a number, with leading zeros.
pub open spec fn three_digits(n: nat) -> Seq<char> {
    seq![digit(n / 100 % 10), digit(n / 10 % 10), digit(n % 10)]
}

/// A number in decimal digits, in groups of three from the right with the
/// separator between the groups.
pub open spec fn grouped(n: nat, separator: char) -> Seq<char>
    decreases n,
{
    if n < 1000 {
        digits(n)
    } else {
        grouped(n / 1000, separator).push(separator) + three_digits(n % 1000)
    }
}

/// A whole number in groups of three digits, with a minus sign in front
/// where it is negative.
pub open spec fn signed(x: int, separator: char) -> Seq<char> {
    if x < 0 {
        seq!['-'] + grouped((-x) as nat, separator)
    } else {
        grouped(x as nat, separator)
    }
}

/// As `signed`, with a plus sign in front where the number is positive.
pub open spec fn explicitly_signed(x: int, separator: char) -> Seq<char> {
    if x > 0 {
        seq!['+'] + signed(x, separator)
    } else {
        signed(x, separator)
    }
}

/// So many blanks.
pub open spec fn blanks(n: nat) -> Seq<char> {
    Seq::new(n, |i: int| ' ')
}

/// A text with blanks in front that fill it up to a width; unchanged where
/// it is that wide already.
pub open spec fn right_aligned(text: Seq<char>, width: nat) -> Seq<char> {
    if text.len() < width {
        blanks((width - text.len()) as nat) + text
    } else {
        text
    }
}

/// The text of one digit.
fn digit_text(d: u8) -> (r: &'static str)
    requires
        d < 10,
    ensures
        r@ == seq![digit(d as nat)],
{
    proof {
        reveal_strlit("0");
        reveal_strlit("1");
        reveal_strlit("2");
        reveal_strlit("3");
        reveal_strlit("4");
        reveal_strlit("5");
        reveal_strlit("6");
        reveal_strlit("7");
        reveal_strlit("8");
        reveal_strlit("9");
    }
    let r = if d == 0 {
        "0"
    } else if d == 1 {
        "1"
    } else if d == 2 {
        "2"
    } else if d == 3 {
        "3"
    } else if d == 4 {
        "4"
    } else if d == 5 {
        "5"
    } else if d == 6 {
        "6"
    } else if d == 7 {
        "7"
    } else if d == 8 {
        "8"
    } else {
        "9"
    };
    assert(r@ =~= seq![digit(d as nat)]);
    r
}

/// Puts a number in decimal digits behind a text.
pub fn append_number(text: &mut String, n: u128)
    ensures
        final(text)@ == old(text)@ + digits(n as nat),
    decreases n,
{
    if n < 10 {
        text.append(digit_text(n as u8));
    } else {
        append_number(text, n / 10);
        text.append(digit_text((n % 10) as u8));
        assert(text@ =~= old(text)@ + digits(n as nat));
    }
}

/// Puts a number in groups of three digits behind a text. The separator
/// is a text of one character.
pub fn append_grouped(text: &mut String, n: u128, separator: &str)
    requires
        separator@.len() == 1,
    ensures
        final(text)@ == old(text)@ + grouped(n as nat, separator@[0]),
    decreases n,
{
    if n < 1000 {
        append_number(text, n);
    } else {
        append_grouped(text, n / 1000, separator);
        text.append(separator);
        let rest = n % 1000;
        text.append(digit_text((rest / 100 % 10) as u8));
        text.append(digit_text((rest / 10 % 10) as u8));
        text.append(digit_text((rest % 10) as u8));
        assert(text@ =~= old(text)@ + grouped(n as nat, separator@[0]));
    }
}

/// Puts a whole number in groups of three digits behind a text, with its
/// minus sign where it has one.
pub fn append_signed(text: &mut String, x: i128, separator: &str)
    requires
        separator@.len() == 1,
    ensures
        final(text)@ == old(text)@ + signed(x as int, separator@[0]),
{
    if x < 0 {
        proof {
            reveal_strlit("-");
        }
        text.append("-");
        let below: i128 = -(x + 1);
        let magnitude: u128 = below as u128 + 1;
        append_grouped(text, magnitude, separator);
        assert(text@ =~= old(text)@ + signed(x as int, separator@[0]));
    } else {
        append_grouped(text, x as u128, separator);
    }
}

/// A whole number with a comma between the thousands: `-12,345`.
pub fn dec(x: i128) -> (r: String)
    ensures
        r@ == signed(x as int, ','),
{
    proof {
        reveal_strlit(",");
    }
    let mut r = String::new();
    append_signed(&mut r, x, ",");
    assert(r@ =~= signed(x as int, ','));
    r
}

/// As `dec`, with a plus sign in front of a positive number: `+1`, `0`,
/// `-1`.
pub fn dec_signed(x: i128) -> (r: String)
    ensures
        r@ == explicitly_signed(x as int, ','),
{
    proof {
        reveal_strlit(",");
        reveal_strlit("+");
    }
    let mut r = String::new();
    if x > 0 {
        r.append("+");
    }
    append_signed(&mut r, x, ",");
    assert(r@ =~= explicitly_signed(x as int, ','));
    r
}

/// A text right-aligned in a field of a width.
pub fn pad_left(text: &str, width: usize) -> (r: String)
    ensures
        r@ == right_aligned(text@, width as nat),
{
    proof {
        reveal_strlit(" ");
    }
    let length = text.unicode_len();
    let mut r = String::new();
    let mut i: usize = length;
    while i < width
        invariant
            " "@ == seq![' '],
            length <= i,
            i <= width || i == length,
            r@ == blanks((i - length) as nat),
        decreases width - i,
    {
        r.append(" ");
        assert(r@ =~= blanks((i + 1 - length) as nat));
        i += 1;
    }
    r.append(text);
    assert(r@ =~= right_aligned(text@, width as nat));
    r
}

/// The unit of a size that was divided by a thousand so many times.
pub open spec fn unit(k: nat) -> Seq<char> {
    if k == 0 {
        seq![' ', 'B']
    } else if k == 1 {
        seq![' ', 'K']
    } else if k == 2 {
        seq![' ', 'M']
    } else if k == 3 {
        seq![' ', 'G']
    } else if k == 4 {
        seq![' ', 'T']
    } else {
        seq![' ', 'P']
    }
}

/// A size brought below a thousand, as far as there are units for it: the
/// whole part, the first digit that the last division cut off, and how
/// many times it was divided. It starts from a whole part, a digit and a
/// number of divisions already made.
pub open spec fn scaled(whole: nat, tenth: nat, k: nat) -> (nat, nat, nat)
    decreases 5 - k,
{
    if k < 5 && whole >= 1000 {
        scaled(whole / 1000, whole / 100 % 10, k + 1)
    } else {
        (whole, tenth, k)
    }
}

/// A number of bytes in the largest unit that leaves a whole part, cut
/// off, not rounded, behind one decimal: `987 B`, `1.2 K`, `34.5 K`.
pub open spec fn size_text(x: nat) -> Seq<char> {
    let (whole, tenth, k) = scaled(x, 0, 0);
    let decimal = if x >= 1000 {
        seq!['.', digit(tenth)]
    } else {
        Seq::empty()
    };
    grouped(whole, ',') + decimal + unit(k)
}

/// A number of seconds in hours, minutes and seconds; minutes appear from
/// one minute on, hours from one hour on: `59s`, `1m 0s`, `1h 0m 1s`.
pub open spec fn duration_text(seconds: nat) -> Seq<char> {
    let hours = if seconds >= 3600 {
        digits(seconds / 60 / 60) + seq!['h', ' ']
    } else {
        Seq::empty()
    };
    let minutes = if seconds >= 60 {
        digits(seconds / 60 % 60) + seq!['m', ' ']
    } else {
        Seq::empty()
    };
    hours + minutes + digits(seconds % 60).push('s')
}

/// The share of `x` in `base` in whole percent, cut off: `49 %`.
pub open spec fn percent_text(x: nat, base: nat) -> Seq<char> {
    digits(100 * x / base) + seq![' ', '%']
}

/// The text of a unit.
fn unit_text(k: u8) -> (r: &'static str)
    ensures
        r@ == unit(k as nat),
{
    proof {
        reveal_strlit(" B");
        reveal_strlit(" K");
        reveal_strlit(" M");
        reveal_strlit(" G");
        reveal_strlit(" T");
        reveal_strlit(" P");
    }
    let r = if k == 0 {
        " B"
    } else if k == 1 {
        " K"
    } else if k == 2 {
        " M"
    } else if k == 3 {
        " G"
    } else if k == 4 {
        " T"
    } else {
        " P"
    };
    assert(r@ =~= unit(k as nat));
    r
}

/// A number of bytes for a reader: `543 B`, `1.2 K`, `1.2 G`.
pub fn size_human(x: SizeBytes) -> (r: String)
    ensures
        r@ == size_text(x as nat),
{
    let mut mantissa: u64 = x;
    let mut decimal: u64 = 0;
    let mut k: u8 = 0;
    while k < 5 && mantissa >= 1000
        invariant
            k <= 5,
            decimal < 10,
            scaled(x as nat, 0, 0) == scaled(mantissa as nat, decimal as nat, k as nat),
        decreases 5 - k,
    {
        decimal = (mantissa / 100) % 10;
        mantissa = mantissa / 1000;
        k += 1;
    }
    proof {
        reveal_strlit(",");
        reveal_strlit(".");
    }
    let mut r = String::new();
    append_grouped(&mut r, mantissa as u128, ",");
    if x >= 1000 {
        r.append(".");
        r.append(digit_text(decimal as u8));
    }
    r.append(unit_text(k));
    assert(r@ =~= size_text(x as nat));
    r
}

/// A number of seconds for a reader: `0s`, `34m 12s`, `7h 32m 54s`.
pub fn duration_human(seconds: u64) -> (r: String)
    ensures
        r@ == duration_text(seconds as nat),
{
    proof {
        reveal_strlit("h ");
        reveal_strlit("m ");
        reveal_strlit("s");
    }
    let mut r = String::new();
    if seconds >= 60 * 60 {
        append_number(&mut r, (seconds / 60 / 60) as u128);
        r.append("h ");
    }
    if seconds >= 60 {
        append_number(&mut r, (seconds / 60 % 60) as u128);
        r.append("m ");
    }
    append_number(&mut r, (seconds % 60) as u128);
    r.append("s");
    assert(r@ =~= duration_text(seconds as nat));
    r
}

/// The share of `x` in `base` in whole percent: `0 %`, `49 %`, `150 %`.
pub fn percent(x: u64, base: u64) -> (r: String)
    requires
        base > 0,
    ensures
        r@ == percent_text(x as nat, base as nat),
{
    proof {
        reveal_strlit(" %");
    }
    let hundredfold: u128 = 100 * (x as u128);
    let mut r = String::new();
    append_number(&mut r, hundredfold / (base as u128));
    r.append(" %");
    assert(r@ =~= percent_text(x as nat, base as nat));
    r
}

} // verus!
