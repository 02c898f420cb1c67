//! Building text: joining, numbers, padding and shortening.
use vstd::prelude::*;

use crate::text::strs;

verus! {

/// Three texts, one after the other.
pub fn concat3(a: &str, b: &str, c: &str) -> (r: String)
    ensures
        r@ == a@ + b@ + c@,
{
    let mut out = a.to_owned();
    out.append(b);
    out.append(c);
    out
}

/// Five texts, one after the other.
pub fn concat5(a: &str, b: &str, c: &str, d: &str, e: &str) -> (r: String)
    ensures
        r@ == a@ + b@ + c@ + d@ + e@,
{
    let mut out = a.to_owned();
    out.append(b);
    out.append(c);
    out.append(d);
    out.append(e);
    out
}

/// Texts with `sep` between each two of them.
pub open spec fn joined(parts: Seq<Seq<char>>, sep: Seq<char>) -> Seq<char>
    decreases parts.len(),
{
    if parts.len() == 0 {
        Seq::empty()
    } else if parts.len() == 1 {
        parts[0]
    } else {
        joined(parts.drop_last(), sep) + sep + parts.last()
    }
}

/// Texts with `sep` between each two of them.
pub fn join(parts: &Vec<&str>, sep: &str) -> (r: String)
    ensures
        r@ == joined(strs(parts@), sep@),
{
    let ghost all = strs(parts@);
    let mut out = String::new();
    for i in 0..parts.len()
        invariant
            all == strs(parts@),
            out@ == joined(all.take(i as int), sep@),
    {
        assert(all.take(i + 1).drop_last() =~= all.take(i as int));
        assert(all.take(i + 1).last() == all[i as int]);
        if i > 0 {
            out.append(sep);
            out.append(parts[i]);
        } else {
            out.append(parts[i]);
            assert(out@ =~= all[0]);
        }
    }
    assert(all.take(parts@.len() as int) =~= all);
    out
}

pub open spec fn digit(n: int) -> char {
    ('0' as int + n) as char
}

/// A number in decimal notation.
pub open spec fn decimal(n: nat) -> Seq<char>
    decreases n,
{
    if n < 10 {
        seq![digit(n as int)]
    } else {
        decimal(n / 10).push(digit((n % 10) as int))
    }
}

fn digit_text(n: u128) -> (r: &'static str)
    requires
        n < 10,
    ensures
        r@ == seq![digit(n as int)],
{
    proof {
        reveal_strlit("0");
        reveal_strlit("1");
        reveal_strlit("2");
        reveal_strlit("3");
        reveal_strlit("4");
        reveal_strlit("5");
        reveal_strlit("6");
        reveal_strlit("7");
        reveal_strlit("8");
        reveal_strlit("9");
    }
    let r = match n {
        0 => "0",
        1 => "1",
        2 => "2",
        3 => "3",
        4 => "4",
        5 => "5",
        6 => "6",
        7 => "7",
        8 => "8",
        _ => "9",
    };
    assert(r@ =~= seq![digit(n as int)]);
    r
}

/// A number in decimal notation.
pub fn number(n: u128) -> (r: String)
    ensures
        r@ == decimal(n as nat),
    decreases n,
{
    if n < 10 {
        digit_text(n).to_owned()
    } else {
        let mut out = number(n / 10);
        let ghost before = out@;
        out.append(digit_text(n % 10));
        assert(out@ =~= before.push(digit((n % 10) as int)));
        out
    }
}

/// A signed number in decimal notation.
pub open spec fn signed_decimal(n: int) -> Seq<char> {
    if n < 0 {
        "-"@ + decimal((-n) as nat)
    } else {
        decimal(n as nat)
    }
}

/// A signed number in decimal notation.
pub fn signed_number(n: i32) -> (r: String)
    ensures
        r@ == signed_decimal(n as int),
{
    if n < 0 {
        let magnitude: i64 = -(n as i64);
        let mut out = "-".to_owned();
        out.append(number(magnitude as u128).as_str());
        out
    } else {
        number(n as u128)
    }
}

/// The character `c`, `n` times.
pub open spec fn repeated(c: char, n: int) -> Seq<char> {
    Seq::new(
        if n > 0 {
            n as nat
        } else {
            0
        },
        |i: int| c,
    )
}

/// `s` with spaces behind it, up to `width` characters in all.
pub open spec fn padded(s: Seq<char>, width: nat) -> Seq<char> {
    s + repeated(' ', width - s.len())
}

/// `s` with spaces behind it, up to `width` characters in all.
pub fn pad_right(s: &str, width: usize) -> (r: String)
    ensures
        r@ == padded(s@, width as nat),
{
    let mut out = s.to_owned();
    let mut n: usize = s.unicode_len();
    proof {
        reveal_strlit(" ");
    }
    assert(out@ =~= s@ + repeated(' ', 0));
    while n < width
        invariant
            " "@ == seq![' '],
            n >= s@.len(),
            n > s@.len() ==> n <= width,
            out@ == s@ + repeated(' ', n - s@.len()),
        decreases width - n,
    {
        out.append(" ");
        n = n + 1;
        assert(out@ =~= s@ + repeated(' ', n - s@.len()));
    }
    assert(out@ =~= padded(s@, width as nat));
    out
}

/// A rule of dashes.
pub fn dashes(n: usize) -> (r: String)
    ensures
        r@ == repeated('-', n as int),
{
    let mut out = String::new();
    proof {
        reveal_strlit("-");
    }
    assert(out@ =~= repeated('-', 0));
    for i in 0..n
        invariant
            "-"@ == seq!['-'],
            out@ == repeated('-', i as int),
    {
        out.append("-");
        assert(out@ =~= repeated('-', i + 1));
    }
    out
}

/// The first `max` characters of a text and an ellipsis, or all of a text that is no longer.
pub open spec fn shortened(s: Seq<char>, max: nat) -> Seq<char> {
    if s.len() <= max {
        s
    } else {
        s.take(max as int) + "..."@
    }
}

/// The first `max` characters of a text and an ellipsis, or all of a text that is no longer.
pub fn truncate_with_ellipsis(s: &str, max: usize) -> (r: String)
    ensures
        r@ == shortened(s@, max as nat),
{
    if s.unicode_len() <= max {
        s.to_owned()
    } else {
        let mut out = s.substring_char(0, max).to_owned();
        assert(s@.subrange(0, max as int) =~= s@.take(max as int));
        out.append("...");
        out
    }
}

// ---------------------------------------------------------------------------
// Laws
// ---------------------------------------------------------------------------
/// Two runs of parts are joined one after the other, with one separator between them.
pub proof fn law_joining_in_two_runs(a: Seq<Seq<char>>, b: Seq<Seq<char>>, sep: Seq<char>)
    requires
        a.len() > 0,
        b.len() > 0,
    ensures
        joined(a + b, sep) == joined(a, sep) + sep + joined(b, sep),
        joined(seq![a[0]], sep) == a[0],
    decreases b.len(),
{
    assert((a + b).drop_last() =~= a + b.drop_last());
    assert((a + b).last() == b.last());
    if b.len() == 1 {
        assert(a + b.drop_last() =~= a);
    } else {
        law_joining_in_two_runs(a, b.drop_last(), sep);
        assert(joined(a + b, sep) =~= joined(a, sep) + sep + joined(b, sep));
    }
}

/// The number that decimal digits stand for.
pub open spec fn digits_value(s: Seq<char>) -> int
    decreases s.len(),
{
    if s.len() == 0 {
        0
    } else {
        10 * digits_value(s.drop_last()) + (s.last() as int - '0' as int)
    }
}

/// A number is written with decimal digits that stand for it, and without leading zeros.
pub proof fn law_decimals_stand_for_their_number(n: nat)
    ensures
        decimal(n).len() > 0,
        forall|i: int| 0 <= i < decimal(n).len() ==> '0' <= #[trigger] decimal(n)[i] <= '9',
        digits_value(decimal(n)) == n,
        n > 0 ==> decimal(n)[0] != '0',
        n == 0 ==> decimal(n).len() == 1,
    decreases n,
{
    if n < 10 {
        assert(decimal(n).drop_last() =~= Seq::empty());
        assert(digits_value(decimal(n).drop_last()) == 0);
    } else {
        law_decimals_stand_for_their_number(n / 10);
        assert(decimal(n).drop_last() =~= decimal(n / 10));
        assert(n == 10 * (n / 10) + n % 10);
    }
}

/// A signed number is written like its magnitude, behind a minus sign where it is negative.
pub proof fn law_signs_stand_in_front(n: int)
    requires
        n > 0,
    ensures
        signed_decimal(n) == decimal(n as nat),
        signed_decimal(-n) == "-"@ + decimal(n as nat),
        signed_decimal(0) == decimal(0),
{
}

/// A padded text is the text, followed by spaces up to the width; a text that fills the width is
/// left as it is.
pub proof fn law_padding_adds_spaces(s: Seq<char>, width: nat)
    ensures
        padded(s, width).len() == if s.len() >= width {
            s.len()
        } else {
            width
        },
        padded(s, width).take(s.len() as int) == s,
        forall|i: int|
            s.len() <= i < padded(s, width).len() ==> #[trigger] padded(s, width)[i] == ' ',
{
    assert(padded(s, width).take(s.len() as int) =~= s);
}

/// A text that fits is not cut; a longer one keeps its first characters and ends in an ellipsis.
pub proof fn law_cutting_keeps_the_front(s: Seq<char>, max: nat)
    ensures
        s.len() <= max ==> shortened(s, max) == s,
        s.len() > max ==> shortened(s, max).len() == max + 3 && shortened(s, max).take(max as int)
            == s.take(max as int) && shortened(s, max).skip(max as int) == "..."@,
{
    reveal_strlit("...");
    if s.len() > max {
        assert(shortened(s, max).take(max as int) =~= s.take(max as int));
        assert(shortened(s, max).skip(max as int) =~= "..."@);
    }
}

/// A rule has as many dashes as asked for.
pub proof fn law_repeating(c: char, n: nat)
    ensures
        repeated(c, n as int).len() == n,
        forall|i: int| 0 <= i < n ==> #[trigger] repeated(c, n as int)[i] == c,
{
}

} // verus!
