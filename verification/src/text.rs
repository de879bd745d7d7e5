//! Small pieces of text: numbers in decimal and names padded to a fixed
//! width.
use vstd::prelude::*;
use vstd::string::{StringExecFns, StringSliceAdditionalSpecFns};

verus! {

/// The width to which names are padded.
pub const NAME_WIDTH: usize = 30;

/// The character of the decimal digit `d`.
pub open spec fn digit_char(d: nat) -> char {
    if d == 0 {
        '0'
    } else if d == 1 {
        '1'
    } else if d == 2 {
        '2'
    } else if d == 3 {
        '3'
    } else if d == 4 {
        '4'
    } else if d == 5 {
        '5'
    } else if d == 6 {
        '6'
    } else if d == 7 {
        '7'
    } else if d == 8 {
        '8'
    } else {
        '9'
    }
}

/// The decimal digits of `n`, most significant first, without leading zeros.
pub open spec fn decimal_digits(n: nat) -> Seq<char>
    decreases n,
{
    if n < 10 {
        seq![digit_char(n)]
    } else {
        decimal_digits(n / 10).push(digit_char(n % 10))
    }
}

/// `count` spaces.
pub open spec fn spaces(count: nat) -> Seq<char> {
    Seq::new(count, |i: int| ' ')
}

/// The text of one decimal digit.
fn digit_text(d: usize) -> (text: &'static str)
    requires
        d < 10,
    ensures
        text@ == seq![digit_char(d as nat)],
{
    proof {
        reveal_strlit("0");
        reveal_strlit("1");
        reveal_strlit("2");
        reveal_strlit("3");
        reveal_strlit("4");
        reveal_strlit("5");
        reveal_strlit("6");
        reveal_strlit("7");
        reveal_strlit("8");
        reveal_strlit("9");
    }
    let text = match d {
        0 => "0",
        1 => "1",
        2 => "2",
        3 => "3",
        4 => "4",
        5 => "5",
        6 => "6",
        7 => "7",
        8 => "8",
        _ => "9",
    };
    assert(text@ =~= seq![digit_char(d as nat)]);
    text
}

/// Writes `n` in decimal.
pub fn decimal_text(n: usize) -> (text: String)
    ensures
        text@ == decimal_digits(n as nat),
    decreases n,
{
    if n < 10 {
        String::from_str(digit_text(n))
    } else {
        let mut text = decimal_text(n / 10);
        text.append(digit_text(n % 10));
        assert(text@ =~= decimal_digits(n as nat));
        text
    }
}

/// Pads `s` with spaces on the right until it is `NAME_WIDTH` bytes long; a
/// longer text is returned as it is.
pub fn pad_name(s: &str) -> (res: String)
    ensures
        res@ == s@ + spaces(
            if s.spec_bytes().len() < NAME_WIDTH {
                (NAME_WIDTH - s.spec_bytes().len()) as nat
            } else {
                0
            },
        ),
{
    let mut res = String::from_str(s);
    let len = s.as_bytes().len();
    let missing: usize = if len < NAME_WIDTH {
        NAME_WIDTH - len
    } else {
        0
    };
    let mut added: usize = 0;
    assert(res@ =~= s@ + spaces(0));
    while added < missing
        invariant
            added <= missing,
            res@ == s@ + spaces(added as nat),
        decreases missing - added,
    {
        proof {
            reveal_strlit(" ");
        }
        res.append(" ");
        added += 1;
        assert(res@ =~= s@ + spaces(added as nat));
    }
    res
}

} // verus!
