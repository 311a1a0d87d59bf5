//! Pull-request numbers, written in decimal.

use vstd::prelude::*;
use vstd::string::*;
use crate::ident::TextId;

verus! {

/// The character of a decimal digit.
pub open spec fn digit(d: nat) -> char {
    if d == 0 {
        '0'
    } else if d == 1 {
        '1'
    } else if d == 2 {
        '2'
    } else if d == 3 {
        '3'
    } else if d == 4 {
        '4'
    } else if d == 5 {
        '5'
    } else if d == 6 {
        '6'
    } else if d == 7 {
        '7'
    } else if d == 8 {
        '8'
    } else {
        '9'
    }
}

/// The digit that a character stands for, if it is one.
pub open spec fn digit_of(c: char) -> Option<nat> {
    if c == '0' {
        Some(0)
    } else if c == '1' {
        Some(1)
    } else if c == '2' {
        Some(2)
    } else if c == '3' {
        Some(3)
    } else if c == '4' {
        Some(4)
    } else if c == '5' {
        Some(5)
    } else if c == '6' {
        Some(6)
    } else if c == '7' {
        Some(7)
    } else if c == '8' {
        Some(8)
    } else if c == '9' {
        Some(9)
    } else {
        None
    }
}

/// A number in decimal, without leading zeros.
pub open spec fn decimal(n: nat) -> Seq<char>
    decreases n,
{
    if n < 10 {
        seq![digit(n)]
    } else {
        decimal(n / 10).push(digit(n % 10))
    }
}

/// The number that a text of decimal digits stands for. The empty text and
/// a text with any other character stand for none.
pub open spec fn number(text: Seq<char>) -> Option<nat>
    decreases text.len(),
{
    if text.len() == 0 {
        None
    } else {
        match digit_of(text.last()) {
            None => None,
            Some(d) => if text.len() == 1 {
                Some(d)
            } else {
                match number(text.drop_last()) {
                    Some(high) => Some(10 * high + d),
                    None => None,
                }
            },
        }
    }
}

/// Reading the decimal text of a number gives the number.
pub proof fn number_of_decimal(n: nat)
    ensures
        decimal(n).len() >= 1,
        number(decimal(n)) == Some(n),
    decreases n,
{
    if n >= 10 {
        number_of_decimal(n / 10);
        assert(decimal(n).drop_last() =~= decimal(n / 10));
    }
}

/// A text that stands for a number holds digits only, and each of its
/// prefixes stands for a number that is no larger.
proof fn lemma_prefix(text: Seq<char>, i: int)
    requires
        1 <= i <= text.len(),
        number(text) is Some,
    ensures
        digit_of(text[i - 1]) is Some,
        number(text.take(i)) is Some,
        number(text.take(i))->0 <= number(text)->0,
    decreases text.len(),
{
    if i == text.len() {
        assert(text.take(i) =~= text);
    } else {
        assert(text.drop_last().take(i) =~= text.take(i));
        lemma_prefix(text.drop_last(), i);
    }
}

/// A pull request, by its number.
#[derive(Clone, Copy, Debug, PartialEq, Eq, Hash, Structural)]
pub struct PrNumber(pub u32);

fn digit_text(d: u32) -> (s: &'static str)
    requires
        d < 10,
    ensures
        s@ == seq![digit(d as nat)],
{
    proof {
        reveal_strlit("0");
        reveal_strlit("1");
        reveal_strlit("2");
        reveal_strlit("3");
        reveal_strlit("4");
        reveal_strlit("5");
        reveal_strlit("6");
        reveal_strlit("7");
        reveal_strlit("8");
        reveal_strlit("9");
    }
    let s = if d == 0 {
        "0"
    } else if d == 1 {
        "1"
    } else if d == 2 {
        "2"
    } else if d == 3 {
        "3"
    } else if d == 4 {
        "4"
    } else if d == 5 {
        "5"
    } else if d == 6 {
        "6"
    } else if d == 7 {
        "7"
    } else if d == 8 {
        "8"
    } else {
        "9"
    };
    assert(s@ =~= seq![digit(d as nat)]);
    s
}

fn digit_value(c: char) -> (d: Option<u32>)
    ensures
        match d {
            Some(d) => digit_of(c) == Some(d as nat),
            None => digit_of(c) is None,
        },
{
    if c == '0' {
        Some(0)
    } else if c == '1' {
        Some(1)
    } else if c == '2' {
        Some(2)
    } else if c == '3' {
        Some(3)
    } else if c == '4' {
        Some(4)
    } else if c == '5' {
        Some(5)
    } else if c == '6' {
        Some(6)
    } else if c == '7' {
        Some(7)
    } else if c == '8' {
        Some(8)
    } else if c == '9' {
        Some(9)
    } else {
        None
    }
}

fn write_decimal(n: u32, out: &mut String)
    ensures
        final(out)@ == old(out)@ + decimal(n as nat),
    decreases n,
{
    if n >= 10 {
        write_decimal(n / 10, out);
    }
    out.append(digit_text(n % 10));
    proof {
        if n >= 10 {
            assert(out@ =~= old(out)@ + decimal((n / 10) as nat).push(digit((n % 10) as nat)));
        }
    }
}

impl PrNumber {
    /// The pull request that a text of decimal digits names, if the number fits.
    pub open spec fn of_text(text: Seq<char>) -> Option<PrNumber> {
        match number(text) {
            Some(n) => if n <= u32::MAX {
                Some(PrNumber(n as u32))
            } else {
                None
            },
            None => None,
        }
    }
}

impl TextId for PrNumber {
    open spec fn text(&self) -> Seq<char> {
        decimal(self.0 as nat)
    }

    open spec fn parse(text: Seq<char>) -> Option<PrNumber> {
        PrNumber::of_text(text)
    }

    proof fn round_trip(&self) {
        number_of_decimal(self.0 as nat);
    }

    fn encode(&self) -> (s: String) {
        let mut s = String::new();
        write_decimal(self.0, &mut s);
        proof {
            assert(s@ =~= decimal(self.0 as nat));
        }
        s
    }

    fn decode(text: &str) -> (id: Option<PrNumber>) {
        let n = text.unicode_len();
        let mut acc: u32 = 0;
        let mut i: usize = 0;
        while i < n
            invariant
                0 <= i <= n,
                n == text@.len(),
                i == 0 ==> acc == 0,
                i > 0 ==> number(text@.take(i as int)) == Some(acc as nat),
            decreases n - i,
        {
            let c = text.get_char(i);
            let ghost prefix = text@.take(i as int + 1);
            proof {
                assert(prefix.drop_last() =~= text@.take(i as int));
                assert(prefix.last() == c);
                if number(text@) is Some {
                    lemma_prefix(text@, i as int + 1);
                }
            }
            let d = match digit_value(c) {
                Some(d) => d,
                None => {
                    return None;
                },
            };
            let next: u64 = acc as u64 * 10 + d as u64;
            assert(number(prefix) == Some(next as nat));
            if next > 0xffff_ffff {
                return None;
            }
            acc = next as u32;
            i += 1;
        }
        if n == 0 {
            return None;
        }
        proof {
            assert(text@.take(n as int) =~= text@);
        }
        Some(PrNumber(acc))
    }
}

} // verus!
