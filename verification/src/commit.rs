//! Commit hashes of twenty bytes, written as forty lower-case hexadecimal digits.

use vstd::prelude::*;
use vstd::string::*;
use crate::decimal::{digit, digit_of};
use crate::ident::TextId;

verus! {

/// The character of a hexadecimal digit.
pub open spec fn hex(d: nat) -> char {
    if d < 10 {
        digit(d)
    } else if d == 10 {
        'a'
    } else if d == 11 {
        'b'
    } else if d == 12 {
        'c'
    } else if d == 13 {
        'd'
    } else if d == 14 {
        'e'
    } else {
        'f'
    }
}

/// The hexadecimal digit that a character stands for, if it is one.
pub open spec fn hex_of(c: char) -> Option<nat> {
    if digit_of(c) is Some {
        digit_of(c)
    } else if c == 'a' {
        Some(10)
    } else if c == 'b' {
        Some(11)
    } else if c == 'c' {
        Some(12)
    } else if c == 'd' {
        Some(13)
    } else if c == 'e' {
        Some(14)
    } else if c == 'f' {
        Some(15)
    } else {
        None
    }
}

/// Bytes in hexadecimal, two digits each, the high one first.
pub open spec fn hex_text(bytes: Seq<u8>) -> Seq<char> {
    Seq::new(
        2 * bytes.len(),
        |i: int|
            if i % 2 == 0 {
                hex((bytes[i / 2] / 16) as nat)
            } else {
                hex((bytes[i / 2] % 16) as nat)
            },
    )
}

/// The text holds hexadecimal digits only, and an even number of them.
pub open spec fn is_hex(text: Seq<char>) -> bool {
    &&& text.len() % 2 == 0
    &&& forall|i: int| 0 <= i < text.len() ==> hex_of(#[trigger] text[i]) is Some
}

/// The bytes that a hexadecimal text stands for.
pub open spec fn hex_bytes(text: Seq<char>) -> Option<Seq<u8>> {
    if is_hex(text) {
        Some(
            Seq::new(
                text.len() / 2,
                |i: int| (16 * hex_of(text[2 * i])->0 + hex_of(text[2 * i + 1])->0) as u8,
            ),
        )
    } else {
        None
    }
}

/// Reading the hexadecimal text of bytes gives the bytes.
pub proof fn bytes_of_hex_text(bytes: Seq<u8>)
    ensures
        hex_bytes(hex_text(bytes)) == Some(bytes),
{
    let text = hex_text(bytes);
    assert forall|i: int| 0 <= i < text.len() implies hex_of(#[trigger] text[i]) is Some by {
        let b = bytes[i / 2];
        assert(0 <= b / 16 < 16 && 0 <= b % 16 < 16);
    }
    assert(is_hex(text));
    let back = hex_bytes(text)->0;
    assert forall|k: int| 0 <= k < bytes.len() implies back[k] == bytes[k] by {
        let b = bytes[k];
        assert((2 * k) / 2 == k && (2 * k + 1) / 2 == k);
        assert((2 * k) % 2 == 0 && (2 * k + 1) % 2 == 1);
        assert(hex_of(hex((b / 16) as nat)) == Some((b / 16) as nat));
        assert(hex_of(hex((b % 16) as nat)) == Some((b % 16) as nat));
        assert(text[2 * k] == hex((b / 16) as nat));
        assert(text[2 * k + 1] == hex((b % 16) as nat));
    }
    assert(back =~= bytes);
}

/// The array that holds the given twenty bytes.
pub open spec fn array_of(bytes: Seq<u8>) -> [u8; 20] {
    choose|a: [u8; 20]| a@ == bytes
}

/// An array is the array that holds its bytes.
proof fn lemma_array_of(a: [u8; 20])
    ensures
        array_of(a@) == a,
{
    let chosen = array_of(a@);
    assert(chosen@ == a@);
    assert(chosen =~= a);
}

/// A commit, by its hash.
#[derive(Clone, Copy, Debug, PartialEq, Eq, Hash)]
pub struct CommitHash(pub [u8; 20]);

fn hex_digit_text(d: u8) -> (s: &'static str)
    requires
        d < 16,
    ensures
        s@ == seq![hex(d as nat)],
{
    proof {
        reveal_strlit("0");
        reveal_strlit("1");
        reveal_strlit("2");
        reveal_strlit("3");
        reveal_strlit("4");
        reveal_strlit("5");
        reveal_strlit("6");
        reveal_strlit("7");
        reveal_strlit("8");
        reveal_strlit("9");
        reveal_strlit("a");
        reveal_strlit("b");
        reveal_strlit("c");
        reveal_strlit("d");
        reveal_strlit("e");
        reveal_strlit("f");
    }
    let s = if d == 0 {
        "0"
    } else if d == 1 {
        "1"
    } else if d == 2 {
        "2"
    } else if d == 3 {
        "3"
    } else if d == 4 {
        "4"
    } else if d == 5 {
        "5"
    } else if d == 6 {
        "6"
    } else if d == 7 {
        "7"
    } else if d == 8 {
        "8"
    } else if d == 9 {
        "9"
    } else if d == 10 {
        "a"
    } else if d == 11 {
        "b"
    } else if d == 12 {
        "c"
    } else if d == 13 {
        "d"
    } else if d == 14 {
        "e"
    } else {
        "f"
    };
    assert(s@ =~= seq![hex(d as nat)]);
    s
}

fn hex_digit_value(c: char) -> (d: Option<u8>)
    ensures
        match d {
            Some(d) => hex_of(c) == Some(d as nat) && d < 16,
            None => hex_of(c) is None,
        },
{
    if c == '0' {
        Some(0)
    } else if c == '1' {
        Some(1)
    } else if c == '2' {
        Some(2)
    } else if c == '3' {
        Some(3)
    } else if c == '4' {
        Some(4)
    } else if c == '5' {
        Some(5)
    } else if c == '6' {
        Some(6)
    } else if c == '7' {
        Some(7)
    } else if c == '8' {
        Some(8)
    } else if c == '9' {
        Some(9)
    } else if c == 'a' {
        Some(10)
    } else if c == 'b' {
        Some(11)
    } else if c == 'c' {
        Some(12)
    } else if c == 'd' {
        Some(13)
    } else if c == 'e' {
        Some(14)
    } else if c == 'f' {
        Some(15)
    } else {
        None
    }
}

impl TextId for CommitHash {
    open spec fn text(&self) -> Seq<char> {
        hex_text(self.0@)
    }

    open spec fn parse(text: Seq<char>) -> Option<CommitHash> {
        match hex_bytes(text) {
            Some(bytes) => if bytes.len() == 20 {
                Some(CommitHash(array_of(bytes)))
            } else {
                None
            },
            None => None,
        }
    }

    proof fn round_trip(&self) {
        bytes_of_hex_text(self.0@);
        lemma_array_of(self.0);
    }

    fn encode(&self) -> (s: String) {
        let mut s = String::new();
        let mut i: usize = 0;
        proof {
            assert(s@ =~= hex_text(self.0@.take(0)));
        }
        while i < 20
            invariant
                0 <= i <= 20,
                s@ == hex_text(self.0@.take(i as int)),
            decreases 20 - i,
        {
            let b = self.0[i];
            let ghost before = s@;
            s.append(hex_digit_text(b / 16));
            s.append(hex_digit_text(b % 16));
            proof {
                let wider = hex_text(self.0@.take(i as int + 1));
                assert(s@ == before + seq![hex((b / 16) as nat)] + seq![hex((b % 16) as nat)]);
                assert(s@.len() == wider.len());
                assert forall|j: int| 0 <= j < wider.len() implies s@[j] == wider[j] by {
                    if j < 2 * i {
                        assert(s@[j] == before[j]);
                        assert(self.0@.take(i as int)[j / 2] == self.0@.take(i as int + 1)[j / 2]);
                    }
                }
                assert(s@ =~= wider);
            }
            i += 1;
        }
        proof {
            assert(self.0@.take(20) =~= self.0@);
        }
        s
    }

    fn decode(text: &str) -> (id: Option<CommitHash>) {
        if text.unicode_len() != 40 {
            return None;
        }
        let mut out: [u8; 20] = [0u8;20];
        let mut i: usize = 0;
        while i < 20
            invariant
                0 <= i <= 20,
                text@.len() == 40,
                forall|j: int| 0 <= j < 2 * i ==> hex_of(#[trigger] text@[j]) is Some,
                forall|k: int|
                    0 <= k < i ==> #[trigger] out@[k] == (16 * hex_of(text@[2 * k])->0 + hex_of(
                        text@[2 * k + 1],
                    )->0) as u8,
            decreases 20 - i,
        {
            let high = match hex_digit_value(text.get_char(2 * i)) {
                Some(d) => d,
                None => {
                    return None;
                },
            };
            let low = match hex_digit_value(text.get_char(2 * i + 1)) {
                Some(d) => d,
                None => {
                    return None;
                },
            };
            out[i] = 16 * high + low;
            i += 1;
        }
        proof {
            assert(is_hex(text@));
            assert(out@ =~= hex_bytes(text@)->0);
            lemma_array_of(out);
        }
        Some(CommitHash(out))
    }
}

} // verus!
