//! Process ids written in decimal digits.
//!
//! A text stands for a number where it is not empty and holds decimal
//! digits only; leading zeros are allowed, a sign is not.

use vstd::prelude::*;
use vstd::string::*;

verus! {

/// The value of a decimal digit; `None` for any other character.
pub open spec fn digit_value(c: char) -> Option<nat> {
    if '0' <= c && c <= '9' {
        Some((c as nat - '0' as nat) as nat)
    } else {
        None
    }
}

/// The digit that stands for `d`, where `d` is below ten.
pub open spec fn digit_char(d: nat) -> char {
    if d == 0 {
        '0'
    } else if d == 1 {
        '1'
    } else if d == 2 {
        '2'
    } else if d == 3 {
        '3'
    } else if d == 4 {
        '4'
    } else if d == 5 {
        '5'
    } else if d == 6 {
        '6'
    } else if d == 7 {
        '7'
    } else if d == 8 {
        '8'
    } else {
        '9'
    }
}

/// The number that a run of digits stands for, the empty run standing for
/// zero; `None` where a character is no digit.
pub open spec fn digits_value(s: Seq<char>) -> Option<nat>
    decreases s.len(),
{
    if s.len() == 0 {
        Some(0)
    } else {
        match (digits_value(s.drop_last()), digit_value(s.last())) {
            (Some(high), Some(low)) => Some(10 * high + low),
            _ => None,
        }
    }
}

/// The number that a text stands for; `None` where the text is empty or a
/// character is no digit.
pub open spec fn decimal_value(s: Seq<char>) -> Option<nat> {
    if s.len() == 0 {
        None
    } else {
        digits_value(s)
    }
}

/// The process id that a text stands for: its decimal value where it has
/// one that a `usize` can hold, and 0, the unknown process, otherwise.
pub open spec fn pid_from_text(s: Seq<char>) -> usize {
    match decimal_value(s) {
        Some(n) => if n <= usize::MAX {
            n as usize
        } else {
            0
        },
        None => 0,
    }
}

/// The decimal digits of `n`, without leading zeros.
pub open spec fn decimal_digits(n: nat) -> Seq<char>
    decreases n,
{
    if n < 10 {
        seq![digit_char(n)]
    } else {
        decimal_digits(n / 10).push(digit_char(n % 10))
    }
}

/// The value of a run of digits is at least the value of each of its
/// beginnings, and a run has a value only if each beginning has one.
pub proof fn lemma_digits_prefix(s: Seq<char>, k: int)
    requires
        0 <= k <= s.len(),
        digits_value(s) is Some,
    ensures
        digits_value(s.take(k)) is Some,
        digits_value(s.take(k))->0 <= digits_value(s)->0,
    decreases s.len(),
{
    if k == s.len() {
        assert(s.take(k) =~= s);
    } else {
        assert(s.drop_last().take(k) =~= s.take(k));
        lemma_digits_prefix(s.drop_last(), k);
    }
}

/// A text with a character that is no digit stands for no number.
pub proof fn lemma_not_a_digit(s: Seq<char>, i: int)
    requires
        0 <= i < s.len(),
        digit_value(s[i]) is None,
    ensures
        digits_value(s) is None,
        decimal_value(s) is None,
{
    if digits_value(s) is Some {
        lemma_digits_prefix(s, i + 1);
        assert(s.take(i + 1).last() == s[i]);
    }
}

/// Reading the digits of a number gives the number back.
pub proof fn lemma_decimal_round_trip(n: nat)
    ensures
        decimal_digits(n).len() > 0,
        decimal_value(decimal_digits(n)) == Some(n),
    decreases n,
{
    if n < 10 {
        let s = seq![digit_char(n)];
        assert(s.drop_last() =~= Seq::<char>::empty());
        assert(s.last() == digit_char(n));
        assert(digits_value(s.drop_last()) == Some(0nat));
    } else {
        lemma_decimal_round_trip(n / 10);
        let s = decimal_digits(n);
        assert(s.drop_last() =~= decimal_digits(n / 10));
        assert(s.last() == digit_char(n % 10));
    }
}

/// A number is written with at least one character, and with digits only.
pub proof fn lemma_digits_are_digits(n: nat)
    ensures
        decimal_digits(n).len() >= 1,
        forall|k: int|
            0 <= k < decimal_digits(n).len() ==> digit_value(#[trigger] decimal_digits(n)[k])
                is Some,
    decreases n,
{
    if n >= 10 {
        lemma_digits_are_digits(n / 10);
    }
}

/// Reads a process id from a text: `pid_from_text` of it.
pub fn parse_pid(s: &str) -> (pid: usize)
    ensures
        pid == pid_from_text(s@),
{
    if !s.is_ascii() {
        proof {
            let i = choose|i: int| 0 <= i < s@.len() && !('\0' <= #[trigger] s@[i] <= '\u{7f}');
            lemma_not_a_digit(s@, i);
        }
        return 0;
    }
    proof {
        is_ascii_spec_bytes(s);
    }
    let bytes = s.as_bytes();
    let n = bytes.len();
    if n == 0 {
        return 0;
    }
    let mut acc: usize = 0;
    let mut i: usize = 0;
    assert(s@.take(0) =~= Seq::<char>::empty());
    while i < n
        invariant
            i <= n,
            n == s@.len(),
            n == bytes@.len(),
            is_ascii(s),
            forall|k: int| 0 <= k < n ==> bytes@[k] == #[trigger] s@[k] as u8,
            digits_value(s@.take(i as int)) == Some(acc as nat),
        decreases n - i,
    {
        let b = bytes[i];
        let ghost c = s@[i as int];
        assert('\0' <= c <= '\u{7f}');
        assert(s@.take(i as int + 1).drop_last() =~= s@.take(i as int));
        assert(s@.take(i as int + 1).last() == c);
        if b < 48 || b > 57 {
            proof {
                lemma_not_a_digit(s@, i as int);
            }
            return 0;
        }
        let d: usize = (b - 48) as usize;
        assert(digit_value(c) == Some(d as nat));
        if acc > (usize::MAX - d) / 10 {
            proof {
                if digits_value(s@) is Some {
                    lemma_digits_prefix(s@, i as int + 1);
                }
            }
            return 0;
        }
        acc = acc * 10 + d;
        i += 1;
    }
    assert(s@.take(n as int) =~= s@);
    acc
}

/// The text of one digit.
fn digit_str(d: usize) -> (r: &'static str)
    requires
        d < 10,
    ensures
        r@ == seq![digit_char(d as nat)],
{
    proof {
        reveal_strlit("0");
        reveal_strlit("1");
        reveal_strlit("2");
        reveal_strlit("3");
        reveal_strlit("4");
        reveal_strlit("5");
        reveal_strlit("6");
        reveal_strlit("7");
        reveal_strlit("8");
        reveal_strlit("9");
    }
    let r = if d == 0 {
        "0"
    } else if d == 1 {
        "1"
    } else if d == 2 {
        "2"
    } else if d == 3 {
        "3"
    } else if d == 4 {
        "4"
    } else if d == 5 {
        "5"
    } else if d == 6 {
        "6"
    } else if d == 7 {
        "7"
    } else if d == 8 {
        "8"
    } else {
        "9"
    };
    assert(r@ =~= seq![digit_char(d as nat)]);
    r
}

/// Writes a process id in decimal digits, without leading zeros.
pub fn pid_text(pid: usize) -> (r: String)
    ensures
        r@ == decimal_digits(pid as nat),
{
    let mut acc = String::from_str(digit_str(pid % 10));
    let mut rest: usize = pid / 10;
    assert(decimal_digits(pid as nat) =~= (if rest > 0 {
        decimal_digits(rest as nat)
    } else {
        Seq::<char>::empty()
    }) + acc@);
    while rest > 0
        invariant
            decimal_digits(pid as nat) == (if rest > 0 {
                decimal_digits(rest as nat)
            } else {
                Seq::<char>::empty()
            }) + acc@,
        decreases rest,
    {
        let ghost tail = acc@;
        let head = String::from_str(digit_str(rest % 10));
        acc = head.concat(acc.as_str());
        let ghost higher = rest as nat / 10;
        assert(decimal_digits(rest as nat) + tail =~= (if higher > 0 {
            decimal_digits(higher)
        } else {
            Seq::<char>::empty()
        }) + acc@);
        rest = rest / 10;
    }
    assert(Seq::<char>::empty() + acc@ =~= acc@);
    acc
}

} // verus!
