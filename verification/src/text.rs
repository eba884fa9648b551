//! Numbers and lists as text.

use vstd::prelude::*;
use vstd::string::*;

verus! {

/// The character of a decimal digit.
pub open spec fn digit_char(d: int) -> char {
    if d == 0 {
        '0'
    } else if d == 1 {
        '1'
    } else if d == 2 {
        '2'
    } else if d == 3 {
        '3'
    } else if d == 4 {
        '4'
    } else if d == 5 {
        '5'
    } else if d == 6 {
        '6'
    } else if d == 7 {
        '7'
    } else if d == 8 {
        '8'
    } else {
        '9'
    }
}

/// The decimal digits of `n`, without leading zeros.
pub open spec fn digits(n: nat) -> Seq<char>
    decreases n,
{
    if n < 10 {
        seq![digit_char(n as int)]
    } else {
        digits(n / 10).push(digit_char((n % 10) as int))
    }
}

/// `n` in decimal, with a minus sign where it is negative.
pub open spec fn decimal(n: int) -> Seq<char> {
    if n < 0 {
        seq!['-'] + digits((-n) as nat)
    } else {
        digits(n as nat)
    }
}

/// Numbers in decimal, with a comma and a space between them.
pub open spec fn joined(ids: Seq<i32>) -> Seq<char>
    decreases ids.len(),
{
    if ids.len() == 0 {
        Seq::empty()
    } else if ids.len() == 1 {
        decimal(ids[0] as int)
    } else {
        joined(ids.drop_last()) + seq![',', ' '] + decimal(ids.last() as int)
    }
}

/// A list of numbers in square brackets.
pub open spec fn list_text(ids: Seq<i32>) -> Seq<char> {
    seq!['['] + joined(ids) + seq![']']
}

/// Appends a digit.
fn append_digit(s: &mut String, d: u64)
    requires
        d < 10,
    ensures
        final(s)@ == old(s)@.push(digit_char(d as int)),
{
    let text: &str = if d == 0 {
        "0"
    } else if d == 1 {
        "1"
    } else if d == 2 {
        "2"
    } else if d == 3 {
        "3"
    } else if d == 4 {
        "4"
    } else if d == 5 {
        "5"
    } else if d == 6 {
        "6"
    } else if d == 7 {
        "7"
    } else if d == 8 {
        "8"
    } else {
        "9"
    };
    proof {
        reveal_strlit("0");
        reveal_strlit("1");
        reveal_strlit("2");
        reveal_strlit("3");
        reveal_strlit("4");
        reveal_strlit("5");
        reveal_strlit("6");
        reveal_strlit("7");
        reveal_strlit("8");
        reveal_strlit("9");
    }
    let ghost before = s@;
    s.append(text);
    assert(s@ =~= before.push(digit_char(d as int)));
}

/// Appends the decimal digits of `n`.
pub fn append_digits(s: &mut String, n: u64)
    ensures
        final(s)@ == old(s)@ + digits(n as nat),
    decreases n,
{
    let ghost before = s@;
    if n < 10 {
        append_digit(s, n);
        assert(s@ =~= before + digits(n as nat));
    } else {
        append_digits(s, n / 10);
        append_digit(s, n % 10);
        assert(s@ =~= before + digits(n as nat));
    }
}

/// Appends `n` in decimal.
pub fn append_decimal(s: &mut String, n: i64)
    ensures
        final(s)@ == old(s)@ + decimal(n as int),
{
    let ghost before = s@;
    if n < 0 {
        proof {
            reveal_strlit("-");
        }
        s.append("-");
        let magnitude: u64 = (-(n as i128)) as u64;
        append_digits(s, magnitude);
        assert(s@ =~= before + decimal(n as int));
    } else {
        append_digits(s, n as u64);
    }
}

/// Appends a list of numbers in square brackets.
pub fn append_list(s: &mut String, ids: &Vec<i32>)
    ensures
        final(s)@ == old(s)@ + list_text(ids@),
{
    let ghost before = s@;
    proof {
        reveal_strlit("[");
        reveal_strlit("]");
        reveal_strlit(", ");
    }
    s.append("[");
    let mut i: usize = 0;
    assert(s@ =~= before + seq!['['] + joined(ids@.take(0)));
    while i < ids.len()
        invariant
            i <= ids@.len(),
            s@ == before + seq!['['] + joined(ids@.take(i as int)),
        decreases ids@.len() - i,
    {
        let ghost done = ids@.take(i as int);
        let ghost next = ids@.take(i + 1);
        assert(next.drop_last() =~= done);
        assert(next.last() == ids@[i as int]);
        if i > 0 {
            proof {
                reveal_strlit(", ");
            }
            s.append(", ");
        }
        append_decimal(s, ids[i] as i64);
        i += 1;
        assert(s@ =~= before + seq!['['] + joined(next));
    }
    assert(ids@.take(i as int) =~= ids@);
    s.append("]");
    assert(s@ =~= before + list_text(ids@));
}

/// The character of a hexadecimal digit.
pub open spec fn hex_char(d: int) -> char {
    if d < 10 {
        digit_char(d)
    } else if d == 10 {
        'a'
    } else if d == 11 {
        'b'
    } else if d == 12 {
        'c'
    } else if d == 13 {
        'd'
    } else if d == 14 {
        'e'
    } else {
        'f'
    }
}

/// The lowest `width` hexadecimal digits of `n`, with leading zeros.
pub open spec fn hex_text(n: nat, width: nat) -> Seq<char>
    decreases width,
{
    if width == 0 {
        Seq::empty()
    } else {
        hex_text(n / 16, (width - 1) as nat).push(hex_char((n % 16) as int))
    }
}

/// Appends the lowest `width` hexadecimal digits of `n`.
pub fn append_hex(s: &mut String, n: u64, width: u32)
    ensures
        final(s)@ == old(s)@ + hex_text(n as nat, width as nat),
    decreases width,
{
    let ghost before = s@;
    if width > 0 {
        append_hex(s, n / 16, width - 1);
        let d: u64 = n % 16;
        if d < 10 {
            append_digit(s, d);
        } else {
            let text: &str = if d == 10 {
                "a"
            } else if d == 11 {
                "b"
            } else if d == 12 {
                "c"
            } else if d == 13 {
                "d"
            } else if d == 14 {
                "e"
            } else {
                "f"
            };
            proof {
                reveal_strlit("a");
                reveal_strlit("b");
                reveal_strlit("c");
                reveal_strlit("d");
                reveal_strlit("e");
                reveal_strlit("f");
            }
            s.append(text);
        }
        assert(s@ =~= before + hex_text(n as nat, width as nat));
    } else {
        assert(s@ =~= before + hex_text(n as nat, 0));
    }
}

/// The number that digits of a base tell, the highest first.
pub open spec fn number_told(s: Seq<char>, base: int) -> int
    decreases s.len(),
{
    if s.len() == 0 {
        0
    } else {
        base * number_told(s.drop_last(), base) + digit_told(s.last())
    }
}

/// The digit that a character tells: the ten digits, followed by letters.
pub open spec fn digit_told(c: char) -> int {
    if c as int >= 97 {
        c as int - 87
    } else {
        c as int - 48
    }
}

/// Text tells the number that was written: reading its digits gives it back, there is no needless
/// 0 in front, and a negative number has a sign before the digits of the number without it.
pub proof fn law_decimal_round_trip(n: nat)
    ensures
        number_told(decimal(n as int), 10) == n,
        n > 0 ==> decimal(n as int)[0] != '0',
        decimal(n as int).len() > 0,
        n > 0 ==> decimal(-n) == seq!['-'] + decimal(n as int),
        forall|i: int|
            0 <= i < decimal(n as int).len() ==> 48 <= #[trigger] decimal(n as int)[i] as int
                <= 57,
    decreases n,
{
    let s = digits(n);
    if n < 10 {
        assert(s.drop_last() =~= Seq::empty());
        reveal_with_fuel(number_told, 2);
    } else {
        law_decimal_round_trip(n / 10);
        assert(s.drop_last() =~= digits(n / 10));
        assert(digits(n / 10) == decimal((n / 10) as int));
        assert forall|i: int| 0 <= i < s.len() implies 48 <= #[trigger] s[i] as int <= 57 by {
            if i < s.len() - 1 {
                assert(s[i] == digits(n / 10)[i]);
            }
        }
    }
}

/// Sixteen to the power of `k`.
pub open spec fn sixteens(k: nat) -> int
    decreases k,
{
    if k == 0 {
        1
    } else {
        16 * sixteens((k - 1) as nat)
    }
}

/// A number in so many digits of base 16 is told by them where it needs no more.
pub proof fn law_hex_round_trip(n: nat, width: nat)
    requires
        n < sixteens(width),
    ensures
        hex_text(n, width).len() == width,
        number_told(hex_text(n, width), 16) == n,
    decreases width,
{
    if width > 0 {
        let w = (width - 1) as nat;
        law_hex_round_trip(n / 16, w);
        assert(hex_text(n, width).drop_last() =~= hex_text(n / 16, w));
    }
}

/// A list is written in brackets, with a comma and a space between its numbers.
pub proof fn law_list_text(ids: Seq<i32>, last: i32)
    ensures
        list_text(Seq::empty()) == seq!['[', ']'],
        list_text(seq![last]) == seq!['['] + decimal(last as int) + seq![']'],
        ids.len() > 0 ==> list_text(ids.push(last)) == list_text(ids).drop_last() + seq![',', ' ']
            + decimal(last as int) + seq![']'],
{
    assert(list_text(Seq::empty()) =~= seq!['[', ']']);
    if ids.len() > 0 {
        assert(ids.push(last).drop_last() =~= ids);
        assert(list_text(ids.push(last)) =~= list_text(ids).drop_last() + seq![',', ' '] + decimal(
            last as int,
        ) + seq![']']);
    }
}

} // verus!
