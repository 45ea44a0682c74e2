//! Port numbers in decimal.

use vstd::prelude::*;

use crate::text;

verus! {

/// The decimal digit of a number below ten.
pub open spec fn digit(n: nat) -> char {
    ('0' as nat + n) as char
}

/// The decimal digits of a number, without leading zeros.
pub open spec fn digits(n: nat) -> Seq<char>
    decreases n,
{
    if n < 10 {
        seq![digit(n)]
    } else {
        digits(n / 10).push(digit(n % 10))
    }
}

/// Whether a character is a decimal digit.
pub open spec fn is_digit(c: char) -> bool {
    '0' <= c && c <= '9'
}

/// The number that digits stand for.
pub open spec fn value_of(s: Seq<char>) -> int
    decreases s.len(),
{
    if s.len() == 0 {
        0
    } else {
        value_of(s.drop_last()) * 10 + (s.last() as int - '0' as int)
    }
}

/// Why a text is no port number.
#[derive(Clone, Copy, Debug, PartialEq, Eq, Structural)]
pub enum PortError {
    /// It is empty.
    Empty,
    /// It holds something that is not a digit, or a sign alone.
    InvalidDigit,
    /// The number is too large for a port.
    TooLarge,
}

/// What the digits `s` come to as a port number: read from the left, up to the first character
/// that is not a digit or that takes the number beyond the largest port.
pub open spec fn read_digits(s: Seq<char>) -> Result<u16, PortError>
    decreases s.len(),
{
    if s.len() == 0 {
        Ok(0u16)
    } else {
        match read_digits(s.drop_last()) {
            Err(error) => Err(error),
            Ok(front) => {
                let number = front * 10 + (s.last() as int - '0' as int);
                if !is_digit(s.last()) {
                    Err(PortError::InvalidDigit)
                } else if number > u16::MAX {
                    Err(PortError::TooLarge)
                } else {
                    Ok(number as u16)
                }
            },
        }
    }
}

/// What a text comes to as a port number: digits, with or without a plus sign in front.
pub open spec fn port_of(s: Seq<char>) -> Result<u16, PortError> {
    if s.len() == 0 {
        Err(PortError::Empty)
    } else if s.len() > 1 && s[0] == '+' {
        read_digits(s.skip(1))
    } else {
        read_digits(s)
    }
}

/// The number in decimal.
pub fn write_port(n: u16) -> (res: String)
    ensures
        res@ == digits(n as nat),
    decreases n,
{
    let all = "0123456789";
    proof {
        reveal_strlit("0123456789");
    }
    let last = (n % 10) as usize;
    let unit = all.substring_char(last, last + 1);
    assert(unit@ =~= seq![digit((n % 10) as nat)]);
    if n < 10 {
        unit.to_owned()
    } else {
        let front = write_port(n / 10);
        let res = front.concat(unit);
        assert(res@ =~= digits(n as nat));
        res
    }
}

/// The port number that a text stands for.
pub fn read_port(s: &str) -> (port: Result<u16, PortError>)
    ensures
        port == port_of(s@),
{
    let chars = text::chars_of(s);
    if chars.len() == 0 {
        return Err(PortError::Empty);
    }
    let start: usize = if chars.len() > 1 && chars[0] == '+' {
        1
    } else {
        0
    };
    let ghost body = s@.skip(start as int);
    assert(s@.skip(0) =~= s@);
    assert(body.take(0) =~= Seq::<char>::empty());
    assert(port_of(s@) == read_digits(body));
    let mut number: u16 = 0;
    let mut i: usize = start;
    while i < chars.len()
        invariant
            start <= i <= chars.len(),
            chars@ == s@,
            body == s@.skip(start as int),
            port_of(s@) == read_digits(body),
            read_digits(body.take(i - start)) == Ok::<u16, PortError>(number),
        decreases chars.len() - i,
    {
        let c = chars[i];
        let ghost done = body.take(i - start + 1);
        proof {
            assert(done.drop_last() =~= body.take(i - start));
            assert(done.last() == c);
        }
        if !('0' <= c && c <= '9') {
            proof {
                lemma_error_stays(body, i - start + 1);
            }
            return Err(PortError::InvalidDigit);
        }
        let next: u32 = number as u32 * 10 + (c as u32 - '0' as u32);
        if next > 65535 {
            proof {
                lemma_error_stays(body, i - start + 1);
            }
            return Err(PortError::TooLarge);
        }
        number = next as u16;
        i += 1;
    }
    assert(body.take(i - start) =~= body);
    Ok(number)
}

/// Characters that follow do not mend what was wrong before them.
proof fn lemma_error_stays(s: Seq<char>, n: int)
    requires
        0 <= n <= s.len(),
        read_digits(s.take(n)) is Err,
    ensures
        read_digits(s) == read_digits(s.take(n)),
    decreases s.len(),
{
    if n < s.len() {
        assert(s.drop_last().take(n) =~= s.take(n));
        lemma_error_stays(s.drop_last(), n);
    } else {
        assert(s.take(n) =~= s);
    }
}

/// The digits of a number are digits, and at least one; they stand for that number.
pub proof fn lemma_digits(n: nat)
    ensures
        digits(n).len() > 0,
        forall|i: int| 0 <= i < digits(n).len() ==> is_digit(#[trigger] digits(n)[i]),
        value_of(digits(n)) == n,
    decreases n,
{
    if n < 10 {
        assert(digits(n).drop_last() =~= Seq::<char>::empty());
        assert(value_of(digits(n).drop_last()) == 0);
    } else {
        lemma_digits(n / 10);
        assert(digits(n).drop_last() =~= digits(n / 10));
    }
}

/// The value of digits is no less than that of the digits without the last one.
proof fn lemma_value_grows(s: Seq<char>)
    requires
        forall|i: int| 0 <= i < s.len() ==> is_digit(#[trigger] s[i]),
    ensures
        0 <= value_of(s),
        s.len() > 0 ==> value_of(s.drop_last()) <= value_of(s),
    decreases s.len(),
{
    if s.len() > 0 {
        assert forall|i: int| 0 <= i < s.len() - 1 implies is_digit(
            #[trigger] s.drop_last()[i],
        ) by {
            assert(s.drop_last()[i] == s[i]);
        }
        lemma_value_grows(s.drop_last());
        assert(is_digit(s[s.len() - 1]));
    }
}

/// Digits are a port number if and only if there is nothing else among them and their value is
/// none above the largest port; the port is then that value.
pub proof fn law_read_digits(s: Seq<char>)
    ensures
        read_digits(s) is Ok <==> (forall|i: int| 0 <= i < s.len() ==> is_digit(#[trigger] s[i]))
            && value_of(s) <= u16::MAX,
        read_digits(s) matches Ok(port) ==> port == value_of(s),
    decreases s.len(),
{
    if s.len() > 0 {
        law_read_digits(s.drop_last());
        if forall|i: int| 0 <= i < s.len() ==> is_digit(#[trigger] s[i]) {
            lemma_value_grows(s);
            assert forall|i: int| 0 <= i < s.len() - 1 implies is_digit(
                #[trigger] s.drop_last()[i],
            ) by {
                assert(s.drop_last()[i] == s[i]);
            }
            assert(is_digit(s[s.len() - 1]));
        }
        if read_digits(s) is Ok {
            assert forall|i: int| 0 <= i < s.len() implies is_digit(#[trigger] s[i]) by {
                if i < s.len() - 1 {
                    assert(is_digit(s.drop_last()[i]));
                }
            }
        }
    }
}

/// The decimal digits of a number are written from the highest to the lowest, each one as the
/// character for it, and no more of them than the number has.
pub proof fn law_digits(n: nat)
    ensures
        digits(n).last() as int == 48 + n % 10,
        n < 10 ==> digits(n).len() == 1,
        n >= 10 ==> digits(n).drop_last() == digits(n / 10),
        n > 0 ==> digits(n)[0] != '0',
    decreases n,
{
    if n >= 10 {
        law_digits(n / 10);
        lemma_digits(n / 10);
        assert(digits(n).drop_last() =~= digits(n / 10));
        assert(digits(n)[0] == digits(n / 10)[0]);
    }
}

/// Two numbers with the same digits are the same number.
pub proof fn law_digits_tell_apart(m: nat, n: nat)
    requires
        digits(m) == digits(n),
    ensures
        m == n,
{
    lemma_digits(m);
    lemma_digits(n);
}

/// The value of digits: each one that follows counts the ones before it ten times.
pub proof fn law_value(s: Seq<char>, c: char)
    ensures
        value_of(Seq::empty()) == 0,
        value_of(s.push(c)) == 10 * value_of(s) + (c as int - 48),
{
    assert(s.push(c).drop_last() =~= s);
}

/// A text is a port number with a plus sign in front if and only if it is one without it. An empty
/// text is none, nor is a sign alone.
pub proof fn law_plus_sign(s: Seq<char>)
    ensures
        port_of(Seq::empty()) == Err::<u16, PortError>(PortError::Empty),
        port_of(seq!['+']) == Err::<u16, PortError>(PortError::InvalidDigit),
        s.len() > 0 && s[0] != '+' ==> port_of(seq!['+'] + s) == port_of(s),
        s.len() > 0 && s[0] != '+' ==> port_of(s) == read_digits(s),
{
    reveal_with_fuel(read_digits, 2);
    assert((seq!['+'] + s).skip(1) =~= s);
    assert(seq!['+'].drop_last() =~= Seq::<char>::empty());
}

/// Digits are too large for a port if and only if those up to some place are digits alone and
/// their value is beyond the largest port; whatever else is wrong is a character that is no digit.
pub proof fn law_why_no_port(s: Seq<char>)
    ensures
        read_digits(s) == Err::<u16, PortError>(PortError::TooLarge) <==> exists|n: int|
            0 <= n <= s.len() && value_of(#[trigger] s.take(n)) > 65535 && forall|i: int|
                0 <= i < n ==> is_digit(#[trigger] s[i]),
        read_digits(s) != Err::<u16, PortError>(PortError::Empty),
    decreases s.len(),
{
    if s.len() > 0 {
        let front = s.drop_last();
        law_why_no_port(front);
        law_read_digits(front);
        law_read_digits(s);
        if read_digits(front) == Err::<u16, PortError>(PortError::TooLarge) {
            let n = choose|n: int|
                0 <= n <= front.len() && value_of(#[trigger] front.take(n)) > 65535 && forall|
                    i: int,
                |
                    0 <= i < n ==> is_digit(#[trigger] front[i]);
            assert(s.take(n) =~= front.take(n));
            assert forall|i: int| 0 <= i < n implies is_digit(#[trigger] s[i]) by {
                assert(is_digit(front[i]));
            }
        } else if read_digits(s) == Err::<u16, PortError>(PortError::TooLarge) {
            assert(s.take(s.len() as int) =~= s);
            assert forall|i: int| 0 <= i < s.len() implies is_digit(#[trigger] s[i]) by {
                if i < front.len() {
                    assert(is_digit(front[i]));
                }
            }
            assert(value_of(s) > 65535);
            assert(value_of(s.take(s.len() as int)) > 65535);
        }
        if exists|n: int|
            0 <= n <= s.len() && value_of(#[trigger] s.take(n)) > 65535 && forall|i: int|
                0 <= i < n ==> is_digit(#[trigger] s[i]) {
            let n = choose|n: int|
                0 <= n <= s.len() && value_of(#[trigger] s.take(n)) > 65535 && forall|i: int|
                    0 <= i < n ==> is_digit(#[trigger] s[i]);
            if n < s.len() {
                assert(front.take(n) =~= s.take(n));
                assert forall|i: int| 0 <= i < n implies is_digit(#[trigger] front[i]) by {
                    assert(is_digit(s[i]));
                }
            } else {
                assert(s.take(n) =~= s);
                assert(is_digit(s[s.len() - 1]));
                if read_digits(front) is Err {
                    assert(front.take(front.len() as int) =~= front);
                    assert forall|i: int| 0 <= i < front.len() implies is_digit(
                        #[trigger] front[i],
                    ) by {
                        assert(is_digit(s[i]));
                    }
                    assert(value_of(front.take(front.len() as int)) > 65535);
                }
            }
        }
    } else {
        assert forall|n: int| 0 <= n <= s.len() implies value_of(#[trigger] s.take(n)) == 0 by {
            assert(s.take(n) =~= Seq::<char>::empty());
        }
    }
}

/// A port in decimal reads as that port.
pub proof fn law_written_port_is_read(port: u16)
    ensures
        port_of(digits(port as nat)) == Ok::<u16, PortError>(port),
{
    let s = digits(port as nat);
    lemma_digits(port as nat);
    law_read_digits(s);
    assert(is_digit(s[0]));
}

} // verus!
