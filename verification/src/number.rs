//! Decimal numbers in text.
use crate::text;
use crate::text::chars;
use vstd::prelude::*;

verus! {

/// The decimal digit with value `d`.
pub open spec fn digit(d: nat) -> char {
    (48 + d) as char
}

/// The decimal representation of `n`, without leading zeros.
pub open spec fn decimal(n: nat) -> Seq<char>
    decreases n,
{
    if n < 10 {
        seq![digit(n)]
    } else {
        decimal(n / 10).push(digit(n % 10))
    }
}

/// `s` with `fill` put in front until it is at least `width` characters long.
pub open spec fn pad_left(s: Seq<char>, width: nat, fill: char) -> Seq<char> {
    if s.len() >= width {
        s
    } else {
        Seq::new((width - s.len()) as nat, |i: int| fill) + s
    }
}

/// The decimal representation of `n`.
pub fn to_decimal(n: u32) -> (r: String)
    ensures
        r@ == decimal(n as nat),
    decreases n,
{
    let c = (48u8 + (n % 10) as u8) as char;
    if n < 10 {
        let mut r = String::new();
        r.push(c);
        assert(r@ == seq![digit(n as nat)]);
        r
    } else {
        let mut r = to_decimal(n / 10);
        r.push(c);
        r
    }
}

/// `s` with `fill` put in front until it is at least `width` characters long.
pub fn to_padded(s: &str, width: usize, fill: char) -> (r: String)
    ensures
        r@ == pad_left(s@, width as nat, fill),
{
    let v = chars(s);
    let mut r = String::new();
    let mut n: usize = v.len();
    while n < width
        invariant
            v@ == s@,
            v@.len() <= n,
            v@.len() >= width ==> n == v@.len(),
            v@.len() < width ==> n <= width,
            r@ == Seq::new((n - v@.len()) as nat, |i: int| fill),
        decreases width - n,
    {
        r.push(fill);
        n = n + 1;
        assert(r@ =~= Seq::new((n - v@.len()) as nat, |i: int| fill));
    }
    let ghost head = r@;
    let mut i: usize = 0;
    while i < v.len()
        invariant
            i <= v@.len(),
            v@ == s@,
            r@ == head + s@.take(i as int),
        decreases v@.len() - i,
    {
        r.push(v[i]);
        assert(s@.take(i + 1) == s@.take(i as int).push(v@[i as int]));
        assert(r@ =~= head + s@.take(i + 1));
        i = i + 1;
    }
    assert(s@.take(i as int) == s@);
    assert(r@ =~= pad_left(s@, width as nat, fill));
    r
}

/// Why a word is not a 32-bit number.
#[derive(Debug, Clone, Copy, PartialEq, Eq, Structural)]
pub enum NumberError {
    Empty,
    InvalidDigit,
    TooLarge,
}

/// The value of a run of digits, read from the left after `acc` has been read already.
///
/// The first character that is not a digit, or the first digit that takes the value past the
/// largest 32-bit number, decides the error.
pub open spec fn value_from(s: Seq<char>, acc: nat) -> Result<nat, NumberError>
    decreases s.len(),
{
    if s.len() == 0 {
        Ok(acc)
    } else if !text::is_digit(s[0]) {
        Err(NumberError::InvalidDigit)
    } else {
        let next = acc * 10 + (s[0] as nat - 48) as nat;
        if next > u32::MAX {
            Err(NumberError::TooLarge)
        } else {
            value_from(s.drop_first(), next)
        }
    }
}

/// The number that `s` stands for: decimal digits after an optional `+`.
pub open spec fn number(s: Seq<char>) -> Result<nat, NumberError> {
    if s.len() == 0 {
        Err(NumberError::Empty)
    } else if s[0] == '+' && s.len() > 1 {
        value_from(s.drop_first(), 0)
    } else {
        value_from(s, 0)
    }
}

/// Parse a 32-bit number.
pub fn parse_number(s: &str) -> (r: Result<u32, NumberError>)
    ensures
        match r {
            Ok(n) => number(s@) == Ok::<nat, NumberError>(n as nat),
            Err(e) => number(s@) == Err::<nat, NumberError>(e),
        },
{
    let v = chars(s);
    if v.len() == 0 {
        return Err(NumberError::Empty);
    }
    let mut i: usize = 0;
    let mut acc: u32 = 0;
    if v[0] == '+' && v.len() > 1 {
        i = 1;
        assert(s@.drop_first() == s@.skip(1));
    } else {
        assert(s@ == s@.skip(0));
    }
    while i < v.len()
        invariant
            i <= v@.len(),
            v@ == s@,
            number(s@) == value_from(s@.skip(i as int), acc as nat),
        decreases v@.len() - i,
    {
        let c = v[i];
        let ghost rest = s@.skip(i as int);
        assert(rest[0] == c);
        assert(rest.drop_first() == s@.skip(i + 1));
        if !('0' <= c && c <= '9') {
            return Err(NumberError::InvalidDigit);
        }
        let d: u32 = (c as u32) - 48;
        let next: u64 = (acc as u64) * 10 + (d as u64);
        if next > 0xffff_ffff {
            return Err(NumberError::TooLarge);
        }
        acc = next as u32;
        i = i + 1;
    }
    Ok(acc)
}

/// Reading a decimal representation back gives the number it was made from.
pub proof fn number_of_decimal(n: u32)
    ensures
        number(decimal(n as nat)) == Ok::<nat, NumberError>(n as nat),
{
    lemma_decimal_digits(n as nat);
    assert(decimal(n as nat) + Seq::<char>::empty() == decimal(n as nat));
    lemma_value_of_decimal(n as nat, Seq::empty());
}

proof fn lemma_decimal_digits(n: nat)
    ensures
        decimal(n).len() > 0,
        forall|i: int| 0 <= i < decimal(n).len() ==> text::is_digit(#[trigger] decimal(n)[i]),
    decreases n,
{
    if n >= 10 {
        lemma_decimal_digits(n / 10);
    }
}

/// Reading `decimal(n)` and then more digits is reading the rest with `n` accumulated.
proof fn lemma_value_of_decimal(n: nat, rest: Seq<char>)
    requires
        n <= u32::MAX,
    ensures
        value_from(decimal(n) + rest, 0) == value_from(rest, n),
    decreases n,
{
    if n < 10 {
        let s = decimal(n) + rest;
        assert(s[0] == digit(n));
        assert(s.drop_first() == rest);
    } else {
        let tail = seq![digit(n % 10)] + rest;
        assert(decimal(n) + rest == decimal(n / 10) + tail);
        lemma_value_of_decimal(n / 10, tail);
        assert(tail[0] == digit(n % 10));
        assert(tail.drop_first() == rest);
    }
}

/// A decimal representation has the value of its digits, each of which weighs ten times as much as
/// the one behind it, and starts with a zero only if it is one.
pub proof fn digits_weigh_ten_times_as_much(n: nat, d: nat)
    requires
        d < 10,
    ensures
        decimal(d).len() == 1,
        decimal(d)[0] as u32 == 48 + d,
        n > 0 ==> decimal(10 * n + d) == decimal(n) + decimal(d),
        n > 0 ==> decimal(n)[0] != '0',
        decimal(n).len() > 0,
    decreases n,
{
    lemma_decimal_digits(n);
    if n > 0 {
        assert((10 * n + d) / 10 == n && (10 * n + d) % 10 == d) by (nonlinear_arith)
            requires
                d < 10,
        ;
        assert(decimal(10 * n + d) =~= decimal(n) + decimal(d));
        if n >= 10 {
            digits_weigh_ten_times_as_much(n / 10, d);
            lemma_decimal_digits(n / 10);
            assert(decimal(n)[0] == decimal(n / 10)[0]);
        }
    }
}

/// Padding puts in front what is missing to the width, and nothing if nothing is missing.
pub proof fn padding_fills_up_in_front(s: Seq<char>, width: nat, fill: char)
    ensures
        ({
            let p = pad_left(s, width, fill);
            &&& p.len() == if s.len() < width {
                width
            } else {
                s.len()
            }
            &&& p.skip(p.len() - s.len()) == s
            &&& forall|i: int| 0 <= i < p.len() - s.len() ==> #[trigger] p[i] == fill
        }),
{
    let p = pad_left(s, width, fill);
    assert(p.skip(p.len() - s.len()) =~= s);
}

proof fn lemma_value_error(s: Seq<char>, acc: nat)
    ensures
        value_from(s, acc) is Ok ==> forall|i: int|
            0 <= i < s.len() ==> text::is_digit(#[trigger] s[i]),
        value_from(s, acc) is Err && (forall|i: int|
            0 <= i < s.len() ==> text::is_digit(#[trigger] s[i])) ==> value_from(s, acc) == Err::<
            nat,
            NumberError,
        >(NumberError::TooLarge),
        acc <= u32::MAX ==> (value_from(s, acc) matches Ok(n) ==> acc <= n <= u32::MAX),
        !(value_from(s, acc) matches Err(NumberError::Empty)),
    decreases s.len(),
{
    if s.len() > 0 {
        if text::is_digit(s[0]) {
            let t = s.drop_first();
            let next = acc * 10 + (s[0] as nat - 48) as nat;
            lemma_value_error(t, next);
            if forall|i: int| 0 <= i < s.len() ==> text::is_digit(#[trigger] s[i]) {
                assert forall|i: int| 0 <= i < t.len() implies text::is_digit(#[trigger] t[i]) by {
                    assert(t[i] == s[i + 1]);
                }
            }
            if value_from(s, acc) is Ok {
                assert forall|i: int| 0 <= i < s.len() implies text::is_digit(#[trigger] s[i]) by {
                    if i > 0 {
                        assert(t[i - 1] == s[i]);
                    }
                }
            }
        }
    }
}

proof fn lemma_value_push(s: Seq<char>, acc: nat, c: char)
    requires
        value_from(s, acc) is Ok,
    ensures
        value_from(s.push(c), acc) == value_from(seq![c], (value_from(s, acc)->Ok_0)),
    decreases s.len(),
{
    let p = s.push(c);
    if s.len() > 0 {
        assert(p.drop_first() =~= s.drop_first().push(c));
        lemma_value_push(s.drop_first(), acc * 10 + (s[0] as nat - 48) as nat, c);
    } else {
        assert(p =~= seq![c]);
    }
}

/// A number is what its digits say, read from the left: one more digit makes it ten times as large
/// and adds the digit, unless that is more than 32 bits hold. A plus sign in front does not matter,
/// and nothing but digits is accepted.
pub proof fn numbers_are_made_of_digits(s: Seq<char>, c: char)
    ensures
        number(Seq::<char>::empty()) == Err::<nat, NumberError>(NumberError::Empty),
        number(seq!['0']) == Ok::<nat, NumberError>(0),
        number(s) matches Ok(n) ==> n <= u32::MAX && s.len() > 0 && text::digits(
            if s[0] == '+' {
                s.skip(1)
            } else {
                s
            },
        ),
        number(s) matches Ok(n) ==> text::is_digit(c) ==> number(s.push(c)) == (if n * 10 + (
        c as u32 - 48) <= u32::MAX {
            Ok((n * 10 + (c as u32 - 48)) as nat)
        } else {
            Err(NumberError::TooLarge)
        }),
        s.len() > 0 && s[0] != '+' ==> number(seq!['+'] + s) == number(s),
        s.len() > 0 && text::digits(s) && number(s) is Err ==> number(s) == Err::<
            nat,
            NumberError,
        >(NumberError::TooLarge),
        number(s) matches Ok(_) ==> !text::is_digit(c) ==> number(s.push(c)) == Err::<
            nat,
            NumberError,
        >(NumberError::InvalidDigit),
        c != '+' && !text::is_digit(c) ==> number(seq![c] + s) == Err::<nat, NumberError>(
            NumberError::InvalidDigit,
        ),
        number(seq!['+']) == Err::<nat, NumberError>(NumberError::InvalidDigit),
        s.len() > 0 && !text::is_digit(s[0]) ==> number(seq!['+'] + s) == Err::<nat, NumberError>(
            NumberError::InvalidDigit,
        ),
{
    let zero = seq!['0'];
    assert(zero.drop_first() =~= Seq::<char>::empty());
    assert(value_from(zero, 0) == value_from(Seq::<char>::empty(), 0));
    let plus = seq!['+'] + s;
    assert(plus.drop_first() =~= s);
    assert((seq![c] + s)[0] == c);
    assert(seq!['+'][0] == '+' && !text::is_digit('+'));
    lemma_value_error(s, 0);
    if s.len() > 0 {
        lemma_value_error(s.drop_first(), 0);
        assert(s.drop_first() =~= s.skip(1));
        assert(s[0] == s[0]);
    }
    if number(s) is Ok {
        let body = if s[0] == '+' && s.len() > 1 {
            s.drop_first()
        } else {
            s
        };
        assert(text::is_digit(body[0]));
        assert(!text::is_digit('+'));
        assert(value_from(body, 0) == number(s));
        lemma_value_push(body, 0, c);
        let p = s.push(c);
        if s[0] == '+' {
            assert(p.drop_first() =~= body.push(c));
        }
        assert(number(p) == value_from(body.push(c), 0));
        let one = seq![c];
        let n = number(s)->Ok_0;
        assert(one.drop_first() =~= Seq::<char>::empty());
        if text::is_digit(c) {
            let next = n * 10 + (c as nat - 48) as nat;
            assert(value_from(Seq::<char>::empty(), next) == Ok::<nat, NumberError>(next));
            assert(one[0] == c);
        }
    }
}

proof fn lemma_value_stays(s: Seq<char>, t: Seq<char>, acc: nat)
    requires
        value_from(s, acc) is Err,
    ensures
        value_from(s + t, acc) == value_from(s, acc),
    decreases s.len(),
{
    let all = s + t;
    assert(s.len() > 0);
    assert(all[0] == s[0]);
    if text::is_digit(s[0]) {
        let next = acc * 10 + (s[0] as nat - 48) as nat;
        if next <= u32::MAX {
            assert(all.drop_first() =~= s.drop_first() + t);
            lemma_value_stays(s.drop_first(), t, next);
        }
    }
}

/// Once a text is no number, nothing behind it makes it one or changes the error.
pub proof fn errors_are_found_from_the_left(s: Seq<char>, t: Seq<char>)
    requires
        s.len() > 0,
        s != seq!['+'],
        number(s) is Err,
    ensures
        number(s + t) == number(s),
{
    let all = s + t;
    assert(all[0] == s[0]);
    if s[0] == '+' {
        assert(s.len() > 1) by {
            if s.len() == 1 {
                assert(s =~= seq!['+']);
            }
        }
        assert(all.drop_first() =~= s.drop_first() + t);
        lemma_value_stays(s.drop_first(), t, 0);
    } else {
        lemma_value_stays(s, t, 0);
    }
}

} // verus!
