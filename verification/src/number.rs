//! Integers in decimal notation.
use vstd::prelude::*;

use crate::text;

verus! {

/// Why a text is not an integer of the wanted type.
#[derive(Debug, Clone, Copy, PartialEq, Eq, Structural)]
pub enum IntError {
    /// The text is empty.
    Empty,
    /// A character is neither a digit nor a sign in its place.
    InvalidDigit,
    /// The number is larger than the type holds.
    PosOverflow,
}

impl IntError {
    /// The wording of the reason.
    pub open spec fn wording(self) -> Seq<char> {
        match self {
            IntError::Empty => "cannot parse integer from empty string"@,
            IntError::InvalidDigit => "invalid digit found in string"@,
            IntError::PosOverflow => "number too large to fit in target type"@,
        }
    }

    /// The reason as a text.
    pub fn message(self) -> (s: String)
        ensures
            s@ == self.wording(),
    {
        match self {
            IntError::Empty => text::owned("cannot parse integer from empty string"),
            IntError::InvalidDigit => text::owned("invalid digit found in string"),
            IntError::PosOverflow => text::owned("number too large to fit in target type"),
        }
    }
}

/// `0` to `9`.
pub open spec fn is_digit(c: char) -> bool {
    '0' <= c <= '9'
}

/// The value of a digit.
pub open spec fn digit_value(c: char) -> int {
    c as int - '0' as int
}

/// Whether a character is a decimal digit.
pub fn digit(c: char) -> (r: bool)
    ensures
        r == is_digit(c),
{
    '0' <= c && c <= '9'
}

/// Every character is a digit.
pub open spec fn all_digits(s: Seq<char>) -> bool {
    forall|i: int| 0 <= i < s.len() ==> is_digit(#[trigger] s[i])
}

/// Reads digits behind the number `acc`, with the largest number that is allowed.
pub open spec fn read_digits(s: Seq<char>, acc: int, max: int) -> Result<int, IntError>
    decreases s.len(),
{
    if s.len() == 0 {
        Ok(acc)
    } else if !is_digit(s[0]) {
        Err(IntError::InvalidDigit)
    } else if acc * 10 + digit_value(s[0]) > max {
        Err(IntError::PosOverflow)
    } else {
        read_digits(s.drop_first(), acc * 10 + digit_value(s[0]), max)
    }
}

/// An unsigned integer: one or more digits, with a plus sign before them or not.
pub open spec fn unsigned(s: Seq<char>, max: int) -> Result<int, IntError> {
    if s.len() == 0 {
        Err(IntError::Empty)
    } else if s[0] == '+' {
        if s.len() == 1 {
            Err(IntError::InvalidDigit)
        } else {
            read_digits(s.drop_first(), 0, max)
        }
    } else {
        read_digits(s, 0, max)
    }
}

/// A signed integer of 64 bits: one or more digits, with a sign before them or not.
pub open spec fn signed(s: Seq<char>) -> Option<int> {
    if s.len() > 1 && s[0] == '-' {
        match read_digits(s.drop_first(), 0, i64::MAX + 1) {
            Ok(n) => Some(-n),
            Err(_) => None,
        }
    } else {
        match unsigned(s, i64::MAX as int) {
            Ok(n) => Some(n),
            Err(_) => None,
        }
    }
}

fn read_digits_from(v: &Vec<char>, from: usize, max: u64) -> (r: Result<u64, IntError>)
    requires
        from <= v@.len(),
        max >= 9,
    ensures
        match r {
            Ok(n) => n <= max && read_digits(v@.skip(from as int), 0, max as int) == Ok::<
                int,
                IntError,
            >(n as int),
            Err(e) => read_digits(v@.skip(from as int), 0, max as int) == Err::<int, IntError>(e),
        },
{
    let mut acc: u64 = 0;
    let mut i: usize = from;
    let ghost whole = v@.skip(from as int);
    while i < v.len()
        invariant
            from <= i <= v@.len(),
            max >= 9,
            whole == v@.skip(from as int),
            acc <= max,
            read_digits(v@.skip(i as int), acc as int, max as int) == read_digits(
                whole,
                0,
                max as int,
            ),
        decreases v@.len() - i,
    {
        let c = v[i];
        if !digit(c) {
            return Err(IntError::InvalidDigit);
        }
        let d: u64 = c as u64 - '0' as u64;
        assert(v@.skip(i as int)[0] == c);
        if acc > max / 10 || acc * 10 > max - d {
            return Err(IntError::PosOverflow);
        }
        acc = acc * 10 + d;
        assert(v@.skip(i as int).drop_first() =~= v@.skip(i + 1));
        i = i + 1;
    }
    Ok(acc)
}

/// Reads an unsigned integer of 64 bits.
pub fn parse_u64(s: &str) -> (r: Result<u64, IntError>)
    ensures
        match r {
            Ok(n) => unsigned(s@, u64::MAX as int) == Ok::<int, IntError>(n as int),
            Err(e) => unsigned(s@, u64::MAX as int) == Err::<int, IntError>(e),
        },
{
    let v = text::chars_of(s);
    if v.len() == 0 {
        return Err(IntError::Empty);
    }
    if v[0] == '+' {
        if v.len() == 1 {
            return Err(IntError::InvalidDigit);
        }
        assert(v@.skip(1) =~= s@.drop_first());
        return read_digits_from(&v, 1, u64::MAX);
    }
    assert(v@.skip(0) =~= s@);
    read_digits_from(&v, 0, u64::MAX)
}

/// Reads a signed integer of 64 bits.
pub fn parse_i64(s: &str) -> (r: Option<i64>)
    ensures
        match r {
            Some(n) => signed(s@) == Some(n as int),
            None => signed(s@) is None,
        },
{
    let v = text::chars_of(s);
    if v.len() == 0 {
        return None;
    }
    if v[0] == '-' {
        if v.len() == 1 {
            assert(read_digits(s@, 0, i64::MAX as int) is Err);
            return None;
        }
        assert(v@.skip(1) =~= s@.drop_first());
        return match read_digits_from(&v, 1, 0x8000_0000_0000_0000) {
            Ok(n) => {
                if n == 0x8000_0000_0000_0000 {
                    Some(i64::MIN)
                } else {
                    Some(-(n as i64))
                }
            },
            Err(_) => None,
        };
    }
    let r = if v[0] == '+' {
        if v.len() == 1 {
            return None;
        }
        assert(v@.skip(1) =~= s@.drop_first());
        read_digits_from(&v, 1, 0x7fff_ffff_ffff_ffff)
    } else {
        assert(v@.skip(0) =~= s@);
        read_digits_from(&v, 0, 0x7fff_ffff_ffff_ffff)
    };
    match r {
        Ok(n) => Some(n as i64),
        Err(_) => None,
    }
}

/// The digit with a given value.
pub open spec fn digit_char(n: nat) -> char {
    (('0' as int) + (n % 10)) as char
}

/// A number in decimal notation.
pub open spec fn decimal(n: nat) -> Seq<char>
    decreases n,
{
    if n < 10 {
        seq![digit_char(n)]
    } else {
        decimal(n / 10).push(digit_char(n % 10))
    }
}

fn push_decimal(s: &mut String, n: u64)
    ensures
        final(s)@ == old(s)@ + decimal(n as nat),
    decreases n,
{
    if n >= 10 {
        push_decimal(s, n / 10);
    }
    let d: u8 = 48u8 + ((n % 10) as u8);
    let c = d as char;
    assert(c == digit_char((n % 10) as nat));
    assert(digit_char(n as nat) == digit_char((n % 10) as nat));
    s.push(c);
    assert(s@ =~= old(s)@ + decimal(n as nat));
}

/// A number in decimal notation.
pub fn decimal_text(n: u64) -> (s: String)
    ensures
        s@ == decimal(n as nat),
{
    let mut s = String::new();
    push_decimal(&mut s, n);
    assert(s@ =~= decimal(n as nat));
    s
}

proof fn read_digits_behind(s: Seq<char>, c: char, acc: int, max: int)
    requires
        is_digit(c),
        acc >= 0,
    ensures
        match read_digits(s, acc, max) {
            Ok(n) => read_digits(s.push(c), acc, max) == if n * 10 + digit_value(c) > max {
                Err::<int, IntError>(IntError::PosOverflow)
            } else {
                Ok::<int, IntError>(n * 10 + digit_value(c))
            },
            Err(e) => read_digits(s.push(c), acc, max) == Err::<int, IntError>(e),
        },
    decreases s.len(),
{
    reveal_with_fuel(read_digits, 2);
    if s.len() == 0 {
        assert(s.push(c).drop_first() =~= s);
        assert(s.push(c)[0] == c);
    } else {
        assert(s.push(c)[0] == s[0]);
        assert(s.push(c).drop_first() =~= s.drop_first().push(c));
        if is_digit(s[0]) && acc * 10 + digit_value(s[0]) <= max {
            read_digits_behind(s.drop_first(), c, acc * 10 + digit_value(s[0]), max);
        }
    }
}

proof fn decimal_digits(n: nat, max: int)
    requires
        n <= max,
    ensures
        decimal(n).len() > 0,
        is_digit(decimal(n)[0]),
        read_digits(decimal(n), 0, max) == Ok::<int, IntError>(n as int),
    decreases n,
{
    assert(is_digit(digit_char(n)) && digit_value(digit_char(n)) == n % 10);
    reveal_with_fuel(read_digits, 2);
    if n < 10 {
        assert(decimal(n).drop_first() =~= Seq::empty());
    } else {
        decimal_digits(n / 10, max);
        read_digits_behind(decimal(n / 10), digit_char(n % 10), 0, max);
    }
}

/// Reading back a number that was written in decimal gives the number.
pub proof fn decimal_is_read_back(n: u64)
    ensures
        unsigned(decimal(n as nat), u64::MAX as int) == Ok::<int, IntError>(n as int),
{
    decimal_digits(n as nat, u64::MAX as int);
}

/// A number in decimal notation is one or more digits.
pub proof fn decimal_is_all_digits(n: nat)
    ensures
        all_digits(decimal(n)),
        decimal(n).len() > 0,
    decreases n,
{
    if n >= 10 {
        decimal_is_all_digits(n / 10);
    }
}

/// Numbers are read digit by digit, ten times what comes before and the digit more, and what is
/// too large, empty or holds anything else is no number.
pub proof fn digits_are_read_by_their_places(s: Seq<char>, c: char, max: int)
    requires
        s.len() > 0,
        all_digits(s),
    ensures
        unsigned(Seq::empty(), max) is Err,
        is_digit(c) <==> 48 <= c as int <= 57,
        unsigned(s, max) matches Ok(n) ==> {
            &&& is_digit(c) && n * 10 + (c as int - 48) <= max ==> unsigned(s.push(c), max) == Ok::<
                int,
                IntError,
            >(n * 10 + (c as int - 48))
            &&& is_digit(c) && n * 10 + (c as int - 48) > max ==> unsigned(s.push(c), max) is Err
            &&& !is_digit(c) ==> unsigned(s.push(c), max) is Err
        },
{
    assert(s[0] != '+') by {
        assert(is_digit(s[0]));
    }
    assert(s.push(c)[0] == s[0]);
    read_digits_pushed(s, c, 0, max);
}

proof fn read_digits_pushed(s: Seq<char>, c: char, acc: int, max: int)
    requires
        all_digits(s),
    ensures
        read_digits(s, acc, max) matches Ok(n) ==> read_digits(s.push(c), acc, max) == if !is_digit(
            c,
        ) {
            Err(IntError::InvalidDigit)
        } else if n * 10 + digit_value(c) > max {
            Err(IntError::PosOverflow)
        } else {
            Ok(n * 10 + digit_value(c))
        },
    decreases s.len(),
{
    reveal_with_fuel(read_digits, 2);
    if s.len() > 0 {
        let t = s.drop_first();
        assert forall|i: int| 0 <= i < t.len() implies is_digit(#[trigger] t[i]) by {
            assert(t[i] == s[i + 1]);
        }
        assert(s.push(c).drop_first() =~= t.push(c));
        assert(s.push(c)[0] == s[0]);
        if acc * 10 + digit_value(s[0]) <= max {
            read_digits_pushed(t, c, acc * 10 + digit_value(s[0]), max);
        }
    } else {
        assert(s.push(c).drop_first() =~= Seq::empty());
        assert(s.push(c)[0] == c);
    }
}

/// A single digit is its own value, and a minus sign before a number makes it negative.
pub proof fn signs_and_single_digits(c: char, n: u64)
    requires
        is_digit(c),
        n <= i64::MAX,
    ensures
        unsigned(seq![c], u64::MAX as int) == Ok::<int, IntError>(c as int - 48),
        signed(decimal(n as nat)) == Some(n as int),
        signed(seq!['-'] + decimal(n as nat)) == Some(-(n as int)),
{
    reveal_with_fuel(read_digits, 2);
    assert(seq![c].drop_first() =~= Seq::empty());
    let d = decimal(n as nat);
    decimal_is_all_digits(n as nat);
    decimal_is_read_back(n);
    assert(is_digit(d[0]));
    smaller_limit(d, 0, n as int, u64::MAX as int, i64::MAX as int);
    smaller_limit(d, 0, n as int, u64::MAX as int, i64::MAX + 1);
    let m = seq!['-'] + d;
    assert(m[0] == '-');
    assert(m.drop_first() =~= d);
}

proof fn smaller_limit(s: Seq<char>, acc: int, n: int, max: int, limit: int)
    requires
        all_digits(s),
        0 <= acc,
        read_digits(s, acc, max) == Ok::<int, IntError>(n),
        n <= limit,
    ensures
        read_digits(s, acc, limit) == Ok::<int, IntError>(n),
        acc <= n,
    decreases s.len(),
{
    if s.len() > 0 {
        let t = s.drop_first();
        assert(is_digit(s[0]));
        assert forall|i: int| 0 <= i < t.len() implies is_digit(#[trigger] t[i]) by {
            assert(t[i] == s[i + 1]);
        }
        let more = acc * 10 + digit_value(s[0]);
        assert(more <= max);
        larger_than_start(t, more, n, max);
        smaller_limit(t, more, n, max, limit);
    }
}

proof fn larger_than_start(s: Seq<char>, acc: int, n: int, max: int)
    requires
        all_digits(s),
        0 <= acc,
        read_digits(s, acc, max) == Ok::<int, IntError>(n),
    ensures
        acc <= n,
    decreases s.len(),
{
    if s.len() > 0 {
        let t = s.drop_first();
        assert(is_digit(s[0]));
        assert forall|i: int| 0 <= i < t.len() implies is_digit(#[trigger] t[i]) by {
            assert(t[i] == s[i + 1]);
        }
        larger_than_start(t, acc * 10 + digit_value(s[0]), n, max);
    }
}

} // verus!
