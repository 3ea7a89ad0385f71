//! Spans of time and numbers of bytes, as they are written in a configuration.
use vstd::prelude::*;

use crate::number::{self, IntError};
use crate::text;
use crate::time::Duration;

verus! {

/// The number before the unit of a span, and how many seconds the unit has.
pub open spec fn span(s: Seq<char>) -> Option<(std::result::Result<int, IntError>, int)> {
    if s.len() == 0 {
        None
    } else {
        let n = number::unsigned(s.drop_last(), u64::MAX as int);
        match s.last() {
            's' => Some((n, 1)),
            'm' => Some((n, 60)),
            'h' => Some((n, 3600)),
            _ => None,
        }
    }
}

/// The number of seconds of a span fits in 64 bits.
pub open spec fn span_fits(s: Seq<char>) -> bool {
    match span(s) {
        Some((Ok(n), unit)) => n * unit <= u64::MAX,
        _ => true,
    }
}

/// The seconds of a span: an integer and `s`, `m` or `h`.
pub open spec fn seconds(s: Seq<char>) -> std::result::Result<int, Seq<char>> {
    match span(s) {
        Some((Ok(n), unit)) => Ok(n * unit),
        Some((Err(e), _)) => Err(e.wording()),
        None => Err("invalid duration '"@ + s + "': expected suffix s, m, or h"@),
    }
}

/// The number before the unit, and the seconds that the unit has.
fn read_span(s: &str) -> (r: Option<(std::result::Result<u64, IntError>, u64)>)
    ensures
        match r {
            Some((Ok(n), unit)) => span(s@) == Some((Ok::<int, IntError>(n as int), unit as int)),
            Some((Err(e), unit)) => span(s@) == Some((Err::<int, IntError>(e), unit as int)),
            None => span(s@) is None,
        },
        r matches Some((_, unit)) ==> 0 < unit <= 3600,
{
    match text::strip_last(s, 's') {
        Some(n) => {
            return Some((number::parse_u64(n.as_str()), 1));
        },
        None => {},
    }
    match text::strip_last(s, 'm') {
        Some(n) => {
            return Some((number::parse_u64(n.as_str()), 60));
        },
        None => {},
    }
    match text::strip_last(s, 'h') {
        Some(n) => Some((number::parse_u64(n.as_str()), 3600)),
        None => None,
    }
}

/// Whether the number of seconds of a span fits in 64 bits, so that it can be read.
pub fn duration_fits(s: &str) -> (r: bool)
    ensures
        r == span_fits(s@),
{
    match read_span(s) {
        Some((Ok(n), unit)) => {
            proof {
                assert(n * unit <= u64::MAX * 3600) by (nonlinear_arith)
                    requires
                        0 <= n <= u64::MAX,
                        0 < unit <= 3600,
                ;
            }
            n as u128 * unit as u128 <= u64::MAX as u128
        },
        _ => true,
    }
}

/// Reads a span: an integer and `s`, `m` or `h`.
pub fn parse_duration(s: &str) -> (r: std::result::Result<Duration, String>)
    requires
        span_fits(s@),
    ensures
        match r {
            Ok(d) => seconds(s@) matches Ok(n) && d@ == n * 1_000_000_000,
            Err(e) => seconds(s@) == Err::<int, Seq<char>>(e@),
        },
{
    match read_span(s) {
        Some((Ok(n), unit)) => Ok(Duration::from_secs(n * unit)),
        Some((Err(e), _)) => Err(e.message()),
        None => Err(text::cat3("invalid duration '", s, "': expected suffix s, m, or h")),
    }
}

// Bytes

/// How many digits a text starts with.
pub open spec fn leading_digits(s: Seq<char>) -> int
    decreases s.len(),
{
    if s.len() > 0 && number::is_digit(s[0]) {
        1 + leading_digits(s.drop_first())
    } else {
        0
    }
}

fn count_digits(v: &Vec<char>) -> (n: usize)
    ensures
        n <= v@.len(),
        n == leading_digits(v@),
{
    let mut i: usize = 0;
    assert(v@.skip(0) =~= v@);
    while i < v.len() && number::digit(v[i])
        invariant
            i <= v@.len(),
            leading_digits(v@) == i + leading_digits(v@.skip(i as int)),
        decreases v@.len() - i,
    {
        assert(v@.skip(i as int)[0] == v@[i as int]);
        assert(v@.skip(i as int).drop_first() =~= v@.skip(i + 1));
        i = i + 1;
    }
    if i < v.len() {
        assert(v@.skip(i as int)[0] == v@[i as int]);
    }
    i
}

/// How many bytes a unit has: `K`, `M` and `G` are powers of 1000, `KiB`, `MiB` and `GiB`
/// are powers of 1024.
pub open spec fn unit_bytes(unit: Seq<char>) -> Option<int> {
    if unit.len() == 0 || unit == "b"@ {
        Some(1)
    } else if unit == "k"@ || unit == "kb"@ {
        Some(1_000)
    } else if unit == "m"@ || unit == "mb"@ {
        Some(1_000_000)
    } else if unit == "g"@ || unit == "gb"@ {
        Some(1_000_000_000)
    } else if unit == "kib"@ {
        Some(1_024)
    } else if unit == "mib"@ {
        Some(1_048_576)
    } else if unit == "gib"@ {
        Some(1_073_741_824)
    } else {
        None
    }
}

fn bytes_of_unit(unit: &str) -> (r: Option<u64>)
    ensures
        match r {
            Some(n) => unit_bytes(unit@) == Some(n as int),
            None => unit_bytes(unit@) is None,
        },
        r matches Some(n) ==> 0 < n <= 1_073_741_824,
{
    if text::chars_of(unit).len() == 0 || text::same(unit, "b") {
        Some(1)
    } else if text::same(unit, "k") || text::same(unit, "kb") {
        Some(1_000)
    } else if text::same(unit, "m") || text::same(unit, "mb") {
        Some(1_000_000)
    } else if text::same(unit, "g") || text::same(unit, "gb") {
        Some(1_000_000_000)
    } else if text::same(unit, "kib") {
        Some(1_024)
    } else if text::same(unit, "mib") {
        Some(1_048_576)
    } else if text::same(unit, "gib") {
        Some(1_073_741_824)
    } else {
        None
    }
}

/// A number of bytes: an integer, and a unit behind it or not, in any case and with white
/// space around it.
pub open spec fn bytes(s: Seq<char>) -> std::result::Result<int, Seq<char>> {
    let t = text::trimmed(s);
    let k = leading_digits(t);
    let unit = text::lowered(text::trimmed(t.skip(k)));
    match number::unsigned(t.take(k), u64::MAX as int) {
        Err(_) => Err("invalid byte size '"@ + t + "': expected <integer>[K|M|G]"@),
        Ok(n) => match unit_bytes(unit) {
            None => Err(
                "invalid byte size '"@ + t + "': unknown unit '"@ + unit
                    + "' (expected K, M, or G)"@,
            ),
            Some(size) => if n * size <= usize::MAX {
                Ok(n * size)
            } else {
                Err("invalid byte size '"@ + t + "': out of range"@)
            },
        },
    }
}

/// Reads a number of bytes.
pub fn parse_byte_size(s: &str) -> (r: std::result::Result<usize, String>)
    ensures
        match r {
            Ok(n) => bytes(s@) == Ok::<int, Seq<char>>(n as int),
            Err(e) => bytes(s@) == Err::<int, Seq<char>>(e@),
        },
{
    let t = text::trim(s);
    let v = text::chars_of(t.as_str());
    let k: usize = count_digits(&v);
    let num = text::text_of(&v, 0, k);
    let rest = text::text_of(&v, k, v.len());
    assert(num@ =~= t@.take(k as int));
    assert(rest@ =~= t@.skip(k as int));
    let unit = text::to_lower(text::trim(rest.as_str()).as_str());
    let n: u64 = match number::parse_u64(num.as_str()) {
        Ok(n) => n,
        Err(_) => {
            return Err(
                text::cat3("invalid byte size '", t.as_str(), "': expected <integer>[K|M|G]"),
            );
        },
    };
    let size: u64 = match bytes_of_unit(unit.as_str()) {
        Some(size) => size,
        None => {
            return Err(
                text::cat5(
                    "invalid byte size '",
                    t.as_str(),
                    "': unknown unit '",
                    unit.as_str(),
                    "' (expected K, M, or G)",
                ),
            );
        },
    };
    proof {
        assert(0 <= n * size <= u64::MAX * 1_073_741_824) by (nonlinear_arith)
            requires
                0 <= n <= u64::MAX,
                0 < size <= 1_073_741_824,
        ;
    }
    let total: u128 = n as u128 * size as u128;
    if total <= usize::MAX as u128 {
        Ok(total as usize)
    } else {
        Err(text::cat3("invalid byte size '", t.as_str(), "': out of range"))
    }
}

/// A number of bytes as a configuration gives it: as a number, or as a text.
pub enum ByteSize {
    Int(u64),
    Text(String),
}

/// The number of bytes that a configuration gives.
pub open spec fn byte_size(b: ByteSize) -> std::result::Result<int, Seq<char>> {
    match b {
        ByteSize::Int(n) => if n <= usize::MAX {
            Ok(n as int)
        } else {
            Err("out of range integral type conversion attempted"@)
        },
        ByteSize::Text(s) => bytes(s@),
    }
}

/// Reads the number of bytes that a configuration gives.
pub fn read_byte_size(b: &ByteSize) -> (r: std::result::Result<usize, String>)
    ensures
        match r {
            Ok(n) => byte_size(*b) == Ok::<int, Seq<char>>(n as int),
            Err(e) => byte_size(*b) == Err::<int, Seq<char>>(e@),
        },
{
    match b {
        ByteSize::Int(n) => if *n as u128 <= usize::MAX as u128 {
            Ok(*n as usize)
        } else {
            Err(text::owned("out of range integral type conversion attempted"))
        },
        ByteSize::Text(s) => parse_byte_size(s.as_str()),
    }
}

/// A bare number is a number of bytes, and is read back as it was written.
pub proof fn bare_number_is_bytes(n: u64)
    requires
        n <= usize::MAX,
    ensures
        bytes(number::decimal(n as nat)) == Ok::<int, Seq<char>>(n as int),
{
    let s = number::decimal(n as nat);
    let none = Seq::<char>::empty();
    assert(text::lowered(none) =~= none);
    decimal_number_has_a_unit(n, none, none, none, none);
    assert(spelled(none, s, none, none, none) =~= s);
    assert(n * 1 == n);
}

proof fn decimal_is_digits(n: nat)
    ensures
        number::all_digits(number::decimal(n)),
        number::decimal(n).len() > 0,
    decreases n,
{
    if n >= 10 {
        decimal_is_digits(n / 10);
    }
}

/// Nothing but white space, or nothing at all.
pub open spec fn blank(s: Seq<char>) -> bool {
    forall|i: int| 0 <= i < s.len() ==> text::is_white(#[trigger] s[i])
}

/// A number of bytes as it may be spelled: digits and a unit behind them, with white space
/// before, between and behind the two.
pub open spec fn spelled(
    before: Seq<char>,
    digits: Seq<char>,
    between: Seq<char>,
    unit: Seq<char>,
    behind: Seq<char>,
) -> Seq<char> {
    before + digits + between + unit + behind
}

/// A spelling of a number of bytes.
pub open spec fn is_spelling(
    before: Seq<char>,
    digits: Seq<char>,
    between: Seq<char>,
    unit: Seq<char>,
    behind: Seq<char>,
) -> bool {
    &&& blank(before) && blank(between) && blank(behind)
    &&& digits.len() > 0 && number::all_digits(digits)
    &&& unit_bytes(text::lowered(unit)) is Some
}

/// A number of bytes is the number times its unit, where that is in range, and nothing
/// otherwise, for every unit in any letter case and any white space before, between and
/// behind the two.
pub proof fn size_is_number_times_unit(
    before: Seq<char>,
    digits: Seq<char>,
    between: Seq<char>,
    unit: Seq<char>,
    behind: Seq<char>,
)
    requires
        is_spelling(before, digits, between, unit, behind),
    ensures
        match (number::unsigned(digits, u64::MAX as int), unit_bytes(text::lowered(unit))) {
            (Ok(n), Some(size)) => if n * size <= usize::MAX {
                bytes(spelled(before, digits, between, unit, behind)) == Ok::<int, Seq<char>>(
                    n * size,
                )
            } else {
                bytes(spelled(before, digits, between, unit, behind)) is Err
            },
            _ => bytes(spelled(before, digits, between, unit, behind)) is Err,
        },
{
    let s = spelled(before, digits, between, unit, behind);
    let rest = if unit.len() > 0 {
        between + unit
    } else {
        Seq::empty()
    };
    let core = digits + rest;
    let tail = if unit.len() > 0 {
        behind
    } else {
        between + behind
    };
    unit_is_letters(unit);
    assert(s =~= before + core + tail);
    assert(number::is_digit(digits[0]));
    assert(core[0] == digits[0]);
    if unit.len() > 0 {
        assert(core.last() == unit.last());
        assert(unit.last() == unit[unit.len() - 1]);
    } else {
        assert(core.last() == digits[digits.len() - 1]);
        assert(blank(tail));
    }
    trimmed_to_core(before, core, tail);
    if rest.len() > 0 {
        if between.len() > 0 {
            assert(rest[0] == between[0]);
        } else {
            assert(rest[0] == unit[0]);
        }
    }
    digits_before(digits, rest);
    let k = digits.len() as int;
    assert(core.take(k) =~= digits);
    assert(core.skip(k) =~= rest);
    if unit.len() > 0 {
        assert(rest =~= between + unit + Seq::empty());
        trimmed_to_core(between, unit, Seq::empty());
    } else {
        assert(text::trimmed(rest) =~= unit);
    }
}

/// The number of bytes is the same for every spelling of a number and a unit: letter case and
/// white space make no difference.
pub proof fn spelling_makes_no_difference(
    a: (Seq<char>, Seq<char>, Seq<char>, Seq<char>),
    b: (Seq<char>, Seq<char>, Seq<char>, Seq<char>),
    digits: Seq<char>,
)
    requires
        is_spelling(a.0, digits, a.1, a.2, a.3),
        is_spelling(b.0, digits, b.1, b.2, b.3),
        text::lowered(a.2) == text::lowered(b.2),
    ensures
        bytes(spelled(a.0, digits, a.1, a.2, a.3)).ok() == bytes(
            spelled(b.0, digits, b.1, b.2, b.3),
        ).ok(),
{
    size_is_number_times_unit(a.0, digits, a.1, a.2, a.3);
    size_is_number_times_unit(b.0, digits, b.1, b.2, b.3);
}

/// A number in decimal notation is such a number, which is read back as it was written.
pub proof fn decimal_number_has_a_unit(
    n: u64,
    before: Seq<char>,
    between: Seq<char>,
    unit: Seq<char>,
    behind: Seq<char>,
)
    requires
        blank(before),
        blank(between),
        blank(behind),
        unit_bytes(text::lowered(unit)) is Some,
    ensures
        unit_bytes(text::lowered(unit)) matches Some(size) && bytes(
            spelled(before, number::decimal(n as nat), between, unit, behind),
        ).ok() == if n * size <= usize::MAX {
            Some(n * size)
        } else {
            None
        },
{
    decimal_is_digits(n as nat);
    number::decimal_is_read_back(n);
    size_is_number_times_unit(before, number::decimal(n as nat), between, unit, behind);
}

proof fn unit_is_letters(unit: Seq<char>)
    requires
        unit_bytes(text::lowered(unit)) is Some,
    ensures
        forall|i: int|
            0 <= i < unit.len() ==> !text::is_white(#[trigger] unit[i]) && !number::is_digit(unit[i]),
{
    reveal_strlit("b");
    reveal_strlit("k");
    reveal_strlit("kb");
    reveal_strlit("m");
    reveal_strlit("mb");
    reveal_strlit("g");
    reveal_strlit("gb");
    reveal_strlit("kib");
    reveal_strlit("mib");
    reveal_strlit("gib");
    let l = text::lowered(unit);
    assert forall|i: int| 0 <= i < unit.len() implies !text::is_white(#[trigger] unit[i])
        && !number::is_digit(unit[i]) by {
        assert(l[i] == text::lower_char(unit[i]));
        assert('a' <= l[i] <= 'z');
    }
}

proof fn trimmed_to_core(before: Seq<char>, core: Seq<char>, behind: Seq<char>)
    requires
        blank(before),
        blank(behind),
        core.len() > 0,
        !text::is_white(core[0]),
        !text::is_white(core.last()),
    ensures
        text::trimmed(before + core + behind) == core,
{
    front_is_trimmed(before, core + behind);
    assert(before + core + behind =~= before + (core + behind));
    assert((core + behind)[0] == core[0]);
    back_is_trimmed(core, behind);
}

proof fn front_is_trimmed(white: Seq<char>, s: Seq<char>)
    requires
        blank(white),
    ensures
        text::trimmed_front(white + s) == text::trimmed_front(s),
    decreases white.len(),
{
    if white.len() > 0 {
        let t = white.drop_first();
        assert forall|i: int| 0 <= i < t.len() implies text::is_white(#[trigger] t[i]) by {
            assert(t[i] == white[i + 1]);
        }
        assert((white + s)[0] == white[0]);
        assert((white + s).drop_first() =~= t + s);
        front_is_trimmed(t, s);
    } else {
        assert(white + s =~= s);
    }
}

proof fn back_is_trimmed(s: Seq<char>, white: Seq<char>)
    requires
        blank(white),
    ensures
        text::trimmed_back(s + white) == text::trimmed_back(s),
    decreases white.len(),
{
    if white.len() > 0 {
        let t = white.drop_last();
        assert((s + white).last() == white[white.len() - 1]);
        assert((s + white).drop_last() =~= s + t);
        back_is_trimmed(s, t);
    } else {
        assert(s + white =~= s);
    }
}

proof fn digits_before(digits: Seq<char>, rest: Seq<char>)
    requires
        number::all_digits(digits),
        rest.len() > 0 ==> !number::is_digit(rest[0]),
    ensures
        leading_digits(digits + rest) == digits.len(),
    decreases digits.len(),
{
    if digits.len() > 0 {
        let t = digits.drop_first();
        assert forall|i: int| 0 <= i < t.len() implies number::is_digit(#[trigger] t[i]) by {
            assert(t[i] == digits[i + 1]);
        }
        assert((digits + rest)[0] == digits[0]);
        assert((digits + rest).drop_first() =~= t + rest);
        digits_before(t, rest);
    } else {
        assert(digits + rest =~= rest);
    }
}

/// A number with `s` behind it is that many seconds, with `m` that many minutes, and with `h` that
/// many hours, whatever the number is; any other ending is none.
pub proof fn spans_are_seconds_minutes_and_hours(n: u64, other: Seq<char>, c: char)
    requires
        c != 's' && c != 'm' && c != 'h',
    ensures
        seconds(number::decimal(n as nat).push('s')) == Ok::<int, Seq<char>>(n as int),
        seconds(number::decimal(n as nat).push('m')) == Ok::<int, Seq<char>>(60 * n),
        seconds(number::decimal(n as nat).push('h')) == Ok::<int, Seq<char>>(3600 * n),
        seconds(other.push(c)) is Err,
        seconds(Seq::empty()) is Err,
{
    let d = number::decimal(n as nat);
    number::decimal_is_read_back(n);
    assert(d.push('s').drop_last() =~= d);
    assert(d.push('m').drop_last() =~= d);
    assert(d.push('h').drop_last() =~= d);
}

/// The units are the decimal ones by thousands and the binary ones by 1024; nothing else is one.
pub proof fn units_go_by_thousands_or_by_1024(unit: Seq<char>)
    ensures
        unit_bytes(Seq::empty()) == Some(1int),
        unit_bytes("b"@) == Some(1int),
        unit_bytes("k"@) == Some(1_000int),
        unit_bytes("kb"@) == Some(1_000int),
        unit_bytes("m"@) == Some(1_000_000int),
        unit_bytes("mb"@) == Some(1_000_000int),
        unit_bytes("g"@) == Some(1_000_000_000int),
        unit_bytes("gb"@) == Some(1_000_000_000int),
        unit_bytes("kib"@) == Some(1_024int),
        unit_bytes("mib"@) == Some((1_024 * 1_024) as int),
        unit_bytes("gib"@) == Some((1_024 * 1_024 * 1_024) as int),
        unit.len() > 3 ==> unit_bytes(unit) is None,
{
    reveal_strlit("b");
    reveal_strlit("k");
    reveal_strlit("kb");
    reveal_strlit("m");
    reveal_strlit("mb");
    reveal_strlit("g");
    reveal_strlit("gb");
    reveal_strlit("kib");
    reveal_strlit("mib");
    reveal_strlit("gib");
    assert("b"@.len() == 1);
    assert("k"@.len() == 1);
    assert("kb"@.len() == 2);
    assert("m"@.len() == 1);
    assert("mb"@.len() == 2);
    assert("g"@.len() == 1);
    assert("gb"@.len() == 2);
    assert("kib"@.len() == 3);
    assert("mib"@.len() == 3);
    assert("gib"@.len() == 3);
    assert("b"@[0] == 'b');
    assert("k"@[0] == 'k');
    assert("m"@[0] == 'm');
    assert("g"@[0] == 'g');
    assert("kb"@[0] == 'k');
    assert("mb"@[0] == 'm');
    assert("gb"@[0] == 'g');
    assert("kib"@[0] == 'k');
    assert("mib"@[0] == 'm');
    assert("gib"@[0] == 'g');
}

/// A bare integer is a number of bytes, and a text is read as one.
pub proof fn integers_are_bytes(n: u64, s: String)
    ensures
        n <= usize::MAX ==> byte_size(ByteSize::Int(n)) == Ok::<int, Seq<char>>(n as int),
        byte_size(ByteSize::Text(s)) == bytes(s@),
{
}

/// A span fits where its seconds are no more than 64 bits hold, and what is no span always does.
pub proof fn spans_fit_in_64_bits(s: Seq<char>)
    ensures
        span_fits(s) <==> (seconds(s) matches Ok(n) ==> n <= 0xffff_ffff_ffff_ffff),
{
}

} // verus!
