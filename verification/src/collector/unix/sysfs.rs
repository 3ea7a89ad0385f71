//! The contents of the small files under `/sys`.
//!
//! A file is handed over as its contents, or as `None` where it could not be read.
use vstd::prelude::*;

use crate::number;
use crate::text;

verus! {

/// The view of an optional text.
pub open spec fn opt(s: Option<String>) -> Option<Seq<char>> {
    match s {
        Some(t) => Some(t@),
        None => None,
    }
}

/// The view of an optional borrowed text.
pub open spec fn opt_str(s: Option<&str>) -> Option<Seq<char>> {
    match s {
        Some(t) => Some(t@),
        None => None,
    }
}

/// What a file says: its contents without the white space around them.
pub open spec fn said(content: Option<Seq<char>>) -> Option<Seq<char>> {
    match content {
        Some(t) => Some(text::trimmed(t)),
        None => None,
    }
}

/// The number that a file holds, if it holds one.
pub open spec fn numbered(content: Option<Seq<char>>) -> Option<int> {
    match said(content) {
        Some(t) => match number::unsigned(t, u64::MAX as int) {
            Ok(n) => Some(n),
            Err(_) => None,
        },
        None => None,
    }
}

/// What a file says.
pub fn read_string(content: &Option<String>) -> (r: Option<String>)
    ensures
        opt(r) == said(opt(*content)),
{
    match content {
        Some(t) => Some(text::trim(t.as_str())),
        None => None,
    }
}

/// The number that a file holds.
pub fn read_u64(content: &Option<String>) -> (r: Option<u64>)
    ensures
        match r {
            Some(n) => numbered(opt(*content)) == Some(n as int),
            None => numbered(opt(*content)) is None,
        },
{
    match content {
        Some(t) => {
            let t = text::trim(t.as_str());
            match number::parse_u64(t.as_str()) {
                Ok(n) => Some(n),
                Err(_) => None,
            }
        },
        None => None,
    }
}

// Laws

/// A file that holds a number, with a line break behind it or not, is read as that number,
/// whichever it is; a file that could not be read, and one that starts with anything but a digit
/// or a sign, holds none.
pub proof fn numbers_are_read_as_they_stand(n: u64, other: Seq<char>)
    requires
        other.len() > 0,
        !number::is_digit(other[0]),
        other[0] != '+',
        !text::is_white(other[0]),
    ensures
        numbered(Some(number::decimal(n as nat))) == Some(n as int),
        numbered(Some(number::decimal(n as nat).push('\n'))) == Some(n as int),
        numbered(None) is None,
        numbered(Some(other)) is None,
{
    let d = number::decimal(n as nat);
    number::decimal_is_all_digits(n as nat);
    number::decimal_is_read_back(n);
    assert(number::is_digit(d[0]) && number::is_digit(d[d.len() - 1]));
    text::trimming_leaves_the_rest(d);
    let (a, b) = text::trimming_takes_white_space(other);
    assert(a == 0) by {
        if a > 0 {
            assert(text::is_white(other[0]));
        }
    }
    if b > 0 {
        assert(text::trimmed(other)[0] == other[0]);
    }
}

/// What a file says is its contents without the white space around them; a file that could not
/// be read says nothing.
pub proof fn contents_are_what_is_said(s: Seq<char>)
    requires
        s.len() > 0,
        !text::is_white(s[0]),
        !text::is_white(s.last()),
    ensures
        said(Some(s)) == Some(s),
        said(Some(s.push('\n'))) == Some(s),
        said(None) is None,
{
    text::trimming_leaves_the_rest(s);
}

} // verus!
