//! Text: ordering, trimming, splitting, numbers in decimal, and the small string
//! operations that the rest of the library is stated over.
//!
//! Every specification here is a function on `Seq<char>`, the view of `str` and
//! `String`.
use vstd::prelude::*;

verus! {

broadcast use vstd::string::group_string_axioms;

/// Appends one character (`String::push`): the text afterwards is the text before
/// with the character behind it.
pub assume_specification[ String::push ](s: &mut String, c: char)
    ensures
        final(s)@ == old(s)@.push(c),
;

/// The outcome of a comparison.
#[derive(Debug, Clone, Copy, PartialEq, Eq, Structural)]
pub enum Order {
    Less,
    Equal,
    Greater,
}

/// Lexicographic order by scalar value, which is the order of the UTF-8 encodings.
pub open spec fn text_order(a: Seq<char>, b: Seq<char>) -> Order
    decreases a.len(),
{
    if a.len() == 0 {
        if b.len() == 0 {
            Order::Equal
        } else {
            Order::Less
        }
    } else if b.len() == 0 {
        Order::Greater
    } else if a[0] < b[0] {
        Order::Less
    } else if a[0] > b[0] {
        Order::Greater
    } else {
        text_order(a.drop_first(), b.drop_first())
    }
}

/// `a` comes strictly before `b`.
pub open spec fn text_less(a: Seq<char>, b: Seq<char>) -> bool {
    text_order(a, b) == Order::Less
}

/// Two texts are in the order `Equal` exactly when they are the same text.
pub proof fn text_order_equal(a: Seq<char>, b: Seq<char>)
    ensures
        text_order(a, b) == Order::Equal <==> a == b,
    decreases a.len(),
{
    if a.len() > 0 && b.len() > 0 && a[0] == b[0] {
        text_order_equal(a.drop_first(), b.drop_first());
        if a.drop_first() == b.drop_first() {
            assert(a =~= seq![a[0]] + a.drop_first());
            assert(b =~= seq![b[0]] + b.drop_first());
        }
    } else if a.len() == 0 && b.len() == 0 {
        assert(a =~= b);
    }
}

/// Swapping the two texts mirrors the order.
pub proof fn text_order_mirrored(a: Seq<char>, b: Seq<char>)
    ensures
        text_order(a, b) == Order::Less <==> text_order(b, a) == Order::Greater,
        text_order(a, b) == Order::Equal <==> text_order(b, a) == Order::Equal,
    decreases a.len(),
{
    if a.len() > 0 && b.len() > 0 && a[0] == b[0] {
        text_order_mirrored(a.drop_first(), b.drop_first());
    }
}

/// The order is transitive.
pub proof fn text_order_transitive(a: Seq<char>, b: Seq<char>, c: Seq<char>)
    requires
        text_less(a, b),
        text_less(b, c),
    ensures
        text_less(a, c),
    decreases a.len(),
{
    if a.len() > 0 && b.len() > 0 && c.len() > 0 && a[0] == b[0] && b[0] == c[0] {
        text_order_transitive(a.drop_first(), b.drop_first(), c.drop_first());
    }
}

/// The characters of a text.
pub fn chars_of(s: &str) -> (v: Vec<char>)
    ensures
        v@ == s@,
{
    let mut v: Vec<char> = Vec::new();
    for c in it: s.chars()
        invariant
            v@ == it.seq().take(it.index() as int),
            it.seq() == s@,
    {
        v.push(c);
        assert(it.seq().take(it.index() + 1) =~= it.seq().take(it.index() as int).push(c));
    }
    assert(v@ =~= s@);
    v
}

/// Compares two texts by `text_order`.
pub fn compare(a: &str, b: &str) -> (o: Order)
    ensures
        o == text_order(a@, b@),
{
    let x = chars_of(a);
    let y = chars_of(b);
    let mut i: usize = 0;
    assert(x@.skip(0) =~= a@);
    assert(y@.skip(0) =~= b@);
    while i < x.len() && i < y.len()
        invariant
            i <= x@.len(),
            i <= y@.len(),
            text_order(x@.skip(i as int), y@.skip(i as int)) == text_order(a@, b@),
        decreases x@.len() - i,
    {
        let c = x[i];
        let d = y[i];
        if c < d {
            return Order::Less;
        }
        if c > d {
            return Order::Greater;
        }
        assert(x@.skip(i as int).drop_first() =~= x@.skip(i + 1));
        assert(y@.skip(i as int).drop_first() =~= y@.skip(i + 1));
        i = i + 1;
    }
    if i < x.len() {
        Order::Greater
    } else if i < y.len() {
        Order::Less
    } else {
        Order::Equal
    }
}

/// Whether two texts are the same.
pub fn same(a: &str, b: &str) -> (r: bool)
    ensures
        r == (a@ == b@),
{
    proof {
        text_order_equal(a@, b@);
    }
    match compare(a, b) {
        Order::Equal => true,
        _ => false,
    }
}

/// The text of a run of characters.
pub fn text_of(v: &Vec<char>, from: usize, to: usize) -> (s: String)
    requires
        from <= to <= v@.len(),
    ensures
        s@ == v@.subrange(from as int, to as int),
{
    let mut s = String::new();
    let mut i: usize = from;
    while i < to
        invariant
            from <= i <= to <= v@.len(),
            s@ == v@.subrange(from as int, i as int),
        decreases to - i,
    {
        s.push(v[i]);
        assert(v@.subrange(from as int, i + 1) =~= v@.subrange(from as int, i as int).push(
            v@[i as int],
        ));
        i = i + 1;
    }
    s
}

/// An owned copy of a text.
pub fn owned(s: &str) -> (r: String)
    ensures
        r@ == s@,
{
    s.to_owned()
}

/// Two texts, one behind the other.
pub fn cat2(a: &str, b: &str) -> (s: String)
    ensures
        s@ == a@ + b@,
{
    let mut s = a.to_owned();
    s.append(b);
    s
}

/// Three texts, one behind the other.
pub fn cat3(a: &str, b: &str, c: &str) -> (s: String)
    ensures
        s@ == a@ + b@ + c@,
{
    let mut s = cat2(a, b);
    s.append(c);
    s
}

/// Four texts, one behind the other.
pub fn cat4(a: &str, b: &str, c: &str, d: &str) -> (s: String)
    ensures
        s@ == a@ + b@ + c@ + d@,
{
    let mut s = cat3(a, b, c);
    s.append(d);
    s
}

/// Five texts, one behind the other.
pub fn cat5(a: &str, b: &str, c: &str, d: &str, e: &str) -> (s: String)
    ensures
        s@ == a@ + b@ + c@ + d@ + e@,
{
    let mut s = cat4(a, b, c, d);
    s.append(e);
    s
}

// Whitespace

/// The characters with the Unicode property White_Space.
pub open spec fn is_white(c: char) -> bool {
    let n = c as int;
    ||| 9 <= n <= 13
    ||| n == 32
    ||| n == 0x85
    ||| n == 0xa0
    ||| n == 0x1680
    ||| 0x2000 <= n <= 0x200a
    ||| n == 0x2028
    ||| n == 0x2029
    ||| n == 0x202f
    ||| n == 0x205f
    ||| n == 0x3000
}

/// Whether a character is white space.
pub fn white(c: char) -> (r: bool)
    ensures
        r == is_white(c),
{
    let n: u32 = c as u32;
    (9 <= n && n <= 13) || n == 32 || n == 0x85 || n == 0xa0 || n == 0x1680 || (0x2000 <= n && n
        <= 0x200a) || n == 0x2028 || n == 0x2029 || n == 0x202f || n == 0x205f || n == 0x3000
}

/// A text without the white space at its front.
pub open spec fn trimmed_front(s: Seq<char>) -> Seq<char>
    decreases s.len(),
{
    if s.len() > 0 && is_white(s[0]) {
        trimmed_front(s.drop_first())
    } else {
        s
    }
}

/// A text without the white space at its back.
pub open spec fn trimmed_back(s: Seq<char>) -> Seq<char>
    decreases s.len(),
{
    if s.len() > 0 && is_white(s.last()) {
        trimmed_back(s.drop_last())
    } else {
        s
    }
}

/// A text without the white space at either end.
pub open spec fn trimmed(s: Seq<char>) -> Seq<char> {
    trimmed_back(trimmed_front(s))
}

/// Removes the white space at either end of a run of characters: the bounds of
/// what is left.
fn trim_bounds(v: &Vec<char>, from: usize, to: usize) -> (r: (usize, usize))
    requires
        from <= to <= v@.len(),
    ensures
        from <= r.0 <= r.1 <= to,
        v@.subrange(r.0 as int, r.1 as int) == trimmed(v@.subrange(from as int, to as int)),
{
    let mut i: usize = from;
    let ghost whole = v@.subrange(from as int, to as int);
    while i < to && white(v[i])
        invariant
            from <= i <= to <= v@.len(),
            whole == v@.subrange(from as int, to as int),
            trimmed_front(v@.subrange(i as int, to as int)) == trimmed_front(whole),
        decreases to - i,
    {
        assert(v@.subrange(i as int, to as int).drop_first() =~= v@.subrange(i + 1, to as int));
        i = i + 1;
    }
    assert(trimmed_front(whole) == v@.subrange(i as int, to as int));
    let mut j: usize = to;
    while j > i && white(v[j - 1])
        invariant
            from <= i <= j <= to <= v@.len(),
            trimmed_back(v@.subrange(i as int, j as int)) == trimmed(whole),
        decreases j - i,
    {
        assert(v@.subrange(i as int, j as int).drop_last() =~= v@.subrange(i as int, j - 1));
        assert(v@.subrange(i as int, j as int).last() == v@[j - 1]);
        j = j - 1;
    }
    if j > i {
        assert(v@.subrange(i as int, j as int).last() == v@[j - 1]);
    }
    (i, j)
}

/// A text without the white space at either end.
pub fn trim(s: &str) -> (r: String)
    ensures
        r@ == trimmed(s@),
{
    let v = chars_of(s);
    let n: usize = v.len();
    let (i, j) = trim_bounds(&v, 0, n);
    assert(v@.subrange(0, n as int) =~= s@);
    text_of(&v, i, j)
}

// Search

/// Where a character occurs first, or the length of the text where it does not.
pub open spec fn first_index(s: Seq<char>, c: char) -> int
    decreases s.len(),
{
    if s.len() == 0 || s[0] == c {
        0
    } else {
        1 + first_index(s.drop_first(), c)
    }
}

/// `first_index` is the least position that holds the character.
pub proof fn first_index_is_least(s: Seq<char>, c: char)
    ensures
        0 <= first_index(s, c) <= s.len(),
        first_index(s, c) < s.len() ==> s[first_index(s, c)] == c,
        forall|i: int| 0 <= i < first_index(s, c) ==> s[i] != c,
    decreases s.len(),
{
    if s.len() > 0 && s[0] != c {
        first_index_is_least(s.drop_first(), c);
        assert forall|i: int| 0 <= i < first_index(s, c) implies s[i] != c by {
            if i > 0 {
                assert(s[i] == s.drop_first()[i - 1]);
            }
        }
    }
}

/// Where a character occurs first at or behind a position.
pub fn find_char(v: &Vec<char>, from: usize, c: char) -> (r: usize)
    requires
        from <= v@.len(),
    ensures
        from <= r <= v@.len(),
        r - from == first_index(v@.skip(from as int), c),
{
    let mut i: usize = from;
    let ghost whole = v@.skip(from as int);
    while i < v.len() && v[i] != c
        invariant
            from <= i <= v@.len(),
            whole == v@.skip(from as int),
            i - from + first_index(v@.skip(i as int), c) == first_index(whole, c),
        decreases v@.len() - i,
    {
        assert(v@.skip(i as int)[0] == v@[i as int]);
        assert(v@.skip(i as int).drop_first() =~= v@.skip(i + 1));
        i = i + 1;
    }
    if i < v.len() {
        assert(v@.skip(i as int)[0] == v@[i as int]);
    }
    i
}

/// The text before the first occurrence of a character and the text behind it.
pub open spec fn cut(s: Seq<char>, c: char) -> Option<(Seq<char>, Seq<char>)> {
    let i = first_index(s, c);
    if i < s.len() {
        Some((s.take(i), s.skip(i + 1)))
    } else {
        None
    }
}

/// Cuts a text at the first occurrence of a character.
pub fn split_once(s: &str, c: char) -> (r: Option<(String, String)>)
    ensures
        match r {
            Some((a, b)) => cut(s@, c) == Some((a@, b@)),
            None => cut(s@, c) is None,
        },
{
    let v = chars_of(s);
    proof {
        first_index_is_least(s@, c);
    }
    assert(v@.skip(0) =~= s@);
    let i: usize = find_char(&v, 0, c);
    if i < v.len() {
        let a = text_of(&v, 0, i);
        let b = text_of(&v, i + 1, v.len());
        assert(a@ =~= s@.take(i as int));
        assert(b@ =~= s@.skip(i + 1));
        Some((a, b))
    } else {
        None
    }
}

/// The views of a list of strings.
pub open spec fn texts(v: Seq<String>) -> Seq<Seq<char>> {
    v.map_values(|s: String| s@)
}

/// A copy of a list of strings.
pub fn copied(v: &Vec<String>) -> (r: Vec<String>)
    ensures
        texts(r@) == texts(v@),
{
    let ghost all = texts(v@);
    let mut out: Vec<String> = Vec::new();
    let mut i: usize = 0;
    assert(texts(out@) =~= all.take(0));
    while i < v.len()
        invariant
            i <= v@.len(),
            all == texts(v@),
            texts(out@) == all.take(i as int),
        decreases v@.len() - i,
    {
        let ghost before = texts(out@);
        out.push(v[i].clone());
        assert(texts(out@) =~= before.push(all[i as int]));
        assert(all.take(i + 1) =~= all.take(i as int).push(all[i as int]));
        i = i + 1;
    }
    assert(all.take(i as int) =~= all);
    out
}

/// The pieces between the occurrences of a separator: one more than it occurs.
pub open spec fn pieces(s: Seq<char>, sep: char) -> Seq<Seq<char>>
    decreases s.len(),
{
    let i = first_index(s, sep);
    if i < s.len() {
        proof {
            first_index_is_least(s, sep);
        }
        seq![s.take(i)] + pieces(s.skip(i + 1), sep)
    } else {
        seq![s]
    }
}

/// Splits a text at every occurrence of a separator.
pub fn split(s: &str, sep: char) -> (r: Vec<String>)
    ensures
        texts(r@) == pieces(s@, sep),
{
    let v = chars_of(s);
    let mut out: Vec<String> = Vec::new();
    let mut start: usize = 0;
    assert(v@.skip(0) =~= s@);
    assert(texts(out@) =~= Seq::empty());
    loop
        invariant
            start <= v@.len(),
            v@ == s@,
            texts(out@) + pieces(v@.skip(start as int), sep) == pieces(s@, sep),
        decreases v@.len() - start,
    {
        let ghost rest = v@.skip(start as int);
        let ghost before = texts(out@);
        proof {
            first_index_is_least(rest, sep);
        }
        let i: usize = find_char(&v, start, sep);
        let piece = text_of(&v, start, i);
        assert(piece@ =~= rest.take(i - start));
        out.push(piece);
        assert(texts(out@) =~= before.push(piece@));
        if i >= v.len() {
            assert(piece@ =~= rest);
            assert(texts(out@) =~= before + seq![rest]);
            return out;
        }
        assert(rest.skip(i - start + 1) =~= v@.skip(i + 1));
        assert(texts(out@) + pieces(v@.skip(i + 1), sep) =~= before + (seq![piece@] + pieces(
            v@.skip(i + 1),
            sep,
        )));
        start = i + 1;
    }
}

/// Whether a text starts with another one.
pub open spec fn begins(s: Seq<char>, prefix: Seq<char>) -> bool {
    prefix.len() <= s.len() && s.take(prefix.len() as int) == prefix
}

/// Whether a text ends with another one.
pub open spec fn ends(s: Seq<char>, suffix: Seq<char>) -> bool {
    suffix.len() <= s.len() && s.skip(s.len() - suffix.len()) == suffix
}

/// `needle` stands at a position of `s`.
pub open spec fn stands_at(s: Seq<char>, needle: Seq<char>, at: int) -> bool {
    0 <= at && at + needle.len() <= s.len() && s.subrange(at, at + needle.len()) == needle
}

/// `needle` stands somewhere in `s`.
pub open spec fn holds(s: Seq<char>, needle: Seq<char>) -> bool {
    exists|at: int| stands_at(s, needle, at)
}

/// Whether a run of characters stands at a position.
fn matches_at(v: &Vec<char>, needle: &Vec<char>, at: usize) -> (r: bool)
    requires
        at <= v@.len(),
    ensures
        r == stands_at(v@, needle@, at as int),
{
    if needle.len() > v.len() - at {
        return false;
    }
    let mut i: usize = 0;
    while i < needle.len()
        invariant
            i <= needle@.len(),
            at + needle.len() <= v.len(),
            forall|k: int| 0 <= k < i ==> v@[at + k] == needle@[k],
        decreases needle@.len() - i,
    {
        if v[at + i] != needle[i] {
            assert(v@.subrange(at as int, at + needle@.len())[i as int] == v@[at + i]);
            return false;
        }
        i = i + 1;
    }
    assert(v@.subrange(at as int, at + needle@.len()) =~= needle@);
    true
}

/// Whether a text starts with another one.
pub fn starts_with(s: &str, prefix: &str) -> (r: bool)
    ensures
        r == begins(s@, prefix@),
{
    let v = chars_of(s);
    let p = chars_of(prefix);
    assert(p@.len() <= v@.len() ==> v@.subrange(0, 0int + p@.len()) =~= s@.take(p@.len() as int));
    matches_at(&v, &p, 0)
}

/// Whether a text ends with another one.
pub fn ends_with(s: &str, suffix: &str) -> (r: bool)
    ensures
        r == ends(s@, suffix@),
{
    let v = chars_of(s);
    let p = chars_of(suffix);
    if p.len() > v.len() {
        return false;
    }
    let at: usize = v.len() - p.len();
    assert(v@.subrange(at as int, at + p@.len()) =~= s@.skip(s@.len() - p@.len()));
    matches_at(&v, &p, at)
}

/// Whether a text holds another one.
pub fn contains(s: &str, needle: &str) -> (r: bool)
    ensures
        r == holds(s@, needle@),
{
    let v = chars_of(s);
    let p = chars_of(needle);
    let mut at: usize = 0;
    loop
        invariant
            at <= v@.len(),
            v@ == s@,
            p@ == needle@,
            forall|k: int| 0 <= k < at ==> !stands_at(s@, needle@, k),
        decreases v@.len() - at,
    {
        if matches_at(&v, &p, at) {
            assert(stands_at(s@, needle@, at as int));
            return true;
        }
        if at >= v.len() {
            assert(!holds(s@, needle@));
            return false;
        }
        at = at + 1;
    }
}

/// Where a run of characters stands first in a text.
pub open spec fn first_at(s: Seq<char>, needle: Seq<char>) -> Option<int>
    decreases s.len(),
{
    if begins(s, needle) {
        Some(0)
    } else if s.len() == 0 {
        None
    } else {
        match first_at(s.drop_first(), needle) {
            Some(i) => Some(i + 1),
            None => None,
        }
    }
}

/// The first place of a run of characters is a place of it, none before it is one, and
/// there is one wherever the text holds the run.
pub proof fn first_at_is_least(s: Seq<char>, needle: Seq<char>)
    ensures
        match first_at(s, needle) {
            Some(i) => stands_at(s, needle, i) && forall|j: int|
                0 <= j < i ==> !#[trigger] stands_at(s, needle, j),
            None => !holds(s, needle),
        },
    decreases s.len(),
{
    let n = needle.len() as int;
    if begins(s, needle) {
        assert(s.subrange(0, n) =~= s.take(n));
    } else {
        assert(!stands_at(s, needle, 0)) by {
            if n <= s.len() {
                assert(s.subrange(0, n) =~= s.take(n));
            }
        }
        if s.len() > 0 {
            let t = s.drop_first();
            first_at_is_least(t, needle);
            assert forall|j: int| 0 < j implies #[trigger] stands_at(s, needle, j) == stands_at(
                t,
                needle,
                j - 1,
            ) by {
                if j + n <= s.len() {
                    assert(s.subrange(j, j + n) =~= t.subrange(j - 1, j - 1 + n));
                }
            }
            match first_at(t, needle) {
                Some(i) => {
                    assert(stands_at(s, needle, i + 1));
                },
                None => {
                    if holds(s, needle) {
                        let j = choose|j: int| stands_at(s, needle, j);
                        assert(stands_at(t, needle, j - 1));
                    }
                },
            }
        }
    }
}

/// Finds a run of characters behind a position.
pub fn find(v: &Vec<char>, from: usize, needle: &Vec<char>) -> (r: Option<usize>)
    requires
        from <= v@.len(),
    ensures
        match r {
            Some(i) => from <= i && i + needle@.len() <= v@.len() && first_at(
                v@.skip(from as int),
                needle@,
            ) == Some(i - from),
            None => first_at(v@.skip(from as int), needle@) is None,
        },
{
    let mut i: usize = from;
    let ghost rest = v@.skip(from as int);
    let ghost all = first_at(rest, needle@);
    assert(rest.skip(0) =~= rest);
    loop
        invariant
            from <= i <= v@.len(),
            rest == v@.skip(from as int),
            all == first_at(rest, needle@),
            match first_at(v@.skip(i as int), needle@) {
                Some(k) => all == Some(k + i - from),
                None => all is None,
            },
        decreases v@.len() - i,
    {
        let ghost here = v@.skip(i as int);
        if needle.len() <= v.len() - i && matches_at(v, needle, i) {
            assert(here.take(needle@.len() as int) =~= v@.subrange(
                i as int,
                i + needle@.len(),
            ));
            return Some(i);
        }
        assert(!begins(here, needle@)) by {
            if needle@.len() <= here.len() {
                assert(here.take(needle@.len() as int) =~= v@.subrange(
                    i as int,
                    i + needle@.len(),
                ));
            }
        }
        if i == v.len() {
            return None;
        }
        assert(here.drop_first() =~= v@.skip(i + 1));
        i = i + 1;
    }
}

/// What is left of a text behind a prefix.
pub fn strip_prefix(s: &str, prefix: &str) -> (r: Option<String>)
    ensures
        match r {
            Some(rest) => begins(s@, prefix@) && rest@ == s@.skip(prefix@.len() as int),
            None => !begins(s@, prefix@),
        },
{
    if starts_with(s, prefix) {
        let v = chars_of(s);
        let n: usize = chars_of(prefix).len();
        let rest = text_of(&v, n, v.len());
        assert(rest@ =~= s@.skip(prefix@.len() as int));
        Some(rest)
    } else {
        None
    }
}

/// What is left of a text before a last character.
pub fn strip_last(s: &str, c: char) -> (r: Option<String>)
    ensures
        match r {
            Some(rest) => s@.len() > 0 && s@.last() == c && rest@ == s@.drop_last(),
            None => s@.len() == 0 || s@.last() != c,
        },
{
    let v = chars_of(s);
    let n: usize = v.len();
    if n > 0 && v[n - 1] == c {
        let rest = text_of(&v, 0, n - 1);
        assert(rest@ =~= s@.drop_last());
        Some(rest)
    } else {
        None
    }
}

/// A text without any occurrences of a character at its back.
pub open spec fn without_trailing(s: Seq<char>, c: char) -> Seq<char>
    decreases s.len(),
{
    if s.len() > 0 && s.last() == c {
        without_trailing(s.drop_last(), c)
    } else {
        s
    }
}

/// Removes every occurrence of a character at the back of a text.
pub fn strip_trailing(s: &str, c: char) -> (r: String)
    ensures
        r@ == without_trailing(s@, c),
{
    let v = chars_of(s);
    let mut n: usize = v.len();
    assert(v@.take(n as int) =~= s@);
    while n > 0 && v[n - 1] == c
        invariant
            n <= v@.len(),
            without_trailing(v@.take(n as int), c) == without_trailing(s@, c),
        decreases n,
    {
        assert(v@.take(n as int).drop_last() =~= v@.take(n - 1));
        assert(v@.take(n as int).last() == v@[n - 1]);
        n = n - 1;
    }
    if n > 0 {
        assert(v@.take(n as int).last() == v@[n - 1]);
    }
    let r = text_of(&v, 0, n);
    assert(r@ =~= v@.take(n as int));
    r
}

// Case

/// An upper-case ASCII letter in lower case, any other character as it is.
pub open spec fn lower_char(c: char) -> char {
    if 'A' <= c <= 'Z' {
        (c as u8 + 32) as char
    } else {
        c
    }
}

/// A text with its ASCII letters in lower case.
pub open spec fn lowered(s: Seq<char>) -> Seq<char> {
    s.map_values(|c: char| lower_char(c))
}

/// Puts the ASCII letters of a text in lower case.
pub fn to_lower(s: &str) -> (r: String)
    ensures
        r@ == lowered(s@),
{
    let v = chars_of(s);
    let mut out = String::new();
    let mut i: usize = 0;
    while i < v.len()
        invariant
            i <= v@.len(),
            v@ == s@,
            out@ == lowered(s@.take(i as int)),
        decreases v@.len() - i,
    {
        let c = v[i];
        let d = if 'A' <= c && c <= 'Z' {
            ((c as u8) + 32) as char
        } else {
            c
        };
        out.push(d);
        assert(lowered(s@.take(i + 1)) =~= lowered(s@.take(i as int)).push(lower_char(c)));
        i = i + 1;
    }
    assert(s@.take(i as int) =~= s@);
    out
}

// Laws

/// Spaces, tabs and line breaks are white space; letters, digits and the marks of ASCII are not.
pub proof fn ascii_white_space(c: char)
    requires
        (c as int) < 128,
    ensures
        is_white(c) <==> c == ' ' || c == '\t' || c == '\n' || c == '\r' || c as int == 11
            || c as int == 12,
{
}

/// White space is taken off at both ends, and nothing else is: what is left starts and ends
/// with no white space, and what was taken off is nothing but that.
pub proof fn trimming_takes_white_space(s: Seq<char>) -> (r: (int, int))
    ensures
        0 <= r.0 <= r.1 <= s.len(),
        trimmed(s) == s.subrange(r.0, r.1),
        forall|i: int| 0 <= i < r.0 ==> is_white(#[trigger] s[i]),
        forall|i: int| r.1 <= i < s.len() ==> is_white(#[trigger] s[i]),
        trimmed(s).len() > 0 ==> !is_white(trimmed(s)[0]) && !is_white(trimmed(s).last()),
{
    let a = front_taken(s);
    let t = trimmed_front(s);
    let n = back_taken(t);
    assert(trimmed(s) =~= s.subrange(a, a + n));
    assert forall|i: int| a + n <= i < s.len() implies is_white(#[trigger] s[i]) by {
        assert(t[i - a] == s[i]);
    }
    if n > 0 {
        assert(trimmed(s)[0] == t[0]);
    }
    (a, a + n)
}

proof fn front_taken(s: Seq<char>) -> (a: int)
    ensures
        0 <= a <= s.len(),
        trimmed_front(s) == s.skip(a),
        forall|i: int| 0 <= i < a ==> is_white(#[trigger] s[i]),
        a < s.len() ==> !is_white(s[a]),
    decreases s.len(),
{
    if s.len() > 0 && is_white(s[0]) {
        let t = s.drop_first();
        let b = front_taken(t);
        assert(trimmed_front(s) =~= s.skip(b + 1));
        assert forall|i: int| 0 <= i < b + 1 implies is_white(#[trigger] s[i]) by {
            if i > 0 {
                assert(t[i - 1] == s[i]);
            }
        }
        if b < t.len() {
            assert(t[b] == s[b + 1]);
        }
        b + 1
    } else {
        assert(s.skip(0) =~= s);
        0
    }
}

proof fn back_taken(s: Seq<char>) -> (n: int)
    ensures
        0 <= n <= s.len(),
        trimmed_back(s) == s.take(n),
        forall|i: int| n <= i < s.len() ==> is_white(#[trigger] s[i]),
        n > 0 ==> !is_white(s[n - 1]),
    decreases s.len(),
{
    if s.len() > 0 && is_white(s.last()) {
        let t = s.drop_last();
        let n = back_taken(t);
        assert(trimmed_back(s) =~= s.take(n));
        assert forall|i: int| n <= i < s.len() implies is_white(#[trigger] s[i]) by {
            if i < t.len() {
                assert(t[i] == s[i]);
            }
        }
        if n > 0 {
            assert(t[n - 1] == s[n - 1]);
        }
        n
    } else {
        assert(s.take(s.len() as int) =~= s);
        s.len() as int
    }
}

/// A text that neither starts nor ends with white space is what trimming leaves of it, also
/// where a line break follows it.
pub proof fn trimming_leaves_the_rest(s: Seq<char>)
    requires
        s.len() > 0,
        !is_white(s[0]),
        !is_white(s.last()),
    ensures
        trimmed(s) == s,
        trimmed(s.push('\n')) == s,
        trimmed(seq![' '] + s) == s,
{
    let t = s.push('\n');
    assert(t.drop_last() =~= s);
    let u = seq![' '] + s;
    assert(u.drop_first() =~= s);
    assert(trimmed_front(u) == trimmed_front(s));
}

/// Letters from `A` to `Z` become those from `a` to `z`, and anything else stays: a text keeps
/// its length, and putting it in lower case twice changes nothing more.
pub proof fn lower_case_is_for_letters(s: Seq<char>)
    ensures
        lowered(s).len() == s.len(),
        forall|i: int|
            0 <= i < s.len() && 'A' <= #[trigger] s[i] <= 'Z' ==> lowered(s)[i] as int == s[i] as int
                + 32,
        forall|i: int|
            0 <= i < s.len() && !('A' <= #[trigger] s[i] <= 'Z') ==> lowered(s)[i] == s[i],
        lowered(lowered(s)) == lowered(s),
{
    assert forall|i: int| 0 <= i < s.len() implies lowered(lowered(s))[i] == lowered(s)[i] by {
        assert(lowered(s)[i] == lower_char(s[i]));
    }
    assert(lowered(lowered(s)) =~= lowered(s));
}

/// A text holds another one exactly where it is something, the other one, and something more.
pub proof fn holding_is_standing_between(s: Seq<char>, needle: Seq<char>)
    ensures
        holds(s, needle) <==> exists|a: Seq<char>, b: Seq<char>| s == #[trigger] (a + needle + b),
{
    if holds(s, needle) {
        let at = choose|at: int| stands_at(s, needle, at);
        let a = s.take(at);
        let b = s.skip(at + needle.len());
        assert(s =~= a + needle + b);
    }
    if exists|a: Seq<char>, b: Seq<char>| s == #[trigger] (a + needle + b) {
        let (a, b) = choose|a: Seq<char>, b: Seq<char>| s == #[trigger] (a + needle + b);
        assert(s.subrange(a.len() as int, a.len() as int + needle.len()) =~= needle);
        assert(stands_at(s, needle, a.len() as int));
    }
}

/// A text begins with what stands at its front, and ends with what stands at its back.
pub proof fn ends_of_a_text(a: Seq<char>, b: Seq<char>)
    ensures
        begins(a + b, a),
        ends(a + b, b),
        begins(a, b) ==> a == b + a.skip(b.len() as int),
        ends(a, b) ==> a == a.take(a.len() - b.len()) + b,
{
    assert((a + b).take(a.len() as int) =~= a);
    assert((a + b).skip(a.len() as int) =~= b);
    if begins(a, b) {
        assert(a =~= b + a.skip(b.len() as int));
    }
    if ends(a, b) {
        assert(a =~= a.take(a.len() - b.len()) + b);
    }
}

/// A text is cut at the first occurrence of a character: what comes before it, the character
/// and what comes after it are the text.
pub proof fn cutting_takes_one_character(before: Seq<char>, c: char, after: Seq<char>)
    requires
        !before.contains(c),
    ensures
        cut(before.push(c) + after, c) == Some((before, after)),
        cut(before, c) is None,
{
    let s = before.push(c) + after;
    first_index_is_least(s, c);
    first_index_is_least(before, c);
    let i = first_index(s, c);
    let n = before.len() as int;
    assert(s[n] == c);
    if i < n {
        assert(before[i] == s[i]);
        assert(before.contains(s[i]));
    }
    assert(i == n);
    assert(s.take(n) =~= before);
    assert(s.skip(n + 1) =~= after);
    let j = first_index(before, c);
    if j < n {
        assert(before.contains(before[j]));
    }
}

/// A text is split at every separator: its pieces hold none, and one more piece behind a
/// separator is one more piece in the list.
pub proof fn splitting_takes_the_separators(before: Seq<char>, sep: char, after: Seq<char>)
    requires
        !before.contains(sep),
    ensures
        pieces(before, sep) == seq![before],
        pieces(before.push(sep) + after, sep) == seq![before] + pieces(after, sep),
{
    cutting_takes_one_character(before, sep, after);
}

/// The order of texts is that of the first characters in which they differ, and a text comes
/// before every longer one that begins with it.
pub proof fn first_difference_decides(common: Seq<char>, x: char, y: char, a: Seq<char>, b: Seq<char>)
    requires
        x < y,
    ensures
        text_order(common.push(x) + a, common.push(y) + b) == Order::Less,
        text_order(common.push(y) + b, common.push(x) + a) == Order::Greater,
        text_order(common, common.push(x) + a) == Order::Less,
    decreases common.len(),
{
    let p = common.push(x) + a;
    let q = common.push(y) + b;
    if common.len() > 0 {
        let t = common.drop_first();
        first_difference_decides(t, x, y, a, b);
        assert(p.drop_first() =~= t.push(x) + a);
        assert(q.drop_first() =~= t.push(y) + b);
        assert(p[0] == common[0] && q[0] == common[0]);
    } else {
        assert(p[0] == x && q[0] == y);
    }
}

/// Taking a character off the back leaves a text that does not end with it, and takes nothing
/// else: what was taken is that character, any number of times.
pub proof fn trailing_characters_are_taken(s: Seq<char>, c: char)
    ensures
        without_trailing(s.push(c), c) == without_trailing(s, c),
        s.len() == 0 || s.last() != c ==> without_trailing(s, c) == s,
        forall|d: char| d != c ==> #[trigger] without_trailing(s.push(d), c) == s.push(d),
        without_trailing(s, c).len() > 0 ==> without_trailing(s, c).last() != c,
    decreases s.len(),
{
    assert(s.push(c).drop_last() =~= s);
    if s.len() > 0 {
        trailing_characters_are_taken(s.drop_last(), c);
    }
}

} // verus!
