//! Paths, as texts with slashes in them.
use vstd::prelude::*;

use crate::text::{self, Order};

verus! {

/// The names that a path is made of: what stands between its slashes, without the empty
/// ones and without the dots that stand for the directory itself.
pub open spec fn names(pieces: Seq<Seq<char>>) -> Seq<Seq<char>>
    decreases pieces.len(),
{
    if pieces.len() == 0 {
        Seq::empty()
    } else {
        let before = names(pieces.drop_last());
        if pieces.last().len() == 0 || pieces.last() == "."@ {
            before
        } else {
            before.push(pieces.last())
        }
    }
}

/// The names of a path.
pub open spec fn path_names(path: Seq<char>) -> Seq<Seq<char>> {
    names(text::pieces(path, '/'))
}

/// Splits a path into its names.
pub fn names_of(path: &str) -> (r: Vec<String>)
    ensures
        text::texts(r@) == path_names(path@),
{
    let parts = text::split(path, '/');
    let ghost all = text::pieces(path@, '/');
    let mut out: Vec<String> = Vec::new();
    let mut i: usize = 0;
    assert(text::texts(out@) =~= names(all.take(0)));
    while i < parts.len()
        invariant
            i <= parts@.len(),
            text::texts(parts@) == all,
            text::texts(out@) == names(all.take(i as int)),
        decreases parts@.len() - i,
    {
        assert(all.take(i + 1).drop_last() =~= all.take(i as int));
        assert(all.take(i + 1).last() == parts@[i as int]@);
        if !parts[i].as_str().is_empty() && !text::same(parts[i].as_str(), ".") {
            let ghost before = text::texts(out@);
            out.push(parts[i].clone());
            assert(text::texts(out@) =~= before.push(parts@[i as int]@));
        }
        i = i + 1;
    }
    assert(all.take(i as int) =~= all);
    out
}

/// The last name of a list, unless it stands for the parent directory.
pub open spec fn last_name(names: Seq<Seq<char>>) -> Option<Seq<char>> {
    if names.len() > 0 && names.last() != ".."@ {
        Some(names.last())
    } else {
        None
    }
}

/// The last name of a path, unless it stands for the parent directory.
pub open spec fn file_name(path: Seq<char>) -> Option<Seq<char>> {
    last_name(path_names(path))
}

/// The last name of the directory that a path lies in.
pub open spec fn parent_name(path: Seq<char>) -> Option<Seq<char>> {
    if path_names(path).len() > 0 {
        last_name(path_names(path).drop_last())
    } else {
        None
    }
}

/// The last name in the first `n` names.
fn last_of(names: &Vec<String>, n: usize) -> (r: Option<String>)
    requires
        n <= names@.len(),
    ensures
        match r {
            Some(s) => last_name(text::texts(names@).take(n as int)) == Some(s@),
            None => last_name(text::texts(names@).take(n as int)) is None,
        },
{
    if n == 0 {
        return None;
    }
    assert(text::texts(names@).take(n as int).last() == names@[n - 1]@);
    if text::same(names[n - 1].as_str(), "..") {
        None
    } else {
        Some(names[n - 1].clone())
    }
}

/// The last name of a path, and that of the directory it lies in.
pub fn last_names(path: &str) -> (r: (Option<String>, Option<String>))
    ensures
        match r.0 {
            Some(s) => file_name(path@) == Some(s@),
            None => file_name(path@) is None,
        },
        match r.1 {
            Some(s) => parent_name(path@) == Some(s@),
            None => parent_name(path@) is None,
        },
{
    let names = names_of(path);
    let n: usize = names.len();
    let ghost all = text::texts(names@);
    assert(all.take(n as int) =~= all);
    if n == 0 {
        return (None, None);
    }
    assert(all.take(n - 1) =~= all.drop_last());
    (last_of(&names, n), last_of(&names, n - 1))
}

/// Where a path starts: at the root, at the directory itself where that is written down, or
/// at a name.
pub open spec fn start(path: Seq<char>) -> int {
    if path.len() > 0 && path[0] == '/' {
        0
    } else if text::pieces(path, '/')[0] == "."@ {
        1
    } else {
        2
    }
}

/// Two paths name the same file by the same names: they start alike and have the same names.
pub open spec fn same_path(a: Seq<char>, b: Seq<char>) -> bool {
    start(a) == start(b) && path_names(a) == path_names(b)
}

fn start_of(path: &str) -> (r: u8)
    ensures
        r == start(path@),
{
    let v = text::chars_of(path);
    if v.len() > 0 && v[0] == '/' {
        return 0;
    }
    let pieces = text::split(path, '/');
    proof {
        assert(text::pieces(path@, '/').len() > 0);
        assert(text::texts(pieces@)[0] == pieces@[0]@);
    }
    if text::same(pieces[0].as_str(), ".") {
        1
    } else {
        2
    }
}

/// Whether two paths name the same file by the same names.
pub fn same(a: &str, b: &str) -> (r: bool)
    ensures
        r == same_path(a@, b@),
{
    if start_of(a) != start_of(b) {
        return false;
    }
    let x = names_of(a);
    let y = names_of(b);
    let ghost p = path_names(a@);
    let ghost q = path_names(b@);
    assert(p.len() == x@.len() && q.len() == y@.len());
    if x.len() != y.len() {
        return false;
    }
    let mut i: usize = 0;
    while i < x.len()
        invariant
            i <= x@.len(),
            x@.len() == y@.len(),
            p == path_names(a@),
            q == path_names(b@),
            text::texts(x@) == p,
            text::texts(y@) == q,
            forall|k: int| 0 <= k < i ==> #[trigger] p[k] == q[k],
        decreases x@.len() - i,
    {
        assert(p[i as int] == x@[i as int]@);
        assert(q[i as int] == y@[i as int]@);
        if !text::same(x[i].as_str(), y[i].as_str()) {
            return false;
        }
        i = i + 1;
    }
    assert(p =~= q);
    true
}

/// The order of two names: the parent directory comes before any other.
pub open spec fn name_order(a: Seq<char>, b: Seq<char>) -> Order {
    if a == ".."@ {
        if b == ".."@ {
            Order::Equal
        } else {
            Order::Less
        }
    } else if b == ".."@ {
        Order::Greater
    } else {
        text::text_order(a, b)
    }
}

/// The order of two lists of names: name by name.
pub open spec fn names_order(a: Seq<Seq<char>>, b: Seq<Seq<char>>) -> Order
    decreases a.len(),
{
    if a.len() == 0 {
        if b.len() == 0 {
            Order::Equal
        } else {
            Order::Less
        }
    } else if b.len() == 0 {
        Order::Greater
    } else {
        match name_order(a[0], b[0]) {
            Order::Equal => names_order(a.drop_first(), b.drop_first()),
            o => o,
        }
    }
}

fn compare_name(a: &str, b: &str) -> (o: Order)
    ensures
        o == name_order(a@, b@),
{
    if text::same(a, "..") {
        if text::same(b, "..") {
            Order::Equal
        } else {
            Order::Less
        }
    } else if text::same(b, "..") {
        Order::Greater
    } else {
        text::compare(a, b)
    }
}

/// The place of a path among others, by where it starts: the empty path comes first, and then
/// those that start at the root, at the directory itself where that is written down, and at a
/// name.
pub open spec fn place(path: Seq<char>) -> int {
    if path.len() == 0 {
        -1
    } else {
        start(path)
    }
}

/// The order of two paths: by where they start, and then name by name.
pub open spec fn path_order(a: Seq<char>, b: Seq<char>) -> Order {
    if place(a) < place(b) {
        Order::Less
    } else if place(a) > place(b) {
        Order::Greater
    } else {
        names_order(path_names(a), path_names(b))
    }
}

fn place_of(path: &str) -> (r: i8)
    ensures
        r == place(path@),
{
    if path.is_empty() {
        -1
    } else {
        match start_of(path) {
            0 => 0,
            1 => 1,
            _ => 2,
        }
    }
}

/// Compares two paths: by where they start, and then name by name.
pub fn compare(a: &str, b: &str) -> (o: Order)
    ensures
        o == path_order(a@, b@),
{
    let from_a: i8 = place_of(a);
    let from_b: i8 = place_of(b);
    if from_a < from_b {
        return Order::Less;
    }
    if from_a > from_b {
        return Order::Greater;
    }
    let x = names_of(a);
    let y = names_of(b);
    let ghost p = path_names(a@);
    let ghost q = path_names(b@);
    let mut i: usize = 0;
    assert(p.skip(0) =~= p);
    assert(q.skip(0) =~= q);
    while i < x.len() && i < y.len()
        invariant
            i <= x@.len(),
            i <= y@.len(),
            p == path_names(a@),
            q == path_names(b@),
            place(a@) == place(b@),
            text::texts(x@) == p,
            text::texts(y@) == q,
            names_order(p.skip(i as int), q.skip(i as int)) == names_order(p, q),
        decreases x@.len() - i,
    {
        assert(p.skip(i as int)[0] == x@[i as int]@);
        assert(q.skip(i as int)[0] == y@[i as int]@);
        match compare_name(x[i].as_str(), y[i].as_str()) {
            Order::Equal => {},
            o => {
                return o;
            },
        }
        assert(p.skip(i as int).drop_first() =~= p.skip(i + 1));
        assert(q.skip(i as int).drop_first() =~= q.skip(i + 1));
        i = i + 1;
    }
    if i < x.len() {
        Order::Greater
    } else if i < y.len() {
        Order::Less
    } else {
        Order::Equal
    }
}

proof fn name_order_laws(a: Seq<char>, b: Seq<char>)
    ensures
        name_order(a, b) == Order::Equal <==> a == b,
        name_order(a, b) == Order::Less <==> name_order(b, a) == Order::Greater,
{
    text::text_order_equal(a, b);
    text::text_order_mirrored(a, b);
}

proof fn name_order_transitive(a: Seq<char>, b: Seq<char>, c: Seq<char>)
    requires
        name_order(a, b) == Order::Less,
        name_order(b, c) == Order::Less,
    ensures
        name_order(a, c) == Order::Less,
{
    if a != ".."@ && b != ".."@ && c != ".."@ {
        text::text_order_transitive(a, b, c);
    }
}

/// Lists of names are in the order `Equal` only with themselves.
proof fn names_order_equal(a: Seq<Seq<char>>, b: Seq<Seq<char>>)
    ensures
        names_order(a, b) == Order::Equal <==> a == b,
    decreases a.len(),
{
    if a.len() > 0 && b.len() > 0 {
        name_order_laws(a[0], b[0]);
        names_order_equal(a.drop_first(), b.drop_first());
        assert(a =~= seq![a[0]] + a.drop_first());
        assert(b =~= seq![b[0]] + b.drop_first());
    } else if a.len() == 0 && b.len() == 0 {
        assert(a =~= b);
    }
}

/// Swapping two lists of names mirrors their order.
proof fn names_order_mirrored(a: Seq<Seq<char>>, b: Seq<Seq<char>>)
    ensures
        names_order(a, b) == Order::Less <==> names_order(b, a) == Order::Greater,
    decreases a.len(),
{
    if a.len() > 0 && b.len() > 0 {
        name_order_laws(a[0], b[0]);
        name_order_laws(b[0], a[0]);
        names_order_mirrored(a.drop_first(), b.drop_first());
    }
}

/// The order of lists of names is transitive.
proof fn names_order_transitive(a: Seq<Seq<char>>, b: Seq<Seq<char>>, c: Seq<Seq<char>>)
    requires
        names_order(a, b) == Order::Less,
        names_order(b, c) == Order::Less,
    ensures
        names_order(a, c) == Order::Less,
    decreases a.len(),
{
    if a.len() > 0 && b.len() > 0 && c.len() > 0 {
        name_order_laws(a[0], b[0]);
        name_order_laws(b[0], c[0]);
        if name_order(a[0], b[0]) == Order::Less && name_order(b[0], c[0]) == Order::Less {
            name_order_transitive(a[0], b[0], c[0]);
        } else if a[0] == b[0] && b[0] == c[0] {
            name_order_laws(a[0], c[0]);
            names_order_transitive(a.drop_first(), b.drop_first(), c.drop_first());
        }
    }
}

/// Paths are in the order `Equal` only where they start alike and have the same names.
pub proof fn path_order_equal(a: Seq<char>, b: Seq<char>)
    ensures
        path_order(a, b) == Order::Equal <==> place(a) == place(b) && path_names(a) == path_names(b),
{
    names_order_equal(path_names(a), path_names(b));
}

/// Swapping two paths mirrors their order.
pub proof fn path_order_mirrored(a: Seq<char>, b: Seq<char>)
    ensures
        path_order(a, b) == Order::Less <==> path_order(b, a) == Order::Greater,
{
    names_order_mirrored(path_names(a), path_names(b));
}

/// The order of paths is transitive.
pub proof fn path_order_transitive(a: Seq<char>, b: Seq<char>, c: Seq<char>)
    requires
        path_order(a, b) == Order::Less,
        path_order(b, c) == Order::Less,
    ensures
        path_order(a, c) == Order::Less,
{
    if place(a) == place(b) && place(b) == place(c) {
        names_order_transitive(path_names(a), path_names(b), path_names(c));
    }
}

proof fn pieces_behind(dir: Seq<char>, sep: char, name: Seq<char>)
    requires
        !name.contains(sep),
    ensures
        text::pieces(dir.push(sep) + name, sep) == text::pieces(dir, sep).push(name),
    decreases dir.len(),
{
    if dir.contains(sep) {
        text::first_index_is_least(dir, sep);
        let i = text::first_index(dir, sep);
        let before = dir.take(i);
        let after = dir.skip(i + 1);
        assert(i < dir.len() && dir[i] == sep);
        assert(!before.contains(sep)) by {
            if before.contains(sep) {
                let k = choose|k: int| 0 <= k < before.len() && before[k] == sep;
                assert(dir[k] == sep);
            }
        }
        assert(dir =~= before.push(sep) + after);
        assert(dir.push(sep) + name =~= before.push(sep) + (after.push(sep) + name));
        text::splitting_takes_the_separators(before, sep, after);
        text::splitting_takes_the_separators(before, sep, after.push(sep) + name);
        pieces_behind(after, sep, name);
        assert(seq![before] + text::pieces(after, sep).push(name) =~= (seq![before] + text::pieces(
            after,
            sep,
        )).push(name));
    } else {
        text::splitting_takes_the_separators(dir, sep, name);
        text::splitting_takes_the_separators(name, sep, dir);
        assert(seq![dir] + seq![name] =~= seq![dir].push(name));
    }
}

/// A name behind a slash is the last name of the path, and what stands before the slash is the
/// path of its directory. Nothing behind a slash, or a dot, adds no name; two dots are no name.
pub proof fn the_last_name_stands_behind_a_slash(dir: Seq<char>, name: Seq<char>)
    requires
        !name.contains('/'),
    ensures
        name.len() > 0 && name != "."@ && name != ".."@ ==> file_name(dir.push('/') + name) == Some(
            name,
        ) && parent_name(dir.push('/') + name) == file_name(dir),
        name.len() > 0 && name != "."@ && name != ".."@ ==> file_name(name) == Some(name)
            && parent_name(name) is None,
        name.len() == 0 || name == "."@ ==> file_name(dir.push('/') + name) == file_name(dir)
            && parent_name(dir.push('/') + name) == parent_name(dir),
        name == ".."@ ==> file_name(dir.push('/') + name) is None,
{
    reveal_strlit(".");
    reveal_strlit("..");
    assert("."@.len() == 1 && ".."@.len() == 2);
    pieces_behind(dir, '/', name);
    let all = text::pieces(dir, '/');
    assert(all.push(name).drop_last() =~= all);
    text::splitting_takes_the_separators(name, '/', dir);
    let one = text::pieces(name, '/');
    assert(one.drop_last() =~= Seq::empty());
    assert(names(one.drop_last()) =~= Seq::empty());
    assert(names(all).push(name).drop_last() =~= names(all));
}

/// The empty path comes first, then those that start at the root, then those that start with a dot
/// of their own, then those that start with a name; among those that start alike the parent
/// directory comes before every other name, and other names in the order of texts.
pub proof fn paths_are_ordered_by_their_start(a: Seq<char>, b: Seq<char>, rest: Seq<char>)
    requires
        a.len() > 0 && !a.contains('/') && a != "."@,
        b.len() > 0 && !b.contains('/') && b != "."@,
    ensures
        path_order(Seq::empty(), seq!['/'] + rest) == Order::Less,
        path_order(seq!['/'] + rest, seq!['.', '/'] + rest) == Order::Less,
        path_order(seq!['.', '/'] + rest, a) == Order::Less,
        a == ".."@ && b != ".."@ ==> path_order(a, b) == Order::Less,
        a != ".."@ && b != ".."@ ==> path_order(a, b) == text::text_order(a, b),
{
    reveal_strlit(".");
    reveal_strlit("..");
    assert("."@ =~= seq!['.']);
    let root = seq!['/'] + rest;
    let dot = seq!['.', '/'] + rest;
    assert(root[0] == '/');
    assert(!seq!['.'].contains('/'));
    text::splitting_takes_the_separators(seq!['.'], '/', rest);
    assert(dot =~= seq!['.'].push('/') + rest);
    assert(dot[0] == '.');
    text::splitting_takes_the_separators(a, '/', rest);
    text::splitting_takes_the_separators(b, '/', rest);
    assert(a[0] != '/') by {
        assert(a.contains(a[0]));
    }
    assert(b[0] != '/') by {
        assert(b.contains(b[0]));
    }
    let x = text::pieces(a, '/');
    let y = text::pieces(b, '/');
    assert(names(x.drop_last()) =~= Seq::empty());
    assert(names(y.drop_last()) =~= Seq::empty());
    assert(path_names(a) =~= seq![a]);
    assert(path_names(b) =~= seq![b]);
    assert(path_names(a).drop_first() =~= Seq::empty());
    assert(path_names(b).drop_first() =~= Seq::empty());
    assert(names_order(path_names(a).drop_first(), path_names(b).drop_first()) == Order::Equal);
    text::text_order_equal(a, b);
}

} // verus!
