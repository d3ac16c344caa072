//! Paths as the system reads them: by their parts, whatever slashes stand between.

use crate::text::{chars_of, same_chars, string_of, sub_vec, views};
use vstd::prelude::*;

verus! {

// ---- what a path is --------------------------------------------------------

/// A part that names something: slashes that stand together and a `.` name nothing.
pub open spec fn names_something(part: Seq<char>) -> bool {
    part.len() > 0 && part != seq!['.']
}

/// What a path starts with: the root, or a `.` of its own, or nothing.
pub open spec fn lead(p: Seq<char>) -> Seq<char> {
    if p.len() > 0 && p[0] == '/' {
        seq!['/']
    } else if p.len() > 0 && p[0] == '.' && (p.len() == 1 || p[1] == '/') {
        seq!['.']
    } else {
        Seq::empty()
    }
}

/// The path behind what it starts with.
pub open spec fn body(p: Seq<char>) -> Seq<char> {
    p.skip(lead(p).len() as int)
}

/// How many characters of `s` stand before its first slash.
pub open spec fn to_slash(s: Seq<char>) -> nat
    decreases s.len(),
{
    if s.len() == 0 || s[0] == '/' {
        0
    } else {
        1 + to_slash(s.skip(1))
    }
}

/// What stands before the first slash.
pub open spec fn first_part(s: Seq<char>) -> Seq<char> {
    s.take(to_slash(s) as int)
}

/// What stands behind the first slash.
pub open spec fn behind_first(s: Seq<char>) -> Seq<char> {
    if to_slash(s) < s.len() {
        s.skip(to_slash(s) as int + 1)
    } else {
        Seq::empty()
    }
}

proof fn lemma_to_slash(s: Seq<char>)
    ensures
        to_slash(s) <= s.len(),
        s.len() > 0 ==> behind_first(s).len() < s.len(),
    decreases s.len(),
{
    if s.len() > 0 && s[0] != '/' {
        lemma_to_slash(s.skip(1));
    }
}

/// The names in `s`, in order.
pub open spec fn names(s: Seq<char>) -> Seq<Seq<char>>
    decreases s.len(),
    via names_shrink
{
    if s.len() == 0 {
        Seq::empty()
    } else if names_something(first_part(s)) {
        seq![first_part(s)] + names(behind_first(s))
    } else {
        names(behind_first(s))
    }
}

#[via_fn]
proof fn names_shrink(s: Seq<char>) {
    lemma_to_slash(s);
}

/// The parts of a path: what it starts with, if anything, and then its names. Two
/// paths with the same parts are the same path.
pub open spec fn parts(p: Seq<char>) -> Seq<Seq<char>> {
    if lead(p).len() > 0 {
        seq![lead(p)] + names(body(p))
    } else {
        names(body(p))
    }
}

/// `p` is `dir` or below it.
pub open spec fn is_under(p: Seq<char>, dir: Seq<char>) -> bool {
    parts(dir).len() <= parts(p).len() && parts(p).take(parts(dir).len() as int) == parts(dir)
}

/// `s` behind its first `n` names.
pub open spec fn behind_names(s: Seq<char>, n: int) -> Seq<char>
    decreases s.len(),
    via behind_names_shrink
{
    if s.len() == 0 || n <= 0 {
        s
    } else if names_something(first_part(s)) {
        behind_names(behind_first(s), n - 1)
    } else {
        behind_names(behind_first(s), n)
    }
}

#[via_fn]
proof fn behind_names_shrink(s: Seq<char>, n: int) {
    lemma_to_slash(s);
}

/// `s` from its first name on.
pub open spec fn from_name(s: Seq<char>) -> Seq<char>
    decreases s.len(),
    via from_name_shrink
{
    if s.len() == 0 || names_something(first_part(s)) {
        s
    } else {
        from_name(behind_first(s))
    }
}

#[via_fn]
proof fn from_name_shrink(s: Seq<char>) {
    lemma_to_slash(s);
}

/// Where the last slash of `s` is, before `end`.
pub open spec fn last_slash(s: Seq<char>, end: int) -> Option<int>
    decreases end,
{
    if end <= 0 {
        None
    } else if s[end - 1] == '/' {
        Some(end - 1)
    } else {
        last_slash(s, end - 1)
    }
}

proof fn lemma_last_slash(s: Seq<char>, end: int)
    requires
        end <= s.len(),
    ensures
        last_slash(s, end) matches Some(i) ==> 0 <= i < end && s[i] == '/',
    decreases end,
{
    if end > 0 && s[end - 1] != '/' {
        lemma_last_slash(s, end - 1);
    }
}

/// What stands behind the last slash.
pub open spec fn last_part(s: Seq<char>) -> Seq<char> {
    match last_slash(s, s.len() as int) {
        Some(i) => s.skip(i + 1),
        None => s,
    }
}

/// What stands before the last slash.
pub open spec fn before_last(s: Seq<char>) -> Seq<char> {
    match last_slash(s, s.len() as int) {
        Some(i) => s.take(i),
        None => Seq::empty(),
    }
}

/// `s` up to the end of its last name.
pub open spec fn to_name(s: Seq<char>) -> Seq<char>
    decreases s.len(),
    via to_name_shrinks
{
    if s.len() == 0 || names_something(last_part(s)) {
        s
    } else {
        to_name(before_last(s))
    }
}

#[via_fn]
proof fn to_name_shrinks(s: Seq<char>) {
    lemma_last_slash(s, s.len() as int);
}

/// What is left of `p` below `dir`, which is not empty: what stands between the names
/// stays as it is written.
pub open spec fn rest_under(p: Seq<char>, dir: Seq<char>) -> Option<Seq<char>> {
    if is_under(p, dir) {
        Some(to_name(from_name(behind_names(body(p), parts(dir).len() - lead(p).len()))))
    } else {
        None
    }
}

/// The directory that a path is in.
pub open spec fn parent_of(p: Seq<char>) -> Option<Seq<char>> {
    let b = to_name(body(p));
    if b.len() > 0 {
        Some(lead(p) + to_name(before_last(b)))
    } else if lead(p) == seq!['.'] {
        Some(Seq::empty())
    } else {
        None
    }
}

/// The name of a path in its directory.
pub open spec fn file_name_of(p: Seq<char>) -> Option<Seq<char>> {
    let b = to_name(body(p));
    if b.len() == 0 || last_part(b) == seq!['.', '.'] {
        None
    } else {
        Some(last_part(b))
    }
}

/// A path below a directory, as one is joined to the other.
pub open spec fn joined(dir: Seq<char>, rest: Seq<char>) -> Seq<char> {
    if dir.len() == 0 || dir.last() == '/' {
        dir + rest
    } else {
        dir + seq!['/'] + rest
    }
}

// ---- reading one -----------------------------------------------------------

fn lead_len(p: &[char]) -> (n: usize)
    ensures
        n == lead(p@).len(),
        n <= p@.len(),
{
    if p.len() > 0 && (p[0] == '/' || p[0] == '.' && (p.len() == 1 || p[1] == '/')) {
        1
    } else {
        0
    }
}

fn something(part: &[char]) -> (r: bool)
    ensures
        r == names_something(part@),
{
    if part.len() == 1 {
        assert((part@ == seq!['.']) == (part@[0] == '.')) by {
            if part@[0] == '.' {
                assert(part@ =~= seq!['.']);
            }
        }
    }
    part.len() > 1 || part.len() == 1 && part[0] != '.'
}

/// Where the first slash at or behind `i` is, or the end.
fn slash_from(s: &[char], i: usize) -> (j: usize)
    requires
        i <= s@.len(),
    ensures
        j == i + to_slash(s@.skip(i as int)),
        i <= j <= s@.len(),
{
    let mut j: usize = i;
    while j < s.len() && s[j] != '/'
        invariant
            i <= j <= s@.len(),
            i + to_slash(s@.skip(i as int)) == j + to_slash(s@.skip(j as int)),
        decreases s@.len() - j,
    {
        assert(s@.skip(j as int).skip(1) =~= s@.skip(j + 1));
        j = j + 1;
    }
    j
}

/// What stands behind the first slash, as the rest of a longer text.
proof fn lemma_behind(s: Seq<char>, i: int)
    requires
        0 <= i < s.len(),
    ensures
        ({
            let j = i + to_slash(s.skip(i));
            &&& i <= j <= s.len()
            &&& first_part(s.skip(i)) == s.subrange(i, j)
            &&& behind_first(s.skip(i)) == s.skip(
                if j < s.len() {
                    j + 1
                } else {
                    s.len() as int
                },
            )
        }),
{
    let t = s.skip(i);
    lemma_to_slash(t);
    let j = i + to_slash(t);
    assert(first_part(t) =~= s.subrange(i, j));
    if j < s.len() {
        assert(behind_first(t) =~= s.skip(j + 1));
    } else {
        assert(behind_first(t) =~= s.skip(s.len() as int));
    }
}

fn names_in(s: &[char]) -> (r: Vec<Vec<char>>)
    ensures
        views(r@) == names(s@),
{
    let mut r: Vec<Vec<char>> = Vec::new();
    let mut i: usize = 0;
    assert(s@.skip(0) =~= s@);
    assert(views(r@) + names(s@) =~= names(s@));
    while i < s.len()
        invariant
            i <= s@.len(),
            views(r@) + names(s@.skip(i as int)) == names(s@),
        decreases s@.len() - i,
    {
        let j = slash_from(s, i);
        let part = sub_vec(s, i, j);
        let ghost had = views(r@);
        let ghost more = names(behind_first(s@.skip(i as int)));
        proof {
            lemma_behind(s@, i as int);
        }
        if something(&part) {
            r.push(part);
            assert(views(r@) =~= had.push(part@));
            assert(had.push(part@) + more =~= had + (seq![part@] + more));
        }
        i = if j < s.len() {
            j + 1
        } else {
            s.len()
        };
    }
    assert(s@.skip(i as int) =~= Seq::empty());
    assert(views(r@) + Seq::<Seq<char>>::empty() =~= views(r@));
    r
}

fn parts_in(p: &[char]) -> (r: Vec<Vec<char>>)
    ensures
        views(r@) == parts(p@),
{
    let n = lead_len(p);
    let b = sub_vec(p, n, p.len());
    assert(b@ =~= body(p@));
    let mut v = names_in(&b);
    if n > 0 {
        let first = sub_vec(p, 0, n);
        assert(first@ =~= lead(p@));
        let ghost had = views(v@);
        v.insert(0, first);
        assert(views(v@) =~= seq![first@] + had);
    }
    v
}

/// Whether `p` is `dir` or below it.
pub fn under(p: &[char], dir: &[char]) -> (r: bool)
    ensures
        r == is_under(p@, dir@),
{
    let v = parts_in(p);
    let d = parts_in(dir);
    assert(views(v@).len() == v@.len() && views(d@).len() == d@.len());
    if d.len() > v.len() {
        return false;
    }
    let mut i: usize = 0;
    while i < d.len()
        invariant
            i <= d@.len() <= v@.len(),
            views(v@).len() == v@.len(),
            views(d@).len() == d@.len(),
            views(v@) == parts(p@),
            views(d@) == parts(dir@),
            forall|k: int| 0 <= k < i ==> #[trigger] views(v@)[k] == views(d@)[k],
        decreases d@.len() - i,
    {
        assert(views(v@)[i as int] == v@[i as int]@ && views(d@)[i as int] == d@[i as int]@);
        if !same_chars(&v[i], &d[i]) {
            assert(parts(p@).take(d@.len() as int)[i as int] != parts(dir@)[i as int]);
            return false;
        }
        i = i + 1;
    }
    assert(parts(p@).take(d@.len() as int) =~= parts(dir@));
    true
}

/// Whether two paths are the same.
pub fn same_path(a: &str, b: &str) -> (r: bool)
    ensures
        r == (parts(a@) == parts(b@)),
{
    let v = chars_of(a);
    let w = chars_of(b);
    let r = under(&v, &w) && under(&w, &v);
    proof {
        let (x, y) = (parts(a@), parts(b@));
        if r {
            assert(x.take(x.len() as int) =~= x);
        }
        if x == y {
            assert(x.take(x.len() as int) =~= x);
        }
    }
    r
}

fn pass_names(s: &[char], n: usize) -> (r: Vec<char>)
    ensures
        r@ == behind_names(s@, n as int),
{
    let mut i: usize = 0;
    let mut left: usize = n;
    assert(s@.skip(0) =~= s@);
    while i < s.len() && left > 0
        invariant
            i <= s@.len(),
            behind_names(s@, n as int) == behind_names(s@.skip(i as int), left as int),
        decreases s@.len() - i,
    {
        let j = slash_from(s, i);
        let part = sub_vec(s, i, j);
        proof {
            lemma_behind(s@, i as int);
        }
        if something(&part) {
            left = left - 1;
        }
        i = if j < s.len() {
            j + 1
        } else {
            s.len()
        };
    }
    let r = sub_vec(s, i, s.len());
    assert(r@ =~= s@.skip(i as int));
    r
}

fn start_at_name(s: &[char]) -> (r: Vec<char>)
    ensures
        r@ == from_name(s@),
{
    let mut i: usize = 0;
    assert(s@.skip(0) =~= s@);
    while i < s.len()
        invariant
            i <= s@.len(),
            from_name(s@) == from_name(s@.skip(i as int)),
        decreases s@.len() - i,
    {
        let j = slash_from(s, i);
        let part = sub_vec(s, i, j);
        proof {
            lemma_behind(s@, i as int);
        }
        if something(&part) {
            let r = sub_vec(s, i, s.len());
            assert(r@ =~= s@.skip(i as int));
            return r;
        }
        i = if j < s.len() {
            j + 1
        } else {
            s.len()
        };
    }
    let r = sub_vec(s, i, s.len());
    assert(r@ =~= s@.skip(i as int));
    r
}

/// What stands before the last slash and behind it.
fn cut(s: &[char]) -> (r: (Vec<char>, Vec<char>))
    ensures
        r.0@ == before_last(s@),
        r.1@ == last_part(s@),
{
    let mut i: usize = s.len();
    while i > 0
        invariant
            i <= s@.len(),
            last_slash(s@, s@.len() as int) == last_slash(s@, i as int),
        decreases i,
    {
        if s[i - 1] == '/' {
            let dir = sub_vec(s, 0, i - 1);
            let name = sub_vec(s, i, s.len());
            assert(dir@ =~= s@.take(i - 1));
            assert(name@ =~= s@.skip(i as int));
            return (dir, name);
        }
        i = i - 1;
    }
    let none: Vec<char> = Vec::new();
    let all = sub_vec(s, 0, s.len());
    assert(none@ =~= Seq::empty());
    assert(all@ =~= s@);
    (none, all)
}

fn end_at_name(s: &[char]) -> (r: Vec<char>)
    ensures
        r@ == to_name(s@),
{
    let mut v = sub_vec(s, 0, s.len());
    assert(v@ =~= s@);
    while v.len() > 0
        invariant
            to_name(s@) == to_name(v@),
        decreases v@.len(),
    {
        let (dir, name) = cut(&v);
        if something(&name) {
            return v;
        }
        proof {
            lemma_last_slash(v@, v@.len() as int);
        }
        v = dir;
    }
    v
}

/// What is left of `p` below `dir`, which is not empty.
pub fn strip(p: &[char], dir: &[char]) -> (r: Option<Vec<char>>)
    requires
        dir@.len() > 0,
    ensures
        match r {
            None => rest_under(p@, dir@) is None,
            Some(rest) => rest_under(p@, dir@) == Some(rest@),
        },
{
    if !under(p, dir) {
        return None;
    }
    let n = lead_len(p);
    let b = sub_vec(p, n, p.len());
    assert(b@ =~= body(p@));
    let d = parts_in(dir);
    assert(views(d@).len() == d@.len());
    proof {
        lemma_parts(dir@);
        if n > 0 && d.len() == 0 {
            assert(false);
        }
    }
    Some(end_at_name(&start_at_name(&pass_names(&b, d.len() - n))))
}

/// A path that is written at all has a part.
proof fn lemma_parts(p: Seq<char>)
    requires
        p.len() > 0,
    ensures
        parts(p).len() > 0,
{
    if lead(p).len() == 0 {
        assert(body(p) =~= p);
        lemma_to_slash(p);
        assert(p[0] != '/');
        assert(to_slash(p) >= 1);
        let f = first_part(p);
        assert(f[0] == p[0]);
        if f == seq!['.'] {
            assert(f.len() == 1);
            reveal_with_fuel(to_slash, 3);
            assert(to_slash(p.skip(1)) == 0);
            assert(p.skip(1).len() == 0 || p.skip(1)[0] == '/');
            assert(false);
        }
    }
}

/// The directory that `p` is in.
pub fn parent(p: &[char]) -> (r: Option<Vec<char>>)
    ensures
        match r {
            None => parent_of(p@) is None,
            Some(dir) => parent_of(p@) == Some(dir@),
        },
{
    let n = lead_len(p);
    let body_text = sub_vec(p, n, p.len());
    assert(body_text@ =~= body(p@));
    let b = end_at_name(&body_text);
    if b.len() > 0 {
        let (dir, _) = cut(&b);
        let mut r = sub_vec(p, 0, n);
        assert(r@ =~= lead(p@));
        let below = end_at_name(&dir);
        r.extend_from_slice(&below);
        assert(r@ =~= lead(p@) + below@);
        Some(r)
    } else if n > 0 && p[0] == '.' {
        assert(lead(p@) =~= seq!['.']);
        let none: Vec<char> = Vec::new();
        assert(none@ =~= Seq::empty());
        Some(none)
    } else {
        assert(lead(p@) != seq!['.']) by {
            if lead(p@) == seq!['.'] {
                assert(lead(p@)[0] == '.');
            }
        }
        None
    }
}

/// The name of `p` in its directory.
pub fn file_name(p: &[char]) -> (r: Option<Vec<char>>)
    ensures
        match r {
            None => file_name_of(p@) is None,
            Some(name) => file_name_of(p@) == Some(name@),
        },
{
    let n = lead_len(p);
    let body_text = sub_vec(p, n, p.len());
    assert(body_text@ =~= body(p@));
    let b = end_at_name(&body_text);
    if b.len() == 0 {
        return None;
    }
    let (_, name) = cut(&b);
    let up: [char; 2] = ['.', '.'];
    assert(up@ =~= seq!['.', '.']);
    if same_chars(&name, &up) {
        None
    } else {
        Some(name)
    }
}

/// `rest` below `dir`.
pub fn join(dir: &str, rest: &str) -> (s: String)
    ensures
        s@ == joined(dir@, rest@),
{
    let mut v = chars_of(dir);
    if v.len() > 0 && v[v.len() - 1] != '/' {
        v.push('/');
        assert(v@ =~= dir@ + seq!['/']);
    }
    let ghost d = v@;
    let w = chars_of(rest);
    v.extend_from_slice(&w);
    assert(v@ =~= d + rest@);
    string_of(&v)
}

/// A path is under itself and under whatever what it is under is under; two that are under
/// each other are one.
pub proof fn law_under_is_an_order(a: Seq<char>, b: Seq<char>, c: Seq<char>)
    ensures
        is_under(a, a),
        is_under(a, b) && is_under(b, c) ==> is_under(a, c),
        is_under(a, b) && is_under(b, a) ==> parts(a) == parts(b),
{
    let (x, y, z) = (parts(a), parts(b), parts(c));
    assert(x.take(x.len() as int) =~= x);
    if is_under(a, b) && is_under(b, c) {
        assert(x.take(z.len() as int) =~= x.take(y.len() as int).take(z.len() as int));
    }
}

} // verus!
