//! Text as sequences of characters: the string operations that the rest of
//! the library is written with, each with an exact contract.

use vstd::prelude::*;

verus! {

/// The characters of `s`, in order.
pub fn chars_of(s: &str) -> (v: Vec<char>)
    ensures
        v@ == s@,
{
    let mut v: Vec<char> = Vec::new();
    for c in it: s.chars()
        invariant
            it.seq() == s@,
            v@ == s@.take(it.index()),
    {
        v.push(c);
    }
    v
}

/// Appends one character to `s`, as `String::push` documents it.
pub assume_specification[ String::push ](s: &mut String, c: char)
    ensures
        final(s)@ == old(s)@.push(c),
;

/// The string made of the characters `v`.
pub fn string_of(v: &[char]) -> (s: String)
    ensures
        s@ == v@,
{
    let mut s = String::new();
    for i in 0..v.len()
        invariant
            s@ == v@.take(i as int),
    {
        s.push(v[i]);
    }
    assert(v@.take(v@.len() as int) =~= v@);
    s
}

/// Whether `a` and `b` are the same characters.
pub fn same(a: &str, b: &str) -> (r: bool)
    ensures
        r == (a@ == b@),
{
    let x = a.to_owned();
    let y = b.to_owned();
    x == y
}

/// The decimal digits of `n`, most significant first, without leading zeros.
pub open spec fn dec(n: nat) -> Seq<char>
    decreases n,
{
    if n < 10 {
        seq![digit(n)]
    } else {
        dec(n / 10).push(digit(n % 10))
    }
}

/// The decimal digit for `n`, below ten.
pub open spec fn digit(n: nat) -> char {
    (('0' as u32 + n) as u32) as char
}

/// `n` written in decimal.
pub fn decimal(n: u64) -> (s: String)
    ensures
        s@ == dec(n as nat),
    decreases n,
{
    if n < 10 {
        let mut s = String::new();
        s.push(digit_char(n as u8));
        s
    } else {
        let mut s = decimal(n / 10);
        s.push(digit_char((n % 10) as u8));
        s
    }
}

fn digit_char(d: u8) -> (c: char)
    requires
        d < 10,
    ensures
        c == digit(d as nat),
{
    (48u8 + d) as char
}

/// Whether `c` is an ASCII decimal digit.
pub open spec fn is_digit(c: char) -> bool {
    '0' <= c <= '9'
}

/// Whether every character of `s` is an ASCII decimal digit.
pub open spec fn all_digits(s: Seq<char>) -> bool {
    forall|i: int| 0 <= i < s.len() ==> is_digit(#[trigger] s[i])
}

/// The number that the decimal digits `s` write.
pub open spec fn digits_value(s: Seq<char>) -> nat
    decreases s.len(),
{
    if s.len() == 0 {
        0
    } else {
        digits_value(s.drop_last()) * 10 + (s.last() as u32 - '0' as u32) as nat
    }
}

/// The number that `s` writes: decimal digits, after an optional `+`.
pub open spec fn parsed(s: Seq<char>) -> Option<nat> {
    let d = if s.len() > 0 && s[0] == '+' {
        s.skip(1)
    } else {
        s
    };
    if d.len() > 0 && all_digits(d) {
        Some(digits_value(d))
    } else {
        None
    }
}

/// The number that `s` writes, if it is at most `max`.
pub open spec fn parsed_max(s: Seq<char>, max: nat) -> Option<nat> {
    match parsed(s) {
        Some(n) => if n <= max {
            Some(n)
        } else {
            None
        },
        None => None,
    }
}

/// A longer run of digits writes no smaller a number.
pub proof fn lemma_digits_value_grows(s: Seq<char>, k: int)
    requires
        all_digits(s),
        0 <= k <= s.len(),
    ensures
        digits_value(s.take(k)) <= digits_value(s),
    decreases s.len(),
{
    if k < s.len() {
        assert(s.drop_last().take(k) =~= s.take(k));
        assert(all_digits(s.drop_last()));
        lemma_digits_value_grows(s.drop_last(), k);
        assert(is_digit(s.last()));
    } else {
        assert(s.take(k) =~= s);
    }
}

/// Reads a decimal number of at most `max`.
pub fn parse_uint(s: &[char], max: u64) -> (r: Option<u64>)
    ensures
        match r {
            Some(n) => parsed_max(s@, max as nat) == Some(n as nat),
            None => parsed_max(s@, max as nat) is None,
        },
{
    let mut i: usize = 0;
    if s.len() > 0 && s[0] == '+' {
        i = 1;
    }
    let ghost d = if s@.len() > 0 && s@[0] == '+' {
        s@.skip(1)
    } else {
        s@
    };
    let start: usize = i;
    if i == s.len() {
        return None;
    }
    let mut n: u64 = 0;
    while i < s.len()
        invariant
            start <= i <= s.len(),
            start <= 1,
            start < s.len(),
            d == s@.skip(start as int),
            d == if s@.len() > 0 && s@[0] == '+' {
                s@.skip(1)
            } else {
                s@
            },
            n == digits_value(d.take(i - start)),
            n <= max,
            forall|k: int| 0 <= k < i - start ==> is_digit(#[trigger] d[k]),
        decreases s.len() - i,
    {
        let c = s[i];
        assert(d[i - start] == c);
        if !(c >= '0' && c <= '9') {
            assert(!is_digit(d[i - start]));
            return None;
        }
        let v: u64 = (c as u32 - 48) as u64;
        assert(d.take(i - start + 1).drop_last() =~= d.take(i - start));
        assert(d.take(i - start + 1).last() == c);
        assert(digits_value(d.take(i - start + 1)) == n * 10 + v);
        if n > (max - v.min(max)) / 10 || v > max {
            proof {
                assert(n * 10 + v > max);
                if parsed(s@) is Some {
                    lemma_digits_value_grows(d, i - start + 1);
                }
            }
            return None;
        }
        n = n * 10 + v;
        i = i + 1;
    }
    assert(d.take(d.len() as int) =~= d);
    Some(n)
}

/// `s` cut at every `sep`: always at least one piece, and the pieces joined
/// by `sep` are `s`.
pub open spec fn split(s: Seq<char>, sep: char) -> Seq<Seq<char>>
    decreases s.len(),
{
    if s.len() == 0 {
        seq![s]
    } else {
        let before = split(s.drop_last(), sep);
        if s.last() == sep {
            before.push(Seq::empty())
        } else {
            before.drop_last().push(before.last().push(s.last()))
        }
    }
}

/// `sep` does not stand in `s`.
pub open spec fn holds_no(s: Seq<char>, sep: char) -> bool {
    forall|i: int| 0 <= i < s.len() ==> #[trigger] s[i] != sep
}

/// What holds no separator is one piece.
pub proof fn lemma_one_piece(s: Seq<char>, sep: char)
    requires
        holds_no(s, sep),
    ensures
        split(s, sep) == seq![s],
    decreases s.len(),
{
    if s.len() > 0 {
        let most = s.drop_last();
        assert forall|i: int| 0 <= i < most.len() implies #[trigger] most[i] != sep by {
            assert(most[i] == s[i]);
        }
        lemma_one_piece(most, sep);
        assert(s[s.len() - 1] != sep);
        assert(most.push(s.last()) =~= s);
        assert(split(s, sep) =~= seq![s]);
    }
}

/// A separator and what stands behind it, without another, is one piece more.
pub proof fn lemma_piece_more(s: Seq<char>, sep: char, piece: Seq<char>)
    requires
        holds_no(piece, sep),
    ensures
        split(s.push(sep) + piece, sep) == split(s, sep).push(piece),
    decreases piece.len(),
{
    let all = s.push(sep) + piece;
    if piece.len() == 0 {
        assert(all =~= s.push(sep));
        assert(s.push(sep).drop_last() =~= s);
        assert(piece =~= Seq::empty());
    } else {
        let most = piece.drop_last();
        assert forall|i: int| 0 <= i < most.len() implies #[trigger] most[i] != sep by {
            assert(most[i] == piece[i]);
        }
        lemma_piece_more(s, sep, most);
        assert(piece[piece.len() - 1] != sep);
        assert(all.drop_last() =~= s.push(sep) + most);
        assert(all.last() == piece.last());
        assert(most.push(piece.last()) =~= piece);
        assert(split(s, sep).push(most).drop_last() =~= split(s, sep));
    }
}

/// A cut text has a piece.
pub proof fn lemma_split_len(s: Seq<char>, sep: char)
    ensures
        split(s, sep).len() >= 1,
    decreases s.len(),
{
    if s.len() > 0 {
        lemma_split_len(s.drop_last(), sep);
    }
}

/// The views of a list of character lists.
pub open spec fn views(v: Seq<Vec<char>>) -> Seq<Seq<char>> {
    Seq::new(v.len(), |i: int| v[i]@)
}

/// Cuts `s` at every `sep`.
pub fn split_at_char(s: &[char], sep: char) -> (r: Vec<Vec<char>>)
    ensures
        views(r@) == split(s@, sep),
        r.len() >= 1,
{
    let mut done: Vec<Vec<char>> = Vec::new();
    let mut cur: Vec<char> = Vec::new();
    assert(cur@ =~= s@.take(0));
    assert(views(done@).push(cur@) =~= split(s@.take(0), sep));
    for i in 0..s.len()
        invariant
            views(done@).push(cur@) =~= split(s@.take(i as int), sep),
    {
        assert(s@.take(i + 1).drop_last() =~= s@.take(i as int));
        let ghost before = split(s@.take(i as int), sep);
        assert(before.drop_last() =~= views(done@));
        assert(before.last() == cur@);
        if s[i] == sep {
            let ghost od = done@;
            done.push(cur);
            assert(views(done@) =~= views(od).push(od.push(cur)[od.len() as int]@));
            cur = Vec::new();
        } else {
            cur.push(s[i]);
        }
    }
    assert(s@.take(s@.len() as int) =~= s@);
    let ghost od = done@;
    done.push(cur);
    assert(views(done@) =~= views(od).push(od.push(cur)[od.len() as int]@));
    done
}

/// `s` without the run of `c` that ends it.
pub open spec fn trim_end(s: Seq<char>, c: char) -> Seq<char>
    decreases s.len(),
{
    if s.len() > 0 && s.last() == c {
        trim_end(s.drop_last(), c)
    } else {
        s
    }
}

/// Takes the run of `c` off the end of `v`.
pub fn trim_end_char(v: &mut Vec<char>, c: char)
    ensures
        final(v)@ == trim_end(old(v)@, c),
{
    loop
        invariant
            trim_end(v@, c) == trim_end(old(v)@, c),
        ensures
            v@ == trim_end(old(v)@, c),
        decreases v.len(),
    {
        let n: usize = v.len();
        if n == 0 || v[n - 1] != c {
            break;
        }
        let ghost before = v@;
        v.pop();
        assert(v@ =~= before.drop_last());
    }
}

/// Reads `bytes` as UTF-8 with `String::from_utf8`: `None` if they are not
/// valid UTF-8, else the characters that they encode.
#[verifier::external_body]
pub(crate) fn utf8_string(bytes: Vec<u8>) -> (r: Option<String>)
    ensures
        r is Some <==> vstd::utf8::valid_utf8(bytes@),
        r is Some ==> r->0@ == vstd::utf8::decode_utf8(bytes@),
{
    String::from_utf8(bytes).ok()
}

/// The part of `s` from `a` up to `b`, as a list of its own.
pub fn sub_vec<T: Copy>(s: &[T], a: usize, b: usize) -> (r: Vec<T>)
    requires
        a <= b <= s.len(),
    ensures
        r@ == s@.subrange(a as int, b as int),
{
    let mut r: Vec<T> = Vec::new();
    let mut i: usize = a;
    while i < b
        invariant
            a <= i <= b <= s.len(),
            r@ == s@.subrange(a as int, i as int),
        decreases b - i,
    {
        r.push(s[i]);
        i = i + 1;
        assert(s@.subrange(a as int, i as int) =~= s@.subrange(a as int, i - 1).push(s@[i - 1]));
    }
    r
}

/// Whether two lists hold the same values in the same order.
pub fn same_chars(a: &[char], b: &[char]) -> (r: bool)
    ensures
        r == (a@ == b@),
{
    if a.len() != b.len() {
        return false;
    }
    for i in 0..a.len()
        invariant
            a.len() == b.len(),
            forall|k: int| 0 <= k < i ==> a@[k] == b@[k],
    {
        if a[i] != b[i] {
            return false;
        }
    }
    assert(a@ =~= b@);
    true
}

/// Whether `a` is the characters of `b`.
pub fn is_text(a: &[char], b: &str) -> (r: bool)
    ensures
        r == (a@ == b@),
{
    let w = chars_of(b);
    same_chars(a, &w)
}

/// An ASCII letter in lower case; any other byte as it is.
pub open spec fn lower(b: u8) -> u8 {
    if 0x41 <= b <= 0x5a {
        (b + 0x20) as u8
    } else {
        b
    }
}

pub fn to_lower(b: u8) -> (r: u8)
    ensures
        r == lower(b),
{
    if b >= 0x41 && b <= 0x5a {
        b + 0x20
    } else {
        b
    }
}

/// An ASCII letter in lower case; any other character as it is.
pub open spec fn lower_char(c: char) -> char {
    if 'A' <= c <= 'Z' {
        ((c as u32 + 32) as u8) as char
    } else {
        c
    }
}

pub fn to_lower_char(c: char) -> (r: char)
    ensures
        r == lower_char(c),
{
    if c >= 'A' && c <= 'Z' {
        ((c as u32 + 32) as u8) as char
    } else {
        c
    }
}

/// The characters that have the bytes of `s` as their code.
pub open spec fn byte_chars(s: Seq<u8>) -> Seq<char> {
    Seq::new(s.len(), |i: int| s[i] as char)
}

pub fn chars_of_bytes(s: &[u8]) -> (r: Vec<char>)
    ensures
        r@ == byte_chars(s@),
{
    let mut r: Vec<char> = Vec::new();
    for i in 0..s.len()
        invariant
            r@ == byte_chars(s@.take(i as int)),
    {
        r.push(s[i] as char);
        assert(r@ =~= byte_chars(s@.take(i + 1)));
    }
    assert(s@.take(s@.len() as int) =~= s@);
    r
}

/// The characters of each string of a list.
pub open spec fn texts(v: Seq<String>) -> Seq<Seq<char>> {
    Seq::new(v.len(), |i: int| v[i]@)
}

/// Whether `c` has the Unicode property White_Space.
pub open spec fn is_white(c: char) -> bool {
    ||| '\u{9}' <= c <= '\u{d}'
    ||| c == ' '
    ||| c == '\u{85}'
    ||| c == '\u{a0}'
    ||| c == '\u{1680}'
    ||| '\u{2000}' <= c <= '\u{200a}'
    ||| c == '\u{2028}'
    ||| c == '\u{2029}'
    ||| c == '\u{202f}'
    ||| c == '\u{205f}'
    ||| c == '\u{3000}'
}

pub fn white(c: char) -> (r: bool)
    ensures
        r == is_white(c),
{
    (c >= '\u{9}' && c <= '\u{d}') || c == ' ' || c == '\u{85}' || c == '\u{a0}' || c == '\u{1680}'
        || (c >= '\u{2000}' && c <= '\u{200a}') || c == '\u{2028}' || c == '\u{2029}' || c
        == '\u{202f}' || c == '\u{205f}' || c == '\u{3000}'
}

/// `s` without the white space that ends it.
pub open spec fn trim_right(s: Seq<char>) -> Seq<char>
    decreases s.len(),
{
    if s.len() > 0 && is_white(s.last()) {
        trim_right(s.drop_last())
    } else {
        s
    }
}

/// `s` without the white space that starts it.
pub open spec fn trim_left(s: Seq<char>) -> Seq<char>
    decreases s.len(),
{
    if s.len() > 0 && is_white(s[0]) {
        trim_left(s.skip(1))
    } else {
        s
    }
}

/// `s` without the white space around it.
pub open spec fn trimmed(s: Seq<char>) -> Seq<char> {
    trim_left(trim_right(s))
}

pub fn trim_right_vec(v: &mut Vec<char>)
    ensures
        final(v)@ == trim_right(old(v)@),
{
    loop
        invariant
            trim_right(v@) == trim_right(old(v)@),
        ensures
            v@ == trim_right(old(v)@),
        decreases v.len(),
    {
        let n: usize = v.len();
        if n == 0 || !white(v[n - 1]) {
            break;
        }
        let ghost before = v@;
        v.pop();
        assert(v@ =~= before.drop_last());
    }
}

/// The characters of `s` without the white space around them.
pub fn trim_chars(s: &[char]) -> (r: Vec<char>)
    ensures
        r@ == trimmed(s@),
{
    let mut v = sub_vec(s, 0, s.len());
    assert(v@ =~= s@);
    trim_right_vec(&mut v);
    let ghost t = v@;
    let mut i: usize = 0;
    assert(t.skip(0) =~= t);
    while i < v.len() && white(v[i])
        invariant
            i <= v.len(),
            v@ == t,
            trim_left(t.skip(i as int)) == trim_left(t),
        decreases v.len() - i,
    {
        assert(t.skip(i as int)[0] == t[i as int]);
        assert(t.skip(i as int).skip(1) =~= t.skip(i + 1));
        i = i + 1;
    }
    let r = sub_vec(v.as_slice(), i, v.len());
    assert(r@ =~= t.skip(i as int));
    assert(i < t.len() ==> t.skip(i as int)[0] == t[i as int]);
    r
}

/// `n` spaces.
pub open spec fn spaces(n: nat) -> Seq<char> {
    Seq::new(n, |i: int| ' ')
}

/// Appends `n` spaces.
pub fn push_spaces(s: &mut String, n: usize)
    ensures
        final(s)@ == old(s)@ + spaces(n as nat),
{
    let mut i: usize = 0;
    assert(s@ =~= old(s)@ + spaces(0));
    while i < n
        invariant
            i <= n,
            s@ == old(s)@ + spaces(i as nat),
        decreases n - i,
    {
        s.push(' ');
        i = i + 1;
        assert(s@ =~= old(s)@ + spaces(i as nat));
    }
}

/// The parts of `v`, one after the other.
pub open spec fn joined(v: Seq<Seq<char>>) -> Seq<char>
    decreases v.len(),
{
    if v.len() == 0 {
        Seq::empty()
    } else {
        joined(v.drop_last()) + v.last()
    }
}

/// The strings of `v`, one after the other.
pub fn concat(v: &[String]) -> (s: String)
    ensures
        s@ == joined(texts(v@)),
{
    let mut s = String::new();
    let ghost all = texts(v@);
    assert(joined(all.take(0)) =~= Seq::empty());
    for i in 0..v.len()
        invariant
            all == texts(v@),
            s@ == joined(all.take(i as int)),
    {
        s.append(v[i].as_str());
        assert(all.take(i + 1).drop_last() =~= all.take(i as int));
        assert(all.take(i + 1).last() == v@[i as int]@);
    }
    assert(all.take(v@.len() as int) =~= all);
    s
}

/// The parts of `v` with `sep` between them.
pub open spec fn joined_by(v: Seq<Seq<char>>, sep: Seq<char>) -> Seq<char>
    decreases v.len(),
{
    if v.len() == 0 {
        Seq::empty()
    } else if v.len() == 1 {
        v[0]
    } else {
        joined_by(v.drop_last(), sep) + sep + v.last()
    }
}

/// The strings of `v` with `sep` between them.
pub fn join(v: &[String], sep: &str) -> (s: String)
    ensures
        s@ == joined_by(texts(v@), sep@),
{
    let mut s = String::new();
    let ghost all = texts(v@);
    assert(joined_by(all.take(0), sep@) =~= Seq::empty());
    for i in 0..v.len()
        invariant
            all == texts(v@),
            s@ == joined_by(all.take(i as int), sep@),
    {
        if i > 0 {
            s.append(sep);
        }
        s.append(v[i].as_str());
        assert(all.take(i + 1).drop_last() =~= all.take(i as int));
        assert(all.take(i + 1).last() == v@[i as int]@);
        assert(all.take(0) =~= Seq::empty());
    }
    assert(all.take(v@.len() as int) =~= all);
    s
}

/// `part` stands in `s` at `i`.
pub open spec fn stands_at(s: Seq<char>, part: Seq<char>, i: int) -> bool {
    0 <= i && i + part.len() <= s.len() && s.subrange(i, i + part.len()) == part
}

/// `part` stands somewhere in `s`.
pub open spec fn holds(s: Seq<char>, part: Seq<char>) -> bool {
    exists|i: int| stands_at(s, part, i)
}

pub fn contains_text(s: &[char], part: &[char]) -> (r: bool)
    ensures
        r == holds(s@, part@),
{
    let mut i: usize = 0;
    while i <= s.len() && part.len() <= s.len() - i
        invariant
            i <= s.len() + 1,
            forall|k: int| 0 <= k < i ==> !stands_at(s@, part@, k),
        decreases s.len() + 1 - i,
    {
        let piece = sub_vec(s, i, i + part.len());
        if same_chars(&piece, part) {
            assert(stands_at(s@, part@, i as int));
            return true;
        }
        if i == s.len() {
            assert(forall|k: int| !stands_at(s@, part@, k));
            return false;
        }
        i = i + 1;
    }
    false
}

/// The number that `s` writes in decimal, with a sign or without, if it lies
/// between `min` and `max`.
pub open spec fn parsed_int(s: Seq<char>, min: int, max: int) -> Option<int> {
    if s.len() > 0 && s[0] == '-' {
        let d = s.skip(1);
        if d.len() == 0 || !all_digits(d) || -(digits_value(d) as int) < min {
            None
        } else {
            Some(-(digits_value(d) as int))
        }
    } else {
        match parsed(s) {
            Some(n) if n <= max => Some(n as int),
            _ => None,
        }
    }
}

/// Reads a 32-bit number.
pub fn parse_int(s: &[char]) -> (r: Option<i32>)
    ensures
        match r {
            Some(n) => parsed_int(s@, i32::MIN as int, i32::MAX as int) == Some(n as int),
            None => parsed_int(s@, i32::MIN as int, i32::MAX as int) is None,
        },
{
    if s.len() > 0 && s[0] == '-' {
        let d = sub_vec(s, 1, s.len());
        assert(d@ =~= s@.skip(1));
        if d.len() > 0 && d[0] == '+' {
            assert(!is_digit(d@[0]));
            return None;
        }
        match parse_uint(&d, 2_147_483_648) {
            None => None,
            Some(n) => Some((-(n as i64)) as i32),
        }
    } else {
        match parse_uint(s, 2_147_483_647) {
            None => None,
            Some(n) => Some(n as i32),
        }
    }
}

/// A text as `Debug` writes it: in quotes, with what cannot be printed escaped.
pub uninterp spec fn debugged(s: Seq<char>) -> Seq<char>;

/// `Debug` for `str`: the text in quotes, with what cannot be printed escaped. How
/// each character is written is left to it.
#[verifier::external_body]
pub(crate) fn debug(s: &str) -> (r: String)
    ensures
        r@ == debugged(s@),
{
    format!("{s:?}")
}

/// A number that is written is the number that is read.
pub proof fn lemma_digits(n: nat)
    ensures
        dec(n).len() > 0,
        all_digits(dec(n)),
        digits_value(dec(n)) == n,
    decreases n,
{
    let d = digit(n % 10);
    assert(is_digit(d) && d as u32 - '0' as u32 == n % 10);
    if n < 10 {
        assert(dec(n) =~= seq![d]);
        assert(dec(n).drop_last() =~= Seq::empty());
        assert(digits_value(dec(n).drop_last()) == 0);
    } else {
        lemma_digits(n / 10);
        assert(dec(n).drop_last() =~= dec(n / 10));
        assert(dec(n).last() == d);
        assert forall|i: int| 0 <= i < dec(n).len() implies is_digit(#[trigger] dec(n)[i]) by {
            if i < dec(n / 10).len() {
                assert(dec(n)[i] == dec(n / 10)[i]);
            }
        }
    }
}

/// The parts stand in the text, one behind the other.
pub open spec fn in_order(s: Seq<char>, parts: Seq<Seq<char>>) -> bool
    decreases parts.len(),
{
    parts.len() == 0 || exists|k: int| #[trigger] stands_at(s, parts[0], k) && in_order(
        s.skip(k + parts[0].len()),
        parts.skip(1),
    )
}

proof fn lemma_stands(a: Seq<char>, part: Seq<char>, b: Seq<char>)
    ensures
        stands_at(a + part + b, part, a.len() as int),
        (a + part + b).skip((a.len() + part.len()) as int) == b,
{
    let s = a + part + b;
    assert(s.subrange(a.len() as int, (a.len() + part.len()) as int) =~= part);
    assert(s.skip((a.len() + part.len()) as int) =~= b);
}

/// One part more in front.
pub proof fn lemma_one_more(
    s: Seq<char>,
    a: Seq<char>,
    part: Seq<char>,
    b: Seq<char>,
    parts: Seq<Seq<char>>,
)
    requires
        s == a + part + b,
        parts.len() > 0,
        parts[0] == part,
        in_order(b, parts.skip(1)),
    ensures
        in_order(s, parts),
{
    lemma_stands(a, part, b);
    assert(stands_at(s, parts[0], a.len() as int));
}

/// A number that is written is read back where it is not over the bound, and refused where
/// it is.
pub proof fn law_a_number_reads_back(n: nat, max: nat)
    ensures
        parsed_max(dec(n), max) == if n <= max {
            Some(n)
        } else {
            None
        },
        parsed_max(Seq::empty(), max) is None,
{
    lemma_digits(n);
}

} // verus!
