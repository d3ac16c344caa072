//! Session names.

use crate::text::chars_of;
use vstd::prelude::*;

verus! {

/// The longest session name.
pub const MAX_NAME: usize = 64;

/// A character that may stand in a session name.
pub open spec fn name_char(c: char) -> bool {
    'a' <= c <= 'z' || 'A' <= c <= 'Z' || '0' <= c <= '9' || c == '.' || c == '_' || c == '-'
}

/// A session name is used as a file name and as an argument.
pub open spec fn valid_name(s: Seq<char>) -> bool {
    &&& 0 < s.len() <= MAX_NAME
    &&& s[0] != '.'
    &&& s[0] != '-'
    &&& forall|i: int| 0 <= i < s.len() ==> name_char(#[trigger] s[i])
}

pub open spec fn bad_name_text(name: Seq<char>) -> Seq<char> {
    "bad session name '"@ + name + "' (letters, digits, '.', '_' and '-', not starting with '.' or '-', at most 64)"@
}

fn bad_name(name: &str) -> (s: String)
    ensures
        s@ == bad_name_text(name@),
{
    let mut s = "bad session name '".to_owned();
    s.append(name);
    s.append("' (letters, digits, '.', '_' and '-', not starting with '.' or '-', at most 64)");
    s
}

/// Whether `name` can name a session.
pub fn validate_name(name: &str) -> (r: Result<(), String>)
    ensures
        match r {
            Ok(_) => valid_name(name@),
            Err(e) => !valid_name(name@) && e@ == bad_name_text(name@),
        },
{
    let v = chars_of(name);
    if v.len() == 0 || v.len() > MAX_NAME || v[0] == '.' || v[0] == '-' {
        return Err(bad_name(name));
    }
    let mut i: usize = 0;
    while i < v.len()
        invariant
            i <= v.len(),
            v@ == name@,
            forall|k: int| 0 <= k < i ==> name_char(#[trigger] name@[k]),
        decreases v.len() - i,
    {
        let c = v[i];
        if !((c >= 'a' && c <= 'z') || (c >= 'A' && c <= 'Z') || (c >= '0' && c <= '9') || c == '.'
            || c == '_' || c == '-') {
            assert(!name_char(name@[i as int]));
            return Err(bad_name(name));
        }
        i = i + 1;
    }
    Ok(())
}

/// The name a session gets when none is given.
pub open spec fn default_name(given: Option<Seq<char>>) -> Result<Seq<char>, Seq<char>> {
    match given {
        Some(n) if n.len() > 0 => if valid_name(n) {
            Ok(n)
        } else {
            Err(bad_name_text(n))
        },
        _ => Ok("main"@),
    }
}

/// `$ACS_DEFAULT_SESSION`, or `main`.
pub fn default_name_from(given: Option<&str>) -> (r: Result<String, String>)
    ensures
        match r {
            Ok(n) => default_name(given_view(given)) == Ok::<Seq<char>, Seq<char>>(n@),
            Err(e) => default_name(given_view(given)) == Err::<Seq<char>, Seq<char>>(e@),
        },
{
    if let Some(n) = given {
        if !n.is_empty() {
            match validate_name(n) {
                Ok(_) => {
                    return Ok(n.to_owned());
                },
                Err(e) => {
                    return Err(e);
                },
            }
        }
    }
    Ok("main".to_owned())
}

/// The characters of text that may not be there.
pub open spec fn given_view(s: Option<&str>) -> Option<Seq<char>> {
    match s {
        None => None,
        Some(t) => Some(t@),
    }
}

/// A session's name is one file name and one word: it names no other directory, hides
/// nothing, is taken for no option, and needs no quoting anywhere. Every text like that is
/// a name.
pub proof fn law_a_name_is_one_plain_word(s: Seq<char>)
    ensures
        valid_name(s) ==> 1 <= s.len() <= 64 && !s.contains('/') && !s.contains(' ') && s[0] != '.'
            && s[0] != '-',
        valid_name(s) ==> forall|i: int|
            0 <= i < s.len() ==> '-' <= #[trigger] s[i] <= 'z' && s[i] != ':' && s[i] != '@' && s[i]
                != '`',
        1 <= s.len() <= 64 && s[0] != '.' && s[0] != '-' && (forall|i: int|
            0 <= i < s.len() ==> ('a' <= #[trigger] s[i] <= 'z' || 'A' <= s[i] <= 'Z' || '0' <= s[i]
                <= '9' || s[i] == '.' || s[i] == '_' || s[i] == '-')) ==> valid_name(s),
{
    if valid_name(s) && s.contains('/') {
        let i = choose|i: int| 0 <= i < s.len() && s[i] == '/';
        assert(name_char(s[i]));
    }
    if valid_name(s) && s.contains(' ') {
        let i = choose|i: int| 0 <= i < s.len() && s[i] == ' ';
        assert(name_char(s[i]));
    }
    if valid_name(s) {
        assert forall|i: int| 0 <= i < s.len() implies '-' <= #[trigger] s[i] <= 'z' && s[i] != ':'
            && s[i] != '@' && s[i] != '`' by {
            assert(name_char(s[i]));
        }
    }
}

/// The session that is attached to where none is named always has a name that can be used:
/// the one given, or `main`; a name that is no name is refused.
pub proof fn law_the_default_session_has_a_name(given: Option<Seq<char>>)
    ensures
        default_name(given) matches Ok(n) ==> valid_name(n),
        given is None || given->0.len() == 0 ==> default_name(given) == Ok::<Seq<char>, Seq<char>>(
            "main"@,
        ),
        given matches Some(n) && valid_name(n) ==> default_name(given) == Ok::<
            Seq<char>,
            Seq<char>,
        >(given->0),
        default_name(given) is Err <==> given is Some && given->0.len() > 0 && !valid_name(
            given->0,
        ),
{
    reveal_strlit("main");
    assert forall|i: int| 0 <= i < 4 implies name_char(#[trigger] "main"@[i]) by {}
}

} // verus!
