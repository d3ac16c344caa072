//! The command line's tokens, as `lexopt` hands them out.

use crate::text::texts;
use vstd::prelude::*;

verus! {

/// `lexopt::Parser`, which holds the arguments that were not taken yet.
#[verifier::external_type_specification]
#[verifier::external_body]
pub struct ExParser(lexopt::Parser);

/// What a parser still holds: the option it gave out last (`-c` or `--long`, empty
/// before the first), what is left of the argument it is in (the further letters of
/// a group of short options, or `=` and the value of a long one; empty between
/// arguments), and then every argument that it has not looked at.
pub uninterp spec fn lexed(p: lexopt::Parser) -> Seq<Seq<char>>;

/// How an argument is shown in a message about a value that an option does not
/// take: the `Debug` form of an `OsString`.
pub uninterp spec fn shown(value: Seq<char>) -> Seq<char>;

/// The contents of a parser, put together.
pub open spec fn held(last: Seq<char>, part: Seq<char>, rest: Seq<Seq<char>>) -> Seq<Seq<char>> {
    seq![last, part] + rest
}

/// One token of a command line.
#[derive(Debug, Clone, PartialEq, Eq)]
pub enum Token {
    Short(char),
    Long(String),
    Value(String),
}

#[verifier::ext_equal]
pub enum TokenView {
    Short(char),
    Long(Seq<char>),
    Value(Seq<char>),
}

impl View for Token {
    type V = TokenView;

    open spec fn view(&self) -> TokenView {
        match *self {
            Token::Short(c) => TokenView::Short(c),
            Token::Long(s) => TokenView::Long(s@),
            Token::Value(s) => TokenView::Value(s@),
        }
    }
}

/// How many characters of `s` stand before its first `=`.
pub open spec fn to_equals(s: Seq<char>) -> nat
    decreases s.len(),
{
    if s.len() == 0 || s[0] == '=' {
        0
    } else {
        1 + to_equals(s.skip(1))
    }
}

/// A value was joined to an option that takes none.
pub open spec fn unexpected_text(option: Seq<char>, value: Seq<char>) -> Seq<char> {
    "unexpected argument for option '"@ + option + "': "@ + shown(value)
}

/// An option's value is missing.
pub open spec fn missing_text(option: Seq<char>) -> Seq<char> {
    if option.len() == 0 {
        "missing argument"@
    } else {
        "missing argument for option '"@ + option + "'"@
    }
}

/// A `--` stands next, between two arguments.
pub open spec fn at_end(h: Seq<Seq<char>>) -> bool {
    h[1].len() == 0 && h.len() > 2 && h[2] == "--"@
}

/// The next token, and what the parser holds after it.
pub open spec fn next_token(h: Seq<Seq<char>>) -> (
    Result<Option<TokenView>, Seq<char>>,
    Seq<Seq<char>>,
) {
    let (last, part, rest) = (h[0], h[1], h.skip(2));
    if part.len() > 0 && part[0] == '=' {
        (Err(unexpected_text(last, part.skip(1))), held(last, Seq::empty(), rest))
    } else if part.len() > 0 {
        (Ok(Some(TokenView::Short(part[0]))), held(seq!['-', part[0]], part.skip(1), rest))
    } else if rest.len() == 0 {
        (Ok(None), h)
    } else {
        let a = rest[0];
        if a.len() < 2 || a[0] != '-' {
            (Ok(Some(TokenView::Value(a))), held(last, Seq::empty(), rest.skip(1)))
        } else if a[1] != '-' {
            (Ok(Some(TokenView::Short(a[1]))), held(seq!['-', a[1]], a.skip(2), rest.skip(1)))
        } else {
            let k = to_equals(a) as int;
            (
                Ok(Some(TokenView::Long(a.subrange(2, k)))),
                held(a.take(k), a.skip(k), rest.skip(1)),
            )
        }
    }
}

/// The value of the option just given out, and what the parser holds after it.
pub open spec fn next_value(h: Seq<Seq<char>>) -> (Result<Seq<char>, Seq<char>>, Seq<Seq<char>>) {
    let (last, part, rest) = (h[0], h[1], h.skip(2));
    if part.len() > 0 && part[0] == '=' {
        (Ok(part.skip(1)), held(last, Seq::empty(), rest))
    } else if part.len() > 0 {
        (Ok(part), held(last, Seq::empty(), rest))
    } else if rest.len() > 0 {
        (Ok(rest[0]), held(last, Seq::empty(), rest.skip(1)))
    } else {
        (Err(missing_text(last)), h)
    }
}

/// `lexopt::Parser::from_args`: a parser that holds these arguments and has given
/// out nothing.
#[verifier::external_body]
pub(crate) fn lex_start(args: Vec<String>) -> (p: lexopt::Parser)
    ensures
        lexed(p) == held(Seq::empty(), Seq::empty(), texts(args@)),
{
    lexopt::Parser::from_args(args)
}

/// `lexopt::Parser::try_raw_args`, and `peek` on what it gives: the next argument
/// as it stands, if the parser is between two arguments and has one. Nothing is
/// taken.
#[verifier::external_body]
pub(crate) fn lex_peek(p: &mut lexopt::Parser) -> (r: Option<String>)
    ensures
        lexed(*final(p)) == lexed(*old(p)),
        r is Some == (lexed(*old(p))[1].len() == 0 && lexed(*old(p)).len() > 2),
        r is Some ==> r->0@ == lexed(*old(p))[2],
{
    p.try_raw_args()?.peek().map(|a| a.to_string_lossy().into_owned())
}

/// `lexopt::Parser::next`, where no `--` stands next: the next letter of a group of
/// short options, or the next argument as an option or a value. A value that was
/// joined to the option before and not taken is an error, and is dropped.
#[verifier::external_body]
pub(crate) fn lex_next(p: &mut lexopt::Parser) -> (r: Result<Option<Token>, String>)
    requires
        !at_end(lexed(*old(p))),
    ensures
        lexed(*final(p)) == next_token(lexed(*old(p))).1,
        match (r, next_token(lexed(*old(p))).0) {
            (Ok(None), Ok(None)) => true,
            (Ok(Some(t)), Ok(Some(v))) => t@ == v,
            (Err(e), Err(_)) => e@ == "unexpected argument for option '"@ + lexed(*old(p))[0]
                + "': "@ + shown(lexed(*old(p))[1].skip(1)),
            _ => false,
        },
{
    Ok(match p.next().map_err(|e| e.to_string())? {
        None => None,
        Some(lexopt::Arg::Short(c)) => Some(Token::Short(c)),
        Some(lexopt::Arg::Long(s)) => Some(Token::Long(s.to_owned())),
        Some(lexopt::Arg::Value(v)) => Some(Token::Value(v.to_string_lossy().into_owned())),
    })
}

/// `lexopt::Parser::value`: what is joined to the option given out last (without
/// one leading `=`), or else the whole next argument, whatever it looks like.
#[verifier::external_body]
pub(crate) fn lex_value(p: &mut lexopt::Parser) -> (r: Result<String, String>)
    ensures
        lexed(*final(p)) == next_value(lexed(*old(p))).1,
        match (r, next_value(lexed(*old(p))).0) {
            (Ok(s), Ok(v)) => s@ == v,
            (Err(e), Err(text)) => e@ == text,
            _ => false,
        },
{
    match p.value() {
        Ok(v) => Ok(v.to_string_lossy().into_owned()),
        Err(e) => Err(e.to_string()),
    }
}

/// `lexopt::Parser::raw_args`, between two arguments, and all that it gives: every
/// argument left, as it stands.
#[verifier::external_body]
pub(crate) fn lex_rest(p: &mut lexopt::Parser) -> (r: Result<Vec<String>, String>)
    requires
        lexed(*old(p))[1].len() == 0,
    ensures
        r is Ok,
        texts(r->Ok_0@) == lexed(*old(p)).skip(2),
        lexed(*final(p)) == lexed(*old(p)).take(2),
{
    match p.raw_args() {
        Ok(raw) => Ok(raw.map(|a| a.to_string_lossy().into_owned()).collect()),
        Err(e) => Err(e.to_string()),
    }
}

} // verus!
