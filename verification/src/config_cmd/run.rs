//! What each `acs config` command does with the files.

use super::edit::{edit, edited};
use super::show::{
    defined_in, found_state, hinted, host_list, hosts_listed, path_line_text, paths, pretty, pretty_path, scalar,
    scalar_of, show, shown,
};
use super::{is_edit, unknown_key, unknown_key_text, value_shown, value_text, Cmd, CmdView, USAGE};
use crate::config::apply::{applied, err_of};
use crate::config::{alias_of, defaults, fault, Config, ConfigView};
use crate::path::{parts, same_path};
use crate::session::given_view;
use crate::text::same;
use crate::yaml::{bare, DocView, Document, Node, Value, ValueView};
use vstd::prelude::*;

verus! {

pub open spec fn no_such_alias_text(alias: Seq<char>) -> Seq<char> {
    "no alias '"@ + alias + "' (add its first host with: acs config host add "@ + alias + " <host>)"@
}

fn no_such_alias(alias: &str) -> (s: String)
    ensures
        s@ == no_such_alias_text(alias@),
{
    let mut s = "no alias '".to_owned();
    s.append(alias);
    s.append("' (add its first host with: acs config host add ");
    s.append(alias);
    s.append(" <host>)");
    s
}

pub open spec fn with_hint_text(e: Seq<char>, hint: Seq<char>) -> Seq<char> {
    e + "; "@ + hint
}

fn with_hint(e: &str, hint: &str) -> (s: String)
    ensures
        s@ == with_hint_text(e@, hint@),
{
    let mut s = e.to_owned();
    s.append("; ");
    s.append(hint);
    s
}

pub open spec fn once_made_text(e: Seq<char>) -> Seq<char> {
    e + " once this edit is made (not saved)"@
}

fn once_made(e: &str) -> (s: String)
    ensures
        s@ == once_made_text(e@),
{
    let mut s = e.to_owned();
    s.append(" once this edit is made (not saved)");
    s
}

pub open spec fn done_in_text(said: Seq<char>, path: Seq<char>) -> Seq<char> {
    said + " in "@ + path + "\n"@
}

fn done_in(said: &str, path: &str) -> (s: String)
    ensures
        s@ == done_in_text(said@, path@),
{
    let mut s = said.to_owned();
    s.append(" in ");
    s.append(path);
    s.append("\n");
    s
}

pub open spec fn not_saved_text(e: Seq<char>) -> Seq<char> {
    e + " (not saved; fix the file by hand)"@
}

fn not_saved(e: &str) -> (s: String)
    ensures
        s@ == not_saved_text(e@),
{
    let mut s = e.to_owned();
    s.append(" (not saved; fix the file by hand)");
    s
}

/// An error and its exit code: 2 for a request that cannot be done as asked, 1 for a
/// file that cannot be written.
#[derive(Debug, Clone, PartialEq, Eq)]
pub enum Error {
    Usage(String),
    Io(String),
}

#[verifier::ext_equal]
pub enum ErrorView {
    Usage(Seq<char>),
    Io(Seq<char>),
}

impl View for Error {
    type V = ErrorView;

    open spec fn view(&self) -> ErrorView {
        match *self {
            Error::Usage(s) => ErrorView::Usage(s@),
            Error::Io(s) => ErrorView::Io(s@),
        }
    }
}

impl Error {
    pub fn code(&self) -> (c: u8)
        ensures
            c == match self@ {
                ErrorView::Usage(_) => 2u8,
                ErrorView::Io(_) => 1,
            },
    {
        match self {
            Error::Usage(_) => 2,
            Error::Io(_) => 1,
        }
    }

    /// What is said of it.
    pub fn text(&self) -> (s: &str)
        ensures
            s@ == match self@ {
                ErrorView::Usage(t) => t,
                ErrorView::Io(t) => t,
            },
    {
        match self {
            Error::Usage(s) => s.as_str(),
            Error::Io(s) => s.as_str(),
        }
    }
}

/// A configuration file: what is in it if it is there, or why it cannot be read.
#[derive(Debug)]
pub struct File {
    pub path: String,
    pub found: bool,
    pub read: Result<Option<Document>, String>,
}

#[verifier::ext_equal]
pub struct FileView {
    pub path: Seq<char>,
    pub found: bool,
    pub read: Result<Option<DocView>, Seq<char>>,
}

impl View for File {
    type V = FileView;

    open spec fn view(&self) -> FileView {
        FileView {
            path: self.path@,
            found: self.found,
            read: match self.read {
                Ok(Some(d)) => Ok(Some(d@)),
                Ok(None) => Ok(None),
                Err(e) => Err(e@),
            },
        }
    }
}

/// What a command comes to.
#[derive(Debug)]
pub enum Done {
    /// This is printed.
    Print(String),
    /// This document is printed.
    Emit(Document),
    /// This document replaces the file, and this is printed then.
    Save(Document, String),
}

#[verifier::ext_equal]
pub enum DoneView {
    Print(Seq<char>),
    Emit(DocView),
    Save(DocView, Seq<char>),
}

impl View for Done {
    type V = DoneView;

    open spec fn view(&self) -> DoneView {
        match *self {
            Done::Print(s) => DoneView::Print(s@),
            Done::Emit(d) => DoneView::Emit(d@),
            Done::Save(d, s) => DoneView::Save(d@, s@),
        }
    }
}

// ---- the merged configuration ----------------------------------------------

/// The configuration with one more file merged in.
pub open spec fn file_applied(c: ConfigView, f: FileView) -> Result<ConfigView, Seq<char>> {
    match f.read {
        Err(e) => Err(e),
        Ok(None) => Ok(c),
        Ok(Some(d)) => match applied(c, f.path, d.root) {
            (_, Some(e)) => Err(e),
            (c1, None) => Ok(ConfigView { files: c1.files.push(f.path), ..c1 }),
        },
    }
}

/// The configuration that the two files give, or what is wrong with them.
pub open spec fn config_of(global: FileView, local: FileView) -> Result<ConfigView, Seq<char>> {
    match file_applied(defaults(), global) {
        Err(e) => Err(e),
        Ok(c) => match file_applied(c, local) {
            Err(e) => Err(e),
            Ok(c) => match fault(c) {
                Some(e) => Err(e),
                None => Ok(c),
            },
        },
    }
}

fn apply_file(c: &mut Config, f: &File) -> (r: Result<(), String>)
    ensures
        match r {
            Ok(_) => file_applied(old(c)@, f@) == Ok::<ConfigView, Seq<char>>(final(c)@),
            Err(e) => file_applied(old(c)@, f@) == Err::<ConfigView, Seq<char>>(e@),
        },
{
    match &f.read {
        Err(e) => Err(e.clone()),
        Ok(None) => Ok(()),
        Ok(Some(d)) => {
            c.apply(&f.path, &d.root)?;
            let ghost before = c@;
            c.files.push(f.path.clone());
            assert(c@.files =~= before.files.push(f@.path));
            Ok(())
        },
    }
}

/// The configuration that the two files give.
pub fn load(global: &File, local: &File) -> (r: Result<Config, String>)
    ensures
        match r {
            Ok(c) => config_of(global@, local@) == Ok::<ConfigView, Seq<char>>(c@),
            Err(e) => config_of(global@, local@) == Err::<ConfigView, Seq<char>>(e@),
        },
{
    let mut c = Config::default();
    apply_file(&mut c, global)?;
    apply_file(&mut c, local)?;
    c.check()?;
    Ok(c)
}

/// The configuration with one more file merged in as far as it can be.
pub open spec fn merged_anyway(c: ConfigView, f: FileView) -> ConfigView {
    match f.read {
        Ok(Some(d)) => applied(c, f.path, d.root).0,
        _ => c,
    }
}

/// The configuration with one more file merged in; `doc` is in place of the file at
/// `target`.
pub open spec fn put_in(c: ConfigView, f: FileView, doc: DocView, target: Seq<char>) -> ConfigView {
    if parts(f.path) == parts(target) {
        applied(c, f.path, doc.root).0
    } else {
        merged_anyway(c, f)
    }
}

/// The two files together, once `doc` is in place of the one at `target`.
pub open spec fn together_of(
    doc: DocView,
    target: Seq<char>,
    global: FileView,
    local: FileView,
) -> Option<Seq<char>> {
    let c = put_in(put_in(defaults(), global, doc, target), local, doc, target);
    match fault(c) {
        Some(e) => Some(once_made_text(e)),
        None => None,
    }
}

fn merge_with(c: &mut Config, f: &File, doc: &Document, target: &str)
    ensures
        final(c)@ == put_in(old(c)@, f@, doc@, target@),
{
    if same_path(&f.path, target) {
        let _ = c.apply(&f.path, &doc.root);
    } else if let Ok(Some(d)) = &f.read {
        let _ = c.apply(&f.path, &d.root);
    }
}

/// Refuse an edit that leaves `doc`, merged with the other file, a configuration the
/// client refuses: an alias's `identity_file` in one file whose hosts were all in the
/// other. A broken file is left alone.
fn together(doc: &Document, target: &str, global: &File, local: &File) -> (r: Result<(), String>)
    ensures
        err_of(r) == together_of(doc@, target@, global@, local@),
{
    let mut c = Config::default();
    merge_with(&mut c, global, doc, target);
    merge_with(&mut c, local, doc, target);
    match c.check() {
        Ok(_) => Ok(()),
        Err(e) => Err(once_made(&e)),
    }
}

// ---- the commands ----------------------------------------------------------

/// A file with nothing in it.
pub open spec fn nothing() -> DocView {
    DocView { root: bare(ValueView::Null), tail: Seq::empty() }
}

fn empty_doc() -> (d: Document)
    ensures
        d@ == nothing(),
{
    let d = Document { root: Node::new(Value::Null), tail: Vec::new() };
    assert(d@.tail =~= Seq::empty());
    d
}

/// `get`: one setting's value.
pub open spec fn got(c: ConfigView, key: Seq<char>, home: Option<Seq<char>>) -> Result<
    DoneView,
    ErrorView,
> {
    match scalar_of(c, key) {
        Some((n, _)) => Ok(DoneView::Print(value_shown(n) + "\n"@)),
        None => if key == "aliases"@ {
            Ok(DoneView::Print(hosts_listed(c, home)))
        } else {
            Err(ErrorView::Usage(unknown_key_text(key)))
        },
    }
}

/// An edit that cannot be made, with where the thing is set if the other file, at
/// `path`, has it.
pub open spec fn edit_failed(
    e: Seq<char>,
    cmd: CmdView,
    other: FileView,
    path: Seq<char>,
    global: bool,
    home: Option<Seq<char>>,
) -> Seq<char> {
    match other.read {
        Ok(Some(d)) => match hinted(d.root, cmd, path, global, home) {
            Some(hint) => with_hint_text(e, hint),
            None => e,
        },
        _ => e,
    }
}

/// An edit of one of the two files.
pub open spec fn edit_done(
    cmd: CmdView,
    global: FileView,
    local: FileView,
    to_global: bool,
    home: Option<Seq<char>>,
) -> Result<DoneView, ErrorView> {
    let (target, other) = if to_global {
        (global, local)
    } else {
        (local, global)
    };
    let one = parts(global.path) == parts(local.path);
    let path = if one {
        local.path
    } else {
        other.path
    };
    match target.read {
        Err(e) => Err(ErrorView::Usage(e)),
        Ok(read) => {
            let doc = match read {
                Some(d) => d,
                None => nothing(),
            };
            let (after, r) = edited(doc, cmd);
            match r {
                Err(e) => Err(
                    ErrorView::Usage(edit_failed(e, cmd, other, path, !to_global || one, home)),
                ),
                Ok(said) => match together_of(after, target.path, global, local) {
                    Some(e) => Err(ErrorView::Usage(e)),
                    None => Ok(
                        DoneView::Save(after, done_in_text(said, pretty_path(target.path, home))),
                    ),
                },
            }
        },
    }
}

/// Why a setting of an alias is not even tried: an alias with no hosts anywhere would
/// leave a configuration the client refuses.
pub open spec fn hostless_set(cmd: CmdView, global: FileView, local: FileView) -> Option<Seq<char>> {
    match cmd {
        CmdView::HostSet { alias, .. } => match config_of(global, local) {
            Err(e) => Some(e),
            Ok(c) => if alias_of(c, alias) is None {
                Some(no_such_alias_text(alias))
            } else {
                None
            },
        },
        _ => None,
    }
}

/// What a command comes to.
pub open spec fn ran(
    cmd: CmdView,
    global: FileView,
    local: FileView,
    to_global: bool,
    home: Option<Seq<char>>,
) -> Result<DoneView, ErrorView> {
    match cmd {
        CmdView::Help => Ok(DoneView::Print(USAGE@ + "\n"@)),
        CmdView::Path => Ok(
            DoneView::Print(
                path_line_text(
                    global.path,
                    found_state(global.found),
                    pretty_path(local.path, home),
                    found_state(local.found),
                ),
            ),
        ),
        CmdView::Show => match config_of(global, local) {
            Err(e) => Err(ErrorView::Usage(e)),
            Ok(c) => Ok(DoneView::Emit(shown(c, global.path, local.path, home))),
        },
        CmdView::Get(key) => match config_of(global, local) {
            Err(e) => Err(ErrorView::Usage(e)),
            Ok(c) => got(c, key, home),
        },
        CmdView::HostList => match config_of(global, local) {
            Err(e) => Err(ErrorView::Usage(e)),
            Ok(c) => Ok(DoneView::Print(hosts_listed(c, home))),
        },
        _ => match hostless_set(cmd, global, local) {
            Some(e) => Err(ErrorView::Usage(e)),
            None => edit_done(cmd, global, local, to_global, home),
        },
    }
}

/// A result is the one that is owed.
pub open spec fn done_is(r: Result<Done, Error>, v: Result<DoneView, ErrorView>) -> bool {
    match (r, v) {
        (Ok(d), Ok(w)) => d@ == w,
        (Err(e), Err(w)) => e@ == w,
        _ => false,
    }
}

fn get(c: &Config, key: &str, home: Option<&str>) -> (r: Result<Done, Error>)
    ensures
        done_is(r, got(c@, key@, given_view(home))),
{
    if let Some((n, _)) = scalar(c, key) {
        let mut s = value_text(&n);
        s.append("\n");
        return Ok(Done::Print(s));
    }
    if same(key, "aliases") {
        Ok(Done::Print(host_list(c, home)))
    } else {
        Err(Error::Usage(unknown_key(key)))
    }
}

fn failed(
    e: String,
    cmd: &Cmd,
    other: &File,
    path: &str,
    global: bool,
    home: Option<&str>,
) -> (s: String)
    ensures
        s@ == edit_failed(e@, cmd@, other@, path@, global, given_view(home)),
{
    if let Ok(Some(d)) = &other.read {
        if let Some(hint) = defined_in(&d.root, cmd, path, global, home) {
            return with_hint(&e, &hint);
        }
    }
    e
}

fn take_doc(f: &mut File) -> (r: Result<Document, String>)
    ensures
        final(f)@.path == old(f)@.path,
        match old(f)@.read {
            Err(e) => r matches Err(s) && s@ == e,
            Ok(None) => r matches Ok(d) && d@ == nothing(),
            Ok(Some(v)) => r matches Ok(d) && d@ == v,
        },
{
    let mut read: Result<Option<Document>, String> = Ok(None);
    std::mem::swap(&mut read, &mut f.read);
    match read {
        Err(e) => Err(e),
        Ok(None) => Ok(empty_doc()),
        Ok(Some(d)) => Ok(d),
    }
}

fn edit_file(cmd: &Cmd, global: File, local: File, to_global: bool, home: Option<&str>) -> (r: Result<
    Done,
    Error,
>)
    requires
        is_edit(cmd@),
    ensures
        done_is(r, edit_done(cmd@, global@, local@, to_global, given_view(home))),
{
    let mut global = global;
    let mut local = local;
    let ghost (g, l) = (global@, local@);
    let taken = if to_global {
        take_doc(&mut global)
    } else {
        take_doc(&mut local)
    };
    let mut doc = match taken {
        Err(e) => {
            return Err(Error::Usage(e));
        },
        Ok(d) => d,
    };
    let other = if to_global {
        &local
    } else {
        &global
    };
    let target = if to_global {
        &global
    } else {
        &local
    };
    let one = same_path(&global.path, &local.path);
    let path = if one {
        &local.path
    } else {
        &other.path
    };
    match edit(&mut doc, cmd) {
        Err(e) => Err(Error::Usage(failed(e, cmd, other, path, !to_global || one, home))),
        Ok(said) => match together(&doc, &target.path, &global, &local) {
            Err(e) => Err(Error::Usage(e)),
            Ok(_) => Ok(Done::Save(doc, done_in(&said, &pretty(&target.path, home)))),
        },
    }
}

/// Run `cmd` on the two files, editing the global one if it edits and `to_global`;
/// returns what to print or save.
pub fn run(cmd: &Cmd, global: File, local: File, to_global: bool, home: Option<&str>) -> (r: Result<
    Done,
    Error,
>)
    ensures
        done_is(r, ran(cmd@, global@, local@, to_global, given_view(home))),
{
    match cmd {
        Cmd::Help => {
            let mut s = USAGE.to_owned();
            s.append("\n");
            Ok(Done::Print(s))
        },
        Cmd::Path => Ok(
            Done::Print(paths(&global.path, &local.path, global.found, local.found, home)),
        ),
        Cmd::Show => match load(&global, &local) {
            Err(e) => Err(Error::Usage(e)),
            Ok(c) => Ok(Done::Emit(show(&c, &global.path, &local.path, home))),
        },
        Cmd::Get(key) => match load(&global, &local) {
            Err(e) => Err(Error::Usage(e)),
            Ok(c) => get(&c, key, home),
        },
        Cmd::HostList => match load(&global, &local) {
            Err(e) => Err(Error::Usage(e)),
            Ok(c) => Ok(Done::Print(host_list(&c, home))),
        },
        _ => {
            if let Cmd::HostSet { alias, .. } = cmd {
                match load(&global, &local) {
                    Err(e) => {
                        return Err(Error::Usage(e));
                    },
                    Ok(c) => {
                        if c.alias(alias).is_none() {
                            return Err(Error::Usage(no_such_alias(alias)));
                        }
                    },
                }
            }
            edit_file(cmd, global, local, to_global, home)
        },
    }
}

/// Check a document as it would be read back, before it replaces the file at `path`.
pub fn check_saved(path: &str, doc: &Document) -> (r: Result<(), Error>)
    ensures
        match applied(defaults(), path@, doc@.root).1 {
            None => r is Ok,
            Some(e) => r matches Err(x) && x@ == ErrorView::Usage(not_saved_text(e)),
        },
{
    let mut c = Config::default();
    match c.apply(path, &doc.root) {
        Ok(_) => Ok(()),
        Err(e) => Err(Error::Usage(not_saved(&e))),
    }
}

} // verus!
