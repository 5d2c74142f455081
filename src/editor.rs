use vstd::prelude::*;
use vstd::string::{StrSliceExecFns, StringExecFns};
use crate::quoting::{unquote, unquoted};
use crate::to_posix::{posix_argument, translate_path_to_unix, PathError};
use crate::text::push_char;

verus! {

/// The whitespace that separates an editor command from its arguments.
pub open spec fn is_blank(c: char) -> bool {
    c == ' ' || c == '\t' || c == '\n' || c == '\x0B' || c == '\x0C' || c == '\r'
}

/// The index of the first blank of `e` from `i` on, or the length of `e`.
pub open spec fn blank_index(e: Seq<char>, i: int) -> int
    decreases e.len() - i,
{
    if i < 0 || i >= e.len() {
        e.len() as int
    } else if is_blank(e[i]) {
        i
    } else {
        blank_index(e, i + 1)
    }
}

/// The index of the first character of `e` from `i` on that is no blank, or
/// the length of `e`.
pub open spec fn non_blank_index(e: Seq<char>, i: int) -> int
    decreases e.len() - i,
{
    if i < 0 || i >= e.len() {
        e.len() as int
    } else if !is_blank(e[i]) {
        i
    } else {
        non_blank_index(e, i + 1)
    }
}

/// The command of an editor setting: all before its first blank.
pub open spec fn command_token(e: Seq<char>) -> Seq<char> {
    e.subrange(0, blank_index(e, 0))
}

/// The arguments of an editor setting: all after the first run of blanks;
/// `None` where the setting holds no blank.
pub open spec fn trailing_args(e: Seq<char>) -> Option<Seq<char>> {
    let k = blank_index(e, 0);
    if k < e.len() {
        Some(e.subrange(non_blank_index(e, k), e.len() as int))
    } else {
        None
    }
}

/// An editor setting for the subprocess. `resolved` is the executable that
/// the unquoted command was found to be on the disk, if any: its POSIX form
/// takes the command's place; else the command stays, without its quotes.
/// The arguments follow after one space, untranslated.
pub open spec fn translated_editor(e: Seq<char>, resolved: Option<Seq<char>>) -> Result<
    Seq<char>,
    PathError,
> {
    let head = match resolved {
        Some(p) => posix_argument(p, true),
        None => Ok(unquoted(command_token(e))),
    };
    match head {
        Err(err) => Err(err),
        Ok(h) => match trailing_args(e) {
            Some(t) => Ok(h + seq![' '] + t),
            None => Ok(h),
        },
    }
}

/// The characters of an optional string.
pub open spec fn text_of(o: Option<String>) -> Option<Seq<char>> {
    match o {
        Some(s) => Some(s@),
        None => None,
    }
}

fn is_blank_char(c: char) -> (r: bool)
    ensures
        r == is_blank(c),
{
    c == ' ' || c == '\t' || c == '\n' || c == '\x0B' || c == '\x0C' || c == '\r'
}

proof fn lemma_blank_index(e: Seq<char>, i: int)
    requires
        0 <= i <= e.len(),
    ensures
        i <= blank_index(e, i) <= e.len(),
    decreases e.len() - i,
{
    if i < e.len() && !is_blank(e[i]) {
        lemma_blank_index(e, i + 1);
    }
}

proof fn lemma_non_blank_index(e: Seq<char>, i: int)
    requires
        0 <= i <= e.len(),
    ensures
        i <= non_blank_index(e, i) <= e.len(),
    decreases e.len() - i,
{
    if i < e.len() && is_blank(e[i]) {
        lemma_non_blank_index(e, i + 1);
    }
}

/// Splits an editor setting into its command and its arguments.
fn split_editor(editor: &str) -> (r: (String, Option<String>))
    ensures
        r.0@ == command_token(editor@),
        match trailing_args(editor@) {
            Some(t) => r.1 matches Some(s) && s@ == t,
            None => r.1 is None,
        },
{
    let n = editor.unicode_len();
    let mut k: usize = 0;
    while k < n && !is_blank_char(editor.get_char(k))
        invariant
            k <= n,
            n == editor@.len(),
            blank_index(editor@, k as int) == blank_index(editor@, 0),
        decreases n - k,
    {
        k = k + 1;
    }
    proof {
        lemma_blank_index(editor@, 0);
    }
    let command = String::from_str(editor.substring_char(0, k));
    if k == n {
        return (command, None);
    }
    let mut j: usize = k;
    while j < n && is_blank_char(editor.get_char(j))
        invariant
            k <= j <= n,
            n == editor@.len(),
            non_blank_index(editor@, j as int) == non_blank_index(editor@, k as int),
        decreases n - j,
    {
        j = j + 1;
    }
    proof {
        lemma_non_blank_index(editor@, k as int);
    }
    (command, Some(String::from_str(editor.substring_char(j, n))))
}

/// The command of an editor setting without its quotes: what is looked up
/// on the disk before `translate_git_editor`.
pub fn editor_command(editor: &str) -> (r: String)
    ensures
        r@ == unquoted(command_token(editor@)),
{
    let (command, _) = split_editor(editor);
    unquote(command)
}

/// Translates an editor setting (a command and its arguments) for the
/// subprocess. `resolved` is the executable that `editor_command` was found
/// to be, if it was found; else the unquoted command is kept.
pub fn translate_git_editor(editor: String, resolved: Option<String>) -> (r: Result<
    String,
    PathError,
>)
    ensures
        match r {
            Ok(s) => translated_editor(editor@, text_of(resolved)) == Ok::<
                Seq<char>,
                PathError,
            >(s@),
            Err(e) => translated_editor(editor@, text_of(resolved)) == Err::<
                Seq<char>,
                PathError,
            >(e),
        },
{
    let (command, args) = split_editor(editor.as_str());
    let head = match resolved {
        Some(path) => match translate_path_to_unix(path, true) {
            Ok(p) => p,
            Err(e) => return Err(e),
        },
        None => unquote(command),
    };
    match args {
        Some(t) => {
            let mut r = head;
            push_char(&mut r, ' ');
            r.append(t.as_str());
            assert(r@ == head@ + seq![' '] + t@);
            Ok(r)
        },
        None => Ok(head),
    }
}

} // verus!
