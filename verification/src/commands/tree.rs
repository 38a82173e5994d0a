//! `tree`: which directory entries to show, and the line each one takes.
use crate::commands::stat::{file_type, file_type_bits};
use crate::text::{push_char, push_str};
use vstd::prelude::*;

verus! {

/// `n` spaces.
pub open spec fn spaces(n: nat) -> Seq<char> {
    Seq::new(n, |i: int| ' ')
}

/// The entries a listing skips: the current directory and the parent directory.
pub fn is_dot_entry(filename: &str) -> (skip: bool)
    ensures
        skip == (filename@ == "."@ || filename@ == ".."@),
{
    proof {
        reveal_strlit(".");
        reveal_strlit("..");
    }
    let n = filename.unicode_len();
    if n == 1 {
        let c = filename.get_char(0);
        if c == '.' {
            assert(filename@ =~= "."@);
        }
        c == '.'
    } else if n == 2 {
        let c0 = filename.get_char(0);
        let c1 = filename.get_char(1);
        if c0 == '.' && c1 == '.' {
            assert(filename@ =~= ".."@);
        }
        c0 == '.' && c1 == '.'
    } else {
        false
    }
}

/// The line of one entry: indented by `indent` spaces, a directory marked with a trailing `/`.
pub fn tree_line(indent: usize, filename: &str, is_dir: bool) -> (line: String)
    ensures
        line@ == spaces(indent as nat) + filename@ + (if is_dir {
            seq!['/']
        } else {
            Seq::<char>::empty()
        }),
{
    let mut line = String::new();
    let mut i: usize = 0;
    while i < indent
        invariant
            i <= indent,
            line@ == spaces(i as nat),
        decreases indent - i,
    {
        push_char(&mut line, ' ');
        i = i + 1;
        assert(line@ =~= spaces(i as nat));
    }
    push_str(&mut line, filename);
    if is_dir {
        push_char(&mut line, '/');
    }
    assert(line@ =~= spaces(indent as nat) + filename@ + (if is_dir {
        seq!['/']
    } else {
        Seq::<char>::empty()
    }));
    line
}

/// What the depth-first walk of `tree` does with the next result of `readdir`.
#[derive(Debug, PartialEq, Eq, Structural)]
pub enum WalkAction {
    /// The directory has no more entries: go back up to the parent.
    Return,
    /// `.` or `..`: go on with the next entry.
    Skip,
    /// Find out with `lstat` whether the entry is a directory.
    Inspect,
    /// Print the entry's line and go on with the next entry.
    Show,
    /// Print the entry's line, then walk that directory one indent step deeper.
    ShowAndDescend,
}

/// One step of the walk. `entry` is the name `readdir` gave, `None` at the end of the
/// directory; `is_dir` is `None` until `lstat` was asked, then whether the entry is a
/// directory.
pub fn walk_step(entry: Option<&str>, is_dir: Option<bool>) -> (action: WalkAction)
    ensures
        action == (match entry {
            None => WalkAction::Return,
            Some(name) => if name@ == "."@ || name@ == ".."@ {
                WalkAction::Skip
            } else {
                match is_dir {
                    None => WalkAction::Inspect,
                    Some(false) => WalkAction::Show,
                    Some(true) => WalkAction::ShowAndDescend,
                }
            },
        }),
{
    match entry {
        None => WalkAction::Return,
        Some(name) => if is_dot_entry(name) {
            WalkAction::Skip
        } else {
            match is_dir {
                None => WalkAction::Inspect,
                Some(false) => WalkAction::Show,
                Some(true) => WalkAction::ShowAndDescend,
            }
        },
    }
}

/// How many more spaces the entries of a subdirectory are indented by.
pub const INDENT_STEP: usize = 4;

/// An `lstat` mode describes a directory (`(st_mode & S_IFMT) == S_IFDIR`); a symbolic
/// link to a directory is a link, not a directory.
pub fn is_directory(st_mode: u32) -> (b: bool)
    ensures
        b == (file_type(st_mode) == 0o040000),
{
    let bits = file_type_bits();
    (st_mode & bits.mask) == bits.directory
}

/// The indent of the entries inside a directory listed at `indent`.
pub fn child_indent(indent: usize) -> (child: usize)
    requires
        indent + INDENT_STEP <= usize::MAX,
    ensures
        child == indent + INDENT_STEP,
{
    indent + INDENT_STEP
}

} // verus!
