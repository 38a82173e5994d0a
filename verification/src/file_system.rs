//! File system helpers: the usage line of the command line tools, and parsers
//! for files under `/etc` and `/proc`.
pub mod parser;

use crate::text::{chars_of, push_range, push_str};
use vstd::prelude::*;

verus! {

/// The position of the last `/` in `path`, or `-1` when there is none.
pub open spec fn last_slash(path: Seq<char>) -> int
    decreases path.len(),
{
    if path.len() == 0 {
        -1
    } else if path.last() == '/' {
        path.len() - 1
    } else {
        last_slash(path.drop_last())
    }
}

/// `basename`: what follows the last `/` of a path, or the whole path when it has none.
pub open spec fn basename(path: Seq<char>) -> Seq<char> {
    path.subrange(last_slash(path) + 1, path.len() as int)
}

proof fn lemma_last_slash_bound(path: Seq<char>)
    ensures
        -1 <= last_slash(path) < path.len(),
    decreases path.len(),
{
    if path.len() > 0 {
        lemma_last_slash_bound(path.drop_last());
    }
}

/// The usage line of a tool: `usage: <executable name> <usage>`, the executable name
/// being the last component of `argv_0`.
///
/// print example:
/// usage: host $hostname
pub fn usage_line(argv_0: &str, usage: &str) -> (line: String)
    ensures
        line@ == "usage: "@ + basename(argv_0@) + " "@ + usage@,
{
    let path = chars_of(argv_0);
    let n = path.len();
    let mut i: usize = n;
    assert(path@.take(n as int) =~= path@);
    while i > 0 && path[i - 1] != '/'
        invariant
            i <= n,
            n == path@.len(),
            last_slash(path@) == last_slash(path@.take(i as int)),
        decreases i,
    {
        assert(path@.take(i as int).drop_last() =~= path@.take(i - 1));
        i = i - 1;
    }
    proof {
        lemma_last_slash_bound(path@);
        if i == 0 {
            assert(path@.take(0) =~= Seq::<char>::empty());
        } else {
            assert(path@.take(i as int).last() == '/');
        }
        assert(last_slash(path@) == i - 1);
    }
    let mut line = String::new();
    push_str(&mut line, "usage: ");
    push_range(&mut line, &path, i, n);
    push_str(&mut line, " ");
    push_str(&mut line, usage);
    assert(line@ =~= "usage: "@ + basename(argv_0@) + " "@ + usage@);
    line
}

} // verus!
