//! `/etc/fstab`: the UUID of the file system mounted at `/`.
use crate::split::{
    find_char, first_index, line_spans, line_texts, lines, nth_word, spans_view, spans_within,
    word_spans, words,
};
use crate::text::string_of;
use vstd::prelude::*;

verus! {

/// A comment line starts with `#`.
pub open spec fn is_comment(line: Seq<char>) -> bool {
    line.len() > 0 && line[0] == '#'
}

/// An entry line has at least a device and a mount point.
pub open spec fn has_mount_point(line: Seq<char>) -> bool {
    word_spans(line).len() >= 2
}

/// An entry whose mount point is `/`.
pub open spec fn is_root_entry(line: Seq<char>) -> bool {
    &&& !is_comment(line)
    &&& has_mount_point(line)
    &&& nth_word(line, 1) == seq!['/']
}

/// The part of a device field after its first `=`, as in `UUID=...`.
pub open spec fn after_first_eq(device: Seq<char>) -> Seq<char> {
    device.subrange(first_index(device, '=') + 1, device.len() as int)
}

/// The UUIDs of all root entries among `lines`, in order.
pub open spec fn root_uuids(lines: Seq<Seq<char>>) -> Seq<Seq<char>>
    decreases lines.len(),
{
    if lines.len() == 0 {
        seq![]
    } else {
        let prev = root_uuids(lines.drop_last());
        if is_root_entry(lines.last()) {
            prev.push(after_first_eq(nth_word(lines.last(), 0)))
        } else {
            prev
        }
    }
}

/// Every line is a comment or has a mount point, and the device of every root entry has a `=`.
pub open spec fn fstab_well_formed(lines: Seq<Seq<char>>) -> bool {
    forall|i: int|
        0 <= i < lines.len() ==> {
            &&& !is_comment(#[trigger] lines[i]) ==> has_mount_point(lines[i])
            &&& is_root_entry(lines[i]) ==> first_index(nth_word(lines[i], 0), '=') >= 0
        }
}

/// Reads `/etc/fstab` from its text: the UUID of every entry mounted at `/`, in the
/// order of the lines. The UUID is what follows the first `=` of the device field.
pub fn parse_etc_fstab(content: &str) -> (uuids: Vec<String>)
    requires
        fstab_well_formed(line_texts(content@)),
    ensures
        uuids@.map_values(|u: String| u@) == root_uuids(line_texts(content@)),
{
    let chars = crate::text::chars_of(content);
    let ls = lines(&chars);
    let ghost texts = line_texts(content@);
    proof {
        assert(spans_view(ls@).len() == ls@.len());
    }
    let mut uuids: Vec<String> = Vec::new();
    let mut i: usize = 0;
    while i < ls.len()
        invariant
            i <= ls@.len(),
            chars@ == content@,
            texts == line_texts(content@),
            texts.len() == ls@.len(),
            fstab_well_formed(texts),
            spans_view(ls@) == line_spans(chars@),
            spans_view(ls@).len() == ls@.len(),
            spans_within(spans_view(ls@), chars@.len() as int),
            uuids@.map_values(|u: String| u@) == root_uuids(texts.take(i as int)),
        decreases ls@.len() - i,
    {
        let (a, b) = ls[i];
        proof {
            assert(spans_view(ls@)[i as int] == (a as int, b as int));
        }
        let line = &chars[a..b];
        assert(line@ == texts[i as int]);
        assert(texts.take(i + 1).drop_last() =~= texts.take(i as int));
        assert(texts.take(i + 1).last() == line@);
        match root_uuid_of_line(line) {
            Some(uuid) => {
                uuids.push(uuid);
            },
            None => {},
        }
        i = i + 1;
        assert(uuids@.map_values(|u: String| u@) =~= root_uuids(texts.take(i as int)));
    }
    assert(texts.take(i as int) =~= texts);
    uuids
}

/// The UUID a line gives: `Some` for a root entry, `None` for any other line.
fn root_uuid_of_line(line: &[char]) -> (r: Option<String>)
    requires
        !is_comment(line@) ==> has_mount_point(line@),
        is_root_entry(line@) ==> first_index(nth_word(line@, 0), '=') >= 0,
    ensures
        r is Some <==> is_root_entry(line@),
        r matches Some(u) ==> u@ == after_first_eq(nth_word(line@, 0)),
{
    if line.len() > 0 && line[0] == '#' {
        return None;
    }
    let ws = words(line);
    proof {
        assert(spans_view(ws@).len() == ws@.len());
    }
    let (a1, b1) = ws[1];
    proof {
        assert(spans_view(ws@)[1] == (a1 as int, b1 as int));
        assert(0 <= spans_view(ws@)[1].0 <= spans_view(ws@)[1].1 <= line@.len());
        assert(nth_word(line@, 1) == line@.subrange(a1 as int, b1 as int));
    }
    if !(b1 - a1 == 1 && line[a1] == '/') {
        proof {
            if nth_word(line@, 1) == seq!['/'] {
                assert(seq!['/'].len() == 1);
                assert(line@.subrange(a1 as int, b1 as int)[0] == line@[a1 as int]);
            }
        }
        return None;
    }
    assert(nth_word(line@, 1) =~= seq!['/']);
    let (a0, b0) = ws[0];
    proof {
        assert(spans_view(ws@)[0] == (a0 as int, b0 as int));
    }
    let device = &line[a0..b0];
    let eq = find_char(device, '=').unwrap();
    Some(string_of(device, eq + 1, b0 - a0))
}

/// The first root entry among `lines`, or `-1` when there is none.
pub open spec fn first_root_entry(lines: Seq<Seq<char>>) -> int
    decreases lines.len(),
{
    if lines.len() == 0 {
        -1
    } else {
        let p = first_root_entry(lines.drop_last());
        if p >= 0 {
            p
        } else if is_root_entry(lines.last()) {
            lines.len() - 1
        } else {
            -1
        }
    }
}

/// Every line before the first root entry, and that entry itself, is a comment or has
/// a mount point.
pub open spec fn readable_until_root(lines: Seq<Seq<char>>) -> bool {
    forall|i: int|
        0 <= i < lines.len() && (first_root_entry(lines) == -1 || i <= first_root_entry(lines))
            ==> (!is_comment(#[trigger] lines[i]) ==> has_mount_point(lines[i]))
}

/// The UUID of the first root entry, or `None` when there is no root entry or its
/// device field has no `=`.
pub open spec fn first_root_uuid(lines: Seq<Seq<char>>) -> Option<Seq<char>> {
    let k = first_root_entry(lines);
    if k < 0 {
        None
    } else if first_index(nth_word(lines[k], 0), '=') < 0 {
        None
    } else {
        Some(after_first_eq(nth_word(lines[k], 0)))
    }
}

/// Reads `/etc/fstab` from its text and stops at the first entry mounted at `/`: its
/// UUID, or `None` when that entry's device field has no `=` or there is no such entry.
pub fn parse_etc_fstab_with_error_handling(content: &str) -> (uuid: Option<String>)
    requires
        readable_until_root(line_texts(content@)),
    ensures
        uuid matches Some(u) ==> first_root_uuid(line_texts(content@)) == Some(u@),
        uuid is None ==> first_root_uuid(line_texts(content@)) is None,
{
    let chars = crate::text::chars_of(content);
    let ls = lines(&chars);
    let ghost texts = line_texts(content@);
    proof {
        assert(spans_view(ls@).len() == ls@.len());
    }
    let mut i: usize = 0;
    while i < ls.len()
        invariant
            i <= ls@.len(),
            chars@ == content@,
            texts == line_texts(content@),
            texts.len() == ls@.len(),
            readable_until_root(texts),
            spans_view(ls@) == line_spans(chars@),
            spans_view(ls@).len() == ls@.len(),
            spans_within(spans_view(ls@), chars@.len() as int),
            first_root_entry(texts.take(i as int)) == -1,
        decreases ls@.len() - i,
    {
        let (a, b) = ls[i];
        proof {
            assert(spans_view(ls@)[i as int] == (a as int, b as int));
        }
        let line = &chars[a..b];
        assert(line@ == texts[i as int]);
        assert(texts.take(i + 1).drop_last() =~= texts.take(i as int));
        assert(texts.take(i + 1).last() == line@);
        proof {
            lemma_no_root_before(texts, i as int);
        }
        if !(line.len() > 0 && line[0] == '#') {
            let ws = words(line);
            proof {
                assert(spans_view(ws@).len() == ws@.len());
            }
            let (a1, b1) = ws[1];
            proof {
                assert(spans_view(ws@)[1] == (a1 as int, b1 as int));
                assert(0 <= spans_view(ws@)[1].0 <= spans_view(ws@)[1].1 <= line@.len());
                assert(nth_word(line@, 1) == line@.subrange(a1 as int, b1 as int));
            }
            if b1 - a1 == 1 && line[a1] == '/' {
                assert(nth_word(line@, 1) =~= seq!['/']);
                assert(first_root_entry(texts.take(i + 1)) == i);
                proof {
                    lemma_first_root_prefix(texts, i + 1);
                }
                let (a0, b0) = ws[0];
                proof {
                    assert(spans_view(ws@)[0] == (a0 as int, b0 as int));
                }
                let device = &line[a0..b0];
                match find_char(device, '=') {
                    None => {
                        return None;
                    },
                    Some(eq) => {
                        return Some(string_of(device, eq + 1, b0 - a0));
                    },
                }
            } else {
                proof {
                    if nth_word(line@, 1) == seq!['/'] {
                        assert(seq!['/'].len() == 1);
                        assert(line@.subrange(a1 as int, b1 as int)[0] == line@[a1 as int]);
                    }
                }
            }
        }
        i = i + 1;
    }
    assert(texts.take(i as int) =~= texts);
    None
}

/// Before any root entry is found, every line read so far must be readable.
proof fn lemma_no_root_before(lines: Seq<Seq<char>>, i: int)
    requires
        0 <= i < lines.len(),
        first_root_entry(lines.take(i)) == -1,
    ensures
        first_root_entry(lines) == -1 || i <= first_root_entry(lines),
    decreases lines.len() - i,
{
    if first_root_entry(lines) >= 0 && first_root_entry(lines) < i {
        lemma_first_root_in_prefix(lines, first_root_entry(lines), i);
    }
}

/// The first root entry, when it lies before `k`, is the first root entry of the first `k` lines.
proof fn lemma_first_root_in_prefix(lines: Seq<Seq<char>>, p: int, k: int)
    requires
        0 <= p < k <= lines.len(),
        first_root_entry(lines) == p,
    ensures
        first_root_entry(lines.take(k)) == p,
    decreases lines.len() - k,
{
    if k < lines.len() {
        lemma_first_root_in_prefix(lines, p, k + 1);
        assert(lines.take(k + 1).drop_last() =~= lines.take(k));
        if first_root_entry(lines.take(k)) < 0 {
            assert(first_root_entry(lines.take(k + 1)) == -1 || first_root_entry(lines.take(k + 1))
                == k);
        }
    } else {
        assert(lines.take(k) =~= lines);
    }
}

/// A root entry found among the first `k` lines is the first root entry of all the lines.
proof fn lemma_first_root_prefix(lines: Seq<Seq<char>>, k: int)
    requires
        0 <= k <= lines.len(),
        first_root_entry(lines.take(k)) >= 0,
    ensures
        first_root_entry(lines) == first_root_entry(lines.take(k)),
    decreases lines.len() - k,
{
    if k < lines.len() {
        assert(lines.take(k + 1).drop_last() =~= lines.take(k));
        lemma_first_root_prefix(lines, k + 1);
    } else {
        assert(lines.take(k) =~= lines);
    }
}

} // verus!
