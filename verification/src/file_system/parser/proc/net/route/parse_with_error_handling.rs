//! The default route's interface read straight from `/proc/net/route`, giving `None`
//! instead of failing on a gateway that is not a number.
use crate::file_system::parser::proc::net::route::rows;
use crate::number::{parse_unsigned, parse_unsigned_chars};
use crate::split::{line_spans, lines, nth_word, spans_view, spans_within, word_spans, words};
use crate::text::string_of;
use vstd::prelude::*;

verus! {

/// The gateway column of a row, read as a hexadecimal `u32`.
pub open spec fn gateway_of(line: Seq<char>) -> Option<nat> {
    parse_unsigned(nth_word(line, 2), 16, 0xffff_ffff)
}

/// A row the search stops at: its gateway is not a number, or is not `0.0.0.0`.
pub open spec fn stops_search(line: Seq<char>) -> bool {
    &&& word_spans(line).len() >= 3
    &&& (gateway_of(line) is None || gateway_of(line).unwrap() != 0)
}

/// The first row the search stops at, or `-1` when it stops at none.
pub open spec fn first_stop(lines: Seq<Seq<char>>) -> int
    decreases lines.len(),
{
    if lines.len() == 0 {
        -1
    } else {
        let p = first_stop(lines.drop_last());
        if p >= 0 {
            p
        } else if stops_search(lines.last()) {
            lines.len() - 1
        } else {
            -1
        }
    }
}

/// Every row the search reads has at least three columns.
pub open spec fn readable_until_stop(lines: Seq<Seq<char>>) -> bool {
    forall|i: int|
        0 <= i < lines.len() && (first_stop(lines) == -1 || i <= first_stop(lines)) ==> word_spans(
            #[trigger] lines[i],
        ).len() >= 3
}

/// The interface of the first row with a gateway, or `None` when no row has one or the
/// first row whose gateway column is not `0` does not hold a hexadecimal number.
pub open spec fn first_gateway_interface(lines: Seq<Seq<char>>) -> Option<Seq<char>> {
    let k = first_stop(lines);
    if k < 0 || gateway_of(lines[k]) is None {
        None
    } else {
        Some(nth_word(lines[k], 0))
    }
}

/// The interface of the first route through a gateway, from the text of
/// `/proc/net/route`, its columns split at whitespace.
pub fn default_route_network_interface(content: &str) -> (iface: Option<String>)
    requires
        readable_until_stop(rows(content@)),
    ensures
        iface matches Some(i) ==> first_gateway_interface(rows(content@)) == Some(i@),
        iface is None ==> first_gateway_interface(rows(content@)) is None,
{
    let chars = crate::text::chars_of(content);
    let ls = lines(&chars);
    let ghost data = rows(content@);
    proof {
        assert(spans_view(ls@).len() == ls@.len());
    }
    if ls.len() == 0 {
        return None;
    }
    let mut i: usize = 1;
    while i < ls.len()
        invariant
            1 <= i <= ls@.len(),
            chars@ == content@,
            data == rows(content@),
            data.len() == ls@.len() - 1,
            readable_until_stop(data),
            spans_view(ls@) == line_spans(chars@),
            spans_view(ls@).len() == ls@.len(),
            spans_within(spans_view(ls@), chars@.len() as int),
            first_stop(data.take(i - 1)) == -1,
        decreases ls@.len() - i,
    {
        let (a, b) = ls[i];
        proof {
            assert(spans_view(ls@)[i as int] == (a as int, b as int));
        }
        let line = &chars[a..b];
        let ghost k = i - 1;
        assert(line@ == data[k]);
        assert(data.take(k + 1).drop_last() =~= data.take(k));
        assert(data.take(k + 1).last() == line@);
        proof {
            lemma_no_stop_before(data, k);
        }
        let ws = words(line);
        proof {
            assert(spans_view(ws@).len() == ws@.len());
        }
        let (a0, b0) = ws[0];
        let (a2, b2) = ws[2];
        proof {
            assert(spans_view(ws@)[0] == (a0 as int, b0 as int));
            assert(spans_view(ws@)[2] == (a2 as int, b2 as int));
        }
        let gateway = parse_unsigned_chars(&line[a2..b2], 16, 0xffff_ffff);
        assert(line@.subrange(a2 as int, b2 as int) == nth_word(line@, 2));
        match gateway {
            None => {
                assert(first_stop(data.take(k + 1)) == k);
                proof {
                    lemma_first_stop_prefix(data, k + 1);
                }
                return None;
            },
            Some(g) => {
                if g != 0 {
                    assert(first_stop(data.take(k + 1)) == k);
                    proof {
                        lemma_first_stop_prefix(data, k + 1);
                    }
                    return Some(string_of(line, a0, b0));
                }
            },
        }
        i = i + 1;
    }
    assert(data.take(i - 1) =~= data);
    None
}

/// Before the search stops, every row read so far is one the search must read.
proof fn lemma_no_stop_before(lines: Seq<Seq<char>>, i: int)
    requires
        0 <= i < lines.len(),
        first_stop(lines.take(i)) == -1,
    ensures
        first_stop(lines) == -1 || i <= first_stop(lines),
{
    if first_stop(lines) >= 0 && first_stop(lines) < i {
        lemma_first_stop_in_prefix(lines, first_stop(lines), i);
    }
}

/// The first stop, when it lies before `k`, is the first stop of the first `k` rows.
proof fn lemma_first_stop_in_prefix(lines: Seq<Seq<char>>, p: int, k: int)
    requires
        0 <= p < k <= lines.len(),
        first_stop(lines) == p,
    ensures
        first_stop(lines.take(k)) == p,
    decreases lines.len() - k,
{
    if k < lines.len() {
        lemma_first_stop_in_prefix(lines, p, k + 1);
        assert(lines.take(k + 1).drop_last() =~= lines.take(k));
    } else {
        assert(lines.take(k) =~= lines);
    }
}

/// A stop found among the first `k` rows is the first stop of all the rows.
proof fn lemma_first_stop_prefix(lines: Seq<Seq<char>>, k: int)
    requires
        0 <= k <= lines.len(),
        first_stop(lines.take(k)) >= 0,
    ensures
        first_stop(lines) == first_stop(lines.take(k)),
    decreases lines.len() - k,
{
    if k < lines.len() {
        assert(lines.take(k + 1).drop_last() =~= lines.take(k));
        lemma_first_stop_prefix(lines, k + 1);
    } else {
        assert(lines.take(k) =~= lines);
    }
}

} // verus!
