//! The kernel's IPv4 route table, as `/proc/net/route` shows it.
use crate::number::{parse_unsigned, parse_unsigned_chars};
use crate::split::{lines, line_texts, nth_word, span_of, spans_view, word_spans, words};
use crate::text::string_of;
use vstd::prelude::*;

verus! {

/// An entry in the ipv4 route table.
///
/// Addresses are the 32-bit numbers the kernel prints in hexadecimal; their bytes in
/// the machine's own order are the four octets of the address.
pub struct RouteEntry {
    /// Interface to which packets for this route will be sent
    pub iface: String,
    /// The destination network or destination host
    pub destination: u32,
    pub gateway: u32,
    pub flags: u16,
    /// Number of references to this route
    pub refcnt: u16,
    /// Count of lookups for the route
    pub use_count: u16,
    /// The 'distance' to the target (usually counted in hops)
    pub metrics: u32,
    pub mask: u32,
    /// Default maximum transmission unit for TCP connections over this route
    pub mtu: u32,
    /// Default window size for TCP connections over this route
    pub window: u32,
    /// Initial RTT (Round Trip Time)
    pub irtt: u32,
}

/// Why a route table could not be read.
#[derive(Debug, PartialEq, Eq, Structural)]
pub enum ProcError {
    /// Reading the file failed.
    Io,
    /// A line has fewer columns than an entry needs.
    Incomplete,
    /// A column does not hold a number of its type.
    InvalidField,
}

/// How many columns of a line make an entry.
pub open spec fn route_columns() -> int {
    11
}

/// The radix column `k` is written in: the addresses, the mask and the flags in hexadecimal.
pub open spec fn column_radix(k: int) -> nat {
    if k == 1 || k == 2 || k == 3 || k == 7 {
        16
    } else {
        10
    }
}

/// The largest value column `k` may hold: the flags, the reference and use counts are 16-bit.
pub open spec fn column_max(k: int) -> nat {
    if k == 3 || k == 4 || k == 5 {
        0xffff
    } else {
        0xffff_ffff
    }
}

/// The number in column `k` of `line`, once it is known to be one.
pub open spec fn column_value(line: Seq<char>, k: int) -> nat {
    parse_unsigned(nth_word(line, k), column_radix(k), column_max(k)).unwrap()
}

/// Column `k` of `line` is there and, past the interface name, holds a number of its type.
pub open spec fn column_ok(line: Seq<char>, k: int) -> bool {
    &&& k < word_spans(line).len()
    &&& (k == 0 || parse_unsigned(nth_word(line, k), column_radix(k), column_max(k)) is Some)
}

/// The error a line gives from column `k` on: the first column that is missing or not a number.
pub open spec fn line_error_from(line: Seq<char>, k: int) -> Option<ProcError>
    decreases route_columns() - k,
{
    if k >= route_columns() {
        None
    } else if !column_ok(line, k) {
        if k >= word_spans(line).len() {
            Some(ProcError::Incomplete)
        } else {
            Some(ProcError::InvalidField)
        }
    } else {
        line_error_from(line, k + 1)
    }
}

/// The error a line of the table gives, if any.
pub open spec fn line_error(line: Seq<char>) -> Option<ProcError> {
    line_error_from(line, 0)
}

/// The first error among `lines`, if any.
pub open spec fn first_error(lines: Seq<Seq<char>>) -> Option<ProcError>
    decreases lines.len(),
{
    if lines.len() == 0 {
        None
    } else {
        match first_error(lines.drop_last()) {
            Some(e) => Some(e),
            None => line_error(lines.last()),
        }
    }
}

/// The lines after the header line.
pub open spec fn data_lines(s: Seq<char>) -> Seq<Seq<char>> {
    if line_texts(s).len() == 0 {
        seq![]
    } else {
        line_texts(s).skip(1)
    }
}

impl RouteEntry {
    /// This entry is what `line` describes.
    pub open spec fn describes(&self, line: Seq<char>) -> bool {
        &&& self.iface@ == nth_word(line, 0)
        &&& self.destination == column_value(line, 1)
        &&& self.gateway == column_value(line, 2)
        &&& self.flags == column_value(line, 3)
        &&& self.refcnt == column_value(line, 4)
        &&& self.use_count == column_value(line, 5)
        &&& self.metrics == column_value(line, 6)
        &&& self.mask == column_value(line, 7)
        &&& self.mtu == column_value(line, 8)
        &&& self.window == column_value(line, 9)
        &&& self.irtt == column_value(line, 10)
    }
}

fn column_format(k: usize) -> (r: (u64, u64))
    ensures
        r.0 == column_radix(k as int),
        r.1 == column_max(k as int),
{
    if k == 1 || k == 2 || k == 3 || k == 7 {
        if k == 3 {
            (16, 0xffff)
        } else {
            (16, 0xffff_ffff)
        }
    } else if k == 4 || k == 5 {
        (10, 0xffff)
    } else {
        (10, 0xffff_ffff)
    }
}

/// Reads one line of the table: the interface name, then ten numeric columns;
/// columns past the eleventh are not read.
pub fn route_line(line: &[char]) -> (r: Result<RouteEntry, ProcError>)
    ensures
        r matches Ok(e) ==> line_error(line@) is None && e.describes(line@),
        r matches Err(x) ==> line_error(line@) == Some(x),
{
    let ws = words(line);
    proof {
        assert(spans_view(ws@).len() == ws@.len());
    }
    if ws.len() == 0 {
        assert(!column_ok(line@, 0));
        return Err(ProcError::Incomplete);
    }
    let (a, b) = ws[0];
    proof {
        assert(spans_view(ws@)[0] == (a as int, b as int));
    }
    let iface = string_of(line, a, b);
    assert(column_ok(line@, 0));
    let mut values: Vec<u64> = Vec::new();
    values.push(0);
    let mut k: usize = 1;
    while k < 11
        invariant
            1 <= k <= 11,
            values@.len() == k,
            spans_view(ws@) == word_spans(line@),
            spans_view(ws@).len() == ws@.len(),
            crate::split::spans_within(spans_view(ws@), line@.len() as int),
            line_error(line@) == line_error_from(line@, k as int),
            forall|j: int| 1 <= j < k ==> #[trigger] column_ok(line@, j),
            forall|j: int| 1 <= j < k ==> #[trigger] values@[j] == column_value(line@, j),
        decreases 11 - k,
    {
        if k >= ws.len() {
            assert(!column_ok(line@, k as int));
            return Err(ProcError::Incomplete);
        }
        let (a, b) = ws[k];
        proof {
            assert(spans_view(ws@)[k as int] == (a as int, b as int));
        }
        let (radix, max) = column_format(k);
        let field = &line[a..b];
        assert(field@ == nth_word(line@, k as int));
        let parsed = parse_unsigned_chars(field, radix, max);
        if parsed.is_none() {
            return Err(ProcError::InvalidField);
        }
        let x = parsed.unwrap();
        let ghost before = values@;
        values.push(x);
        assert(column_ok(line@, k as int));
        assert forall|j: int| 1 <= j < k + 1 implies #[trigger] values@[j] == column_value(
            line@,
            j,
        ) by {
            if j < k {
                assert(values@[j] == before[j]);
            }
        }
        k = k + 1;
    }
    assert(line_error_from(line@, 11) is None);
    assert forall|j: int| 1 <= j < 11 implies #[trigger] values@[j] <= column_max(j) by {
        assert(column_ok(line@, j));
        assert(values@[j] == column_value(line@, j));
    }
    let entry = RouteEntry {
        iface,
        destination: values[1] as u32,
        gateway: values[2] as u32,
        flags: values[3] as u16,
        refcnt: values[4] as u16,
        use_count: values[5] as u16,
        metrics: values[6] as u32,
        mask: values[7] as u32,
        mtu: values[8] as u32,
        window: values[9] as u32,
        irtt: values[10] as u32,
    };
    Ok(entry)
}

/// Reads the ipv4 route table from the text of `/proc/net/route`.
///
/// The first line is a header and is skipped; every other line is one entry. The
/// result is the first error of any line, or all entries in the order of their lines.
pub fn route(content: &str) -> (r: Result<Vec<RouteEntry>, ProcError>)
    ensures
        r matches Ok(entries) ==> {
            &&& first_error(data_lines(content@)) is None
            &&& entries@.len() == data_lines(content@).len()
            &&& forall|i: int|
                0 <= i < entries@.len() ==> #[trigger] entries@[i].describes(
                    data_lines(content@)[i],
                )
        },
        r matches Err(e) ==> first_error(data_lines(content@)) == Some(e),
{
    let chars = crate::text::chars_of(content);
    let ls = lines(&chars);
    let ghost data = data_lines(content@);
    proof {
        assert(spans_view(ls@).len() == ls@.len());
    }
    let mut entries: Vec<RouteEntry> = Vec::new();
    if ls.len() == 0 {
        assert(data =~= Seq::<Seq<char>>::empty());
        return Ok(entries);
    }
    let mut i: usize = 1;
    while i < ls.len()
        invariant
            1 <= i <= ls@.len(),
            chars@ == content@,
            data == data_lines(content@),
            data.len() == ls@.len() - 1,
            spans_view(ls@) == crate::split::line_spans(chars@),
            spans_view(ls@).len() == ls@.len(),
            crate::split::spans_within(spans_view(ls@), chars@.len() as int),
            entries@.len() == i - 1,
            first_error(data.take(i - 1)) is None,
            forall|j: int| 0 <= j < i - 1 ==> #[trigger] entries@[j].describes(data[j]),
        decreases ls@.len() - i,
    {
        let (a, b) = ls[i];
        proof {
            assert(spans_view(ls@)[i as int] == (a as int, b as int));
        }
        let line = &chars[a..b];
        assert(line@ == data[i - 1]);
        assert(data.take(i as int).drop_last() =~= data.take(i - 1));
        match route_line(line) {
            Err(e) => {
                proof {
                    lemma_first_error_prefix(data, i as int);
                }
                return Err(e);
            },
            Ok(entry) => {
                entries.push(entry);
            },
        }
        i = i + 1;
    }
    assert(data.take(i - 1) =~= data);
    Ok(entries)
}

/// An error among the first `k` lines is the first error of all the lines.
proof fn lemma_first_error_prefix(lines: Seq<Seq<char>>, k: int)
    requires
        0 <= k <= lines.len(),
        first_error(lines.take(k)) is Some,
    ensures
        first_error(lines) == first_error(lines.take(k)),
    decreases lines.len() - k,
{
    if k < lines.len() {
        assert(lines.take(k + 1).drop_last() =~= lines.take(k));
        lemma_first_error_prefix(lines, k + 1);
    } else {
        assert(lines.take(k) =~= lines);
    }
}

/// A line without error has every column: the interface name and ten numbers.
proof fn lemma_no_error_columns_ok(line: Seq<char>, k: int)
    requires
        0 <= k <= route_columns(),
        line_error_from(line, k) is None,
    ensures
        forall|j: int| k <= j < route_columns() ==> #[trigger] column_ok(line, j),
    decreases route_columns() - k,
{
    if k < route_columns() {
        lemma_no_error_columns_ok(line, k + 1);
    }
}

/// Every field of an entry is read from its own column of the line, in the order of
/// `/proc/net/route`: Iface, Destination, Gateway and Flags, RefCnt, Use, Metric, Mask,
/// MTU, Window, IRTT. Destination, Gateway, Mask and Flags are hexadecimal, the others
/// decimal; Flags, RefCnt and Use are 16-bit. A line reads as an entry only when it has
/// all eleven columns and each numeric one holds a number of its type.
pub proof fn law_route_fields_are_their_columns(e: RouteEntry, line: Seq<char>)
    requires
        line_error(line) is None,
        e.describes(line),
    ensures
        word_spans(line).len() >= 11,
        e.iface@ == nth_word(line, 0),
        parse_unsigned(nth_word(line, 1), 16, 0xffff_ffff) == Some(e.destination as nat),
        parse_unsigned(nth_word(line, 2), 16, 0xffff_ffff) == Some(e.gateway as nat),
        parse_unsigned(nth_word(line, 3), 16, 0xffff) == Some(e.flags as nat),
        parse_unsigned(nth_word(line, 4), 10, 0xffff) == Some(e.refcnt as nat),
        parse_unsigned(nth_word(line, 5), 10, 0xffff) == Some(e.use_count as nat),
        parse_unsigned(nth_word(line, 6), 10, 0xffff_ffff) == Some(e.metrics as nat),
        parse_unsigned(nth_word(line, 7), 16, 0xffff_ffff) == Some(e.mask as nat),
        parse_unsigned(nth_word(line, 8), 10, 0xffff_ffff) == Some(e.mtu as nat),
        parse_unsigned(nth_word(line, 9), 10, 0xffff_ffff) == Some(e.window as nat),
        parse_unsigned(nth_word(line, 10), 10, 0xffff_ffff) == Some(e.irtt as nat),
{
    lemma_no_error_columns_ok(line, 0);
    assert(column_ok(line, 1) && column_ok(line, 2) && column_ok(line, 3) && column_ok(line, 4));
    assert(column_ok(line, 5) && column_ok(line, 6) && column_ok(line, 7) && column_ok(line, 8));
    assert(column_ok(line, 9) && column_ok(line, 10));
}

} // verus!
