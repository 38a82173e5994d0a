//! `/proc/net/route` read column by column, and the interface of the default route.
pub mod parse_with_error_handling;

use crate::number::{parse_unsigned, parse_unsigned_chars};
use crate::split::{lines, line_texts, piece_spans, pieces, span_of, spans_view, spans_within};
use crate::text::string_of;
use vstd::prelude::*;

verus! {

/// A row of `/proc/net/route`: the interface and the two addresses of the route.
///
/// The addresses are the 32-bit numbers the kernel prints in hexadecimal; their bytes in
/// the machine's own order are the four octets, so `0` is `0.0.0.0`.
pub struct ProcNetRoute {
    pub iface: String,
    pub destination: u32,
    /// if machine not connected to internet/router, all gateway is 0.0.0.0
    pub gateway: u32,
}

/// The `k`-th tab-separated column of `line`.
pub open spec fn column(line: Seq<char>, k: int) -> Seq<char> {
    span_of(line, piece_spans(line, '\t')[k])
}

/// The number a hexadecimal column holds, once it is known to hold one.
pub open spec fn hex_column(line: Seq<char>, k: int) -> nat {
    parse_unsigned(column(line, k), 16, 0xffff_ffff).unwrap()
}

/// A data row has an interface, a destination and a gateway, the two addresses in hexadecimal.
pub open spec fn row_well_formed(line: Seq<char>) -> bool {
    &&& piece_spans(line, '\t').len() >= 3
    &&& parse_unsigned(column(line, 1), 16, 0xffff_ffff) is Some
    &&& parse_unsigned(column(line, 2), 16, 0xffff_ffff) is Some
}

/// The rows after the header line.
pub open spec fn rows(s: Seq<char>) -> Seq<Seq<char>> {
    if line_texts(s).len() == 0 {
        seq![]
    } else {
        line_texts(s).skip(1)
    }
}

impl ProcNetRoute {
    /// This route is what `line` describes.
    pub open spec fn describes(&self, line: Seq<char>) -> bool {
        &&& self.iface@ == column(line, 0)
        &&& self.destination == hex_column(line, 1)
        &&& self.gateway == hex_column(line, 2)
    }

    /// A default route: it leads to any destination (`0.0.0.0`) through a gateway.
    pub open spec fn is_default(&self) -> bool {
        self.gateway != 0 && self.destination == 0
    }
}

/// Reads the rows of `/proc/net/route` from its text, skipping the header line.
pub fn parse_proc_net_route(content: &str) -> (routes: Vec<ProcNetRoute>)
    requires
        forall|i: int| 0 <= i < rows(content@).len() ==> row_well_formed(#[trigger] rows(content@)[i]),
    ensures
        routes@.len() == rows(content@).len(),
        forall|i: int| 0 <= i < routes@.len() ==> #[trigger] routes@[i].describes(rows(content@)[i]),
{
    let chars = crate::text::chars_of(content);
    let ls = lines(&chars);
    let ghost data = rows(content@);
    proof {
        assert(spans_view(ls@).len() == ls@.len());
    }
    let mut routes: Vec<ProcNetRoute> = Vec::new();
    if ls.len() == 0 {
        return routes;
    }
    let mut i: usize = 1;
    while i < ls.len()
        invariant
            1 <= i <= ls@.len(),
            chars@ == content@,
            data == rows(content@),
            data.len() == ls@.len() - 1,
            forall|j: int| 0 <= j < data.len() ==> row_well_formed(#[trigger] data[j]),
            spans_view(ls@) == crate::split::line_spans(chars@),
            spans_view(ls@).len() == ls@.len(),
            spans_within(spans_view(ls@), chars@.len() as int),
            routes@.len() == i - 1,
            forall|j: int| 0 <= j < i - 1 ==> #[trigger] routes@[j].describes(data[j]),
        decreases ls@.len() - i,
    {
        let (a, b) = ls[i];
        proof {
            assert(spans_view(ls@)[i as int] == (a as int, b as int));
        }
        let line = &chars[a..b];
        assert(line@ == data[i - 1]);
        assert(row_well_formed(data[i - 1]));
        let cols = pieces(line, '\t');
        proof {
            assert(spans_view(cols@).len() == cols@.len());
        }
        let (a0, b0) = cols[0];
        let (a1, b1) = cols[1];
        let (a2, b2) = cols[2];
        proof {
            assert(spans_view(cols@)[0] == (a0 as int, b0 as int));
            assert(spans_view(cols@)[1] == (a1 as int, b1 as int));
            assert(spans_view(cols@)[2] == (a2 as int, b2 as int));
        }
        let iface = string_of(line, a0, b0);
        let destination = parse_unsigned_chars(&line[a1..b1], 16, 0xffff_ffff).unwrap();
        let gateway = parse_unsigned_chars(&line[a2..b2], 16, 0xffff_ffff).unwrap();
        let route = ProcNetRoute {
            iface,
            destination: destination as u32,
            gateway: gateway as u32,
        };
        assert(route.describes(data[i - 1]));
        routes.push(route);
        i = i + 1;
    }
    routes
}

/// The first route in `routes` that is a default route.
pub open spec fn first_default(routes: Seq<ProcNetRoute>, i: int) -> bool {
    &&& 0 <= i < routes.len()
    &&& routes[i].is_default()
    &&& forall|j: int| 0 <= j < i ==> !(#[trigger] routes[j].is_default())
}

/// The interface of the default route: the first route whose destination is `0.0.0.0`
/// and whose gateway is not.
pub fn default_route_network_interface(routes: &[ProcNetRoute]) -> (iface: String)
    requires
        exists|i: int| 0 <= i < routes@.len() && (#[trigger] routes@[i]).is_default(),
    ensures
        exists|i: int| first_default(routes@, i) && iface@ == routes@[i].iface@,
{
    let mut i: usize = 0;
    while i < routes.len()
        invariant
            i <= routes@.len(),
            exists|k: int| 0 <= k < routes@.len() && (#[trigger] routes@[k]).is_default(),
            forall|j: int| 0 <= j < i ==> !(#[trigger] routes@[j].is_default()),
        decreases routes@.len() - i,
    {
        if routes[i].gateway != 0 && routes[i].destination == 0 {
            let iface = routes[i].iface.clone();
            assert(first_default(routes@, i as int));
            return iface;
        }
        i = i + 1;
    }
    assert(false);
    String::new()
}

} // verus!
