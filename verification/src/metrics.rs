//! Monotonic request counters and their plain-text rendering.

use vstd::prelude::*;
use vstd::string::StringExecFns;

use crate::decimal::{dec_chars, decimal_string};

verus! {

/// The six counters as mathematical values.
pub struct MetricsView {
    pub requests: nat,
    pub hits: nat,
    pub misses: nat,
    pub cached: nat,
    pub deletes: nat,
    pub not_found: nat,
}

/// Six monotonically increasing request counters.
pub struct Metrics {
    requests: usize,
    hits: usize,
    misses: usize,
    cached: usize,
    deletes: usize,
    not_found: usize,
}

impl View for Metrics {
    type V = MetricsView;

    closed spec fn view(&self) -> MetricsView {
        MetricsView {
            requests: self.requests as nat,
            hits: self.hits as nat,
            misses: self.misses as nat,
            cached: self.cached as nat,
            deletes: self.deletes as nat,
            not_found: self.not_found as nat,
        }
    }
}

/// A counter after one more event; the machine word wraps at its top value.
pub open spec fn counted(n: nat) -> nat {
    if n == usize::MAX {
        0
    } else {
        n + 1
    }
}

/// One line of the rendered text: the label, the count in decimal, a line feed.
pub open spec fn counter_line(label: Seq<char>, n: nat) -> Seq<char> {
    label + dec_chars(n) + "\n"@
}

/// The whole rendered text, six lines in fixed order.
pub open spec fn spec_output(m: MetricsView) -> Seq<char> {
    counter_line("requests "@, m.requests) + counter_line("hits "@, m.hits) + counter_line(
        "misses "@,
        m.misses,
    ) + counter_line("cached "@, m.cached) + counter_line("deletes "@, m.deletes) + counter_line(
        "not_found "@,
        m.not_found,
    )
}

/// Whether `part` occurs contiguously in `text`.
pub open spec fn contains_seq(text: Seq<char>, part: Seq<char>) -> bool {
    exists|i: int|
        0 <= i && i + part.len() <= text.len() && #[trigger] text.subrange(i, i + part.len())
            == part
}

/// The rendered text carries every counter as its own `label value` line.
pub proof fn lemma_output_contains_lines(m: MetricsView)
    ensures
        contains_seq(spec_output(m), counter_line("requests "@, m.requests)),
        contains_seq(spec_output(m), counter_line("hits "@, m.hits)),
        contains_seq(spec_output(m), counter_line("misses "@, m.misses)),
        contains_seq(spec_output(m), counter_line("cached "@, m.cached)),
        contains_seq(spec_output(m), counter_line("deletes "@, m.deletes)),
        contains_seq(spec_output(m), counter_line("not_found "@, m.not_found)),
{
    let text = spec_output(m);
    let l1 = counter_line("requests "@, m.requests);
    let l2 = counter_line("hits "@, m.hits);
    let l3 = counter_line("misses "@, m.misses);
    let l4 = counter_line("cached "@, m.cached);
    let l5 = counter_line("deletes "@, m.deletes);
    let l6 = counter_line("not_found "@, m.not_found);
    let o2 = l1.len() as int;
    let o3 = o2 + l2.len();
    let o4 = o3 + l3.len();
    let o5 = o4 + l4.len();
    let o6 = o5 + l5.len();
    let o1 = 0int;
    assert(text.subrange(o1, o1 + l1.len()) =~= l1);
    assert(text.subrange(o2, o2 + l2.len()) =~= l2);
    assert(text.subrange(o3, o3 + l3.len()) =~= l3);
    assert(text.subrange(o4, o4 + l4.len()) =~= l4);
    assert(text.subrange(o5, o5 + l5.len()) =~= l5);
    assert(text.subrange(o6, o6 + l6.len()) =~= l6);
}

impl Metrics {
    /// Fresh counters, all zero.
    pub fn new() -> (r: Metrics)
        ensures
            r@ == (MetricsView {
                requests: 0,
                hits: 0,
                misses: 0,
                cached: 0,
                deletes: 0,
                not_found: 0,
            }),
    {
        Metrics { requests: 0, hits: 0, misses: 0, cached: 0, deletes: 0, not_found: 0 }
    }

    /// Count one request.
    pub fn trace_request(&mut self)
        ensures
            final(self)@ == (MetricsView { requests: counted(old(self)@.requests), ..old(self)@ }),
    {
        self.requests = self.requests.wrapping_add(1);
    }

    /// Count one cache hit.
    pub fn trace_hit(&mut self)
        ensures
            final(self)@ == (MetricsView { hits: counted(old(self)@.hits), ..old(self)@ }),
    {
        self.hits = self.hits.wrapping_add(1);
    }

    /// Count one cache miss answered by a mirror.
    pub fn trace_miss(&mut self)
        ensures
            final(self)@ == (MetricsView { misses: counted(old(self)@.misses), ..old(self)@ }),
    {
        self.misses = self.misses.wrapping_add(1);
    }

    /// Count one response routed into the cache.
    pub fn trace_cache(&mut self)
        ensures
            final(self)@ == (MetricsView { cached: counted(old(self)@.cached), ..old(self)@ }),
    {
        self.cached = self.cached.wrapping_add(1);
    }

    /// Count one DELETE request.
    pub fn trace_delete(&mut self)
        ensures
            final(self)@ == (MetricsView { deletes: counted(old(self)@.deletes), ..old(self)@ }),
    {
        self.deletes = self.deletes.wrapping_add(1);
    }

    /// Count one request that no mirror served.
    pub fn trace_404(&mut self)
        ensures
            final(self)@ == (MetricsView { not_found: counted(old(self)@.not_found), ..old(self)@
            }),
    {
        self.not_found = self.not_found.wrapping_add(1);
    }

    /// Render the six counters as text, one `label value` line each.
    pub fn output(&self) -> (r: String)
        ensures
            r@ == spec_output(self@),
    {
        let mut s: String = "requests ".to_owned();
        s.append(decimal_string(self.requests).as_str());
        s.append("\nhits ");
        s.append(decimal_string(self.hits).as_str());
        s.append("\nmisses ");
        s.append(decimal_string(self.misses).as_str());
        s.append("\ncached ");
        s.append(decimal_string(self.cached).as_str());
        s.append("\ndeletes ");
        s.append(decimal_string(self.deletes).as_str());
        s.append("\nnot_found ");
        s.append(decimal_string(self.not_found).as_str());
        s.append("\n");
        proof {
            reveal_strlit("requests ");
            reveal_strlit("hits ");
            reveal_strlit("misses ");
            reveal_strlit("cached ");
            reveal_strlit("deletes ");
            reveal_strlit("not_found ");
            reveal_strlit("\n");
            reveal_strlit("\nhits ");
            reveal_strlit("\nmisses ");
            reveal_strlit("\ncached ");
            reveal_strlit("\ndeletes ");
            reveal_strlit("\nnot_found ");
            assert(s@ =~= spec_output(self@));
        }
        s
    }
}

} // verus!
