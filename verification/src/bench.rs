//! The benchmark passes.
//!
//! A pass replays a fixed, ordered list of queries `num_repeat` times:
//! the outer loop is the repeat count, the inner loop the query list, so
//! rows come out in repetition-major order.  Each (repetition, query)
//! unit opens a fresh timing tree around the operation to be measured and
//! emits one tab-separated row.  The caller runs the external search
//! engine between `begin_*` and `finish_*`; the first failure of a parse,
//! search or fetch call aborts the pass, and the error text carries the
//! failing query literally.
//!
//! The search pass times ranked retrieval plus match counting and prints
//! `query, hit count, elapsed microseconds`; the fetch pass times only
//! the materialisation of the already-ranked results and prints
//! `query, elapsed microseconds`.

use crate::numfmt::dec_digits;
use crate::numfmt::u64_to_string;
use crate::timer::TimerTree;
use crate::timer::is_close_step;
use crate::timer::is_open_step;
use vstd::arithmetic::div_mod::lemma_fundamental_div_mod_converse;
use vstd::arithmetic::mul::lemma_mul_inequality;
use vstd::prelude::*;
use vstd::string::StringExecFns;

verus! {

/// The header above the search pass's rows.  Its `num_terms` column is
/// never populated by the row format; the discrepancy is long-standing
/// output behaviour and is kept as it is.
pub open spec fn search_header_text() -> Seq<char> {
    "query\tnum_terms\tnum hits\ttime in microsecs"@
}

/// The header above the fetch pass's rows.
pub open spec fn fetch_header_text() -> Seq<char> {
    "query\ttime in microsecs"@
}

/// One search-pass row: query, hit count and elapsed microseconds,
/// tab-separated.
pub open spec fn search_row_text(q: Seq<char>, count: nat, micros: nat) -> Seq<char> {
    q + "\t"@ + dec_digits(count) + "\t"@ + dec_digits(micros)
}

/// One fetch-pass row: query and elapsed microseconds, tab-separated.
pub open spec fn fetch_row_text(q: Seq<char>, micros: nat) -> Seq<char> {
    q + "\t"@ + dec_digits(micros)
}

/// The fatal report for a query the search pass could not run.
pub open spec fn search_error_text(q: Seq<char>, cause: Seq<char>) -> Seq<char> {
    "Failed while searching query \""@ + q + "\".\n\n"@ + cause
}

/// The fatal report for a query the fetch pass could not run.
pub open spec fn fetch_error_text(q: Seq<char>, cause: Seq<char>) -> Seq<char> {
    "Failed while retrieving document for query \""@ + q + "\".\n"@ + cause
}

/// The search pass's header row.
pub fn search_header() -> (r: String)
    ensures
        r@ == search_header_text(),
{
    "query\tnum_terms\tnum hits\ttime in microsecs".to_owned()
}

/// The fetch pass's header row.
pub fn fetch_header() -> (r: String)
    ensures
        r@ == fetch_header_text(),
{
    "query\ttime in microsecs".to_owned()
}

/// One benchmark pass over the query list.
///
/// `rep` and `idx` point at the next (repetition, query) unit to run;
/// `measuring` is true while a timing span is open around the external
/// call currently being measured, and `timer` is that unit's timing tree.
pub struct BenchPass {
    pub queries: Vec<String>,
    pub num_repeat: usize,
    pub rep: usize,
    pub idx: usize,
    pub timer: TimerTree,
    pub measuring: bool,
}

impl BenchPass {
    /// Every unit of the pass has run.
    pub open spec fn done(self) -> bool {
        self.rep >= self.num_repeat || self.queries@.len() == 0
    }

    /// How many rows the pass has emitted so far.
    pub open spec fn pos(self) -> int {
        self.rep * self.queries@.len() + self.idx
    }

    /// How many rows a full pass emits.
    pub open spec fn total_rows(self) -> int {
        self.num_repeat * self.queries@.len()
    }

    /// Invariant of a pass between calls.
    pub open spec fn wf(self) -> bool {
        &&& self.rep <= self.num_repeat
        &&& self.queries@.len() > 0 ==> self.idx < self.queries@.len()
        &&& self.queries@.len() == 0 ==> self.idx == 0
        &&& self.rep >= self.num_repeat ==> self.idx == 0
        &&& self.timer.wf()
        &&& self.measuring ==> !self.done() && self.timer.names@.len() == 1
            && self.timer.active@.len() == 1
    }

    /// A pass over `queries`, to be replayed `num_repeat` times, standing
    /// before its first unit.  It is complete from the start exactly when
    /// there is nothing to replay.
    pub fn new(queries: Vec<String>, num_repeat: usize) -> (r: Self)
        ensures
            r.wf(),
            !r.measuring,
            r.queries@ == queries@,
            r.num_repeat == num_repeat,
            r.rep == 0,
            r.idx == 0,
            r.done() <==> (num_repeat == 0 || queries@.len() == 0),
    {
        BenchPass {
            queries,
            num_repeat,
            rep: 0,
            idx: 0,
            timer: TimerTree::default(),
            measuring: false,
        }
    }

    /// Whether every unit of the pass has run.
    pub fn is_done(&self) -> (r: bool)
        ensures
            r == self.done(),
    {
        self.rep >= self.num_repeat || self.queries.len() == 0
    }

    /// The query text of the unit about to run.
    pub fn current_query(&self) -> (q: &String)
        requires
            self.wf(),
            !self.done(),
        ensures
            q == self.queries@[self.idx as int],
    {
        &self.queries[self.idx]
    }

    /// Opens this unit's timing span around the ranked search call the
    /// caller is about to make.
    pub fn begin_search(&mut self)
        requires
            old(self).wf(),
            !old(self).done(),
            !old(self).measuring,
        ensures
            final(self).wf(),
            final(self).measuring,
            final(self).timer.names@[0]@ == "search"@,
            final(self).queries@ == old(self).queries@,
            final(self).num_repeat == old(self).num_repeat,
            final(self).rep == old(self).rep,
            final(self).idx == old(self).idx,
    {
        proof {
            reveal_strlit("search");
        }
        self.begin_measure(String::from_str("search"));
    }

    /// Opens this unit's timing span around the document fetches the
    /// caller is about to make; the ranked search that found the
    /// documents stays outside the span, so only materialisation cost is
    /// measured.
    pub fn begin_fetch(&mut self)
        requires
            old(self).wf(),
            !old(self).done(),
            !old(self).measuring,
        ensures
            final(self).wf(),
            final(self).measuring,
            final(self).timer.names@[0]@ == "total"@,
            final(self).queries@ == old(self).queries@,
            final(self).num_repeat == old(self).num_repeat,
            final(self).rep == old(self).rep,
            final(self).idx == old(self).idx,
    {
        proof {
            reveal_strlit("total");
        }
        self.begin_measure(String::from_str("total"));
    }

    /// Opens a fresh timing tree whose root span is named `name`.
    fn begin_measure(&mut self, name: String)
        requires
            old(self).wf(),
            !old(self).done(),
            !old(self).measuring,
            name@.len() > 0,
        ensures
            final(self).wf(),
            final(self).measuring,
            final(self).timer.names@[0]@ == name@,
            final(self).queries@ == old(self).queries@,
            final(self).num_repeat == old(self).num_repeat,
            final(self).rep == old(self).rep,
            final(self).idx == old(self).idx,
    {
        self.timer = TimerTree::default();
        let ghost fresh = self.timer;
        self.timer.open(name);
        self.measuring = true;
        proof {
            let now = choose|now: u64| is_open_step(fresh, self.timer, name@, now);
            assert(self.timer.names@[0]@ == name@);
            assert(self.timer.active@ == Seq::<usize>::empty().push(0usize));
        }
    }

    /// Closes this unit's span and steps to the next unit, in
    /// repetition-major order: the next query of the list, or the first
    /// query of the next repetition.
    fn close_and_advance(&mut self)
        requires
            old(self).wf(),
            old(self).measuring,
        ensures
            final(self).wf(),
            !final(self).measuring,
            final(self).queries@ == old(self).queries@,
            final(self).num_repeat == old(self).num_repeat,
            final(self).timer.elapsed@.len() == 1,
            final(self).timer.elapsed@[0] is Some,
            final(self).timer.total_spec() == final(self).timer.elapsed@[0]->0,
            final(self).pos() == old(self).pos() + 1,
            old(self).idx + 1 < old(self).queries@.len() ==> final(self).rep == old(self).rep
                && final(self).idx == old(self).idx + 1,
            old(self).idx + 1 >= old(self).queries@.len() ==> final(self).rep == old(self).rep + 1
                && final(self).idx == 0,
    {
        proof {
            assert(self.timer.active@[0] == 0);
            assert(self.timer.active@.last() == 0);
        }
        self.timer.close();
        self.measuring = false;
        proof {
            let now = choose|now: u64| is_close_step(old(self).timer, self.timer, now);
            assert(self.timer.elapsed@[0] is Some);
        }
        let len = self.queries.len();
        if self.idx + 1 < len {
            self.idx = self.idx + 1;
        } else {
            self.idx = 0;
            self.rep = self.rep + 1;
            proof {
                let l = old(self).queries@.len() as int;
                let r = old(self).rep as int;
                assert(old(self).idx == l - 1);
                assert((r + 1) * l == r * l + l) by (nonlinear_arith);
            }
        }
    }

    /// Closes the search span and emits this unit's row: the query, the
    /// total hit count the search returned, and the span's elapsed
    /// microseconds.
    pub fn finish_search(&mut self, count: u64) -> (row: String)
        requires
            old(self).wf(),
            old(self).measuring,
        ensures
            final(self).wf(),
            !final(self).measuring,
            final(self).queries@ == old(self).queries@,
            final(self).num_repeat == old(self).num_repeat,
            row@ == search_row_text(
                old(self).queries@[old(self).idx as int]@,
                count as nat,
                final(self).timer.total_spec(),
            ),
            final(self).pos() == old(self).pos() + 1,
            old(self).idx + 1 < old(self).queries@.len() ==> final(self).rep == old(self).rep
                && final(self).idx == old(self).idx + 1,
            old(self).idx + 1 >= old(self).queries@.len() ==> final(self).rep == old(self).rep + 1
                && final(self).idx == 0,
    {
        let q = self.queries[self.idx].clone();
        self.close_and_advance();
        let micros = self.timer.total_time();
        let mut row = q;
        row.append("\t");
        let count_text = u64_to_string(count);
        row.append(count_text.as_str());
        row.append("\t");
        let micros_text = u64_to_string(micros);
        row.append(micros_text.as_str());
        proof {
            assert(row@ =~= search_row_text(
                old(self).queries@[old(self).idx as int]@,
                count as nat,
                self.timer.total_spec(),
            ));
        }
        row
    }

    /// Closes the fetch span and emits this unit's row: the query and the
    /// span's elapsed microseconds.
    pub fn finish_fetch(&mut self) -> (row: String)
        requires
            old(self).wf(),
            old(self).measuring,
        ensures
            final(self).wf(),
            !final(self).measuring,
            final(self).queries@ == old(self).queries@,
            final(self).num_repeat == old(self).num_repeat,
            row@ == fetch_row_text(
                old(self).queries@[old(self).idx as int]@,
                final(self).timer.total_spec(),
            ),
            final(self).pos() == old(self).pos() + 1,
            old(self).idx + 1 < old(self).queries@.len() ==> final(self).rep == old(self).rep
                && final(self).idx == old(self).idx + 1,
            old(self).idx + 1 >= old(self).queries@.len() ==> final(self).rep == old(self).rep + 1
                && final(self).idx == 0,
    {
        let q = self.queries[self.idx].clone();
        self.close_and_advance();
        let micros = self.timer.total_time();
        let mut row = q;
        row.append("\t");
        let micros_text = u64_to_string(micros);
        row.append(micros_text.as_str());
        proof {
            assert(row@ =~= fetch_row_text(
                old(self).queries@[old(self).idx as int]@,
                self.timer.total_spec(),
            ));
        }
        row
    }

    /// The fatal report aborting the search pass on this unit's query.
    pub fn search_error(&self, cause: &str) -> (r: String)
        requires
            self.wf(),
            !self.done(),
        ensures
            r@ == search_error_text(self.queries@[self.idx as int]@, cause@),
    {
        let mut r = "Failed while searching query \"".to_owned();
        r.append(self.queries[self.idx].as_str());
        r.append("\".\n\n");
        r.append(cause);
        proof {
            assert(r@ =~= search_error_text(self.queries@[self.idx as int]@, cause@));
        }
        r
    }

    /// The fatal report aborting the fetch pass on this unit's query.
    pub fn fetch_error(&self, cause: &str) -> (r: String)
        requires
            self.wf(),
            !self.done(),
        ensures
            r@ == fetch_error_text(self.queries@[self.idx as int]@, cause@),
    {
        let mut r = "Failed while retrieving document for query \"".to_owned();
        r.append(self.queries[self.idx].as_str());
        r.append("\".\n");
        r.append(cause);
        proof {
            assert(r@ =~= fetch_error_text(self.queries@[self.idx as int]@, cause@));
        }
        r
    }
}

/// Rows come out in repetition-major order: after `pos` rows, a pass
/// that is not yet complete stands at repetition `pos / len` and query
/// `pos % len` of the list.
pub proof fn lemma_row_order(p: BenchPass)
    requires
        p.wf(),
        p.queries@.len() > 0,
    ensures
        p.rep == p.pos() / p.queries@.len() as int,
        p.idx == p.pos() % p.queries@.len() as int,
{
    lemma_fundamental_div_mod_converse(
        p.pos(),
        p.queries@.len() as int,
        p.rep as int,
        p.idx as int,
    );
}

/// A pass is complete exactly when it has emitted one row for every
/// (repetition, query) pair: `num_repeat * len` rows in all.  With a
/// repeat count of zero, or an empty query list, that is zero rows.
pub proof fn lemma_done_iff_all_rows(p: BenchPass)
    requires
        p.wf(),
    ensures
        p.done() <==> p.pos() == p.total_rows(),
{
    let l = p.queries@.len() as int;
    if l == 0 {
    } else if p.done() {
        assert(p.rep == p.num_repeat);
        assert(p.idx == 0);
    } else {
        assert(p.pos() < (p.rep + 1) * l) by (nonlinear_arith)
            requires
                p.pos() == p.rep * l + p.idx,
                p.idx < l,
        ;
        lemma_mul_inequality(p.rep + 1, p.num_repeat as int, l);
    }
}

/// An aborting report carries the failing query text literally: it
/// appears unchanged inside both passes' error messages, directly after
/// the fixed prefix.
pub proof fn lemma_error_contains_query(q: Seq<char>, cause: Seq<char>)
    ensures
        search_error_text(q, cause).subrange(
            "Failed while searching query \""@.len() as int,
            ("Failed while searching query \""@.len() + q.len()) as int,
        ) == q,
        fetch_error_text(q, cause).subrange(
            "Failed while retrieving document for query \""@.len() as int,
            ("Failed while retrieving document for query \""@.len() + q.len()) as int,
        ) == q,
{
    let sp = "Failed while searching query \""@;
    let fp = "Failed while retrieving document for query \""@;
    assert(search_error_text(q, cause).subrange(sp.len() as int, (sp.len() + q.len()) as int) =~= q);
    assert(fetch_error_text(q, cause).subrange(fp.len() as int, (fp.len() + q.len()) as int) =~= q);
}

} // verus!
