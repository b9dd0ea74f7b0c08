//! The events of resolution, and a filter that limits how often the same
//! request is logged.
use vstd::prelude::*;
use vstd::string::*;

use crate::dns::query_type::QueryType;
use crate::resolved_status::{ResolvedStatus, ResolvedStatusView};

verus! {

/// What an embedder is told while requests are served.
pub trait ResolveEvent {
    /// A request for `name` arrived.
    fn resolving(&self, name: &str);

    /// A request was answered.
    fn resolved(&self, status: ResolvedStatus);

    /// A request could not be served.
    fn error(&self, message: &str);
}

/// What to do with the report of a resolution.
#[derive(Debug, Clone, Copy, PartialEq, Eq, Structural)]
pub enum LogDecision {
    /// The kind of outcome is not logged at all.
    Ignore,
    /// Log the report.
    Emit,
    /// Log, once, that reports of this request are suppressed from now on.
    Warn,
    /// Drop the report.
    Drop,
}

/// The request a status reports on: its type and name.
pub open spec fn request_of(s: ResolvedStatusView) -> (QueryType, Seq<char>) {
    match s {
        ResolvedStatusView::Deny(d, _) => (d.req_qtype, d.req_name),
        ResolvedStatusView::Allow(d) => (d.req_qtype, d.req_name),
        ResolvedStatusView::AllowButError(d, _) => (d.req_qtype, d.req_name),
        ResolvedStatusView::NoCheck(d) => (d.req_qtype, d.req_name),
        ResolvedStatusView::NoCheckButError(d, _) => (d.req_qtype, d.req_name),
    }
}

/// A count entry as a value: request type, request name, count.
pub type CountEntry = (QueryType, Seq<char>, nat);

/// `k` is the first entry for `key`.
pub open spec fn is_first_entry(cs: Seq<CountEntry>, key: (QueryType, Seq<char>), k: int) -> bool {
    &&& 0 <= k < cs.len()
    &&& (cs[k].0, cs[k].1) == key
    &&& forall|j: int| 0 <= j < k ==> (cs[j].0, cs[j].1) != key
}

/// The count of the first entry for `key`, or 0 where there is none.
pub open spec fn count_in(cs: Seq<CountEntry>, key: (QueryType, Seq<char>)) -> nat {
    if exists|k: int| is_first_entry(cs, key, k) {
        cs[choose|k: int| is_first_entry(cs, key, k)].2
    } else {
        0
    }
}

proof fn lemma_first_entry(cs: Seq<CountEntry>, key: (QueryType, Seq<char>), k: int)
    requires
        is_first_entry(cs, key, k),
    ensures
        count_in(cs, key) == cs[k].2,
{
    let c = choose|c: int| is_first_entry(cs, key, c);
    if c < k {
        assert((cs[c].0, cs[c].1) != key);
    } else if c > k {
        assert((cs[k].0, cs[k].1) != key);
    }
}

proof fn lemma_same_keys(a: Seq<CountEntry>, b: Seq<CountEntry>, key: (QueryType, Seq<char>))
    requires
        a.len() <= b.len(),
        forall|j: int| 0 <= j < a.len() ==> (a[j].0, a[j].1) == (b[j].0, b[j].1),
        forall|j: int| 0 <= j < a.len() && (a[j].0, a[j].1) == key ==> a[j].2 == b[j].2,
        forall|j: int| a.len() <= j < b.len() ==> (b[j].0, b[j].1) != key,
    ensures
        count_in(a, key) == count_in(b, key),
{
    if exists|k: int| is_first_entry(a, key, k) {
        let k = choose|k: int| is_first_entry(a, key, k);
        assert(is_first_entry(b, key, k));
        lemma_first_entry(a, key, k);
        lemma_first_entry(b, key, k);
    } else if exists|k: int| is_first_entry(b, key, k) {
        let k = choose|k: int| is_first_entry(b, key, k);
        assert(is_first_entry(a, key, k));
    }
}

/// A resolution event filter: for each request (type and name) the first
/// `threshold` reports are logged, the next one is replaced by a warning,
/// and later ones are dropped. Allow outcomes and unchecked outcomes may be
/// left out of logging altogether.
pub struct LFFResolveEvent {
    threshold: usize,
    counts: Vec<(QueryType, String, usize)>,
    output_allowed_log: bool,
    output_nochecked_log: bool,
}

/// The decision for a report seen `count` times before, unless ignored.
pub open spec fn decision(ignored: bool, count: nat, threshold: nat) -> LogDecision {
    if ignored {
        LogDecision::Ignore
    } else if count < threshold {
        LogDecision::Emit
    } else if count == threshold {
        LogDecision::Warn
    } else {
        LogDecision::Drop
    }
}

/// A count after one more report: one more, up to the largest `usize`.
pub open spec fn next_count(n: nat) -> nat {
    if n < usize::MAX {
        n + 1
    } else {
        n
    }
}

impl LFFResolveEvent {
    /// The times each request has been reported.
    pub closed spec fn seen(&self, key: (QueryType, Seq<char>)) -> nat {
        count_in(
            self.counts@.map_values(|e: (QueryType, String, usize)| (e.0, e.1@, e.2 as nat)),
            key,
        )
    }

    /// The number of reports logged in full for each request.
    pub closed spec fn spec_threshold(&self) -> nat {
        self.threshold as nat
    }

    /// Whether a status of this kind is left out of logging.
    pub open spec fn ignores(&self, s: ResolvedStatusView) -> bool {
        match s {
            ResolvedStatusView::Allow(_) | ResolvedStatusView::AllowButError(_, _) => !self.spec_allowed(),
            ResolvedStatusView::NoCheck(_) | ResolvedStatusView::NoCheckButError(_, _) => !self.spec_nochecked(),
            ResolvedStatusView::Deny(_, _) => false,
        }
    }

    /// Allow outcomes are logged.
    pub closed spec fn spec_allowed(&self) -> bool {
        self.output_allowed_log
    }

    /// Unchecked outcomes are logged.
    pub closed spec fn spec_nochecked(&self) -> bool {
        self.output_nochecked_log
    }

    pub fn new(threshold: usize, output_allowed_log: bool, output_nochecked_log: bool) -> (r: Self)
        ensures
            r.spec_threshold() == threshold,
            r.spec_allowed() == output_allowed_log,
            r.spec_nochecked() == output_nochecked_log,
            forall|k: (QueryType, Seq<char>)| r.seen(k) == 0,
    {
        let r = LFFResolveEvent {
            threshold,
            counts: Vec::new(),
            output_allowed_log,
            output_nochecked_log,
        };
        assert(r.counts@.map_values(|e: (QueryType, String, usize)| (e.0, e.1@, e.2 as nat))
            =~= seq![]);
        r
    }

    /// Decides what to do with the report `status` and counts it. Counts
    /// stop at the largest `usize`.
    pub fn resolved(&mut self, status: &ResolvedStatus) -> (r: LogDecision)
        ensures
            final(self).spec_threshold() == old(self).spec_threshold(),
            final(self).spec_allowed() == old(self).spec_allowed(),
            final(self).spec_nochecked() == old(self).spec_nochecked(),
            r == decision(
                old(self).ignores(status@),
                old(self).seen(request_of(status@)),
                old(self).spec_threshold(),
            ),
            forall|k: (QueryType, Seq<char>)|
                k != request_of(status@) ==> final(self).seen(k) == old(self).seen(k),
            old(self).ignores(status@) ==> final(self).seen(request_of(status@)) == old(self).seen(
                request_of(status@),
            ),
            !old(self).ignores(status@) ==> final(self).seen(request_of(status@)) == next_count(
                old(self).seen(request_of(status@)),
            ),
    {
        let (ignore, data) = match status {
            ResolvedStatus::Allow(v) => (!self.output_allowed_log, v),
            ResolvedStatus::AllowButError(v, _) => (!self.output_allowed_log, v),
            ResolvedStatus::Deny(v, _) => (false, v),
            ResolvedStatus::NoCheck(v) => (!self.output_nochecked_log, v),
            ResolvedStatus::NoCheckButError(v, _) => (!self.output_nochecked_log, v),
        };
        assert(request_of(status@) == (data.req_qtype, data.req_name@));
        if ignore {
            return LogDecision::Ignore;
        }
        let ghost key = (data.req_qtype, data.req_name@);
        let ghost cv = self.counts@.map_values(
            |e: (QueryType, String, usize)| (e.0, e.1@, e.2 as nat),
        );
        let name = String::from_str(data.req_name.as_str());
        let mut i: usize = 0;
        while i < self.counts.len()
            invariant
                *self == *old(self),
                0 <= i <= self.counts@.len(),
                cv == self.counts@.map_values(
                    |e: (QueryType, String, usize)| (e.0, e.1@, e.2 as nat),
                ),
                name@ == key.1,
                key == (data.req_qtype, data.req_name@),
                key == request_of(status@),
                !old(self).ignores(status@),
                forall|j: int| 0 <= j < i ==> (cv[j].0, cv[j].1) != key,
            decreases self.counts@.len() - i,
        {
            let e = &self.counts[i];
            assert(cv[i as int] == (e.0, e.1@, e.2 as nat));
            if e.0 == data.req_qtype && e.1 == name {
                let count = e.2;
                proof {
                    assert(is_first_entry(cv, key, i as int));
                    lemma_first_entry(cv, key, i as int);
                }
                let decided = if count < self.threshold {
                    LogDecision::Emit
                } else if count == self.threshold {
                    LogDecision::Warn
                } else {
                    LogDecision::Drop
                };
                let next = if count < usize::MAX { count + 1 } else { count };
                let t = e.0;
                self.counts.set(i, (t, name, next));
                proof {
                    let nv = self.counts@.map_values(
                        |e: (QueryType, String, usize)| (e.0, e.1@, e.2 as nat),
                    );
                    assert(nv =~= cv.update(i as int, (key.0, key.1, next as nat)));
                    assert(is_first_entry(nv, key, i as int));
                    lemma_first_entry(nv, key, i as int);
                    assert forall|k: (QueryType, Seq<char>)| k != key implies count_in(nv, k)
                        == count_in(cv, k) by {
                        lemma_same_keys(cv, nv, k);
                    }
                }
                return decided;
            }
            i = i + 1;
        }
        let decided = if 0 < self.threshold {
            LogDecision::Emit
        } else {
            LogDecision::Warn
        };
        self.counts.push((data.req_qtype, name, 1));
        proof {
            let nv = self.counts@.map_values(
                |e: (QueryType, String, usize)| (e.0, e.1@, e.2 as nat),
            );
            assert(nv =~= cv.push((key.0, key.1, 1nat)));
            assert(!exists|k: int| is_first_entry(cv, key, k));
            assert(is_first_entry(nv, key, cv.len() as int));
            lemma_first_entry(nv, key, cv.len() as int);
            assert forall|k: (QueryType, Seq<char>)| k != key implies count_in(nv, k) == count_in(
                cv,
                k,
            ) by {
                lemma_same_keys(cv, nv, k);
            }
        }
        decided
    }
}

} // verus!
