//! What a resolution found: the request and the answers by type.
use vstd::prelude::*;
use vstd::string::*;

use crate::dns::query_type::QueryType;
use crate::text::{decimal, decimal_text, join, join_with};

verus! {

/// The request and, by answer type in ascending order of types, the text of
/// each answer.
#[derive(Debug)]
pub struct ResolvedData {
    pub req_qtype: QueryType,
    pub req_name: String,
    pub resp: Vec<(QueryType, Vec<String>)>,
}

/// Resolved data as a value.
pub struct ResolvedDataView {
    pub req_qtype: QueryType,
    pub req_name: Seq<char>,
    pub resp: Seq<(QueryType, Seq<Seq<char>>)>,
}

/// The views of a list of strings.
pub open spec fn texts(v: Seq<String>) -> Seq<Seq<char>> {
    v.map_values(|s: String| s@)
}

/// An entry of the answers as a value.
pub open spec fn entry_view(e: (QueryType, Vec<String>)) -> (QueryType, Seq<Seq<char>>) {
    (e.0, texts(e.1@))
}

impl View for ResolvedData {
    type V = ResolvedDataView;

    open spec fn view(&self) -> ResolvedDataView {
        ResolvedDataView {
            req_qtype: self.req_qtype,
            req_name: self.req_name@,
            resp: self.resp@.map_values(|e: (QueryType, Vec<String>)| entry_view(e)),
        }
    }
}

/// The place of a query type in the order of types: unknown codes first, by
/// code, then A, AAAA, CNAME and SRV.
pub open spec fn rank(q: QueryType) -> int {
    match q {
        QueryType::UNKNOWN(v) => v as int,
        QueryType::A => 0x10000,
        QueryType::AAAA => 0x10001,
        QueryType::CNAME => 0x10002,
        QueryType::SRV => 0x10003,
    }
}

fn rank_of(q: QueryType) -> (r: u32)
    ensures
        r == rank(q),
{
    match q {
        QueryType::UNKNOWN(v) => v as u32,
        QueryType::A => 0x10000,
        QueryType::AAAA => 0x10001,
        QueryType::CNAME => 0x10002,
        QueryType::SRV => 0x10003,
    }
}

/// `k` is the first entry of type `key`.
pub open spec fn is_first_of(resp: Seq<(QueryType, Seq<Seq<char>>)>, key: QueryType, k: int) -> bool {
    0 <= k < resp.len() && resp[k].0 == key && forall|j: int| 0 <= j < k ==> resp[j].0 != key
}

/// The index of the first entry of type `key`, or -1.
pub open spec fn first_index(resp: Seq<(QueryType, Seq<Seq<char>>)>, key: QueryType) -> int {
    if exists|k: int| is_first_of(resp, key, k) {
        choose|k: int| is_first_of(resp, key, k)
    } else {
        -1
    }
}

/// `p` is the first entry whose type comes after `key`, or the end.
pub open spec fn is_insert_point(resp: Seq<(QueryType, Seq<Seq<char>>)>, key: QueryType, p: int) -> bool {
    &&& 0 <= p <= resp.len()
    &&& p < resp.len() ==> rank(resp[p].0) > rank(key)
    &&& forall|j: int| 0 <= j < p ==> rank(resp[j].0) <= rank(key)
}

/// Where an entry of a new type `key` goes: before the first entry whose
/// type comes after it.
pub open spec fn insert_point(resp: Seq<(QueryType, Seq<Seq<char>>)>, key: QueryType) -> int {
    choose|p: int| is_insert_point(resp, key, p)
}

/// The answers after adding `v` to those of type `key`: to its first entry,
/// or in a new entry put in the order of types.
pub open spec fn with_answer(
    resp: Seq<(QueryType, Seq<Seq<char>>)>,
    key: QueryType,
    v: Seq<char>,
) -> Seq<(QueryType, Seq<Seq<char>>)> {
    let k = first_index(resp, key);
    if k >= 0 {
        resp.update(k, (key, resp[k].1.push(v)))
    } else {
        resp.insert(insert_point(resp, key), (key, seq![v]))
    }
}

/// The answers of type `key`: those of the first entry for it, else none.
pub open spec fn answers_of(resp: Seq<(QueryType, Seq<Seq<char>>)>, key: QueryType) -> Seq<
    Seq<char>,
> {
    let k = first_index(resp, key);
    if k >= 0 {
        resp[k].1
    } else {
        seq![]
    }
}

/// ` TYPE(count)` for each entry whose type is not in `shown`, in order.
pub open spec fn others_text(resp: Seq<(QueryType, Seq<Seq<char>>)>, shown: Set<QueryType>) -> Seq<
    char,
>
    decreases resp.len(),
{
    if resp.len() == 0 {
        seq![]
    } else {
        others_text(resp.drop_last(), shown) + if shown.contains(resp.last().0) {
            seq![]
        } else {
            " "@ + resp.last().0.spec_text() + "("@ + decimal_text(resp.last().1.len()) + ")"@
        }
    }
}

/// ` TYPE(a, b, ...)` for the answers of a type, or nothing where there are
/// none.
pub open spec fn listed(key: QueryType, answers: Seq<Seq<char>>) -> Seq<char> {
    if answers.len() == 0 {
        seq![]
    } else {
        " "@ + key.spec_text() + "("@ + join_with(answers, ", "@) + ")"@
    }
}

impl ResolvedDataView {
    /// The types whose answers are listed in full: A and AAAA for an address
    /// request, SRV for a service request, where there are any.
    pub open spec fn shown(self) -> Set<QueryType> {
        let a = answers_of(self.resp, QueryType::A).len() > 0;
        let aaaa = answers_of(self.resp, QueryType::AAAA).len() > 0;
        let srv = answers_of(self.resp, QueryType::SRV).len() > 0;
        match self.req_qtype {
            QueryType::A | QueryType::AAAA => insert_if_spec(
                insert_if_spec(Set::empty(), a, QueryType::A),
                aaaa,
                QueryType::AAAA,
            ),
            QueryType::SRV => insert_if_spec(Set::empty(), srv, QueryType::SRV),
            _ => Set::empty(),
        }
    }

    /// `<TYPE> name =>`, the listed answers, then a count for each other type.
    pub open spec fn pretty(self) -> Seq<char> {
        let head = "<"@ + self.req_qtype.spec_text() + "> "@ + self.req_name + " =>"@;
        let body = match self.req_qtype {
            QueryType::A | QueryType::AAAA => listed(
                QueryType::A,
                answers_of(self.resp, QueryType::A),
            ) + listed(QueryType::AAAA, answers_of(self.resp, QueryType::AAAA)),
            QueryType::SRV => listed(QueryType::SRV, answers_of(self.resp, QueryType::SRV)),
            _ => seq![],
        };
        head + body + others_text(self.resp, self.shown())
    }
}

/// `s` with `x` in it where `b` holds.
pub open spec fn insert_if_spec(s: Set<QueryType>, b: bool, x: QueryType) -> Set<QueryType> {
    if b {
        s.insert(x)
    } else {
        s
    }
}

proof fn lemma_first_index(resp: Seq<(QueryType, Seq<Seq<char>>)>, key: QueryType, k: int)
    requires
        is_first_of(resp, key, k),
    ensures
        first_index(resp, key) == k,
{
    let c = choose|c: int| is_first_of(resp, key, c);
    if c < k {
        assert(resp[c].0 != key);
    } else if c > k {
        assert(resp[k].0 != key);
    }
}

proof fn lemma_insert_point(resp: Seq<(QueryType, Seq<Seq<char>>)>, key: QueryType, p: int)
    requires
        is_insert_point(resp, key, p),
    ensures
        insert_point(resp, key) == p,
{
    let c = choose|c: int| is_insert_point(resp, key, c);
    if c < p {
        assert(rank(resp[c].0) <= rank(key));
    } else if c > p {
        assert(rank(resp[p].0) <= rank(key));
    }
}

/// The index of the first entry of type `key`, if any.
fn find_entry(resp: &Vec<(QueryType, Vec<String>)>, key: QueryType) -> (r: Option<usize>)
    ensures
        match r {
            Some(k) => first_index(
                resp@.map_values(|e: (QueryType, Vec<String>)| entry_view(e)),
                key,
            ) == k as int,
            None => first_index(resp@.map_values(|e: (QueryType, Vec<String>)| entry_view(e)), key)
                == -1,
        },
{
    let ghost rv = resp@.map_values(|e: (QueryType, Vec<String>)| entry_view(e));
    let mut i: usize = 0;
    while i < resp.len()
        invariant
            rv == resp@.map_values(|e: (QueryType, Vec<String>)| entry_view(e)),
            0 <= i <= resp@.len(),
            forall|j: int| 0 <= j < i ==> rv[j].0 != key,
        decreases resp@.len() - i,
    {
        if resp[i].0 == key {
            proof {
                lemma_first_index(rv, key, i as int);
            }
            return Some(i);
        }
        i = i + 1;
    }
    assert(!exists|k: int| is_first_of(rv, key, k));
    None
}

impl ResolvedData {
    pub fn new(req_qtype: QueryType, req_name: String) -> (r: Self)
        ensures
            r@.req_qtype == req_qtype,
            r@.req_name == req_name@,
            r@.resp.len() == 0,
    {
        ResolvedData { req_qtype, req_name, resp: Vec::new() }
    }

    /// Adds the text of an answer of type `resp_qtype`.
    pub fn insert(&mut self, resp_qtype: QueryType, resp_name: String)
        ensures
            final(self)@.req_qtype == old(self)@.req_qtype,
            final(self)@.req_name == old(self)@.req_name,
            final(self)@.resp == with_answer(old(self)@.resp, resp_qtype, resp_name@),
    {
        let ghost rv = self@.resp;
        match find_entry(&self.resp, resp_qtype) {
            Some(k) => {
                let (t, mut list) = self.resp.remove(k);
                let ghost l0 = list@;
                list.push(resp_name);
                self.resp.insert(k, (t, list));
                proof {
                    assert(texts(list@) =~= texts(l0).push(resp_name@));
                    assert(self@.resp =~= rv.update(k as int, (resp_qtype, rv[k as int].1.push(resp_name@))));
                }
            },
            None => {
                let key_rank = rank_of(resp_qtype);
                let mut p: usize = 0;
                while p < self.resp.len() && rank_of(self.resp[p].0) <= key_rank
                    invariant
                        rv == self@.resp,
                        0 <= p <= self.resp@.len(),
                        key_rank == rank(resp_qtype),
                        forall|j: int| 0 <= j < p ==> rank(rv[j].0) <= rank(resp_qtype),
                    decreases self.resp@.len() - p,
                {
                    p = p + 1;
                }
                proof {
                    lemma_insert_point(rv, resp_qtype, p as int);
                }
                let mut list: Vec<String> = Vec::new();
                list.push(resp_name);
                self.resp.insert(p, (resp_qtype, list));
                proof {
                    assert(texts(list@) =~= seq![resp_name@]);
                    assert(self@.resp =~= rv.insert(p as int, (resp_qtype, seq![resp_name@])));
                }
            },
        }
    }

    /// ` TYPE(a, b, ...)` for the answers of type `key`, and whether there
    /// are any.
    fn listed_text(&self, key: QueryType) -> (r: (String, bool))
        ensures
            r.0@ == listed(key, answers_of(self@.resp, key)),
            r.1 == (answers_of(self@.resp, key).len() > 0),
    {
        match find_entry(&self.resp, key) {
            Some(k) => {
                let list = &self.resp[k].1;
                assert(answers_of(self@.resp, key) == texts(list@));
                if list.len() == 0 {
                    (String::new(), false)
                } else {
                    let s = String::from_str(" ").concat(key.to_string().as_str()).concat(
                        "(",
                    ).concat(join(list, ", ").as_str()).concat(")");
                    (s, true)
                }
            },
            None => (String::new(), false),
        }
    }

    /// `<TYPE> name =>`, then the answers of the requested kind in full,
    /// then a count of the answers of each other type.
    pub fn pretty_fmt(&self) -> (r: String)
        ensures
            r@ == self@.pretty(),
    {
        let ghost v = self@;
        let mut out = String::from_str("<").concat(self.req_qtype.to_string().as_str()).concat(
            "> ",
        ).concat(self.req_name.as_str()).concat(" =>");
        let mut show_a = false;
        let mut show_aaaa = false;
        let mut show_srv = false;
        match self.req_qtype {
            QueryType::A | QueryType::AAAA => {
                let (ta, sa) = self.listed_text(QueryType::A);
                let (t6, s6) = self.listed_text(QueryType::AAAA);
                out.append(ta.as_str());
                out.append(t6.as_str());
                show_a = sa;
                show_aaaa = s6;
            },
            QueryType::SRV => {
                let (ts, ss) = self.listed_text(QueryType::SRV);
                out.append(ts.as_str());
                show_srv = ss;
            },
            _ => {},
        }
        let ghost shown = v.shown();
        assert(forall|q: QueryType|
            shown.contains(q) <==> ((q == QueryType::A && show_a) || (q == QueryType::AAAA
                && show_aaaa) || (q == QueryType::SRV && show_srv)));
        let ghost o0 = out@;
        assert(o0 + others_text(v.resp.subrange(0, 0), shown) =~= o0);
        let mut i: usize = 0;
        while i < self.resp.len()
            invariant
                v == self@,
                0 <= i <= self.resp@.len(),
                forall|q: QueryType|
                    shown.contains(q) <==> ((q == QueryType::A && show_a) || (q
                        == QueryType::AAAA && show_aaaa) || (q == QueryType::SRV && show_srv)),
                out@ == o0 + others_text(v.resp.subrange(0, i as int), shown),
            decreases self.resp@.len() - i,
        {
            let key = self.resp[i].0;
            let skip = match key {
                QueryType::A => show_a,
                QueryType::AAAA => show_aaaa,
                QueryType::SRV => show_srv,
                _ => false,
            };
            if !skip {
                out.append(" ");
                out.append(key.to_string().as_str());
                out.append("(");
                out.append(decimal(self.resp[i].1.len() as u64).as_str());
                out.append(")");
            }
            proof {
                assert(v.resp.subrange(0, i + 1).drop_last() =~= v.resp.subrange(0, i as int));
                assert(v.resp[i as int].1.len() == self.resp@[i as int].1@.len());
            }
            i = i + 1;
            assert(out@ =~= o0 + others_text(v.resp.subrange(0, i as int), shown));
        }
        assert(v.resp.subrange(0, i as int) =~= v.resp);
        out
    }
}

} // verus!
