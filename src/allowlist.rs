//! A check-list of domain names: exact names, and wildcard patterns (names
//! with a `*`), kept in memory and read from or written to text.
use vstd::prelude::*;
use vstd::string::*;

use crate::error::{Error, Result};

verus! {

broadcast use vstd::seq_lib::group_seq_properties, vstd::set_lib::group_set_properties;

/// Wildcard matching of a whole name: `*` matches any run of characters,
/// `?` exactly one character, and every other character itself.
pub open spec fn glob_match(p: Seq<char>, s: Seq<char>) -> bool
    decreases p.len() + s.len(),
{
    if p.len() == 0 {
        s.len() == 0
    } else if p[0] == '*' {
        glob_match(p.drop_first(), s) || (s.len() > 0 && glob_match(p, s.drop_first()))
    } else if s.len() == 0 {
        false
    } else if p[0] == '?' || p[0] == s[0] {
        glob_match(p.drop_first(), s.drop_first())
    } else {
        false
    }
}

/// Relies on wildmatch's `WildMatch::new` and `WildMatch::matches`: `*`
/// matches any run of characters, `?` one character, anything else itself,
/// over the whole input.
#[verifier::external_body]
fn wildcard_matches(pattern: &str, name: &str) -> (r: bool)
    ensures
        r == glob_match(pattern@, name@),
{
    wildmatch::WildMatch::new(pattern).matches(name)
}

/// The characters of a text.
pub(crate) fn chars_of(s: &str) -> (r: Vec<char>)
    ensures
        r@ == s@,
{
    let mut r: Vec<char> = Vec::new();
    broadcast use vstd::string::axiom_spec_iter;
    for c in it: s.chars()
        invariant
            r@ == it.seq().subrange(0, it.index() as int),
            it.seq() == s@,
    {
        r.push(c);
        assert(r@ =~= it.seq().subrange(0, it.index() + 1));
    }
    r
}

/// Whether a text holds a `*`.
pub fn has_wildcard(s: &str) -> (r: bool)
    ensures
        r == s@.contains('*'),
{
    let cs = chars_of(s);
    let mut i: usize = 0;
    while i < cs.len()
        invariant
            cs@ == s@,
            0 <= i <= cs@.len(),
            forall|j: int| 0 <= j < i ==> cs@[j] != '*',
        decreases cs@.len() - i,
    {
        if cs[i] == '*' {
            return true;
        }
        i = i + 1;
    }
    false
}

/// The content of a check-list: its exact names and its patterns.
pub struct AllowListView {
    pub names: Set<Seq<char>>,
    pub patterns: Set<Seq<char>>,
}

impl AllowListView {
    /// Every entry, names and patterns.
    pub open spec fn entries(self) -> Set<Seq<char>> {
        self.names + self.patterns
    }

    /// Names hold no `*` and patterns do; both are finite.
    pub open spec fn wf(self) -> bool {
        &&& self.names.finite()
        &&& self.patterns.finite()
        &&& forall|x: Seq<char>| #[trigger] self.names.contains(x) ==> !x.contains('*')
        &&& forall|x: Seq<char>| #[trigger] self.patterns.contains(x) ==> x.contains('*')
    }

    /// `x` is an exact name of the list or matches one of its patterns.
    pub open spec fn matches(self, x: Seq<char>) -> bool {
        self.names.contains(x) || exists|p: Seq<char>|
            #[trigger] self.patterns.contains(p) && glob_match(p, x)
    }

    /// The list after adding `x`: a pattern where it holds a `*`, else a name.
    pub open spec fn add(self, x: Seq<char>) -> AllowListView {
        if x.contains('*') {
            AllowListView { patterns: self.patterns.insert(x), ..self }
        } else {
            AllowListView { names: self.names.insert(x), ..self }
        }
    }

    /// What adding `x` returns: 1 where it was new, else 0.
    pub open spec fn add_count(self, x: Seq<char>) -> usize {
        if x.contains('*') {
            if self.patterns.contains(x) { 0 } else { 1 }
        } else {
            if self.names.contains(x) { 0 } else { 1 }
        }
    }

    /// The list after deleting `x`: it leaves the exact names; patterns stay.
    pub open spec fn delete(self, x: Seq<char>) -> AllowListView {
        AllowListView { names: self.names.remove(x), ..self }
    }

    /// What deleting `x` returns: 1 where it was an exact name, else 0.
    pub open spec fn delete_count(self, x: Seq<char>) -> usize {
        if self.names.contains(x) { 1 } else { 0 }
    }
}

/// A pattern matches its own text.
pub proof fn lemma_glob_matches_itself(p: Seq<char>)
    ensures
        glob_match(p, p),
    decreases p.len(),
{
    if p.len() > 0 {
        lemma_glob_matches_itself(p.drop_first());
        if p[0] == '*' {
            assert(glob_match(p.drop_first(), p.drop_first()));
            assert(p.drop_first().len() > 0 ==> glob_match(p, p.drop_first())) by {
                if p.drop_first().len() > 0 {
                    reveal_with_fuel(glob_match, 2);
                }
            }
            reveal_with_fuel(glob_match, 2);
        }
    }
}

/// Adding the same entry twice is adding it once, and the second add
/// returns 0.
pub proof fn law_add_idempotent(l: AllowListView, x: Seq<char>)
    ensures
        l.add(x).add(x) == l.add(x),
        l.add(x).add_count(x) == 0,
{
    if x.contains('*') {
        assert(l.add(x).add(x).patterns =~= l.add(x).patterns);
    } else {
        assert(l.add(x).add(x).names =~= l.add(x).names);
    }
}

/// Once an add of `x` returns 1, `x` is matched by the list.
pub proof fn law_added_is_matched(l: AllowListView, x: Seq<char>)
    requires
        l.add_count(x) == 1,
    ensures
        l.add(x).matches(x),
{
    if x.contains('*') {
        lemma_glob_matches_itself(x);
        assert(l.add(x).patterns.contains(x));
    }
}

/// In a well-formed list no entry is both a name and a pattern, so the
/// number of entries is the number of names plus the number of patterns.
pub proof fn law_count_is_entries(l: AllowListView)
    requires
        l.wf(),
    ensures
        l.names.disjoint(l.patterns),
        l.entries().len() == l.names.len() + l.patterns.len(),
{
    assert(l.names.disjoint(l.patterns));
    vstd::set_lib::lemma_set_disjoint_lens(l.names, l.patterns);
}

/// Texts ordered by their characters' codes, a prefix first; for UTF-8 this
/// is the byte order of `str`.
pub open spec fn text_le(a: Seq<char>, b: Seq<char>) -> bool
    decreases a.len(),
{
    if a.len() == 0 {
        true
    } else if b.len() == 0 {
        false
    } else if a[0] != b[0] {
        (a[0] as u32) < (b[0] as u32)
    } else {
        text_le(a.drop_first(), b.drop_first())
    }
}

/// The texts are in ascending order.
pub open spec fn sorted_texts(s: Seq<Seq<char>>) -> bool {
    forall|i: int, j: int| 0 <= i < j < s.len() ==> text_le(#[trigger] s[i], #[trigger] s[j])
}

/// Each entry followed by a line feed.
pub open spec fn join_lines(es: Seq<Seq<char>>) -> Seq<char>
    decreases es.len(),
{
    if es.len() == 0 {
        seq![]
    } else {
        join_lines(es.drop_last()) + es.last() + seq!['\n']
    }
}

/// A text split at each line feed: always at least one piece, empty ones
/// included.
pub open spec fn split_newlines(t: Seq<char>) -> Seq<Seq<char>>
    decreases t.len(),
{
    if t.len() == 0 {
        seq![seq![]]
    } else {
        let rest = split_newlines(t.drop_last());
        if t.last() == '\n' {
            rest.push(seq![])
        } else {
            rest.update(rest.len() - 1, rest.last().push(t.last()))
        }
    }
}

/// A line without the carriage return that ended it, if any.
pub open spec fn strip_cr(l: Seq<char>) -> Seq<char> {
    if l.len() > 0 && l.last() == '\r' {
        l.drop_last()
    } else {
        l
    }
}

/// The lines of a text, as `BufRead::lines` gives them: split at line feeds,
/// a carriage return just before a line feed dropped, and a last line that
/// no line feed ends kept as it is, where it is not empty.
pub open spec fn text_lines(t: Seq<char>) -> Seq<Seq<char>> {
    let ps = split_newlines(t);
    let ended = ps.drop_last().map_values(|l: Seq<char>| strip_cr(l));
    if ps.last().len() == 0 {
        ended
    } else {
        ended.push(ps.last())
    }
}

/// The list made by adding each entry in turn to an empty one.
pub open spec fn from_entries(es: Seq<Seq<char>>) -> AllowListView
    decreases es.len(),
{
    if es.len() == 0 {
        AllowListView { names: Set::empty(), patterns: Set::empty() }
    } else {
        from_entries(es.drop_last()).add(es.last())
    }
}

/// `t` is what saving `l` writes: its names in order, then its patterns in
/// order, each once and followed by a line feed.
pub open spec fn is_saved_text(l: AllowListView, t: Seq<char>) -> bool {
    exists|sn: Seq<Seq<char>>, sp: Seq<Seq<char>>|
        {
            &&& sn.to_set() == l.names
            &&& sp.to_set() == l.patterns
            &&& sn.no_duplicates()
            &&& sp.no_duplicates()
            &&& sorted_texts(sn)
            &&& sorted_texts(sp)
            &&& t == #[trigger] join_lines(sn + sp)
        }
}

/// No entry holds a line feed or ends with a carriage return, so that each
/// entry is one line of the saved text.
pub open spec fn one_line_entries(l: AllowListView) -> bool {
    forall|x: Seq<char>|
        #[trigger] l.entries().contains(x) ==> !x.contains('\n') && strip_cr(x) == x
}

proof fn lemma_split_nonempty(t: Seq<char>)
    ensures
        split_newlines(t).len() >= 1,
    decreases t.len(),
{
    if t.len() > 0 {
        lemma_split_nonempty(t.drop_last());
    }
}

proof fn lemma_split_append(a: Seq<char>, s: Seq<char>)
    requires
        !s.contains('\n'),
    ensures
        split_newlines(a).len() >= 1,
        split_newlines(a + s) == split_newlines(a).update(
            split_newlines(a).len() - 1,
            split_newlines(a).last() + s,
        ),
    decreases s.len(),
{
    lemma_split_nonempty(a);
    if s.len() == 0 {
        assert(a + s =~= a);
        assert(split_newlines(a).last() + s =~= split_newlines(a).last());
        assert(split_newlines(a).update(split_newlines(a).len() - 1, split_newlines(a).last())
            =~= split_newlines(a));
    } else {
        lemma_split_append(a, s.drop_last());
        assert((a + s).drop_last() =~= a + s.drop_last());
        assert(s.last() != '\n') by {
            assert(s.contains(s.last()) ==> s.last() != '\n');
            assert(s[s.len() - 1] == s.last());
        }
        let r = split_newlines(a);
        let r1 = split_newlines(a + s.drop_last());
        assert(r1 == r.update(r.len() - 1, r.last() + s.drop_last()));
        assert(r1.len() == r.len());
        assert(r1.last() == r.last() + s.drop_last());
        assert(split_newlines(a + s) == r1.update(r1.len() - 1, r1.last().push(s.last())));
        assert(r.last() + s.drop_last() + seq![s.last()] =~= r.last() + s);
        assert(r1.last().push(s.last()) =~= r.last() + s);
        assert(split_newlines(a + s) =~= r.update(r.len() - 1, r.last() + s));
    }
}

proof fn lemma_split_joined(es: Seq<Seq<char>>)
    requires
        forall|i: int| 0 <= i < es.len() ==> !(#[trigger] es[i]).contains('\n'),
    ensures
        split_newlines(join_lines(es)) == es.push(seq![]),
    decreases es.len(),
{
    if es.len() > 0 {
        let e = es.last();
        let j0 = join_lines(es.drop_last());
        lemma_split_joined(es.drop_last());
        lemma_split_append(j0, e);
        assert((j0 + e + seq!['\n']).drop_last() =~= j0 + e);
        assert(split_newlines(join_lines(es)) =~= es.push(seq![]));
    } else {
        assert(split_newlines(seq![]) =~= seq![seq![]]);
    }
}

proof fn lemma_from_entries_sets(es: Seq<Seq<char>>)
    ensures
        from_entries(es).names == es.to_set().filter(|x: Seq<char>| !x.contains('*')),
        from_entries(es).patterns == es.to_set().filter(|x: Seq<char>| x.contains('*')),
    decreases es.len(),
{
    if es.len() == 0 {
        assert(es.to_set() =~= Set::empty());
        assert(from_entries(es).names =~= es.to_set().filter(|x: Seq<char>| !x.contains('*')));
        assert(from_entries(es).patterns =~= es.to_set().filter(|x: Seq<char>| x.contains('*')));
    } else {
        lemma_from_entries_sets(es.drop_last());
        Seq::lemma_to_set_insert_commutes(es.drop_last(), es.last());
        assert(es.drop_last() + seq![es.last()] =~= es);
        assert(from_entries(es).names =~= es.to_set().filter(|x: Seq<char>| !x.contains('*')));
        assert(from_entries(es).patterns =~= es.to_set().filter(|x: Seq<char>| x.contains('*')));
    }
}

/// Saving a list and loading the saved text gives the same list back, for
/// lists whose entries are single lines.
pub proof fn law_save_then_load(l: AllowListView, t: Seq<char>)
    requires
        l.wf(),
        one_line_entries(l),
        is_saved_text(l, t),
    ensures
        from_entries(text_lines(t)) == l,
{
    let (sn, sp) = choose|sn: Seq<Seq<char>>, sp: Seq<Seq<char>>|
        {
            &&& sn.to_set() == l.names
            &&& sp.to_set() == l.patterns
            &&& sn.no_duplicates()
            &&& sp.no_duplicates()
            &&& sorted_texts(sn)
            &&& sorted_texts(sp)
            &&& t == #[trigger] join_lines(sn + sp)
        };
    let es = sn + sp;
    assert forall|i: int| 0 <= i < es.len() implies !(#[trigger] es[i]).contains('\n') && strip_cr(
        es[i],
    ) == es[i] by {
        if i < sn.len() {
            assert(sn.to_set().contains(sn[i]));
            assert(l.entries().contains(es[i]));
        } else {
            assert(sp.to_set().contains(sp[i - sn.len()]));
            assert(l.entries().contains(es[i]));
        }
    }
    lemma_split_joined(es);
    assert(es.push(seq![]).drop_last() =~= es);
    assert(text_lines(t) =~= es);
    lemma_from_entries_sets(es);
    assert(es.to_set() =~= l.names + l.patterns) by {
        assert forall|x: Seq<char>| es.to_set().contains(x) <==> (l.names + l.patterns).contains(
            x,
        ) by {
            if es.contains(x) {
                let k = choose|k: int| 0 <= k < es.len() && es[k] == x;
                if k < sn.len() {
                    assert(sn.contains(x));
                } else {
                    assert(sp[k - sn.len()] == x);
                    assert(sp.contains(x));
                }
            }
            if sn.contains(x) {
                let k = choose|k: int| 0 <= k < sn.len() && sn[k] == x;
                assert(es[k] == x);
            }
            if sp.contains(x) {
                let k = choose|k: int| 0 <= k < sp.len() && sp[k] == x;
                assert(es[k + sn.len()] == x);
            }
        }
    }
    assert(from_entries(es).names =~= l.names);
    assert(from_entries(es).patterns =~= l.patterns);
}

/// `s` lists `l`: its exact names, each once, then its patterns, each once.
pub open spec fn is_listing(l: AllowListView, s: Seq<Seq<char>>) -> bool {
    exists|sn: Seq<Seq<char>>, sp: Seq<Seq<char>>|
        {
            &&& sn.to_set() == l.names
            &&& sp.to_set() == l.patterns
            &&& sn.no_duplicates()
            &&& sp.no_duplicates()
            &&& s == #[trigger] (sn + sp)
        }
}

/// The views of a list of strings.
pub open spec fn views(v: Seq<String>) -> Seq<Seq<char>> {
    v.map_values(|s: String| s@)
}

/// The index of `s` in `v`, if it is there.
fn position(v: &Vec<String>, s: &String) -> (r: Option<usize>)
    ensures
        r is Some ==> r->0 < v@.len() && v@[r->0 as int]@ == s@,
        r is None <==> !views(v@).contains(s@),
{
    let mut i: usize = 0;
    while i < v.len()
        invariant
            0 <= i <= v@.len(),
            forall|j: int| 0 <= j < i ==> v@[j]@ != s@,
        decreases v@.len() - i,
    {
        if v[i] == *s {
            assert(views(v@)[i as int] == s@);
            return Some(i);
        }
        i = i + 1;
    }
    proof {
        if views(v@).contains(s@) {
            let k = choose|k: int| 0 <= k < views(v@).len() && views(v@)[k] == s@;
            assert(v@[k]@ == s@);
        }
    }
    None
}

proof fn lemma_views_push(v: Seq<String>, s: String)
    ensures
        views(v.push(s)) == views(v).push(s@),
        views(v.push(s)).to_set() == views(v).to_set().insert(s@),
{
    assert(views(v.push(s)) =~= views(v).push(s@));
    Seq::lemma_to_set_insert_commutes(views(v), s@);
    assert(views(v) + seq![s@] =~= views(v).push(s@));
}

/// Relies on `slice::sort` for `String`: the same strings, in ascending
/// order of `str`'s `Ord`, which compares the UTF-8 bytes and so orders texts
/// by their characters' codes.
#[verifier::external_body]
fn sort_strings(v: &mut Vec<String>)
    ensures
        final(v)@.to_multiset() == old(v)@.to_multiset(),
        sorted_texts(views(final(v)@)),
{
    v.sort();
}

/// Copies of the strings.
fn copy_strings(v: &Vec<String>) -> (r: Vec<String>)
    ensures
        views(r@) == views(v@),
{
    let mut r: Vec<String> = Vec::new();
    let mut i: usize = 0;
    while i < v.len()
        invariant
            0 <= i <= v@.len(),
            views(r@) == views(v@.subrange(0, i as int)),
        decreases v@.len() - i,
    {
        let c = String::from_str(v[i].as_str());
        let ghost rr = r@;
        r.push(c);
        proof {
            lemma_views_push(rr, c);
            assert(views(v@.subrange(0, i + 1)) =~= views(v@.subrange(0, i as int)).push(v@[i as int]@));
        }
        i = i + 1;
    }
    assert(v@.subrange(0, i as int) =~= v@);
    r
}

/// Sorted copies of strings that are each there once: the same texts, each
/// once, in order.
fn sorted_copy(v: &Vec<String>) -> (r: Vec<String>)
    requires
        views(v@).no_duplicates(),
    ensures
        views(r@).to_set() == views(v@).to_set(),
        views(r@).no_duplicates(),
        sorted_texts(views(r@)),
{
    let mut r = copy_strings(v);
    let ghost r0 = r@;
    sort_strings(&mut r);
    proof {
        let a = views(r0);
        let b = views(r@);
        assert forall|x: Seq<char>| b.contains(x) <==> a.contains(x) by {
            if b.contains(x) {
                let k = choose|k: int| 0 <= k < b.len() && b[k] == x;
                assert(r@.to_multiset().count(r@[k]) > 0);
                assert(r0.contains(r@[k]));
                let j = choose|j: int| 0 <= j < r0.len() && r0[j] == r@[k];
                assert(a[j] == x);
            }
            if a.contains(x) {
                let k = choose|k: int| 0 <= k < a.len() && a[k] == x;
                assert(r0.to_multiset().count(r0[k]) > 0);
                assert(r@.contains(r0[k]));
                let j = choose|j: int| 0 <= j < r@.len() && r@[j] == r0[k];
                assert(b[j] == x);
            }
        }
        assert(b.to_set() =~= a.to_set());
        assert(r@.len() == r0.len()) by {
            r@.to_multiset_ensures();
            r0.to_multiset_ensures();
        }
        a.unique_seq_to_set();
        b.lemma_no_dup_set_cardinality();
    }
    r
}

/// Appends each text followed by a line feed.
fn append_lines(out: &mut String, v: &Vec<String>)
    ensures
        final(out)@ == old(out)@ + join_lines(views(v@)),
{
    let ghost o0 = out@;
    let mut i: usize = 0;
    assert(views(v@).subrange(0, 0) =~= seq![]);
    assert(o0 + join_lines(seq![]) =~= o0);
    while i < v.len()
        invariant
            0 <= i <= v@.len(),
            out@ == o0 + join_lines(views(v@).subrange(0, i as int)),
        decreases v@.len() - i,
    {
        proof {
            reveal_strlit("\n");
        }
        out.append(v[i].as_str());
        out.append("\n");
        assert(views(v@).subrange(0, i + 1).drop_last() =~= views(v@).subrange(0, i as int));
        i = i + 1;
        assert(out@ =~= o0 + join_lines(views(v@).subrange(0, i as int)));
    }
    assert(views(v@).subrange(0, i as int) =~= views(v@));
}

proof fn lemma_join_concat(a: Seq<Seq<char>>, b: Seq<Seq<char>>)
    ensures
        join_lines(a + b) == join_lines(a) + join_lines(b),
    decreases b.len(),
{
    if b.len() == 0 {
        assert(a + b =~= a);
        assert(join_lines(a) + join_lines(b) =~= join_lines(a));
    } else {
        lemma_join_concat(a, b.drop_last());
        assert((a + b).drop_last() =~= a + b.drop_last());
        assert(join_lines(a + b) =~= join_lines(a) + join_lines(b));
    }
}

/// `s` without the carriage return that ended it, if any.
fn strip_cr_of(s: &String) -> (r: String)
    ensures
        r@ == strip_cr(s@),
{
    let n = s.as_str().unicode_len();
    if n > 0 && s.as_str().get_char(n - 1) == '\r' {
        String::from_str(s.as_str().substring_char(0, n - 1))
    } else {
        String::from_str(s.as_str())
    }
}

/// The pieces of a text that a line feed ends, and the piece after the last
/// line feed.
fn line_pieces(text: &str) -> (r: (Vec<String>, String))
    ensures
        views(r.0@) == split_newlines(text@).drop_last(),
        r.1@ == split_newlines(text@).last(),
        r.1@.len() > 0 ==> r.0@.len() < usize::MAX,
{
    let cs = chars_of(text);
    let mut done: Vec<String> = Vec::new();
    let mut start: usize = 0;
    let mut i: usize = 0;
    assert(text@.subrange(0, 0) =~= seq![]);
    assert(views(done@).push(text@.subrange(0, 0)) =~= seq![seq![]]);
    while i < cs.len()
        invariant
            cs@ == text@,
            0 <= start <= i <= cs@.len(),
            done@.len() <= start,
            views(done@).push(text@.subrange(start as int, i as int)) == split_newlines(
                text@.subrange(0, i as int),
            ),
        decreases cs@.len() - i,
    {
        assert(text@.subrange(0, i + 1).drop_last() =~= text@.subrange(0, i as int));
        if cs[i] == '\n' {
            let piece = String::from_str(text.substring_char(start, i));
            let ghost d0 = done@;
            done.push(piece);
            proof {
                lemma_views_push(d0, piece);
                assert(text@.subrange((i + 1) as int, (i + 1) as int) =~= seq![]);
            }
            start = i + 1;
        } else {
            assert(text@.subrange(start as int, i + 1) =~= text@.subrange(
                start as int,
                i as int,
            ).push(cs@[i as int]));
        }
        i = i + 1;
        assert(views(done@).push(text@.subrange(start as int, i as int)) =~= split_newlines(
            text@.subrange(0, i as int),
        ));
    }
    assert(text@.subrange(0, i as int) =~= text@);
    let rest = String::from_str(text.substring_char(start, cs.len()));
    assert(views(done@) =~= split_newlines(text@).drop_last());
    (done, rest)
}

/// A check-list held in memory: exact names and wildcard patterns, each
/// without repeats, and the file it was read from, if any.
#[derive(Debug)]
pub struct InMemoryAllowList {
    path: Option<String>,
    names: Vec<String>,
    wnames: Vec<String>,
}

impl View for InMemoryAllowList {
    type V = AllowListView;

    closed spec fn view(&self) -> AllowListView {
        AllowListView { names: views(self.names@).to_set(), patterns: views(self.wnames@).to_set() }
    }
}

impl InMemoryAllowList {
    /// Each entry once; names without `*`, patterns with it; the count fits.
    pub closed spec fn wf(&self) -> bool {
        &&& views(self.names@).no_duplicates()
        &&& views(self.wnames@).no_duplicates()
        &&& forall|i: int| 0 <= i < self.names@.len() ==> !(#[trigger] self.names@[i])@.contains('*')
        &&& forall|i: int| 0 <= i < self.wnames@.len() ==> (#[trigger] self.wnames@[i])@.contains('*')
        &&& self.names@.len() + self.wnames@.len() <= usize::MAX
    }

    /// The file the list was read from, if any.
    pub closed spec fn spec_path(&self) -> Option<Seq<char>> {
        match self.path {
            Some(p) => Some(p@),
            None => None,
        }
    }

    /// The number of entries.
    pub closed spec fn spec_count(&self) -> nat {
        (self.names@.len() + self.wnames@.len()) as nat
    }

    /// A well-formed list has a well-formed view: names without `*`,
    /// patterns with it, both finite.
    pub proof fn lemma_view_wf(&self)
        requires
            self.wf(),
        ensures
            self@.wf(),
    {
        self.lemma_view();
    }

    proof fn lemma_view(&self)
        requires
            self.wf(),
        ensures
            self@.wf(),
            self@.names.len() == self.names@.len(),
            self@.patterns.len() == self.wnames@.len(),
            self.spec_count() == self@.entries().len(),
    {
        views(self.names@).unique_seq_to_set();
        views(self.wnames@).unique_seq_to_set();
        assert forall|x: Seq<char>| #[trigger] self@.names.contains(x) implies !x.contains('*') by {
            let k = choose|k: int| 0 <= k < views(self.names@).len() && views(self.names@)[k] == x;
            assert(self.names@[k]@ == x);
        }
        assert forall|x: Seq<char>| #[trigger] self@.patterns.contains(x) implies x.contains(
            '*',
        ) by {
            let k = choose|k: int|
                0 <= k < views(self.wnames@).len() && views(self.wnames@)[k] == x;
            assert(self.wnames@[k]@ == x);
        }
        law_count_is_entries(self@);
    }

    /// An empty list that belongs to no file.
    pub fn new() -> (r: Self)
        ensures
            r.wf(),
            r@.wf(),
            r@.names.is_empty(),
            r@.patterns.is_empty(),
            r.spec_path() is None,
    {
        let r = InMemoryAllowList { path: None, names: Vec::new(), wnames: Vec::new() };
        assert(views(r.names@) =~= seq![]);
        assert(views(r.wnames@) =~= seq![]);
        assert(r@.names =~= Set::empty());
        assert(r@.patterns =~= Set::empty());
        r
    }

    /// The list held by the file `path`, given its text `text`: each line is
    /// an entry, as `add` takes it.
    pub fn from_file(path: String, text: &str) -> (r: Self)
        ensures
            r.wf(),
            r@.wf(),
            r@ == from_entries(text_lines(text@)),
            r.spec_path() == Some(path@),
    {
        let (pieces, rest) = line_pieces(text);
        let ghost ended = views(pieces@).map_values(|l: Seq<char>| strip_cr(l));
        let mut list = InMemoryAllowList { path: Some(path), names: Vec::new(), wnames: Vec::new() };
        assert(views(list.names@) =~= seq![]);
        assert(views(list.wnames@) =~= seq![]);
        assert(list@.names =~= Set::empty());
        assert(list@.patterns =~= Set::empty());
        let mut k: usize = 0;
        while k < pieces.len()
            invariant
                0 <= k <= pieces@.len(),
                ended == views(pieces@).map_values(|l: Seq<char>| strip_cr(l)),
                list.wf(),
                list@ == from_entries(ended.subrange(0, k as int)),
                list.spec_count() <= k,
                list.spec_path() == Some(path@),
            decreases pieces@.len() - k,
        {
            let line = strip_cr_of(&pieces[k]);
            assert(line@ == ended[k as int]);
            list.add(line.as_str());
            assert(ended.subrange(0, k + 1).drop_last() =~= ended.subrange(0, k as int));
            k = k + 1;
        }
        assert(ended.subrange(0, k as int) =~= ended);
        if rest.as_str().unicode_len() > 0 {
            list.add(rest.as_str());
            assert(ended.push(rest@).drop_last() =~= ended);
        }
        proof {
            list.lemma_view();
        }
        list
    }

    /// Whether `name` is an exact name of the list or matches a pattern.
    pub fn check(&self, name: &str) -> (r: bool)
        requires
            self.wf(),
        ensures
            r == self@.matches(name@),
    {
        let s = String::from_str(name);
        if position(&self.names, &s).is_some() {
            return true;
        }
        let mut i: usize = 0;
        while i < self.wnames.len()
            invariant
                0 <= i <= self.wnames@.len(),
                !self@.names.contains(name@),
                forall|j: int| 0 <= j < i ==> !glob_match(#[trigger] self.wnames@[j]@, name@),
            decreases self.wnames@.len() - i,
        {
            if wildcard_matches(self.wnames[i].as_str(), name) {
                assert(views(self.wnames@)[i as int] == self.wnames@[i as int]@);
                assert(self@.patterns.contains(self.wnames@[i as int]@));
                return true;
            }
            i = i + 1;
        }
        assert forall|p: Seq<char>| #[trigger] self@.patterns.contains(p) implies !glob_match(
            p,
            name@,
        ) by {
            let k = choose|k: int|
                0 <= k < views(self.wnames@).len() && views(self.wnames@)[k] == p;
            assert(self.wnames@[k]@ == p);
        }
        false
    }

    /// Adds `name`: as a pattern where it holds a `*`, else as an exact name.
    /// Returns 1 where it was new, 0 where it was already there.
    pub fn add(&mut self, name: &str) -> (r: usize)
        requires
            old(self).wf(),
            old(self).spec_count() < usize::MAX,
        ensures
            final(self).wf(),
            final(self)@.wf(),
            final(self)@ == old(self)@.add(name@),
            r == old(self)@.add_count(name@),
            r == (if old(self)@.entries().contains(name@) { 0usize } else { 1usize }),
            final(self).spec_count() == old(self).spec_count() + r,
            final(self).spec_path() == old(self).spec_path(),
    {
        proof {
            self.lemma_view();
        }
        let s = String::from_str(name);
        let r = if has_wildcard(name) {
            match position(&self.wnames, &s) {
                Some(_) => {
                    assert(self@.add(name@).patterns =~= self@.patterns);
                    0
                },
                None => {
                    proof {
                        lemma_views_push(self.wnames@, s);
                    }
                    self.wnames.push(s);
                    1
                },
            }
        } else {
            match position(&self.names, &s) {
                Some(_) => {
                    assert(self@.add(name@).names =~= self@.names);
                    0
                },
                None => {
                    proof {
                        lemma_views_push(self.names@, s);
                    }
                    self.names.push(s);
                    1
                },
            }
        };
        proof {
            self.lemma_view();
        }
        r
    }

    /// Deletes `name` from the exact names; patterns are never deleted.
    /// Returns 1 where it was there, else 0.
    pub fn delete(&mut self, name: &str) -> (r: usize)
        requires
            old(self).wf(),
        ensures
            final(self).wf(),
            final(self)@.wf(),
            final(self)@ == old(self)@.delete(name@),
            r == old(self)@.delete_count(name@),
            final(self).spec_count() == old(self).spec_count() - r,
            final(self).spec_path() == old(self).spec_path(),
    {
        let s = String::from_str(name);
        let r = match position(&self.names, &s) {
            Some(i) => {
                let ghost v0 = views(self.names@);
                self.names.remove(i);
                proof {
                    assert(views(self.names@) =~= v0.remove(i as int));
                    v0.unique_seq_to_set();
                    let v1 = views(self.names@);
                    assert(v0[i as int] == name@);
                    assert forall|x: Seq<char>| v1.contains(x) <==> (v0.contains(x) && x != name@) by {
                        if v1.contains(x) {
                            let k = choose|k: int| 0 <= k < v1.len() && v1[k] == x;
                            if k < i {
                                assert(v0[k] == x);
                            } else {
                                assert(v0[k + 1] == x);
                            }
                        }
                        if v0.contains(x) && x != name@ {
                            let k = choose|k: int| 0 <= k < v0.len() && v0[k] == x;
                            if k < i {
                                assert(v1[k] == x);
                            } else {
                                assert(v1[k - 1] == x);
                            }
                        }
                    }
                    assert(v1.to_set() =~= v0.to_set().remove(name@));
                }
                1
            },
            None => {
                assert(self@.delete(name@).names =~= self@.names);
                0
            },
        };
        proof {
            self.lemma_view();
        }
        r
    }

    /// The number of entries, names and patterns.
    pub fn count(&self) -> (r: usize)
        requires
            self.wf(),
        ensures
            r == self@.entries().len(),
            r == self@.names.len() + self@.patterns.len(),
            r == self.spec_count(),
    {
        proof {
            self.lemma_view();
        }
        self.names.len() + self.wnames.len()
    }

    /// The text that saving writes: the exact names sorted, then the
    /// patterns sorted, each followed by a line feed.
    pub fn to_text(&self) -> (r: String)
        requires
            self.wf(),
        ensures
            is_saved_text(self@, r@),
    {
        let sn = sorted_copy(&self.names);
        let sp = sorted_copy(&self.wnames);
        let mut out = String::new();
        append_lines(&mut out, &sn);
        append_lines(&mut out, &sp);
        proof {
            lemma_join_concat(views(sn@), views(sp@));
            assert(seq![] + join_lines(views(sn@)) + join_lines(views(sp@)) =~= join_lines(
                views(sn@) + views(sp@),
            ));
            assert(out@ == join_lines(views(sn@) + views(sp@)));
        }
        out
    }

    /// What saving this list writes, and where: its file and its text. A list
    /// that was not read from a file fails with `SaveButInMemory`.
    pub fn save(&self) -> (r: Result<(String, String)>)
        requires
            self.wf(),
        ensures
            r is Ok <==> self.spec_path() is Some,
            r is Ok ==> Some(r->Ok_0.0@) == self.spec_path() && is_saved_text(self@, r->Ok_0.1@),
            r is Err ==> r->Err_0 is SaveButInMemory,
    {
        match &self.path {
            Some(p) => Ok((String::from_str(p.as_str()), self.to_text())),
            None => Err(Error::SaveButInMemory),
        }
    }

    /// The file this list was read from, if any.
    pub fn path(&self) -> (r: Option<String>)
        ensures
            match r {
                Some(p) => self.spec_path() == Some(p@),
                None => self.spec_path() is None,
            },
    {
        match &self.path {
            Some(p) => Some(String::from_str(p.as_str())),
            None => None,
        }
    }

    /// The exact names, each once.
    pub fn names(&self) -> (r: &Vec<String>)
        requires
            self.wf(),
        ensures
            views(r@).to_set() == self@.names,
            views(r@).no_duplicates(),
    {
        &self.names
    }

    /// The patterns, each once.
    pub fn wnames(&self) -> (r: &Vec<String>)
        requires
            self.wf(),
        ensures
            views(r@).to_set() == self@.patterns,
            views(r@).no_duplicates(),
    {
        &self.wnames
    }

    /// Walks every entry: the exact names, then the patterns.
    pub fn iter(&self) -> (r: AllowListIterator)
        requires
            self.wf(),
        ensures
            r.pos == 0,
            is_listing(self@, views(r.items@)),
            views(r.items@).to_set() == self@.entries(),
            views(r.items@).len() == self@.entries().len(),
    {
        AllowListIterator { items: self.entries(), pos: 0 }
    }

    /// Every entry: the exact names, then the patterns.
    pub fn entries(&self) -> (r: Vec<String>)
        requires
            self.wf(),
        ensures
            is_listing(self@, views(r@)),
            views(r@).to_set() == self@.entries(),
            views(r@).len() == self@.entries().len(),
    {
        proof {
            self.lemma_view();
        }
        let mut r = copy_strings(&self.names);
        let w = copy_strings(&self.wnames);
        let mut i: usize = 0;
        let ghost r0 = views(r@);
        while i < w.len()
            invariant
                0 <= i <= w@.len(),
                views(r@) == r0 + views(w@).subrange(0, i as int),
            decreases w@.len() - i,
        {
            let c = String::from_str(w[i].as_str());
            let ghost rr = r@;
            r.push(c);
            proof {
                lemma_views_push(rr, c);
                assert(views(w@)[i as int] == w@[i as int]@);
            }
            i = i + 1;
            assert(views(r@) =~= r0 + views(w@).subrange(0, i as int));
        }
        proof {
            assert(views(w@).subrange(0, i as int) =~= views(w@));
            let sn = views(self.names@);
            let sp = views(self.wnames@);
            assert(views(r@) == sn + sp);
            assert(sn.to_set() == self@.names && sp.to_set() == self@.patterns);
            assert(is_listing(self@, views(r@)));
            assert(views(r@).to_set() =~= self@.entries()) by {
                assert forall|x: Seq<char>| views(r@).contains(x) <==> self@.entries().contains(
                    x,
                ) by {
                    let a = views(self.names@);
                    let b = views(self.wnames@);
                    if views(r@).contains(x) {
                        let k = choose|k: int| 0 <= k < views(r@).len() && views(r@)[k] == x;
                        if k < a.len() {
                            assert(a[k] == x);
                        } else {
                            assert(b[k - a.len()] == x);
                        }
                    }
                    if a.contains(x) {
                        let k = choose|k: int| 0 <= k < a.len() && a[k] == x;
                        assert(views(r@)[k] == x);
                    }
                    if b.contains(x) {
                        let k = choose|k: int| 0 <= k < b.len() && b[k] == x;
                        assert(views(r@)[k + a.len()] == x);
                    }
                }
            }
        }
        r
    }
}

/// A check-list: exact names and wildcard patterns, in memory or read from a
/// file.
#[derive(Debug)]
pub struct AllowList {
    inner: InMemoryAllowList,
}

/// A check-list, as the filter names its allow and deny lists.
pub type CheckList = AllowList;

impl View for AllowList {
    type V = AllowListView;

    closed spec fn view(&self) -> AllowListView {
        self.inner@
    }
}

impl AllowList {
    /// The list is well formed.
    pub closed spec fn wf(&self) -> bool {
        self.inner.wf()
    }

    /// The number of entries, as `count` gives it.
    pub closed spec fn spec_count(&self) -> nat {
        self.inner.spec_count()
    }

    /// The file the list was read from, if any.
    pub closed spec fn spec_path(&self) -> Option<Seq<char>> {
        self.inner.spec_path()
    }

    /// A well-formed list has a well-formed view: names without `*`,
    /// patterns with it, both finite.
    pub proof fn lemma_view_wf(&self)
        requires
            self.wf(),
        ensures
            self@.wf(),
    {
        self.inner.lemma_view_wf();
    }

    /// An empty list that belongs to no file.
    pub fn in_memory() -> (r: Self)
        ensures
            r.wf(),
            r@.wf(),
            r@.names.is_empty(),
            r@.patterns.is_empty(),
            r.spec_path() is None,
    {
        AllowList { inner: InMemoryAllowList::new() }
    }

    /// The list held by the text of the file `path`, one entry per line.
    pub fn text(path: String, text: &str) -> (r: Self)
        ensures
            r.wf(),
            r@.wf(),
            r@ == from_entries(text_lines(text@)),
            r.spec_path() == Some(path@),
    {
        AllowList { inner: InMemoryAllowList::from_file(path, text) }
    }

    pub fn check(&self, name: &str) -> (r: bool)
        requires
            self.wf(),
        ensures
            r == self@.matches(name@),
    {
        self.inner.check(name)
    }

    pub fn add(&mut self, name: &str) -> (r: usize)
        requires
            old(self).wf(),
            old(self).spec_count() < usize::MAX,
        ensures
            final(self).wf(),
            final(self)@.wf(),
            final(self)@ == old(self)@.add(name@),
            r == old(self)@.add_count(name@),
            r == (if old(self)@.entries().contains(name@) { 0usize } else { 1usize }),
            final(self).spec_count() == old(self).spec_count() + r,
            final(self).spec_path() == old(self).spec_path(),
    {
        self.inner.add(name)
    }

    pub fn delete(&mut self, name: &str) -> (r: usize)
        requires
            old(self).wf(),
        ensures
            final(self).wf(),
            final(self)@.wf(),
            final(self)@ == old(self)@.delete(name@),
            r == old(self)@.delete_count(name@),
            final(self).spec_count() == old(self).spec_count() - r,
            final(self).spec_path() == old(self).spec_path(),
    {
        self.inner.delete(name)
    }

    pub fn count(&self) -> (r: usize)
        requires
            self.wf(),
        ensures
            r == self@.entries().len(),
            r == self@.names.len() + self@.patterns.len(),
            r == self.spec_count(),
    {
        self.inner.count()
    }

    pub fn save(&self) -> (r: Result<(String, String)>)
        requires
            self.wf(),
        ensures
            r is Ok <==> self.spec_path() is Some,
            r is Ok ==> Some(r->Ok_0.0@) == self.spec_path() && is_saved_text(self@, r->Ok_0.1@),
            r is Err ==> r->Err_0 is SaveButInMemory,
    {
        self.inner.save()
    }

    pub fn path(&self) -> (r: Option<String>)
        ensures
            match r {
                Some(p) => self.spec_path() == Some(p@),
                None => self.spec_path() is None,
            },
    {
        self.inner.path()
    }

    /// Walks every entry: the exact names, then the patterns.
    pub fn iter(&self) -> (r: AllowListIterator)
        requires
            self.wf(),
        ensures
            r.pos == 0,
            is_listing(self@, views(r.items@)),
            views(r.items@).to_set() == self@.entries(),
            views(r.items@).len() == self@.entries().len(),
    {
        AllowListIterator { items: self.inner.entries(), pos: 0 }
    }
}

impl Default for AllowList {
    fn default() -> (r: Self)
        ensures
            r.wf(),
            r@.wf(),
            r@.names.is_empty(),
            r@.patterns.is_empty(),
            r.spec_path() is None,
    {
        AllowList::in_memory()
    }
}

/// The entries of a check-list, one after the other.
pub struct AllowListIterator {
    pub items: Vec<String>,
    pub pos: usize,
}

impl AllowListIterator {
    /// The next entry, if any is left.
    pub fn next(&mut self) -> (r: Option<String>)
        ensures
            final(self).items == old(self).items,
            old(self).pos < old(self).items@.len() ==> r is Some && r->0@ == old(
                self,
            ).items@[old(self).pos as int]@ && final(self).pos == old(self).pos + 1,
            old(self).pos >= old(self).items@.len() ==> r is None && final(self).pos == old(
                self,
            ).pos,
    {
        if self.pos < self.items.len() {
            let s = String::from_str(self.items[self.pos].as_str());
            self.pos = self.pos + 1;
            Some(s)
        } else {
            None
        }
    }
}

} // verus!
