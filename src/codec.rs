//! The line protocol of the lookup tool: queries go in one per line, and
//! results come back as tab-separated lines `query<TAB>result[<TAB>weight]`.
use crate::index::{slot_entries, slots_get, slots_insert, slots_new, SlotMap};
use crate::text::{
    char_views, chars_of, has_char, has_char_in, has_pair, has_pair_in, same_chars, split,
    split_chars, string_of, trim, trim_bounds, trim_chars, trimmed, view_set, views,
};
use vstd::prelude::*;

verus! {

/// The marker that the tool writes in place of a result when it has none.
pub open spec fn no_result_marker() -> Seq<char> {
    seq!['+', 'i', 'n', 'f']
}

/// A trimmed line that carries a diagnostic or a comment: it starts with
/// `!` or `#` and holds no tab.
pub open spec fn is_comment(t: Seq<char>) -> bool {
    t.len() > 0 && (t[0] == '!' || t[0] == '#') && !has_char(t, '\t')
}

/// The tab-separated columns of a line, after trimming the line.
pub open spec fn columns(line: Seq<char>) -> Seq<Seq<char>> {
    split(trim(line), '\t')
}

/// A line that answers a query: not blank, no comment, at least two columns.
pub open spec fn is_data_line(line: Seq<char>) -> bool {
    let t = trim(line);
    t.len() > 0 && !is_comment(t) && columns(line).len() >= 2
}

/// The query that a data line echoes.
pub open spec fn echoed_query(line: Seq<char>) -> Seq<char> {
    trim(columns(line)[0])
}

/// A data line by which the tool says it could not transduce the query:
/// the result repeats the query and the third column holds `+?`.
pub open spec fn is_failure_echo(line: Seq<char>) -> bool {
    let cols = columns(line);
    cols.len() >= 3 && trim(cols[0]) == trim(cols[1]) && has_pair(trim(cols[2]), '+', '?')
}

/// The result that a line adds to the result set of its query, if any.
pub open spec fn line_result(line: Seq<char>) -> Option<Seq<char>> {
    let out = trim(columns(line)[1]);
    if !is_data_line(line) || out == no_result_marker() || is_failure_echo(line) || out.len() == 0
        || out == seq!['@'] {
        None
    } else {
        Some(out)
    }
}

/// The results that `lines` give for query `q`.
pub open spec fn results_in(lines: Seq<Seq<char>>, q: Seq<char>) -> Set<Seq<char>>
    decreases lines.len(),
{
    if lines.len() == 0 {
        Set::empty()
    } else {
        let prev = results_in(lines.drop_last(), q);
        let l = lines.last();
        if echoed_query(l) == q && line_result(l) is Some {
            prev.insert(line_result(l)->0)
        } else {
            prev
        }
    }
}

/// Some data line of `lines` echoes `q`.
pub open spec fn observed(lines: Seq<Seq<char>>, q: Seq<char>) -> bool {
    exists|k: int| 0 <= k < lines.len() && #[trigger] is_data_line(lines[k]) && echoed_query(lines[k]) == q
}

/// The lines of a block of tool output.
pub open spec fn output_lines(text: Seq<char>) -> Seq<Seq<char>> {
    split(text, '\n')
}

/// What is sent to the tool for `queries`: each one trimmed and ended by a newline.
pub open spec fn encoded(queries: Seq<Seq<char>>) -> Seq<char>
    decreases queries.len(),
{
    if queries.len() == 0 {
        Seq::empty()
    } else {
        encoded(queries.drop_last()) + trim(queries.last()) + seq!['\n']
    }
}

/// The trimmed queries of a batch.
pub open spec fn trimmed_all(queries: Seq<String>) -> Seq<Seq<char>> {
    queries.map_values(|q: String| trim(q@))
}

/// One line of tool output, classified.
pub enum LineEntry {
    /// Blank, a comment, or fewer than two columns.
    Ignored,
    /// A data line for the query that adds no result.
    Echo(String),
    /// A data line for the query with the result it adds.
    Found(String, String),
}

/// Classifies one line of tool output.
pub fn parse_line(line: &str) -> (r: LineEntry)
    ensures
        (match r {
            LineEntry::Ignored => !is_data_line(line@),
            LineEntry::Echo(q) => is_data_line(line@) && q@ == echoed_query(line@) && line_result(
                line@,
            ) is None,
            LineEntry::Found(q, out) => is_data_line(line@) && q@ == echoed_query(line@)
                && line_result(line@) == Some(out@),
        }),
{
    let v = chars_of(line);
    let t = trim_chars(&v);
    if t.len() == 0 {
        return LineEntry::Ignored;
    }
    let tab = has_char_in(&t, '\t');
    if (t[0] == '!' || t[0] == '#') && !tab {
        return LineEntry::Ignored;
    }
    let cols = split_chars(&t, '\t');
    if cols.len() < 2 {
        return LineEntry::Ignored;
    }
    let ghost cv = char_views(cols@);
    assert(cv[0] == cols@[0]@ && cv[1] == cols@[1]@);
    let q = trim_chars(&cols[0]);
    let out = trim_chars(&cols[1]);
    let query = string_of(q.as_slice());
    proof {
        reveal_strlit("+inf");
    }
    if out.len() == 4 && out[0] == '+' && out[1] == 'i' && out[2] == 'n' && out[3] == 'f' {
        assert(out@ =~= no_result_marker());
        return LineEntry::Echo(query);
    }
    assert(out@ != no_result_marker());
    if cols.len() >= 3 && same_chars(&q, &out) {
        assert(cv[2] == cols@[2]@);
        let third = trim_chars(&cols[2]);
        if has_pair_in(&third, '+', '?') {
            return LineEntry::Echo(query);
        }
    }
    if out.len() == 0 || (out.len() == 1 && out[0] == '@') {
        assert(out.len() == 0 || out@ =~= seq!['@']);
        return LineEntry::Echo(query);
    }
    assert(out@ != seq!['@']);
    LineEntry::Found(query, string_of(out.as_slice()))
}

/// The text sent to the tool for `queries`: each one trimmed, one per line.
pub fn encode_queries(queries: &[String]) -> (r: String)
    ensures
        r@ == encoded(views(queries@)),
{
    let mut out: Vec<char> = Vec::new();
    let mut i: usize = 0;
    while i < queries.len()
        invariant
            i <= queries.len(),
            out@ == encoded(views(queries@).subrange(0, i as int)),
        decreases queries.len() - i,
    {
        let v = chars_of(queries[i].as_str());
        let (a, b) = trim_bounds(&v);
        let mut k: usize = a;
        let ghost before = out@;
        while k < b
            invariant
                a <= k <= b <= v.len(),
                out@ == before + v@.subrange(a as int, k as int),
            decreases b - k,
        {
            out.push(v[k]);
            k = k + 1;
            assert(out@ =~= before + v@.subrange(a as int, k as int));
        }
        out.push('\n');
        let ghost qs = views(queries@).subrange(0, i as int + 1);
        assert(qs.drop_last() =~= views(queries@).subrange(0, i as int));
        assert(qs.last() == queries@[i as int]@);
        assert(out@ =~= encoded(qs));
        i = i + 1;
    }
    assert(views(queries@).subrange(0, queries.len() as int) =~= views(queries@));
    string_of(out.as_slice())
}

/// Whether `list` holds a string equal to `s`.
pub fn holds_string(list: &[String], s: &String) -> (r: bool)
    ensures
        r == views(list@).contains(s@),
{
    let mut i: usize = 0;
    while i < list.len()
        invariant
            i <= list.len(),
            forall|k: int| 0 <= k < i ==> list@[k]@ != s@,
        decreases list.len() - i,
    {
        if list[i] == *s {
            assert(views(list@)[i as int] == s@);
            return true;
        }
        i = i + 1;
    }
    assert(!views(list@).contains(s@)) by {
        if views(list@).contains(s@) {
            let k = choose|k: int| 0 <= k < views(list@).len() && views(list@)[k] == s@;
            assert(list@[k]@ == s@);
        }
    }
    false
}

/// Adds `item` to `list` unless an equal string is there already.
pub fn add_unique(list: &mut Vec<String>, item: String)
    requires
        views(old(list)@).no_duplicates(),
    ensures
        views(final(list)@).no_duplicates(),
        view_set(final(list)@) == view_set(old(list)@).insert(item@),
{
    if holds_string(list.as_slice(), &item) {
        assert(view_set(list@) =~= view_set(list@).insert(item@));
        return;
    }
    let ghost before = list@;
    list.push(item);
    assert(views(list@) =~= views(before).push(item@));
    proof {
        views(before).lemma_push_to_set_commute(item@);
    }
}

/// Copies of the strings of `v`.
pub fn copy_strings(v: &Vec<String>) -> (r: Vec<String>)
    ensures
        r@ == v@,
{
    let mut out: Vec<String> = Vec::new();
    let mut i: usize = 0;
    while i < v.len()
        invariant
            i <= v.len(),
            out@ == v@.subrange(0, i as int),
        decreases v.len() - i,
    {
        out.push(v[i].clone());
        i = i + 1;
        assert(out@ =~= v@.subrange(0, i as int));
    }
    assert(out@ =~= v@);
    out
}

proof fn lemma_results_push(lines: Seq<Seq<char>>, l: Seq<char>, q: Seq<char>)
    ensures
        results_in(lines.push(l), q) == (if echoed_query(l) == q && line_result(l) is Some {
            results_in(lines, q).insert(line_result(l)->0)
        } else {
            results_in(lines, q)
        }),
{
    assert(lines.push(l).drop_last() =~= lines);
}

proof fn lemma_observed_push(lines: Seq<Seq<char>>, l: Seq<char>, q: Seq<char>)
    ensures
        observed(lines.push(l), q) == (observed(lines, q) || (is_data_line(l) && echoed_query(l)
            == q)),
{
    let after = lines.push(l);
    if observed(after, q) {
        let k = choose|k: int|
            0 <= k < after.len() && #[trigger] is_data_line(after[k]) && echoed_query(after[k])
                == q;
        if k < lines.len() {
            assert(lines[k] == after[k]);
        }
    }
    if observed(lines, q) {
        let k = choose|k: int|
            0 <= k < lines.len() && #[trigger] is_data_line(lines[k]) && echoed_query(lines[k])
                == q;
        assert(after[k] == lines[k]);
    }
    if is_data_line(l) && echoed_query(l) == q {
        assert(after[lines.len() as int] == l);
    }
}

/// Results gathered for a batch of queries, line by line.
///
/// Each distinct trimmed query owns one slot, found through `index`; a query
/// that occurs twice shares the slot of its last occurrence.
pub struct ResultTable {
    keys: Vec<String>,
    index: SlotMap,
    slots: Vec<Vec<String>>,
    seen: Vec<bool>,
    lines: Ghost<Seq<Seq<char>>>,
}

impl ResultTable {
    /// The trimmed queries, in batch order.
    pub closed spec fn keys(&self) -> Seq<Seq<char>> {
        views(self.keys@)
    }

    /// The lines recorded so far.
    pub closed spec fn lines(&self) -> Seq<Seq<char>> {
        self.lines@
    }

    /// Slot `i` is the one that the query at `i` owns.
    closed spec fn owns(&self, i: int) -> bool {
        slot_entries(self.index)[self.keys@[i]@] == i
    }

    /// What slot `i` holds, if it is owned.
    closed spec fn slot_ok(&self, i: int) -> bool {
        &&& view_set(self.slots@[i]@) == results_in(self.lines@, self.keys@[i]@)
        &&& views(self.slots@[i]@).no_duplicates()
        &&& self.seen@[i] == observed(self.lines@, self.keys@[i]@)
    }

    pub closed spec fn wf(&self) -> bool {
        let n = self.keys.len();
        &&& self.slots.len() == n
        &&& self.seen.len() == n
        &&& forall|i: int|
            0 <= i < n ==> slot_entries(self.index).contains_key(#[trigger] self.keys@[i]@)
        &&& forall|q: Seq<char>|
            #[trigger] slot_entries(self.index).contains_key(q) ==> {
                let j = slot_entries(self.index)[q];
                &&& j < n
                &&& self.keys@[j as int]@ == q
            }
        &&& forall|i: int| 0 <= i < n && #[trigger] self.owns(i) ==> self.slot_ok(i)
    }

    /// An empty table for `queries`.
    pub fn new(queries: &[String]) -> (r: ResultTable)
        ensures
            r.wf(),
            r.keys() == trimmed_all(queries@),
            r.lines() == Seq::<Seq<char>>::empty(),
    {
        let mut keys: Vec<String> = Vec::new();
        let mut index = slots_new();
        let mut slots: Vec<Vec<String>> = Vec::new();
        let mut seen: Vec<bool> = Vec::new();
        let mut i: usize = 0;
        while i < queries.len()
            invariant
                i <= queries.len(),
                keys.len() == slots.len() == seen.len() == i,
                views(keys@) == trimmed_all(queries@).subrange(0, i as int),
                forall|k: int| 0 <= k < i ==> (#[trigger] slots@[k]@).len() == 0 && !seen@[k],
                forall|k: int| 0 <= k < i ==> slot_entries(index).contains_key(#[trigger] keys@[k]@),
                forall|q: Seq<char>|
                    #[trigger] slot_entries(index).contains_key(q) ==> {
                        let j = slot_entries(index)[q];
                        &&& j < i
                        &&& keys@[j as int]@ == q
                    },
            decreases queries.len() - i,
        {
            let key = trimmed(queries[i].as_str());
            let ghost kv = key@;
            let ghost old_index = index;
            let ghost old_keys = keys@;
            slots_insert(&mut index, key.clone(), i);
            keys.push(key);
            slots.push(Vec::new());
            seen.push(false);
            i = i + 1;
            assert(views(keys@) =~= trimmed_all(queries@).subrange(0, i as int));
            assert forall|k: int| 0 <= k < i implies slot_entries(index).contains_key(
                #[trigger] keys@[k]@,
            ) by {
                if k < i - 1 {
                    assert(keys@[k] == old_keys[k]);
                    assert(slot_entries(old_index).contains_key(old_keys[k]@));
                }
            }
            assert forall|q: Seq<char>| #[trigger] slot_entries(index).contains_key(q) implies {
                let j = slot_entries(index)[q];
                &&& j < i
                &&& keys@[j as int]@ == q
            } by {
                if q != kv {
                    assert(slot_entries(old_index).contains_key(q));
                    let j = slot_entries(old_index)[q];
                    assert(keys@[j as int] == old_keys[j as int]);
                }
            }
        }
        let r = ResultTable { keys, index, slots, seen, lines: Ghost(Seq::empty()) };
        assert forall|k: int| 0 <= k < r.keys.len() && #[trigger] r.owns(k) implies r.slot_ok(k) by {
            assert(view_set(r.slots@[k]@) =~= Set::empty());
        }
        r
    }

    /// Records one line of tool output.
    pub fn record(&mut self, line: &str)
        requires
            old(self).wf(),
        ensures
            final(self).wf(),
            final(self).keys() == old(self).keys(),
            final(self).lines() == old(self).lines().push(line@),
    {
        let entry = parse_line(line);
        let ghost l = line@;
        let ghost before = self.lines@;
        self.lines = Ghost(before.push(l));
        let ghost old_self = *old(self);
        let (query, found) = match entry {
            LineEntry::Ignored => {
                assert forall|i: int| 0 <= i < self.keys.len() && #[trigger] self.owns(i) implies self.slot_ok(i) by {
                    assert(old_self.owns(i));
                    lemma_results_push(before, l, self.keys@[i]@);
                    lemma_observed_push(before, l, self.keys@[i]@);
                }
                return ;
            },
            LineEntry::Echo(q) => (q, None),
            LineEntry::Found(q, out) => (q, Some(out)),
        };
        match slots_get(&self.index, query.as_str()) {
            None => {
                assert forall|i: int| 0 <= i < self.keys.len() && #[trigger] self.owns(i) implies self.slot_ok(i) by {
                    assert(old_self.owns(i));
                    lemma_results_push(before, l, self.keys@[i]@);
                    lemma_observed_push(before, l, self.keys@[i]@);
                    assert(slot_entries(self.index).contains_key(self.keys@[i]@));
                }
            },
            Some(j) => {
                assert(slot_entries(self.index).contains_key(query@));
                self.seen.set(j, true);
                match found {
                    Some(out) => {
                        assert(old_self.owns(j as int));
                        add_unique(&mut self.slots[j], out);
                    },
                    None => {},
                }
                assert forall|i: int| 0 <= i < self.keys.len() && #[trigger] self.owns(i) implies self.slot_ok(i) by {
                    assert(old_self.owns(i));
                    lemma_results_push(before, l, self.keys@[i]@);
                    lemma_observed_push(before, l, self.keys@[i]@);
                    if i != j {
                        assert(self.keys@[i]@ != query@);
                    }
                }
            },
        }
    }

    /// Whether every query has been echoed by some data line.
    pub fn all_seen(&self) -> (r: bool)
        requires
            self.wf(),
        ensures
            r == forall|i: int|
                0 <= i < self.keys().len() ==> observed(self.lines(), #[trigger] self.keys()[i]),
    {
        let mut i: usize = 0;
        while i < self.keys.len()
            invariant
                self.wf(),
                i <= self.keys.len(),
                forall|k: int| 0 <= k < i ==> observed(self.lines@, #[trigger] self.keys()[k]),
            decreases self.keys.len() - i,
        {
            assert(slot_entries(self.index).contains_key(self.keys@[i as int]@));
            let j = match slots_get(&self.index, self.keys[i].as_str()) {
                Some(j) => j,
                None => {
                    assert(false);
                    0
                },
            };
            assert(self.owns(j as int));
            assert(self.keys()[i as int] == self.keys@[i as int]@);
            if !self.seen[j] {
                return false;
            }
            i = i + 1;
        }
        true
    }

    /// The result list of each query, in batch order.
    pub fn results(&self) -> (r: Vec<Vec<String>>)
        requires
            self.wf(),
        ensures
            r.len() == self.keys().len(),
            forall|i: int|
                0 <= i < r.len() ==> view_set(#[trigger] r@[i]@) == results_in(
                    self.lines(),
                    self.keys()[i],
                ) && views(r@[i]@).no_duplicates(),
    {
        let mut out: Vec<Vec<String>> = Vec::new();
        let mut i: usize = 0;
        while i < self.keys.len()
            invariant
                self.wf(),
                i <= self.keys.len(),
                out.len() == i,
                forall|k: int|
                    0 <= k < i ==> view_set(#[trigger] out@[k]@) == results_in(
                        self.lines@,
                        self.keys()[k],
                    ) && views(out@[k]@).no_duplicates(),
            decreases self.keys.len() - i,
        {
            assert(slot_entries(self.index).contains_key(self.keys@[i as int]@));
            let j = match slots_get(&self.index, self.keys[i].as_str()) {
                Some(j) => j,
                None => {
                    assert(false);
                    0
                },
            };
            assert(self.owns(j as int));
            assert(self.keys()[i as int] == self.keys@[i as int]@);
            out.push(copy_strings(&self.slots[j]));
            i = i + 1;
        }
        out
    }
}

/// The result list of each query of a batch, from the tool's whole output.
pub fn decode_output(text: &str, queries: &[String]) -> (r: Vec<Vec<String>>)
    ensures
        r.len() == queries.len(),
        forall|i: int|
            0 <= i < r.len() ==> view_set(#[trigger] r@[i]@) == results_in(
                output_lines(text@),
                trim(queries@[i]@),
            ) && views(r@[i]@).no_duplicates(),
{
    let mut table = ResultTable::new(queries);
    let chars = chars_of(text);
    let lines = split_chars(&chars, '\n');
    let mut i: usize = 0;
    while i < lines.len()
        invariant
            table.wf(),
            table.keys() == trimmed_all(queries@),
            i <= lines.len(),
            table.lines() == char_views(lines@).subrange(0, i as int),
        decreases lines.len() - i,
    {
        let line = string_of(lines[i].as_slice());
        table.record(line.as_str());
        i = i + 1;
        assert(table.lines() =~= char_views(lines@).subrange(0, i as int));
    }
    assert(char_views(lines@).subrange(0, lines.len() as int) =~= output_lines(text@));
    let r = table.results();
    assert forall|i: int| 0 <= i < r.len() implies table.keys()[i] == trim(queries@[i]@) by {}
    r
}

/// `r` is a result that some line of `lines` gives for query `q`.
pub open spec fn gives(lines: Seq<Seq<char>>, q: Seq<char>, r: Seq<char>) -> bool {
    exists|k: int|
        0 <= k < lines.len() && echoed_query(lines[k]) == q && #[trigger] line_result(lines[k])
            == Some(r)
}

/// The results of a query are the results that its lines give, one by one.
pub proof fn lemma_results_are_given(lines: Seq<Seq<char>>, q: Seq<char>, r: Seq<char>)
    ensures
        results_in(lines, q).contains(r) <==> gives(lines, q, r),
    decreases lines.len(),
{
    if lines.len() > 0 {
        let prev = lines.drop_last();
        lemma_results_are_given(prev, q, r);
        if gives(prev, q, r) {
            let k = choose|k: int|
                0 <= k < prev.len() && echoed_query(prev[k]) == q && #[trigger] line_result(prev[k])
                    == Some(r);
            assert(lines[k] == prev[k]);
        }
        if gives(lines, q, r) {
            let k = choose|k: int|
                0 <= k < lines.len() && echoed_query(lines[k]) == q && #[trigger] line_result(
                    lines[k],
                ) == Some(r);
            if k < prev.len() {
                assert(prev[k] == lines[k]);
            }
        }
    }
}

/// The order of the tool's lines does not matter: two outputs holding the
/// same lines, in any order, give every query the same results.
pub proof fn lemma_line_order_irrelevant(a: Seq<Seq<char>>, b: Seq<Seq<char>>, q: Seq<char>)
    requires
        a.to_multiset() == b.to_multiset(),
    ensures
        results_in(a, q) == results_in(b, q),
{
    a.to_multiset_ensures();
    b.to_multiset_ensures();
    assert forall|r: Seq<char>| results_in(a, q).contains(r) == results_in(b, q).contains(r) by {
        lemma_results_are_given(a, q, r);
        lemma_results_are_given(b, q, r);
        if gives(a, q, r) {
            let k = choose|k: int|
                0 <= k < a.len() && echoed_query(a[k]) == q && #[trigger] line_result(a[k]) == Some(r);
            assert(a.contains(a[k]));
            assert(a.to_multiset().count(a[k]) > 0);
            assert(b.to_multiset().count(a[k]) > 0);
            assert(b.contains(a[k]));
            let j = choose|j: int| 0 <= j < b.len() && b[j] == a[k];
            assert(line_result(b[j]) == Some(r));
        }
        if gives(b, q, r) {
            let k = choose|k: int|
                0 <= k < b.len() && echoed_query(b[k]) == q && #[trigger] line_result(b[k]) == Some(r);
            assert(b.contains(b[k]));
            assert(b.to_multiset().count(b[k]) > 0);
            assert(a.to_multiset().count(b[k]) > 0);
            assert(a.contains(b[k]));
            let j = choose|j: int| 0 <= j < a.len() && a[j] == b[k];
            assert(line_result(a[j]) == Some(r));
        }
    }
    assert(results_in(a, q) =~= results_in(b, q));
}

} // verus!
