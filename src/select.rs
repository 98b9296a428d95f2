//! Picking the test blocks to run from a selector: a block number
//! (counting from one), a block title, or a group name.
use crate::text::{chars_of, trim, trim_chars};
use vstd::prelude::*;

verus! {

/// The value of a string of decimal digits.
pub open spec fn digits_value(s: Seq<char>) -> int
    decreases s.len(),
{
    if s.len() == 0 {
        0
    } else {
        digits_value(s.drop_last()) * 10 + (s.last() as int - '0' as int)
    }
}

pub open spec fn all_digits(s: Seq<char>) -> bool {
    forall|i: int| 0 <= i < s.len() ==> '0' <= #[trigger] s[i] && s[i] <= '9'
}

/// The digits of a number, after an optional `+`.
pub open spec fn number_digits(s: Seq<char>) -> Seq<char> {
    if s.len() > 0 && s[0] == '+' {
        s.drop_first()
    } else {
        s
    }
}

/// The `usize` that `s` spells in decimal, with an optional `+`, as
/// `str::parse` reads it.
pub open spec fn parsed_number(s: Seq<char>) -> Option<usize> {
    let d = number_digits(s);
    if d.len() > 0 && all_digits(d) && digits_value(d) <= usize::MAX {
        Some(digits_value(d) as usize)
    } else {
        None
    }
}

proof fn lemma_value_grows(s: Seq<char>, k: int)
    requires
        0 <= k <= s.len(),
        all_digits(s),
    ensures
        digits_value(s.subrange(0, k)) <= digits_value(s),
        0 <= digits_value(s.subrange(0, k)),
    decreases s.len() - k,
{
    if k < s.len() {
        lemma_value_grows(s, k + 1);
        let t = s.subrange(0, k + 1);
        assert(t.drop_last() =~= s.subrange(0, k));
        assert('0' <= s[k] && s[k] <= '9');
        let a = digits_value(s.subrange(0, k));
        let b = digits_value(t);
        assert(b == a * 10 + (s[k] as int - '0' as int));
        assert(a <= b) by (nonlinear_arith)
            requires
                b == a * 10 + (s[k] as int - '0' as int),
                0 <= s[k] as int - '0' as int,
                0 <= b,
        ;
    } else {
        assert(s.subrange(0, k) =~= s);
        lemma_value_nonneg(s);
    }
}

proof fn lemma_value_nonneg(s: Seq<char>)
    requires
        all_digits(s),
    ensures
        0 <= digits_value(s),
    decreases s.len(),
{
    if s.len() > 0 {
        assert(all_digits(s.drop_last()));
        lemma_value_nonneg(s.drop_last());
        assert('0' <= s[s.len() - 1]);
    }
}

/// Reads a block number.
pub fn parse_number(s: &Vec<char>) -> (r: Option<usize>)
    ensures
        r == parsed_number(s@),
{
    let start: usize = if s.len() > 0 && s[0] == '+' {
        1
    } else {
        0
    };
    let ghost d = number_digits(s@);
    assert(d =~= s@.subrange(start as int, s.len() as int));
    if start >= s.len() {
        return None;
    }
    let mut v: usize = 0;
    let mut i: usize = start;
    while i < s.len()
        invariant
            start <= i <= s.len(),
            d == number_digits(s@),
            d == s@.subrange(start as int, s.len() as int),
            all_digits(s@.subrange(start as int, i as int)),
            v as int == digits_value(s@.subrange(start as int, i as int)),
        decreases s.len() - i,
    {
        let c = s[i];
        if !('0' <= c && c <= '9') {
            assert(!all_digits(d)) by {
                assert(d[i - start] == c);
            }
            return None;
        }
        let digit = (c as u32 - '0' as u32) as usize;
        let ghost t = s@.subrange(start as int, i as int + 1);
        assert(t.drop_last() =~= s@.subrange(start as int, i as int));
        assert(digits_value(t) == v * 10 + digit);
        if v > (usize::MAX - digit) / 10 {
            proof {
                assert(v * 10 + digit > usize::MAX) by (nonlinear_arith)
                    requires
                        v > (usize::MAX - digit) / 10,
                        digit <= 9,
                ;
                if all_digits(d) {
                    assert(t =~= d.subrange(0, i - start + 1));
                    lemma_value_grows(d, i - start + 1);
                }
            }
            return None;
        }
        assert(v * 10 + digit <= usize::MAX) by (nonlinear_arith)
            requires
                v <= (usize::MAX - digit) / 10,
                digit <= 9,
        ;
        v = v * 10 + digit;
        i = i + 1;
        assert(all_digits(s@.subrange(start as int, i as int))) by {
            assert forall|k: int| 0 <= k < i - start implies '0' <= #[trigger] s@.subrange(
                start as int,
                i as int,
            )[k] && s@.subrange(start as int, i as int)[k] <= '9' by {
                if k < i - 1 - start {
                    assert(s@.subrange(start as int, i as int)[k] == s@.subrange(
                        start as int,
                        i - 1,
                    )[k]);
                }
            }
        }
    }
    Some(v)
}

/// The code of `c` in lower case, for ASCII letters.
pub open spec fn ascii_lower(c: char) -> int {
    if 'A' <= c && c <= 'Z' {
        (c as int) + 32
    } else {
        c as int
    }
}

/// `a` and `b` are equal up to the case of ASCII letters.
pub open spec fn same_ignoring_ascii_case(a: Seq<char>, b: Seq<char>) -> bool {
    a.len() == b.len() && forall|i: int| 0 <= i < a.len() ==> ascii_lower(#[trigger] a[i]) == ascii_lower(b[i])
}

fn lower(c: char) -> (r: u32)
    ensures
        r as int == ascii_lower(c),
{
    if 'A' <= c && c <= 'Z' {
        (c as u32) + 32
    } else {
        c as u32
    }
}

fn same_ignoring_case(a: &Vec<char>, b: &Vec<char>) -> (r: bool)
    ensures
        r == same_ignoring_ascii_case(a@, b@),
{
    if a.len() != b.len() {
        return false;
    }
    let mut i: usize = 0;
    while i < a.len()
        invariant
            i <= a.len() == b.len(),
            forall|k: int| 0 <= k < i ==> ascii_lower(#[trigger] a@[k]) == ascii_lower(b@[k]),
        decreases a.len() - i,
    {
        if lower(a[i]) != lower(b[i]) {
            return false;
        }
        i = i + 1;
    }
    true
}

/// What a selector asks for.
pub enum TestSelection {
    /// List the blocks.
    List,
    /// Run these blocks, by position.
    Blocks(Vec<usize>),
    /// A number outside `1..=count`.
    BadNumber(usize),
    /// No block has this title or group.
    NotFound,
}

/// A selector that asks for the list: `0`, `null` or `liste`, in any case.
pub open spec fn asks_for_list(t: Seq<char>) -> bool {
    t == seq!['0'] || same_ignoring_ascii_case(t, seq!['n', 'u', 'l', 'l'])
        || same_ignoring_ascii_case(t, seq!['l', 'i', 's', 't', 'e'])
}

/// The positions of the entries of `names` equal to `t`.
pub open spec fn matching(names: Seq<String>, t: Seq<char>) -> Seq<usize>
    decreases names.len(),
{
    if names.len() == 0 {
        Seq::empty()
    } else if names.last()@ == t {
        matching(names.drop_last(), t).push((names.len() - 1) as usize)
    } else {
        matching(names.drop_last(), t)
    }
}

/// The selection that `wanted` makes among blocks with these titles and groups.
pub open spec fn selection(wanted: Seq<char>, titles: Seq<String>, groups: Seq<String>) -> (
    bool,
    Option<usize>,
    Seq<usize>,
) {
    let t = trim(wanted);
    if asks_for_list(t) {
        (true, None, Seq::empty())
    } else {
        match parsed_number(t) {
            Some(n) => if 1 <= n <= titles.len() {
                (false, None, seq![(n - 1) as usize])
            } else {
                (false, Some(n), Seq::empty())
            },
            None => if matching(titles, t).len() > 0 {
                (false, None, matching(titles, t))
            } else {
                (false, None, matching(groups, t))
            },
        }
    }
}

fn positions_of(names: &Vec<String>, t: &Vec<char>) -> (r: Vec<usize>)
    ensures
        r@ == matching(names@, t@),
{
    let mut out: Vec<usize> = Vec::new();
    let mut i: usize = 0;
    while i < names.len()
        invariant
            i <= names.len(),
            out@ == matching(names@.subrange(0, i as int), t@),
        decreases names.len() - i,
    {
        let ghost s1 = names@.subrange(0, i as int + 1);
        assert(s1.drop_last() =~= names@.subrange(0, i as int));
        let name = chars_of(names[i].as_str());
        if crate::text::same_chars(&name, t) {
            out.push(i);
        }
        i = i + 1;
    }
    assert(names@.subrange(0, names.len() as int) =~= names@);
    out
}

/// The blocks that the selector `wanted` picks, given the title and the
/// group of each block: `0`, `null` or `liste` ask for the list; a number
/// picks that block; otherwise the blocks with that title, or else with
/// that group.
pub fn select_blocks(wanted: &str, titles: &Vec<String>, groups: &Vec<String>) -> (r: TestSelection)
    requires
        titles.len() == groups.len(),
    ensures
        (match r {
            TestSelection::List => selection(wanted@, titles@, groups@).0,
            TestSelection::Blocks(v) => !selection(wanted@, titles@, groups@).0 && selection(
                wanted@,
                titles@,
                groups@,
            ).1 is None && v@ == selection(wanted@, titles@, groups@).2 && v@.len() > 0,
            TestSelection::BadNumber(n) => !selection(wanted@, titles@, groups@).0 && selection(
                wanted@,
                titles@,
                groups@,
            ).1 == Some(n),
            TestSelection::NotFound => !selection(wanted@, titles@, groups@).0 && selection(
                wanted@,
                titles@,
                groups@,
            ).1 is None && selection(wanted@, titles@, groups@).2.len() == 0,
        }),
{
    let t = trim_chars(&chars_of(wanted));
    proof {
        reveal_strlit("null");
        reveal_strlit("liste");
    }
    let null = chars_of("null");
    let liste = chars_of("liste");
    let is_zero = t.len() == 1 && t[0] == '0';
    if is_zero {
        assert(t@ =~= seq!['0']);
    } else {
        assert(t@ != seq!['0']);
    }
    assert(null@ =~= seq!['n', 'u', 'l', 'l']);
    assert(liste@ =~= seq!['l', 'i', 's', 't', 'e']);
    if is_zero || same_ignoring_case(&t, &null) || same_ignoring_case(&t, &liste) {
        return TestSelection::List;
    }
    match parse_number(&t) {
        Some(n) => {
            if 1 <= n && n <= titles.len() {
                let mut v: Vec<usize> = Vec::new();
                v.push(n - 1);
                assert(v@ =~= seq![(n - 1) as usize]);
                TestSelection::Blocks(v)
            } else {
                TestSelection::BadNumber(n)
            }
        },
        None => {
            let by_title = positions_of(titles, &t);
            if by_title.len() > 0 {
                return TestSelection::Blocks(by_title);
            }
            let by_group = positions_of(groups, &t);
            if by_group.len() > 0 {
                TestSelection::Blocks(by_group)
            } else {
                TestSelection::NotFound
            }
        },
    }
}

} // verus!
