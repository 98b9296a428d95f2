//! Localized messages, held in an explicit value rather than process-wide
//! state. The messages of a locale are read from Fluent-style lines `key = value`; blank
//! lines and lines starting with `#` are skipped.
use crate::locale::{locale_view, LocaleId, LocaleView};
use crate::text::{chars_of, char_views, split, string_of, sub_chars, trim, trim_chars};
use vstd::prelude::*;

verus! {

/// The messages of one locale.
pub struct Localizer {
    entries: Vec<(String, String)>,
    current_locale: LocaleId,
}

/// `t` has the separator ` = ` at `i`.
pub open spec fn sep_at(t: Seq<char>, i: int) -> bool {
    0 <= i && i + 3 <= t.len() && t[i] == ' ' && t[i + 1] == '=' && t[i + 2] == ' '
}

/// The first position of the separator ` = ` in `t`, if any.
#[verifier::opaque]
pub open spec fn first_sep(t: Seq<char>) -> Option<int> {
    if exists|i: int| #[trigger] sep_at(t, i) {
        Some(choose|i: int| #[trigger] sep_at(t, i) && forall|j: int| 0 <= j < i ==> !sep_at(t, j))
    } else {
        None
    }
}

/// The entry that a line of a catalog file defines, if any.
pub open spec fn line_entry(line: Seq<char>) -> Option<(Seq<char>, Seq<char>)> {
    let t = trim(line);
    if t.len() == 0 || t[0] == '#' {
        None
    } else {
        match first_sep(t) {
            Some(i) => Some((trim(t.subrange(0, i)), trim(t.subrange(i + 3, t.len() as int)))),
            None => None,
        }
    }
}

/// The entries that the lines of a catalog file define, in order.
pub open spec fn entries_of(lines: Seq<Seq<char>>) -> Seq<(Seq<char>, Seq<char>)>
    decreases lines.len(),
{
    if lines.len() == 0 {
        Seq::empty()
    } else {
        match line_entry(lines.last()) {
            Some(e) => entries_of(lines.drop_last()).push(e),
            None => entries_of(lines.drop_last()),
        }
    }
}

/// The message for `key` among `entries`: the last one defined wins.
pub open spec fn message_of(entries: Seq<(Seq<char>, Seq<char>)>, key: Seq<char>) -> Option<
    Seq<char>,
>
    decreases entries.len(),
{
    if entries.len() == 0 {
        None
    } else if entries.last().0 == key {
        Some(entries.last().1)
    } else {
        message_of(entries.drop_last(), key)
    }
}

/// What a missing key reads as.
pub open spec fn missing_text(key: Seq<char>) -> Seq<char> {
    seq!['M', 'I', 'S', 'S', 'I', 'N', 'G', ':', ' '] + key
}

/// The text of `key` in a catalog with `entries`.
pub open spec fn text_of(entries: Seq<(Seq<char>, Seq<char>)>, key: Seq<char>) -> Seq<char> {
    match message_of(entries, key) {
        Some(m) => m,
        None => missing_text(key),
    }
}

/// `s` with every `from` replaced by `to`, as `str::replace` gives it.
pub uninterp spec fn replaced(s: Seq<char>, from: Seq<char>, to: Seq<char>) -> Seq<char>;

/// Relies on `str::replace`: `s` with each occurrence of `from` replaced by `to`.
#[verifier::external_body]
fn replace_all(s: &str, from: &str, to: &str) -> (r: String)
    ensures
        r@ == replaced(s@, from@, to@),
{
    s.replace(from, to)
}

/// The placeholder of argument `name` in a message: `{$name}`.
pub open spec fn placeholder(name: Seq<char>) -> Seq<char> {
    seq!['{', '$'] + name + seq!['}']
}

/// `message` with the placeholder of each argument replaced by its value,
/// argument after argument.
pub open spec fn filled(message: Seq<char>, args: Seq<(String, String)>) -> Seq<char>
    decreases args.len(),
{
    if args.len() == 0 {
        message
    } else {
        replaced(
            filled(message, args.drop_last()),
            placeholder(args.last().0@),
            args.last().1@,
        )
    }
}

/// Views of catalog entries.
pub open spec fn entry_views(e: Seq<(String, String)>) -> Seq<(Seq<char>, Seq<char>)> {
    e.map_values(|x: (String, String)| (x.0@, x.1@))
}

proof fn lemma_first_sep(t: Seq<char>, i: int)
    requires
        sep_at(t, i),
        forall|j: int| 0 <= j < i ==> !sep_at(t, j),
    ensures
        first_sep(t) == Some(i),
{
    reveal(first_sep);
    let k = choose|k: int| #[trigger] sep_at(t, k) && forall|j: int| 0 <= j < k ==> !sep_at(t, j);
    if k < i {
        assert(!sep_at(t, k));
    } else if k > i {
        assert(!sep_at(t, i));
    }
}

proof fn lemma_no_sep(t: Seq<char>)
    requires
        forall|j: int| 0 <= j < t.len() ==> !sep_at(t, j),
    ensures
        first_sep(t) is None,
{
    reveal(first_sep);
    if exists|j: int| #[trigger] sep_at(t, j) {
        let j = choose|j: int| #[trigger] sep_at(t, j);
        assert(j < t.len());
    }
}

/// The separator ` = ` at position `i` of `v`.
fn sep_at_exec(v: &Vec<char>, i: usize) -> (r: bool)
    ensures
        r == sep_at(v@, i as int),
{
    i < v.len() && v.len() - i >= 3 && v[i] == ' ' && v[i + 1] == '=' && v[i + 2] == ' '
}

/// The entry that one line defines, if any.
fn parse_entry(line: &Vec<char>) -> (r: Option<(String, String)>)
    ensures
        (match r {
            Some(e) => line_entry(line@) == Some((e.0@, e.1@)),
            None => line_entry(line@) is None,
        }),
{
    let t = trim_chars(line);
    if t.len() == 0 || t[0] == '#' {
        return None;
    }
    let mut i: usize = 0;
    while i < t.len()
        invariant
            i <= t.len(),
            t@ == trim(line@),
            t@.len() > 0 && t@[0] != '#',
            forall|j: int| 0 <= j < i ==> !sep_at(t@, j),
        decreases t.len() - i,
    {
        if sep_at_exec(&t, i) {
            proof {
                lemma_first_sep(t@, i as int);
            }
            let key = trim_chars(&sub_chars(&t, 0, i));
            let value = trim_chars(&sub_chars(&t, i + 3, t.len()));
            let ks = string_of(key.as_slice());
            let vs = string_of(value.as_slice());
            assert(line_entry(line@) == Some((ks@, vs@)));
            return Some((ks, vs));
        }
        i = i + 1;
    }
    proof {
        lemma_no_sep(t@);
    }
    None
}

impl Localizer {
    /// The entries of the catalog, in the order they were defined.
    pub closed spec fn entries(&self) -> Seq<(Seq<char>, Seq<char>)> {
        entry_views(self.entries@)
    }

    /// The locale whose messages these are.
    pub closed spec fn locale(&self) -> LocaleView {
        locale_view(self.current_locale)
    }

    /// The locale whose messages these are.
    pub fn current_locale(&self) -> (r: &LocaleId)
        ensures
            locale_view(*r) == self.locale(),
    {
        &self.current_locale
    }

    /// The text of `key`: its message, or `MISSING: key`.
    pub fn get(&self, key: &str) -> (r: String)
        ensures
            r@ == text_of(self.entries(), key@),
    {
        let k = chars_of(key);
        let mut i: usize = self.entries.len();
        assert(self.entries().subrange(0, i as int) =~= self.entries());
        while i > 0
            invariant
                k@ == key@,
                i <= self.entries.len(),
                message_of(self.entries(), key@) == message_of(self.entries().subrange(0, i as int), key@),
            decreases i,
        {
            let ghost s = self.entries().subrange(0, i as int);
            assert(s.drop_last() =~= self.entries().subrange(0, i as int - 1));
            assert(s.last() == self.entries()[i as int - 1]);
            let entry_key = chars_of(self.entries[i - 1].0.as_str());
            assert(s.last() == (self.entries@[i - 1].0@, self.entries@[i - 1].1@));
            if crate::text::same_chars(&entry_key, &k) {
                assert(message_of(s, key@) == Some(s.last().1));
                return self.entries[i - 1].1.clone();
            }
            assert(message_of(s, key@) == message_of(s.drop_last(), key@));
            i = i - 1;
        }
        proof {
            reveal_strlit("MISSING: ");
        }
        let mut s = String::from_str("MISSING: ");
        s.append(key);
        s
    }
}

/// The messages of `locale`, from the text of its catalog file.
pub fn init(locale: LocaleId, content: &str) -> (r: Localizer)
    ensures
        r.entries() == entries_of(split(content@, '\n')),
        r.locale() == locale_view(locale),
{
    let chars = chars_of(content);
    let lines = split_lines(&chars);
    let mut entries: Vec<(String, String)> = Vec::new();
    let mut i: usize = 0;
    while i < lines.len()
        invariant
            i <= lines.len(),
            entry_views(entries@) == entries_of(
                char_views(lines@).subrange(0, i as int),
            ),
        decreases lines.len() - i,
    {
        let ghost s1 = char_views(lines@).subrange(0, i as int + 1);
        assert(s1.drop_last() =~= char_views(lines@).subrange(0, i as int));
        assert(s1.last() == lines@[i as int]@);
        let ghost before = entries@;
        match parse_entry(&lines[i]) {
            Some(e) => {
                entries.push(e);
                assert(entry_views(entries@) =~= entry_views(before).push((e.0@, e.1@)));
            },
            None => {},
        }
        i = i + 1;
    }
    assert(char_views(lines@).subrange(0, lines.len() as int) =~= split(content@, '\n'));
    Localizer { entries, current_locale: locale }
}

/// The lines of a text.
fn split_lines(chars: &Vec<char>) -> (r: Vec<Vec<char>>)
    ensures
        char_views(r@) == split(chars@, '\n'),
{
    crate::text::split_chars(chars, '\n')
}

/// The text of `key` in `catalog`.
pub fn t(catalog: &Localizer, key: &str) -> (r: String)
    ensures
        r@ == text_of(catalog.entries(), key@),
{
    catalog.get(key)
}

/// The text of `key` in `catalog`, with the placeholder `{$name}` of each
/// argument `(name, value)` replaced by the value.
pub fn t_with_args(catalog: &Localizer, key: &str, args: &[(String, String)]) -> (r: String)
    ensures
        r@ == filled(text_of(catalog.entries(), key@), args@),
{
    let mut message = catalog.get(key);
    let mut i: usize = 0;
    while i < args.len()
        invariant
            i <= args.len(),
            message@ == filled(text_of(catalog.entries(), key@), args@.subrange(0, i as int)),
        decreases args.len() - i,
    {
        let ghost s1 = args@.subrange(0, i as int + 1);
        assert(s1.drop_last() =~= args@.subrange(0, i as int));
        let mut ph = String::from_str("{$");
        ph.append(args[i].0.as_str());
        ph.append("}");
        proof {
            reveal_strlit("{$");
            reveal_strlit("}");
        }
        assert(ph@ =~= placeholder(args@[i as int].0@));
        message = replace_all(message.as_str(), ph.as_str(), args[i].1.as_str());
        i = i + 1;
    }
    assert(args@.subrange(0, args.len() as int) =~= args@);
    message
}

} // verus!
