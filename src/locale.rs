//! Choosing a locale for messages: BCP-47 identifiers as plain parts, and a
//! fallback chain from the requested identifier to the available ones.
use crate::text::views;
use unic_locale::LanguageIdentifier;
use vstd::prelude::*;

verus! {

/// A BCP-47 language identifier in canonical parts.
#[derive(Debug, Clone, PartialEq, Eq)]
pub struct LocaleId {
    pub language: String,
    pub script: Option<String>,
    pub region: Option<String>,
    pub variants: Vec<String>,
}

/// A locale identifier as plain values.
pub type LocaleView = (Seq<char>, Option<Seq<char>>, Option<Seq<char>>, Seq<Seq<char>>);

pub open spec fn opt_seq(s: Option<String>) -> Option<Seq<char>> {
    match s {
        Some(x) => Some(x@),
        None => None,
    }
}

pub open spec fn locale_view(l: LocaleId) -> LocaleView {
    (l.language@, opt_seq(l.script), opt_seq(l.region), views(l.variants@))
}

pub open spec fn locale_views(v: Seq<LocaleId>) -> Seq<LocaleView> {
    v.map_values(|l: LocaleId| locale_view(l))
}

/// The canonical parts of the identifier that `tag` spells, as
/// `unic_locale` parses it, or `None` when it is not one.
pub uninterp spec fn parsed_locale(tag: Seq<char>) -> Option<LocaleView>;

/// Whether `code` is an ISO 639-1 language code, as `isolang` knows them.
pub uninterp spec fn is_iso639_1(code: Seq<char>) -> bool;

/// The ISO 639-1 code of the language with ISO 639-3 code `code`, as
/// `isolang` knows them.
pub uninterp spec fn iso639_1_of_3(code: Seq<char>) -> Option<Seq<char>>;

/// Relies on `LanguageIdentifier::from_str` and the accessors of its parts.
#[verifier::external_body]
fn parse_parts(tag: &str) -> (r: Option<LocaleId>)
    ensures
        (match r {
            Some(l) => parsed_locale(tag@) == Some(locale_view(l)),
            None => parsed_locale(tag@) is None,
        }),
{
    tag.parse::<LanguageIdentifier>().ok().map(|id| LocaleId {
        language: id.language.to_string(),
        script: id.script.map(|s| s.to_string()),
        region: id.region.map(|r| r.to_string()),
        variants: id.variants().map(|v| v.to_string()).collect(),
    })
}

/// Relies on `isolang::Language::from_639_1`.
#[verifier::external_body]
fn known_639_1(code: &str) -> (r: bool)
    ensures
        r == is_iso639_1(code@),
{
    isolang::Language::from_639_1(code).is_some()
}

/// Relies on `isolang::Language::from_639_3` and `Language::to_639_1`.
#[verifier::external_body]
fn two_letter_of(code: &str) -> (r: Option<String>)
    ensures
        (match r {
            Some(c) => iso639_1_of_3(code@) == Some(c@),
            None => iso639_1_of_3(code@) is None,
        }),
{
    isolang::Language::from_639_3(code).and_then(|l| l.to_639_1()).map(|c| c.to_string())
}

/// The identifier that `tag` spells, if it is one.
pub fn parse_locale(tag: &str) -> (r: Option<LocaleId>)
    ensures
        (match r {
            Some(l) => parsed_locale(tag@) == Some(locale_view(l)),
            None => parsed_locale(tag@) is None,
        }),
{
    parse_parts(tag)
}

/// A language code in its two-letter form when ISO 639 has one.
pub open spec fn normalized(code: Seq<char>) -> Seq<char> {
    if is_iso639_1(code) {
        code
    } else {
        match iso639_1_of_3(code) {
            Some(two) => two,
            None => code,
        }
    }
}

/// The language code `code` in its two-letter form when ISO 639 has one;
/// other codes come back unchanged.
pub fn normalize_language_code(code: &str) -> (r: String)
    ensures
        r@ == normalized(code@),
{
    if known_639_1(code) {
        return String::from_str(code);
    }
    match two_letter_of(code) {
        Some(two) => two,
        None => String::from_str(code),
    }
}

/// The identifiers to try for `req`, most specific first: as requested,
/// without variants, without region, with the language normalized, and the
/// bare language.
pub open spec fn fallback_chain(req: LocaleView) -> Seq<LocaleView> {
    let (l, s, r, v) = req;
    let empty = Seq::<Seq<char>>::empty();
    let c0 = seq![req];
    let c1 = if v.len() > 0 {
        c0.push((l, s, r, empty))
    } else {
        c0
    };
    let c2 = if r is Some {
        c1.push((l, s, None, empty))
    } else {
        c1
    };
    let n = normalized(l);
    let c3 = if n != l {
        let a = if s is Some || r is Some {
            c2.push((n, s, r, empty))
        } else {
            c2
        };
        let b = if s is Some {
            a.push((n, s, None, empty))
        } else {
            a
        };
        b.push((n, None, None, empty))
    } else {
        c2
    };
    if s is Some || r is Some {
        c3.push((l, None, None, empty))
    } else {
        c3
    }
}

/// The first entry of `chain` that is in `available`.
pub open spec fn first_available(chain: Seq<LocaleView>, available: Seq<LocaleView>) -> Option<
    LocaleView,
>
    decreases chain.len(),
{
    if chain.len() == 0 {
        None
    } else if available.contains(chain[0]) {
        Some(chain[0])
    } else {
        first_available(chain.drop_first(), available)
    }
}

/// Copies of strings.
fn copy_all(v: &Vec<String>) -> (r: Vec<String>)
    ensures
        r@ == v@,
{
    crate::codec::copy_strings(v)
}

fn copy_opt(s: &Option<String>) -> (r: Option<String>)
    ensures
        opt_seq(r) == opt_seq(*s),
{
    match s {
        Some(x) => Some(x.clone()),
        None => None,
    }
}

fn same_opt(a: &Option<String>, b: &Option<String>) -> (r: bool)
    ensures
        r == (opt_seq(*a) == opt_seq(*b)),
{
    match (a, b) {
        (Some(x), Some(y)) => *x == *y,
        (None, None) => true,
        _ => false,
    }
}

fn same_strings(a: &Vec<String>, b: &Vec<String>) -> (r: bool)
    ensures
        r == (views(a@) == views(b@)),
{
    if a.len() != b.len() {
        assert(views(a@).len() != views(b@).len());
        return false;
    }
    let mut i: usize = 0;
    while i < a.len()
        invariant
            i <= a.len() == b.len(),
            forall|k: int| 0 <= k < i ==> a@[k]@ == b@[k]@,
        decreases a.len() - i,
    {
        if a[i] != b[i] {
            assert(views(a@)[i as int] != views(b@)[i as int]);
            return false;
        }
        i = i + 1;
    }
    assert(views(a@) =~= views(b@));
    true
}

/// Whether two identifiers are equal.
pub fn same_locale(a: &LocaleId, b: &LocaleId) -> (r: bool)
    ensures
        r == (locale_view(*a) == locale_view(*b)),
{
    a.language == b.language && same_opt(&a.script, &b.script) && same_opt(&a.region, &b.region)
        && same_strings(&a.variants, &b.variants)
}

fn make_locale(language: &String, script: &Option<String>, region: &Option<String>) -> (r: LocaleId)
    ensures
        locale_view(r) == (language@, opt_seq(*script), opt_seq(*region), Seq::<Seq<char>>::empty()),
{
    let r = LocaleId {
        language: language.clone(),
        script: copy_opt(script),
        region: copy_opt(region),
        variants: Vec::new(),
    };
    assert(views(r.variants@) =~= Seq::<Seq<char>>::empty());
    r
}

fn push_locale(chain: &mut Vec<LocaleId>, l: LocaleId)
    ensures
        locale_views(final(chain)@) == locale_views(old(chain)@).push(locale_view(l)),
{
    let ghost before = chain@;
    chain.push(l);
    assert(locale_views(chain@) =~= locale_views(before).push(locale_view(l)));
}

/// The fallback chain of `req`.
pub fn fallback_chain_of(req: &LocaleId) -> (r: Vec<LocaleId>)
    ensures
        locale_views(r@) == fallback_chain(locale_view(*req)),
{
    let none: Option<String> = None;
    let mut chain: Vec<LocaleId> = Vec::new();
    let first = LocaleId {
        language: req.language.clone(),
        script: copy_opt(&req.script),
        region: copy_opt(&req.region),
        variants: copy_all(&req.variants),
    };
    push_locale(&mut chain, first);
    if req.variants.len() > 0 {
        push_locale(&mut chain, make_locale(&req.language, &req.script, &req.region));
    }
    if req.region.is_some() {
        push_locale(&mut chain, make_locale(&req.language, &req.script, &none));
    }
    let n = normalize_language_code(req.language.as_str());
    if n != req.language {
        if req.script.is_some() || req.region.is_some() {
            push_locale(&mut chain, make_locale(&n, &req.script, &req.region));
        }
        if req.script.is_some() {
            push_locale(&mut chain, make_locale(&n, &req.script, &none));
        }
        push_locale(&mut chain, make_locale(&n, &none, &none));
    }
    if req.script.is_some() || req.region.is_some() {
        push_locale(&mut chain, make_locale(&req.language, &none, &none));
    }
    chain
}

/// Whether `available` holds `l`.
fn holds_locale(available: &Vec<LocaleId>, l: &LocaleId) -> (r: bool)
    ensures
        r == locale_views(available@).contains(locale_view(*l)),
{
    let mut i: usize = 0;
    while i < available.len()
        invariant
            i <= available.len(),
            forall|k: int| 0 <= k < i ==> locale_view(available@[k]) != locale_view(*l),
        decreases available.len() - i,
    {
        if same_locale(&available[i], l) {
            assert(locale_views(available@)[i as int] == locale_view(*l));
            return true;
        }
        i = i + 1;
    }
    assert(!locale_views(available@).contains(locale_view(*l))) by {
        if locale_views(available@).contains(locale_view(*l)) {
            let k = choose|k: int|
                0 <= k < locale_views(available@).len() && locale_views(available@)[k]
                    == locale_view(*l);
            assert(locale_view(available@[k]) == locale_view(*l));
        }
    }
    false
}

/// The best available identifier for `requested`: the first entry of its
/// fallback chain that is available.
pub fn find_best_match(available: &Vec<LocaleId>, requested: &LocaleId) -> (r: Option<LocaleId>)
    ensures
        (match r {
            Some(l) => first_available(
                fallback_chain(locale_view(*requested)),
                locale_views(available@),
            ) == Some(locale_view(l)),
            None => first_available(
                fallback_chain(locale_view(*requested)),
                locale_views(available@),
            ) is None,
        }),
{
    let chain = fallback_chain_of(requested);
    let ghost cv = locale_views(chain@);
    let ghost av = locale_views(available@);
    let mut i: usize = 0;
    assert(cv.subrange(0, cv.len() as int) =~= cv);
    while i < chain.len()
        invariant
            i <= chain.len(),
            cv == locale_views(chain@),
            cv == fallback_chain(locale_view(*requested)),
            av == locale_views(available@),
            first_available(cv, av) == first_available(cv.subrange(i as int, cv.len() as int), av),
        decreases chain.len() - i,
    {
        let ghost rest = cv.subrange(i as int, cv.len() as int);
        assert(rest[0] == locale_view(chain@[i as int]));
        assert(rest.drop_first() =~= cv.subrange(i as int + 1, cv.len() as int));
        if holds_locale(available, &chain[i]) {
            let l = &chain[i];
            let found = LocaleId {
                language: l.language.clone(),
                script: copy_opt(&l.script),
                region: copy_opt(&l.region),
                variants: copy_all(&l.variants),
            };
            assert(locale_view(found) == locale_view(chain@[i as int]));
            assert(av.contains(rest[0]));
            assert(first_available(rest, av) == Some(rest[0]));
            return Some(found);
        }
        i = i + 1;
    }
    None
}

/// The locale chosen for `preferences`: the best match of the first
/// preference that has one.
pub open spec fn chosen_locale(preferences: Seq<LocaleView>, available: Seq<LocaleView>) -> Option<
    LocaleView,
>
    decreases preferences.len(),
{
    if preferences.len() == 0 {
        None
    } else {
        match first_available(fallback_chain(preferences[0]), available) {
            Some(l) => Some(l),
            None => chosen_locale(preferences.drop_first(), available),
        }
    }
}

/// English, the locale of last resort.
pub open spec fn english() -> LocaleView {
    (seq!['e', 'n'], None, None, Seq::empty())
}

/// The locale to load: the best match of the first preference that has
/// one, or English.
pub fn select_best_locale(available: &Vec<LocaleId>, preferences: &Vec<LocaleId>) -> (r: LocaleId)
    ensures
        locale_view(r) == (match chosen_locale(locale_views(preferences@), locale_views(available@)) {
            Some(l) => l,
            None => english(),
        }),
{
    let ghost pv = locale_views(preferences@);
    let ghost av = locale_views(available@);
    let mut i: usize = 0;
    assert(pv.subrange(0, pv.len() as int) =~= pv);
    while i < preferences.len()
        invariant
            i <= preferences.len(),
            pv == locale_views(preferences@),
            av == locale_views(available@),
            chosen_locale(pv, av) == chosen_locale(pv.subrange(i as int, pv.len() as int), av),
        decreases preferences.len() - i,
    {
        let ghost rest = pv.subrange(i as int, pv.len() as int);
        assert(rest[0] == locale_view(preferences@[i as int]));
        assert(rest.drop_first() =~= pv.subrange(i as int + 1, pv.len() as int));
        match find_best_match(available, &preferences[i]) {
            Some(l) => {
                return l;
            },
            None => {},
        }
        i = i + 1;
    }
    proof {
        reveal_strlit("en");
    }
    let en = LocaleId { language: String::from_str("en"), script: None, region: None, variants: Vec::new() };
    assert(locale_view(en) =~= english());
    en
}

/// The tag of an identifier: its parts joined by `-`.
pub open spec fn tag_of(l: LocaleView) -> Seq<char> {
    let with_script = match l.1 {
        Some(s) => l.0 + seq!['-'] + s,
        None => l.0,
    };
    let with_region = match l.2 {
        Some(r) => with_script + seq!['-'] + r,
        None => with_script,
    };
    with_region + joined_variants(l.3)
}

/// Each variant preceded by `-`.
pub open spec fn joined_variants(v: Seq<Seq<char>>) -> Seq<char>
    decreases v.len(),
{
    if v.len() == 0 {
        Seq::empty()
    } else {
        joined_variants(v.drop_last()) + seq!['-'] + v.last()
    }
}

/// The tag of `l`, such as `nn-Runr-NO`.
pub fn locale_tag(l: &LocaleId) -> (r: String)
    ensures
        r@ == tag_of(locale_view(*l)),
{
    proof {
        reveal_strlit("-");
    }
    let mut s = l.language.clone();
    match &l.script {
        Some(x) => {
            s.append("-");
            s.append(x.as_str());
        },
        None => {},
    }
    match &l.region {
        Some(x) => {
            s.append("-");
            s.append(x.as_str());
        },
        None => {},
    }
    let ghost base = s@;
    let mut i: usize = 0;
    while i < l.variants.len()
        invariant
            i <= l.variants.len(),
            s@ == base + joined_variants(views(l.variants@).subrange(0, i as int)),
        decreases l.variants.len() - i,
    {
        let ghost v1 = views(l.variants@).subrange(0, i as int + 1);
        assert(v1.drop_last() =~= views(l.variants@).subrange(0, i as int));
        assert(v1.last() == l.variants@[i as int]@);
        proof {
            reveal_strlit("-");
        }
        s.append("-");
        s.append(l.variants[i].as_str());
        i = i + 1;
        assert(s@ =~= base + joined_variants(views(l.variants@).subrange(0, i as int)));
    }
    assert(views(l.variants@).subrange(0, l.variants.len() as int) =~= views(l.variants@));
    assert(s@ =~= tag_of(locale_view(*l)));
    s
}

} // verus!
