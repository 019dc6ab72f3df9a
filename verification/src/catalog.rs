//! The translation catalog: per-locale phrase mappings aggregated under
//! their locale keys, and the lookup API built on top of them.
//!
//! A catalog is built once from the full set of named resources and never
//! changed afterwards. Every lookup is total: when the locale or the phrase
//! is unknown, the queried text comes back unchanged, and a [`Condition`]
//! beside the result says why. Nothing here panics or aborts the caller.

use vstd::prelude::*;
use vstd::string::StrSliceExecFns;

use crate::parser::{create_translation_hashmap, find_char, parse_mapping, PhraseMap};

verus! {

/// The mapping held by a sequence of (locale key, phrase mapping) pairs,
/// a later pair overriding an earlier one with the same key.
pub open spec fn locale_entries_map(entries: Seq<(String, PhraseMap)>) -> Map<
    Seq<char>,
    Map<Seq<char>, Seq<char>>,
>
    decreases entries.len(),
{
    if entries.len() == 0 {
        Map::empty()
    } else {
        locale_entries_map(entries.drop_last()).insert(entries.last().0@, entries.last().1@)
    }
}

/// The catalog described by a sequence of named resources: each resource's
/// text parsed into its phrase mapping and stored under the resource's name,
/// a later resource overriding an earlier one with the same name.
pub open spec fn catalog_of(resources: Seq<(Seq<char>, Seq<char>)>) -> Map<
    Seq<char>,
    Map<Seq<char>, Seq<char>>,
>
    decreases resources.len(),
{
    if resources.len() == 0 {
        Map::empty()
    } else {
        catalog_of(resources.drop_last()).insert(
            resources.last().0,
            parse_mapping(resources.last().1),
        )
    }
}

/// The text a lookup returns: the stored translation on a hit, the queried
/// text itself when the locale or the phrase is unknown.
pub open spec fn spec_translate(
    cat: Map<Seq<char>, Map<Seq<char>, Seq<char>>>,
    text: Seq<char>,
    locale_key: Seq<char>,
) -> Seq<char> {
    if cat.contains_key(locale_key) && cat[locale_key].contains_key(text) {
        cat[locale_key][text]
    } else {
        text
    }
}

/// The locale key carried by an environment indicator: the portion before
/// the first `.`, or the whole indicator when it holds none.
pub open spec fn locale_prefix(indicator: Seq<char>) -> Seq<char> {
    match find_char(indicator, 0, '.') {
        Some(p) => indicator.subrange(0, p),
        None => indicator,
    }
}

/// The text a lookup through an environment indicator returns: the queried
/// text itself when the indicator is missing or carries an empty locale key,
/// and otherwise the plain lookup under that key.
pub open spec fn spec_translate_by_indicator(
    cat: Map<Seq<char>, Map<Seq<char>, Seq<char>>>,
    text: Seq<char>,
    indicator: Option<Seq<char>>,
) -> Seq<char> {
    match indicator {
        None => text,
        Some(raw) => if locale_prefix(raw).len() == 0 {
            text
        } else {
            spec_translate(cat, text, locale_prefix(raw))
        },
    }
}

/// A diagnostic reported beside a lookup's result. Every condition is
/// recoverable: the lookup still returns the queried text unchanged.
#[derive(Debug)]
pub enum Condition {
    /// The requested locale key names no resource in the catalog.
    LocaleNotFound { locale_key: String },
    /// The locale is known but holds no translation for the queried text.
    PhraseNotFound { text: String, locale_key: String },
    /// No environment indicator was supplied.
    EnvironmentIndicatorMissing,
    /// The indicator's locale-key portion is empty.
    MalformedEnvironmentIndicator { raw: String },
}

/// An immutable mapping from locale key to phrase mapping, built once from
/// the full set of embedded resources.
pub struct Catalog {
    locales: Vec<(String, PhraseMap)>,
}

impl View for Catalog {
    type V = Map<Seq<char>, Map<Seq<char>, Seq<char>>>;

    closed spec fn view(&self) -> Map<Seq<char>, Map<Seq<char>, Seq<char>>> {
        locale_entries_map(self.locales@)
    }
}

impl Catalog {
    /// Build the catalog from the full set of named resources, feeding each
    /// resource's text through the parser exactly once. Names are expected
    /// unique; should one repeat, the later resource wins.
    pub fn new(resources: &Vec<(String, String)>) -> (r: Catalog)
        ensures
            r@ == catalog_of(resources.deep_view()),
    {
        let ghost dv = resources.deep_view();
        let mut c = Catalog { locales: Vec::new() };
        let mut idx: usize = 0;
        proof {
            assert(dv.take(0) =~= Seq::<(Seq<char>, Seq<char>)>::empty());
        }
        while idx < resources.len()
            invariant
                idx <= resources.len(),
                dv == resources.deep_view(),
                c@ == catalog_of(dv.take(idx as int)),
            decreases resources.len() - idx,
        {
            let name = resources[idx].0.clone();
            let mapping = create_translation_hashmap(resources[idx].1.as_str());
            let ghost ls0 = c.locales@;
            c.locales.push((name, mapping));
            proof {
                assert(c.locales@.drop_last() =~= ls0);
                assert(dv.take(idx as int + 1).drop_last() =~= dv.take(idx as int));
                assert(dv.take(idx as int + 1).last() == dv[idx as int]);
                assert(dv[idx as int] == (resources@[idx as int].0@, resources@[idx as int].1@));
            }
            idx = idx + 1;
        }
        proof {
            assert(dv.take(resources.len() as int) =~= dv);
        }
        c
    }

    /// The index of the locale entry serving `locale_key`, if the catalog
    /// holds that key.
    fn find_locale(&self, locale_key: &str) -> (r: Option<usize>)
        ensures
            match r {
                Some(idx) => idx < self.locales@.len() && self@.contains_key(locale_key@)
                    && self.locales@[idx as int].1@ == self@[locale_key@],
                None => !self@.contains_key(locale_key@),
            },
    {
        let key_owned = locale_key.to_owned();
        let mut j = self.locales.len();
        proof {
            assert(self.locales@.take(self.locales.len() as int) =~= self.locales@);
        }
        while j > 0
            invariant
                j <= self.locales.len(),
                key_owned@ == locale_key@,
                self@.contains_key(locale_key@) == locale_entries_map(
                    self.locales@.take(j as int),
                ).contains_key(locale_key@),
                self@.contains_key(locale_key@) ==> locale_entries_map(
                    self.locales@.take(j as int),
                )[locale_key@] == self@[locale_key@],
            decreases j,
        {
            j = j - 1;
            proof {
                assert(self.locales@.take(j as int + 1).drop_last() =~= self.locales@.take(
                    j as int,
                ));
                assert(self.locales@.take(j as int + 1).last() == self.locales@[j as int]);
            }
            if self.locales[j].0 == key_owned {
                return Some(j);
            }
        }
        proof {
            assert(self.locales@.take(0) =~= Seq::<(String, PhraseMap)>::empty());
        }
        None
    }

    /// Look `text` up under `locale_key`. The first result is the translated
    /// phrase on a hit and `text` unchanged otherwise; the second says which
    /// condition, if any, made the lookup fall back.
    pub fn lookup(&self, text: &str, locale_key: &str) -> (r: (String, Option<Condition>))
        ensures
            r.0@ == spec_translate(self@, text@, locale_key@),
            self@.contains_key(locale_key@) && self@[locale_key@].contains_key(text@) ==> r.1
                is None,
            !self@.contains_key(locale_key@) ==> (r.1 matches Some(
                Condition::LocaleNotFound { locale_key: k },
            ) && k@ == locale_key@),
            self@.contains_key(locale_key@) && !self@[locale_key@].contains_key(text@) ==> (
            r.1 matches Some(Condition::PhraseNotFound { text: t, locale_key: k }) && t@ == text@
                && k@ == locale_key@),
    {
        match self.find_locale(locale_key) {
            None => (
                text.to_owned(),
                Some(Condition::LocaleNotFound { locale_key: locale_key.to_owned() }),
            ),
            Some(idx) => match self.locales[idx].1.get(text) {
                Some(translation) => (translation, None),
                None => (
                    text.to_owned(),
                    Some(
                        Condition::PhraseNotFound {
                            text: text.to_owned(),
                            locale_key: locale_key.to_owned(),
                        },
                    ),
                ),
            },
        }
    }

    /// Look `text` up through an optional environment locale indicator
    /// (conventionally `lang_REGION.ENCODING`): the portion before the first
    /// `.` is taken as the locale key. A missing indicator or an empty
    /// locale-key portion makes the lookup fall back to `text`.
    pub fn lookup_by_indicator(&self, text: &str, indicator: Option<&str>) -> (r: (
        String,
        Option<Condition>,
    ))
        ensures
            r.0@ == spec_translate_by_indicator(
                self@,
                text@,
                match indicator {
                    Some(raw) => Some(raw@),
                    None => None,
                },
            ),
            indicator is None ==> r.1 matches Some(Condition::EnvironmentIndicatorMissing),
            indicator matches Some(raw) ==> locale_prefix(raw@).len() == 0 ==> (r.1 matches Some(
                Condition::MalformedEnvironmentIndicator { raw: r2 },
            ) && r2@ == raw@),
            indicator matches Some(raw) ==> locale_prefix(raw@).len() > 0 ==> {
                let key = locale_prefix(raw@);
                &&& self@.contains_key(key) && self@[key].contains_key(text@) ==> r.1 is None
                &&& !self@.contains_key(key) ==> (r.1 matches Some(
                    Condition::LocaleNotFound { locale_key: k },
                ) && k@ == key)
                &&& self@.contains_key(key) && !self@[key].contains_key(text@) ==> (
                r.1 matches Some(Condition::PhraseNotFound { text: t, locale_key: k }) && t@
                    == text@ && k@ == key)
            },
    {
        match indicator {
            None => (text.to_owned(), Some(Condition::EnvironmentIndicatorMissing)),
            Some(raw) => {
                let n = raw.unicode_len();
                let key = match crate::parser::find_char_in(raw, n, 0, '.') {
                    Some(p) => raw.substring_char(0, p),
                    None => raw,
                };
                if key.unicode_len() == 0 {
                    (
                        text.to_owned(),
                        Some(Condition::MalformedEnvironmentIndicator { raw: raw.to_owned() }),
                    )
                } else {
                    self.lookup(text, key)
                }
            },
        }
    }
}

/// Translate `text` into the locale named by `locale_key`, returning `text`
/// itself when the catalog holds no translation for it.
pub fn trl(cat: &Catalog, text: &str, locale_key: &str) -> (r: String)
    ensures
        r@ == spec_translate(cat@, text@, locale_key@),
{
    let (translation, _) = cat.lookup(text, locale_key);
    translation
}

/// Translate `text` into the locale named by the system's environment
/// indicator (e.g. the `LANG` variable's value), returning `text` itself
/// when the indicator is missing or names no known locale.
pub fn tr(cat: &Catalog, text: &str, indicator: Option<&str>) -> (r: String)
    ensures
        r@ == spec_translate_by_indicator(
            cat@,
            text@,
            match indicator {
                Some(raw) => Some(raw@),
                None => None,
            },
        ),
{
    let (translation, _) = cat.lookup_by_indicator(text, indicator);
    translation
}

/// Fallback totality: a locale key absent from the catalog leaves every
/// text unchanged.
pub proof fn lemma_fallback_totality(
    cat: Map<Seq<char>, Map<Seq<char>, Seq<char>>>,
    text: Seq<char>,
    locale_key: Seq<char>,
)
    requires
        !cat.contains_key(locale_key),
    ensures
        spec_translate(cat, text, locale_key) == text,
{
}

/// Identity on a miss: a text without an entry in a known locale's mapping
/// comes back unchanged.
pub proof fn lemma_identity_on_miss(
    cat: Map<Seq<char>, Map<Seq<char>, Seq<char>>>,
    text: Seq<char>,
    locale_key: Seq<char>,
)
    requires
        cat.contains_key(locale_key),
        !cat[locale_key].contains_key(text),
    ensures
        spec_translate(cat, text, locale_key) == text,
{
}

/// Exact hit: every entry of a known locale's mapping is returned as
/// stored.
pub proof fn lemma_exact_hit(
    cat: Map<Seq<char>, Map<Seq<char>, Seq<char>>>,
    text: Seq<char>,
    locale_key: Seq<char>,
)
    requires
        cat.contains_key(locale_key),
        cat[locale_key].contains_key(text),
    ensures
        spec_translate(cat, text, locale_key) == cat[locale_key][text],
{
}

/// An indicator whose locale-key portion is non-empty behaves exactly as a
/// plain lookup under that key: with `tr_TR.UTF-8` supplied, a query answers
/// as it does under `tr_TR`.
pub proof fn lemma_indicator_delegates(
    cat: Map<Seq<char>, Map<Seq<char>, Seq<char>>>,
    text: Seq<char>,
    indicator: Seq<char>,
)
    requires
        locale_prefix(indicator).len() > 0,
    ensures
        spec_translate_by_indicator(cat, text, Some(indicator)) == spec_translate(
            cat,
            text,
            locale_prefix(indicator),
        ),
{
}

} // verus!

