//! Parsing of one translation resource's text into its phrase mapping.
//!
//! A resource holds two kinds of entries, interleaved in any order and
//! separated by arbitrary text that matches neither form:
//!
//! - single-line: `"source" => "translation"`
//! - multi-line (raw): `#"source"# => #"translation"#`, where either phrase
//!   may span several literal lines
//!
//! Phrase content is taken verbatim between the delimiters: no escape
//! processing happens, so a backslash followed by `n` stays those two
//! characters. A source phrase is non-empty and runs to the nearest closing
//! delimiter (shortest match); a translated phrase may be empty. Text that
//! matches neither form is skipped silently; parsing never fails. The text is
//! scanned twice, once per entry form, single-line first; a later entry for a
//! source phrase already seen overrides the earlier one.

use vstd::prelude::*;
use vstd::string::StrSliceExecFns;

verus! {

/// The whitespace characters accepted between a phrase and the `=>` arrow.
pub open spec fn is_space(c: char) -> bool {
    c == ' ' || c == '\t' || c == '\n' || c == '\r' || c == '\u{b}' || c == '\u{c}'
}

/// Position of the first occurrence of `c` in `s` at or after `from`.
pub open spec fn find_char(s: Seq<char>, from: int, c: char) -> Option<int>
    decreases s.len() - from,
{
    if from < 0 || from >= s.len() {
        None
    } else if s[from] == c {
        Some(from)
    } else {
        find_char(s, from + 1, c)
    }
}

/// Position of the first occurrence of the two-character sequence `c0 c1`
/// in `s` at or after `from`.
pub open spec fn find_pair(s: Seq<char>, from: int, c0: char, c1: char) -> Option<int>
    decreases s.len() - from,
{
    if from < 0 || from + 1 >= s.len() {
        None
    } else if s[from] == c0 && s[from + 1] == c1 {
        Some(from)
    } else {
        find_pair(s, from + 1, c0, c1)
    }
}

/// First position at or after `from` holding a non-whitespace character,
/// or the length of `s` if only whitespace remains.
pub open spec fn skip_space(s: Seq<char>, from: int) -> int
    decreases s.len() - from,
{
    if from < 0 {
        0
    } else if from >= s.len() {
        s.len() as int
    } else if is_space(s[from]) {
        skip_space(s, from + 1)
    } else {
        from
    }
}

proof fn lemma_find_char_in_range(s: Seq<char>, from: int, c: char)
    ensures
        find_char(s, from, c) matches Some(q) ==> from <= q < s.len() && s[q] == c,
    decreases s.len() - from,
{
    if 0 <= from < s.len() && s[from] != c {
        lemma_find_char_in_range(s, from + 1, c);
    }
}

proof fn lemma_find_pair_in_range(s: Seq<char>, from: int, c0: char, c1: char)
    ensures
        find_pair(s, from, c0, c1) matches Some(q) ==> from <= q && q + 1 < s.len() && s[q] == c0
            && s[q + 1] == c1,
    decreases s.len() - from,
{
    if 0 <= from && from + 1 < s.len() && !(s[from] == c0 && s[from + 1] == c1) {
        lemma_find_pair_in_range(s, from + 1, c0, c1);
    }
}

proof fn lemma_skip_space_in_range(s: Seq<char>, from: int)
    ensures
        0 <= skip_space(s, from) <= s.len(),
        0 <= from <= s.len() ==> from <= skip_space(s, from),
    decreases s.len() - from,
{
    if 0 <= from < s.len() && is_space(s[from]) {
        lemma_skip_space_in_range(s, from + 1);
    }
}

/// Attempt to read a single-line entry whose opening quote stands at `i`:
/// `"source"`, optional whitespace, `=>`, optional whitespace,
/// `"translation"`. The source runs to the nearest closing quote and must be
/// non-empty; the translation may be empty. On success the result carries the
/// source, the translation, and the position just after the translation's
/// closing quote.
pub open spec fn single_match_at(s: Seq<char>, i: int) -> Option<(Seq<char>, Seq<char>, int)> {
    match find_char(s, i + 1, '"') {
        None => None,
        Some(q) => if q == i + 1 {
            None
        } else {
            let j = skip_space(s, q + 1);
            if j + 1 < s.len() && s[j] == '=' && s[j + 1] == '>' {
                let k = skip_space(s, j + 2);
                if k < s.len() && s[k] == '"' {
                    match find_char(s, k + 1, '"') {
                        None => None,
                        Some(t) => Some((s.subrange(i + 1, q), s.subrange(k + 1, t), t + 1)),
                    }
                } else {
                    None
                }
            } else {
                None
            }
        },
    }
}

/// Attempt to read a multi-line entry whose opening `#"` stands at `i`.
/// Each phrase runs to the nearest closing `"#`; the source must be
/// non-empty, the translation may be empty. On success the result carries the
/// source, the translation, and the position just after the translation's
/// closing `"#`.
pub open spec fn multi_match_at(s: Seq<char>, i: int) -> Option<(Seq<char>, Seq<char>, int)> {
    match find_pair(s, i + 2, '"', '#') {
        None => None,
        Some(q) => if q == i + 2 {
            None
        } else {
            let j = skip_space(s, q + 2);
            if j + 1 < s.len() && s[j] == '=' && s[j + 1] == '>' {
                let k = skip_space(s, j + 2);
                if k + 1 < s.len() && s[k] == '#' && s[k + 1] == '"' {
                    match find_pair(s, k + 2, '"', '#') {
                        None => None,
                        Some(t) => Some((s.subrange(i + 2, q), s.subrange(k + 2, t), t + 2)),
                    }
                } else {
                    None
                }
            } else {
                None
            }
        },
    }
}

proof fn lemma_single_match_at_in_range(s: Seq<char>, i: int)
    requires
        0 <= i,
    ensures
        single_match_at(s, i) matches Some(m) ==> i < m.2 <= s.len(),
{
    lemma_find_char_in_range(s, i + 1, '"');
    if let Some(q) = find_char(s, i + 1, '"') {
        let j = skip_space(s, q + 1);
        lemma_skip_space_in_range(s, q + 1);
        if j + 1 < s.len() && s[j] == '=' && s[j + 1] == '>' {
            lemma_skip_space_in_range(s, j + 2);
            let k = skip_space(s, j + 2);
            lemma_find_char_in_range(s, k + 1, '"');
        }
    }
}

proof fn lemma_multi_match_at_in_range(s: Seq<char>, i: int)
    requires
        0 <= i,
    ensures
        multi_match_at(s, i) matches Some(m) ==> i < m.2 <= s.len(),
{
    lemma_find_pair_in_range(s, i + 2, '"', '#');
    if let Some(q) = find_pair(s, i + 2, '"', '#') {
        let j = skip_space(s, q + 2);
        lemma_skip_space_in_range(s, q + 2);
        if j + 1 < s.len() && s[j] == '=' && s[j + 1] == '>' {
            lemma_skip_space_in_range(s, j + 2);
            let k = skip_space(s, j + 2);
            lemma_find_pair_in_range(s, k + 2, '"', '#');
        }
    }
}

/// No escape processing: the phrases of a matched multi-line entry are
/// contiguous slices of the resource text, character for character, so a
/// backslash followed by `n` in the source text stays those two characters
/// in the stored phrase — no newline substitution occurs.
pub proof fn lemma_multi_entry_verbatim(s: Seq<char>, i: int)
    ensures
        multi_match_at(s, i) matches Some(m) ==> (exists|a: int|
            0 <= a && a + m.0.len() <= s.len() && m.0 == #[trigger] s.subrange(
                a,
                a + m.0.len(),
            )) && (exists|b: int|
            0 <= b && b + m.1.len() <= s.len() && m.1 == #[trigger] s.subrange(
                b,
                b + m.1.len(),
            )),
{
    lemma_find_pair_in_range(s, i + 2, '"', '#');
    if let Some(q) = find_pair(s, i + 2, '"', '#') {
        let j = skip_space(s, q + 2);
        if j + 1 < s.len() && s[j] == '=' && s[j + 1] == '>' {
            lemma_skip_space_in_range(s, j + 2);
            let k = skip_space(s, j + 2);
            lemma_find_pair_in_range(s, k + 2, '"', '#');
            if let Some(t) = find_pair(s, k + 2, '"', '#') {
                if let Some(m) = multi_match_at(s, i) {
                    assert(m.0 == s.subrange(i + 2, (i + 2) + m.0.len()));
                    assert(m.1 == s.subrange(k + 2, (k + 2) + m.1.len()));
                }
            }
        }
    }
}

/// All single-line entries of `s` found at or after position `i`, in text
/// order: the scan restarts just after each entry found, and one character
/// further along when the text at `i` opens no entry.
pub open spec fn single_entries(s: Seq<char>, i: int) -> Seq<(Seq<char>, Seq<char>)>
    decreases s.len() - i,
    via single_entries_decreases
{
    if i < 0 || i >= s.len() {
        Seq::empty()
    } else if s[i] != '"' {
        single_entries(s, i + 1)
    } else {
        match single_match_at(s, i) {
            Some(m) => seq![(m.0, m.1)] + single_entries(s, m.2),
            None => single_entries(s, i + 1),
        }
    }
}

#[via_fn]
proof fn single_entries_decreases(s: Seq<char>, i: int) {
    if 0 <= i {
        lemma_single_match_at_in_range(s, i);
    }
}

/// All multi-line entries of `s` found at or after position `i`, in text
/// order, scanned the same way as [`single_entries`].
pub open spec fn multi_entries(s: Seq<char>, i: int) -> Seq<(Seq<char>, Seq<char>)>
    decreases s.len() - i,
    via multi_entries_decreases
{
    if i < 0 || i + 1 >= s.len() {
        Seq::empty()
    } else if !(s[i] == '#' && s[i + 1] == '"') {
        multi_entries(s, i + 1)
    } else {
        match multi_match_at(s, i) {
            Some(m) => seq![(m.0, m.1)] + multi_entries(s, m.2),
            None => multi_entries(s, i + 1),
        }
    }
}

#[via_fn]
proof fn multi_entries_decreases(s: Seq<char>, i: int) {
    if 0 <= i {
        lemma_multi_match_at_in_range(s, i);
    }
}

/// Insert the given entries into `m` in order, so that a later entry for a
/// source phrase already present overrides the earlier one.
pub open spec fn insert_all(
    m: Map<Seq<char>, Seq<char>>,
    entries: Seq<(Seq<char>, Seq<char>)>,
) -> Map<Seq<char>, Seq<char>>
    decreases entries.len(),
{
    if entries.len() == 0 {
        m
    } else {
        insert_all(m.insert(entries[0].0, entries[0].1), entries.drop_first())
    }
}

/// The phrase mapping of one resource text: every single-line entry, then
/// every multi-line entry, inserted in text order into an empty mapping.
pub open spec fn parse_mapping(s: Seq<char>) -> Map<Seq<char>, Seq<char>> {
    insert_all(insert_all(Map::empty(), single_entries(s, 0)), multi_entries(s, 0))
}

proof fn lemma_insert_all_cons(
    m: Map<Seq<char>, Seq<char>>,
    p: (Seq<char>, Seq<char>),
    entries: Seq<(Seq<char>, Seq<char>)>,
)
    ensures
        insert_all(m, seq![p] + entries) == insert_all(m.insert(p.0, p.1), entries),
{
    let s = seq![p] + entries;
    assert(s[0] == p);
    assert(s.drop_first() =~= entries);
}

/// Parsing is a function of the resource text alone: equal texts yield
/// equal mappings.
pub proof fn lemma_parse_deterministic(s1: Seq<char>, s2: Seq<char>)
    requires
        s1 == s2,
    ensures
        parse_mapping(s1) == parse_mapping(s2),
{
}

fn is_space_char(c: char) -> (b: bool)
    ensures
        b == is_space(c),
{
    c == ' ' || c == '\t' || c == '\n' || c == '\r' || c == '\u{b}' || c == '\u{c}'
}

pub(crate) fn find_char_in(s: &str, n: usize, from: usize, c: char) -> (r: Option<usize>)
    requires
        n == s@.len(),
        from <= n,
    ensures
        match r {
            Some(q) => find_char(s@, from as int, c) == Some(q as int) && from <= q < n,
            None => find_char(s@, from as int, c) is None,
        },
{
    let mut i = from;
    while i < n
        invariant
            n == s@.len(),
            from <= i <= n,
            find_char(s@, from as int, c) == find_char(s@, i as int, c),
        decreases n - i,
    {
        if s.get_char(i) == c {
            return Some(i);
        }
        i = i + 1;
    }
    None
}

fn find_pair_in(s: &str, n: usize, from: usize, c0: char, c1: char) -> (r: Option<usize>)
    requires
        n == s@.len(),
        from <= n,
    ensures
        match r {
            Some(q) => find_pair(s@, from as int, c0, c1) == Some(q as int) && from <= q && q + 1
                < n,
            None => find_pair(s@, from as int, c0, c1) is None,
        },
{
    let mut i = from;
    while i < n
        invariant
            n == s@.len(),
            from <= i <= n,
            find_pair(s@, from as int, c0, c1) == find_pair(s@, i as int, c0, c1),
        decreases n - i,
    {
        if i + 1 < n {
            if s.get_char(i) == c0 && s.get_char(i + 1) == c1 {
                return Some(i);
            }
        } else {
            return None;
        }
        i = i + 1;
    }
    None
}

fn skip_space_in(s: &str, n: usize, from: usize) -> (r: usize)
    requires
        n == s@.len(),
        from <= n,
    ensures
        r as int == skip_space(s@, from as int),
        from <= r <= n,
{
    let mut i = from;
    while i < n
        invariant
            n == s@.len(),
            from <= i <= n,
            skip_space(s@, from as int) == skip_space(s@, i as int),
        decreases n - i,
    {
        if !is_space_char(s.get_char(i)) {
            return i;
        }
        i = i + 1;
    }
    i
}

fn try_single(s: &str, n: usize, i: usize) -> (r: Option<(String, String, usize)>)
    requires
        n == s@.len(),
        i < n,
        s@[i as int] == '"',
    ensures
        match r {
            Some(m) => single_match_at(s@, i as int) == Some((m.0@, m.1@, m.2 as int)) && i < m.2
                <= n,
            None => single_match_at(s@, i as int) is None,
        },
{
    match find_char_in(s, n, i + 1, '"') {
        None => None,
        Some(q) => {
            if q == i + 1 {
                return None;
            }
            let j = skip_space_in(s, n, q + 1);
            if !(j < n && j + 1 < n && s.get_char(j) == '=' && s.get_char(j + 1) == '>') {
                return None;
            }
            let k = skip_space_in(s, n, j + 2);
            if !(k < n && s.get_char(k) == '"') {
                return None;
            }
            match find_char_in(s, n, k + 1, '"') {
                None => None,
                Some(t) => {
                    let source = s.substring_char(i + 1, q).to_owned();
                    let translation = s.substring_char(k + 1, t).to_owned();
                    Some((source, translation, t + 1))
                },
            }
        },
    }
}

fn try_multi(s: &str, n: usize, i: usize) -> (r: Option<(String, String, usize)>)
    requires
        n == s@.len(),
        i + 1 < n,
        s@[i as int] == '#',
        s@[i as int + 1] == '"',
    ensures
        match r {
            Some(m) => multi_match_at(s@, i as int) == Some((m.0@, m.1@, m.2 as int)) && i < m.2
                <= n,
            None => multi_match_at(s@, i as int) is None,
        },
{
    match find_pair_in(s, n, i + 2, '"', '#') {
        None => None,
        Some(q) => {
            if q == i + 2 {
                return None;
            }
            let j = skip_space_in(s, n, q + 2);
            if !(j < n && j + 1 < n && s.get_char(j) == '=' && s.get_char(j + 1) == '>') {
                return None;
            }
            let k = skip_space_in(s, n, j + 2);
            if !(k < n && k + 1 < n && s.get_char(k) == '#' && s.get_char(k + 1) == '"') {
                return None;
            }
            match find_pair_in(s, n, k + 2, '"', '#') {
                None => None,
                Some(t) => {
                    let source = s.substring_char(i + 2, q).to_owned();
                    let translation = s.substring_char(k + 2, t).to_owned();
                    Some((source, translation, t + 2))
                },
            }
        },
    }
}

/// The mapping held by a sequence of (source, translation) pairs, a later
/// pair overriding an earlier one with the same source phrase.
pub open spec fn entries_map(entries: Seq<(String, String)>) -> Map<Seq<char>, Seq<char>>
    decreases entries.len(),
{
    if entries.len() == 0 {
        Map::empty()
    } else {
        entries_map(entries.drop_last()).insert(entries.last().0@, entries.last().1@)
    }
}

/// A per-locale mapping from source phrase to translated phrase, built once
/// by parsing and never changed afterwards.
pub struct PhraseMap {
    entries: Vec<(String, String)>,
}

impl View for PhraseMap {
    type V = Map<Seq<char>, Seq<char>>;

    closed spec fn view(&self) -> Map<Seq<char>, Seq<char>> {
        entries_map(self.entries@)
    }
}

impl PhraseMap {
    /// The empty mapping.
    pub fn new() -> (r: PhraseMap)
        ensures
            r@ == Map::<Seq<char>, Seq<char>>::empty(),
    {
        PhraseMap { entries: Vec::new() }
    }

    /// Record a translation, overriding any earlier one for the same source.
    pub(crate) fn insert(&mut self, source: String, translation: String)
        ensures
            final(self)@ == old(self)@.insert(source@, translation@),
    {
        let ghost es0 = self.entries@;
        self.entries.push((source, translation));
        proof {
            assert(self.entries@.drop_last() =~= es0);
        }
    }

    /// The translation stored for `source`, if any.
    pub fn get(&self, source: &str) -> (r: Option<String>)
        ensures
            match r {
                Some(v) => self@.contains_key(source@) && v@ == self@[source@],
                None => !self@.contains_key(source@),
            },
    {
        let source_owned = source.to_owned();
        let mut j = self.entries.len();
        proof {
            assert(self.entries@.take(self.entries.len() as int) =~= self.entries@);
        }
        while j > 0
            invariant
                j <= self.entries.len(),
                source_owned@ == source@,
                self@.contains_key(source@) == entries_map(
                    self.entries@.take(j as int),
                ).contains_key(source@),
                self@.contains_key(source@) ==> entries_map(self.entries@.take(j as int))[source@]
                    == self@[source@],
            decreases j,
        {
            j = j - 1;
            proof {
                assert(self.entries@.take(j as int + 1).drop_last() =~= self.entries@.take(
                    j as int,
                ));
                assert(self.entries@.take(j as int + 1).last() == self.entries@[j as int]);
            }
            if self.entries[j].0 == source_owned {
                return Some(self.entries[j].1.clone());
            }
        }
        proof {
            assert(self.entries@.take(0) =~= Seq::<(String, String)>::empty());
        }
        None
    }
}

/// Parse one resource's text into its phrase mapping. Parsing never fails:
/// text that matches neither entry form contributes nothing.
pub fn create_translation_hashmap(localization_string: &str) -> (r: PhraseMap)
    ensures
        r@ == parse_mapping(localization_string@),
{
    let s = localization_string;
    let n = s.unicode_len();
    let mut pm = PhraseMap::new();
    let mut i: usize = 0;
    while i < n
        invariant
            n == s@.len(),
            i <= n,
            insert_all(pm@, single_entries(s@, i as int)) == insert_all(
                Map::<Seq<char>, Seq<char>>::empty(),
                single_entries(s@, 0),
            ),
        decreases n - i,
    {
        if s.get_char(i) == '"' {
            match try_single(s, n, i) {
                Some(m) => {
                    let ghost pm0 = pm@;
                    let (source, translation, end) = m;
                    proof {
                        assert(single_entries(s@, i as int) == seq![(source@, translation@)]
                            + single_entries(s@, end as int));
                        lemma_insert_all_cons(
                            pm0,
                            (source@, translation@),
                            single_entries(s@, end as int),
                        );
                    }
                    pm.insert(source, translation);
                    i = end;
                },
                None => {
                    i = i + 1;
                },
            }
        } else {
            i = i + 1;
        }
    }
    let ghost after_singles = pm@;
    let mut i2: usize = 0;
    while i2 < n
        invariant
            n == s@.len(),
            i2 <= n,
            insert_all(pm@, multi_entries(s@, i2 as int)) == insert_all(
                after_singles,
                multi_entries(s@, 0),
            ),
        decreases n - i2,
    {
        if i2 + 1 < n && s.get_char(i2) == '#' && s.get_char(i2 + 1) == '"' {
            match try_multi(s, n, i2) {
                Some(m) => {
                    let ghost pm0 = pm@;
                    let (source, translation, end) = m;
                    proof {
                        assert(multi_entries(s@, i2 as int) == seq![(source@, translation@)]
                            + multi_entries(s@, end as int));
                        lemma_insert_all_cons(
                            pm0,
                            (source@, translation@),
                            multi_entries(s@, end as int),
                        );
                    }
                    pm.insert(source, translation);
                    i2 = end;
                },
                None => {
                    i2 = i2 + 1;
                },
            }
        } else {
            i2 = i2 + 1;
        }
    }
    pm
}

} // verus!

