//! The dashboard's interface languages: translation tables read from JSON,
//! the persisted language option, locale detection and the language state
//! that `tr` reads.
use vstd::prelude::*;

use crate::text::{chars_equal, chars_of, is_white_space, lemma_trim_padded, trim, trim_chars};

verus! {

/// A language the dashboard has a translation table for.
#[derive(Clone, Copy, Debug, PartialEq, Eq, Structural)]
pub enum Locale {
    English,
    SimplifiedChinese,
}

/// The language chosen in the settings.
#[derive(Clone, Copy, Debug, PartialEq, Eq, Structural)]
pub enum LanguageOption {
    SystemDefault,
    English,
    SimplifiedChinese,
}

/// The text that stands for an option in the settings file.
pub open spec fn option_text(option: LanguageOption) -> Seq<char> {
    match option {
        LanguageOption::SystemDefault => seq!['s', 'y', 's', 't', 'e', 'm'],
        LanguageOption::English => seq!['e', 'n', '-', 'U', 'S'],
        LanguageOption::SimplifiedChinese => seq!['z', 'h', '-', 'C', 'N'],
    }
}

/// The option that a settings file's text stands for: the trimmed text
/// `en-US` or `zh-CN`, and the system default for anything else.
pub open spec fn option_from_text(text: Seq<char>) -> LanguageOption {
    let t = trim(text);
    if t == option_text(LanguageOption::English) {
        LanguageOption::English
    } else if t == option_text(LanguageOption::SimplifiedChinese) {
        LanguageOption::SimplifiedChinese
    } else {
        LanguageOption::SystemDefault
    }
}

/// The locale an option selects, where `system` is the detected one.
pub open spec fn option_locale(option: LanguageOption, system: Locale) -> Locale {
    match option {
        LanguageOption::SystemDefault => system,
        LanguageOption::English => Locale::English,
        LanguageOption::SimplifiedChinese => Locale::SimplifiedChinese,
    }
}

/// The locale that a language setting such as `zh_CN.UTF-8` names: Chinese
/// where its ASCII-lowercased text starts with `zh` (its first two characters
/// are `z` or `Z`, then `h` or `H`), English otherwise.
pub open spec fn locale_of_value(value: Seq<char>) -> Locale {
    if value.len() >= 2 && (value[0] == 'z' || value[0] == 'Z') && (value[1] == 'h' || value[1]
        == 'H') {
        Locale::SimplifiedChinese
    } else {
        Locale::English
    }
}

/// The first of the candidate settings that is present, or the empty text.
pub open spec fn first_present(candidates: Seq<Option<String>>) -> Seq<char>
    decreases candidates.len(),
{
    if candidates.len() == 0 {
        Seq::empty()
    } else {
        match candidates[0] {
            Some(v) => v@,
            None => first_present(candidates.drop_first()),
        }
    }
}

impl LanguageOption {
    /// The locale this option selects; `system` is the detected system locale.
    pub fn locale(self, system: Locale) -> (res: Locale)
        ensures
            res == option_locale(self, system),
    {
        match self {
            LanguageOption::SystemDefault => system,
            LanguageOption::English => Locale::English,
            LanguageOption::SimplifiedChinese => Locale::SimplifiedChinese,
        }
    }

    /// The text that the settings file holds for this option.
    pub fn as_str(self) -> (res: &'static str)
        ensures
            res@ == option_text(self),
    {
        match self {
            LanguageOption::SystemDefault => {
                proof {
                    reveal_strlit("system");
                }
                "system"
            },
            LanguageOption::English => {
                proof {
                    reveal_strlit("en-US");
                }
                "en-US"
            },
            LanguageOption::SimplifiedChinese => {
                proof {
                    reveal_strlit("zh-CN");
                }
                "zh-CN"
            },
        }
    }

    /// The option that a settings file's text stands for.
    pub fn from_str(value: &str) -> (res: Self)
        ensures
            res == option_from_text(value@),
    {
        let raw = chars_of(value);
        let t = trim_chars(raw.as_slice());
        let en = chars_of("en-US");
        let zh = chars_of("zh-CN");
        proof {
            reveal_strlit("en-US");
            reveal_strlit("zh-CN");
            assert(en@ =~= option_text(LanguageOption::English));
            assert(zh@ =~= option_text(LanguageOption::SimplifiedChinese));
        }
        if chars_equal(t.as_slice(), en.as_slice()) {
            LanguageOption::English
        } else if chars_equal(t.as_slice(), zh.as_slice()) {
            LanguageOption::SimplifiedChinese
        } else {
            LanguageOption::SystemDefault
        }
    }
}

/// The locale named by the first language setting that is present, taken in
/// the order `ALVR_LANGUAGE`, `LC_ALL`, `LANG`, then the browser's language;
/// with none present, English.
pub fn detect_system_locale(
    alvr_language: Option<String>,
    lc_all: Option<String>,
    lang: Option<String>,
    browser_language: Option<String>,
) -> (res: Locale)
    ensures
        res == locale_of_value(
            first_present(seq![alvr_language, lc_all, lang, browser_language]),
        ),
{
    let ghost candidates = seq![alvr_language, lc_all, lang, browser_language];
    proof {
        reveal_with_fuel(first_present, 5);
        assert(candidates.drop_first() == seq![lc_all, lang, browser_language]);
        assert(candidates.drop_first().drop_first() == seq![lang, browser_language]);
        assert(candidates.drop_first().drop_first().drop_first() == seq![browser_language]);
        assert(candidates.drop_first().drop_first().drop_first().drop_first().len() == 0);
    }
    let value: Vec<char> = match alvr_language {
        Some(v) => chars_of(v.as_str()),
        None => match lc_all {
            Some(v) => chars_of(v.as_str()),
            None => match lang {
                Some(v) => chars_of(v.as_str()),
                None => match browser_language {
                    Some(v) => chars_of(v.as_str()),
                    None => Vec::new(),
                },
            },
        },
    };
    assert(value@ == first_present(candidates));
    if value.len() >= 2 && (value[0] == 'z' || value[0] == 'Z') && (value[1] == 'h' || value[1]
        == 'H') {
        Locale::SimplifiedChinese
    } else {
        Locale::English
    }
}

/// The (key, text) pairs of a list of entries, taken by their views.
pub open spec fn entry_views(entries: Seq<(String, String)>) -> Seq<(Seq<char>, Seq<char>)> {
    entries.map_values(|e: (String, String)| (e.0@, e.1@))
}

/// The table that a list of entries makes when each entry is inserted in
/// turn: a later entry for the same key replaces an earlier one.
pub open spec fn table_of(entries: Seq<(Seq<char>, Seq<char>)>) -> Map<Seq<char>, Seq<char>>
    decreases entries.len(),
{
    if entries.len() == 0 {
        Map::empty()
    } else {
        table_of(entries.drop_last()).insert(entries.last().0, entries.last().1)
    }
}

/// No key occurs twice.
pub open spec fn keys_distinct(entries: Seq<(Seq<char>, Seq<char>)>) -> bool {
    forall|i: int, j: int|
        0 <= i < entries.len() && 0 <= j < entries.len() && i != j ==> entries[i].0
            != entries[j].0
}

/// What `serde_json::from_str` reads from a text as a string-to-string
/// object: its (key, text) entries in key order, or `None` where the text is
/// not a JSON object whose values are all strings.
pub uninterp spec fn json_string_entries(source: Seq<char>) -> Option<Seq<(Seq<char>, Seq<char>)>>;

/// Reads a JSON object of strings.
///
/// Trusted: calls `serde_json::from_str` into a `BTreeMap<String, String>` and
/// lists the map's entries. The contract names the result
/// (`json_string_entries` of the text) and states nothing of JSON syntax.
#[verifier::external_body]
fn parse_string_object(source: &str) -> (res: Option<Vec<(String, String)>>)
    ensures
        match res {
            Some(entries) => json_string_entries(source@) == Some(entry_views(entries@)),
            None => json_string_entries(source@) is None,
        },
{
    match serde_json::from_str::<std::collections::BTreeMap<String, String>>(source) {
        Ok(map) => Some(map.into_iter().collect()),
        Err(_) => None,
    }
}

/// A table with distinct keys holds exactly its entries.
proof fn lemma_table_of_distinct(entries: Seq<(Seq<char>, Seq<char>)>)
    requires
        keys_distinct(entries),
    ensures
        forall|k: Seq<char>|
            #![trigger table_of(entries).contains_key(k)]
            table_of(entries).contains_key(k) <==> exists|i: int|
                0 <= i < entries.len() && entries[i].0 == k,
        forall|i: int|
            #![trigger entries[i]]
            0 <= i < entries.len() ==> table_of(entries).contains_key(entries[i].0)
                && table_of(entries)[entries[i].0] == entries[i].1,
    decreases entries.len(),
{
    if entries.len() > 0 {
        let init = entries.drop_last();
        lemma_table_of_distinct(init);
        assert forall|k: Seq<char>|
            #![trigger table_of(entries).contains_key(k)]
            table_of(entries).contains_key(k) <==> exists|i: int|
                0 <= i < entries.len() && entries[i].0 == k by {
            if table_of(entries).contains_key(k) {
                if k == entries.last().0 {
                    assert(entries[entries.len() - 1].0 == k);
                } else {
                    assert(table_of(init).contains_key(k));
                    let i = choose|i: int| 0 <= i < init.len() && init[i].0 == k;
                    assert(entries[i].0 == k);
                }
            }
            if exists|i: int| 0 <= i < entries.len() && entries[i].0 == k {
                let i = choose|i: int| 0 <= i < entries.len() && entries[i].0 == k;
                if i < entries.len() - 1 {
                    assert(init[i].0 == k);
                }
            }
        }
        assert forall|i: int|
            #![trigger entries[i]]
            0 <= i < entries.len() implies table_of(entries).contains_key(entries[i].0)
            && table_of(entries)[entries[i].0] == entries[i].1 by {
            if i < entries.len() - 1 {
                assert(init[i] == entries[i]);
                assert(entries[i].0 != entries[entries.len() - 1].0);
            }
        }
    }
}

/// Replacing the text of an entry replaces it in the table.
proof fn lemma_table_of_update(
    entries: Seq<(Seq<char>, Seq<char>)>,
    i: int,
    key: Seq<char>,
    value: Seq<char>,
)
    requires
        keys_distinct(entries),
        0 <= i < entries.len(),
        entries[i].0 == key,
    ensures
        keys_distinct(entries.update(i, (key, value))),
        table_of(entries.update(i, (key, value))) == table_of(entries).insert(key, value),
    decreases entries.len(),
{
    let updated = entries.update(i, (key, value));
    assert(keys_distinct(updated)) by {
        assert forall|a: int, b: int|
            0 <= a < updated.len() && 0 <= b < updated.len() && a != b implies updated[a].0
            != updated[b].0 by {
            assert(updated[a].0 == entries[a].0);
            assert(updated[b].0 == entries[b].0);
        }
    }
    let n = entries.len();
    if i == n - 1 {
        assert(updated.drop_last() == entries.drop_last());
        assert(table_of(updated) =~= table_of(entries).insert(key, value));
    } else {
        let init = entries.drop_last();
        assert(updated.drop_last() == init.update(i, (key, value)));
        lemma_table_of_update(init, i, key, value);
        let last = entries.last();
        assert(last.0 != key);
        assert(updated.last() == last);
        assert(table_of(updated) =~= table_of(entries).insert(key, value));
    }
}

/// A translation table: source texts and the texts that replace them.
pub struct Language {
    translations: Vec<(String, String)>,
}

impl View for Language {
    type V = Map<Seq<char>, Seq<char>>;

    closed spec fn view(&self) -> Map<Seq<char>, Seq<char>> {
        table_of(entry_views(self.translations@))
    }
}

impl Language {
    #[verifier::type_invariant]
    closed spec fn wf(self) -> bool {
        keys_distinct(entry_views(self.translations@))
    }

    /// The position of `key` among the entries, if it is there.
    fn position(&self, key: &String) -> (res: Option<usize>)
        ensures
            match res {
                Some(i) => i < self.translations@.len() && self.translations@[i as int].0@
                    == key@,
                None => forall|i: int|
                    0 <= i < self.translations@.len() ==> self.translations@[i].0@ != key@,
            },
    {
        let n = self.translations.len();
        let mut i: usize = 0;
        while i < n
            invariant
                i <= n == self.translations@.len(),
                forall|k: int| 0 <= k < i ==> self.translations@[k].0@ != key@,
            decreases n - i,
        {
            if self.translations[i].0 == *key {
                return Some(i);
            }
            i = i + 1;
        }
        None
    }

    /// Adds an entry; one for the same key replaces it.
    fn insert(&mut self, key: String, value: String)
        ensures
            final(self)@ == old(self)@.insert(key@, value@),
    {
        proof {
            use_type_invariant(&*self);
        }
        let ghost before = entry_views(self.translations@);
        match self.position(&key) {
            Some(i) => {
                let ghost k = key@;
                let ghost v = value@;
                proof {
                    lemma_table_of_update(before, i as int, k, v);
                }
                let mut translations: Vec<(String, String)> = Vec::new();
                std::mem::swap(&mut translations, &mut self.translations);
                translations.set(i, (key, value));
                assert(entry_views(translations@) =~= before.update(i as int, (k, v)));
                self.translations = translations;
            },
            None => {
                let ghost k = key@;
                let ghost v = value@;
                let mut translations: Vec<(String, String)> = Vec::new();
                std::mem::swap(&mut translations, &mut self.translations);
                translations.push((key, value));
                let ghost after = entry_views(translations@);
                assert(after =~= before.push((k, v)));
                assert(after.drop_last() =~= before);
                assert(keys_distinct(after)) by {
                    assert forall|a: int, b: int|
                        0 <= a < after.len() && 0 <= b < after.len() && a != b implies after[a].0
                        != after[b].0 by {
                        if a < before.len() && b < before.len() {
                            assert(after[a] == before[a]);
                            assert(after[b] == before[b]);
                        } else if a < before.len() {
                            assert(after[a] == before[a]);
                        } else {
                            assert(after[b] == before[b]);
                        }
                    }
                }
                self.translations = translations;
            },
        }
    }

    /// The table made of the entries, each inserted in turn.
    pub fn from_entries(entries: Vec<(String, String)>) -> (res: Language)
        ensures
            res@ == table_of(entry_views(entries@)),
    {
        let mut res = Language { translations: Vec::new() };
        assert(res@ =~= Map::empty());
        let ghost all = entry_views(entries@);
        let n = entries.len();
        let mut i: usize = 0;
        while i < n
            invariant
                i <= n == entries@.len() == all.len(),
                all == entry_views(entries@),
                res@ == table_of(all.take(i as int)),
            decreases n - i,
        {
            let key = entries[i].0.clone();
            let value = entries[i].1.clone();
            assert(all.take(i + 1).drop_last() =~= all.take(i as int));
            res.insert(key, value);
            i = i + 1;
        }
        assert(all.take(n as int) =~= all);
        res
    }

    /// Reads a translation table from a JSON object of strings; `None` where
    /// the text is not one.
    pub fn from_json(source: &str) -> (res: Option<Language>)
        ensures
            match res {
                Some(language) => json_string_entries(source@) matches Some(entries)
                    && language@ == table_of(entries),
                None => json_string_entries(source@) is None,
            },
    {
        match parse_string_object(source) {
            Some(entries) => Some(Language::from_entries(entries)),
            None => None,
        }
    }

    /// The translation of `key`, or `key` itself where the table has none.
    pub fn translate(&self, key: &str) -> (res: String)
        ensures
            res@ == translated(self@, key@),
    {
        proof {
            use_type_invariant(self);
            lemma_table_of_distinct(entry_views(self.translations@));
        }
        let owned = key.to_owned();
        match self.position(&owned) {
            Some(i) => {
                let ghost views = entry_views(self.translations@);
                assert(views[i as int] == (self.translations@[i as int].0@, self.translations@[i as int].1@));
                self.translations[i].1.clone()
            },
            None => {
                let ghost views = entry_views(self.translations@);
                assert(!self@.contains_key(key@)) by {
                    if self@.contains_key(key@) {
                        let i = choose|i: int| 0 <= i < views.len() && views[i].0 == key@;
                        assert(views[i].0 == self.translations@[i].0@);
                    }
                }
                owned
            },
        }
    }
}

/// The translation files that ship with the dashboard, as JSON texts.
pub struct LanguageSources {
    pub english: String,
    pub simplified_chinese: String,
}

/// The translation file for a locale.
pub open spec fn source_for(sources: LanguageSources, locale: Locale) -> Seq<char> {
    match locale {
        Locale::English => sources.english@,
        Locale::SimplifiedChinese => sources.simplified_chinese@,
    }
}

impl Language {
    /// The translation table of a locale, read from its file; `None` where the
    /// file is not a JSON object of strings.
    pub fn from_locale(locale: Locale, sources: &LanguageSources) -> (res: Option<Language>)
        ensures
            match res {
                Some(language) => json_string_entries(source_for(*sources, locale)) matches Some(
                    entries,
                ) && language@ == table_of(entries),
                None => json_string_entries(source_for(*sources, locale)) is None,
            },
    {
        let source = match locale {
            Locale::English => sources.english.as_str(),
            Locale::SimplifiedChinese => sources.simplified_chinese.as_str(),
        };
        Language::from_json(source)
    }
}

/// The translation tables of all locales, read once.
pub struct Catalog {
    english: Language,
    simplified_chinese: Language,
}

impl Catalog {
    /// The table of a locale.
    pub closed spec fn table(&self, locale: Locale) -> Map<Seq<char>, Seq<char>> {
        match locale {
            Locale::English => self.english@,
            Locale::SimplifiedChinese => self.simplified_chinese@,
        }
    }

    /// Reads the tables of all locales; `None` where a file is not a JSON
    /// object of strings.
    pub fn new(sources: &LanguageSources) -> (res: Option<Catalog>)
        ensures
            match res {
                Some(catalog) => forall|locale: Locale|
                    json_string_entries(source_for(*sources, locale)) matches Some(entries)
                        && #[trigger] catalog.table(locale) == table_of(entries),
                None => json_string_entries(source_for(*sources, Locale::English)) is None
                    || json_string_entries(source_for(*sources, Locale::SimplifiedChinese)) is None,
            },
    {
        let english = match Language::from_locale(Locale::English, sources) {
            Some(language) => language,
            None => return None,
        };
        let simplified_chinese = match Language::from_locale(Locale::SimplifiedChinese, sources) {
            Some(language) => language,
            None => return None,
        };
        let catalog = Catalog { english, simplified_chinese };
        assert forall|locale: Locale|
            json_string_entries(source_for(*sources, locale)) matches Some(entries)
                && #[trigger] catalog.table(locale) == table_of(entries) by {
            match locale {
                Locale::English => {},
                Locale::SimplifiedChinese => {},
            }
        }
        Some(catalog)
    }

    /// The translation table of a locale.
    pub fn language(&self, locale: Locale) -> (res: &Language)
        ensures
            res@ == self.table(locale),
    {
        match locale {
            Locale::English => &self.english,
            Locale::SimplifiedChinese => &self.simplified_chinese,
        }
    }
}

/// `key` translated by `table`, or `key` itself where the table has no entry.
pub open spec fn translated(table: Map<Seq<char>, Seq<char>>, key: Seq<char>) -> Seq<char> {
    if table.contains_key(key) {
        table[key]
    } else {
        key
    }
}

/// The dashboard's language settings: the chosen option, the locale whose
/// table `tr` uses, and whether a settings file to persist the option to is
/// known. Each is unset until first needed, and then set once.
#[derive(Clone, Copy, Debug, PartialEq, Eq, Structural)]
pub struct LanguageState {
    pub option: Option<LanguageOption>,
    pub language: Option<Locale>,
    pub has_path: bool,
}

impl LanguageState {
    /// Nothing chosen, loaded or known yet.
    pub fn new() -> (res: LanguageState)
        ensures
            res == fresh_state(),
    {
        LanguageState { option: None, language: None, has_path: false }
    }
}

/// The state before anything is chosen, loaded or known.
pub open spec fn fresh_state() -> LanguageState {
    LanguageState { option: None, language: None, has_path: false }
}

/// The state after `init`: `stored` is the settings file's text, where it
/// could be read. An option or a locale that is already set stays.
pub open spec fn init_state(s: LanguageState, stored: Option<Seq<char>>, system: Locale) -> LanguageState {
    let option = match stored {
        Some(text) => option_from_text(text),
        None => LanguageOption::SystemDefault,
    };
    LanguageState {
        option: if s.option is Some { s.option } else { Some(option) },
        language: if s.language is Some { s.language } else { Some(option_locale(option, system)) },
        has_path: true,
    }
}

/// The state after `tr`: the locale is chosen from the system where unset.
pub open spec fn tr_state(s: LanguageState, system: Locale) -> LanguageState {
    LanguageState {
        language: if s.language is Some { s.language } else { Some(system) },
        ..s
    }
}

/// The state after `language_option`: the option defaults to the system one.
pub open spec fn option_state(s: LanguageState) -> LanguageState {
    LanguageState {
        option: if s.option is Some { s.option } else { Some(LanguageOption::SystemDefault) },
        ..s
    }
}

/// The state after `set_language_option`: the option is replaced, and so is
/// the locale, where one is loaded.
pub open spec fn set_option_state(s: LanguageState, option: LanguageOption, system: Locale) -> LanguageState {
    LanguageState {
        option: Some(option),
        language: if s.language is Some { Some(option_locale(option, system)) } else { None },
        has_path: s.has_path,
    }
}

/// Sets up the language settings from the settings file's text (`None` where
/// it could not be read); `system` is the detected system locale.
pub fn init(state: &mut LanguageState, stored: Option<&str>, system: Locale)
    ensures
        *final(state) == init_state(
            *old(state),
            match stored {
                Some(text) => Some(text@),
                None => None,
            },
            system,
        ),
{
    let option = match stored {
        Some(text) => LanguageOption::from_str(text),
        None => LanguageOption::SystemDefault,
    };
    if state.option.is_none() {
        state.option = Some(option);
    }
    state.has_path = true;
    if state.language.is_none() {
        state.language = Some(option.locale(system));
    }
}

/// Translates `key` with the table of the current locale, choosing the system
/// locale first where none is set yet.
pub fn tr(state: &mut LanguageState, catalog: &Catalog, key: &str, system: Locale) -> (res: String)
    ensures
        *final(state) == tr_state(*old(state), system),
        res@ == translated(catalog.table(final(state).language.unwrap()), key@),
{
    let locale = match state.language {
        Some(locale) => locale,
        None => {
            state.language = Some(system);
            system
        },
    };
    catalog.language(locale).translate(key)
}

/// The chosen language option; the system default where none is chosen yet.
pub fn language_option(state: &mut LanguageState) -> (res: LanguageOption)
    ensures
        *final(state) == option_state(*old(state)),
        res == final(state).option.unwrap(),
{
    match state.option {
        Some(option) => option,
        None => {
            state.option = Some(LanguageOption::SystemDefault);
            LanguageOption::SystemDefault
        },
    }
}

/// Chooses a language option. Returns the text to write to the settings
/// file, where one is known.
pub fn set_language_option(state: &mut LanguageState, option: LanguageOption, system: Locale) -> (res:
    Option<&'static str>)
    ensures
        *final(state) == set_option_state(*old(state), option, system),
        match res {
            Some(text) => old(state).has_path && text@ == option_text(option),
            None => !old(state).has_path,
        },
{
    state.option = Some(option);
    if state.language.is_some() {
        state.language = Some(option.locale(system));
    }
    if state.has_path {
        Some(option.as_str())
    } else {
        None
    }
}

/// The text written for an option, read back with any whitespace around it
/// (such as a trailing newline), stands for that option again.
pub proof fn law_option_text_round_trip(
    option: LanguageOption,
    before: Seq<char>,
    after: Seq<char>,
)
    requires
        forall|i: int| 0 <= i < before.len() ==> is_white_space(before[i]),
        forall|i: int| 0 <= i < after.len() ==> is_white_space(after[i]),
    ensures
        option_from_text(before + option_text(option) + after) == option,
        option_from_text(option_text(option)) == option,
{
    let t = option_text(option);
    lemma_trim_padded(before, t, after);
    lemma_trim_padded(Seq::empty(), t, Seq::empty());
    assert(Seq::<char>::empty() + t + Seq::<char>::empty() =~= t);
    let en = option_text(LanguageOption::English);
    let zh = option_text(LanguageOption::SimplifiedChinese);
    assert(en != zh) by {
        assert(en[0] != zh[0]);
    }
    match option {
        LanguageOption::SystemDefault => {
            assert(t != en) by {
                assert(t.len() != en.len());
            }
            assert(t != zh) by {
                assert(t.len() != zh.len());
            }
        },
        _ => {},
    }
}

/// After an option is chosen, the option read is that option.
pub proof fn law_chosen_option_is_read_back(s: LanguageState, option: LanguageOption, system: Locale)
    ensures
        option_state(set_option_state(s, option, system)).option == Some(option),
{
}

/// The text that choosing an option writes to the settings file brings that
/// option back when the dashboard starts again from it, together with the
/// locale it selects.
pub proof fn law_persisted_option_is_restored(
    option: LanguageOption,
    system: Locale,
)
    ensures
        init_state(fresh_state(), Some(option_text(option)), system).option == Some(option),
        init_state(fresh_state(), Some(option_text(option)), system).language == Some(
            option_locale(option, system),
        ),
{
    law_option_text_round_trip(option, Seq::empty(), Seq::empty());
}

/// `init` does not override an option that was already chosen.
pub proof fn law_init_keeps_chosen_option(
    s: LanguageState,
    option: LanguageOption,
    system: Locale,
    stored: Option<Seq<char>>,
    later_system: Locale,
)
    ensures
        init_state(set_option_state(s, option, system), stored, later_system).option == Some(
            option,
        ),
{
}

/// Once `tr` has chosen a locale, later calls keep it, whatever the system
/// locale is then.
pub proof fn law_locale_is_chosen_once(s: LanguageState, first: Locale, later: Locale)
    ensures
        tr_state(tr_state(s, first), later) == tr_state(s, first),
        tr_state(s, first).language is Some,
{
}

/// A key that the current table lacks is shown as it is.
pub proof fn law_missing_key_is_its_own_translation(
    table: Map<Seq<char>, Seq<char>>,
    key: Seq<char>,
)
    requires
        !table.contains_key(key),
    ensures
        translated(table, key) == key,
{
}

/// A key that the table has is shown as the table's text for it.
pub proof fn law_present_key_is_translated(
    table: Map<Seq<char>, Seq<char>>,
    key: Seq<char>,
)
    requires
        table.contains_key(key),
    ensures
        translated(table, key) == table[key],
{
}

/// `tr` loads the system locale only where none is loaded, and changes
/// nothing else; reading the option sets the system default only where none
/// is chosen, and changes nothing else.
pub proof fn law_first_use_defaults(s: LanguageState, system: Locale)
    ensures
        s.language is None ==> tr_state(s, system).language == Some(system),
        s.language is Some ==> tr_state(s, system) == s,
        tr_state(s, system).option == s.option,
        tr_state(s, system).has_path == s.has_path,
        s.option is None ==> option_state(s).option == Some(LanguageOption::SystemDefault),
        s.option is Some ==> option_state(s) == s,
        option_state(s).language == s.language,
        option_state(s).has_path == s.has_path,
        init_state(s, None, system).has_path,
        s.language is Some ==> init_state(s, None, system).language == s.language,
{
}

/// Choosing an option while a locale is loaded loads the locale it selects:
/// English or Chinese whatever the system locale, the system locale for the
/// system default. With no locale loaded, none is loaded.
pub proof fn law_choice_loads_chosen_locale(s: LanguageState, option: LanguageOption, system: Locale)
    ensures
        s.language is Some && option == LanguageOption::English ==> set_option_state(
            s,
            option,
            system,
        ).language == Some(Locale::English),
        s.language is Some && option == LanguageOption::SimplifiedChinese ==> set_option_state(
            s,
            option,
            system,
        ).language == Some(Locale::SimplifiedChinese),
        s.language is Some && option == LanguageOption::SystemDefault ==> set_option_state(
            s,
            option,
            system,
        ).language == Some(system),
        s.language is None ==> set_option_state(s, option, system).language is None,
        set_option_state(s, option, system).has_path == s.has_path,
{
}

/// `init` on a fresh state loads the locale of the stored option: English
/// for `en-US`, Chinese for `zh-CN`, the system locale for anything else or
/// a missing file.
pub proof fn law_init_loads_stored_locale(system: Locale)
    ensures
        init_state(fresh_state(), Some(seq!['e', 'n', '-', 'U', 'S']), system).language == Some(
            Locale::English,
        ),
        init_state(fresh_state(), Some(seq!['z', 'h', '-', 'C', 'N']), system).language == Some(
            Locale::SimplifiedChinese,
        ),
        init_state(fresh_state(), None, system).language == Some(system),
        init_state(fresh_state(), None, system).option == Some(LanguageOption::SystemDefault),
{
    law_option_text_round_trip(LanguageOption::English, Seq::empty(), Seq::empty());
    law_option_text_round_trip(LanguageOption::SimplifiedChinese, Seq::empty(), Seq::empty());
}

/// A language setting whose first two characters are `z`/`Z` then `h`/`H`
/// names Chinese; one that is shorter, or starts otherwise, names English.
/// The first setting present decides, even when it is empty.
pub proof fn law_locale_detection(
    value: Seq<char>,
    a: Option<String>,
    b: Option<String>,
    c: Option<String>,
    d: Option<String>,
)
    ensures
        value.len() >= 2 && (value[0] == 'z' || value[0] == 'Z') && (value[1] == 'h' || value[1]
            == 'H') ==> locale_of_value(value) == Locale::SimplifiedChinese,
        value.len() < 2 || (value[0] != 'z' && value[0] != 'Z') || (value[1] != 'h' && value[1]
            != 'H') ==> locale_of_value(value) == Locale::English,
        a is Some ==> first_present(seq![a, b, c, d]) == a.unwrap()@,
        a is None && b is Some ==> first_present(seq![a, b, c, d]) == b.unwrap()@,
        a is None && b is None && c is Some ==> first_present(seq![a, b, c, d]) == c.unwrap()@,
        a is None && b is None && c is None && d is Some ==> first_present(seq![a, b, c, d])
            == d.unwrap()@,
        a is None && b is None && c is None && d is None ==> first_present(seq![a, b, c, d]).len()
            == 0,
{
    reveal_with_fuel(first_present, 5);
    let s = seq![a, b, c, d];
    assert(s.drop_first() == seq![b, c, d]);
    assert(s.drop_first().drop_first() == seq![c, d]);
    assert(s.drop_first().drop_first().drop_first() == seq![d]);
    assert(s.drop_first().drop_first().drop_first().drop_first().len() == 0);
}

/// A table holds exactly the keys of its entries, and an entry's text is
/// replaced only by a later entry for the same key.
pub proof fn law_table_keys(entries: Seq<(Seq<char>, Seq<char>)>, key: Seq<char>, text: Seq<char>)
    ensures
        table_of(entries).contains_key(key) <==> exists|i: int|
            0 <= i < entries.len() && entries[i].0 == key,
        table_of(entries.push((key, text))).contains_key(key),
        table_of(entries.push((key, text)))[key] == text,
    decreases entries.len(),
{
    assert(entries.push((key, text)).drop_last() =~= entries);
    if entries.len() > 0 {
        let init = entries.drop_last();
        law_table_keys(init, key, text);
        if table_of(entries).contains_key(key) {
            if key == entries.last().0 {
                assert(entries[entries.len() - 1].0 == key);
            } else {
                let i = choose|i: int| 0 <= i < init.len() && init[i].0 == key;
                assert(entries[i].0 == key);
            }
        }
        if exists|i: int| 0 <= i < entries.len() && entries[i].0 == key {
            let i = choose|i: int| 0 <= i < entries.len() && entries[i].0 == key;
            if i < entries.len() - 1 {
                assert(init[i].0 == key);
            }
        }
    }
}

} // verus!
