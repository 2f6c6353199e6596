//! Localized texts of the launcher: languages by id, texts by key.
use vstd::prelude::*;
use vstd::string::StringExecFns;

verus! {

/// The texts of one language, by key; no key is listed twice.
pub struct Language {
    pub texts: Vec<(String, String)>,
}

/// The languages, by id; no id is listed twice.
pub struct Languages {
    pub languages: Vec<(String, Language)>,
}

impl Language {
    pub open spec fn wf(&self) -> bool {
        forall|a: int, b: int|
            0 <= a < b < self.texts@.len() ==> #[trigger] self.texts@[a].0@ != #[trigger] self.texts@[b].0@
    }
}

impl Languages {
    pub open spec fn wf(&self) -> bool {
        &&& forall|a: int, b: int|
            0 <= a < b < self.languages@.len() ==> #[trigger] self.languages@[a].0@
                != #[trigger] self.languages@[b].0@
        &&& forall|a: int| 0 <= a < self.languages@.len() ==> (#[trigger] self.languages@[a]).1.wf()
    }
}

/// `en-US`, the language used where the chosen one is missing.
pub open spec fn default_language_id() -> Seq<char> {
    seq!['e', 'n', '-', 'U', 'S']
}

/// The position of the first pair keyed `key` among the first `n`, or -1.
pub open spec fn first_position<V>(pairs: Seq<(String, V)>, key: Seq<char>, n: int) -> int
    decreases n,
{
    if n <= 0 {
        -1
    } else if first_position(pairs, key, n - 1) >= 0 {
        first_position(pairs, key, n - 1)
    } else if pairs[n - 1].0@ == key {
        n - 1
    } else {
        -1
    }
}

/// The text under `key`: the first one listed.
pub open spec fn text_of(language: Language, key: Seq<char>) -> Option<Seq<char>> {
    let p = first_position(language.texts@, key, language.texts@.len() as int);
    if p >= 0 {
        Some(language.texts@[p].1@)
    } else {
        None
    }
}

pub open spec fn has_language(languages: Languages, id: Seq<char>) -> bool {
    first_position(languages.languages@, id, languages.languages@.len() as int) >= 0
}

/// The language with id `id`.
pub open spec fn language_of(languages: Languages, id: Seq<char>) -> Language {
    languages.languages@[first_position(
        languages.languages@,
        id,
        languages.languages@.len() as int,
    )].1
}

/// The language shown for `id`: that language, or the default one when there
/// is none with that id.
pub open spec fn chosen_language(languages: Languages, id: Seq<char>) -> Language {
    if has_language(languages, id) {
        language_of(languages, id)
    } else {
        language_of(languages, default_language_id())
    }
}

proof fn lemma_position_bounds_languages(ls: Seq<(String, Language)>, id: Seq<char>, n: int)
    requires
        0 <= n <= ls.len(),
    ensures
        -1 <= first_position(ls, id, n) < n,
    decreases n,
{
    if n > 0 {
        lemma_position_bounds_languages(ls, id, n - 1);
    }
}

fn find_language(languages: &Languages, id: &String) -> (r: Option<usize>)
    ensures
        match r {
            Some(i) => i as int == first_position(
                languages.languages@,
                id@,
                languages.languages@.len() as int,
            ) && i < languages.languages@.len(),
            None => !has_language(*languages, id@),
        },
{
    let n = languages.languages.len();
    let mut i: usize = 0;
    while i < n
        invariant
            n == languages.languages@.len(),
            i <= n,
            first_position(languages.languages@, id@, i as int) == -1,
        decreases n - i,
    {
        if languages.languages[i].0 == *id {
            proof {
                lemma_position_stays(languages.languages@, id@, i as int + 1, n as int);
            }
            return Some(i);
        }
        i = i + 1;
    }
    None
}

proof fn lemma_position_stays<V>(pairs: Seq<(String, V)>, key: Seq<char>, m: int, n: int)
    requires
        0 <= m <= n <= pairs.len(),
        first_position(pairs, key, m) >= 0,
    ensures
        first_position(pairs, key, n) == first_position(pairs, key, m),
    decreases n - m,
{
    if n > m {
        lemma_position_stays(pairs, key, m, n - 1);
    }
}

/// The language shown for `language_id`: that one, or the default one.
pub fn language<'a>(languages: &'a Languages, language_id: &String) -> (r: &'a Language)
    requires
        languages.wf(),
        has_language(*languages, language_id@) || has_language(*languages, default_language_id()),
    ensures
        *r == chosen_language(*languages, language_id@),
        r.wf(),
{
    match find_language(languages, language_id) {
        Some(i) => &languages.languages[i].1,
        None => {
            let default_id = <String as StringExecFns>::from_str("en-US");
            proof {
                reveal_strlit("en-US");
                assert(default_id@ =~= default_language_id());
            }
            match find_language(languages, &default_id) {
                Some(i) => &languages.languages[i].1,
                None => {
                    proof {
                        lemma_position_bounds_languages(
                            languages.languages@,
                            default_language_id(),
                            languages.languages@.len() as int,
                        );
                    }
                    // The requirement leaves no way here.
                    &languages.languages[0].1
                },
            }
        },
    }
}

/// The text of `language` under `key`.
pub fn i18n_value_for_language_and_key(language: &Language, _language_id: &String, key: &String) -> (r: String)
    requires
        language.wf(),
        text_of(*language, key@) is Some,
    ensures
        Some(r@) == text_of(*language, key@),
{
    let n = language.texts.len();
    let mut i: usize = 0;
    while i < n
        invariant
            n == language.texts@.len(),
            i <= n,
            first_position(language.texts@, key@, i as int) == -1,
            text_of(*language, key@) is Some,
        decreases n - i,
    {
        if language.texts[i].0 == *key {
            proof {
                lemma_position_stays(language.texts@, key@, i as int + 1, n as int);
            }
            return language.texts[i].1.clone();
        }
        i = i + 1;
    }
    proof {
        assert(first_position(language.texts@, key@, n as int) == -1);
    }
    // The requirement leaves no way here.
    language.texts[0].1.clone()
}

/// The text under `key` in the language shown for `language_id`.
pub fn i18n_value_for_language_id_and_key(languages: &Languages, language_id: &String, key: &String) -> (r: String)
    requires
        languages.wf(),
        has_language(*languages, language_id@) || has_language(*languages, default_language_id()),
        text_of(chosen_language(*languages, language_id@), key@) is Some,
    ensures
        Some(r@) == text_of(chosen_language(*languages, language_id@), key@),
{
    i18n_value_for_language_and_key(language(languages, language_id), language_id, key)
}

} // verus!
