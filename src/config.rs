//! Reading the configuration from its JSON text. Every field is required;
//! members that the schema does not name are ignored.

use vstd::prelude::*;

use crate::json::{get_member, json_of, member, parse_json, Json};
use crate::prompt::{Config, PromptConfig, PromptEntry};

verus! {

/// The failure to read a configuration.
#[derive(Debug, PartialEq, Eq, Structural)]
pub enum ConfigError {
    /// The text is not one JSON value.
    InvalidJson,
    /// A required field is absent or of the wrong kind.
    Schema,
}

/// The string held by member `key` of `j`, where it is a string.
pub open spec fn str_member(j: Json, key: Seq<char>) -> Option<Seq<char>> {
    match member(j, key) {
        Some(Json::Str(s)) => Some(s@),
        _ => None,
    }
}

/// The elements held by member `key` of `j`, where it is an array.
pub open spec fn array_member(j: Json, key: Seq<char>) -> Option<Seq<Json>> {
    match member(j, key) {
        Some(Json::Array(a)) => Some(a@),
        _ => None,
    }
}

/// `v` holds the strings of the JSON array `js`, in order.
pub open spec fn strings_match(v: Seq<String>, js: Seq<Json>) -> bool {
    &&& v.len() == js.len()
    &&& forall|i: int| 0 <= i < js.len() ==> match #[trigger] js[i] {
        Json::Str(s) => s@ == v[i]@,
        _ => false,
    }
}

/// `e` is the entry that the JSON object `j` describes.
pub open spec fn entry_matches(e: PromptEntry, j: Json) -> bool {
    &&& str_member(j, "role"@) == Some(e.role@)
    &&& array_member(j, "content"@) matches Some(a) && strings_match(e.content@, a)
}

/// `p` is the preset that the JSON object `j` describes.
pub open spec fn preset_matches(p: PromptConfig, j: Json) -> bool {
    &&& str_member(j, "name"@) == Some(p.name@)
    &&& array_member(j, "prompt"@) matches Some(a) && a.len() == p.prompt@.len() && forall|
        i: int,
    |
        0 <= i < a.len() ==> entry_matches(#[trigger] p.prompt@[i], a[i])
}

/// `c` is the configuration that the JSON object `j` describes.
pub open spec fn config_matches(c: Config, j: Json) -> bool {
    &&& str_member(j, "api_url"@) == Some(c.api_url@)
    &&& str_member(j, "api_key"@) == Some(c.api_key@)
    &&& str_member(j, "model"@) == Some(c.model@)
    &&& array_member(j, "prompts"@) matches Some(a) && a.len() == c.prompts@.len() && forall|
        i: int,
    |
        0 <= i < a.len() ==> preset_matches(#[trigger] c.prompts@[i], a[i])
}

/// Every element of `js` is a string.
pub open spec fn all_strings(js: Seq<Json>) -> bool {
    forall|i: int| 0 <= i < js.len() ==> #[trigger] js[i] is Str
}

/// `j` is an object with a string `role` and an array of strings `content`.
pub open spec fn entry_well_formed(j: Json) -> bool {
    &&& str_member(j, "role"@) is Some
    &&& array_member(j, "content"@) matches Some(a) && all_strings(a)
}

/// `j` is an object with a string `name` and an array of entries `prompt`.
pub open spec fn preset_well_formed(j: Json) -> bool {
    &&& str_member(j, "name"@) is Some
    &&& array_member(j, "prompt"@) matches Some(a) && forall|i: int|
        0 <= i < a.len() ==> entry_well_formed(#[trigger] a[i])
}

/// `j` is an object with the string fields `api_url`, `api_key` and `model`
/// and an array of presets `prompts`.
pub open spec fn config_well_formed(j: Json) -> bool {
    &&& str_member(j, "api_url"@) is Some
    &&& str_member(j, "api_key"@) is Some
    &&& str_member(j, "model"@) is Some
    &&& array_member(j, "prompts"@) matches Some(a) && forall|i: int|
        0 <= i < a.len() ==> preset_well_formed(#[trigger] a[i])
}

/// Returns the string held by member `key` of `j`, where it is a string.
fn get_str(j: &Json, key: &str) -> (r: Option<String>)
    ensures
        match r {
            Some(s) => str_member(*j, key@) == Some(s@),
            None => str_member(*j, key@) is None,
        },
{
    match get_member(j, key) {
        Some(Json::Str(s)) => Some(s.as_str().to_owned()),
        _ => None,
    }
}

/// Returns the strings of a JSON array, where all its elements are strings.
fn get_strings(js: &Vec<Json>) -> (r: Option<Vec<String>>)
    ensures
        match r {
            Some(v) => all_strings(js@) && strings_match(v@, js@),
            None => !all_strings(js@),
        },
{
    let mut v: Vec<String> = Vec::new();
    let mut i: usize = 0;
    while i < js.len()
        invariant
            i <= js@.len(),
            all_strings(js@.subrange(0, i as int)),
            strings_match(v@, js@.subrange(0, i as int)),
        decreases js.len() - i,
    {
        match &js[i] {
            Json::Str(s) => {
                v.push(s.as_str().to_owned());
                proof {
                    assert(all_strings(js@.subrange(0, i + 1)));
                    assert(strings_match(v@, js@.subrange(0, i + 1)));
                }
            },
            _ => {
                proof {
                    assert(!(js@[i as int] is Str));
                }
                return None;
            },
        }
        i = i + 1;
    }
    proof {
        assert(js@.subrange(0, i as int) =~= js@);
    }
    Some(v)
}


/// Reads one entry of a preset.
fn read_entry(j: &Json) -> (r: Option<PromptEntry>)
    ensures
        match r {
            Some(e) => entry_well_formed(*j) && entry_matches(e, *j),
            None => !entry_well_formed(*j),
        },
{
    let role = get_str(j, "role")?;
    let content = match get_member(j, "content") {
        Some(Json::Array(a)) => get_strings(a)?,
        _ => return None,
    };
    Some(PromptEntry { role, content })
}

/// Reads one preset.
fn read_preset(j: &Json) -> (r: Option<PromptConfig>)
    ensures
        match r {
            Some(p) => preset_well_formed(*j) && preset_matches(p, *j),
            None => !preset_well_formed(*j),
        },
{
    let name = get_str(j, "name")?;
    let a = match get_member(j, "prompt") {
        Some(Json::Array(a)) => a,
        _ => return None,
    };
    let mut prompt: Vec<PromptEntry> = Vec::new();
    let mut i: usize = 0;
    while i < a.len()
        invariant
            i <= a@.len(),
            array_member(*j, "prompt"@) == Some(a@),
            prompt@.len() == i,
            forall|k: int| 0 <= k < i ==> entry_well_formed(#[trigger] a@[k]),
            forall|k: int| 0 <= k < i ==> entry_matches(#[trigger] prompt@[k], a@[k]),
        decreases a.len() - i,
    {
        let e = match read_entry(&a[i]) {
            Some(e) => e,
            None => {
                proof {
                    assert(!entry_well_formed(a@[i as int]));
                    if preset_well_formed(*j) {
                        let sa = array_member(*j, "prompt"@)->Some_0;
                        assert(sa == a@);
                        assert(entry_well_formed(sa[i as int]));
                    }
                }
                return None;
            },
        };
        prompt.push(e);
        i = i + 1;
    }
    Some(PromptConfig { name, prompt })
}

/// Reads a configuration from a parsed JSON document.
pub fn config_from_json(j: &Json) -> (r: Result<Config, ConfigError>)
    ensures
        r is Ok <==> config_well_formed(*j),
        r matches Ok(c) ==> config_matches(c, *j),
        r is Err ==> r == Err::<Config, ConfigError>(ConfigError::Schema),
{
    let api_url = match get_str(j, "api_url") {
        Some(s) => s,
        None => return Err(ConfigError::Schema),
    };
    let api_key = match get_str(j, "api_key") {
        Some(s) => s,
        None => return Err(ConfigError::Schema),
    };
    let model = match get_str(j, "model") {
        Some(s) => s,
        None => return Err(ConfigError::Schema),
    };
    let a = match get_member(j, "prompts") {
        Some(Json::Array(a)) => a,
        _ => return Err(ConfigError::Schema),
    };
    let mut prompts: Vec<PromptConfig> = Vec::new();
    let mut i: usize = 0;
    while i < a.len()
        invariant
            i <= a@.len(),
            array_member(*j, "prompts"@) == Some(a@),
            prompts@.len() == i,
            forall|k: int| 0 <= k < i ==> preset_well_formed(#[trigger] a@[k]),
            forall|k: int| 0 <= k < i ==> preset_matches(#[trigger] prompts@[k], a@[k]),
        decreases a.len() - i,
    {
        let p = match read_preset(&a[i]) {
            Some(p) => p,
            None => {
                proof {
                    assert(!preset_well_formed(a@[i as int]));
                    if config_well_formed(*j) {
                        let sa = array_member(*j, "prompts"@)->Some_0;
                        assert(sa == a@);
                        assert(preset_well_formed(sa[i as int]));
                    }
                }
                return Err(ConfigError::Schema);
            },
        };
        prompts.push(p);
        i = i + 1;
    }
    Ok(Config { api_url, api_key, model, prompts })
}

/// Reads a configuration from its JSON text.
pub fn parse_config(text: &str) -> (r: Result<Config, ConfigError>)
    ensures
        json_of(text@) is None ==> r == Err::<Config, ConfigError>(ConfigError::InvalidJson),
        json_of(text@) matches Some(j) ==> {
            &&& (r is Ok <==> config_well_formed(j))
            &&& r matches Ok(c) ==> config_matches(c, j)
            &&& r is Err ==> r == Err::<Config, ConfigError>(ConfigError::Schema)
        },
{
    match parse_json(text) {
        None => Err(ConfigError::InvalidJson),
        Some(j) => config_from_json(&j),
    }
}

/// A configuration without an `api_key` string is refused: no credential is
/// made up for it.
pub proof fn lemma_missing_api_key_refused(j: Json)
    requires
        str_member(j, "api_key"@) is None,
    ensures
        !config_well_formed(j),
{
}

} // verus!
