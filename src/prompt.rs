//! Prompt presets: selecting a preset by name, building its messages and
//! substituting the diff into them.

use vstd::prelude::*;

use crate::text::{join_lines, join_with_newline, replace_all, replace_every, same_text};

verus! {

/// One message template of a preset: a role and the lines of its content.
#[derive(Debug)]
pub struct PromptEntry {
    pub role: String,
    pub content: Vec<String>,
}

/// A named, ordered list of message templates.
#[derive(Debug)]
pub struct PromptConfig {
    pub name: String,
    pub prompt: Vec<PromptEntry>,
}

/// The endpoint, credential, model and presets that a run uses.
#[derive(Debug)]
pub struct Config {
    pub api_url: String,
    pub api_key: String,
    pub model: String,
    pub prompts: Vec<PromptConfig>,
}

/// One chat message.
#[derive(Debug)]
pub struct Message {
    pub role: String,
    pub content: String,
}

impl View for Message {
    /// The role and the content.
    type V = (Seq<char>, Seq<char>);

    open spec fn view(&self) -> (Seq<char>, Seq<char>) {
        (self.role@, self.content@)
    }
}

/// The view of a list of messages.
pub open spec fn messages_view(ms: Seq<Message>) -> Seq<(Seq<char>, Seq<char>)> {
    ms.map_values(|m: Message| m@)
}

/// The failure to find exactly one preset of the requested name.
#[derive(Debug, PartialEq, Eq, Structural)]
pub enum PromptError {
    /// No preset has the name.
    UnknownPreset,
    /// More than one preset has the name.
    DuplicatePreset,
}

/// The token in a message's content that stands for the diff.
pub const PLACEHOLDER: &'static str = "%{diff}";

/// The characters of the placeholder token.
pub open spec fn placeholder() -> Seq<char> {
    seq!['%', '{', 'd', 'i', 'f', 'f', '}']
}

/// The message that an entry gives: its role, and its lines joined by newlines.
pub open spec fn entry_message(e: PromptEntry) -> (Seq<char>, Seq<char>) {
    (e.role@, join_lines(e.content.deep_view()))
}

/// The messages of a preset, in the order of its entries.
pub open spec fn preset_messages(p: PromptConfig) -> Seq<(Seq<char>, Seq<char>)> {
    p.prompt@.map_values(|e: PromptEntry| entry_message(e))
}

/// Preset `k` has the name `name`.
pub open spec fn named(prompts: Seq<PromptConfig>, name: Seq<char>, k: int) -> bool {
    0 <= k < prompts.len() && prompts[k].name@ == name
}

/// Preset `k` is the one and only preset named `name`.
pub open spec fn only_named(prompts: Seq<PromptConfig>, name: Seq<char>, k: int) -> bool {
    &&& named(prompts, name, k)
    &&& forall|j: int| named(prompts, name, j) ==> j == k
}

/// The messages of the preset named `name`, where exactly one preset has that name.
pub open spec fn selected_messages(prompts: Seq<PromptConfig>, name: Seq<char>) -> Option<
    Seq<(Seq<char>, Seq<char>)>,
> {
    if exists|k: int| only_named(prompts, name, k) {
        Some(preset_messages(prompts[choose|k: int| only_named(prompts, name, k)]))
    } else {
        None
    }
}

/// Every message with each placeholder in its content replaced by `diff`.
pub open spec fn substituted(ms: Seq<(Seq<char>, Seq<char>)>, diff: Seq<char>) -> Seq<
    (Seq<char>, Seq<char>),
> {
    ms.map_values(|m: (Seq<char>, Seq<char>)| (m.0, replace_all(m.1, placeholder(), diff)))
}

/// All names in `prompts` differ.
pub open spec fn distinct_names(prompts: Seq<PromptConfig>) -> bool {
    forall|i: int, j: int|
        0 <= i < prompts.len() && 0 <= j < prompts.len() && i != j ==> prompts[i].name@
            != prompts[j].name@
}

proof fn lemma_only_named_selects(prompts: Seq<PromptConfig>, name: Seq<char>, k: int)
    requires
        only_named(prompts, name, k),
    ensures
        selected_messages(prompts, name) == Some(preset_messages(prompts[k])),
{
    let c = choose|c: int| only_named(prompts, name, c);
    assert(only_named(prompts, name, c));
    assert(named(prompts, name, k));
}

/// Where preset names are distinct, selecting a preset by its name gives exactly
/// that preset's messages, in order, each with its lines joined by newlines.
pub proof fn lemma_select_by_distinct_name(prompts: Seq<PromptConfig>, k: int)
    requires
        distinct_names(prompts),
        0 <= k < prompts.len(),
    ensures
        selected_messages(prompts, prompts[k].name@) == Some(preset_messages(prompts[k])),
        forall|i: int|
            0 <= i < preset_messages(prompts[k]).len() ==> #[trigger] preset_messages(
                prompts[k],
            )[i] == (prompts[k].prompt@[i].role@, join_lines(
                prompts[k].prompt@[i].content.deep_view(),
            )),
{
    assert forall|j: int| named(prompts, prompts[k].name@, j) implies j == k by {
        if j != k {
            assert(prompts[j].name@ != prompts[k].name@);
        }
    }
    lemma_only_named_selects(prompts, prompts[k].name@, k);
}

/// Builds the message of one entry.
fn entry_to_message(e: &PromptEntry) -> (r: Message)
    ensures
        r@ == entry_message(*e),
{
    Message { role: e.role.as_str().to_owned(), content: join_with_newline(&e.content) }
}

/// Returns the messages of the preset in `config` named `name`: fails with
/// `UnknownPreset` where no preset has that name, and with `DuplicatePreset`
/// where more than one has it.
pub fn get_messages(config: &Config, name: &str) -> (r: Result<Vec<Message>, PromptError>)
    ensures
        r is Ok <==> exists|k: int| only_named(config.prompts@, name@, k),
        r is Ok ==> Some(messages_view(r->Ok_0@)) == selected_messages(config.prompts@, name@),
        r == Err::<Vec<Message>, PromptError>(PromptError::UnknownPreset) <==> !exists|k: int|
            named(config.prompts@, name@, k),
        r == Err::<Vec<Message>, PromptError>(PromptError::DuplicatePreset) <==> exists|
            i: int,
            k: int,
        | i != k && named(config.prompts@, name@, i) && named(config.prompts@, name@, k),
{
    let ghost ps = config.prompts@;
    let mut found: Option<usize> = None;
    let mut i: usize = 0;
    while i < config.prompts.len()
        invariant
            i <= ps.len(),
            ps == config.prompts@,
            found is None ==> forall|j: int| 0 <= j < i ==> !named(ps, name@, j),
            found matches Some(f) ==> f < i && named(ps, name@, f as int) && forall|j: int|
                0 <= j < i && j != f ==> !named(ps, name@, j),
        decreases config.prompts.len() - i,
    {
        if same_text(config.prompts[i].name.as_str(), name) {
            if let Some(f) = found {
                proof {
                    assert(named(ps, name@, f as int) && named(ps, name@, i as int));
                    assert(forall|k: int| !only_named(ps, name@, k)) by {
                        assert forall|k: int| !only_named(ps, name@, k) by {
                            if only_named(ps, name@, k) {
                                assert(f == k && i == k);
                            }
                        }
                    }
                }
                return Err(PromptError::DuplicatePreset);
            }
            found = Some(i);
        }
        i = i + 1;
    }
    let f = match found {
        None => {
            proof {
                assert(forall|k: int| !named(ps, name@, k)) by {
                    assert forall|k: int| !named(ps, name@, k) by {
                        if named(ps, name@, k) {
                            assert(0 <= k < i);
                        }
                    }
                }
            }
            return Err(PromptError::UnknownPreset);
        },
        Some(f) => f,
    };
    proof {
        assert(only_named(ps, name@, f as int)) by {
            assert forall|j: int| named(ps, name@, j) implies j == f by {
                assert(0 <= j < i);
            }
        }
        lemma_only_named_selects(ps, name@, f as int);
        assert forall|a: int, b: int| a != b && named(ps, name@, a) && named(ps, name@, b) implies false by {
            assert(0 <= a < i && 0 <= b < i);
        }
    }
    let found = &config.prompts[f];
    let mut result: Vec<Message> = Vec::new();
    let mut t: usize = 0;
    while t < found.prompt.len()
        invariant
            t <= found.prompt@.len(),
            messages_view(result@) == preset_messages(*found).subrange(0, t as int),
        decreases found.prompt.len() - t,
    {
        let m = entry_to_message(&found.prompt[t]);
        let ghost before = result@;
        result.push(m);
        proof {
            assert(result@ == before.push(m));
            assert(messages_view(before).len() == t);
            assert(messages_view(result@).len() == t + 1);
            assert(messages_view(result@)[t as int] == m@);
            assert(messages_view(result@) =~= preset_messages(*found).subrange(0, t + 1));
        }
        t = t + 1;
    }
    proof {
        assert(preset_messages(*found).subrange(0, t as int) =~= preset_messages(*found));
    }
    Ok(result)
}

/// Returns the messages with every placeholder in their content replaced by `diff`.
pub fn substitute_diff(messages: &Vec<Message>, diff: &str) -> (r: Vec<Message>)
    ensures
        messages_view(r@) == substituted(messages_view(messages@), diff@),
{
    let pat = PLACEHOLDER;
    proof {
        reveal_strlit("%{diff}");
        assert(pat@ =~= placeholder());
    }
    let mut r: Vec<Message> = Vec::new();
    let mut i: usize = 0;
    while i < messages.len()
        invariant
            i <= messages@.len(),
            pat@ == placeholder(),
            messages_view(r@) == substituted(messages_view(messages@), diff@).subrange(0, i as int),
        decreases messages.len() - i,
    {
        let m = &messages[i];
        let content = replace_every(m.content.as_str(), pat, diff);
        let nm = Message { role: m.role.as_str().to_owned(), content };
        let ghost before = r@;
        r.push(nm);
        proof {
            assert(r@ == before.push(nm));
            assert(messages_view(before).len() == i);
            assert(r@.len() == i + 1);
            assert(messages_view(r@).len() == i + 1);
            assert(messages_view(r@)[i as int] == nm@);
            assert(messages_view(r@) =~= substituted(messages_view(messages@), diff@).subrange(
                0,
                i + 1,
            ));
        }
        i = i + 1;
    }
    proof {
        assert(substituted(messages_view(messages@), diff@).subrange(0, i as int)
            =~= substituted(messages_view(messages@), diff@));
    }
    r
}

} // verus!
