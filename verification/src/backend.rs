//! Which backend draws a diagram.
//!
//! Where a function takes `known`, it lists the names of the backends.
use vstd::prelude::*;

use crate::format::{concat3, join, joined};
use crate::registry::RalphConfig;
use crate::text::{holds_text, opt_str, str_eq, strs, texts};

verus! {

/// The names of the backends, beginning with that of the default one.
pub open spec fn known_names(default_backend: Seq<char>) -> Seq<Seq<char>> {
    seq![
        default_backend,
        "kiro"@,
        "gemini"@,
        "codex"@,
        "forge"@,
        "amp"@,
        "copilot"@,
        "opencode"@,
        "pi"@,
        "custom"@,
    ]
}

/// The names of the backends, beginning with that of the default one.
pub fn backend_names(default_backend: &str) -> (r: Vec<String>)
    ensures
        texts(r@) == known_names(default_backend@),
{
    let mut names: Vec<String> = Vec::new();
    names.push(default_backend.to_owned());
    names.push("kiro".to_owned());
    names.push("gemini".to_owned());
    names.push("codex".to_owned());
    names.push("forge".to_owned());
    names.push("amp".to_owned());
    names.push("copilot".to_owned());
    names.push("opencode".to_owned());
    names.push("pi".to_owned());
    names.push("custom".to_owned());
    assert(texts(names@) =~= known_names(default_backend@));
    names
}

/// True for the name of a backend.
pub fn is_known_backend(name: &str, known: &Vec<String>) -> (r: bool)
    ensures
        r == texts(known@).contains(name@),
{
    holds_text(known, name)
}

/// What is said about a name that is no backend.
pub open spec fn unknown_backend_text(name: Seq<char>, known: Seq<Seq<char>>) -> Seq<char> {
    "Unknown backend '"@ + name + ("'. Valid backends: "@ + joined(known, ", "@))
}

/// What is said about a name that is no backend.
pub fn unknown_backend_message(name: &str, known: &Vec<String>) -> (r: String)
    ensures
        r@ == unknown_backend_text(name@, texts(known@)),
{
    let mut names: Vec<&str> = Vec::new();
    for i in 0..known.len()
        invariant
            names@.len() == i,
            forall|k: int| 0 <= k < i ==> (#[trigger] names@[k])@ == known@[k]@,
    {
        names.push(known[i].as_str());
    }
    assert(strs(names@) =~= texts(known@));
    let mut valid = "'. Valid backends: ".to_owned();
    valid.append(join(&names, ", ").as_str());
    concat3("Unknown backend '", name, valid.as_str())
}

/// Validates a backend name.
pub fn validate_backend_name(name: &str, known: &Vec<String>) -> (r: Result<(), String>)
    ensures
        match r {
            Ok(_) => texts(known@).contains(name@),
            Err(message) => !texts(known@).contains(name@) && message@ == unknown_backend_text(
                name@,
                texts(known@),
            ),
        },
{
    if is_known_backend(name, known) {
        Ok(())
    } else {
        Err(unknown_backend_message(name, known))
    }
}

/// The backend to use.
#[derive(Debug, PartialEq)]
pub enum BackendChoice {
    /// The backend of this name.
    Named(String),
    /// The first backend that is available.
    AutoDetect,
}

/// The name of the chosen backend; none for auto-detection.
pub open spec fn choice_name(choice: BackendChoice) -> Option<Seq<char>> {
    match choice {
        BackendChoice::Named(name) => Some(name@),
        BackendChoice::AutoDetect => None,
    }
}

/// The backend that the flag or else the configuration names; none for auto-detection.
pub open spec fn wanted_backend(flag: Option<Seq<char>>, config: RalphConfig) -> Option<Seq<char>> {
    match flag {
        Some(flag) => Some(flag),
        None => if config.cli.backend@ == "auto"@ {
            None
        } else {
            Some(config.cli.backend@)
        },
    }
}

/// The flag names something that is no backend.
pub open spec fn flag_is_bad(flag: Option<Seq<char>>, known: Seq<Seq<char>>) -> bool {
    flag matches Some(flag) && !known.contains(flag)
}

/// Resolves which backend to use for diagram generation.
///
/// Precedence (highest to lowest): the CLI flag (`--backend`), which must name a backend; the
/// config file (`cli.backend`), unless it says `auto`; auto-detection.
pub fn resolve_backend(
    flag_override: Option<&str>,
    config: &RalphConfig,
    known: &Vec<String>,
) -> (r: Result<BackendChoice, String>)
    ensures
        match r {
            Ok(choice) => !flag_is_bad(opt_str(flag_override), texts(known@)) && choice_name(choice)
                == wanted_backend(opt_str(flag_override), *config),
            Err(message) => flag_is_bad(opt_str(flag_override), texts(known@)) && message@
                == unknown_backend_text(flag_override->0@, texts(known@)),
        },
{
    if let Some(backend) = flag_override {
        return match validate_backend_name(backend, known) {
            Ok(_) => Ok(BackendChoice::Named(backend.to_owned())),
            Err(message) => Err(message),
        };
    }
    if !str_eq(config.cli.backend.as_str(), "auto") {
        return Ok(BackendChoice::Named(config.cli.backend.as_str().to_owned()));
    }
    Ok(BackendChoice::AutoDetect)
}

/// The flag takes precedence over the configuration.
pub proof fn law_flag_beats_config(flag: Seq<char>, one: RalphConfig, other: RalphConfig)
    ensures
        wanted_backend(Some(flag), one) == Some(flag),
        wanted_backend(Some(flag), one) == wanted_backend(Some(flag), other),
{
}

/// Without the flag the configuration names the backend, whatever the name is; only `auto` asks for
/// auto-detection.
pub proof fn law_config_names_the_backend(config: RalphConfig)
    ensures
        wanted_backend(None, config) is None <==> config.cli.backend@ == "auto"@,
        config.cli.backend@ != "auto"@ ==> wanted_backend(None, config) == Some(
            config.cli.backend@,
        ),
{
}

/// The flag is refused exactly if it is given and is none of the names; the message gives the name
/// and then all names. The configuration is never refused.
pub proof fn law_only_unknown_flags_are_refused(flag: Seq<char>, known: Seq<Seq<char>>)
    ensures
        flag_is_bad(Some(flag), known) <==> (forall|i: int|
            0 <= i < known.len() ==> #[trigger] known[i] != flag),
        !flag_is_bad(None, known),
        unknown_backend_text(flag, known) == "Unknown backend '"@ + flag + (
        "'. Valid backends: "@ + joined(known, ", "@)),
{
    if known.contains(flag) {
        let i = choose|i: int| 0 <= i < known.len() && known[i] == flag;
        assert(known[i] == flag);
    }
}

/// A choice is known by the name it holds; auto-detection has none.
pub proof fn law_choices_are_known_by_name(name: String)
    ensures
        choice_name(BackendChoice::Named(name)) == Some(name@),
        choice_name(BackendChoice::AutoDetect) is None,
{
}

/// The default backend comes first, and nine others follow; each of them may be named.
pub proof fn law_every_backend_is_known(default_backend: Seq<char>)
    ensures
        known_names(default_backend).len() == 10,
        known_names(default_backend)[0] == default_backend,
        known_names(default_backend).skip(1) == seq![
            "kiro"@,
            "gemini"@,
            "codex"@,
            "forge"@,
            "amp"@,
            "copilot"@,
            "opencode"@,
            "pi"@,
            "custom"@,
        ],
        forall|i: int|
            0 <= i < 10 ==> !flag_is_bad(
                Some(#[trigger] known_names(default_backend)[i]),
                known_names(default_backend),
            ),
{
    let names = known_names(default_backend);
    assert(names.skip(1) =~= seq![
        "kiro"@,
        "gemini"@,
        "codex"@,
        "forge"@,
        "amp"@,
        "copilot"@,
        "opencode"@,
        "pi"@,
        "custom"@,
    ]);
    assert forall|i: int| 0 <= i < 10 implies !flag_is_bad(Some(#[trigger] names[i]), names) by {
        assert(names.contains(names[i]));
    }
}

} // verus!
