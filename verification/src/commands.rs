//! Running a `hats` command.
use vstd::prelude::*;

use crate::args::{GraphFormat, HatsArgs, HatsCommands, ListFormat, ShowArgs};
use crate::backend::{choice_name, flag_is_bad, unknown_backend_text, wanted_backend,
    BackendChoice};
use crate::diagram::{graph_hats, graph_text, GraphStep};
use crate::format::decimal;
use crate::graph::prompt_text;
use crate::listing::{hat_called, hat_details, hats_table, list_hats, not_found_text, show_hat};
use crate::presets::{list_presets_table, preset_views, presets_table, DiscoveredPreset,
    PresetView};
use crate::registry::{HatRegistry, RalphConfig};
use crate::text::{borrowed, opt_text, texts};
use crate::validate::{validate_hats, validation_errors, validation_text, AgentDoc};

verus! {

/// The format in which the presets are asked for, if the command asks for presets.
///
/// Such a command needs no configuration: it is answered before one is loaded.
pub open spec fn presets_asked(command: Option<HatsCommands>) -> Option<ListFormat> {
    match command {
        Some(HatsCommands::ListPresets { format }) => Some(format),
        _ => None,
    }
}

/// The format in which the presets are asked for, if the command asks for presets.
pub fn presets_format(args: &HatsArgs) -> (r: Option<ListFormat>)
    ensures
        r == presets_asked(args.command),
{
    match &args.command {
        Some(HatsCommands::ListPresets { format }) => Some(*format),
        _ => None,
    }
}

/// A configuration that was loaded, with its hats and their instruction files.
#[derive(Debug)]
pub struct Loaded {
    pub config: RalphConfig,
    pub registry: HatRegistry,
    pub docs: Vec<AgentDoc>,
}

/// What was loaded, if loading succeeded.
pub open spec fn opt_loaded(loaded: Option<&Loaded>) -> Option<Loaded> {
    match loaded {
        Some(loaded) => Some(*loaded),
        None => None,
    }
}

/// What is left to do for a command.
#[derive(Debug, PartialEq)]
pub enum HatsOutcome {
    /// Nothing: the answer is written.
    Written,
    /// Write all hats as JSON.
    HatsAsJson,
    /// Write the presets as JSON.
    PresetsAsJson,
    /// Hand the prompt to the backend, and write the diagram in its reply.
    Ask { backend: BackendChoice, prompt: String },
}

/// The instruction files that a validation looks at.
pub open spec fn docs_for(instructions: bool, docs: Seq<AgentDoc>) -> Option<Seq<AgentDoc>> {
    if instructions {
        Some(docs)
    } else {
        None
    }
}

// ---------------------------------------------------------------------------
// Commands that need a configuration
// ---------------------------------------------------------------------------
/// What a command writes, given a configuration.
pub open spec fn loaded_text(
    loaded: Loaded,
    command: Option<HatsCommands>,
    use_colors: bool,
) -> Seq<char> {
    let hats = loaded.registry.hats();
    match command {
        None | Some(HatsCommands::List { format: ListFormat::Table }) => hats_table(hats),
        Some(HatsCommands::Show(show)) => match hat_called(hats, show.name@) {
            Some(hat) => hat_details(hat, use_colors),
            None => Seq::empty(),
        },
        Some(HatsCommands::Validate { instructions }) => validation_text(
            loaded.config,
            hats,
            docs_for(instructions, loaded.docs@),
            use_colors,
        ),
        Some(HatsCommands::Graph { format, .. }) => match graph_text(loaded.registry, format) {
            Some(text) => text,
            None => Seq::empty(),
        },
        _ => Seq::empty(),
    }
}

/// What goes wrong with a command, given a configuration.
pub open spec fn loaded_failure(
    loaded: Loaded,
    known: Seq<Seq<char>>,
    command: Option<HatsCommands>,
) -> Option<Seq<char>> {
    let hats = loaded.registry.hats();
    match command {
        Some(HatsCommands::Show(show)) => if hat_called(hats, show.name@) is None {
            Some(not_found_text(show.name@))
        } else {
            None
        },
        Some(HatsCommands::Validate { instructions }) => {
            let errors = validation_errors(
                loaded.config,
                hats,
                docs_for(instructions, loaded.docs@),
            );
            if errors > 0 {
                Some("Validation failed with "@ + decimal(errors) + " errors"@)
            } else {
                None
            }
        },
        Some(HatsCommands::Graph { format, backend }) => if graph_text(
            loaded.registry,
            format,
        ) is None && flag_is_bad(opt_text(backend), known) {
            Some(unknown_backend_text(backend->0@, known))
        } else {
            None
        },
        _ => None,
    }
}

/// `outcome` is what is left to do for a command that does not fail, given a configuration.
pub open spec fn is_loaded_outcome(
    loaded: Loaded,
    command: Option<HatsCommands>,
    outcome: HatsOutcome,
) -> bool {
    match command {
        Some(HatsCommands::List { format: ListFormat::Json }) => outcome
            == HatsOutcome::HatsAsJson,
        Some(HatsCommands::Graph { format, backend }) => if graph_text(
            loaded.registry,
            format,
        ) is None {
            outcome matches HatsOutcome::Ask { backend: choice, prompt } && choice_name(choice)
                == wanted_backend(opt_text(backend), loaded.config) && prompt@ == prompt_text(
                loaded.registry.hats(),
            )
        } else {
            outcome == HatsOutcome::Written
        },
        _ => outcome == HatsOutcome::Written,
    }
}

fn execute_loaded(
    writer: &mut String,
    loaded: &Loaded,
    known: &Vec<String>,
    args: &HatsArgs,
    use_colors: bool,
) -> (r: Result<HatsOutcome, String>)
    requires
        presets_asked(args.command) is None,
    ensures
        final(writer)@ == old(writer)@ + loaded_text(*loaded, args.command, use_colors),
        match loaded_failure(*loaded, texts(known@), args.command) {
            Some(failure) => r matches Err(message) && message@ == failure,
            None => r matches Ok(outcome) && is_loaded_outcome(*loaded, args.command, outcome),
        },
{
    assert(writer@ + Seq::<char>::empty() =~= writer@);
    let config = &loaded.config;
    let registry = &loaded.registry;
    match &args.command {
        None | Some(HatsCommands::List { format: ListFormat::Table }) => {
            list_hats(writer, registry, use_colors);
            Ok(HatsOutcome::Written)
        },
        Some(HatsCommands::List { format: ListFormat::Json }) => Ok(HatsOutcome::HatsAsJson),
        Some(HatsCommands::Show(show)) => {
            match show_hat(writer, registry, show.name.as_str(), use_colors) {
                Ok(_) => Ok(HatsOutcome::Written),
                Err(message) => Err(message),
            }
        },
        Some(HatsCommands::Validate { instructions }) => {
            let seen = if *instructions {
                Some(&loaded.docs)
            } else {
                None
            };
            match validate_hats(writer, config, registry, use_colors, seen) {
                Ok(_) => Ok(HatsOutcome::Written),
                Err(failed) => Err(failed.message()),
            }
        },
        Some(HatsCommands::Graph { format, backend }) => {
            match graph_hats(writer, config, registry, *format, borrowed(backend), known) {
                Ok(GraphStep::Written) => Ok(HatsOutcome::Written),
                Ok(GraphStep::Ask { backend, prompt }) => Ok(HatsOutcome::Ask { backend, prompt }),
                Err(message) => Err(message),
            }
        },
        Some(HatsCommands::ListPresets { .. }) => Ok(HatsOutcome::Written),
    }
}

// ---------------------------------------------------------------------------
// All commands
// ---------------------------------------------------------------------------
/// What a command writes.
pub open spec fn command_text(
    loaded: Option<Loaded>,
    presets: Seq<PresetView>,
    command: Option<HatsCommands>,
    use_colors: bool,
) -> Seq<char> {
    match (presets_asked(command), loaded) {
        (Some(ListFormat::Table), _) => presets_table(presets),
        (Some(ListFormat::Json), _) => Seq::empty(),
        (None, Some(loaded)) => loaded_text(loaded, command, use_colors),
        (None, None) => Seq::empty(),
    }
}

/// What goes wrong with a command, if anything does.
pub open spec fn command_failure(
    loaded: Option<Loaded>,
    known: Seq<Seq<char>>,
    command: Option<HatsCommands>,
) -> Option<Seq<char>> {
    match (presets_asked(command), loaded) {
        (Some(_), _) => None,
        (None, Some(loaded)) => loaded_failure(loaded, known, command),
        (None, None) => Some("Failed to load config for hats"@),
    }
}

/// `outcome` is what is left to do for a command that does not fail.
pub open spec fn is_command_outcome(
    loaded: Option<Loaded>,
    command: Option<HatsCommands>,
    outcome: HatsOutcome,
) -> bool {
    match (presets_asked(command), loaded) {
        (Some(ListFormat::Table), _) => outcome == HatsOutcome::Written,
        (Some(ListFormat::Json), _) => outcome == HatsOutcome::PresetsAsJson,
        (None, Some(loaded)) => is_loaded_outcome(loaded, command, outcome),
        (None, None) => false,
    }
}

/// Execute a hats command.
///
/// `loaded` is the configuration, without one if it could not be loaded; a command that asks for
/// presets is answered from `presets` and does not look at it. `known` are the names of the
/// backends.
pub fn execute(
    writer: &mut String,
    loaded: Option<&Loaded>,
    presets: &Vec<DiscoveredPreset>,
    known: &Vec<String>,
    args: &HatsArgs,
    use_colors: bool,
) -> (r: Result<HatsOutcome, String>)
    ensures
        final(writer)@ == old(writer)@ + command_text(
            opt_loaded(loaded),
            preset_views(presets@),
            args.command,
            use_colors,
        ),
        match command_failure(opt_loaded(loaded), texts(known@), args.command) {
            Some(failure) => r matches Err(message) && message@ == failure,
            None => r matches Ok(outcome) && is_command_outcome(
                opt_loaded(loaded),
                args.command,
                outcome,
            ),
        },
{
    assert(writer@ + Seq::<char>::empty() =~= writer@);
    match presets_format(args) {
        Some(ListFormat::Table) => {
            list_presets_table(writer, presets, use_colors);
            Ok(HatsOutcome::Written)
        },
        Some(ListFormat::Json) => Ok(HatsOutcome::PresetsAsJson),
        None => match loaded {
            Some(loaded) => execute_loaded(writer, loaded, known, args, use_colors),
            None => Err("Failed to load config for hats".to_owned()),
        },
    }
}

// ---------------------------------------------------------------------------
// Laws
// ---------------------------------------------------------------------------
/// Without a command the hats are listed as a table: text and result are the same.
pub proof fn law_listing_is_the_default(
    loaded: Option<Loaded>,
    presets: Seq<PresetView>,
    known: Seq<Seq<char>>,
    use_colors: bool,
)
    ensures
        ({
            let list = Some(HatsCommands::List { format: ListFormat::Table });
            &&& command_text(loaded, presets, None, use_colors) == command_text(
                loaded,
                presets,
                list,
                use_colors,
            )
            &&& command_failure(loaded, known, None) == command_failure(loaded, known, list)
            &&& forall|outcome: HatsOutcome| #[trigger]
                is_command_outcome(loaded, None, outcome) == is_command_outcome(
                    loaded,
                    list,
                    outcome,
                )
        }),
{
}

/// A command that asks for presets does not depend on the configuration, and never fails: it makes
/// no difference whether one could be loaded.
pub proof fn law_presets_need_no_config(
    one: Option<Loaded>,
    other: Option<Loaded>,
    presets: Seq<PresetView>,
    known: Seq<Seq<char>>,
    command: Option<HatsCommands>,
    use_colors: bool,
)
    requires
        presets_asked(command) is Some,
    ensures
        command_text(one, presets, command, use_colors) == command_text(
            other,
            presets,
            command,
            use_colors,
        ),
        command_failure(one, known, command) is None,
        forall|outcome: HatsOutcome| #[trigger]
            is_command_outcome(one, command, outcome) == is_command_outcome(
                other,
                command,
                outcome,
            ),
{
}

/// Any other command fails where the configuration could not be loaded, and writes nothing.
pub proof fn law_other_commands_need_a_config(
    presets: Seq<PresetView>,
    known: Seq<Seq<char>>,
    command: Option<HatsCommands>,
    use_colors: bool,
)
    requires
        presets_asked(command) is None,
    ensures
        command_failure(None, known, command) == Some("Failed to load config for hats"@),
        command_text(None, presets, command, use_colors) == Seq::<char>::empty(),
{
}

/// Showing a hat writes its details, or fails and writes nothing where no hat is called so.
pub proof fn law_showing_a_hat(
    loaded: Loaded,
    presets: Seq<PresetView>,
    known: Seq<Seq<char>>,
    show: ShowArgs,
    use_colors: bool,
)
    ensures
        ({
            let command = Some(HatsCommands::Show(show));
            let text = command_text(Some(loaded), presets, command, use_colors);
            let failure = command_failure(Some(loaded), known, command);
            match hat_called(loaded.registry.hats(), show.name@) {
                Some(hat) => failure is None && text == hat_details(hat, use_colors),
                None => failure == Some(not_found_text(show.name@)) && text.len() == 0,
            }
        }),
        forall|outcome: HatsOutcome| #[trigger]
            is_command_outcome(Some(loaded), Some(HatsCommands::Show(show)), outcome) <==> outcome
                == HatsOutcome::Written,
{
}

/// Listing writes the table of all hats, or leaves them to be written as JSON; it never fails.
pub proof fn law_listing_hats(
    loaded: Loaded,
    presets: Seq<PresetView>,
    known: Seq<Seq<char>>,
    format: ListFormat,
    use_colors: bool,
)
    ensures
        ({
            let command = Some(HatsCommands::List { format });
            &&& command_failure(Some(loaded), known, command) is None
            &&& format == ListFormat::Table ==> command_text(
                Some(loaded),
                presets,
                command,
                use_colors,
            ) == hats_table(loaded.registry.hats())
            &&& format == ListFormat::Json ==> command_text(
                Some(loaded),
                presets,
                command,
                use_colors,
            ).len() == 0
            &&& forall|outcome: HatsOutcome| #[trigger]
                is_command_outcome(Some(loaded), command, outcome) <==> outcome == match format {
                    ListFormat::Table => HatsOutcome::Written,
                    ListFormat::Json => HatsOutcome::HatsAsJson,
                }
        }),
{
}

/// Listing presets writes their table, or leaves them to be written as JSON.
pub proof fn law_listing_presets(
    loaded: Option<Loaded>,
    presets: Seq<PresetView>,
    format: ListFormat,
    use_colors: bool,
)
    ensures
        ({
            let command = Some(HatsCommands::ListPresets { format });
            &&& presets_asked(command) == Some(format)
            &&& format == ListFormat::Table ==> command_text(loaded, presets, command, use_colors)
                == presets_table(presets)
            &&& format == ListFormat::Json ==> command_text(
                loaded,
                presets,
                command,
                use_colors,
            ).len() == 0
            &&& forall|outcome: HatsOutcome| #[trigger]
                is_command_outcome(loaded, command, outcome) <==> outcome == match format {
                    ListFormat::Table => HatsOutcome::Written,
                    ListFormat::Json => HatsOutcome::PresetsAsJson,
                }
        }),
{
}

/// Validating writes the whole report, and fails exactly if the report counts errors. Instruction
/// files are looked at exactly if this is asked for.
pub proof fn law_validating_hats(
    loaded: Loaded,
    presets: Seq<PresetView>,
    known: Seq<Seq<char>>,
    instructions: bool,
    use_colors: bool,
)
    ensures
        ({
            let command = Some(HatsCommands::Validate { instructions });
            let seen = if instructions {
                Some(loaded.docs@)
            } else {
                None
            };
            let hats = loaded.registry.hats();
            let errors = validation_errors(loaded.config, hats, seen);
            &&& command_text(Some(loaded), presets, command, use_colors) == validation_text(
                loaded.config,
                hats,
                seen,
                use_colors,
            )
            &&& errors == 0 ==> command_failure(Some(loaded), known, command) is None
            &&& errors > 0 ==> command_failure(Some(loaded), known, command) == Some(
                "Validation failed with "@ + decimal(errors) + " errors"@,
            )
            &&& forall|outcome: HatsOutcome| #[trigger]
                is_command_outcome(Some(loaded), command, outcome) <==> outcome
                    == HatsOutcome::Written
        }),
{
}

/// A graph that needs no backend is written, whatever backend is named. For any other nothing is
/// written: it fails exactly if the flag names no backend, and otherwise the backend that is wanted
/// is asked with the prompt for these hats.
pub proof fn law_graphing_hats(
    loaded: Loaded,
    presets: Seq<PresetView>,
    known: Seq<Seq<char>>,
    format: GraphFormat,
    backend: Option<String>,
    use_colors: bool,
)
    ensures
        ({
            let command = Some(HatsCommands::Graph { format, backend });
            let text = command_text(Some(loaded), presets, command, use_colors);
            let failure = command_failure(Some(loaded), known, command);
            match graph_text(loaded.registry, format) {
                Some(graph) => {
                    &&& text == graph
                    &&& failure is None
                    &&& forall|outcome: HatsOutcome| #[trigger]
                        is_command_outcome(Some(loaded), command, outcome) <==> outcome
                            == HatsOutcome::Written
                },
                None => {
                    &&& text.len() == 0
                    &&& backend is None ==> failure is None
                    &&& (backend matches Some(name) ==> if known.contains(name@) {
                        failure is None
                    } else {
                        failure == Some(unknown_backend_text(name@, known))
                    })
                    &&& forall|choice: BackendChoice, prompt: String| #[trigger]
                        is_command_outcome(
                            Some(loaded),
                            command,
                            HatsOutcome::Ask { backend: choice, prompt },
                        ) <==> (choice_name(choice) == wanted_backend(
                            opt_text(backend),
                            loaded.config,
                        ) && prompt@ == prompt_text(loaded.registry.hats()))
                    &&& !is_command_outcome(Some(loaded), command, HatsOutcome::Written)
                },
            }
        }),
{
}

/// A configuration that was loaded is the one that is used.
pub proof fn law_loaded_configurations_are_used(loaded: &Loaded)
    ensures
        opt_loaded(Some(loaded)) == Some(*loaded),
        opt_loaded(None) is None,
{
}

} // verus!
