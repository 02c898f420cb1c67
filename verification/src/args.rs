//! The commands of the `hats` namespace and what each of them asks for.
use vstd::prelude::*;

verus! {

/// Manage configured hats.
#[derive(Debug)]
pub struct HatsArgs {
    pub command: Option<HatsCommands>,
}

#[derive(Debug)]
#[allow(inconsistent_fields)]
pub enum HatsCommands {
    /// Validate hat topology and report issues.
    Validate {
        /// Also sanity-check hat instructions against the topology.
        ///
        /// Scans each hat's `instructions` (plus `.ralph/agent/<hat-id>.md` when present) for
        /// event topics and warns when they disagree with the hat's `publishes` / `triggers`.
        instructions: bool,
    },
    /// Display hat topology graph.
    Graph {
        /// Output format (unicode, ascii, compact, mermaid).
        format: GraphFormat,
        /// Backend for generated diagrams.
        backend: Option<String>,
    },
    /// List all configured hats (default if no subcommand).
    List {
        /// Output format (table, json).
        format: ListFormat,
    },
    /// Show detailed configuration for a specific hat.
    Show(ShowArgs),
    /// List all presets discoverable on this system (both YAML and TOML formats).
    ListPresets {
        /// Output format (table, json).
        format: ListFormat,
    },
}

#[derive(Clone, Copy, Debug, PartialEq, Eq, Structural)]
pub enum GraphFormat {
    /// Unicode box-drawing characters - best appearance.
    Unicode,
    /// Pure ASCII characters - maximum compatibility.
    Ascii,
    /// Compact single-glyph nodes - minimal output.
    Compact,
    /// Raw Mermaid syntax - for external rendering tools.
    Mermaid,
}

impl Default for GraphFormat {
    fn default() -> (r: Self)
        ensures
            r == GraphFormat::Unicode,
    {
        GraphFormat::Unicode
    }
}

#[derive(Clone, Copy, Debug, PartialEq, Eq, Structural)]
pub enum ListFormat {
    Table,
    Json,
}

impl Default for ListFormat {
    fn default() -> (r: Self)
        ensures
            r == ListFormat::Table,
    {
        ListFormat::Table
    }
}

#[derive(Debug)]
pub struct ShowArgs {
    /// Name of the hat to show (ID or display name).
    pub name: String,
}

} // verus!
