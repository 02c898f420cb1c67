//! Presets: what counts as one, how it is described, and which one a name stands for.
//!
//! A preset is a `.yml` / `.yaml` file, or a directory that holds `autoloops.toml` and
//! `topology.toml`. Several roots are searched, and the first root that has a preset of some name
//! wins.
use std::path::PathBuf;
use vstd::prelude::*;

use crate::format::{dashes, pad_right, padded, repeated, shortened, truncate_with_ellipsis};
use crate::order::{code_points, codes, key_less, lemma_ascending_is_unique, lemma_codes_injective,
    lemma_key_less_total, lemma_key_less_transitive, less};
use crate::split::{law_lines_hold_no_line_feed, lines, lines_of};
use crate::text::{ascii_lowered, begins_with, behind, borrowed, chars_of, drop_leading,
    eq_ignore_ascii_case, first_index, gather, is_blank, is_char, law_blank_texts_are_trimmed_away,
    law_prefix_and_rest, lemma_drop_leading, lemma_drop_trailing, lemma_first_index,
    lemma_gather_concat, lemma_gather_ends, lemma_gather_is_filter, lemma_gather_step,
    lemma_is_first_index, lemma_occurs_between, lemma_occurs_in_gather, lemma_occurs_whole,
    occurs_in, opt_str, opt_text, spaces, starts_with, str_eq, strip_prefix, strs, trim, trimmed};

verus! {

/// `std::path::PathBuf`, which is carried through unread.
#[verifier::external_type_specification]
#[verifier::external_body]
pub struct ExPathBuf(std::path::PathBuf);

/// Preset file format.
#[derive(Clone, Copy, Debug, PartialEq, Eq, Structural)]
pub enum PresetFormat {
    /// A single `.yml` / `.yaml` file.
    Yaml,
    /// A directory with `autoloops.toml` + `topology.toml`.
    Toml,
}

pub open spec fn format_label(format: PresetFormat) -> Seq<char> {
    match format {
        PresetFormat::Yaml => "yaml"@,
        PresetFormat::Toml => "toml"@,
    }
}

impl PresetFormat {
    pub fn label(self) -> (r: &'static str)
        ensures
            r@ == format_label(self),
    {
        match self {
            PresetFormat::Yaml => "yaml",
            PresetFormat::Toml => "toml",
        }
    }
}

/// A single discovered preset (any format).
#[derive(Debug)]
pub struct DiscoveredPreset {
    /// Preset name (file stem for YAML, directory basename for TOML).
    pub name: String,
    /// Absolute path to the preset file or directory.
    pub path: PathBuf,
    /// Which resolver path class matched (`project`, `xdg`, `home`, `autoloop`, `env`).
    pub source: &'static str,
    /// Format on disk.
    pub format: PresetFormat,
    /// One-line description if discoverable.
    pub description: Option<String>,
}

/// A discovered preset in terms of its contents.
pub struct PresetView {
    pub name: Seq<char>,
    pub path: PathBuf,
    pub source: Seq<char>,
    pub format: PresetFormat,
    pub description: Option<Seq<char>>,
}

impl View for DiscoveredPreset {
    type V = PresetView;

    open spec fn view(&self) -> PresetView {
        PresetView {
            name: self.name@,
            path: self.path,
            source: self.source@,
            format: self.format,
            description: opt_text(self.description),
        }
    }
}

/// The name of an entry: the last component of its path.
#[derive(Debug)]
pub enum EntryName {
    /// A name that is valid Unicode.
    Unicode(String),
    /// A name that is not: its extension, if it has one and that is valid Unicode.
    Other { extension: Option<String> },
}

/// What is known of an entry of a root: its path and what stands there.
#[derive(Debug)]
pub struct PresetEntry {
    /// Absolute path to the entry.
    pub path: PathBuf,
    /// The last component of the path.
    pub file_name: EntryName,
    /// The entry is a file.
    pub is_file: bool,
    /// The entry is a directory that holds the file `autoloops.toml`.
    pub has_autoloops: bool,
    /// The entry is a directory that holds the file `topology.toml`.
    pub has_topology: bool,
    /// The contents of the entry itself, if it is a readable file.
    pub contents: Option<String>,
    /// The contents of the `README.md` in it, if there is a readable one.
    pub readme: Option<String>,
    /// The contents of the `autoloops.toml` in it, if there is a readable one.
    pub autoloops: Option<String>,
}

/// A root with its entries; without them if it cannot be read.
#[derive(Debug)]
pub struct PresetRoot {
    pub source: &'static str,
    pub entries: Option<Vec<PresetEntry>>,
}

// ---------------------------------------------------------------------------
// File names
// ---------------------------------------------------------------------------
/// Where the last dot stands; -1 if there is none.
pub open spec fn last_dot(name: Seq<char>) -> int
    decreases name.len(),
{
    if name.len() == 0 {
        -1
    } else if name.last() == '.' {
        name.len() - 1
    } else {
        last_dot(name.drop_last())
    }
}

/// Where the dot in front of a file name's extension stands. A dot at the very start begins no
/// extension, and `..` has none.
pub open spec fn extension_dot(name: Seq<char>) -> Option<int> {
    if name == ".."@ || last_dot(name) <= 0 {
        None
    } else {
        Some(last_dot(name))
    }
}

/// The extension of a file name.
pub open spec fn extension(name: Seq<char>) -> Option<Seq<char>> {
    match extension_dot(name) {
        Some(n) => Some(name.skip(n + 1)),
        None => None,
    }
}

/// A file name without its extension.
pub open spec fn stem(name: Seq<char>) -> Seq<char> {
    match extension_dot(name) {
        Some(n) => name.take(n),
        None => name,
    }
}

/// The stem of a file name, and its extension.
pub fn split_extension(name: &str) -> (r: (&str, Option<&str>))
    ensures
        r.0@ == stem(name@),
        match r.1 {
            Some(ext) => extension(name@) == Some(ext@),
            None => extension(name@) is None,
        },
{
    let chars = chars_of(name);
    let n: usize = chars.len();
    let mut end: usize = n;
    assert(name@.take(n as int) =~= name@);
    while end > 0 && chars[end - 1] != '.'
        invariant
            chars@ == name@,
            end <= n,
            n == name@.len(),
            last_dot(name@) == last_dot(name@.take(end as int)),
        ensures
            end <= n,
            last_dot(name@) == end - 1,
        decreases end,
    {
        assert(name@.take(end as int).drop_last() =~= name@.take(end - 1));
        end = end - 1;
    }
    if end <= 1 || str_eq(name, "..") {
        return (name, None);
    }
    assert(name@.subrange(0, end - 1) =~= name@.take(end - 1));
    assert(name@.subrange(end as int, n as int) =~= name@.skip(end as int));
    (name.substring_char(0, end - 1), Some(name.substring_char(end, n)))
}

// ---------------------------------------------------------------------------
// Descriptions
// ---------------------------------------------------------------------------
/// The text of a comment line.
pub open spec fn comment(line: Seq<char>) -> Option<Seq<char>> {
    match behind(trimmed(line), "# "@) {
        Some(rest) => Some(trimmed(rest)),
        None => None,
    }
}

pub open spec fn is_prose() -> spec_fn(Seq<char>) -> bool {
    |line: Seq<char>| trimmed(line).len() > 0 && trimmed(line)[0] != '#'
}

/// What follows the number signs at the start of a line.
pub open spec fn behind_signs(line: Seq<char>) -> Seq<char> {
    drop_leading(trimmed(line), is_char('#'))
}

/// A heading: number signs, and a text behind a space.
pub open spec fn is_heading() -> spec_fn(Seq<char>) -> bool {
    |line: Seq<char>|
        trimmed(line).len() > 0 && trimmed(line)[0] == '#' && begins_with(
            behind_signs(line),
            " "@,
        )
}

/// The first prose line of a readme, or else the text of its first heading.
pub open spec fn readme_line(contents: Seq<char>) -> Option<Seq<char>> {
    let all = lines_of(contents);
    let prose = first_index(all, is_prose());
    let heading = first_index(all, is_heading());
    if prose < all.len() {
        Some(shortened(trimmed(all[prose]), 80))
    } else if heading < all.len() {
        Some(shortened(trimmed(behind_signs(all[heading])), 80))
    } else {
        None
    }
}

pub open spec fn has_comment() -> spec_fn(Seq<char>) -> bool {
    |line: Seq<char>| comment(line) is Some && comment(line)->0.len() > 0
}

/// The first comment of `autoloops.toml`.
pub open spec fn toml_comment(contents: Seq<char>) -> Option<Seq<char>> {
    let all = lines_of(contents);
    let n = first_index(all, has_comment());
    if n < all.len() {
        Some(shortened(comment(all[n])->0, 80))
    } else {
        None
    }
}

/// The description of a TOML preset.
pub open spec fn toml_description(
    readme: Option<Seq<char>>,
    autoloops: Option<Seq<char>>,
) -> Option<Seq<char>> {
    if readme is Some && readme_line(readme->0) is Some {
        readme_line(readme->0)
    } else if autoloops is Some {
        toml_comment(autoloops->0)
    } else {
        None
    }
}

/// Not a description yet: a comment that is empty, that names `ralph.yml`, or that begins with
/// `ABOUTME`.
pub open spec fn is_preamble_comment(text: Seq<char>) -> bool {
    ||| text.len() == 0
    ||| ascii_lowered(text) == ascii_lowered("ralph.yml"@)
    ||| begins_with(text, "ABOUTME"@)
}

/// A line in front of the description: a blank line, a shebang, or a comment of the preamble.
pub open spec fn is_preamble(line: Seq<char>) -> bool {
    ||| trimmed(line).len() == 0
    ||| begins_with(trimmed(line), "#!"@)
    ||| (comment(line) is Some && is_preamble_comment(comment(line)->0))
}

pub open spec fn no_preamble() -> spec_fn(Seq<char>) -> bool {
    |line: Seq<char>| !is_preamble(line)
}

/// The description of a YAML preset: what stands behind the preamble, if it is a comment.
pub open spec fn yaml_description(contents: Seq<char>) -> Option<Seq<char>> {
    let all = lines_of(contents);
    let n = first_index(all, no_preamble());
    if n < all.len() && comment(all[n]) is Some {
        Some(shortened(comment(all[n])->0, 80))
    } else {
        None
    }
}

/// The text of a comment line.
fn comment_of(line: &str) -> (r: Option<&str>)
    ensures
        match r {
            Some(text) => comment(line@) == Some(text@),
            None => comment(line@) is None,
        },
{
    match strip_prefix(trim(line), "# ") {
        Some(rest) => Some(trim(rest)),
        None => None,
    }
}

/// What follows the number signs at the start of a line.
fn skip_signs(line: &str) -> (r: &str)
    ensures
        r@ == behind_signs(line@),
{
    let text = trim(line);
    let chars = chars_of(text);
    let n: usize = chars.len();
    let mut i: usize = 0;
    let ghost t = trimmed(line@);
    assert(t.skip(0) =~= t);
    while i < n && chars[i] == '#'
        invariant
            chars@ == t,
            n == t.len(),
            i <= n,
            behind_signs(line@) == drop_leading(t.skip(i as int), is_char('#')),
        ensures
            i <= n,
            behind_signs(line@) == t.skip(i as int),
        decreases n - i,
    {
        assert(t.skip(i as int).skip(1) =~= t.skip(i + 1));
        i = i + 1;
    }
    assert(t.subrange(i as int, n as int) =~= t.skip(i as int));
    text.substring_char(i, n)
}

/// Return the first non-empty, non-heading line of a `README.md`, or the first heading's text if
/// no prose line exists.
pub fn first_readme_prose_line(contents: &str) -> (r: Option<String>)
    ensures
        opt_text(r) == readme_line(contents@),
{
    let parts = lines(contents);
    let ghost all = lines_of(contents@);
    proof {
        reveal_strlit("#");
    }
    for i in 0..parts.len()
        invariant
            strs(parts@) == all,
            all == lines_of(contents@),
            "#"@ == seq!['#'],
            forall|k: int| 0 <= k < i ==> !is_prose()(#[trigger] all[k]),
    {
        assert(parts@[i as int]@ == all[i as int]);
        let text = trim(parts[i]);
        let sign = starts_with(text, "#");
        proof {
            if text@.len() > 0 {
                assert(text@.take(1) =~= seq![text@[0]]);
                assert(seq![text@[0]][0] == text@[0]);
                assert(sign == (text@[0] == '#'));
            }
        }
        if !text.is_empty() && !sign {
            proof {
                lemma_is_first_index(all, is_prose(), i as int);
            }
            return Some(truncate_with_ellipsis(text, 80));
        }
    }
    proof {
        lemma_is_first_index(all, is_prose(), all.len() as int);
    }
    for i in 0..parts.len()
        invariant
            strs(parts@) == all,
            all == lines_of(contents@),
            "#"@ == seq!['#'],
            first_index(all, is_prose()) == all.len(),
            forall|k: int| 0 <= k < i ==> !is_heading()(#[trigger] all[k]),
    {
        assert(parts@[i as int]@ == all[i as int]);
        let text = trim(parts[i]);
        let sign = starts_with(text, "#");
        proof {
            if text@.len() > 0 {
                assert(text@.take(1) =~= seq![text@[0]]);
                assert(seq![text@[0]][0] == text@[0]);
                assert(sign == (text@[0] == '#'));
            }
        }
        let rest = skip_signs(parts[i]);
        if sign && starts_with(rest, " ") {
            proof {
                lemma_is_first_index(all, is_heading(), i as int);
            }
            return Some(truncate_with_ellipsis(trim(rest), 80));
        }
    }
    proof {
        lemma_is_first_index(all, is_heading(), all.len() as int);
    }
    None
}

/// The first comment of `autoloops.toml`.
fn first_toml_comment(contents: &str) -> (r: Option<String>)
    ensures
        opt_text(r) == toml_comment(contents@),
{
    let parts = lines(contents);
    let ghost all = lines_of(contents@);
    for i in 0..parts.len()
        invariant
            strs(parts@) == all,
            all == lines_of(contents@),
            forall|k: int| 0 <= k < i ==> !has_comment()(#[trigger] all[k]),
    {
        assert(parts@[i as int]@ == all[i as int]);
        if let Some(text) = comment_of(parts[i]) {
            if !text.is_empty() {
                proof {
                    lemma_is_first_index(all, has_comment(), i as int);
                }
                return Some(truncate_with_ellipsis(text, 80));
            }
        }
    }
    proof {
        lemma_is_first_index(all, has_comment(), all.len() as int);
    }
    None
}

/// A one-line description of a TOML preset directory: the first prose line of its `README.md`,
/// falling back to the first `#` comment in its `autoloops.toml`.
pub fn read_toml_preset_description(readme: Option<&str>, autoloops: Option<&str>) -> (r: Option<
    String,
>)
    ensures
        opt_text(r) == toml_description(opt_str(readme), opt_str(autoloops)),
{
    if let Some(contents) = readme {
        let found = first_readme_prose_line(contents);
        if found.is_some() {
            return found;
        }
    }
    match autoloops {
        Some(contents) => first_toml_comment(contents),
        None => None,
    }
}

/// A one-line description of a YAML preset: the first `#` comment line in the file (skipping
/// shebang / blank / ABOUTME preamble).
pub fn read_yaml_preset_description(contents: &str) -> (r: Option<String>)
    ensures
        opt_text(r) == yaml_description(contents@),
{
    let parts = lines(contents);
    let ghost all = lines_of(contents@);
    for i in 0..parts.len()
        invariant
            strs(parts@) == all,
            all == lines_of(contents@),
            forall|k: int| 0 <= k < i ==> !no_preamble()(#[trigger] all[k]),
    {
        assert(parts@[i as int]@ == all[i as int]);
        let text = trim(parts[i]);
        let found = comment_of(parts[i]);
        let skip = text.is_empty() || starts_with(text, "#!") || match found {
            Some(text) => text.is_empty() || eq_ignore_ascii_case(text, "ralph.yml") || starts_with(
                text,
                "ABOUTME",
            ),
            None => false,
        };
        if !skip {
            proof {
                lemma_is_first_index(all, no_preamble(), i as int);
            }
            return match found {
                Some(text) => Some(truncate_with_ellipsis(text, 80)),
                None => None,
            };
        }
    }
    proof {
        lemma_is_first_index(all, no_preamble(), all.len() as int);
    }
    None
}

// ---------------------------------------------------------------------------
// Discovery
// ---------------------------------------------------------------------------
/// A directory that holds `autoloops.toml` and `topology.toml`.
pub open spec fn is_toml_preset(entry: PresetEntry) -> bool {
    entry.has_autoloops && entry.has_topology
}

/// The extension of an entry's name, as far as it is valid Unicode.
pub open spec fn entry_extension(name: EntryName) -> Option<Seq<char>> {
    match name {
        EntryName::Unicode(name) => extension(name@),
        EntryName::Other { extension } => opt_text(extension),
    }
}

/// A file with the extension `yml` or `yaml`.
pub open spec fn is_yaml_preset(entry: PresetEntry) -> bool {
    entry.is_file && (entry_extension(entry.file_name) == Some("yml"@) || entry_extension(
        entry.file_name,
    ) == Some("yaml"@))
}

/// The preset at an entry, if it is one. An entry whose name is not Unicode is none.
pub open spec fn classified(entry: PresetEntry, source: Seq<char>) -> Option<PresetView> {
    match entry.file_name {
        EntryName::Other { .. } => None,
        EntryName::Unicode(name) => if is_toml_preset(entry) {
            Some(
                PresetView {
                    name: name@,
                    path: entry.path,
                    source,
                    format: PresetFormat::Toml,
                    description: toml_description(
                        opt_text(entry.readme),
                        opt_text(entry.autoloops),
                    ),
                },
            )
        } else if is_yaml_preset(entry) {
            Some(
                PresetView {
                    name: stem(name@),
                    path: entry.path,
                    source,
                    format: PresetFormat::Yaml,
                    description: match entry.contents {
                        Some(contents) => yaml_description(contents@),
                        None => None,
                    },
                },
            )
        } else {
            None
        },
    }
}

/// True if the entry is a directory that holds `autoloops.toml` and `topology.toml`.
pub fn is_toml_preset_dir(entry: &PresetEntry) -> (r: bool)
    ensures
        r == is_toml_preset(*entry),
{
    entry.has_autoloops && entry.has_topology
}

/// True if the entry is a `.yml` / `.yaml` file.
pub fn is_yaml_preset_file(entry: &PresetEntry) -> (r: bool)
    ensures
        r == is_yaml_preset(*entry),
{
    if !entry.is_file {
        return false;
    }
    let ext = match &entry.file_name {
        EntryName::Unicode(name) => split_extension(name.as_str()).1,
        EntryName::Other { extension } => borrowed(extension),
    };
    match ext {
        Some(ext) => str_eq(ext, "yml") || str_eq(ext, "yaml"),
        None => false,
    }
}

/// Classify a filesystem entry as a YAML preset, TOML preset dir, or neither.
pub fn classify_entry(entry: PresetEntry, source: &'static str) -> (r: Option<DiscoveredPreset>)
    ensures
        match r {
            Some(preset) => classified(entry, source@) == Some(preset@),
            None => classified(entry, source@) is None,
        },
{
    let is_toml = is_toml_preset_dir(&entry);
    let is_yaml = is_yaml_preset_file(&entry);
    let PresetEntry { path, file_name, contents, readme, autoloops, .. } = entry;
    let file_name = match file_name {
        EntryName::Unicode(name) => name,
        EntryName::Other { .. } => {
            return None;
        },
    };
    if is_toml {
        let description = read_toml_preset_description(borrowed(&readme), borrowed(&autoloops));
        return Some(
            DiscoveredPreset {
                name: file_name,
                path,
                source,
                format: PresetFormat::Toml,
                description,
            },
        );
    }
    if is_yaml {
        let description = match &contents {
            Some(contents) => read_yaml_preset_description(contents.as_str()),
            None => None,
        };
        return Some(
            DiscoveredPreset {
                name: split_extension(file_name.as_str()).0.to_owned(),
                path,
                source,
                format: PresetFormat::Yaml,
                description,
            },
        );
    }
    None
}

/// The contents of several presets.
pub open spec fn preset_views(v: Seq<DiscoveredPreset>) -> Seq<PresetView> {
    Seq::new(v.len(), |i: int| v[i]@)
}

pub open spec fn entry_presets(source: Seq<char>) -> spec_fn(PresetEntry) -> Seq<PresetView> {
    |entry: PresetEntry|
        match classified(entry, source) {
            Some(preset) => seq![preset],
            None => Seq::empty(),
        }
}

pub open spec fn root_presets() -> spec_fn(PresetRoot) -> Seq<PresetView> {
    |root: PresetRoot|
        match root.entries {
            Some(entries) => gather(entries@, entry_presets(root.source@)),
            None => Seq::empty(),
        }
}

/// All presets of all roots, in the order in which they are found.
pub open spec fn candidates(roots: Seq<PresetRoot>) -> Seq<PresetView> {
    gather(roots, root_presets())
}

/// The candidate at `k` is the first one of its name.
pub open spec fn is_first_of_name(candidates: Seq<PresetView>, k: int) -> bool {
    forall|j: int| 0 <= j < k ==> (#[trigger] candidates[j]).name != candidates[k].name
}

/// `preset` is the first candidate of its name.
pub open spec fn wins(candidates: Seq<PresetView>, preset: PresetView) -> bool {
    exists|k: int|
        0 <= k < candidates.len() && #[trigger] candidates[k] == preset && is_first_of_name(
            candidates,
            k,
        )
}

/// Some preset goes by `name`.
pub open spec fn lists_name(presets: Seq<PresetView>, name: Seq<char>) -> bool {
    exists|i: int| 0 <= i < presets.len() && (#[trigger] presets[i]).name == name
}

/// `presets` lists the first candidate of each name, by name.
pub open spec fn is_catalogue(presets: Seq<PresetView>, candidates: Seq<PresetView>) -> bool {
    &&& forall|i: int, j: int|
        0 <= i < j < presets.len() ==> key_less(
            codes((#[trigger] presets[i]).name),
            codes((#[trigger] presets[j]).name),
        )
    &&& forall|i: int| 0 <= i < presets.len() ==> wins(candidates, #[trigger] presets[i])
    &&& forall|k: int|
        0 <= k < candidates.len() ==> lists_name(presets, (#[trigger] candidates[k]).name)
}

/// What wins goes on winning when another candidate comes last.
proof fn lemma_wins_push(candidates: Seq<PresetView>, preset: PresetView, next: PresetView)
    requires
        wins(candidates, preset),
    ensures
        wins(candidates.push(next), preset),
{
    let k = choose|k: int|
        0 <= k < candidates.len() && #[trigger] candidates[k] == preset && is_first_of_name(
            candidates,
            k,
        );
    let more = candidates.push(next);
    assert(more[k] == preset);
    assert forall|j: int| 0 <= j < k implies (#[trigger] more[j]).name != more[k].name by {
        assert(candidates[j].name != candidates[k].name);
    }
}

/// Files the next candidate: it comes to its place by name, unless its name is taken.
fn file_preset(
    presets: &mut Vec<DiscoveredPreset>,
    preset: DiscoveredPreset,
    Ghost(candidates): Ghost<Seq<PresetView>>,
)
    requires
        is_catalogue(preset_views(old(presets)@), candidates),
    ensures
        is_catalogue(preset_views(final(presets)@), candidates.push(preset@)),
{
    let ghost before = preset_views(presets@);
    let ghost more = candidates.push(preset@);
    let ghost key = codes(preset@.name);
    let wanted = code_points(preset.name.as_str());
    let mut at: usize = 0;
    while at < presets.len() && less(&code_points(presets[at].name.as_str()), &wanted)
        invariant
            before == preset_views(presets@),
            at <= presets@.len(),
            wanted@ == key,
            forall|i: int| 0 <= i < at ==> key_less(codes((#[trigger] before[i]).name), key),
        ensures
            at <= presets@.len(),
            forall|i: int| 0 <= i < at ==> key_less(codes((#[trigger] before[i]).name), key),
            at < presets@.len() ==> !key_less(codes(before[at as int].name), key),
        decreases presets@.len() - at,
    {
        assert(presets@[at as int]@ == before[at as int]);
        at = at + 1;
    }
    proof {
        assert forall|i: int| 0 <= i < before.len() implies wins(more, #[trigger] before[i]) by {
            lemma_wins_push(candidates, before[i], preset@);
        }
        assert forall|k: int| 0 <= k < candidates.len() implies lists_name(
            before,
            (#[trigger] more[k]).name,
        ) by {
            assert(candidates[k] == more[k]);
        }
    }
    if at < presets.len() && str_eq(presets[at].name.as_str(), preset.name.as_str()) {
        proof {
            assert(presets@[at as int]@ == before[at as int]);
            assert(before[at as int].name == preset@.name);
            assert(lists_name(before, preset@.name));
        }
        return ;
    }
    proof {
        // The candidates behind this place have larger names, those before it smaller ones.
        assert forall|i: int| at <= i < before.len() implies key_less(
            key,
            codes((#[trigger] before[i]).name),
        ) by {
            assert(presets@[at as int]@ == before[at as int]);
            lemma_key_less_total(codes(before[at as int].name), key);
            if codes(before[at as int].name) == key {
                lemma_codes_injective(before[at as int].name, preset@.name);
            }
            if i > at {
                lemma_key_less_transitive(
                    key,
                    codes(before[at as int].name),
                    codes(before[i].name),
                );
            }
        }
        assert forall|j: int| 0 <= j < candidates.len() implies (#[trigger] more[j]).name
            != preset@.name by {
            assert(candidates[j] == more[j]);
            assert(lists_name(before, candidates[j].name));
            let i = choose|i: int|
                0 <= i < before.len() && (#[trigger] before[i]).name == candidates[j].name;
            lemma_key_less_total(key, key);
            if i < at {
                assert(key_less(codes(before[i].name), key));
            } else {
                assert(key_less(key, codes(before[i].name)));
            }
        }
        assert(more[candidates.len() as int] == preset@);
        assert(is_first_of_name(more, candidates.len() as int));
        assert(wins(more, preset@));
    }
    presets.insert(at, preset);
    proof {
        let after = preset_views(presets@);
        assert(after =~= before.insert(at as int, preset@));
        assert forall|i: int, j: int| 0 <= i < j < after.len() implies key_less(
            codes((#[trigger] after[i]).name),
            codes((#[trigger] after[j]).name),
        ) by {
            if i < at && j > at {
                assert(after[i] == before[i]);
                assert(after[j] == before[j - 1]);
            } else if j < at {
                assert(after[i] == before[i]);
                assert(after[j] == before[j]);
            } else if i > at {
                assert(after[i] == before[i - 1]);
                assert(after[j] == before[j - 1]);
            } else if j == at {
                assert(after[i] == before[i]);
            } else {
                assert(after[j] == before[j - 1]);
            }
        }
        assert forall|i: int| 0 <= i < after.len() implies wins(more, #[trigger] after[i]) by {
            if i < at {
                assert(after[i] == before[i]);
            } else if i > at {
                assert(after[i] == before[i - 1]);
            }
        }
        assert forall|k: int| 0 <= k < more.len() implies lists_name(
            after,
            (#[trigger] more[k]).name,
        ) by {
            if k == candidates.len() {
                assert(after[at as int].name == preset@.name);
            } else {
                let i = choose|i: int|
                    0 <= i < before.len() && (#[trigger] before[i]).name == more[k].name;
                if i < at {
                    assert(after[i] == before[i]);
                } else {
                    assert(after[i + 1] == before[i]);
                }
            }
        }
    }
}

/// Every preset of the given roots, by name. First-wins on name collisions; roots that cannot be
/// read are passed over.
pub fn discover_in_roots(roots: Vec<PresetRoot>) -> (r: Vec<DiscoveredPreset>)
    ensures
        is_catalogue(preset_views(r@), candidates(roots@)),
{
    let ghost all = roots@;
    let mut presets: Vec<DiscoveredPreset> = Vec::new();
    proof {
        lemma_gather_ends(all, root_presets());
    }
    for root in it: roots
        invariant
            it.seq() == all,
            is_catalogue(preset_views(presets@), candidates(all.take(it.index()))),
    {
        let ghost n = it.index();
        let ghost found = candidates(all.take(n));
        proof {
            lemma_gather_step(all, n, root_presets());
        }
        let source: &'static str = root.source;
        match root.entries {
            Some(entries) => {
                let ghost inner = entries@;
                proof {
                    lemma_gather_ends(inner, entry_presets(source@));
                    assert(found + Seq::<PresetView>::empty() =~= found);
                }
                for entry in jt: entries
                    invariant
                        jt.seq() == inner,
                        is_catalogue(
                            preset_views(presets@),
                            found + gather(inner.take(jt.index()), entry_presets(source@)),
                        ),
                {
                    let ghost m = jt.index();
                    let ghost so_far = gather(inner.take(m), entry_presets(source@));
                    proof {
                        lemma_gather_step(inner, m, entry_presets(source@));
                    }
                    match classify_entry(entry, source) {
                        Some(preset) => {
                            proof {
                                assert(found + (so_far + seq![preset@]) =~= (found + so_far).push(
                                    preset@,
                                ));
                            }
                            file_preset(&mut presets, preset, Ghost(found + so_far));
                        },
                        None => {
                            proof {
                                assert(so_far + Seq::<PresetView>::empty() =~= so_far);
                            }
                        },
                    }
                }
                proof {
                    lemma_gather_ends(inner, entry_presets(source@));
                }
            },
            None => {
                proof {
                    assert(found + Seq::<PresetView>::empty() =~= found);
                }
            },
        }
    }
    proof {
        lemma_gather_ends(all, root_presets());
    }
    presets
}

// ---------------------------------------------------------------------------
// Where presets are searched
// ---------------------------------------------------------------------------
/// A root by its path: a base and, where there is more, the way down from it.
#[derive(Debug, PartialEq, Eq)]
pub struct RootPath {
    pub source: &'static str,
    pub base: String,
    pub below: Option<&'static str>,
}

/// A root by its path, in terms of its contents.
pub struct RootPathView {
    pub source: Seq<char>,
    pub base: Seq<char>,
    pub below: Option<Seq<char>>,
}

impl View for RootPath {
    type V = RootPathView;

    open spec fn view(&self) -> RootPathView {
        RootPathView { source: self.source@, base: self.base@, below: opt_str(self.below) }
    }
}

/// The contents of several roots.
pub open spec fn root_views(v: Seq<RootPath>) -> Seq<RootPathView> {
    Seq::new(v.len(), |i: int| v[i]@)
}

pub open spec fn root_at(
    source: Seq<char>,
    base: Seq<char>,
    below: Option<Seq<char>>,
) -> RootPathView {
    RootPathView { source, base, below }
}

/// The root that an environment variable gives, if it is set.
pub open spec fn root_from(
    source: Seq<char>,
    base: Option<Seq<char>>,
    below: Option<Seq<char>>,
) -> Seq<RootPathView> {
    match base {
        Some(base) => seq![root_at(source, base, below)],
        None => Seq::empty(),
    }
}

/// The roots that are searched, given what the environment says.
pub open spec fn search_path(
    xdg_config_home: Option<Seq<char>>,
    home: Option<Seq<char>>,
    ralph_presets_dir: Option<Seq<char>>,
    autoloop_presets_dir: Option<Seq<char>>,
) -> Seq<RootPathView> {
    seq![root_at("project"@, "presets"@, None)] + root_from(
        "xdg"@,
        xdg_config_home,
        Some("ralph/presets"@),
    ) + root_from("home"@, home, Some(".config/ralph/presets"@)) + root_from(
        "autoloop"@,
        home,
        Some(".config/autoloop/presets"@),
    ) + root_from("env"@, ralph_presets_dir, None) + root_from("env"@, autoloop_presets_dir, None)
}

fn add_root(
    roots: &mut Vec<RootPath>,
    source: &'static str,
    base: Option<&str>,
    below: Option<&'static str>,
)
    ensures
        root_views(final(roots)@) == root_views(old(roots)@) + root_from(
            source@,
            opt_str(base),
            opt_str(below),
        ),
{
    let ghost before = root_views(roots@);
    if let Some(base) = base {
        roots.push(RootPath { source, base: base.to_owned(), below });
    }
    assert(root_views(roots@) =~= before + root_from(source@, opt_str(base), opt_str(below)));
}

/// The roots that are searched for presets, given the values of the environment variables
/// `XDG_CONFIG_HOME`, `HOME`, `RALPH_PRESETS_DIR` and `AUTOLOOP_PRESETS_DIR`. In order:
/// 1. `./presets/` (project-local)
/// 2. `$XDG_CONFIG_HOME/ralph/presets/` (user, canonical)
/// 3. `$HOME/.config/ralph/presets/` (user, fallback for #2)
/// 4. `$HOME/.config/autoloop/presets/` (shared with autoloop CLI; back-compat)
/// 5. `$RALPH_PRESETS_DIR/` (explicit override)
/// 6. `$AUTOLOOP_PRESETS_DIR/` (deprecated alias for #5)
pub fn preset_roots(
    xdg_config_home: Option<&str>,
    home: Option<&str>,
    ralph_presets_dir: Option<&str>,
    autoloop_presets_dir: Option<&str>,
) -> (r: Vec<RootPath>)
    ensures
        root_views(r@) == search_path(
            opt_str(xdg_config_home),
            opt_str(home),
            opt_str(ralph_presets_dir),
            opt_str(autoloop_presets_dir),
        ),
{
    let mut roots: Vec<RootPath> = Vec::new();
    assert(root_views(roots@) =~= Seq::empty());
    add_root(&mut roots, "project", Some("presets"), None);
    assert(root_views(roots@) =~= seq![root_at("project"@, "presets"@, None)]);
    add_root(&mut roots, "xdg", xdg_config_home, Some("ralph/presets"));
    add_root(&mut roots, "home", home, Some(".config/ralph/presets"));
    add_root(&mut roots, "autoloop", home, Some(".config/autoloop/presets"));
    add_root(&mut roots, "env", ralph_presets_dir, None);
    add_root(&mut roots, "env", autoloop_presets_dir, None);
    roots
}

// ---------------------------------------------------------------------------
// The table
// ---------------------------------------------------------------------------
pub open spec fn no_presets_text() -> Seq<char> {
    "No presets found. Searched:\n  - ./presets/\n  - $XDG_CONFIG_HOME/ralph/presets/\n  - $HOME/.config/ralph/presets/\n  - $HOME/.config/autoloop/presets/\n  - $RALPH_PRESETS_DIR/\n  - $AUTOLOOP_PRESETS_DIR/ (deprecated)\n\nDrop a YAML preset or TOML-dir preset in any of the above. Example:\n  mkdir -p ~/.config/ralph/presets\n  ln -s /path/to/autoloop/packages/presets/presets/autocode ~/.config/ralph/presets/\n\nOr set:  export RALPH_PRESETS_DIR=/path/to/your/presets\n"@
}

/// The columns in front of the description, each with the space behind it.
pub open spec fn columns(name: Seq<char>, format: Seq<char>, source: Seq<char>) -> Seq<char> {
    padded(name, 22) + " "@ + padded(format, 6) + " "@ + padded(source, 9) + " "@
}

/// The description of a preset, or a dash; cut to 40 characters.
pub open spec fn short_description(preset: PresetView) -> Seq<char> {
    match preset.description {
        Some(text) => shortened(text, 40),
        None => shortened("-"@, 40),
    }
}

/// The row of a preset.
pub open spec fn preset_row() -> spec_fn(PresetView) -> Seq<char> {
    |p: PresetView|
        columns(p.name, format_label(p.format), p.source) + (short_description(p) + "\n"@)
}

/// The table of some presets.
pub open spec fn presets_table(presets: Seq<PresetView>) -> Seq<char> {
    if presets.len() == 0 {
        no_presets_text()
    } else {
        columns("PRESET"@, "FORMAT"@, "SOURCE"@) + "DESCRIPTION\n"@ + (repeated('-', 80) + "\n"@)
            + gather(presets, preset_row())
            + "\nRun a preset with:  ralph run -H <PRESET> -P PROMPT.md\n"@
    }
}

fn print_columns(name: &str, format: &str, source: &str) -> (r: String)
    ensures
        r@ == columns(name@, format@, source@),
{
    let mut out = pad_right(name, 22);
    out.append(" ");
    out.append(pad_right(format, 6).as_str());
    out.append(" ");
    out.append(pad_right(source, 9).as_str());
    out.append(" ");
    out
}

/// Writes the table of the given presets.
pub fn list_presets_table(writer: &mut String, presets: &Vec<DiscoveredPreset>, _use_colors: bool)
    ensures
        final(writer)@ == old(writer)@ + presets_table(preset_views(presets@)),
{
    if presets.len() == 0 {
        writer.append(
            "No presets found. Searched:\n  - ./presets/\n  - $XDG_CONFIG_HOME/ralph/presets/\n  - $HOME/.config/ralph/presets/\n  - $HOME/.config/autoloop/presets/\n  - $RALPH_PRESETS_DIR/\n  - $AUTOLOOP_PRESETS_DIR/ (deprecated)\n\nDrop a YAML preset or TOML-dir preset in any of the above. Example:\n  mkdir -p ~/.config/ralph/presets\n  ln -s /path/to/autoloop/packages/presets/presets/autocode ~/.config/ralph/presets/\n\nOr set:  export RALPH_PRESETS_DIR=/path/to/your/presets\n",
        );
        return ;
    }
    let mut text = print_columns("PRESET", "FORMAT", "SOURCE");
    text.append("DESCRIPTION\n");
    let mut rule = dashes(80);
    rule.append("\n");
    text.append(rule.as_str());
    let ghost all = preset_views(presets@);
    let mut rows = String::new();
    proof {
        lemma_gather_ends(all, preset_row());
    }
    for i in 0..presets.len()
        invariant
            all == preset_views(presets@),
            rows@ == gather(all.take(i as int), preset_row()),
    {
        proof {
            lemma_gather_step(all, i as int, preset_row());
        }
        let desc = match &presets[i].description {
            Some(desc) => desc.as_str(),
            None => "-",
        };
        let mut end = truncate_with_ellipsis(desc, 40);
        end.append("\n");
        let mut row = print_columns(
            presets[i].name.as_str(),
            presets[i].format.label(),
            presets[i].source,
        );
        row.append(end.as_str());
        rows.append(row.as_str());
    }
    proof {
        lemma_gather_ends(all, preset_row());
    }
    text.append(rows.as_str());
    text.append("\nRun a preset with:  ralph run -H <PRESET> -P PROMPT.md\n");
    writer.append(text.as_str());
}

// ---------------------------------------------------------------------------
// Laws
// ---------------------------------------------------------------------------
/// Two winners of the same name are the same preset.
proof fn lemma_one_winner(candidates: Seq<PresetView>, a: PresetView, b: PresetView)
    requires
        wins(candidates, a),
        wins(candidates, b),
        a.name == b.name,
    ensures
        a == b,
{
    let i = choose|k: int|
        0 <= k < candidates.len() && #[trigger] candidates[k] == a && is_first_of_name(
            candidates,
            k,
        );
    let j = choose|k: int|
        0 <= k < candidates.len() && #[trigger] candidates[k] == b && is_first_of_name(
            candidates,
            k,
        );
    if i < j {
        assert(candidates[i].name != candidates[j].name);
    } else if j < i {
        assert(candidates[j].name != candidates[i].name);
    }
}

/// What one catalogue lists, the other lists too.
proof fn lemma_catalogue_holds(
    x: Seq<PresetView>,
    y: Seq<PresetView>,
    candidates: Seq<PresetView>,
    preset: PresetView,
)
    requires
        is_catalogue(x, candidates),
        is_catalogue(y, candidates),
        x.contains(preset),
    ensures
        y.contains(preset),
{
    let i = choose|i: int| 0 <= i < x.len() && x[i] == preset;
    assert(wins(candidates, x[i]));
    let k = choose|k: int|
        0 <= k < candidates.len() && #[trigger] candidates[k] == preset && is_first_of_name(
            candidates,
            k,
        );
    assert(lists_name(y, candidates[k].name));
    let j = choose|j: int| 0 <= j < y.len() && (#[trigger] y[j]).name == preset.name;
    lemma_one_winner(candidates, preset, y[j]);
}

pub open spec fn preset_key() -> spec_fn(PresetView) -> Seq<u32> {
    |p: PresetView| codes(p.name)
}

/// There is one catalogue only: the presets that are found, and their order, follow from the
/// candidates.
pub proof fn law_catalogue_is_unique(
    x: Seq<PresetView>,
    y: Seq<PresetView>,
    candidates: Seq<PresetView>,
)
    requires
        is_catalogue(x, candidates),
        is_catalogue(y, candidates),
    ensures
        x == y,
{
    assert forall|p: PresetView| x.contains(p) <==> y.contains(p) by {
        if x.contains(p) {
            lemma_catalogue_holds(x, y, candidates, p);
        }
        if y.contains(p) {
            lemma_catalogue_holds(y, x, candidates, p);
        }
    }
    lemma_ascending_is_unique(x, y, preset_key());
}

/// No name is listed twice.
pub proof fn law_catalogue_names_are_distinct(
    presets: Seq<PresetView>,
    candidates: Seq<PresetView>,
    i: int,
    j: int,
)
    requires
        is_catalogue(presets, candidates),
        0 <= i < j < presets.len(),
    ensures
        presets[i].name != presets[j].name,
{
    lemma_key_less_total(codes(presets[i].name), codes(presets[i].name));
}

/// First-wins across roots: where the roots in front have a preset of some name, the one that is
/// listed comes from them, whatever the roots behind them hold.
pub proof fn law_earlier_roots_win(
    front: Seq<PresetRoot>,
    back: Seq<PresetRoot>,
    presets: Seq<PresetView>,
    i: int,
)
    requires
        is_catalogue(presets, candidates(front + back)),
        0 <= i < presets.len(),
        lists_name(candidates(front), presets[i].name),
    ensures
        wins(candidates(front), presets[i]),
{
    lemma_gather_concat(front, back, root_presets());
    let all = candidates(front + back);
    let near = candidates(front);
    let k = choose|k: int|
        0 <= k < all.len() && #[trigger] all[k] == presets[i] && is_first_of_name(all, k);
    let m = choose|m: int| 0 <= m < near.len() && (#[trigger] near[m]).name == presets[i].name;
    assert(all[m] == near[m]);
    assert(k <= m);
    assert(near[k] == presets[i]);
    assert forall|j: int| 0 <= j < k implies (#[trigger] near[j]).name != near[k].name by {
        assert(all[j] == near[j]);
    }
}

/// Roots that cannot be read make no difference.
pub proof fn law_unreadable_roots_are_ignored(
    front: Seq<PresetRoot>,
    root: PresetRoot,
    back: Seq<PresetRoot>,
)
    requires
        root.entries is None,
    ensures
        candidates(front + seq![root] + back) == candidates(front + back),
{
    let f = root_presets();
    lemma_gather_concat(front + seq![root], back, f);
    lemma_gather_concat(front, seq![root], f);
    lemma_gather_concat(front, back, f);
    reveal_with_fuel(gather, 2);
    assert(gather(seq![root], f) =~= Seq::empty());
    assert(gather(front, f) + Seq::<PresetView>::empty() =~= gather(front, f));
}

/// A part of a line holds no line feed either.
proof fn lemma_part_of_line(line: Seq<char>, from: int, to: int)
    requires
        !line.contains('\n'),
        0 <= from <= to <= line.len(),
    ensures
        !line.subrange(from, to).contains('\n'),
{
    let part = line.subrange(from, to);
    if part.contains('\n') {
        let k = choose|k: int| 0 <= k < part.len() && part[k] == '\n';
        assert(line[from + k] == '\n');
    }
}

proof fn lemma_drop_leading_of_line(line: Seq<char>, p: spec_fn(char) -> bool)
    requires
        !line.contains('\n'),
    ensures
        !drop_leading(line, p).contains('\n'),
{
    lemma_drop_leading(line, p);
    let n = line.len() - drop_leading(line, p).len();
    lemma_part_of_line(line, n, line.len() as int);
    assert(line.subrange(n, line.len() as int) =~= line.skip(n));
}

proof fn lemma_trimmed_of_line(line: Seq<char>)
    requires
        !line.contains('\n'),
    ensures
        !trimmed(line).contains('\n'),
{
    let t = drop_leading(line, spaces());
    lemma_drop_leading_of_line(line, spaces());
    lemma_drop_trailing(t, spaces());
    let n = trimmed(line).len() as int;
    lemma_part_of_line(t, 0, n);
    assert(t.subrange(0, n) =~= t.take(n));
}

proof fn lemma_comment_of_line(line: Seq<char>)
    requires
        !line.contains('\n'),
    ensures
        comment(line) matches Some(text) ==> !text.contains('\n'),
{
    let t = trimmed(line);
    lemma_trimmed_of_line(line);
    if begins_with(t, "# "@) {
        let n = "# "@.len() as int;
        lemma_part_of_line(t, n, t.len() as int);
        assert(t.subrange(n, t.len() as int) =~= t.skip(n));
        lemma_trimmed_of_line(t.skip(n));
    }
}

proof fn lemma_shortened_line(line: Seq<char>)
    requires
        !line.contains('\n'),
    ensures
        !shortened(line, 80).contains('\n'),
        shortened(line, 80).len() <= 83,
{
    reveal_strlit("...");
    let short = shortened(line, 80);
    if short.contains('\n') {
        let k = choose|k: int| 0 <= k < short.len() && short[k] == '\n';
        if k < 80 {
            assert(line[k] == '\n');
        } else if line.len() > 80 {
            assert(short[k] == "..."@[k - 80]);
        }
    }
}

/// A description is one line, of at most 80 characters and an ellipsis.
pub proof fn law_descriptions_are_one_line(entry: PresetEntry, source: Seq<char>)
    ensures
        classified(entry, source) matches Some(preset) ==> preset.description matches Some(text)
            ==> !text.contains('\n') && text.len() <= 83,
{
    if let Some(preset) = classified(entry, source) {
        if is_toml_preset(entry) {
            if entry.readme is Some && readme_line(entry.readme->0@) is Some {
                let all = lines_of(entry.readme->0@);
                let prose = first_index(all, is_prose());
                let heading = first_index(all, is_heading());
                lemma_first_index(all, is_prose());
                lemma_first_index(all, is_heading());
                if prose < all.len() {
                    law_lines_hold_no_line_feed(entry.readme->0@, prose);
                    lemma_trimmed_of_line(all[prose]);
                    lemma_shortened_line(trimmed(all[prose]));
                } else {
                    law_lines_hold_no_line_feed(entry.readme->0@, heading);
                    lemma_trimmed_of_line(all[heading]);
                    lemma_drop_leading_of_line(trimmed(all[heading]), is_char('#'));
                    lemma_trimmed_of_line(behind_signs(all[heading]));
                    lemma_shortened_line(trimmed(behind_signs(all[heading])));
                }
            } else if entry.autoloops is Some {
                let all = lines_of(entry.autoloops->0@);
                let n = first_index(all, has_comment());
                lemma_first_index(all, has_comment());
                if n < all.len() {
                    law_lines_hold_no_line_feed(entry.autoloops->0@, n);
                    lemma_comment_of_line(all[n]);
                    lemma_shortened_line(comment(all[n])->0);
                }
            }
        } else if entry.contents is Some {
            let all = lines_of(entry.contents->0@);
            let n = first_index(all, no_preamble());
            lemma_first_index(all, no_preamble());
            if n < all.len() && comment(all[n]) is Some {
                law_lines_hold_no_line_feed(entry.contents->0@, n);
                lemma_comment_of_line(all[n]);
                lemma_shortened_line(comment(all[n])->0);
            }
        }
    }
}

// ---------------------------------------------------------------------------
// Laws on the search path
// ---------------------------------------------------------------------------
/// With one variable set, the project's root is followed by the roots of that variable; with none
/// set, it is the only one.
pub proof fn law_each_variable_gives_its_roots(value: Seq<char>)
    ensures
        ({
            let project = root_at("project"@, "presets"@, None);
            &&& search_path(None, None, None, None) == seq![project]
            &&& search_path(Some(value), None, None, None) == seq![
                project,
                root_at("xdg"@, value, Some("ralph/presets"@)),
            ]
            &&& search_path(None, Some(value), None, None) == seq![
                project,
                root_at("home"@, value, Some(".config/ralph/presets"@)),
                root_at("autoloop"@, value, Some(".config/autoloop/presets"@)),
            ]
            &&& search_path(None, None, Some(value), None) == seq![
                project,
                root_at("env"@, value, None),
            ]
            &&& search_path(None, None, None, Some(value)) == seq![
                project,
                root_at("env"@, value, None),
            ]
        }),
{
    let project = root_at("project"@, "presets"@, None);
    assert(search_path(None, None, None, None) =~= seq![project]);
    assert(search_path(Some(value), None, None, None) =~= seq![
        project,
        root_at("xdg"@, value, Some("ralph/presets"@)),
    ]);
    assert(search_path(None, Some(value), None, None) =~= seq![
        project,
        root_at("home"@, value, Some(".config/ralph/presets"@)),
        root_at("autoloop"@, value, Some(".config/autoloop/presets"@)),
    ]);
    assert(search_path(None, None, Some(value), None) =~= seq![
        project,
        root_at("env"@, value, None),
    ]);
    assert(search_path(None, None, None, Some(value)) =~= seq![
        project,
        root_at("env"@, value, None),
    ]);
}

/// The variables do not interfere: whatever is set, the roots are the project's, then those that
/// each variable gives by itself, in the order of the variables.
pub proof fn law_variables_do_not_interfere(
    xdg: Option<Seq<char>>,
    home: Option<Seq<char>>,
    ralph: Option<Seq<char>>,
    autoloop: Option<Seq<char>>,
)
    ensures
        search_path(xdg, home, ralph, autoloop) == search_path(None, None, None, None)
            + search_path(xdg, None, None, None).skip(1) + search_path(
            None,
            home,
            None,
            None,
        ).skip(1) + search_path(None, None, ralph, None).skip(1) + search_path(
            None,
            None,
            None,
            autoloop,
        ).skip(1),
{
    let whole = search_path(None, None, None, None) + search_path(xdg, None, None, None).skip(1)
        + search_path(None, home, None, None).skip(1) + search_path(None, None, ralph, None).skip(1)
        + search_path(None, None, None, autoloop).skip(1);
    assert(search_path(xdg, None, None, None).skip(1) =~= root_from(
        "xdg"@,
        xdg,
        Some("ralph/presets"@),
    ));
    assert(search_path(None, home, None, None).skip(1) =~= root_from(
        "home"@,
        home,
        Some(".config/ralph/presets"@),
    ) + root_from("autoloop"@, home, Some(".config/autoloop/presets"@)));
    assert(search_path(None, None, ralph, None).skip(1) =~= root_from("env"@, ralph, None));
    assert(search_path(None, None, None, autoloop).skip(1) =~= root_from("env"@, autoloop, None));
    assert(search_path(xdg, home, ralph, autoloop) =~= whole);
}

/// Whenever `HOME` is set, its two roots are searched, whatever the other variables are; and so it
/// is with the root of each other variable that is set.
pub proof fn law_set_variables_are_searched(
    xdg: Option<Seq<char>>,
    home: Option<Seq<char>>,
    ralph: Option<Seq<char>>,
    autoloop: Option<Seq<char>>,
)
    ensures
        ({
            let roots = search_path(xdg, home, ralph, autoloop);
            &&& roots.len() > 0
            &&& roots[0] == root_at("project"@, "presets"@, None)
            &&& home matches Some(base) ==> roots.contains(
                root_at("home"@, base, Some(".config/ralph/presets"@)),
            ) && roots.contains(root_at("autoloop"@, base, Some(".config/autoloop/presets"@)))
            &&& xdg matches Some(base) ==> roots.contains(
                root_at("xdg"@, base, Some("ralph/presets"@)),
            )
            &&& ralph matches Some(base) ==> roots.contains(root_at("env"@, base, None))
            &&& autoloop matches Some(base) ==> roots.contains(root_at("env"@, base, None))
        }),
{
    let roots = search_path(xdg, home, ralph, autoloop);
    let x: int = if xdg is Some { 1 } else { 0 };
    let h: int = if home is Some { 2 } else { 0 };
    let r: int = if ralph is Some { 1 } else { 0 };
    if let Some(base) = xdg {
        assert(roots[1] == root_at("xdg"@, base, Some("ralph/presets"@)));
    }
    if let Some(base) = home {
        assert(roots[1 + x] == root_at("home"@, base, Some(".config/ralph/presets"@)));
        assert(roots[2 + x] == root_at("autoloop"@, base, Some(".config/autoloop/presets"@)));
    }
    if let Some(base) = ralph {
        assert(roots[1 + x + h] == root_at("env"@, base, None));
    }
    if let Some(base) = autoloop {
        assert(roots[1 + x + h + r] == root_at("env"@, base, None));
    }
}

/// As many roots are searched as the variables that are set give: two for `HOME`, one for each
/// other, and the project's.
pub proof fn law_unset_variables_give_no_root(
    xdg: Option<Seq<char>>,
    home: Option<Seq<char>>,
    ralph: Option<Seq<char>>,
    autoloop: Option<Seq<char>>,
)
    ensures
        search_path(xdg, home, ralph, autoloop).len() == 1 + (if xdg is Some {
            1int
        } else {
            0
        }) + (if home is Some {
            2int
        } else {
            0
        }) + (if ralph is Some {
            1int
        } else {
            0
        }) + (if autoloop is Some {
            1int
        } else {
            0
        }),
{
}

// ---------------------------------------------------------------------------
// Laws on what is a preset
// ---------------------------------------------------------------------------
/// The extension of a file name is what follows its last dot, and the stem what precedes it.
pub proof fn law_extensions_follow_the_last_dot(front: Seq<char>, ext: Seq<char>)
    requires
        front.len() > 0,
        !ext.contains('.'),
        front + seq!['.'] + ext != ".."@,
    ensures
        extension(front + seq!['.'] + ext) == Some(ext),
        stem(front + seq!['.'] + ext) == front,
{
    let name = front + seq!['.'] + ext;
    lemma_last_dot(front, ext);
    assert(name.skip(front.len() as int + 1) =~= ext);
    assert(name.take(front.len() as int) =~= front);
}

proof fn lemma_last_dot(front: Seq<char>, ext: Seq<char>)
    requires
        !ext.contains('.'),
    ensures
        last_dot(front + seq!['.'] + ext) == front.len(),
    decreases ext.len(),
{
    let name = front + seq!['.'] + ext;
    if ext.len() == 0 {
        assert(name.last() == '.');
    } else {
        assert(name.last() == ext.last());
        assert(ext.contains(ext.last()));
        let rest = ext.drop_last();
        assert(name.drop_last() =~= front + seq!['.'] + rest);
        if rest.contains('.') {
            let k = choose|k: int| 0 <= k < rest.len() && rest[k] == '.';
            assert(ext[k] == '.');
        }
        lemma_last_dot(front, rest);
    }
}

proof fn lemma_no_dot(name: Seq<char>)
    requires
        !name.contains('.'),
    ensures
        last_dot(name) == -1,
    decreases name.len(),
{
    if name.len() > 0 {
        assert(name.contains(name.last()));
        let rest = name.drop_last();
        if rest.contains('.') {
            let k = choose|k: int| 0 <= k < rest.len() && rest[k] == '.';
            assert(name[k] == '.');
        }
        lemma_no_dot(rest);
    }
}

/// A file name without a dot, or with no dot but the one that it begins with, has no extension; it
/// is its own stem.
pub proof fn law_other_names_have_no_extension(rest: Seq<char>)
    requires
        !rest.contains('.'),
    ensures
        extension(rest) is None,
        stem(rest) == rest,
        extension(seq!['.'] + rest) is None,
        stem(seq!['.'] + rest) == seq!['.'] + rest,
        extension(".."@) is None,
        stem(".."@) == ".."@,
{
    lemma_no_dot(rest);
    lemma_last_dot(Seq::empty(), rest);
    assert(Seq::<char>::empty() + seq!['.'] + rest =~= seq!['.'] + rest);
}

/// An entry is a preset exactly if its name is Unicode and it is a directory with both files, or a
/// regular file with the extension `yml` or `yaml`.
pub proof fn law_what_is_a_preset(entry: PresetEntry, name: String, source: Seq<char>)
    ensures
        entry.file_name is Other ==> classified(entry, source) is None,
        entry.file_name == EntryName::Unicode(name) ==> (classified(entry, source) is Some <==> ((
        entry.has_autoloops && entry.has_topology) || (entry.is_file && (extension(name@) == Some(
            "yml"@,
        ) || extension(name@) == Some("yaml"@))))),
{
}

/// A directory with both files is a TOML preset under its own name, with the path and source that
/// it was found at, described by its readme or else by the comment in `autoloops.toml`.
pub proof fn law_toml_presets(entry: PresetEntry, name: String, source: Seq<char>)
    requires
        entry.file_name == EntryName::Unicode(name),
        entry.has_autoloops,
        entry.has_topology,
    ensures
        ({
            let preset = classified(entry, source)->0;
            &&& classified(entry, source) is Some
            &&& preset.name == name@
            &&& preset.path == entry.path
            &&& preset.source == source
            &&& preset.format == PresetFormat::Toml
            &&& (entry.readme matches Some(readme) ==> readme_line(readme@) is Some
                ==> preset.description == readme_line(readme@))
            &&& (entry.readme is None || readme_line(entry.readme->0@) is None) ==> (
            entry.autoloops matches Some(autoloops) ==> preset.description == toml_comment(
                autoloops@,
            ))
            &&& (entry.readme is None || readme_line(entry.readme->0@) is None)
                && entry.autoloops is None ==> preset.description is None
        }),
{
}

/// Any other regular file with the extension `yml` or `yaml` is a YAML preset under its stem,
/// described by its own contents.
pub proof fn law_yaml_presets(entry: PresetEntry, name: String, source: Seq<char>)
    requires
        entry.file_name == EntryName::Unicode(name),
        !(entry.has_autoloops && entry.has_topology),
        entry.is_file,
        extension(name@) == Some("yml"@) || extension(name@) == Some("yaml"@),
    ensures
        ({
            let preset = classified(entry, source)->0;
            &&& classified(entry, source) is Some
            &&& preset.name == stem(name@)
            &&& preset.path == entry.path
            &&& preset.source == source
            &&& preset.format == PresetFormat::Yaml
            &&& (entry.contents matches Some(contents) ==> preset.description == yaml_description(
                contents@,
            ))
            &&& entry.contents is None ==> preset.description is None
        }),
{
}

pub open spec fn is_preset(source: Seq<char>) -> spec_fn(PresetEntry) -> bool {
    |entry: PresetEntry| classified(entry, source) is Some
}

pub open spec fn preset_at(source: Seq<char>) -> spec_fn(PresetEntry) -> PresetView {
    |entry: PresetEntry| classified(entry, source)->0
}

/// The candidates of some roots are those of the first roots followed by those of the last one:
/// the presets among its entries, in order, all with the root's source.
pub proof fn law_candidates_come_root_by_root(
    roots: Seq<PresetRoot>,
    root: PresetRoot,
    entries: Seq<PresetEntry>,
)
    requires
        root.entries matches Some(v) ==> v@ == entries,
    ensures
        candidates(Seq::<PresetRoot>::empty()) == Seq::<PresetView>::empty(),
        root.entries is Some ==> candidates(roots.push(root)) == candidates(roots)
            + entries.filter(is_preset(root.source@)).map_values(preset_at(root.source@)),
        root.entries is None ==> candidates(roots.push(root)) == candidates(roots),
{
    let source = root.source@;
    let f = entry_presets(source);
    assert(roots.push(root).drop_last() =~= roots);
    assert forall|e: PresetEntry| #[trigger]
        f(e) == if is_preset(source)(e) {
            seq![preset_at(source)(e)]
        } else {
            Seq::<PresetView>::empty()
        } by {}
    lemma_gather_is_filter(entries, f, is_preset(source), preset_at(source));
    if root.entries is None {
        assert(candidates(roots) + Seq::<PresetView>::empty() =~= candidates(roots));
    }
}

// ---------------------------------------------------------------------------
// Laws on descriptions
// ---------------------------------------------------------------------------
/// A line that is blank or begins with a number sign, white space aside.
pub open spec fn blank_or_sign(line: Seq<char>) -> bool {
    is_blank(line) || (trimmed(line).len() > 0 && trimmed(line)[0] == '#')
}

proof fn lemma_no_prose(line: Seq<char>)
    ensures
        blank_or_sign(line) <==> !is_prose()(line),
{
    law_blank_texts_are_trimmed_away(line);
}

/// The first line of a readme that is neither blank nor begins with a number sign describes it.
pub proof fn law_readme_prose_describes(
    contents: Seq<char>,
    front: Seq<Seq<char>>,
    line: Seq<char>,
    back: Seq<Seq<char>>,
)
    requires
        lines_of(contents) == front + seq![line] + back,
        forall|i: int| 0 <= i < front.len() ==> blank_or_sign(#[trigger] front[i]),
        !blank_or_sign(line),
    ensures
        readme_line(contents) == Some(shortened(trimmed(line), 80)),
{
    let all = lines_of(contents);
    lemma_no_prose(line);
    assert forall|i: int| 0 <= i < front.len() implies !is_prose()(#[trigger] all[i]) by {
        assert(all[i] == front[i]);
        lemma_no_prose(front[i]);
    }
    assert(all[front.len() as int] == line);
    lemma_is_first_index(all, is_prose(), front.len() as int);
}

/// A line that is, white space aside, number signs, a space and a text.
pub open spec fn has_heading(line: Seq<char>, signs: int) -> bool {
    &&& 0 < signs < trimmed(line).len()
    &&& forall|i: int| 0 <= i < signs ==> #[trigger] trimmed(line)[i] == '#'
    &&& trimmed(line)[signs] == ' '
}

proof fn lemma_signs(t: Seq<char>, signs: int)
    requires
        0 <= signs < t.len(),
        forall|i: int| 0 <= i < signs ==> #[trigger] t[i] == '#',
        t[signs] != '#',
    ensures
        drop_leading(t, is_char('#')) == t.skip(signs),
    decreases signs,
{
    if signs == 0 {
        assert(t.skip(0) =~= t);
    } else {
        let rest = t.skip(1);
        assert forall|i: int| 0 <= i < signs - 1 implies #[trigger] rest[i] == '#' by {
            assert(rest[i] == t[i + 1]);
        }
        lemma_signs(rest, signs - 1);
        assert(rest.skip(signs - 1) =~= t.skip(signs));
    }
}

proof fn lemma_heading(line: Seq<char>) -> (signs: int)
    ensures
        is_heading()(line) ==> has_heading(line, signs),
{
    let t = trimmed(line);
    reveal_strlit(" ");
    lemma_drop_leading(t, is_char('#'));
    let rest = drop_leading(t, is_char('#'));
    let signs = t.len() - rest.len();
    if is_heading()(line) {
        assert(rest.take(1)[0] == ' ');
        assert(rest[0] == t[signs]);
        lemma_leading_signs(t);
    }
    signs
}

proof fn lemma_leading_signs(t: Seq<char>)
    ensures
        forall|i: int|
            0 <= i < t.len() - drop_leading(t, is_char('#')).len() ==> #[trigger] t[i] == '#',
    decreases t.len(),
{
    if t.len() > 0 && t[0] == '#' {
        let rest = t.skip(1);
        lemma_leading_signs(rest);
        assert forall|i: int|
            0 <= i < t.len() - drop_leading(t, is_char('#')).len() implies #[trigger] t[i] == '#' by {
            if i > 0 {
                assert(t[i] == rest[i - 1]);
            }
        }
    }
}

/// A readme without prose is described by its first heading, of whatever level; without a heading
/// it describes nothing.
pub proof fn law_readme_headings_describe(
    contents: Seq<char>,
    front: Seq<Seq<char>>,
    line: Seq<char>,
    back: Seq<Seq<char>>,
    signs: int,
)
    requires
        forall|i: int|
            0 <= i < lines_of(contents).len() ==> blank_or_sign(#[trigger] lines_of(contents)[i]),
    ensures
        lines_of(contents) == front + seq![line] + back && (forall|i: int, k: int|
            0 <= i < front.len() ==> !#[trigger] has_heading(front[i], k)) && has_heading(
            line,
            signs,
        ) ==> readme_line(contents) == Some(shortened(trimmed(trimmed(line).skip(signs)), 80)),
        (forall|i: int, k: int|
            0 <= i < lines_of(contents).len() ==> !#[trigger] has_heading(
                lines_of(contents)[i],
                k,
            )) ==> readme_line(contents) is None,
{
    let all = lines_of(contents);
    assert forall|i: int| 0 <= i < all.len() implies !is_prose()(#[trigger] all[i]) by {
        lemma_no_prose(all[i]);
    }
    lemma_is_first_index(all, is_prose(), all.len() as int);
    if all == front + seq![line] + back && (forall|i: int, k: int|
        0 <= i < front.len() ==> !#[trigger] has_heading(front[i], k)) && has_heading(line, signs) {
        reveal_strlit(" ");
        assert forall|i: int| 0 <= i < front.len() implies !is_heading()(#[trigger] all[i]) by {
            assert(all[i] == front[i]);
            let k = lemma_heading(front[i]);
            assert(!has_heading(front[i], k));
        }
        assert(all[front.len() as int] == line);
        let t = trimmed(line);
        lemma_signs(t, signs);
        assert(t.skip(signs).take(1) =~= " "@);
        assert(t[0] == '#');
        lemma_is_first_index(all, is_heading(), front.len() as int);
    }
    if forall|i: int, k: int|
        0 <= i < all.len() ==> !#[trigger] has_heading(all[i], k) {
        assert forall|i: int| 0 <= i < all.len() implies !is_heading()(#[trigger] all[i]) by {
            let k = lemma_heading(all[i]);
            assert(!has_heading(all[i], k));
        }
        lemma_is_first_index(all, is_heading(), all.len() as int);
    }
}

/// A line is a comment exactly if, white space aside, it begins with a number sign and a space; its
/// text is what follows, without white space around it.
pub proof fn law_comments_follow_the_sign(line: Seq<char>, rest: Seq<char>)
    ensures
        trimmed(line) == "# "@ + rest ==> comment(line) == Some(trimmed(rest)),
        comment(line) is Some <==> begins_with(trimmed(line), "# "@),
{
    law_prefix_and_rest(trimmed(line), "# "@, rest);
}

/// The first comment with a text in `autoloops.toml` describes it; without one, nothing does.
pub proof fn law_toml_comments_describe(
    contents: Seq<char>,
    front: Seq<Seq<char>>,
    line: Seq<char>,
    back: Seq<Seq<char>>,
)
    ensures
        lines_of(contents) == front + seq![line] + back && (forall|i: int|
            0 <= i < front.len() ==> comment(#[trigger] front[i]) is None || comment(
                front[i],
            )->0.len() == 0) && comment(line) is Some && comment(line)->0.len() > 0 ==> toml_comment(
            contents,
        ) == Some(shortened(comment(line)->0, 80)),
        (forall|i: int|
            0 <= i < lines_of(contents).len() ==> comment(#[trigger] lines_of(contents)[i]) is None
                || comment(lines_of(contents)[i])->0.len() == 0) ==> toml_comment(contents) is None,
{
    let all = lines_of(contents);
    if all == front + seq![line] + back && (forall|i: int|
        0 <= i < front.len() ==> comment(#[trigger] front[i]) is None || comment(front[i])->0.len()
            == 0) && comment(line) is Some && comment(line)->0.len() > 0 {
        assert forall|i: int| 0 <= i < front.len() implies !has_comment()(#[trigger] all[i]) by {
            assert(all[i] == front[i]);
        }
        assert(all[front.len() as int] == line);
        lemma_is_first_index(all, has_comment(), front.len() as int);
    }
    if forall|i: int|
        0 <= i < all.len() ==> comment(#[trigger] all[i]) is None || comment(all[i])->0.len() == 0 {
        lemma_is_first_index(all, has_comment(), all.len() as int);
    }
}

/// A line that a YAML preset may have in front of its description: it is blank, or a shebang, or a
/// comment that names `ralph.yml` in any case or begins with `ABOUTME`.
pub open spec fn may_precede(line: Seq<char>) -> bool {
    ||| is_blank(line)
    ||| begins_with(trimmed(line), "#!"@)
    ||| (comment(line) matches Some(text) && (text.len() == 0 || ascii_lowered(text)
        == "ralph.yml"@ || begins_with(text, "ABOUTME"@)))
}

/// Behind such lines, a comment describes a YAML preset; any other line there means that nothing
/// does.
pub proof fn law_yaml_comments_describe(
    contents: Seq<char>,
    front: Seq<Seq<char>>,
    line: Seq<char>,
    back: Seq<Seq<char>>,
)
    ensures
        lines_of(contents) == front + seq![line] + back && (forall|i: int|
            0 <= i < front.len() ==> may_precede(#[trigger] front[i])) && !may_precede(line) ==> (
        comment(line) matches Some(text) ==> yaml_description(contents) == Some(
            shortened(text, 80),
        )),
        lines_of(contents) == front + seq![line] + back && (forall|i: int|
            0 <= i < front.len() ==> may_precede(#[trigger] front[i])) && !may_precede(line)
            && comment(line) is None ==> yaml_description(contents) is None,
        (forall|i: int|
            0 <= i < lines_of(contents).len() ==> may_precede(#[trigger] lines_of(contents)[i]))
            ==> yaml_description(contents) is None,
{
    let all = lines_of(contents);
    reveal_strlit("ralph.yml");
    assert(ascii_lowered("ralph.yml"@) =~= "ralph.yml"@);
    assert forall|l: Seq<char>| #[trigger] may_precede(l) == !no_preamble()(l) by {
        law_blank_texts_are_trimmed_away(l);
    }
    if all == front + seq![line] + back && (forall|i: int|
        0 <= i < front.len() ==> may_precede(#[trigger] front[i])) && !may_precede(line) {
        assert forall|i: int| 0 <= i < front.len() implies !no_preamble()(#[trigger] all[i]) by {
            assert(all[i] == front[i]);
            assert(may_precede(front[i]));
        }
        assert(all[front.len() as int] == line);
        lemma_is_first_index(all, no_preamble(), front.len() as int);
    }
    if forall|i: int| 0 <= i < all.len() ==> may_precede(#[trigger] all[i]) {
        assert forall|i: int| 0 <= i < all.len() implies !no_preamble()(#[trigger] all[i]) by {
            assert(may_precede(all[i]));
        }
        lemma_is_first_index(all, no_preamble(), all.len() as int);
    }
}

/// Every preset has its row in the table: name, format, source, and the description cut to 40
/// characters, or a dash.
pub proof fn law_every_preset_is_listed(presets: Seq<PresetView>, i: int)
    requires
        0 <= i < presets.len(),
    ensures
        occurs_in(
            presets_table(presets),
            padded(presets[i].name, 22) + " "@ + padded(
                match presets[i].format {
                    PresetFormat::Yaml => "yaml"@,
                    PresetFormat::Toml => "toml"@,
                },
                6,
            ) + " "@ + padded(presets[i].source, 9) + " "@ + (shortened(
                match presets[i].description {
                    Some(text) => text,
                    None => "-"@,
                },
                40,
            ) + "\n"@),
        ),
{
    let row = preset_row()(presets[i]);
    let head = columns("PRESET"@, "FORMAT"@, "SOURCE"@) + "DESCRIPTION\n"@ + (repeated('-', 80)
        + "\n"@);
    let body = gather(presets, preset_row());
    let tail = "\nRun a preset with:  ralph run -H <PRESET> -P PROMPT.md\n"@;
    lemma_occurs_whole(row);
    lemma_occurs_in_gather(presets, preset_row(), i, row);
    lemma_occurs_between(head, body, tail, row);
    assert(head + body + tail =~= presets_table(presets));
}

/// The rows of a table come in the order of the presets, each once: the table of more presets has
/// the rows of the first ones, then those of the others.
pub proof fn law_rows_follow_the_presets(a: Seq<PresetView>, b: Seq<PresetView>)
    requires
        a.len() > 0,
        b.len() > 0,
    ensures
        ({
            let head = presets_table(a).take(
                presets_table(a).len() - gather(a, preset_row()).len() - table_end().len(),
            );
            presets_table(a + b) == head + gather(a, preset_row()) + gather(b, preset_row())
                + table_end()
        }),
{
    let head = columns("PRESET"@, "FORMAT"@, "SOURCE"@) + "DESCRIPTION\n"@ + (repeated('-', 80)
        + "\n"@);
    lemma_gather_concat(a, b, preset_row());
    assert(presets_table(a).take(head.len() as int) =~= head);
    assert(presets_table(a + b) =~= head + gather(a, preset_row()) + gather(b, preset_row())
        + table_end());
}

pub open spec fn table_end() -> Seq<char> {
    "\nRun a preset with:  ralph run -H <PRESET> -P PROMPT.md\n"@
}

/// Every name that a candidate has is listed, once, with the first candidate of that name.
pub proof fn law_first_candidates_are_listed(
    presets: Seq<PresetView>,
    candidates: Seq<PresetView>,
    k: int,
) -> (i: int)
    requires
        is_catalogue(presets, candidates),
        0 <= k < candidates.len(),
        forall|j: int| 0 <= j < k ==> (#[trigger] candidates[j]).name != candidates[k].name,
    ensures
        0 <= i < presets.len(),
        presets[i] == candidates[k],
{
    assert(lists_name(presets, candidates[k].name));
    let i = choose|i: int|
        0 <= i < presets.len() && (#[trigger] presets[i]).name == candidates[k].name;
    assert(wins(candidates, presets[i]));
    let m = choose|m: int|
        0 <= m < candidates.len() && #[trigger] candidates[m] == presets[i] && is_first_of_name(
            candidates,
            m,
        );
    assert(m == k) by {
        if m < k {
            assert(candidates[m].name != candidates[k].name);
        }
        if k < m {
            assert(candidates[k].name != candidates[m].name);
        }
    }
    i
}

/// Nothing is listed but candidates, and they come in ascending order of their names.
pub proof fn law_listed_presets_are_candidates(
    presets: Seq<PresetView>,
    candidates: Seq<PresetView>,
    i: int,
    j: int,
)
    requires
        is_catalogue(presets, candidates),
        0 <= i < j < presets.len(),
    ensures
        candidates.contains(presets[i]),
        candidates.contains(presets[j]),
        key_less(codes(presets[i].name), codes(presets[j].name)),
{
    assert(wins(candidates, presets[i]) && wins(candidates, presets[j]));
}

/// Presets and roots are seen as they are, in their places.
pub proof fn law_presets_and_roots_keep_their_places(
    presets: Seq<DiscoveredPreset>,
    roots: Seq<RootPath>,
    i: int,
)
    ensures
        preset_views(presets).len() == presets.len(),
        root_views(roots).len() == roots.len(),
        0 <= i < presets.len() ==> preset_views(presets)[i].name == presets[i].name@
            && preset_views(presets)[i].path == presets[i].path && preset_views(presets)[i].source
            == presets[i].source@ && preset_views(presets)[i].format == presets[i].format,
        0 <= i < presets.len() ==> (preset_views(presets)[i].description is None
            <==> presets[i].description is None),
        0 <= i < presets.len() ==> (presets[i].description matches Some(text)
            ==> preset_views(presets)[i].description == Some(text@)),
        0 <= i < roots.len() ==> root_views(roots)[i].source == roots[i].source@
            && root_views(roots)[i].base == roots[i].base@,
        0 <= i < roots.len() ==> (root_views(roots)[i].below is None <==> roots[i].below is None),
        0 <= i < roots.len() ==> (roots[i].below matches Some(below) ==> root_views(roots)[i].below
            == Some(below@)),
{
}

/// Without presets the table says where they were searched.
pub proof fn law_no_presets_are_explained()
    ensures
        presets_table(Seq::empty())
            == "No presets found. Searched:\n  - ./presets/\n  - $XDG_CONFIG_HOME/ralph/presets/\n  - $HOME/.config/ralph/presets/\n  - $HOME/.config/autoloop/presets/\n  - $RALPH_PRESETS_DIR/\n  - $AUTOLOOP_PRESETS_DIR/ (deprecated)\n\nDrop a YAML preset or TOML-dir preset in any of the above. Example:\n  mkdir -p ~/.config/ralph/presets\n  ln -s /path/to/autoloop/packages/presets/presets/autocode ~/.config/ralph/presets/\n\nOr set:  export RALPH_PRESETS_DIR=/path/to/your/presets\n"@,
{
}

} // verus!
