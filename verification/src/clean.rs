//! Cleaning up diagnostics and event run history: what is deleted, and what is said about it.
use std::path::PathBuf;
use vstd::prelude::*;

use crate::format::{concat3, decimal, number};
use crate::order::{key_less, keys_of, lemma_key_less_total, lemma_order_of, order_of, places,
    sort_positions, stands_before};
use crate::text::{begins_with, ends_in, ends_with, gather, lemma_gather_ends, lemma_gather_step,
    starts_with, str_eq};

verus! {

/// What comes next.
#[derive(Debug, PartialEq, Eq)]
pub enum CleanStep {
    /// Show this text; nothing is deleted.
    Report(String),
    /// Delete the targets.
    Delete,
}

/// A label, in the given colour where colours are used.
pub open spec fn tag_text(color: Seq<char>, label: Seq<char>, use_colors: bool) -> Seq<char> {
    if use_colors {
        color + label + "\x1b[0m"@
    } else {
        label
    }
}

fn tag(color: &str, label: &str, use_colors: bool) -> (r: String)
    ensures
        r@ == tag_text(color@, label@, use_colors),
{
    if use_colors {
        concat3(color, label, "\x1b[0m")
    } else {
        label.to_owned()
    }
}

/// A check mark in front of a success, where colours are used.
pub open spec fn check_mark(use_colors: bool) -> Seq<char> {
    if use_colors {
        "\x1b[32m✓\x1b[0m "@
    } else {
        ""@
    }
}

fn mark(use_colors: bool) -> (r: &'static str)
    ensures
        r@ == check_mark(use_colors),
{
    if use_colors {
        "\x1b[32m✓\x1b[0m "
    } else {
        ""
    }
}

// ---------------------------------------------------------------------------
// Diagnostics
// ---------------------------------------------------------------------------
pub open spec fn no_directory_text(dir: Seq<char>, use_colors: bool) -> Seq<char> {
    tag_text("\x1b[2m"@, "Nothing to clean:"@, use_colors) + (" Directory '"@ + dir
        + "' does not exist\n"@)
}

/// How many sessions there are, if the directory can be listed.
pub open spec fn sessions_text(sessions: Option<usize>) -> Seq<char> {
    match sessions {
        Some(n) => "  ("@ + decimal(n as nat) + " session directories)\n"@,
        None => ""@,
    }
}

pub open spec fn diagnostics_dry_run_text(
    dir: Seq<char>,
    sessions: Option<usize>,
    use_colors: bool,
) -> Seq<char> {
    tag_text("\x1b[36m"@, "Dry run mode:"@, use_colors)
        + " Would delete directory and all contents:\n"@ + ("  "@ + dir + "\n"@) + sessions_text(
        sessions,
    )
}

/// What is said where the diagnostics directory is not deleted.
pub open spec fn diagnostics_report(
    dir: Seq<char>,
    present: bool,
    sessions: Option<usize>,
    use_colors: bool,
) -> Seq<char> {
    if present {
        diagnostics_dry_run_text(dir, sessions, use_colors)
    } else {
        no_directory_text(dir, use_colors)
    }
}

/// What to do about the diagnostics directory `dir`, which holds `sessions` entries where it can
/// be listed.
pub fn clean_diagnostics(
    dir: &str,
    present: bool,
    sessions: Option<usize>,
    use_colors: bool,
    dry_run: bool,
) -> (r: CleanStep)
    ensures
        match r {
            CleanStep::Report(text) => (!present || dry_run) && text@ == diagnostics_report(
                dir@,
                present,
                sessions,
                use_colors,
            ),
            CleanStep::Delete => present && !dry_run,
        },
{
    if !present {
        let mut text = tag("\x1b[2m", "Nothing to clean:", use_colors);
        text.append(concat3(" Directory '", dir, "' does not exist\n").as_str());
        return CleanStep::Report(text);
    }
    if dry_run {
        let mut text = tag("\x1b[36m", "Dry run mode:", use_colors);
        text.append(" Would delete directory and all contents:\n");
        text.append(concat3("  ", dir, "\n").as_str());
        let count = match sessions {
            Some(n) => concat3("  (", number(n as u128).as_str(), " session directories)\n"),
            None => "".to_owned(),
        };
        text.append(count.as_str());
        return CleanStep::Report(text);
    }
    CleanStep::Delete
}

pub open spec fn directory_deleted_text(dir: Seq<char>, use_colors: bool) -> Seq<char> {
    check_mark(use_colors) + ("Cleaned: Deleted '"@ + dir + "' and all contents\n"@)
}

pub open spec fn directory_failure_text(dir: Seq<char>) -> Seq<char> {
    "Failed to delete directory '"@ + dir + "'. Check permissions and try again."@
}

/// What is said once the diagnostics directory was deleted, or could not be.
pub fn diagnostics_cleaned(dir: &str, deleted: bool, use_colors: bool) -> (r: Result<
    String,
    String,
>)
    ensures
        match r {
            Ok(text) => deleted && text@ == directory_deleted_text(dir@, use_colors),
            Err(message) => !deleted && message@ == directory_failure_text(dir@),
        },
{
    if deleted {
        let mut text = mark(use_colors).to_owned();
        text.append(concat3("Cleaned: Deleted '", dir, "' and all contents\n").as_str());
        Ok(text)
    } else {
        Err(
            concat3(
                "Failed to delete directory '",
                dir,
                "'. Check permissions and try again.",
            ),
        )
    }
}

// ---------------------------------------------------------------------------
// Event run history
// ---------------------------------------------------------------------------
/// A file of the `.ralph` directory.
#[derive(Debug)]
pub struct Artifact {
    /// The file name, with a replacement character for what is not valid Unicode.
    pub name: String,
    /// The bytes of the file name.
    pub bytes: Vec<u8>,
    /// The path as it is shown.
    pub shown: String,
    /// The path.
    pub path: PathBuf,
}

/// The name of an event file: `events.jsonl` or `events-*.jsonl`.
pub open spec fn is_event_name(name: Seq<char>) -> bool {
    ends_in(name, ".jsonl"@) && (name == "events.jsonl"@ || begins_with(name, "events-"@))
}

/// True for the name of an event file.
pub fn is_event_file(name: &str) -> (r: bool)
    ensures
        r == is_event_name(name@),
{
    ends_with(name, ".jsonl") && (str_eq(name, "events.jsonl") || starts_with(name, "events-"))
}

pub open spec fn if_event() -> spec_fn(Artifact) -> Seq<Artifact> {
    |a: Artifact|
        if is_event_name(a.name@) {
            seq![a]
        } else {
            Seq::empty()
        }
}

/// The name of the marker.
pub open spec fn is_marker_name(name: Seq<char>) -> bool {
    name == "current-events"@
}

/// The marker, if it is there. A file of another name is no marker.
pub open spec fn marker_file(marker: Option<Artifact>) -> Seq<Artifact> {
    match marker {
        Some(file) => if is_marker_name(file.name@) {
            seq![file]
        } else {
            Seq::empty()
        },
        None => Seq::empty(),
    }
}

/// The marker, if it is there, and the event files.
pub open spec fn event_files(marker: Option<Artifact>, entries: Seq<Artifact>) -> Seq<Artifact> {
    marker_file(marker) + gather(entries, if_event())
}

/// Bytes as a sort key.
pub open spec fn byte_key(bytes: Seq<u8>) -> Seq<u32> {
    Seq::new(bytes.len(), |i: int| bytes[i] as u32)
}

/// The sort keys of some files.
pub open spec fn file_keys(files: Seq<Artifact>) -> Seq<Seq<u32>> {
    Seq::new(files.len(), |i: int| byte_key(files[i].bytes@))
}

/// Files by the bytes of their names.
pub open spec fn by_bytes(files: Seq<Artifact>) -> Seq<Artifact> {
    Seq::new(files.len(), |i: int| files[order_of(file_keys(files))[i]])
}

/// The files that are referred to.
pub open spec fn files_of(v: Seq<&Artifact>) -> Seq<Artifact> {
    Seq::new(v.len(), |i: int| *v[i])
}

fn sort_key(bytes: &Vec<u8>) -> (r: Vec<u32>)
    ensures
        r@ == byte_key(bytes@),
{
    let mut out: Vec<u32> = Vec::new();
    for i in 0..bytes.len()
        invariant
            out@ == byte_key(bytes@).take(i as int),
    {
        out.push(bytes[i] as u32);
        assert(byte_key(bytes@).take(i + 1) =~= byte_key(bytes@).take(i as int).push(
            bytes@[i as int] as u32,
        ));
    }
    assert(byte_key(bytes@).take(bytes@.len() as int) =~= byte_key(bytes@));
    out
}

/// Collect event run-history artifacts under `.ralph/`: `events.jsonl`, `events-*.jsonl`, and the
/// `current-events` marker, which is given if it exists. All are in one directory, so their order
/// by path is their order by name.
pub fn event_artifacts<'a>(marker: &'a Option<Artifact>, entries: &'a Vec<Artifact>) -> (r: Vec<
    &'a Artifact,
>)
    ensures
        files_of(r@) == by_bytes(event_files(*marker, entries@)),
{
    let mut found: Vec<&'a Artifact> = Vec::new();
    let ghost head = marker_file(*marker);
    if let Some(file) = marker {
        if str_eq(file.name.as_str(), "current-events") {
            found.push(file);
        }
    }
    proof {
        lemma_gather_ends(entries@, if_event());
    }
    assert(files_of(found@) =~= head + gather(entries@.take(0), if_event()));
    for i in 0..entries.len()
        invariant
            files_of(found@) == head + gather(entries@.take(i as int), if_event()),
    {
        let ghost before = files_of(found@);
        proof {
            lemma_gather_step(entries@, i as int, if_event());
        }
        if is_event_file(entries[i].name.as_str()) {
            found.push(&entries[i]);
        }
        assert(files_of(found@) =~= before + if_event()(entries@[i as int]));
        assert(files_of(found@) =~= head + gather(entries@.take(i + 1), if_event()));
    }
    proof {
        lemma_gather_ends(entries@, if_event());
    }
    let ghost files = event_files(*marker, entries@);
    assert(files_of(found@) =~= files);
    let mut keys: Vec<Vec<u32>> = Vec::new();
    for i in 0..found.len()
        invariant
            files_of(found@) == files,
            keys@.len() == i,
            forall|k: int| 0 <= k < i ==> (#[trigger] keys@[k])@ == byte_key(files[k].bytes@),
    {
        assert(files[i as int] == *found@[i as int]);
        keys.push(sort_key(&found[i].bytes));
    }
    assert(keys_of(keys@) =~= file_keys(files));
    let order = sort_positions(&keys);
    let ghost o = order_of(file_keys(files));
    let mut out: Vec<&'a Artifact> = Vec::new();
    for i in 0..order.len()
        invariant
            files_of(found@) == files,
            o == order_of(file_keys(files)),
            o == places(order@),
            o.len() == files.len(),
            forall|a: int| 0 <= a < o.len() ==> 0 <= #[trigger] o[a] < files.len(),
            out@.len() == i,
            forall|k: int| 0 <= k < i ==> *(#[trigger] out@[k]) == by_bytes(files)[k],
    {
        assert(o[i as int] == order@[i as int]);
        assert(files[o[i as int]] == *found@[o[i as int]]);
        out.push(found[order[i]]);
    }
    assert(files_of(out@) =~= by_bytes(files));
    out
}

pub open spec fn shown_path() -> spec_fn(Artifact) -> Seq<char> {
    |a: Artifact| "  "@ + a.shown@ + "\n"@
}

/// The paths of some files, one on each line.
pub open spec fn paths_text(files: Seq<Artifact>) -> Seq<char> {
    gather(files, shown_path())
}

fn list_paths(targets: &Vec<&Artifact>) -> (r: String)
    ensures
        r@ == paths_text(files_of(targets@)),
{
    let ghost all = files_of(targets@);
    let mut out = String::new();
    proof {
        lemma_gather_ends(all, shown_path());
    }
    for i in 0..targets.len()
        invariant
            all == files_of(targets@),
            out@ == gather(all.take(i as int), shown_path()),
    {
        proof {
            lemma_gather_step(all, i as int, shown_path());
        }
        assert(all[i as int] == *targets@[i as int]);
        out.append(concat3("  ", targets[i].shown.as_str(), "\n").as_str());
    }
    proof {
        lemma_gather_ends(all, shown_path());
    }
    out
}

pub open spec fn no_events_text(ralph_dir: Seq<char>, use_colors: bool) -> Seq<char> {
    tag_text("\x1b[2m"@, "Nothing to clean:"@, use_colors) + (" No event files found in '"@
        + ralph_dir + "'\n"@)
}

pub open spec fn events_dry_run_text(files: Seq<Artifact>, use_colors: bool) -> Seq<char> {
    tag_text("\x1b[36m"@, "Dry run mode:"@, use_colors) + " Would delete event files:\n"@
        + paths_text(files)
}

/// What is said where no event file is deleted.
pub open spec fn events_report(
    ralph_dir: Seq<char>,
    files: Seq<Artifact>,
    use_colors: bool,
) -> Seq<char> {
    if files.len() > 0 {
        events_dry_run_text(files, use_colors)
    } else {
        no_events_text(ralph_dir, use_colors)
    }
}

/// What to do about the event files of the `.ralph` directory that is shown as `ralph_dir`.
pub fn clean_events(
    ralph_dir: &str,
    targets: &Vec<&Artifact>,
    use_colors: bool,
    dry_run: bool,
) -> (r: CleanStep)
    ensures
        match r {
            CleanStep::Report(text) => (targets@.len() == 0 || dry_run) && text@ == events_report(
                ralph_dir@,
                files_of(targets@),
                use_colors,
            ),
            CleanStep::Delete => targets@.len() > 0 && !dry_run,
        },
{
    if targets.len() == 0 {
        let mut text = tag("\x1b[2m", "Nothing to clean:", use_colors);
        text.append(concat3(" No event files found in '", ralph_dir, "'\n").as_str());
        return CleanStep::Report(text);
    }
    if dry_run {
        let mut text = tag("\x1b[36m", "Dry run mode:", use_colors);
        text.append(" Would delete event files:\n");
        text.append(list_paths(targets).as_str());
        return CleanStep::Report(text);
    }
    CleanStep::Delete
}

pub open spec fn events_deleted_text(files: Seq<Artifact>, use_colors: bool) -> Seq<char> {
    check_mark(use_colors) + ("Cleaned: Deleted "@ + decimal(files.len()) + " event file(s)\n"@)
        + paths_text(files)
}

pub open spec fn file_failure_text(file: Artifact) -> Seq<char> {
    "Failed to delete '"@ + file.shown@ + "'. Check permissions and try again."@
}

/// What is said once all targets were deleted, or the target at `failed` could not be.
pub fn events_cleaned(targets: &Vec<&Artifact>, failed: Option<usize>, use_colors: bool) -> (r:
    Result<String, String>)
    requires
        failed matches Some(i) ==> i < targets@.len(),
    ensures
        match r {
            Ok(text) => failed is None && text@ == events_deleted_text(
                files_of(targets@),
                use_colors,
            ),
            Err(message) => failed matches Some(i) && message@ == file_failure_text(
                *targets@[i as int],
            ),
        },
{
    if let Some(i) = failed {
        return Err(
            concat3(
                "Failed to delete '",
                targets[i].shown.as_str(),
                "'. Check permissions and try again.",
            ),
        );
    }
    let mut text = mark(use_colors).to_owned();
    let count = number(targets.len() as u128);
    text.append(concat3("Cleaned: Deleted ", count.as_str(), " event file(s)\n").as_str());
    text.append(list_paths(targets).as_str());
    Ok(text)
}

// ---------------------------------------------------------------------------
// Laws
// ---------------------------------------------------------------------------
/// What a selection holds was there before, and meets the condition.
proof fn lemma_selected(entries: Seq<Artifact>, file: Artifact)
    ensures
        gather(entries, if_event()).contains(file) <==> (entries.contains(file) && is_event_name(
            file.name@,
        )),
    decreases entries.len(),
{
    let all = gather(entries, if_event());
    if entries.len() > 0 {
        let before = gather(entries.drop_last(), if_event());
        let last = if_event()(entries.last());
        lemma_selected(entries.drop_last(), file);
        assert(all == before + last);
        if all.contains(file) {
            let i = choose|i: int| 0 <= i < all.len() && all[i] == file;
            if i < before.len() {
                assert(before[i] == file);
                let j = choose|j: int|
                    0 <= j < entries.drop_last().len() && entries.drop_last()[j] == file;
                assert(entries[j] == file);
            } else {
                assert(last[i - before.len()] == file);
                assert(entries[entries.len() - 1] == file);
            }
        }
        if entries.contains(file) && is_event_name(file.name@) {
            let j = choose|j: int| 0 <= j < entries.len() && entries[j] == file;
            if j == entries.len() - 1 {
                assert(all[before.len() as int] == file);
            } else {
                assert(entries.drop_last()[j] == file);
                let i = choose|i: int| 0 <= i < before.len() && before[i] == file;
                assert(all[i] == file);
            }
        }
    }
}

/// Sorting keeps the files: none is lost and none is added.
proof fn lemma_by_bytes_keeps(files: Seq<Artifact>, file: Artifact)
    ensures
        by_bytes(files).contains(file) <==> files.contains(file),
{
    let order = order_of(file_keys(files));
    lemma_order_of(file_keys(files));
    let sorted = by_bytes(files);
    if sorted.contains(file) {
        let i = choose|i: int| 0 <= i < sorted.len() && sorted[i] == file;
        assert(files[order[i]] == file);
    }
    if files.contains(file) {
        let j = choose|j: int| 0 <= j < files.len() && files[j] == file;
        assert(order.contains(j));
        let i = choose|i: int| 0 <= i < order.len() && order[i] == j;
        assert(sorted[i] == file);
    }
}

/// Exactly the marker `current-events` and the event files are cleaned up; every other file
/// survives.
pub proof fn law_only_event_artifacts_are_cleaned(
    marker: Option<Artifact>,
    entries: Seq<Artifact>,
    file: Artifact,
)
    ensures
        by_bytes(event_files(marker, entries)).contains(file) <==> ((marker == Some(file)
            && is_marker_name(file.name@)) || (entries.contains(file) && is_event_name(
            file.name@,
        ))),
{
    let files = event_files(marker, entries);
    let head = marker_file(marker);
    let found = gather(entries, if_event());
    lemma_by_bytes_keeps(files, file);
    lemma_selected(entries, file);
    if files.contains(file) {
        let i = choose|i: int| 0 <= i < files.len() && files[i] == file;
        if i >= head.len() {
            assert(found[i - head.len()] == file);
        }
    }
    if marker == Some(file) && is_marker_name(file.name@) {
        assert(files[0] == file);
    }
    if found.contains(file) {
        let i = choose|i: int| 0 <= i < found.len() && found[i] == file;
        assert(files[head.len() + i] == file);
    }
}

/// An event file is `events.jsonl`, or has a name that begins with `events-` and ends in `.jsonl`,
/// whatever stands between; no other file is one.
pub proof fn law_names_of_event_files(name: Seq<char>, middle: Seq<char>)
    ensures
        is_event_name("events.jsonl"@),
        is_event_name("events-"@ + middle + ".jsonl"@),
        is_event_name(name) ==> name == "events.jsonl"@ || (begins_with(name, "events-"@)
            && ends_in(name, ".jsonl"@)),
        is_marker_name(name) <==> name == "current-events"@,
{
    reveal_strlit("events.jsonl");
    reveal_strlit("events-");
    reveal_strlit(".jsonl");
    let short = "events.jsonl"@;
    assert(short.skip(6) =~= ".jsonl"@);
    let long = "events-"@ + middle + ".jsonl"@;
    assert(long.take(7) =~= "events-"@);
    assert(long.skip(long.len() - 6) =~= ".jsonl"@);
}

/// Each event file is a target once: a further entry adds itself if it is an event file, and
/// nothing otherwise. The marker adds itself under its own name only.
pub proof fn law_further_entries_add_themselves(
    marker: Option<Artifact>,
    entries: Seq<Artifact>,
    file: Artifact,
)
    ensures
        is_event_name(file.name@) ==> event_files(marker, entries.push(file)) == event_files(
            marker,
            entries,
        ).push(file),
        !is_event_name(file.name@) ==> event_files(marker, entries.push(file)) == event_files(
            marker,
            entries,
        ),
        event_files(None, Seq::empty()) == Seq::<Artifact>::empty(),
        file.name@ == "current-events"@ ==> event_files(Some(file), Seq::empty()) == seq![file],
        file.name@ != "current-events"@ ==> event_files(Some(file), entries) == event_files(
            None,
            entries,
        ),
{
    assert(entries.push(file).drop_last() =~= entries);
    assert(gather(entries.push(file), if_event()) == gather(entries, if_event()) + if_event()(
        file,
    ));
    if is_event_name(file.name@) {
        assert(event_files(marker, entries.push(file)) =~= event_files(marker, entries).push(file));
    } else {
        assert(event_files(marker, entries.push(file)) =~= event_files(marker, entries));
    }
    assert(event_files(None, Seq::empty()) =~= Seq::<Artifact>::empty());
    if file.name@ == "current-events"@ {
        assert(event_files(Some(file), Seq::empty()) =~= seq![file]);
    }
}

/// The targets come in ascending order of the bytes of their names, as many as there were before
/// sorting.
pub proof fn law_targets_ascend(files: Seq<Artifact>, i: int, j: int)
    requires
        0 <= i < j < files.len(),
    ensures
        by_bytes(files).len() == files.len(),
        !key_less(byte_key(by_bytes(files)[j].bytes@), byte_key(by_bytes(files)[i].bytes@)),
{
    let keys = file_keys(files);
    let order = order_of(keys);
    lemma_order_of(keys);
    assert(stands_before(keys, order[i], order[j]));
    lemma_key_less_total(keys[order[i]], keys[order[j]]);
}

/// The sort key of a name has its bytes, in their places.
pub proof fn law_keys_are_bytes(bytes: Seq<u8>, i: int)
    requires
        0 <= i < bytes.len(),
    ensures
        byte_key(bytes).len() == bytes.len(),
        byte_key(bytes)[i] as int == bytes[i] as int,
{
}

/// A list of paths has a line for each file, indented by two spaces, in order.
pub proof fn law_paths_are_listed(files: Seq<Artifact>, file: Artifact)
    ensures
        paths_text(Seq::empty()) == Seq::<char>::empty(),
        paths_text(files.push(file)) == paths_text(files) + ("  "@ + file.shown@ + "\n"@),
{
    assert(files.push(file).drop_last() =~= files);
}

/// Without colours, what is said about diagnostics is the plain words; with colours the label is
/// coloured, or marked, and the rest stays as it is.
pub proof fn law_reports_on_diagnostics(dir: Seq<char>)
    ensures
        diagnostics_report(dir, false, None, false) == "Nothing to clean:"@ + (" Directory '"@ + dir
            + "' does not exist\n"@),
        diagnostics_report(dir, false, None, true) == "\x1b[2m"@ + "Nothing to clean:"@ + "\x1b[0m"@
            + (" Directory '"@ + dir + "' does not exist\n"@),
        diagnostics_report(dir, true, None, false) == "Dry run mode:"@
            + " Would delete directory and all contents:\n"@ + ("  "@ + dir + "\n"@),
        diagnostics_report(dir, true, None, true) == "\x1b[36m"@ + "Dry run mode:"@ + "\x1b[0m"@
            + " Would delete directory and all contents:\n"@ + ("  "@ + dir + "\n"@),
        directory_deleted_text(dir, false) == "Cleaned: Deleted '"@ + dir + "' and all contents\n"@,
        directory_deleted_text(dir, true) == "\x1b[32m✓\x1b[0m "@ + directory_deleted_text(
            dir,
            false,
        ),
        directory_failure_text(dir) == "Failed to delete directory '"@ + dir
            + "'. Check permissions and try again."@,
{
    reveal_strlit("");
    let plain = "Cleaned: Deleted '"@ + dir + "' and all contents\n"@;
    assert(directory_deleted_text(dir, false) =~= plain);
    assert(diagnostics_report(dir, true, None, false) =~= "Dry run mode:"@
        + " Would delete directory and all contents:\n"@ + ("  "@ + dir + "\n"@));
    assert(diagnostics_report(dir, true, None, true) =~= "\x1b[36m"@ + "Dry run mode:"@
        + "\x1b[0m"@ + " Would delete directory and all contents:\n"@ + ("  "@ + dir + "\n"@));
}

/// A directory that can be listed has the number of its sessions behind the rest of a dry run's
/// report, whatever the number is; one that is not there has none.
pub proof fn law_sessions_are_counted(dir: Seq<char>, sessions: usize, use_colors: bool)
    ensures
        diagnostics_report(dir, true, Some(sessions), use_colors) == diagnostics_report(
            dir,
            true,
            None,
            use_colors,
        ) + ("  ("@ + decimal(sessions as nat) + " session directories)\n"@),
        diagnostics_report(dir, false, Some(sessions), use_colors) == diagnostics_report(
            dir,
            false,
            None,
            use_colors,
        ),
{
    reveal_strlit("");
    let plain = diagnostics_report(dir, true, None, use_colors);
    assert(diagnostics_report(dir, true, Some(sessions), use_colors) =~= plain + ("  ("@ + decimal(
        sessions as nat,
    ) + " session directories)\n"@));
}

/// What is said about event files names each of them, and how many were deleted.
pub proof fn law_reports_on_events(ralph_dir: Seq<char>, files: Seq<Artifact>)
    ensures
        files.len() == 0 ==> events_report(ralph_dir, files, false) == "Nothing to clean:"@ + (
        " No event files found in '"@ + ralph_dir + "'\n"@),
        files.len() == 0 ==> events_report(ralph_dir, files, true) == "\x1b[2m"@
            + "Nothing to clean:"@ + "\x1b[0m"@ + (" No event files found in '"@ + ralph_dir
            + "'\n"@),
        files.len() > 0 ==> events_report(ralph_dir, files, false) == "Dry run mode:"@
            + " Would delete event files:\n"@ + paths_text(files),
        files.len() > 0 ==> events_report(ralph_dir, files, true) == "\x1b[36m"@ + "Dry run mode:"@
            + "\x1b[0m"@ + " Would delete event files:\n"@ + paths_text(files),
        events_deleted_text(files, false) == "Cleaned: Deleted "@ + decimal(files.len())
            + " event file(s)\n"@ + paths_text(files),
        events_deleted_text(files, true) == "\x1b[32m✓\x1b[0m "@ + events_deleted_text(files, false),
        forall|i: int|
            0 <= i < files.len() ==> #[trigger] file_failure_text(files[i])
                == "Failed to delete '"@ + files[i].shown@ + "'. Check permissions and try again."@,
{
    reveal_strlit("");
    assert(events_deleted_text(files, false) =~= "Cleaned: Deleted "@ + decimal(files.len())
        + " event file(s)\n"@ + paths_text(files));
    assert(events_deleted_text(files, true) =~= "\x1b[32m✓\x1b[0m "@ + events_deleted_text(
        files,
        false,
    ));
}

/// Targets are the files themselves, in their places.
pub proof fn law_targets_are_the_files(targets: Seq<&Artifact>, i: int)
    requires
        0 <= i < targets.len(),
    ensures
        files_of(targets).len() == targets.len(),
        files_of(targets)[i] == *targets[i],
{
}

} // verus!
