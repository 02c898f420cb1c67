use ralph_hats::clean::{
    clean_diagnostics, clean_events, diagnostics_cleaned, event_artifacts, events_cleaned,
    is_event_file, Artifact, CleanStep,
};
use std::path::PathBuf;

/// A `.ralph/` directory by its file names.
struct RalphDir {
    files: Vec<String>,
}

impl RalphDir {
    fn new(names: &[&str]) -> RalphDir {
        RalphDir {
            files: names.iter().map(|n| n.to_string()).collect(),
        }
    }

    fn has(&self, name: &str) -> bool {
        self.files.iter().any(|n| n == name)
    }

    fn artifact(name: &str) -> Artifact {
        let path = PathBuf::from(".ralph").join(name);
        Artifact {
            name: name.to_string(),
            bytes: name.as_bytes().to_vec(),
            shown: path.display().to_string(),
            path,
        }
    }

    /// Cleans the event files, and says what was said.
    fn clean_events(&mut self, use_colors: bool, dry_run: bool) -> Result<String, String> {
        let marker = if self.has("current-events") {
            Some(RalphDir::artifact("current-events"))
        } else {
            None
        };
        let entries: Vec<Artifact> = self.files.iter().map(|n| RalphDir::artifact(n)).collect();
        let targets = event_artifacts(&marker, &entries);
        match clean_events(".ralph", &targets, use_colors, dry_run) {
            CleanStep::Report(text) => Ok(text),
            CleanStep::Delete => {
                for target in &targets {
                    self.files.retain(|n| *n != target.name);
                }
                events_cleaned(&targets, None, use_colors)
            }
        }
    }
}

/// A `.ralph/` with event artifacts plus non-event files that must survive.
fn events_fixture() -> RalphDir {
    RalphDir::new(&[
        "events.jsonl",
        "events-20260101-000000.jsonl",
        "current-events",
        "loops.json",
        "merge-queue.jsonl",
        "events-notes.md",
        "specs",
    ])
}

#[test]
fn clean_diagnostics_no_dir_is_ok() {
    let step = clean_diagnostics(".ralph/diagnostics", false, None, false, false);
    assert_eq!(
        step,
        CleanStep::Report(
            "Nothing to clean: Directory '.ralph/diagnostics' does not exist\n".to_string()
        )
    );
}

#[test]
fn clean_diagnostics_dry_run_keeps_dir() {
    let step = clean_diagnostics(".ralph/diagnostics", true, Some(1), false, true);
    assert_eq!(
        step,
        CleanStep::Report(
            "Dry run mode: Would delete directory and all contents:\n  .ralph/diagnostics\n  (1 session directories)\n"
                .to_string()
        )
    );
}

#[test]
fn clean_diagnostics_deletes_dir() {
    let step = clean_diagnostics(".ralph/diagnostics", true, Some(1), false, false);
    assert_eq!(step, CleanStep::Delete);
    assert_eq!(
        diagnostics_cleaned(".ralph/diagnostics", true, false),
        Ok("Cleaned: Deleted '.ralph/diagnostics' and all contents\n".to_string())
    );
}

#[test]
fn diagnostics_are_reported_in_colour() {
    assert_eq!(
        clean_diagnostics("d", false, None, true, true),
        CleanStep::Report(
            "\x1b[2mNothing to clean:\x1b[0m Directory 'd' does not exist\n".to_string()
        )
    );
    assert_eq!(
        clean_diagnostics("d", true, None, true, true),
        CleanStep::Report(
            "\x1b[36mDry run mode:\x1b[0m Would delete directory and all contents:\n  d\n"
                .to_string()
        )
    );
    assert_eq!(
        diagnostics_cleaned("d", true, true),
        Ok("\x1b[32m✓\x1b[0m Cleaned: Deleted 'd' and all contents\n".to_string())
    );
    assert_eq!(
        diagnostics_cleaned("d", false, true),
        Err("Failed to delete directory 'd'. Check permissions and try again.".to_string())
    );
}

#[test]
fn clean_events_no_files_is_ok() {
    let mut dir = RalphDir::new(&[]);
    assert!(dir.clean_events(false, false).is_ok());
}

#[test]
fn clean_events_dry_run_keeps_files() {
    let mut dir = events_fixture();
    dir.clean_events(false, true).expect("dry run");
    assert!(dir.has("events.jsonl"));
    assert!(dir.has("current-events"));
}

#[test]
fn clean_events_deletes_only_event_artifacts() {
    let mut dir = events_fixture();
    dir.clean_events(false, false).expect("clean events");

    for gone in [
        "events.jsonl",
        "events-20260101-000000.jsonl",
        "current-events",
    ] {
        assert!(!dir.has(gone), "{gone} should be deleted");
    }
    for kept in ["loops.json", "merge-queue.jsonl", "events-notes.md"] {
        assert!(dir.has(kept), "{kept} should survive");
    }
    assert!(dir.has("specs"));
}

#[test]
fn event_files_are_listed_by_name() {
    assert_eq!(
        events_fixture().clean_events(false, true),
        Ok(
            "Dry run mode: Would delete event files:\n  .ralph/current-events\n  .ralph/events-20260101-000000.jsonl\n  .ralph/events.jsonl\n"
                .to_string()
        )
    );
    assert_eq!(
        events_fixture().clean_events(true, false),
        Ok(
            "\x1b[32m✓\x1b[0m Cleaned: Deleted 3 event file(s)\n  .ralph/current-events\n  .ralph/events-20260101-000000.jsonl\n  .ralph/events.jsonl\n"
                .to_string()
        )
    );
    assert_eq!(
        RalphDir::new(&["loops.json"]).clean_events(true, false),
        Ok(
            "\x1b[2mNothing to clean:\x1b[0m No event files found in '.ralph'\n".to_string()
        )
    );
}

#[test]
fn a_file_that_stays_is_reported() {
    let marker = None;
    let entries = vec![
        RalphDir::artifact("events-b.jsonl"),
        RalphDir::artifact("events-a.jsonl"),
    ];
    let targets = event_artifacts(&marker, &entries);
    assert_eq!(
        events_cleaned(&targets, Some(1), false),
        Err("Failed to delete '.ralph/events-b.jsonl'. Check permissions and try again.".to_string())
    );
}

#[test]
fn only_current_events_is_a_marker() {
    let entries = vec![RalphDir::artifact("events.jsonl")];
    let marker = Some(RalphDir::artifact("current-events"));
    let names: Vec<&str> = event_artifacts(&marker, &entries)
        .iter()
        .map(|t| t.name.as_str())
        .collect();
    assert_eq!(names, vec!["current-events", "events.jsonl"]);

    let other = Some(RalphDir::artifact("loops.json"));
    let names: Vec<&str> = event_artifacts(&other, &entries)
        .iter()
        .map(|t| t.name.as_str())
        .collect();
    assert_eq!(names, vec!["events.jsonl"]);
}

#[test]
fn event_file_names() {
    assert!(is_event_file("events.jsonl"));
    assert!(is_event_file("events-.jsonl"));
    assert!(is_event_file("events-1.jsonl"));
    assert!(!is_event_file("events1.jsonl"));
    assert!(!is_event_file("events.json"));
    assert!(!is_event_file("my-events.jsonl"));
    assert!(!is_event_file("events-"));
    assert!(!is_event_file(""));
}
