use ralph_hats::presets::{
    classify_entry, discover_in_roots, first_readme_prose_line, is_toml_preset_dir,
    is_yaml_preset_file, list_presets_table, preset_roots, read_toml_preset_description,
    read_yaml_preset_description, split_extension, DiscoveredPreset, EntryName, PresetEntry,
    PresetFormat, PresetRoot, RootPath,
};
use std::path::PathBuf;

fn entry(root: &str, name: &str) -> PresetEntry {
    PresetEntry {
        path: PathBuf::from(root).join(name),
        file_name: EntryName::Unicode(name.to_string()),
        is_file: false,
        has_autoloops: false,
        has_topology: false,
        contents: None,
        readme: None,
        autoloops: None,
    }
}

/// A minimal autoloop preset skeleton under `root/<name>/`.
fn preset_skeleton(root: &str, name: &str, readme: Option<&str>) -> PresetEntry {
    let mut e = entry(root, name);
    e.has_autoloops = true;
    e.has_topology = true;
    e.autoloops = Some("# test preset\n".to_string());
    e.readme = readme.map(str::to_string);
    e
}

fn file(root: &str, name: &str, contents: &str) -> PresetEntry {
    let mut e = entry(root, name);
    e.is_file = true;
    e.contents = Some(contents.to_string());
    e
}

fn root(source: &'static str, entries: Vec<PresetEntry>) -> PresetRoot {
    PresetRoot {
        source,
        entries: Some(entries),
    }
}

#[test]
fn test_discover_in_roots_finds_presets_and_skips_nonpresets() {
    let presets = discover_in_roots(vec![root(
        "env",
        vec![
            preset_skeleton("/r", "autotest-fixture", Some("Fixture preset for tests.\n")),
            preset_skeleton("/r", "another-fixture", None),
            // Non-preset dir should be skipped.
            entry("/r", "not-a-preset"),
        ],
    )]);
    let names: Vec<_> = presets.iter().map(|p| p.name.as_str()).collect();
    assert!(names.contains(&"autotest-fixture"), "got {:?}", names);
    assert!(names.contains(&"another-fixture"), "got {:?}", names);
    assert!(!names.contains(&"not-a-preset"), "got {:?}", names);

    let with_readme = presets
        .iter()
        .find(|p| p.name == "autotest-fixture")
        .unwrap();
    assert_eq!(with_readme.source, "env");
    assert_eq!(
        with_readme.description.as_deref(),
        Some("Fixture preset for tests.")
    );

    let without_readme = presets
        .iter()
        .find(|p| p.name == "another-fixture")
        .unwrap();
    // Fixture's autoloops.toml starts with `# test preset` — description should
    // fall back to that when there's no README.md.
    assert_eq!(without_readme.description.as_deref(), Some("test preset"));
}

#[test]
fn test_discover_in_roots_respects_first_wins_across_roots() {
    let presets = discover_in_roots(vec![
        root(
            "project",
            vec![preset_skeleton("/a", "shared", Some("From root A.\n"))],
        ),
        root(
            "env",
            vec![
                preset_skeleton("/b", "shared", Some("From root B.\n")),
                preset_skeleton("/b", "b-only", None),
            ],
        ),
    ]);
    let shared = presets.iter().find(|p| p.name == "shared").unwrap();
    assert_eq!(shared.source, "project", "first-wins should pick root A");
    assert_eq!(shared.description.as_deref(), Some("From root A."));
    assert!(presets.iter().any(|p| p.name == "b-only"));
}

#[test]
fn test_discover_in_roots_missing_roots_are_ignored() {
    let presets = discover_in_roots(vec![
        PresetRoot {
            source: "project",
            entries: None,
        },
        PresetRoot {
            source: "env",
            entries: None,
        },
    ]);
    assert!(presets.is_empty());
}

#[test]
fn test_list_presets_table_empty_prints_search_paths() {
    let mut output = String::new();
    list_presets_table(&mut output, &Vec::new(), false);
    assert!(output.contains("No presets found"));
    assert!(output.contains("./presets/"));
    assert!(output.contains("XDG_CONFIG_HOME"));
    assert!(output.contains("RALPH_PRESETS_DIR"));
    assert!(output.contains("AUTOLOOP_PRESETS_DIR"));
}

#[test]
fn test_read_toml_preset_description_falls_back_to_toml_comment() {
    let desc = read_toml_preset_description(
        None,
        Some("# This preset does a thing.\nevent_loop.max_iterations = 10\n"),
    );
    assert_eq!(desc.as_deref(), Some("This preset does a thing."));
}

#[test]
fn test_discover_in_roots_finds_yaml_presets_alongside_toml() {
    let presets = discover_in_roots(vec![root(
        "env",
        vec![
            // TOML preset dir
            preset_skeleton("/r", "toml-preset", Some("A TOML preset.\n")),
            // YAML file preset
            file(
                "/r",
                "yaml-preset.yml",
                "# A YAML preset for tests.\nhats: {}\n",
            ),
            // Random file that isn't a preset
            file("/r", "random.txt", "ignore me"),
        ],
    )]);

    let toml_p = presets.iter().find(|p| p.name == "toml-preset").unwrap();
    assert_eq!(toml_p.format, PresetFormat::Toml);
    assert_eq!(toml_p.description.as_deref(), Some("A TOML preset."));

    let yaml_p = presets.iter().find(|p| p.name == "yaml-preset").unwrap();
    assert_eq!(yaml_p.format, PresetFormat::Yaml);
    assert_eq!(
        yaml_p.description.as_deref(),
        Some("A YAML preset for tests.")
    );

    assert!(!presets.iter().any(|p| p.name == "random"));
}

#[test]
fn presets_come_sorted_and_once() {
    let presets = discover_in_roots(vec![
        root(
            "project",
            vec![
                file("/p", "b.yml", ""),
                file("/p", "a.yaml", ""),
                preset_skeleton("/p", "b", None),
                file("/p", "é.yml", ""),
            ],
        ),
        PresetRoot {
            source: "xdg",
            entries: None,
        },
        root(
            "home",
            vec![file("/h", "a.yml", "# late\n"), file("/h", "B.yml", "")],
        ),
    ]);
    let found: Vec<(&str, &str, PresetFormat)> = presets
        .iter()
        .map(|p| (p.name.as_str(), p.source, p.format))
        .collect();
    assert_eq!(
        found,
        vec![
            ("B", "home", PresetFormat::Yaml),
            ("a", "project", PresetFormat::Yaml),
            ("b", "project", PresetFormat::Yaml),
            ("é", "project", PresetFormat::Yaml),
        ]
    );
    assert_eq!(presets[1].path, PathBuf::from("/p/a.yaml"));
    assert_eq!(presets[1].description, None);
}

#[test]
fn entries_are_classified_by_what_they_hold() {
    let mut half = preset_skeleton("/r", "half", None);
    half.has_topology = false;
    assert!(!is_toml_preset_dir(&half));
    assert!(classify_entry(half, "env").is_none());

    let mut unnamed = preset_skeleton("/r", "x", None);
    unnamed.file_name = EntryName::Other { extension: None };
    assert!(is_toml_preset_dir(&unnamed));
    assert!(classify_entry(unnamed, "env").is_none());

    let dir = entry("/r", "dir.yml");
    assert!(!is_yaml_preset_file(&dir));
    assert!(classify_entry(dir, "env").is_none());

    let mut unreadable = file("/r", "x.yml", "");
    unreadable.contents = None;
    let preset = classify_entry(unreadable, "home").unwrap();
    assert_eq!(preset.name, "x");
    assert_eq!(preset.source, "home");
    assert_eq!(preset.description, None);

    assert!(is_yaml_preset_file(&file("/r", "a.b.yaml", "")));
    assert!(!is_yaml_preset_file(&file("/r", "a.YML", "")));
    assert!(!is_yaml_preset_file(&file("/r", ".yml", "")));
    assert!(!is_yaml_preset_file(&file("/r", "yml", "")));
}

#[test]
fn only_the_extension_makes_a_yaml_file() {
    let mut other = file("/r", "x.yml", "# text\n");
    other.file_name = EntryName::Other {
        extension: Some("yml".to_string()),
    };
    assert!(is_yaml_preset_file(&other));
    // It has no name to be listed under.
    assert!(classify_entry(other, "env").is_none());

    let mut other = file("/r", "x.yml", "");
    other.file_name = EntryName::Other {
        extension: Some("txt".to_string()),
    };
    assert!(!is_yaml_preset_file(&other));
    other.file_name = EntryName::Other { extension: None };
    assert!(!is_yaml_preset_file(&other));
    other.file_name = EntryName::Unicode("a.yml.bak".to_string());
    assert!(!is_yaml_preset_file(&other));
    let mut dir = entry("/r", "d.yml");
    dir.file_name = EntryName::Other {
        extension: Some("yml".to_string()),
    };
    assert!(!is_yaml_preset_file(&dir));
}

#[test]
fn extensions_are_split_as_paths_split_them() {
    for name in [
        "a.yml", "a.b.yaml", ".yml", ".a.yml", "yml", "a.", "..", "...", "é.ü", "", ".",
    ] {
        let path = PathBuf::from(format!("/r/{}", name));
        let (stem, ext) = split_extension(name);
        if path.file_name().and_then(|n| n.to_str()) == Some(name) {
            assert_eq!(
                path.extension().and_then(|e| e.to_str()),
                ext,
                "extension of {:?}",
                name
            );
            assert_eq!(
                path.file_stem().and_then(|s| s.to_str()),
                Some(stem),
                "stem of {:?}",
                name
            );
        }
    }
    assert_eq!(split_extension("a.b.yml"), ("a.b", Some("yml")));
    assert_eq!(split_extension(".yml"), (".yml", None));
    assert_eq!(split_extension(".."), ("..", None));
}

#[test]
fn readme_prose_comes_before_headings() {
    let line = |s: &str| first_readme_prose_line(s);
    assert_eq!(line("# Title\n\nProse.\n"), Some("Prose.".to_string()));
    assert_eq!(line("\n## Sub title \n"), Some("Sub title".to_string()));
    assert_eq!(line("#NoSpace\n# Title\n"), Some("Title".to_string()));
    assert_eq!(line("#NoSpace\n"), None);
    assert_eq!(line("\n  \n"), None);
    assert_eq!(line(""), None);
    let long = "x".repeat(100);
    assert_eq!(line(&long), Some(format!("{}...", "x".repeat(80))));
    let fits = "y".repeat(80);
    assert_eq!(line(&fits), Some(fits.clone()));
}

#[test]
fn toml_descriptions_prefer_the_readme() {
    assert_eq!(
        read_toml_preset_description(Some("Prose"), Some("# comment")),
        Some("Prose".to_string())
    );
    assert_eq!(
        read_toml_preset_description(Some("\n"), Some("key = 1 # no\n  #  comment  \n# later")),
        Some("comment".to_string())
    );
    assert_eq!(read_toml_preset_description(None, Some("#comment")), None);
    assert_eq!(read_toml_preset_description(None, None), None);
}

#[test]
fn yaml_descriptions_skip_the_preamble() {
    let desc = |s: &str| read_yaml_preset_description(s);
    assert_eq!(
        desc("#!/usr/bin/env ralph\n\n# ABOUTME: what it is\n# Ralph.YML\n# The text\nhats: {}"),
        Some("The text".to_string())
    );
    assert_eq!(desc("hats: {}\n# late\n"), None);
    assert_eq!(desc("#comment\n# late\n"), None);
    assert_eq!(desc("\n\n"), None);
    assert_eq!(
        desc(&format!("# {}", "z".repeat(90))),
        Some(format!("{}...", "z".repeat(80)))
    );
}

#[test]
fn descriptions_are_one_line() {
    let preset = classify_entry(file("/r", "a.yml", "# one\n# two\n"), "env").unwrap();
    assert_eq!(preset.description, Some("one".to_string()));
}

fn path(source: &'static str, base: &str, below: Option<&'static str>) -> RootPath {
    RootPath {
        source,
        base: base.to_string(),
        below,
    }
}

#[test]
fn roots_come_in_their_order() {
    assert_eq!(
        preset_roots(Some("/x"), Some("/h"), Some("/r"), Some("/a")),
        vec![
            path("project", "presets", None),
            path("xdg", "/x", Some("ralph/presets")),
            path("home", "/h", Some(".config/ralph/presets")),
            path("autoloop", "/h", Some(".config/autoloop/presets")),
            path("env", "/r", None),
            path("env", "/a", None),
        ]
    );
    assert_eq!(
        preset_roots(None, None, None, Some("/a")),
        vec![path("project", "presets", None), path("env", "/a", None)]
    );
}

#[test]
fn preset_table_pads_and_cuts() {
    let presets = vec![
        DiscoveredPreset {
            name: "demo".to_string(),
            path: PathBuf::from("/tmp/demo"),
            source: "env",
            format: PresetFormat::Toml,
            description: Some("d".repeat(41)),
        },
        DiscoveredPreset {
            name: "a name that is longer than its column".to_string(),
            path: PathBuf::from("/tmp/x.yml"),
            source: "autoloop",
            format: PresetFormat::Yaml,
            description: None,
        },
    ];
    let mut output = String::new();
    list_presets_table(&mut output, &presets, true);
    assert_eq!(
        output,
        format!(
            "PRESET                 FORMAT SOURCE    DESCRIPTION\n{}\n\
             demo                   toml   env       {}...\n\
             a name that is longer than its column yaml   autoloop  -\n\
             \nRun a preset with:  ralph run -H <PRESET> -P PROMPT.md\n",
            "-".repeat(80),
            "d".repeat(40)
        )
    );
}

#[test]
fn formats_have_labels() {
    assert_eq!(PresetFormat::Yaml.label(), "yaml");
    assert_eq!(PresetFormat::Toml.label(), "toml");
}
