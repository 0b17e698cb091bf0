use markdown_oxide::config::convert_momentjs_to_chrono_format;

#[test]
fn test_format_conversion() {
    let moment_format = "YYYY-MM-DD";
    let chrono_format = convert_momentjs_to_chrono_format(moment_format);
    assert_eq!(chrono_format, "%Y-%m-%d");
}

#[test]
fn conversion_of_names_and_short_tokens() {
    assert_eq!(convert_momentjs_to_chrono_format("dddd, MMMM D YY"), "%A, %B %-d %y");
    assert_eq!(convert_momentjs_to_chrono_format("ddd MMM M"), "%a %b %-m");
}

#[test]
fn conversion_keeps_other_text() {
    assert_eq!(convert_momentjs_to_chrono_format("notes/"), "notes/");
    assert_eq!(convert_momentjs_to_chrono_format(""), "");
}

use markdown_oxide::config::{Notebook, Settings, SettingsFile};

#[test]
fn settings_defaults() {
    let s = Settings::new(SettingsFile::default(), None, false);
    assert_eq!(s.dailynote, "%Y-%m-%d");
    assert!(s.heading_completions && s.title_headings && s.unresolved_diagnostics);
    assert!(s.semantic_tokens && s.tags_in_codeblocks && s.references_in_codeblocks);
    assert!(s.notebooks.is_empty());
}

#[test]
fn settings_file_beats_obsidian_beats_default() {
    let from_obsidian = Settings::new(SettingsFile::default(), Some("%d.%m.%Y".to_string()), false);
    assert_eq!(from_obsidian.dailynote, "%d.%m.%Y");
    let file = SettingsFile {
        dailynote: Some("%Y%m%d".to_string()),
        title_headings: Some(false),
        notebooks: Some(vec![Notebook {
            name: "j".to_string(),
            folder: "journal".to_string(),
            note_format: "%Y".to_string(),
        }]),
        ..Default::default()
    };
    let s = Settings::new(file, Some("%d.%m.%Y".to_string()), false);
    assert_eq!(s.dailynote, "%Y%m%d");
    assert!(!s.title_headings);
    assert!(s.heading_completions);
    assert_eq!(s.notebooks.len(), 1);
}

#[test]
fn client_without_semantic_tokens_turns_them_off() {
    let file = SettingsFile { semantic_tokens: Some(true), ..Default::default() };
    assert!(!Settings::new(file.clone(), None, true).semantic_tokens);
    assert!(Settings::new(file, None, false).semantic_tokens);
}

#[test]
fn notebook_names_must_differ() {
    let nb = |name: &str| Notebook { name: name.to_string(), folder: "f".to_string(), note_format: "%Y".to_string() };
    let file = SettingsFile { notebooks: Some(vec![nb("a"), nb("b"), nb("c")]), ..Default::default() };
    assert!(Settings::new(file, None, false).has_unique_notebook_names());
    let file = SettingsFile { notebooks: Some(vec![nb("a"), nb("b"), nb("a")]), ..Default::default() };
    assert!(!Settings::new(file, None, false).has_unique_notebook_names());
}
