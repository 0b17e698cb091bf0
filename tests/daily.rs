use chrono::{Datelike, NaiveDate};
use markdown_oxide::commands::{note, NoteError};
use markdown_oxide::config::{Notebook, Settings};
use markdown_oxide::daily::{date_to_filename, match_notebook, moment_to_filename, LocalMoment};
use markdown_oxide::symbols::{
    referenceable_symbols, relative_date_string, workspace_symbol, ReferenceableKind,
    ReferenceableNode, SymbolKind,
};
use markdown_oxide::outline::{Position, Range};

fn day(y: i32, m: u32, d: u32) -> i32 {
    NaiveDate::from_ymd_opt(y, m, d).unwrap().num_days_from_ce()
}

fn notebook(name: &str, folder: &str, format: &str) -> Notebook {
    Notebook { name: name.to_string(), folder: folder.to_string(), note_format: format.to_string() }
}

fn settings(notebooks: Vec<Notebook>) -> Settings {
    Settings {
        dailynote: "%Y-%m-%d".to_string(),
        heading_completions: true,
        title_headings: true,
        unresolved_diagnostics: true,
        semantic_tokens: true,
        tags_in_codeblocks: true,
        references_in_codeblocks: true,
        notebooks,
    }
}

#[test]
fn formatted_today_matches_its_notebook() {
    let s = settings(vec![notebook("daily", "daily", "%Y-%m-%d"), notebook("euro", "euro", "%d.%m.%Y")]);
    let today = day(2026, 10, 18);
    for nb in &s.notebooks {
        let filename = date_to_filename(today, &nb.note_format).unwrap();
        let found = match_notebook(&s, &format!("{filename}.md")).unwrap();
        assert_eq!(found.name, nb.name);
    }
}

#[test]
fn first_matching_notebook_wins() {
    let s = settings(vec![notebook("a", "a", "%Y-%m-%d"), notebook("b", "b", "%Y-%m-%d")]);
    assert_eq!(match_notebook(&s, "2024-02-29.md").unwrap().name, "a");
}

#[test]
fn unmatched_filename_has_no_notebook() {
    let s = settings(vec![notebook("a", "a", "%Y-%m-%d")]);
    assert!(match_notebook(&s, "shopping list.md").is_none());
    assert!(match_notebook(&settings(vec![]), "2024-02-29.md").is_none());
}

#[test]
fn date_filename_is_written_by_pattern() {
    assert_eq!(date_to_filename(day(2024, 3, 5), "%Y-%m-%d").unwrap(), "2024-03-05");
    assert_eq!(date_to_filename(day(2024, 3, 5), "%A %-d %B").unwrap(), "Tuesday 5 March");
}

#[test]
fn relative_labels() {
    let today = day(2026, 10, 18);
    assert_eq!(relative_date_string(today, today).unwrap(), "today");
    assert_eq!(relative_date_string(today, today + 1).unwrap(), "tomorrow");
    assert_eq!(relative_date_string(today, today - 1).unwrap(), "yesterday");
    assert_eq!(relative_date_string(today, today + 3).unwrap(), "next Wednesday");
    assert_eq!(relative_date_string(today, today - 5).unwrap(), "last Tuesday");
    assert_eq!(relative_date_string(today, today + 7).unwrap(), "next Sunday");
    assert!(relative_date_string(today, today + 8).is_none());
    assert!(relative_date_string(today, today - 8).is_none());
}

#[test]
fn workspace_symbols_list_targets_then_days() {
    let r = Range { start: Position { line: 2, character: 0 }, end: Position { line: 2, character: 9 } };
    let nodes = vec![
        ReferenceableNode {
            kind: ReferenceableKind::File,
            path: "/v/a.md".to_string(),
            range: None,
            refname: Some("a".to_string()),
        },
        ReferenceableNode {
            kind: ReferenceableKind::Tag,
            path: "/v/a.md".to_string(),
            range: Some(r),
            refname: Some("#tag".to_string()),
        },
        ReferenceableNode {
            kind: ReferenceableKind::Heading,
            path: "/v/a.md".to_string(),
            range: None,
            refname: Some("a#H".to_string()),
        },
        ReferenceableNode {
            kind: ReferenceableKind::Heading,
            path: "/v/a.md".to_string(),
            range: Some(r),
            refname: None,
        },
    ];
    let own = referenceable_symbols(&nodes);
    assert_eq!(own.len(), 2);
    assert_eq!(own[0].kind, SymbolKind::File);
    assert_eq!(own[0].range.end.character, 0);
    assert_eq!(own[0].range.start.character, 0);
    assert_eq!(own[1].kind, SymbolKind::Constant);
    assert_eq!(own[1].range, r);

    let s = settings(vec![]);
    let today = day(2026, 10, 18);
    let all = workspace_symbol(&s, &nodes, today);
    assert_eq!(all.len(), 17);
    assert_eq!(all[0], own[0]);
    assert_eq!(all[2].name, "last Sunday: 2026-10-11");
    assert_eq!(all[9].name, "today: 2026-10-18");
    assert_eq!(all[9].path, "2026-10-18");
    assert_eq!(all[10].name, "tomorrow: 2026-10-19");
    assert_eq!(all[16].name, "next Sunday: 2026-10-25");
}

#[test]
fn note_path_for_notebook() {
    let s = settings(vec![notebook("journal", "journal", "%Y-%m-%d")]);
    let m = LocalMoment { day: day(2024, 1, 2), second: 3600 };
    assert_eq!(note("/v", &s, "journal", Some(m)), Ok("/v/journal/2024-01-02.md".to_string()));
    assert_eq!(moment_to_filename(m, "%H:%M").unwrap(), "01:00");
}

#[test]
fn note_errors() {
    let s = settings(vec![notebook("journal", "journal", "%Y-%m-%d")]);
    assert_eq!(note("/v", &s, "missing", None), Err(NoteError::NotebookNotFound));
    assert_eq!(
        note("/v", &s, "journal", None),
        Err(NoteError::UnparsableDate { format: "%Y-%m-%d".to_string() })
    );
    let bad = settings(vec![notebook("bad", "bad", "%Q")]);
    let m = LocalMoment { day: day(2024, 1, 2), second: 0 };
    assert_eq!(note("/v", &bad, "bad", Some(m)), Err(NoteError::UnparsableDate { format: "%Q".to_string() }));
}

use markdown_oxide::symbols::day_symbols;

#[test]
fn day_symbols_skip_missing_filenames() {
    let today = day(2026, 10, 18);
    let mut filenames: Vec<Option<String>> = vec![None; 15];
    filenames[6] = Some("yday".to_string());
    filenames[7] = Some("now".to_string());
    filenames[14] = Some("later".to_string());
    let days = day_symbols(today, &filenames);
    assert_eq!(days.len(), 3);
    assert_eq!(days[0].name, "yesterday: yday");
    assert_eq!(days[1].name, "today: now");
    assert_eq!(days[1].path, "now");
    assert_eq!(days[1].kind, SymbolKind::File);
    assert_eq!(days[2].name, "next Sunday: later");
}

#[test]
fn iso_pattern_always_writes() {
    let m = LocalMoment { day: day(2026, 10, 18), second: 45296 };
    assert_eq!(moment_to_filename(m, "%Y-%m-%d").unwrap(), "2026-10-18");
    assert_eq!(moment_to_filename(m, "%Y-%m-%d %H:%M:%S").unwrap(), "2026-10-18 12:34:56");
    assert!(date_to_filename(day(2026, 10, 18), "%H").is_none());
    assert!(date_to_filename(i32::MAX, "%Y-%m-%d").is_none());
}

#[test]
fn workspace_symbols_without_targets_still_list_days() {
    let s = settings(vec![]);
    let all = workspace_symbol(&s, &vec![], day(2026, 10, 18));
    assert_eq!(all.len(), 15);
    assert_eq!(all[0].name, "last Sunday: 2026-10-11");
    assert_eq!(all[14].path, "2026-10-25");
    let none = workspace_symbol(&settings_with_daily("%H"), &vec![], day(2026, 10, 18));
    assert!(none.is_empty());
}

fn settings_with_daily(format: &str) -> Settings {
    let mut s = settings(vec![]);
    s.dailynote = format.to_string();
    s
}
