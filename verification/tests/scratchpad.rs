use inferlab::dict::Dict;
use inferlab::error::InferlabError;
use inferlab::scratchpad::{
    entry_author, entry_topic, io_fail, journal_lines, newest_record, note_entry, noted_message,
    record_line, resolve_record_refs, show, Entry, RecordListing, RecordSummary,
};

fn entry(text: &str, topic: Option<&str>) -> Entry {
    Entry {
        timestamp: "2026-01-01T00-00-00.000Z".to_owned(),
        author: "ada".to_owned(),
        text: text.to_owned(),
        topic: topic.map(str::to_owned),
        records: Vec::new(),
    }
}

#[test]
fn topics_are_trimmed_and_not_empty() {
    assert_eq!(entry_topic(Some("  gpu ")).unwrap().as_deref(), Some("gpu"));
    assert_eq!(entry_topic(None).unwrap(), None);
    assert_eq!(
        entry_topic(Some(" \t")).err().map(|error| error.message()),
        Some("topic must not be empty".to_owned())
    );
}

#[test]
fn an_entry_has_an_author() {
    assert_eq!(entry_author(Some("ada"), Some("root")), "ada");
    assert_eq!(entry_author(None, Some("root")), "root");
    assert_eq!(entry_author(None, Some("")), "operator");
    assert_eq!(entry_author(None, None), "operator");
}

#[test]
fn the_last_record_is_the_newest() {
    let ids = vec!["2026-01-01-a".to_owned(), "2026-02-01-b".to_owned()];
    assert_eq!(newest_record(&ids).unwrap(), "2026-02-01-b");
    assert!(newest_record(&[]).is_err());
    let listing = RecordListing::Ids { ids: ids.clone() };
    assert_eq!(
        resolve_record_refs(
            &["last".to_owned(), "2026-01-01-a".to_owned()],
            &listing,
            &ids
        )
        .unwrap(),
        ["2026-02-01-b", "2026-01-01-a"]
    );
    assert_eq!(
        resolve_record_refs(&["2026-03-01-c".to_owned()], &listing, &ids)
            .err()
            .map(|error| error.message()),
        Some("record \"2026-03-01-c\" does not exist in .inferlab/records".to_owned())
    );
    assert_eq!(
        resolve_record_refs(&["../up".to_owned()], &listing, &ids)
            .err()
            .map(|error| error.message()),
        Some("invalid record reference \"../up\"".to_owned())
    );
}

#[test]
fn a_note_is_written_at_its_moment() {
    let entry = note_entry(
        "slow start",
        Some("gpu".to_owned()),
        vec!["r1".to_owned()],
        None,
        Some("ada"),
        0,
    )
    .unwrap();
    assert_eq!(entry.timestamp, "1970-01-01T00-00-00.000Z");
    assert_eq!(
        noted_message(&entry),
        "noted 1970-01-01T00-00-00.000Z · gpu\n  -> r1"
    );
}

#[test]
fn the_view_shows_the_last_entries_of_a_topic() {
    let mut entries: Vec<Entry> = Vec::new();
    for i in 0..12 {
        entries.push(entry(&format!("note {i}"), Some("gpu")));
    }
    entries.push(entry("other", None));
    let summaries: Dict<RecordSummary> = Dict::new();
    let tail = show(&entries, Some("gpu"), false, &summaries);
    assert!(tail.starts_with("# journal — topic gpu\n"));
    assert!(tail.contains("\n(2 earlier entries omitted; --all shows the full journal)\n"));
    assert!(!tail.contains("note 1\n"));
    assert!(tail.contains("note 2\n"));
    assert!(!tail.contains("other"));
    let full = show(&entries, None, true, &summaries);
    assert!(full.contains("note 0\n") && full.contains("other\n"));
    assert_eq!(
        show(&[], None, false, &summaries),
        "# journal\n\nno entries\n"
    );
}

#[test]
fn a_record_is_told_in_one_line() {
    assert_eq!(record_line("r1", None), "r1 — (record unavailable)");
    assert_eq!(
        record_line(
            "r1",
            Some(&RecordSummary {
                kind: None,
                definition_id: Some("qwen".to_owned()),
                status: None,
            })
        ),
        "r1 — record qwen: ?"
    );
}

#[test]
fn blank_lines_hold_no_entry() {
    assert_eq!(journal_lines("{}\n\n  \r\n{\"a\":1}\n"), ["{}", "{\"a\":1}"]);
}

#[test]
fn a_file_that_cannot_be_used_is_named() {
    let error = io_fail("/w/journal.jsonl", "permission denied".to_owned());
    assert!(matches!(
        &error,
        InferlabError::RecordIo { path, message }
            if path == "/w/journal.jsonl" && message == "permission denied"
    ));
}
