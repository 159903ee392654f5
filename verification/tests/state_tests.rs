use logindex::state::{resume_action, FileState, IngestState, ResumeAction};

#[test]
fn default_state_is_fresh() {
    let st = IngestState::default();
    assert_eq!(st.next_doc_id, 1);
    assert!(st.files.is_empty());
}

#[test]
fn doc_ids_are_monotonic() {
    let mut st = IngestState::default();
    assert_eq!(st.alloc_doc_id(), 1);
    assert_eq!(st.alloc_doc_id(), 2);
    assert_eq!(st.alloc_doc_id(), 3);
    assert_eq!(st.next_doc_id, 4);
}

#[test]
fn record_and_get_file() {
    let mut st = IngestState::default();
    let cursor = FileState { size: 100, mtime: 50, offset: 80, turn_id: 3 };
    st.record_file(String::from("a/b.jsonl"), cursor);
    let got = st.get_file(&String::from("a/b.jsonl")).unwrap();
    assert_eq!(*got, cursor);
    assert!(st.get_file(&String::from("a/c.jsonl")).is_none());
}

#[test]
fn record_file_overwrites() {
    let mut st = IngestState::default();
    let first = FileState { size: 100, mtime: 50, offset: 80, turn_id: 3 };
    let second = FileState { size: 150, mtime: 60, offset: 150, turn_id: 9 };
    st.record_file(String::from("log"), first);
    st.record_file(String::from("log"), second);
    assert_eq!(st.files.len(), 1);
    assert_eq!(*st.get_file(&String::from("log")).unwrap(), second);
}

#[test]
fn grown_file_resumes_from_offset() {
    let recorded = FileState { size: 100, mtime: 1000, offset: 100, turn_id: 12 };
    let action = resume_action(Some(&recorded), 150, 2000);
    assert_eq!(action, ResumeAction::Resume { offset: 100, turn_id: 12 });
}

#[test]
fn unchanged_file_is_skipped() {
    let recorded = FileState { size: 100, mtime: 1000, offset: 100, turn_id: 12 };
    assert_eq!(resume_action(Some(&recorded), 100, 1000), ResumeAction::Skip);
}

#[test]
fn unknown_file_parses_from_start() {
    assert_eq!(
        resume_action(None, 500, 77),
        ResumeAction::Resume { offset: 0, turn_id: 0 }
    );
}

#[test]
fn changed_mtime_same_size_reparses() {
    let recorded = FileState { size: 100, mtime: 1000, offset: 60, turn_id: 4 };
    assert_eq!(
        resume_action(Some(&recorded), 100, 999),
        ResumeAction::Resume { offset: 60, turn_id: 4 }
    );
}

#[test]
fn from_entries_later_entry_wins() {
    let a = FileState { size: 1, mtime: 1, offset: 0, turn_id: 0 };
    let b = FileState { size: 2, mtime: 2, offset: 1, turn_id: 1 };
    let st = IngestState::from_entries(
        5,
        vec![
            (String::from("x"), a),
            (String::from("y"), a),
            (String::from("x"), b),
        ],
    );
    assert_eq!(st.next_doc_id, 5);
    assert_eq!(st.files.len(), 2);
    assert_eq!(*st.get_file(&String::from("x")).unwrap(), b);
    assert_eq!(*st.get_file(&String::from("y")).unwrap(), a);
}
