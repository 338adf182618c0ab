use data_lake::delta::{
    ensure_absolute_path_with_base, next_poll_duration_ms, no_new_commit_step, PollStep, CommitAction, ConnectorMode,
    DataEventType, DeltaOffset, DeltaReadError, DeltaReadStep, DeltaReaderAction, DeltaTableReader,
    StorageType,
};

fn offset(version: i64, rows: i64, last: Option<i64>) -> DeltaOffset {
    DeltaOffset {
        version,
        rows_read_within_version: rows,
        last_fully_read_version: last,
    }
}

fn add(path: &str, data_change: bool) -> CommitAction {
    CommitAction::Add {
        path: path.to_string(),
        data_change,
    }
}

fn remove(path: &str, data_change: bool, has_deletion_vector: bool) -> CommitAction {
    CommitAction::Remove {
        path: path.to_string(),
        data_change,
        has_deletion_vector,
    }
}

/// Reads every row of the open file, `rows` of them, and returns the offsets.
fn read_rows(reader: &mut DeltaTableReader, rows: usize) -> Vec<(DataEventType, DeltaOffset)> {
    (0..rows).map(|_| reader.record_row()).collect()
}

/// Moves to the next commit that changes data, as a static reader does.
fn advance(reader: &mut DeltaTableReader, commits: &mut Vec<(i64, Vec<CommitAction>)>) -> Result<(), DeltaReadError> {
    reader.begin_advance();
    while !reader.has_queued_files() {
        if commits.is_empty() {
            break;
        }
        let (version, actions) = commits.remove(0);
        reader.apply_commit(version, &actions)?;
    }
    Ok(())
}

fn initial_reader() -> DeltaTableReader {
    DeltaTableReader::new("/data/table", 1, &vec!["part-0.parquet".to_string()], ConnectorMode::Static)
}

#[test]
fn d_initial_yields_inserts_then_finished() {
    let mut reader = initial_reader();
    assert_eq!(reader.read_step(false), DeltaReadStep::OpenFile);
    let file = reader.next_file().unwrap();
    assert_eq!(file.path(), "/data/table/part-0.parquet");
    assert_eq!(file.action_type(), DataEventType::Insert);
    assert_eq!(reader.read_step(true), DeltaReadStep::PullRow);
    let events = read_rows(&mut reader, 3);
    assert_eq!(
        events,
        vec![
            (DataEventType::Insert, offset(1, 1, None)),
            (DataEventType::Insert, offset(1, 2, None)),
            (DataEventType::Insert, offset(1, 3, None)),
        ]
    );
    assert_eq!(reader.read_step(false), DeltaReadStep::Advance);
    advance(&mut reader, &mut vec![]).unwrap();
    assert!(!reader.has_queued_files());
    assert_eq!(reader.current_version(), 1);
}

#[test]
fn d_stream_picks_up_next_commit() {
    let mut reader = initial_reader();
    reader.next_file().unwrap();
    read_rows(&mut reader, 3);
    let mut commits = vec![(2, vec![add("part-1.parquet", true)])];
    advance(&mut reader, &mut commits).unwrap();
    let file = reader.next_file().unwrap();
    assert_eq!(file.path(), "/data/table/part-1.parquet");
    let events = read_rows(&mut reader, 1);
    assert_eq!(events, vec![(DataEventType::Insert, offset(2, 1, Some(1)))]);
}

#[test]
fn d_rewind_midfile() {
    let mut reader = DeltaTableReader::new(
        "/data/table",
        2,
        &vec!["a.parquet".to_string(), "b.parquet".to_string()],
        ConnectorMode::Static,
    );
    let target = offset(2, 3, Some(1));
    let version_to_load = reader.begin_seek(&target);
    assert_eq!(version_to_load, 1);
    let mut commits = vec![(2, vec![add("a.parquet", true), add("b.parquet", true)])];
    advance(&mut reader, &mut commits).unwrap();
    assert!(reader.try_skip_head_file(2, 3));
    assert!(!reader.try_skip_head_file(2, 3));
    assert_eq!(reader.rows_read_within_version(), 2);
    let left = reader.rows_left_to_rewind(3);
    assert_eq!(left, 1);
    let file = reader.next_file().unwrap();
    assert_eq!(file.path(), "/data/table/b.parquet");
    read_rows(&mut reader, left as usize);
    let events = read_rows(&mut reader, 1);
    assert_eq!(events, vec![(DataEventType::Insert, offset(2, 4, Some(1)))]);
    assert_eq!(reader.read_step(false), DeltaReadStep::Advance);
    advance(&mut reader, &mut vec![]).unwrap();
    assert!(!reader.has_queued_files());
}

#[test]
fn d_rewind_without_last_version_uses_listing() {
    let mut reader = initial_reader();
    let version_to_load = reader.begin_seek(&offset(1, 1, None));
    assert_eq!(version_to_load, 1);
    reader.reseed_from_listing(&vec!["part-0.parquet".to_string()]);
    assert!(!reader.try_skip_head_file(3, 1));
    assert_eq!(reader.rows_left_to_rewind(1), 1);
    reader.next_file().unwrap();
    read_rows(&mut reader, 1);
    assert_eq!(read_rows(&mut reader, 1), vec![(DataEventType::Insert, offset(1, 2, None))]);
}

#[test]
fn d_deletion_vector_is_rejected() {
    let mut reader = initial_reader();
    reader.next_file().unwrap();
    let actions = vec![add("x.parquet", true), remove("part-0.parquet", true, true)];
    reader.begin_advance();
    assert_eq!(reader.apply_commit(2, &actions), Err(DeltaReadError::DeletionVectorsUnsupported));
    assert_eq!(reader.current_version(), 1);
}

#[test]
fn d_metadata_only_commit_is_transparent() {
    let mut reader = initial_reader();
    reader.next_file().unwrap();
    read_rows(&mut reader, 3);
    let mut commits = vec![
        (2, vec![CommitAction::Other, add("m.parquet", false)]),
        (3, vec![remove("part-0.parquet", true, false)]),
    ];
    advance(&mut reader, &mut commits).unwrap();
    assert_eq!(reader.current_version(), 3);
    assert_eq!(reader.last_fully_read_version(), Some(2));
    let file = reader.next_file().unwrap();
    assert_eq!(file.action_type(), DataEventType::Delete);
    assert_eq!(file.path(), "/data/table/part-0.parquet");
    assert_eq!(read_rows(&mut reader, 1), vec![(DataEventType::Delete, offset(3, 1, Some(2)))]);
}

#[test]
fn d_offsets_never_go_back() {
    let mut reader = initial_reader();
    reader.next_file().unwrap();
    let mut seen = read_rows(&mut reader, 2);
    let mut commits = vec![(4, vec![add("p.parquet", true), remove("q.parquet", true, false)])];
    advance(&mut reader, &mut commits).unwrap();
    reader.next_file().unwrap();
    seen.extend(read_rows(&mut reader, 2));
    reader.next_file().unwrap();
    seen.extend(read_rows(&mut reader, 1));
    for pair in seen.windows(2) {
        let (a, b) = (pair[0].1, pair[1].1);
        assert!((a.version, a.rows_read_within_version) <= (b.version, b.rows_read_within_version));
    }
    assert_eq!(seen[2].1, offset(4, 1, Some(1)));
    assert_eq!(seen[4], (DataEventType::Delete, offset(4, 3, Some(1))));
}

#[test]
fn absolute_paths() {
    assert_eq!(ensure_absolute_path_with_base("f.parquet", "s3://b/t"), "s3://b/t/f.parquet");
    assert_eq!(ensure_absolute_path_with_base("f.parquet", "s3://b/t/"), "s3://b/t/f.parquet");
    assert_eq!(ensure_absolute_path_with_base("s3://b/t/f.parquet", "s3://b/t"), "s3://b/t/f.parquet");
    assert_eq!(ensure_absolute_path_with_base("f", ""), "f");
    assert_eq!(ensure_absolute_path_with_base("t2/f", "t"), "t2/f");
}

#[test]
fn poll_backoff_doubles_up_to_cap() {
    assert_eq!(next_poll_duration_ms(5), 10);
    assert_eq!(next_poll_duration_ms(40), 80);
    assert_eq!(next_poll_duration_ms(80), 100);
    assert_eq!(next_poll_duration_ms(100), 100);
}

#[test]
fn reader_action_and_identity() {
    let action = DeltaReaderAction::new(DataEventType::Delete, "p".to_string());
    assert_eq!(action.action_type(), DataEventType::Delete);
    assert_eq!(action.path(), "p");
    let mut reader = initial_reader();
    assert_eq!(reader.storage_type(), StorageType::DeltaLake);
    assert_eq!(reader.persistent_id(), None);
    reader.update_persistent_id(Some(7));
    assert_eq!(reader.persistent_id(), Some(7));
    assert!(!reader.is_polling_enabled());
    assert_eq!(reader.base_path(), "/data/table");
}

#[test]
fn unchanged_log_stops_or_backs_off() {
    assert_eq!(no_new_commit_step(false, 5), PollStep::Stop);
    assert_eq!(no_new_commit_step(true, 5), PollStep::Sleep { wait_ms: 5, next_wait_ms: 10 });
    assert_eq!(no_new_commit_step(true, 100), PollStep::Sleep { wait_ms: 100, next_wait_ms: 100 });
}

#[test]
fn successive_offsets_count_up_or_restart() {
    let mut reader = initial_reader();
    reader.next_file().unwrap();
    let first = read_rows(&mut reader, 1)[0].1;
    let mut commits = vec![(2, vec![CommitAction::Other]), (3, vec![add("n.parquet", true)])];
    advance(&mut reader, &mut commits).unwrap();
    reader.next_file().unwrap();
    let second = read_rows(&mut reader, 1)[0].1;
    assert!(second.version > first.version);
    assert_eq!(second.rows_read_within_version, 1);
    let third = read_rows(&mut reader, 1)[0].1;
    assert_eq!((third.version, third.rows_read_within_version), (second.version, 2));
}
