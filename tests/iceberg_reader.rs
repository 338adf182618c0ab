use data_lake::delta::{ConnectorMode, DataEventType, StorageType};
use data_lake::iceberg::{
    table_plans_difference, FileScanTask, FileScanTaskDescriptor, IcebergDBParams, IcebergReadStep,
    IcebergReader, ReadResult,
};

fn task(path: &str) -> FileScanTask {
    FileScanTask {
        data_file_path: path.to_string(),
        start: 0,
        length: 100,
    }
}

fn paths(tasks: &[FileScanTask]) -> Vec<String> {
    tasks.iter().map(|t| t.data_file_path.clone()).collect()
}

fn drain(reader: &mut IcebergReader<&'static str>) -> Vec<ReadResult<&'static str>> {
    let mut out = Vec::new();
    loop {
        match reader.read() {
            IcebergReadStep::Emit(ReadResult::Finished) => return out,
            IcebergReadStep::Emit(r) => out.push(r),
            IcebergReadStep::AwaitSnapshot => return out,
        }
    }
}

/// Moves the reader to a snapshot whose plan is `plan`; rows are named after their file.
fn move_to(reader: &mut IcebergReader<&'static str>, snapshot_id: i64, plan: Vec<FileScanTask>) {
    assert!(reader.is_new_snapshot(Some(snapshot_id)));
    let (ins, del) = reader.plan_changes(&plan);
    let rows = |tasks: &Vec<FileScanTask>| -> Vec<&'static str> {
        tasks
            .iter()
            .map(|t| match t.data_file_path.as_str() {
                "F1" => "R1",
                "F2" => "R2",
                _ => "R3",
            })
            .collect()
    };
    let (ins_rows, del_rows) = (rows(&ins), rows(&del));
    reader.install_snapshot(snapshot_id, plan, ins_rows, del_rows);
}

fn expected_second_diff() -> Vec<ReadResult<&'static str>> {
    vec![
        ReadResult::NewSource { snapshot_id: 20 },
        ReadResult::Data { event_type: DataEventType::Insert, row: "R3", snapshot_id: 20 },
        ReadResult::Data { event_type: DataEventType::Delete, row: "R1", snapshot_id: 20 },
        ReadResult::FinishedSource { commit_allowed: true },
    ]
}

#[test]
fn i_snapshot_diff() {
    let mut reader = IcebergReader::new(ConnectorMode::Streaming);
    assert_eq!(reader.read(), IcebergReadStep::AwaitSnapshot);
    move_to(&mut reader, 10, vec![task("F1"), task("F2")]);
    let first = drain(&mut reader);
    assert_eq!(
        first,
        vec![
            ReadResult::NewSource { snapshot_id: 10 },
            ReadResult::Data { event_type: DataEventType::Insert, row: "R1", snapshot_id: 10 },
            ReadResult::Data { event_type: DataEventType::Insert, row: "R2", snapshot_id: 10 },
            ReadResult::FinishedSource { commit_allowed: true },
        ]
    );
    assert!(!reader.is_new_snapshot(Some(10)));
    assert!(!reader.is_new_snapshot(None));
    move_to(&mut reader, 20, vec![task("F2"), task("F3")]);
    assert_eq!(drain(&mut reader), expected_second_diff());
}

#[test]
fn i_resume() {
    let mut reader = IcebergReader::new(ConnectorMode::Static);
    reader.seek(10, vec![task("F1"), task("F2")]);
    assert_eq!(reader.current_snapshot_id(), Some(10));
    assert_eq!(reader.read(), IcebergReadStep::AwaitSnapshot);
    move_to(&mut reader, 20, vec![task("F2"), task("F3")]);
    assert_eq!(drain(&mut reader), expected_second_diff());
    assert_eq!(reader.read(), IcebergReadStep::Emit(ReadResult::Finished));
}

#[test]
fn i_unchanged_plan_gives_no_events() {
    let mut reader = IcebergReader::new(ConnectorMode::Static);
    reader.seek(10, vec![task("F1")]);
    assert_eq!(reader.read(), IcebergReadStep::AwaitSnapshot);
    move_to(&mut reader, 11, vec![task("F1")]);
    assert_eq!(reader.current_snapshot_id(), Some(11));
    assert_eq!(reader.read(), IcebergReadStep::Emit(ReadResult::Finished));
}

#[test]
fn plan_difference_keys_on_path_start_and_length() {
    let a = vec![task("F1"), task("F2"), FileScanTask { data_file_path: "F3".to_string(), start: 5, length: 10 }];
    let b = vec![task("F2"), FileScanTask { data_file_path: "F3".to_string(), start: 0, length: 10 }];
    assert_eq!(paths(&table_plans_difference(&a, &b)), vec!["F1".to_string(), "F3".to_string()]);
    assert_eq!(paths(&table_plans_difference(&b, &a)), vec!["F3".to_string()]);
    assert!(table_plans_difference(&a, &a).is_empty());
}

#[test]
fn descriptor_and_params() {
    let d = FileScanTaskDescriptor::for_task(&FileScanTask { data_file_path: "x".to_string(), start: 3, length: 4 });
    assert_eq!(d.data_file_path(), "x");
    assert_eq!((d.start(), d.length()), (3, 4));
    let p = IcebergDBParams::new("http://c".to_string(), None, vec!["ns".to_string()]);
    assert_eq!(p.get_uri(), "http://c");
    assert_eq!(p.get_warehouse(), &None);
    assert_eq!(p.get_namespace(), &vec!["ns".to_string()]);
    let mut reader: IcebergReader<&'static str> = IcebergReader::new(ConnectorMode::Streaming);
    assert!(reader.is_polling_enabled());
    assert_eq!(reader.storage_type(), StorageType::Iceberg);
    reader.update_persistent_id(Some(3));
    assert_eq!(reader.persistent_id(), Some(3));
}

#[test]
fn repeated_scan_ranges_count_once() {
    let mut reader: IcebergReader<&'static str> = IcebergReader::new(ConnectorMode::Static);
    reader.seek(10, vec![task("F1"), task("F1"), task("F2")]);
    assert_eq!(reader.read(), IcebergReadStep::AwaitSnapshot);
    let (ins, del) = reader.plan_changes(&vec![task("F2")]);
    assert!(ins.is_empty());
    assert_eq!(paths(&del), vec!["F1".to_string()]);
}
