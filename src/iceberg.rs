use vstd::prelude::*;
use std::collections::VecDeque;

use crate::delta::{ConnectorMode, DataEventType, PersistentId, StorageType};
use crate::types::{iceberg_type_of, same_type, unwrap_optional, is_iceberg_schema, all_iceberg_mappable, iceberg_schema_fields, IcebergField, ValueField, WriteError};

verus! {

/// Where the catalog of iceberg tables is, and the namespace that holds the table.
pub struct IcebergDBParams {
    uri: String,
    warehouse: Option<String>,
    namespace: Vec<String>,
}

impl IcebergDBParams {
    pub fn new(uri: String, warehouse: Option<String>, namespace: Vec<String>) -> (r: Self)
        ensures
            r.uri() == uri,
            r.warehouse() == warehouse,
            r.namespace() == namespace,
    {
        Self { uri, warehouse, namespace }
    }

    pub closed spec fn uri(&self) -> String {
        self.uri
    }

    pub closed spec fn warehouse(&self) -> Option<String> {
        self.warehouse
    }

    pub closed spec fn namespace(&self) -> Vec<String> {
        self.namespace
    }

    pub fn get_uri(&self) -> (r: &String)
        ensures
            *r == self.uri(),
    {
        &self.uri
    }

    pub fn get_warehouse(&self) -> (r: &Option<String>)
        ensures
            *r == self.warehouse(),
    {
        &self.warehouse
    }

    pub fn get_namespace(&self) -> (r: &Vec<String>)
        ensures
            *r == self.namespace(),
    {
        &self.namespace
    }
}

/// The name of an iceberg table and the columns it is created with.
pub struct IcebergTableParams {
    name: String,
    schema: Vec<IcebergField>,
}

impl IcebergTableParams {
    /// Fails with `UnsupportedType` where a field has no iceberg column type.
    pub fn new(name: String, fields: &[ValueField]) -> (r: Result<Self, WriteError>)
        requires
            fields@.len() + 2 <= i32::MAX,
        ensures
            r is Ok <==> all_iceberg_mappable(fields@),
            r matches Ok(p) ==> p.name() == name && is_iceberg_schema(fields@, p.schema()@),
            r matches Err(WriteError::UnsupportedType(u)) ==> exists|i: int|
                0 <= i < fields@.len() && all_iceberg_mappable(fields@.take(i)) && (#[trigger] iceberg_type_of(
                    fields@[i].type_,
                )) is None && same_type(unwrap_optional(fields@[i].type_), u),
            r matches Err(e) ==> e is UnsupportedType,
    {
        let schema = match iceberg_schema_fields(fields) {
            Ok(s) => s,
            Err(e) => {
                return Err(e);
            },
        };
        Ok(Self { name, schema })
    }

    pub closed spec fn name(&self) -> String {
        self.name
    }

    pub closed spec fn schema(&self) -> Vec<IcebergField> {
        self.schema
    }

    pub fn get_name(&self) -> (r: &String)
        ensures
            *r == self.name(),
    {
        &self.name
    }

    pub fn get_schema(&self) -> (r: &Vec<IcebergField>)
        ensures
            *r == self.schema(),
    {
        &self.schema
    }
}

/// A scan range of a snapshot's file plan: part of one data file.
pub struct FileScanTask {
    pub data_file_path: String,
    pub start: u64,
    pub length: u64,
}

/// What tells two scan ranges of file plans apart.
pub struct FileScanTaskDescriptor {
    data_file_path: String,
    start: u64,
    length: u64,
}

/// A scan range as mathematical values.
pub open spec fn task_key(t: FileScanTask) -> (Seq<char>, u64, u64) {
    (t.data_file_path@, t.start, t.length)
}

impl View for FileScanTaskDescriptor {
    type V = (Seq<char>, u64, u64);

    closed spec fn view(&self) -> (Seq<char>, u64, u64) {
        (self.data_file_path@, self.start, self.length)
    }
}

impl FileScanTaskDescriptor {
    pub fn for_task(task: &FileScanTask) -> (r: Self)
        ensures
            r@ == task_key(*task),
    {
        Self { data_file_path: task.data_file_path.clone(), start: task.start, length: task.length }
    }

    pub fn data_file_path(&self) -> (r: &String)
        ensures
            r@ == self@.0,
    {
        &self.data_file_path
    }

    pub fn start(&self) -> (r: u64)
        ensures
            r == self@.1,
    {
        self.start
    }

    pub fn length(&self) -> (r: u64)
        ensures
            r == self@.2,
    {
        self.length
    }
}

/// A copy of a scan range.
fn copy_task(t: &FileScanTask) -> (r: FileScanTask)
    ensures
        task_key(r) == task_key(*t),
{
    FileScanTask { data_file_path: t.data_file_path.clone(), start: t.start, length: t.length }
}

/// The keys of a file plan.
pub open spec fn plan_keys(plan: Seq<FileScanTask>) -> Seq<(Seq<char>, u64, u64)> {
    plan.map_values(|t: FileScanTask| task_key(t))
}

/// The scan ranges of `model` whose key no range of `other` has, in the order of `model`.
pub open spec fn plan_difference(
    model: Seq<(Seq<char>, u64, u64)>,
    other: Seq<(Seq<char>, u64, u64)>,
) -> Seq<(Seq<char>, u64, u64)> {
    model.filter(|k: (Seq<char>, u64, u64)| !other.contains(k))
}

/// Whether some range of `plan` has the key `key`.
fn plan_contains(plan: &Vec<FileScanTask>, key: &FileScanTask) -> (r: bool)
    ensures
        r == plan_keys(plan@).contains(task_key(*key)),
{
    for i in 0..plan.len()
        invariant
            !plan_keys(plan@).take(i as int).contains(task_key(*key)),
    {
        let t = &plan[i];
        if t.start == key.start && t.length == key.length && t.data_file_path == key.data_file_path {
            assert(plan_keys(plan@)[i as int] == task_key(*key));
            return true;
        }
        assert(plan_keys(plan@).take(i + 1) =~= plan_keys(plan@).take(i as int).push(plan_keys(plan@)[i as int]));
    }
    assert(plan_keys(plan@).take(plan@.len() as int) =~= plan_keys(plan@));
    false
}

/// The ranges that are in the plan `model` but not in the plan `other`.
pub fn table_plans_difference(model: &Vec<FileScanTask>, other: &Vec<FileScanTask>) -> (r: Vec<FileScanTask>)
    ensures
        plan_keys(r@) == plan_difference(plan_keys(model@), plan_keys(other@)),
{
    let mut r: Vec<FileScanTask> = Vec::new();
    for i in 0..model.len()
        invariant
            plan_keys(r@) == plan_difference(plan_keys(model@).take(i as int), plan_keys(other@)),
    {
        let ghost before = r@;
        let ghost pre = plan_keys(model@).take(i as int);
        assert(plan_keys(model@).take(i + 1) =~= pre.push(plan_keys(model@)[i as int]));
        reveal(Seq::filter);
        assert(pre.push(plan_keys(model@)[i as int]).drop_last() =~= pre);
        if !plan_contains(other, &model[i]) {
            r.push(copy_task(&model[i]));
            assert(plan_keys(r@) =~= plan_keys(before).push(task_key(model@[i as int])));
        } else {
            assert(plan_keys(r@) =~= plan_keys(before));
        }
    }
    assert(plan_keys(model@).take(model@.len() as int) =~= plan_keys(model@));
    r
}


/// The keys in order of first occurrence, each once: a plan keyed by its scan ranges.
pub open spec fn dedup_keys(ks: Seq<(Seq<char>, u64, u64)>) -> Seq<(Seq<char>, u64, u64)>
    decreases ks.len(),
{
    if ks.len() == 0 {
        Seq::empty()
    } else {
        let d = dedup_keys(ks.drop_last());
        if d.contains(ks.last()) {
            d
        } else {
            d.push(ks.last())
        }
    }
}

/// A deduplicated plan holds each key of the plan exactly once.
pub proof fn lemma_dedup_keys(ks: Seq<(Seq<char>, u64, u64)>)
    ensures
        dedup_keys(ks).no_duplicates(),
        forall|k: (Seq<char>, u64, u64)| #[trigger] dedup_keys(ks).contains(k) <==> ks.contains(k),
    decreases ks.len(),
{
    if ks.len() > 0 {
        let rest = ks.drop_last();
        lemma_dedup_keys(rest);
        let d = dedup_keys(rest);
        let last = ks.last();
        assert forall|k: (Seq<char>, u64, u64)| #[trigger] ks.contains(k) <==> (rest.contains(k) || k == last) by {
            if ks.contains(k) {
                let i = choose|i: int| 0 <= i < ks.len() && ks[i] == k;
                if i < ks.len() - 1 {
                    assert(rest[i] == k);
                }
            }
            if rest.contains(k) {
                let i = choose|i: int| 0 <= i < rest.len() && rest[i] == k;
                assert(ks[i] == k);
            }
            if k == last {
                assert(ks[ks.len() - 1] == k);
            }
        }
        let e = d.push(last);
        assert forall|k: (Seq<char>, u64, u64)| #[trigger] e.contains(k) <==> (d.contains(k) || k == last) by {
            if e.contains(k) {
                let i = choose|i: int| 0 <= i < e.len() && e[i] == k;
                if i < d.len() {
                    assert(d[i] == k);
                }
            }
            if d.contains(k) {
                let i = choose|i: int| 0 <= i < d.len() && d[i] == k;
                assert(e[i] == k);
            }
            if k == last {
                assert(e[d.len() as int] == k);
            }
        }
        if !d.contains(ks.last()) {
            let e = d.push(ks.last());
            assert forall|i: int, j: int| 0 <= i < e.len() && 0 <= j < e.len() && i != j implies e[i] != e[j] by {
                if i < d.len() && j < d.len() {
                } else if i < d.len() {
                    assert(d.contains(d[i]));
                } else {
                    assert(d.contains(d[j]));
                }
            }
        }
    }
}

/// The plan with later ranges of an already seen key left out.
fn dedup_plan(plan: &Vec<FileScanTask>) -> (r: Vec<FileScanTask>)
    ensures
        plan_keys(r@) == dedup_keys(plan_keys(plan@)),
{
    let mut r: Vec<FileScanTask> = Vec::new();
    for i in 0..plan.len()
        invariant
            plan_keys(r@) == dedup_keys(plan_keys(plan@).take(i as int)),
    {
        let ghost before = r@;
        let ghost next = plan_keys(plan@).take(i + 1);
        assert(next.drop_last() =~= plan_keys(plan@).take(i as int));
        assert(next.last() == task_key(plan@[i as int]));
        if !plan_contains(&r, &plan[i]) {
            r.push(copy_task(&plan[i]));
            assert(plan_keys(r@) =~= plan_keys(before).push(task_key(plan@[i as int])));
        }
    }
    assert(plan_keys(plan@).take(plan@.len() as int) =~= plan_keys(plan@));
    r
}

/// No event of a move to a snapshot is `Finished`.
proof fn lemma_snapshot_events_unfinished<R>(snapshot_id: IcebergSnapshotId, inserted: Seq<R>, deleted: Seq<R>)
    ensures
        forall|i: int|
            0 <= i < snapshot_events(snapshot_id, inserted, deleted).len() ==> !(#[trigger] snapshot_events(
                snapshot_id,
                inserted,
                deleted,
            )[i] is Finished),
{
    let ev = snapshot_events(snapshot_id, inserted, deleted);
    assert forall|i: int| 0 <= i < ev.len() implies !(#[trigger] ev[i] is Finished) by {
        if inserted.len() + deleted.len() > 0 {
            let ni = inserted.len() as int;
            let nd = deleted.len() as int;
            if 1 <= i < 1 + ni {
                assert(ev[i] == data_events(inserted, DataEventType::Insert, snapshot_id)[i - 1]);
            } else if 1 + ni <= i < 1 + ni + nd {
                assert(ev[i] == data_events(deleted, DataEventType::Delete, snapshot_id)[i - 1 - ni]);
            }
        }
    }
}

/// Identifier of a snapshot of an iceberg table.
pub type IcebergSnapshotId = i64;

/// What a reader hands to the engine.
#[derive(Debug, PartialEq, Eq)]
pub enum ReadResult<R> {
    /// A row that enters or leaves the table; reading can resume after the snapshot.
    Data { event_type: DataEventType, row: R, snapshot_id: IcebergSnapshotId },
    /// The rows of the snapshot `snapshot_id` begin.
    NewSource { snapshot_id: IcebergSnapshotId },
    /// The rows of a snapshot are over.
    FinishedSource { commit_allowed: bool },
    /// The table has nothing more to give.
    Finished,
}

/// What the reader asks of its caller.
#[derive(Debug, PartialEq, Eq)]
pub enum IcebergReadStep<R> {
    /// Hand this to the engine.
    Emit(ReadResult<R>),
    /// Wait for a snapshot other than the current one and hand it to `install_snapshot`.
    AwaitSnapshot,
}

/// Each row as a data event of the given type and snapshot.
pub open spec fn data_events<R>(rows: Seq<R>, event_type: DataEventType, snapshot_id: IcebergSnapshotId) -> Seq<ReadResult<R>> {
    rows.map_values(|row: R| ReadResult::Data { event_type, row, snapshot_id })
}

/// The events of the move to the snapshot `snapshot_id`: nothing where no row changed;
/// otherwise a start marker, the inserted rows, the deleted rows and an end marker.
pub open spec fn snapshot_events<R>(snapshot_id: IcebergSnapshotId, inserted: Seq<R>, deleted: Seq<R>) -> Seq<ReadResult<R>> {
    if inserted.len() + deleted.len() == 0 {
        Seq::empty()
    } else {
        seq![ReadResult::NewSource { snapshot_id }]
            + data_events(inserted, DataEventType::Insert, snapshot_id)
            + data_events(deleted, DataEventType::Delete, snapshot_id)
            + seq![ReadResult::FinishedSource { commit_allowed: true }]
    }
}

/// Appends each row to the queue as a data event.
fn push_data_events<R>(
    queue: &mut VecDeque<ReadResult<R>>,
    rows: Vec<R>,
    event_type: DataEventType,
    snapshot_id: IcebergSnapshotId,
)
    ensures
        final(queue)@ == old(queue)@ + data_events(rows@, event_type, snapshot_id),
{
    let ghost q0 = queue@;
    let ghost all = rows@;
    for row in it: rows.into_iter()
        invariant
            it.seq() == all,
            queue@ == q0 + data_events(all.take(it.index() as int), event_type, snapshot_id),
    {
        let ghost k = it.index();
        queue.push_back(ReadResult::Data { event_type, row, snapshot_id });
        assert(all.take(k + 1) =~= all.take(k as int).push(all[k as int]));
        assert(queue@ =~= q0 + data_events(all.take(k + 1), event_type, snapshot_id));
    }
    assert(all.take(all.len() as int) =~= all);
}

/// The iceberg reader's state as mathematical values.
pub struct IcebergReaderState<R> {
    pub polling: bool,
    pub current_snapshot_id: Option<IcebergSnapshotId>,
    pub current_table_plan: Seq<(Seq<char>, u64, u64)>,
    pub diff_queue: Seq<ReadResult<R>>,
    pub is_initialized: bool,
}

/// A reader that follows the snapshots of an iceberg table by comparing file plans.
///
/// It decides what comes next; the catalog, the plans and the decoded rows are handled
/// by the caller, which hands in what the table holds.
pub struct IcebergReader<R> {
    streaming_mode: ConnectorMode,
    current_table_plan: Vec<FileScanTask>,
    current_snapshot_id: Option<IcebergSnapshotId>,
    diff_queue: VecDeque<ReadResult<R>>,
    is_initialized: bool,
    persistent_id: Option<PersistentId>,
}

impl<R> View for IcebergReader<R> {
    type V = IcebergReaderState<R>;

    closed spec fn view(&self) -> IcebergReaderState<R> {
        IcebergReaderState {
            polling: self.streaming_mode == ConnectorMode::Streaming,
            current_snapshot_id: self.current_snapshot_id,
            current_table_plan: plan_keys(self.current_table_plan@),
            diff_queue: self.diff_queue@,
            is_initialized: self.is_initialized,
        }
    }
}

impl<R> IcebergReader<R> {
    /// A reader that has seen no snapshot yet.
    pub fn new(streaming_mode: ConnectorMode) -> (r: Self)
        ensures
            r.wf(),
            r@ == (IcebergReaderState::<R> {
                polling: streaming_mode == ConnectorMode::Streaming,
                current_snapshot_id: None,
                current_table_plan: Seq::empty(),
                diff_queue: Seq::empty(),
                is_initialized: false,
            }),
    {
        let r = Self {
            streaming_mode,
            current_table_plan: Vec::new(),
            current_snapshot_id: None,
            diff_queue: VecDeque::new(),
            is_initialized: false,
            persistent_id: None,
        };
        assert(plan_keys(r.current_table_plan@) =~= Seq::empty());
        r
    }

    /// The next thing to do: hand out the head of the queue; else, once in a static
    /// reader and always in a polling one, wait for a new snapshot; else finish.
    pub fn read(&mut self) -> (r: IcebergReadStep<R>)
        requires
            old(self).wf(),
        ensures
            final(self).wf(),
            old(self)@.diff_queue.len() > 0 ==> (r matches IcebergReadStep::Emit(e) && e
                == old(self)@.diff_queue[0] && final(self)@ == (IcebergReaderState {
                diff_queue: old(self)@.diff_queue.drop_first(),
                ..old(self)@
            })),
            old(self)@.diff_queue.len() == 0 && (old(self)@.polling || !old(self)@.is_initialized) ==> (
            r is AwaitSnapshot && final(self)@ == (IcebergReaderState {
                is_initialized: true,
                ..old(self)@
            })),
            old(self)@.diff_queue.len() == 0 && !old(self)@.polling && old(self)@.is_initialized ==> (
            r matches IcebergReadStep::Emit(ReadResult::Finished) && final(self)@ == old(self)@),
    {
        if let Some(result) = self.diff_queue.pop_front() {
            return IcebergReadStep::Emit(result);
        }
        if self.streaming_mode.is_polling_enabled() || !self.is_initialized {
            self.is_initialized = true;
            IcebergReadStep::AwaitSnapshot
        } else {
            IcebergReadStep::Emit(ReadResult::Finished)
        }
    }

    /// Whether the snapshot that the catalog reports is one to move to: there is one,
    /// and it is not the current one.
    pub fn is_new_snapshot(&self, available: Option<IcebergSnapshotId>) -> (r: bool)
        ensures
            r == (available is Some && available != self@.current_snapshot_id),
    {
        match available {
            None => false,
            Some(id) => match self.current_snapshot_id {
                None => true,
                Some(cur) => id != cur,
            },
        }
    }

    /// The ranges that the plan `updated_plan` adds to the current plan, and those that it
    /// takes away.
    pub fn plan_changes(&self, updated_plan: &Vec<FileScanTask>) -> (r: (Vec<FileScanTask>, Vec<FileScanTask>))
        ensures
            plan_keys(r.0@) == plan_difference(plan_keys(updated_plan@), self@.current_table_plan),
            plan_keys(r.1@) == plan_difference(self@.current_table_plan, plan_keys(updated_plan@)),
    {
        let insertion_tasks = table_plans_difference(updated_plan, &self.current_table_plan);
        let deletion_tasks = table_plans_difference(&self.current_table_plan, updated_plan);
        (insertion_tasks, deletion_tasks)
    }

    /// Moves to the snapshot `snapshot_id` with the file plan `updated_plan`, whose new
    /// ranges hold `inserted_rows` and whose vanished ranges held `deleted_rows`: their
    /// events join the queue.
    pub fn install_snapshot(
        &mut self,
        snapshot_id: IcebergSnapshotId,
        updated_plan: Vec<FileScanTask>,
        inserted_rows: Vec<R>,
        deleted_rows: Vec<R>,
    )
        requires
            old(self).wf(),
        ensures
            final(self).wf(),
            final(self)@ == (IcebergReaderState {
                current_snapshot_id: Some(snapshot_id),
                current_table_plan: dedup_keys(plan_keys(updated_plan@)),
                diff_queue: old(self)@.diff_queue + snapshot_events(snapshot_id, inserted_rows@, deleted_rows@),
                ..old(self)@
            }),
    {
        let changed = inserted_rows.len() > 0 || deleted_rows.len() > 0;
        let ghost ins = inserted_rows@;
        let ghost del = deleted_rows@;
        let ghost q0 = self.diff_queue@;
        if changed {
            self.diff_queue.push_back(ReadResult::NewSource { snapshot_id });
            push_data_events(&mut self.diff_queue, inserted_rows, DataEventType::Insert, snapshot_id);
            push_data_events(&mut self.diff_queue, deleted_rows, DataEventType::Delete, snapshot_id);
            self.diff_queue.push_back(ReadResult::FinishedSource { commit_allowed: true });
            assert(self.diff_queue@ =~= q0 + snapshot_events(snapshot_id, ins, del));
        } else {
            assert(snapshot_events(snapshot_id, ins, del) =~= Seq::empty());
            assert(self.diff_queue@ =~= q0 + snapshot_events(snapshot_id, ins, del));
        }
        self.current_snapshot_id = Some(snapshot_id);
        self.current_table_plan = dedup_plan(&updated_plan);
        proof {
            lemma_dedup_keys(plan_keys(updated_plan@));
            lemma_snapshot_events_unfinished(snapshot_id, ins, del);
            let ev = snapshot_events(snapshot_id, ins, del);
            assert forall|i: int| 0 <= i < self@.diff_queue.len() implies !(#[trigger] self@.diff_queue[i] is Finished) by {
                if i >= q0.len() {
                    assert(self@.diff_queue[i] == ev[i - q0.len()]);
                } else {
                    assert(self@.diff_queue[i] == q0[i]);
                }
            }
        }
    }

    /// Rewinds to just after the snapshot `snapshot_id`, whose file plan is `plan`: the
    /// next snapshot read is compared with it.
    pub fn seek(&mut self, snapshot_id: IcebergSnapshotId, plan: Vec<FileScanTask>)
        requires
            old(self).wf(),
        ensures
            final(self).wf(),
            final(self)@ == (IcebergReaderState {
                current_snapshot_id: Some(snapshot_id),
                current_table_plan: dedup_keys(plan_keys(plan@)),
                ..old(self)@
            }),
    {
        self.current_table_plan = dedup_plan(&plan);
        self.current_snapshot_id = Some(snapshot_id);
        proof {
            lemma_dedup_keys(plan_keys(plan@));
        }
    }

    /// Well-formed: the plan holds each scan range once, and the queue holds no end of
    /// the table.
    pub open spec fn wf(&self) -> bool {
        &&& self@.current_table_plan.no_duplicates()
        &&& forall|i: int| 0 <= i < self@.diff_queue.len() ==> !(#[trigger] self@.diff_queue[i] is Finished)
    }

    pub fn has_pending_results(&self) -> (r: bool)
        ensures
            r == (self@.diff_queue.len() > 0),
    {
        self.diff_queue.len() > 0
    }

    pub fn current_snapshot_id(&self) -> (r: Option<IcebergSnapshotId>)
        ensures
            r == self@.current_snapshot_id,
    {
        self.current_snapshot_id
    }

    pub fn is_polling_enabled(&self) -> (r: bool)
        ensures
            r == self@.polling,
    {
        self.streaming_mode.is_polling_enabled()
    }

    pub fn update_persistent_id(&mut self, persistent_id: Option<PersistentId>)
        ensures
            final(self)@ == old(self)@,
            final(self).persistent_id_spec() == persistent_id,
    {
        self.persistent_id = persistent_id;
    }

    pub closed spec fn persistent_id_spec(&self) -> Option<PersistentId> {
        self.persistent_id
    }

    pub fn persistent_id(&self) -> (r: Option<PersistentId>)
        ensures
            r == self.persistent_id_spec(),
    {
        self.persistent_id
    }

    pub fn storage_type(&self) -> (r: StorageType)
        ensures
            r == StorageType::Iceberg,
    {
        StorageType::Iceberg
    }
}


/// The ranges that a move between two plans inserts are exactly those of the new plan
/// missing from the old one, and those it deletes exactly those of the old plan missing
/// from the new one.
pub proof fn lemma_plan_changes_are_set_differences(
    old_plan: Seq<(Seq<char>, u64, u64)>,
    new_plan: Seq<(Seq<char>, u64, u64)>,
)
    ensures
        forall|k: (Seq<char>, u64, u64)|
            #[trigger] plan_difference(new_plan, old_plan).contains(k) <==> (new_plan.contains(k)
                && !old_plan.contains(k)),
        forall|k: (Seq<char>, u64, u64)|
            #[trigger] plan_difference(old_plan, new_plan).contains(k) <==> (old_plan.contains(k)
                && !new_plan.contains(k)),
{
    lemma_difference_members(new_plan, old_plan);
    lemma_difference_members(old_plan, new_plan);
}

proof fn lemma_difference_members(model: Seq<(Seq<char>, u64, u64)>, other: Seq<(Seq<char>, u64, u64)>)
    ensures
        forall|k: (Seq<char>, u64, u64)|
            #[trigger] plan_difference(model, other).contains(k) <==> (model.contains(k) && !other.contains(k)),
{
    let f = |k: (Seq<char>, u64, u64)| !other.contains(k);
    assert forall|k: (Seq<char>, u64, u64)|
        #[trigger] plan_difference(model, other).contains(k) <==> (model.contains(k) && !other.contains(k)) by {
        if plan_difference(model, other).contains(k) {
            model.lemma_filter_contains_rev(f, k);
            let i = choose|i: int| 0 <= i < model.filter(f).len() && model.filter(f)[i] == k;
            model.lemma_filter_pred(f, i);
        }
        if model.contains(k) && !other.contains(k) {
            let i = choose|i: int| 0 <= i < model.len() && model[i] == k;
            model.lemma_filter_contains(f, i);
        }
    }
}

/// Whether the data events of `q` carry snapshot ids in non-decreasing order, none above
/// `bound`.
pub open spec fn data_ids_ordered<R>(q: Seq<ReadResult<R>>, bound: IcebergSnapshotId) -> bool {
    &&& forall|i: int, j: int|
        0 <= i < j < q.len() ==> match (#[trigger] q[i], #[trigger] q[j]) {
            (ReadResult::Data { snapshot_id: a, .. }, ReadResult::Data { snapshot_id: b, .. }) => a <= b,
            _ => true,
        }
    &&& forall|i: int|
        0 <= i < q.len() ==> match #[trigger] q[i] {
            ReadResult::Data { snapshot_id, .. } => snapshot_id <= bound,
            _ => true,
        }
}

/// Every data event of a move to a snapshot carries that snapshot's id. So where the
/// catalog hands out growing snapshot ids, the data events keep their ids in
/// non-decreasing order as moves follow one another.
pub proof fn lemma_snapshot_ids_ordered<R>(
    q: Seq<ReadResult<R>>,
    bound: IcebergSnapshotId,
    snapshot_id: IcebergSnapshotId,
    inserted: Seq<R>,
    deleted: Seq<R>,
)
    requires
        data_ids_ordered(q, bound),
        bound <= snapshot_id,
    ensures
        forall|i: int|
            0 <= i < snapshot_events(snapshot_id, inserted, deleted).len() ==> match #[trigger] snapshot_events(
                snapshot_id,
                inserted,
                deleted,
            )[i] {
                ReadResult::Data { snapshot_id: s, .. } => s == snapshot_id,
                _ => true,
            },
        data_ids_ordered(q + snapshot_events(snapshot_id, inserted, deleted), snapshot_id),
{
    let ev = snapshot_events(snapshot_id, inserted, deleted);
    assert forall|i: int| 0 <= i < ev.len() implies match #[trigger] ev[i] {
        ReadResult::Data { snapshot_id: s, .. } => s == snapshot_id,
        _ => true,
    } by {
        if inserted.len() + deleted.len() > 0 {
            let ni = inserted.len() as int;
            let nd = deleted.len() as int;
            if 1 <= i < 1 + ni {
                assert(ev[i] == data_events(inserted, DataEventType::Insert, snapshot_id)[i - 1]);
            } else if 1 + ni <= i < 1 + ni + nd {
                assert(ev[i] == data_events(deleted, DataEventType::Delete, snapshot_id)[i - 1 - ni]);
            }
        }
    }
    let all = q + ev;
    assert forall|i: int| 0 <= i < all.len() implies match #[trigger] all[i] {
        ReadResult::Data { snapshot_id: s, .. } => s <= snapshot_id,
        _ => true,
    } by {
        if i < q.len() {
            assert(all[i] == q[i]);
        } else {
            assert(all[i] == ev[i - q.len()]);
        }
    }
    assert forall|i: int, j: int| 0 <= i < j < all.len() implies match (#[trigger] all[i], #[trigger] all[j]) {
        (ReadResult::Data { snapshot_id: a, .. }, ReadResult::Data { snapshot_id: b, .. }) => a <= b,
        _ => true,
    } by {
        if j < q.len() {
            assert(all[i] == q[i] && all[j] == q[j]);
        } else if i < q.len() {
            assert(all[i] == q[i] && all[j] == ev[j - q.len()]);
        } else {
            assert(all[i] == ev[i - q.len()] && all[j] == ev[j - q.len()]);
        }
    }
}

} // verus!
