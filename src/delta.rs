use vstd::prelude::*;
use vstd::string::{StrSliceExecFns, StringExecFns};
use std::collections::VecDeque;

verus! {

/// Whether a row appears in or leaves the table.
#[derive(Clone, Copy, Debug, PartialEq, Eq, Structural)]
pub enum DataEventType {
    Insert,
    Delete,
}

/// Whether a reader stops at the end of the table or keeps waiting for new data.
#[derive(Clone, Copy, Debug, PartialEq, Eq, Structural)]
pub enum ConnectorMode {
    Static,
    Streaming,
}

impl ConnectorMode {
    pub fn is_polling_enabled(&self) -> (r: bool)
        ensures
            r == (*self == ConnectorMode::Streaming),
    {
        match self {
            ConnectorMode::Static => false,
            ConnectorMode::Streaming => true,
        }
    }
}

/// A data file to scan, whose rows are all emitted with one event type.
#[derive(Debug)]
pub struct DeltaReaderAction {
    action_type: DataEventType,
    path: String,
}

impl View for DeltaReaderAction {
    type V = (DataEventType, Seq<char>);

    closed spec fn view(&self) -> (DataEventType, Seq<char>) {
        (self.action_type, self.path@)
    }
}

impl DeltaReaderAction {
    pub fn new(action_type: DataEventType, path: String) -> (r: Self)
        ensures
            r@ == (action_type, path@),
    {
        Self { action_type, path }
    }

    pub fn action_type(&self) -> (r: DataEventType)
        ensures
            r == self@.0,
    {
        self.action_type
    }

    pub fn path(&self) -> (r: &String)
        ensures
            r@ == self@.1,
    {
        &self.path
    }
}

/// One action of a commit in the table's log, as far as reading rows is concerned.
pub enum CommitAction {
    /// A data file enters the table.
    Add { path: String, data_change: bool },
    /// A data file leaves the table, possibly only partly, through a deletion vector.
    Remove { path: String, data_change: bool, has_deletion_vector: bool },
    /// Any action that does not touch data files.
    Other,
}

/// The table format a reader follows.
#[derive(Clone, Copy, Debug, PartialEq, Eq, Structural)]
pub enum StorageType {
    DeltaLake,
    Iceberg,
}

/// Identifier under which the engine persists a reader's offsets.
pub type PersistentId = u128;

/// What the log-following reader asks of its caller in order to produce the next row.
#[derive(Clone, Copy, Debug, PartialEq, Eq, Structural)]
pub enum DeltaReadStep {
    /// Pull the next row out of the open file.
    PullRow,
    /// Take the next file off the queue (`next_file`) and open it.
    OpenFile,
    /// Move to the next version that changes data; where the queue stays empty after it,
    /// the table has nothing more to give.
    Advance,
}

/// Errors of the log-following reader itself.
#[derive(Clone, Copy, Debug, PartialEq, Eq, Structural)]
pub enum DeltaReadError {
    /// A commit removes rows through a deletion vector, which cannot become row events.
    DeletionVectorsUnsupported,
}

/// Position of the reader after an emitted row, from which it can be resumed.
#[derive(Clone, Copy, Debug, PartialEq, Eq, Structural)]
pub struct DeltaOffset {
    pub version: i64,
    pub rows_read_within_version: i64,
    pub last_fully_read_version: Option<i64>,
}

/// Whether `prefix` is a prefix of `s`.
fn str_starts_with(s: &str, prefix: &str) -> (r: bool)
    ensures
        r == prefix@.is_prefix_of(s@),
{
    let n: usize = prefix.unicode_len();
    let m: usize = s.unicode_len();
    if n > m {
        return false;
    }
    for i in 0..n
        invariant
            n == prefix@.len(),
            m == s@.len(),
            n <= m,
            forall|j: int| 0 <= j < i ==> prefix@[j] == s@[j],
    {
        if prefix.get_char(i) != s.get_char(i) {
            assert(prefix@[i as int] != s@.subrange(0, n as int)[i as int]);
            return false;
        }
    }
    assert(prefix@ =~= s@.subrange(0, n as int));
    true
}

/// Whether the last character of `s` is `c`.
fn str_ends_with_char(s: &str, c: char) -> (r: bool)
    ensures
        r == (s@.len() > 0 && s@.last() == c),
{
    let n: usize = s.unicode_len();
    n > 0 && s.get_char(n - 1) == c
}

/// The absolute form of a path found in the log of the table at `base`.
pub open spec fn absolute_path(path: Seq<char>, base: Seq<char>) -> Seq<char> {
    if base.is_prefix_of(path) {
        path
    } else if base.len() > 0 && base.last() == '/' {
        base + path
    } else {
        base + seq!['/'] + path
    }
}

/// Makes a path from the table's log absolute by prefixing the table's location.
pub fn ensure_absolute_path_with_base(path: &str, base_path: &str) -> (r: String)
    ensures
        r@ == absolute_path(path@, base_path@),
{
    if str_starts_with(path, base_path) {
        return String::from_str(path);
    }
    let mut r = String::from_str(base_path);
    if !str_ends_with_char(base_path, '/') {
        proof {
            reveal_strlit("/");
        }
        r.append("/");
    }
    r.append(path);
    r
}


/// The events of one commit: its added files as inserts and its removed files as
/// deletes, in the order of the commit, with absolute paths.
pub open spec fn commit_queue(actions: Seq<CommitAction>, base: Seq<char>) -> Seq<(DataEventType, Seq<char>)>
    decreases actions.len(),
{
    if actions.len() == 0 {
        Seq::empty()
    } else {
        let rest = commit_queue(actions.drop_last(), base);
        match actions.last() {
            CommitAction::Add { path, .. } => rest.push((DataEventType::Insert, absolute_path(path@, base))),
            CommitAction::Remove { path, .. } => rest.push((DataEventType::Delete, absolute_path(path@, base))),
            CommitAction::Other => rest,
        }
    }
}

/// Whether the action adds or removes a file and marks that as a change of the data.
pub open spec fn changes_data(a: CommitAction) -> bool {
    match a {
        CommitAction::Add { data_change, .. } => data_change,
        CommitAction::Remove { data_change, .. } => data_change,
        CommitAction::Other => false,
    }
}

/// Whether the action removes rows through a deletion vector.
pub open spec fn uses_deletion_vector(a: CommitAction) -> bool {
    a matches CommitAction::Remove { has_deletion_vector: true, .. }
}

/// Whether some action of the commit changes the data.
pub open spec fn commit_changes_data(actions: Seq<CommitAction>) -> bool {
    exists|i: int| 0 <= i < actions.len() && changes_data(#[trigger] actions[i])
}

/// Whether some action of the commit uses a deletion vector.
pub open spec fn commit_uses_deletion_vector(actions: Seq<CommitAction>) -> bool {
    exists|i: int| 0 <= i < actions.len() && uses_deletion_vector(#[trigger] actions[i])
}

/// The reader's state as mathematical values.
pub struct DeltaReaderState {
    pub base_path: Seq<char>,
    pub polling: bool,
    pub current_version: int,
    pub last_fully_read_version: Option<int>,
    pub rows_read_within_version: int,
    pub queue: Seq<(DataEventType, Seq<char>)>,
    pub current_event_type: DataEventType,
}

impl DeltaReaderState {
    /// The offset that the state stands at.
    pub open spec fn offset(self) -> (int, int, Option<int>) {
        (self.current_version, self.rows_read_within_version, self.last_fully_read_version)
    }

    /// The state after the commit `next_version` with `actions` has been taken in.
    pub open spec fn after_commit(self, next_version: int, actions: Seq<CommitAction>) -> DeltaReaderState {
        DeltaReaderState {
            current_version: next_version,
            last_fully_read_version: Some(self.current_version),
            rows_read_within_version: 0,
            queue: if commit_changes_data(actions) {
                commit_queue(actions, self.base_path)
            } else {
                self.queue
            },
            ..self
        }
    }
}

/// The offset `b` does not stand before the offset `a` in the order of the log.
pub open spec fn offset_le(a: (int, int), b: (int, int)) -> bool {
    a.0 < b.0 || (a.0 == b.0 && a.1 <= b.1)
}

/// A step of a reader that reads forward: the version stays and the row count does
/// not shrink, or the version grows and the row count starts again from zero.
pub open spec fn forward_step(a: DeltaReaderState, b: DeltaReaderState) -> bool {
    (b.current_version == a.current_version && b.rows_read_within_version >= a.rows_read_within_version)
        || (b.current_version > a.current_version && b.rows_read_within_version == 0)
}

/// The position `(current_version, rows_read_within_version)` of a state.
pub open spec fn position(s: DeltaReaderState) -> (int, int) {
    (s.current_version, s.rows_read_within_version)
}

/// Over any run of forward steps, the positions `(current_version,
/// rows_read_within_version)` never go back in lexicographic order, and the row count
/// drops back to zero exactly on the steps where the version grows.
pub proof fn lemma_offsets_monotone(states: Seq<DeltaReaderState>)
    requires
        forall|i: int| 0 <= i < states.len() - 1 ==> forward_step(#[trigger] states[i], states[i + 1]),
    ensures
        forall|i: int, j: int|
            0 <= i <= j < states.len() ==> offset_le(position(#[trigger] states[i]), position(#[trigger] states[j])),
        forall|i: int|
            0 <= i < states.len() - 1 ==> ((#[trigger] states[i + 1]).current_version > states[i].current_version
                ==> states[i + 1].rows_read_within_version == 0),
        forall|i: int|
            0 <= i < states.len() - 1 ==> ((#[trigger] states[i + 1]).rows_read_within_version
                < states[i].rows_read_within_version ==> states[i + 1].current_version
                > states[i].current_version),
    decreases states.len(),
{
    if states.len() > 1 {
        let init = states.drop_last();
        assert forall|i: int| 0 <= i < init.len() - 1 implies forward_step(#[trigger] init[i], init[i + 1]) by {
            assert(init[i] == states[i] && init[i + 1] == states[i + 1]);
        }
        lemma_offsets_monotone(init);
        let n: int = states.len() - 1;
        assert forall|i: int, j: int|
            0 <= i <= j < states.len() implies offset_le(position(#[trigger] states[i]), position(#[trigger] states[j])) by {
            if j < n {
                assert(init[i] == states[i] && init[j] == states[j]);
            } else if i < j {
                assert(init[i] == states[i] && init[n - 1] == states[n - 1]);
                assert(offset_le(position(init[i]), position(init[n - 1])));
                assert(forward_step(states[n - 1], states[n]));
            }
        }
    }
}

/// A step that emits no row: the position stays, or the version grows and the row
/// count starts again from zero.
pub open spec fn silent_step(a: DeltaReaderState, b: DeltaReaderState) -> bool {
    (b.current_version == a.current_version && b.rows_read_within_version == a.rows_read_within_version)
        || (b.current_version > a.current_version && b.rows_read_within_version == 0)
}

/// A step that emits one row: the version stays and the row count grows by one.
pub open spec fn emitting_step(a: DeltaReaderState, b: DeltaReaderState) -> bool {
    b.current_version == a.current_version && b.rows_read_within_version == a.rows_read_within_version + 1
}

proof fn lemma_silent_run(states: Seq<DeltaReaderState>)
    requires
        states.len() >= 1,
        forall|i: int| 0 <= i < states.len() - 1 ==> silent_step(#[trigger] states[i], states[i + 1]),
    ensures
        silent_step(states[0], states[states.len() - 1]),
    decreases states.len(),
{
    if states.len() > 1 {
        let init = states.drop_last();
        assert forall|i: int| 0 <= i < init.len() - 1 implies silent_step(#[trigger] init[i], init[i + 1]) by {
            assert(init[i] == states[i] && init[i + 1] == states[i + 1]);
        }
        lemma_silent_run(init);
        assert(init[init.len() - 1] == states[states.len() - 2]);
        assert(silent_step(states[states.len() - 2], states[states.len() - 1]));
    }
}

/// Between two rows emitted one after the other, with only silent steps in between,
/// the offset either stays at the version and counts one row more, or moves to a later
/// version with a row count of one.
pub proof fn lemma_successive_offsets(states: Seq<DeltaReaderState>)
    requires
        states.len() >= 2,
        forall|i: int| 0 <= i < states.len() - 2 ==> silent_step(#[trigger] states[i], states[i + 1]),
        emitting_step(states[states.len() - 2], states[states.len() - 1]),
    ensures
        ({
            let (first, last) = (states[0], states[states.len() - 1]);
            (last.current_version == first.current_version && last.rows_read_within_version
                == first.rows_read_within_version + 1) || (last.current_version > first.current_version
                && last.rows_read_within_version == 1)
        }),
{
    let init = states.drop_last();
    assert forall|i: int| 0 <= i < init.len() - 1 implies silent_step(#[trigger] init[i], init[i + 1]) by {
        assert(init[i] == states[i] && init[i + 1] == states[i + 1]);
    }
    lemma_silent_run(init);
    assert(init[init.len() - 1] == states[states.len() - 2]);
}

/// A commit whose actions change no data moves the reader past its version and leaves
/// the files to read, and so the rows to come, as they were.
pub proof fn lemma_metadata_commit_invisible(s: DeltaReaderState, next_version: int, actions: Seq<CommitAction>)
    requires
        next_version > s.current_version,
        !commit_changes_data(actions),
    ensures
        s.after_commit(next_version, actions).queue == s.queue,
        s.after_commit(next_version, actions).current_version == next_version,
        s.after_commit(next_version, actions).last_fully_read_version == Some(s.current_version),
{
}

/// A drained reader that meets a commit changing no data and then a commit changing
/// data ends up exactly as if the first commit were not there, but for the versions:
/// it reads the second commit's files from a row count of zero, at the second
/// commit's version, with the first commit as the last fully read version.
pub proof fn lemma_metadata_commit_skipped(
    s: DeltaReaderState,
    v1: int,
    metadata_actions: Seq<CommitAction>,
    v2: int,
    data_actions: Seq<CommitAction>,
)
    requires
        s.queue.len() == 0,
        s.current_version < v1 < v2,
        !commit_changes_data(metadata_actions),
        commit_changes_data(data_actions),
    ensures
        s.after_commit(v1, metadata_actions).after_commit(v2, data_actions) == (DeltaReaderState {
            current_version: v2,
            last_fully_read_version: Some(v1),
            rows_read_within_version: 0,
            queue: commit_queue(data_actions, s.base_path),
            ..s
        }),
{
}

/// A reader rewound to the version before a commit that changes data, and the reader
/// that first read that commit, take it in alike: same version, same last fully read
/// version, same row count and same files to read.
pub proof fn lemma_rewind_rebuilds_commit(
    run: DeltaReaderState,
    rewound: DeltaReaderState,
    next_version: int,
    actions: Seq<CommitAction>,
)
    requires
        run.current_version == rewound.current_version,
        run.base_path == rewound.base_path,
        commit_changes_data(actions),
    ensures
        position(run.after_commit(next_version, actions)) == position(rewound.after_commit(next_version, actions)),
        run.after_commit(next_version, actions).offset() == rewound.after_commit(next_version, actions).offset(),
        run.after_commit(next_version, actions).queue == rewound.after_commit(next_version, actions).queue,
{
}

/// The offset as mathematical values.
pub open spec fn offset_of(o: DeltaOffset) -> (int, int, Option<int>) {
    (
        o.version as int,
        o.rows_read_within_version as int,
        match o.last_fully_read_version {
            Some(v) => Some(v as int),
            None => None,
        },
    )
}

/// The first wait of a reader that polls an unchanged log, in milliseconds.
pub const DELTA_LAKE_INITIAL_POLL_DURATION_MS: u64 = 5;

/// The longest wait of a reader that polls an unchanged log, in milliseconds.
pub const DELTA_LAKE_MAX_POLL_DURATION_MS: u64 = 100;

/// The wait that follows a wait of `current_ms` on an unchanged log: twice as long, up
/// to the longest wait.
pub fn next_poll_duration_ms(current_ms: u64) -> (r: u64)
    ensures
        r == if 2 * current_ms > DELTA_LAKE_MAX_POLL_DURATION_MS {
            DELTA_LAKE_MAX_POLL_DURATION_MS as int
        } else {
            2 * current_ms
        },
{
    if current_ms > DELTA_LAKE_MAX_POLL_DURATION_MS / 2 {
        DELTA_LAKE_MAX_POLL_DURATION_MS
    } else {
        2 * current_ms
    }
}

/// What a reader does when the log has no commit after its current version.
#[derive(Clone, Copy, Debug, PartialEq, Eq, Structural)]
pub enum PollStep {
    /// Stop moving: the table has nothing more to give for now.
    Stop,
    /// Wait `wait_ms` milliseconds, then look again; wait `next_wait_ms` the time after.
    Sleep { wait_ms: u64, next_wait_ms: u64 },
}

/// The decision on an unchanged log: a static reader stops, a polling one waits
/// `wait_ms` and backs off.
pub fn no_new_commit_step(is_polling_enabled: bool, wait_ms: u64) -> (r: PollStep)
    ensures
        !is_polling_enabled ==> r == PollStep::Stop,
        is_polling_enabled ==> (r matches PollStep::Sleep { wait_ms: w, next_wait_ms: n } && w == wait_ms
            && n == if 2 * wait_ms > DELTA_LAKE_MAX_POLL_DURATION_MS {
            DELTA_LAKE_MAX_POLL_DURATION_MS as int
        } else {
            2 * wait_ms
        }),
{
    if !is_polling_enabled {
        PollStep::Stop
    } else {
        PollStep::Sleep { wait_ms, next_wait_ms: next_poll_duration_ms(wait_ms) }
    }
}

/// A reader that follows the commit log of a delta table, file by file.
///
/// It decides what comes next; the table, the files and their rows are handled by
/// the caller, which hands in what the log and the files hold.
pub struct DeltaTableReader {
    base_path: String,
    streaming_mode: ConnectorMode,
    current_version: i64,
    last_fully_read_version: Option<i64>,
    rows_read_within_version: i64,
    parquet_files_queue: VecDeque<DeltaReaderAction>,
    current_event_type: DataEventType,
    persistent_id: Option<PersistentId>,
}

impl View for DeltaTableReader {
    type V = DeltaReaderState;

    closed spec fn view(&self) -> DeltaReaderState {
        DeltaReaderState {
            base_path: self.base_path@,
            polling: self.streaming_mode == ConnectorMode::Streaming,
            current_version: self.current_version as int,
            last_fully_read_version: match self.last_fully_read_version {
                Some(v) => Some(v as int),
                None => None,
            },
            rows_read_within_version: self.rows_read_within_version as int,
            queue: self.parquet_files_queue@.map_values(|a: DeltaReaderAction| a@),
            current_event_type: self.current_event_type,
        }
    }
}

/// The full listing of a table version, each file as an insert with an absolute path.
pub open spec fn listing_queue(paths: Seq<Seq<char>>, base: Seq<char>) -> Seq<(DataEventType, Seq<char>)> {
    Seq::new(paths.len(), |i: int| (DataEventType::Insert, absolute_path(paths[i], base)))
}

/// Builds the queue of a full listing.
fn get_reader_actions(file_paths: &Vec<String>, base_path: &str) -> (r: VecDeque<DeltaReaderAction>)
    ensures
        r@.map_values(|a: DeltaReaderAction| a@) == listing_queue(file_paths@.map_values(|p: String| p@), base_path@),
{
    let mut r: VecDeque<DeltaReaderAction> = VecDeque::new();
    for i in 0..file_paths.len()
        invariant
            r@.map_values(|a: DeltaReaderAction| a@) == listing_queue(
                file_paths@.take(i as int).map_values(|p: String| p@),
                base_path@,
            ),
    {
        let ghost before = r@;
        let path = ensure_absolute_path_with_base(file_paths[i].as_str(), base_path);
        let action = DeltaReaderAction::new(DataEventType::Insert, path);
        assert(action@ == (DataEventType::Insert, absolute_path(file_paths@[i as int]@, base_path@)));
        r.push_back(action);
        assert(r@ == before.push(action));
        assert(r@.map_values(|a: DeltaReaderAction| a@) =~= before.map_values(|a: DeltaReaderAction| a@).push(
            action@,
        ));
        assert(file_paths@.take(i + 1).map_values(|p: String| p@) =~= file_paths@.take(i as int).map_values(
            |p: String| p@,
        ).push(file_paths@[i as int]@));
        assert(r@.map_values(|a: DeltaReaderAction| a@) =~= listing_queue(
            file_paths@.take(i + 1).map_values(|p: String| p@),
            base_path@,
        ));
    }
    assert(file_paths@.take(file_paths@.len() as int) =~= file_paths@);
    r
}

impl DeltaTableReader {
    /// Opens a reader on the table at `path` whose current version is `version` and
    /// holds the files `file_paths`: the files come first, each as inserts.
    pub fn new(path: &str, version: i64, file_paths: &Vec<String>, streaming_mode: ConnectorMode) -> (r: Self)
        ensures
            r@.base_path == path@,
            r@.polling == (streaming_mode == ConnectorMode::Streaming),
            r@.current_version == version,
            r@.last_fully_read_version is None,
            r@.rows_read_within_version == 0,
            r@.queue == listing_queue(file_paths@.map_values(|p: String| p@), path@),
            r@.current_event_type == DataEventType::Insert,
            r.wf(),
    {
        let parquet_files_queue = get_reader_actions(file_paths, path);
        DeltaTableReader {
            base_path: String::from_str(path),
            streaming_mode,
            current_version: version,
            last_fully_read_version: None,
            rows_read_within_version: 0,
            parquet_files_queue,
            current_event_type: DataEventType::Insert,
            persistent_id: None,
        }
    }

    /// What to do next, given whether a file is open and still has rows.
    pub fn read_step(&self, file_open: bool) -> (r: DeltaReadStep)
        ensures
            r == if file_open {
                DeltaReadStep::PullRow
            } else if self@.queue.len() > 0 {
                DeltaReadStep::OpenFile
            } else {
                DeltaReadStep::Advance
            },
    {
        if file_open {
            DeltaReadStep::PullRow
        } else if self.parquet_files_queue.len() > 0 {
            DeltaReadStep::OpenFile
        } else {
            DeltaReadStep::Advance
        }
    }

    pub fn update_persistent_id(&mut self, persistent_id: Option<PersistentId>)
        ensures
            final(self)@ == old(self)@,
            final(self).persistent_id_spec() == persistent_id,
    {
        self.persistent_id = persistent_id;
    }

    pub closed spec fn persistent_id_spec(&self) -> Option<PersistentId> {
        self.persistent_id
    }

    pub fn persistent_id(&self) -> (r: Option<PersistentId>)
        ensures
            r == self.persistent_id_spec(),
    {
        self.persistent_id
    }

    pub fn storage_type(&self) -> (r: StorageType)
        ensures
            r == StorageType::DeltaLake,
    {
        StorageType::DeltaLake
    }

    /// Takes in the commit that follows the current version, as the log store reported
    /// it: the reader moves to `next_version`, and where the commit changes data its
    /// files become the queue. A commit that only changes metadata moves the version and
    /// leaves the queue as it is.
    pub fn apply_commit(&mut self, next_version: i64, actions: &Vec<CommitAction>) -> (r: Result<(), DeltaReadError>)
        requires
            old(self).wf(),
            next_version > old(self)@.current_version,
        ensures
            final(self).wf(),
            r is Err <==> commit_uses_deletion_vector(actions@),
            r matches Err(e) ==> e == DeltaReadError::DeletionVectorsUnsupported && final(self)@ == old(self)@,
            r is Ok ==> final(self)@ == old(self)@.after_commit(next_version as int, actions@),
            r is Ok ==> forward_step(old(self)@, final(self)@) && silent_step(old(self)@, final(self)@),
    {
        let mut added_blocks: VecDeque<DeltaReaderAction> = VecDeque::new();
        let mut data_changed = false;
        for i in 0..actions.len()
            invariant
                added_blocks@.map_values(|a: DeltaReaderAction| a@) == commit_queue(
                    actions@.take(i as int),
                    self.base_path@,
                ),
                data_changed == commit_changes_data(actions@.take(i as int)),
                !commit_uses_deletion_vector(actions@.take(i as int)),
                *self == *old(self),
                self.wf(),
        {
            let ghost before = added_blocks@;
            let ghost prefix = actions@.take(i as int);
            let ghost next = actions@.take(i + 1);
            assert(next.drop_last() =~= prefix);
            assert(next.last() == actions@[i as int]);
            assert(forall|j: int| 0 <= j < i ==> prefix[j] == #[trigger] next[j]);
            match &actions[i] {
                CommitAction::Remove { path, data_change, has_deletion_vector } => {
                    if *has_deletion_vector {
                        assert(uses_deletion_vector(actions@[i as int]));
                        return Err(DeltaReadError::DeletionVectorsUnsupported);
                    }
                    data_changed = data_changed || *data_change;
                    let action = DeltaReaderAction::new(
                        DataEventType::Delete,
                        ensure_absolute_path_with_base(path.as_str(), self.base_path.as_str()),
                    );
                    added_blocks.push_back(action);
                    assert(added_blocks@.map_values(|a: DeltaReaderAction| a@) =~= before.map_values(
                        |a: DeltaReaderAction| a@,
                    ).push(action@));
                },
                CommitAction::Add { path, data_change } => {
                    data_changed = data_changed || *data_change;
                    let action = DeltaReaderAction::new(
                        DataEventType::Insert,
                        ensure_absolute_path_with_base(path.as_str(), self.base_path.as_str()),
                    );
                    added_blocks.push_back(action);
                    assert(added_blocks@.map_values(|a: DeltaReaderAction| a@) =~= before.map_values(
                        |a: DeltaReaderAction| a@,
                    ).push(action@));
                },
                CommitAction::Other => {},
            }
            assert(data_changed == commit_changes_data(next)) by {
                if data_changed && !changes_data(actions@[i as int]) {
                    let j = choose|j: int| 0 <= j < i && changes_data(#[trigger] prefix[j]);
                    assert(changes_data(next[j]));
                }
                if changes_data(actions@[i as int]) {
                    assert(changes_data(next[i as int]));
                }
            }
        }
        assert(actions@.take(actions@.len() as int) =~= actions@);
        self.last_fully_read_version = Some(self.current_version);
        self.current_version = next_version;
        self.rows_read_within_version = 0;
        if data_changed {
            self.parquet_files_queue = added_blocks;
        }
        Ok(())
    }

    /// Starts moving to the next version that carries data: the queue is emptied.
    pub fn begin_advance(&mut self)
        ensures
            final(self)@ == (DeltaReaderState { queue: Seq::empty(), ..old(self)@ }),
            silent_step(old(self)@, final(self)@),
    {
        self.parquet_files_queue.clear();
        assert(self.parquet_files_queue@.map_values(|a: DeltaReaderAction| a@) =~= Seq::empty());
    }

    /// Takes the next file to scan off the queue; its rows carry its event type.
    pub fn next_file(&mut self) -> (r: Option<DeltaReaderAction>)
        requires
            old(self).wf(),
        ensures
            final(self).wf(),
            forward_step(old(self)@, final(self)@),
            silent_step(old(self)@, final(self)@),
            old(self)@.queue.len() == 0 ==> r is None && final(self)@ == old(self)@,
            old(self)@.queue.len() > 0 ==> (r matches Some(a) && a@ == old(self)@.queue[0] && final(self)@ == (
            DeltaReaderState {
                queue: old(self)@.queue.drop_first(),
                current_event_type: a@.0,
                ..old(self)@
            })),
    {
        let ghost q = self.parquet_files_queue@;
        match self.parquet_files_queue.pop_front() {
            Some(action) => {
                self.current_event_type = action.action_type;
                assert(self.parquet_files_queue@.map_values(|a: DeltaReaderAction| a@) =~= q.map_values(
                    |a: DeltaReaderAction| a@,
                ).drop_first());
                Some(action)
            },
            None => None,
        }
    }

    /// Counts one more row read from the current file and gives its event type and the
    /// offset that follows it.
    pub fn record_row(&mut self) -> (r: (DataEventType, DeltaOffset))
        requires
            old(self).wf(),
            old(self)@.rows_read_within_version < i64::MAX,
        ensures
            final(self).wf(),
            forward_step(old(self)@, final(self)@),
            emitting_step(old(self)@, final(self)@),
            final(self)@ == (DeltaReaderState {
                rows_read_within_version: old(self)@.rows_read_within_version + 1,
                ..old(self)@
            }),
            r.0 == old(self)@.current_event_type,
            offset_of(r.1) == final(self)@.offset(),
    {
        self.rows_read_within_version = self.rows_read_within_version + 1;
        (
            self.current_event_type,
            DeltaOffset {
                version: self.current_version,
                rows_read_within_version: self.rows_read_within_version,
                last_fully_read_version: self.last_fully_read_version,
            },
        )
    }

    /// Starts a rewind to `offset`: no file is in flight any more, and the reader stands
    /// at the version whose table the caller must load. Where the offset has a last fully
    /// read version, the caller then moves forward one commit (`begin_advance`, then
    /// `apply_commit` without polling); otherwise it hands the listing of that version to
    /// `reseed_from_listing`.
    pub fn begin_seek(&mut self, offset: &DeltaOffset) -> (r: i64)
        requires
            old(self).wf(),
            offset.rows_read_within_version >= 0,
            offset.last_fully_read_version matches Some(v) ==> v < offset.version,
        ensures
            final(self).wf(),
            r == match offset.last_fully_read_version {
                Some(v) => v,
                None => offset.version,
            },
            final(self)@ == (DeltaReaderState {
                current_version: r as int,
                last_fully_read_version: None,
                rows_read_within_version: 0,
                ..old(self)@
            }),
    {
        let version: i64 = match offset.last_fully_read_version {
            Some(v) => v,
            None => offset.version,
        };
        self.current_version = version;
        self.last_fully_read_version = None;
        self.rows_read_within_version = 0;
        version
    }

    /// Replaces the queue by the full listing of the current version, as inserts.
    pub fn reseed_from_listing(&mut self, file_paths: &Vec<String>)
        ensures
            final(self)@ == (DeltaReaderState {
                queue: listing_queue(file_paths@.map_values(|p: String| p@), old(self)@.base_path),
                rows_read_within_version: 0,
                ..old(self)@
            }),
    {
        self.parquet_files_queue = get_reader_actions(file_paths, self.base_path.as_str());
        self.rows_read_within_version = 0;
    }

    /// One step of the quick part of a rewind to `n_rows_to_rewind` rows: the file at the
    /// head of the queue, which holds `block_size` rows, is skipped without reading it
    /// where all of its rows lie within the rewound part.
    pub fn try_skip_head_file(&mut self, block_size: i64, n_rows_to_rewind: i64) -> (r: bool)
        requires
            old(self).wf(),
            block_size >= 0,
        ensures
            final(self).wf(),
            r == (old(self)@.queue.len() > 0
                && old(self)@.rows_read_within_version + block_size <= n_rows_to_rewind),
            r ==> final(self)@ == (DeltaReaderState {
                queue: old(self)@.queue.drop_first(),
                rows_read_within_version: old(self)@.rows_read_within_version + block_size,
                ..old(self)@
            }),
            !r ==> final(self)@ == old(self)@,
    {
        if self.parquet_files_queue.len() == 0 {
            return false;
        }
        if self.rows_read_within_version > n_rows_to_rewind
            || block_size > n_rows_to_rewind - self.rows_read_within_version {
            return false;
        }
        let ghost q = self.parquet_files_queue@;
        self.parquet_files_queue.pop_front();
        assert(self.parquet_files_queue@.map_values(|a: DeltaReaderAction| a@) =~= q.map_values(
            |a: DeltaReaderAction| a@,
        ).drop_first());
        self.rows_read_within_version = self.rows_read_within_version + block_size;
        true
    }

    /// How many rows a rewind to `n_rows_to_rewind` rows still has to read one by one.
    pub fn rows_left_to_rewind(&self, n_rows_to_rewind: i64) -> (r: i64)
        requires
            self.wf(),
            n_rows_to_rewind >= 0,
        ensures
            r == if n_rows_to_rewind > self@.rows_read_within_version {
                n_rows_to_rewind - self@.rows_read_within_version
            } else {
                0
            },
    {
        if n_rows_to_rewind > self.rows_read_within_version {
            n_rows_to_rewind - self.rows_read_within_version
        } else {
            0
        }
    }

    /// The file at the head of the queue, if any.
    pub fn front_file(&self) -> (r: Option<&DeltaReaderAction>)
        ensures
            self@.queue.len() == 0 ==> r is None,
            self@.queue.len() > 0 ==> (r matches Some(a) && a@ == self@.queue[0]),
    {
        if self.parquet_files_queue.len() == 0 {
            None
        } else {
            Some(&self.parquet_files_queue[0])
        }
    }

    pub fn has_queued_files(&self) -> (r: bool)
        ensures
            r == (self@.queue.len() > 0),
    {
        self.parquet_files_queue.len() > 0
    }

    pub fn is_polling_enabled(&self) -> (r: bool)
        ensures
            r == self@.polling,
    {
        self.streaming_mode.is_polling_enabled()
    }

    pub fn current_version(&self) -> (r: i64)
        ensures
            r == self@.current_version,
    {
        self.current_version
    }

    pub fn last_fully_read_version(&self) -> (r: Option<i64>)
        ensures
            r matches Some(v) ==> self@.last_fully_read_version == Some(v as int),
            r is None <==> self@.last_fully_read_version is None,
    {
        self.last_fully_read_version
    }

    pub fn rows_read_within_version(&self) -> (r: i64)
        ensures
            r == self@.rows_read_within_version,
    {
        self.rows_read_within_version
    }

    pub fn base_path(&self) -> (r: &String)
        ensures
            r@ == self@.base_path,
    {
        &self.base_path
    }

    /// Well-formed: the row count is not negative and the last fully read version
    /// lies before the current one.
    pub open spec fn wf(&self) -> bool {
        &&& self@.rows_read_within_version >= 0
        &&& self@.last_fully_read_version matches Some(v) ==> v < self@.current_version
    }
}

} // verus!
