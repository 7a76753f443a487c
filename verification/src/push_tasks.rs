//! Tasks staged for a batched insert-or-update, and their status encoding.

use vstd::prelude::*;
use crate::service::DbService;
use crate::text::same_text;

verus! {

/// The life-cycle state of a task.
#[derive(Clone, Copy, Debug, PartialEq, Eq, Structural)]
pub enum TaskStatus {
    Blocking,
    Ready,
    Processing,
    Terminated,
}

impl TaskStatus {
    /// The lowercase wire string of this status.
    pub open spec fn wire(self) -> Seq<char> {
        match self {
            TaskStatus::Blocking => "blocking"@,
            TaskStatus::Ready => "ready"@,
            TaskStatus::Processing => "processing"@,
            TaskStatus::Terminated => "terminated"@,
        }
    }

    /// The status that `text` is the wire string of, if it is one of the four.
    pub open spec fn decode(text: Seq<char>) -> Option<TaskStatus> {
        if text == "blocking"@ {
            Some(TaskStatus::Blocking)
        } else if text == "ready"@ {
            Some(TaskStatus::Ready)
        } else if text == "processing"@ {
            Some(TaskStatus::Processing)
        } else if text == "terminated"@ {
            Some(TaskStatus::Terminated)
        } else {
            None
        }
    }

    /// Encodes the status as its wire string.
    pub fn to_str(&self) -> (text: &'static str)
        ensures
            text@ == self.wire(),
    {
        match self {
            TaskStatus::Blocking => "blocking",
            TaskStatus::Ready => "ready",
            TaskStatus::Processing => "processing",
            TaskStatus::Terminated => "terminated",
        }
    }

    /// Decodes a wire string. Any text but the four wire strings is no match.
    pub fn from_str(s: &str) -> (status: Option<TaskStatus>)
        ensures
            status == TaskStatus::decode(s@),
    {
        if same_text(s, "blocking") {
            Some(TaskStatus::Blocking)
        } else if same_text(s, "ready") {
            Some(TaskStatus::Ready)
        } else if same_text(s, "processing") {
            Some(TaskStatus::Processing)
        } else if same_text(s, "terminated") {
            Some(TaskStatus::Terminated)
        } else {
            None
        }
    }
}

/// The four wire strings are pairwise different.
pub proof fn lemma_wire_injective(a: TaskStatus, b: TaskStatus)
    ensures
        a.wire() == b.wire() <==> a == b,
{
    reveal_strlit("blocking");
    reveal_strlit("ready");
    reveal_strlit("processing");
    reveal_strlit("terminated");
    assert("blocking"@.len() == 8);
    assert("ready"@.len() == 5);
    assert("processing"@.len() == 10);
    assert("terminated"@.len() == 10);
    assert("processing"@[0] == 'p');
    assert("terminated"@[0] == 't');
}

/// Decoding inverts encoding on every status.
pub proof fn lemma_status_round_trip(status: TaskStatus)
    ensures
        TaskStatus::decode(status.wire()) == Some(status),
{
    lemma_wire_injective(status, TaskStatus::Blocking);
    lemma_wire_injective(status, TaskStatus::Ready);
    lemma_wire_injective(status, TaskStatus::Processing);
    lemma_wire_injective(status, TaskStatus::Terminated);
}

/// Decoding matches exactly the wire strings: a match is the status whose
/// wire string the text is, and a text that is no status's wire string is no
/// match.
pub proof fn lemma_decode_exact(text: Seq<char>)
    ensures
        TaskStatus::decode(text) matches Some(status) ==> status.wire() == text,
        TaskStatus::decode(text) is None <==> forall|status: TaskStatus|
            #[trigger] status.wire() != text,
{
    if TaskStatus::decode(text) is None {
        assert forall|status: TaskStatus| #[trigger] status.wire() != text by {
            lemma_status_round_trip(status);
        }
    } else {
        let status = TaskStatus::decode(text)->0;
        assert(status.wire() == text);
    }
}

/// A task to insert or update.
pub struct PushTask {
    /// The row to update; `None` asks for a new task.
    pub id: Option<i64>,
    pub namespace: String,
    pub task_name: String,
    pub context: Vec<u8>,
    pub status: TaskStatus,
}

/// What a staged task says, as plain values.
pub struct PushRow {
    pub id: Option<i64>,
    pub namespace: Seq<char>,
    pub task_name: Seq<char>,
    pub context: Seq<u8>,
    pub status: TaskStatus,
}

impl View for PushTask {
    type V = PushRow;

    open spec fn view(&self) -> PushRow {
        PushRow {
            id: self.id,
            namespace: self.namespace@,
            task_name: self.task_name@,
            context: self.context@,
            status: self.status,
        }
    }
}

/// The rows of a list of tasks.
pub open spec fn task_rows(tasks: Seq<PushTask>) -> Seq<PushRow> {
    Seq::new(tasks.len(), |i: int| tasks[i]@)
}

/// The rows of a list of borrowed tasks.
pub open spec fn borrowed_rows(tasks: Seq<&PushTask>) -> Seq<PushRow> {
    Seq::new(tasks.len(), |i: int| tasks[i]@)
}

/// The rows whose namespace is authorized, in their order.
pub open spec fn authorized_rows(authorized: Seq<Seq<char>>, rows: Seq<PushRow>) -> Seq<PushRow> {
    rows.filter(|row: PushRow| authorized.contains(row.namespace))
}

/// Only authorized rows are kept, and every authorized row is: a row is
/// among the kept ones exactly if it is among the given ones and its
/// namespace is authorized. No more rows are kept than were given.
pub proof fn lemma_authorized_rows(authorized: Seq<Seq<char>>, rows: Seq<PushRow>)
    ensures
        authorized_rows(authorized, rows).len() <= rows.len(),
        forall|row: PushRow| #[trigger]
            authorized_rows(authorized, rows).contains(row) <==> rows.contains(row)
                && authorized.contains(row.namespace),
        forall|i: int|
            0 <= i < authorized_rows(authorized, rows).len() ==> authorized.contains(
                (#[trigger] authorized_rows(authorized, rows)[i]).namespace,
            ),
{
    let allowed = |row: PushRow| authorized.contains(row.namespace);
    let kept = rows.filter(allowed);
    rows.lemma_filter_len(allowed);
    assert forall|row: PushRow| #[trigger] kept.contains(row) <==> rows.contains(row)
        && authorized.contains(row.namespace) by {
        if kept.contains(row) {
            rows.lemma_filter_contains_rev(allowed, row);
        }
        if rows.contains(row) && allowed(row) {
            let i = choose|i: int| 0 <= i < rows.len() && rows[i] == row;
            rows.lemma_filter_contains(allowed, i);
        }
    }
    assert forall|i: int| 0 <= i < kept.len() implies authorized.contains(
        (#[trigger] kept[i]).namespace,
    ) by {
        rows.lemma_filter_pred(allowed, i);
    }
}

/// The arguments of one batched insert-or-update: five columns of equal
/// length, one entry per task.
pub struct PushBatch<'a> {
    pub ids: Vec<Option<i64>>,
    pub namespaces: Vec<&'a str>,
    pub task_names: Vec<&'a str>,
    pub contexts: Vec<&'a [u8]>,
    pub statuses: Vec<&'static str>,
}

impl<'a> PushBatch<'a> {
    /// Whether the columns hold exactly `rows`: as many entries as rows,
    /// and at each place the fields of the row at that place, the status as
    /// its wire string.
    pub open spec fn holds(&self, rows: Seq<PushRow>) -> bool {
        &&& self.ids@.len() == rows.len()
        &&& self.namespaces@.len() == rows.len()
        &&& self.task_names@.len() == rows.len()
        &&& self.contexts@.len() == rows.len()
        &&& self.statuses@.len() == rows.len()
        &&& forall|i: int|
            0 <= i < rows.len() ==> {
                &&& self.ids@[i] == (#[trigger] rows[i]).id
                &&& self.namespaces@[i]@ == rows[i].namespace
                &&& self.task_names@[i]@ == rows[i].task_name
                &&& self.contexts@[i]@ == rows[i].context
                &&& self.statuses@[i]@ == rows[i].status.wire()
            }
    }
}

/// Applies `f` to each task and collects the results in order.
pub fn unzip_task_list<'a, F, R>(tasks: &[&'a PushTask], f: F) -> (column: Vec<R>) where
    F: Fn(&'a PushTask) -> R,

    requires
        forall|i: int| 0 <= i < tasks@.len() ==> call_requires(f, (#[trigger] tasks@[i],)),
    ensures
        column@.len() == tasks@.len(),
        forall|i: int|
            0 <= i < tasks@.len() ==> call_ensures(f, (tasks@[i],), #[trigger] column@[i]),
{
    let mut column: Vec<R> = Vec::new();
    let mut i: usize = 0;
    while i < tasks.len()
        invariant
            i <= tasks@.len(),
            column@.len() == i,
            forall|k: int| 0 <= k < tasks@.len() ==> call_requires(f, (#[trigger] tasks@[k],)),
            forall|k: int| 0 <= k < i ==> call_ensures(f, (tasks@[k],), #[trigger] column@[k]),
        decreases tasks@.len() - i,
    {
        column.push(f(tasks[i]));
        i += 1;
    }
    column
}

impl DbService {
    /// The tasks of `tasks` whose namespace this service is authorized for,
    /// in their order.
    pub fn authorized_tasks<'a>(&self, tasks: &'a [PushTask]) -> (kept: Vec<&'a PushTask>)
        ensures
            borrowed_rows(kept@) == authorized_rows(self@, task_rows(tasks@)),
    {
        let ghost rows = task_rows(tasks@);
        let ghost allowed = |row: PushRow| self@.contains(row.namespace);
        let mut kept: Vec<&'a PushTask> = Vec::new();
        let mut i: usize = 0;
        proof {
            reveal(Seq::filter);
            assert(rows.take(0) =~= Seq::<PushRow>::empty());
        }
        while i < tasks.len()
            invariant
                i <= tasks@.len(),
                rows == task_rows(tasks@),
                allowed == |row: PushRow| self@.contains(row.namespace),
                borrowed_rows(kept@) == rows.take(i as int).filter(allowed),
            decreases tasks@.len() - i,
        {
            proof {
                rows.take(i as int).lemma_filter_push(rows[i as int], allowed);
                assert(rows.take(i as int).push(rows[i as int]) =~= rows.take(i + 1));
            }
            let task = &tasks[i];
            if self.is_authorized(task.namespace.as_str()) {
                let ghost listed = borrowed_rows(kept@);
                kept.push(task);
                assert(borrowed_rows(kept@) =~= listed.push(rows[i as int]));
            }
            i += 1;
        }
        assert(rows.take(i as int) =~= rows);
        kept
    }

    /// Stages `tasks` for one batched insert-or-update.
    ///
    /// Tasks of namespaces that this service is not authorized for are left
    /// out without a signal. If none is left there is nothing to submit;
    /// otherwise the batch holds the remaining tasks, column by column, in
    /// their order.
    pub fn stage_push<'a>(&self, tasks: &'a [PushTask]) -> (staged: Option<PushBatch<'a>>)
        ensures
            staged is None <==> authorized_rows(self@, task_rows(tasks@)).len() == 0,
            staged matches Some(batch) ==> batch.holds(
                authorized_rows(self@, task_rows(tasks@)),
            ),
    {
        let kept = self.authorized_tasks(tasks);
        if kept.len() == 0 {
            return None;
        }
        let id_of = |task: &'a PushTask| -> (id: Option<i64>)
            ensures
                id == task.id,
        {
            task.id
        };
        let namespace_of = |task: &'a PushTask| -> (name: &'a str)
            ensures
                name@ == task.namespace@,
        {
            task.namespace.as_str()
        };
        let task_name_of = |task: &'a PushTask| -> (name: &'a str)
            ensures
                name@ == task.task_name@,
        {
            task.task_name.as_str()
        };
        let context_of = |task: &'a PushTask| -> (bytes: &'a [u8])
            ensures
                bytes@ == task.context@,
        {
            task.context.as_slice()
        };
        let status_of = |task: &'a PushTask| -> (wire: &'static str)
            ensures
                wire@ == task.status.wire(),
        {
            task.status.to_str()
        };
        let ids = unzip_task_list(kept.as_slice(), id_of);
        let namespaces = unzip_task_list(kept.as_slice(), namespace_of);
        let task_names = unzip_task_list(kept.as_slice(), task_name_of);
        let contexts = unzip_task_list(kept.as_slice(), context_of);
        let statuses = unzip_task_list(kept.as_slice(), status_of);
        let batch = PushBatch { ids, namespaces, task_names, contexts, statuses };
        proof {
            let rows = authorized_rows(self@, task_rows(tasks@));
            assert forall|i: int| 0 <= i < rows.len() implies {
                &&& batch.ids@[i] == (#[trigger] rows[i]).id
                &&& batch.namespaces@[i]@ == rows[i].namespace
                &&& batch.task_names@[i]@ == rows[i].task_name
                &&& batch.contexts@[i]@ == rows[i].context
                &&& batch.statuses@[i]@ == rows[i].status.wire()
            } by {
                assert(rows[i] == borrowed_rows(kept@)[i]);
                assert(rows[i] == kept@[i]@);
            }
        }
        Some(batch)
    }
}

/// The context of the first sample task, as bytes.
pub open spec fn sample_context() -> Seq<u8> {
    seq![97u8, 119u8, 97u8, 119u8, 97u8, 119u8, 100u8, 115u8, 100u8]
}

/// Three sample tasks in one namespace, all in processing: a new task with
/// a small context, and updates of the tasks 3 and 99999 with empty
/// contexts.
pub fn test_tasks(available_namespace: String) -> (tasks: [PushTask; 3])
    ensures
        tasks@[0]@ == (PushRow {
            id: None,
            namespace: available_namespace@,
            task_name: "test-task-name"@,
            context: sample_context(),
            status: TaskStatus::Processing,
        }),
        tasks@[1]@ == (PushRow {
            id: Some(3i64),
            namespace: available_namespace@,
            task_name: "unreachable"@,
            context: Seq::<u8>::empty(),
            status: TaskStatus::Processing,
        }),
        tasks@[2]@ == (PushRow {
            id: Some(99999i64),
            namespace: available_namespace@,
            task_name: "unreachable"@,
            context: Seq::<u8>::empty(),
            status: TaskStatus::Processing,
        }),
{
    let context: Vec<u8> = vec![97u8, 119u8, 97u8, 119u8, 97u8, 119u8, 100u8, 115u8, 100u8];
    assert(context@ =~= sample_context());
    let first = PushTask {
        id: None,
        namespace: available_namespace.clone(),
        task_name: String::from_str("test-task-name"),
        context,
        status: TaskStatus::Processing,
    };
    let second = PushTask {
        id: Some(3),
        namespace: available_namespace.clone(),
        task_name: String::from_str("unreachable"),
        context: Vec::new(),
        status: TaskStatus::Processing,
    };
    let third = PushTask {
        id: Some(99999),
        namespace: available_namespace,
        task_name: String::from_str("unreachable"),
        context: Vec::new(),
        status: TaskStatus::Processing,
    };
    [first, second, third]
}

} // verus!
