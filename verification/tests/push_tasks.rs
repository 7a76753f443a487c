use taskbase::push_tasks::{unzip_task_list, PushBatch, PushTask, TaskStatus};
use taskbase::service::DbService;

fn service(names: &[&str]) -> DbService {
    DbService::new(names.iter().map(|name| name.to_string()).collect()).unwrap()
}

fn task(id: Option<i64>, namespace: &str, name: &str, context: &[u8], status: TaskStatus) -> PushTask {
    PushTask {
        id,
        namespace: namespace.to_string(),
        task_name: name.to_string(),
        context: context.to_vec(),
        status,
    }
}

fn assert_aligned(batch: &PushBatch<'_>, rows: usize) {
    assert_eq!(batch.ids.len(), rows);
    assert_eq!(batch.namespaces.len(), rows);
    assert_eq!(batch.task_names.len(), rows);
    assert_eq!(batch.contexts.len(), rows);
    assert_eq!(batch.statuses.len(), rows);
}

#[test]
fn status_encodes_to_lowercase_wire_strings() {
    assert_eq!(TaskStatus::Blocking.to_str(), "blocking");
    assert_eq!(TaskStatus::Ready.to_str(), "ready");
    assert_eq!(TaskStatus::Processing.to_str(), "processing");
    assert_eq!(TaskStatus::Terminated.to_str(), "terminated");
}

#[test]
fn status_decodes_the_four_wire_strings() {
    assert_eq!(TaskStatus::from_str("blocking"), Some(TaskStatus::Blocking));
    assert_eq!(TaskStatus::from_str("ready"), Some(TaskStatus::Ready));
    assert_eq!(TaskStatus::from_str("processing"), Some(TaskStatus::Processing));
    assert_eq!(TaskStatus::from_str("terminated"), Some(TaskStatus::Terminated));
}

#[test]
fn status_round_trips() {
    for status in [
        TaskStatus::Blocking,
        TaskStatus::Ready,
        TaskStatus::Processing,
        TaskStatus::Terminated,
    ] {
        assert_eq!(TaskStatus::from_str(status.to_str()), Some(status));
    }
}

#[test]
fn status_decoding_anything_else_is_no_match() {
    for text in [
        "", "Ready", "READY", "ready ", " ready", "read", "readyy", "block", "done",
        "terminate", "processing/ready", "блок",
    ] {
        assert_eq!(TaskStatus::from_str(text), None);
    }
}

#[test]
fn unzip_applies_to_each_task_in_order() {
    let a = task(None, "default", "first", b"x", TaskStatus::Ready);
    let b = task(Some(8), "billing", "second", b"", TaskStatus::Blocking);
    let list = [&a, &b];
    assert_eq!(unzip_task_list(&list, |t| t.id), vec![None, Some(8)]);
    assert_eq!(unzip_task_list(&list, |t| t.task_name.as_str()), vec!["first", "second"]);
    let none: [&PushTask; 0] = [];
    assert_eq!(unzip_task_list(&none, |t| t.id), Vec::<Option<i64>>::new());
}

#[test]
fn authorized_tasks_keeps_order_and_drops_the_rest() {
    let scope = service(&["default", "billing"]);
    let tasks = [
        task(Some(1), "billing", "b1", b"", TaskStatus::Ready),
        task(Some(2), "other", "o1", b"", TaskStatus::Ready),
        task(Some(3), "default", "d1", b"", TaskStatus::Ready),
        task(Some(4), "billing", "b2", b"", TaskStatus::Ready),
    ];
    let kept = scope.authorized_tasks(&tasks);
    let ids: Vec<Option<i64>> = kept.iter().map(|t| t.id).collect();
    assert_eq!(ids, vec![Some(1), Some(3), Some(4)]);
}

#[test]
fn push_mixed_batch_submits_only_the_authorized_task() {
    let scope = service(&["default"]);
    let tasks = [
        task(None, "default", "make-report", b"payload", TaskStatus::Blocking),
        task(Some(3), "other", "elsewhere", b"zz", TaskStatus::Processing),
    ];
    let batch = scope.stage_push(&tasks).expect("one task is authorized");
    assert_aligned(&batch, 1);
    assert_eq!(batch.ids, vec![None]);
    assert_eq!(batch.namespaces, vec!["default"]);
    assert_eq!(batch.task_names, vec!["make-report"]);
    assert_eq!(batch.contexts, vec![&b"payload"[..]]);
    assert_eq!(batch.statuses, vec!["blocking"]);
}

#[test]
fn push_builds_five_aligned_columns_in_order() {
    let scope = service(&["default", "billing"]);
    let tasks = [
        task(None, "billing", "n0", b"\x00\x01", TaskStatus::Blocking),
        task(Some(7), "unknown", "n1", b"drop", TaskStatus::Ready),
        task(Some(-5), "default", "n2", b"", TaskStatus::Processing),
        task(Some(i64::MAX), "billing", "n3", b"last", TaskStatus::Terminated),
        task(Some(9), "default", "n4", b"r", TaskStatus::Ready),
    ];
    let batch = scope.stage_push(&tasks).unwrap();
    assert_aligned(&batch, 4);
    assert_eq!(batch.ids, vec![None, Some(-5), Some(i64::MAX), Some(9)]);
    assert_eq!(batch.namespaces, vec!["billing", "default", "billing", "default"]);
    assert_eq!(batch.task_names, vec!["n0", "n2", "n3", "n4"]);
    assert_eq!(
        batch.contexts,
        vec![&b"\x00\x01"[..], &b""[..], &b"last"[..], &b"r"[..]]
    );
    assert_eq!(batch.statuses, vec!["blocking", "processing", "terminated", "ready"]);
}

#[test]
fn push_of_nothing_stages_nothing() {
    let scope = service(&["default"]);
    assert!(scope.stage_push(&[]).is_none());
}

#[test]
fn push_of_only_unauthorized_tasks_stages_nothing() {
    let scope = service(&["default"]);
    let tasks = [
        task(None, "other", "a", b"", TaskStatus::Blocking),
        task(Some(1), "Default", "b", b"", TaskStatus::Ready),
        task(Some(2), "default ", "c", b"", TaskStatus::Ready),
        task(Some(3), "", "d", b"", TaskStatus::Ready),
    ];
    assert!(scope.stage_push(&tasks).is_none());
}

#[test]
fn push_without_authorized_namespaces_stages_nothing() {
    let scope = service(&[]);
    let tasks = [task(None, "default", "a", b"", TaskStatus::Blocking)];
    assert!(scope.stage_push(&tasks).is_none());
}

#[test]
fn push_keeps_repeated_tasks() {
    let scope = service(&["default"]);
    let tasks = [
        task(Some(3), "default", "same", b"c", TaskStatus::Ready),
        task(Some(3), "default", "same", b"c", TaskStatus::Ready),
    ];
    let batch = scope.stage_push(&tasks).unwrap();
    assert_aligned(&batch, 2);
    assert_eq!(batch.ids, vec![Some(3), Some(3)]);
}

#[test]
fn sample_tasks_are_one_new_and_two_updates() {
    let tasks = taskbase::push_tasks::test_tasks("default".to_string());
    assert_eq!(tasks.len(), 3);

    assert_eq!(tasks[0].id, None);
    assert_eq!(tasks[0].namespace, "default");
    assert_eq!(tasks[0].task_name, "test-task-name");
    assert_eq!(tasks[0].context, b"awawawdsd".to_vec());
    assert_eq!(tasks[0].status, TaskStatus::Processing);

    assert_eq!(tasks[1].id, Some(3));
    assert_eq!(tasks[1].namespace, "default");
    assert_eq!(tasks[1].task_name, "unreachable");
    assert_eq!(tasks[1].context, Vec::<u8>::new());
    assert_eq!(tasks[1].status, TaskStatus::Processing);

    assert_eq!(tasks[2].id, Some(99999));
    assert_eq!(tasks[2].namespace, "default");
    assert_eq!(tasks[2].task_name, "unreachable");
    assert_eq!(tasks[2].context, Vec::<u8>::new());
    assert_eq!(tasks[2].status, TaskStatus::Processing);
}

#[test]
fn sample_tasks_stage_as_one_batch_in_their_namespace() {
    let scope = service(&["queue"]);
    let tasks = taskbase::push_tasks::test_tasks("queue".to_string());
    let batch = scope.stage_push(&tasks).unwrap();
    assert_aligned(&batch, 3);
    assert_eq!(batch.ids, vec![None, Some(3), Some(99999)]);
    assert_eq!(batch.statuses, vec!["processing"; 3]);

    let elsewhere = service(&["default"]);
    assert!(elsewhere.stage_push(&tasks).is_none());
}
