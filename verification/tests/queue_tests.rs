use workshop_downloader::models::TaskStatus;
use workshop_downloader::queue::TaskQueue;

fn enqueue(q: &mut TaskQueue, pubfile: &str) -> String {
    let t = q
        .add_to_queue(
            pubfile.to_string(),
            format!("title-{}", pubfile),
            "alice".to_string(),
            "/tmp/out".to_string(),
            "431960".to_string(),
        )
        .expect("enqueue should succeed");
    t.id
}

#[test]
fn enqueue_then_list_holds_exactly_one_matching_task() {
    let mut q = TaskQueue::new();
    let t = q
        .add_to_queue(
            "123456".to_string(),
            "My Wallpaper".to_string(),
            "alice".to_string(),
            "/tmp/out".to_string(),
            "431960".to_string(),
        )
        .expect("enqueue should succeed");
    let listed = q.get_queue();
    assert_eq!(listed.len(), 1);
    let got = &listed[0];
    assert_eq!(got.id, t.id);
    assert_eq!(got.id.len(), 36);
    assert_eq!(got.pubfile_id, "123456");
    assert_eq!(got.title, "My Wallpaper");
    assert_eq!(got.account, "alice");
    assert_eq!(got.download_path, "/tmp/out");
    assert_eq!(got.app_id, "431960");
    assert_eq!(got.status, TaskStatus::Queued);
    assert_eq!(got.progress.cur_num, 0);
    assert_eq!(got.progress.total_num, 1);
    assert!(got.speed.is_none());
    assert!(got.eta.is_none());
    assert!(got.error.is_none());
    let with_id: Vec<_> = listed.iter().filter(|x| x.id == t.id).collect();
    assert_eq!(with_id.len(), 1);
}

#[test]
fn distinct_enqueues_get_distinct_ids() {
    let mut q = TaskQueue::new();
    let a = enqueue(&mut q, "1");
    let b = enqueue(&mut q, "2");
    assert_ne!(a, b);
    assert_eq!(q.len(), 2);
}

fn snapshot(q: &TaskQueue) -> Vec<(String, TaskStatus, Option<String>)> {
    q.get_queue()
        .into_iter()
        .map(|t| (t.id, t.status, t.error))
        .collect()
}

#[test]
fn remove_is_idempotent_and_tolerates_unknown_ids() {
    let mut q = TaskQueue::new();
    let a = enqueue(&mut q, "1");
    let _b = enqueue(&mut q, "2");
    q.remove_from_queue(&a);
    let after_first = snapshot(&q);
    assert_eq!(after_first.len(), 1);
    q.remove_from_queue(&a);
    assert_eq!(snapshot(&q), after_first);
    q.remove_from_queue(&"no-such-id".to_string());
    assert_eq!(snapshot(&q), after_first);
}

#[test]
fn update_on_removed_task_is_a_no_op() {
    let mut q = TaskQueue::new();
    let a = enqueue(&mut q, "1");
    let _b = enqueue(&mut q, "2");
    q.remove_from_queue(&a);
    let before = snapshot(&q);
    q.update_task_status(&a, TaskStatus::Failed, Some("gone".to_string()));
    assert_eq!(snapshot(&q), before);
}

#[test]
fn update_sets_status_and_error_of_the_matching_task() {
    let mut q = TaskQueue::new();
    let a = enqueue(&mut q, "1");
    let b = enqueue(&mut q, "2");
    q.update_task_status(&b, TaskStatus::Failed, Some("boom".to_string()));
    let listed = q.get_queue();
    assert_eq!(listed[0].id, a);
    assert_eq!(listed[0].status, TaskStatus::Queued);
    assert_eq!(listed[1].id, b);
    assert_eq!(listed[1].status, TaskStatus::Failed);
    assert_eq!(listed[1].error.as_deref(), Some("boom"));
}

#[test]
fn clear_completed_removes_exactly_the_finished_tasks_in_order() {
    let mut q = TaskQueue::new();
    let a = enqueue(&mut q, "1");
    let b = enqueue(&mut q, "2");
    let c = enqueue(&mut q, "3");
    let d = enqueue(&mut q, "4");
    let e = enqueue(&mut q, "5");
    q.update_task_status(&a, TaskStatus::Completed, None);
    q.update_task_status(&b, TaskStatus::Downloading, None);
    q.update_task_status(&c, TaskStatus::Failed, Some("x".to_string()));
    q.update_task_status(&d, TaskStatus::Paused, None);
    q.clear_completed();
    let rest: Vec<String> = q.get_queue().into_iter().map(|t| t.id).collect();
    assert_eq!(rest, vec![b, d, e]);
}

#[test]
fn free_slots_follow_the_number_of_running_tasks() {
    let mut q = TaskQueue::new();
    let a = enqueue(&mut q, "1");
    let b = enqueue(&mut q, "2");
    let _c = enqueue(&mut q, "3");
    assert_eq!(q.running_count(), 0);
    q.update_task_status(&a, TaskStatus::Downloading, None);
    q.update_task_status(&b, TaskStatus::Downloading, None);
    assert_eq!(q.running_count(), 2);
    assert!(q.has_free_slot(3));
    assert!(!q.has_free_slot(2));
    assert!(!q.has_free_slot(0));
}
