use medulla::clock::{uuid_string, CalendarDate};
use medulla::entity::{Relation, RelationType, Task, TaskPriority, TaskStatus};
use medulla::queue::{get_blocked_tasks, get_next_task, get_ready_tasks, get_task_blockers};

fn create_task(title: &str, seq: u32, status: TaskStatus, priority: TaskPriority) -> Task {
    let mut task = Task::new(title.to_string(), seq);
    task.status = status;
    task.priority = priority;
    task
}

fn blocks(a: &Task, b: &Task) -> Relation {
    Relation::new(a.base.id, "task".to_string(), b.base.id, "task".to_string(), RelationType::Blocks)
}

#[test]
fn test_get_ready_tasks_no_blockers() {
    let task1 = create_task("Task 1", 1, TaskStatus::Todo, TaskPriority::Normal);
    let task2 = create_task("Task 2", 2, TaskStatus::InProgress, TaskPriority::High);
    let task3 = create_task("Task 3", 3, TaskStatus::Done, TaskPriority::Urgent);
    let tasks = vec![task1, task2, task3];

    let ready = get_ready_tasks(&tasks, &vec![], None);

    assert_eq!(ready.len(), 2);
    assert_eq!(ready[0].title, "Task 2");
    assert_eq!(ready[1].title, "Task 1");
}

#[test]
fn test_get_ready_tasks_with_blockers() {
    let task1 = create_task("Blocker Task", 1, TaskStatus::Todo, TaskPriority::Normal);
    let task2 = create_task("Blocked Task", 2, TaskStatus::Todo, TaskPriority::Urgent);
    let task3 = create_task("Free Task", 3, TaskStatus::Todo, TaskPriority::Low);
    let rels = vec![blocks(&task1, &task2)];
    let tasks = vec![task1, task2, task3];

    let ready = get_ready_tasks(&tasks, &rels, None);

    assert_eq!(ready.len(), 2);
    let titles: Vec<&str> = ready.iter().map(|t| t.title.as_str()).collect();
    assert!(!titles.contains(&"Blocked Task"));
    assert!(titles.contains(&"Blocker Task"));
    assert!(titles.contains(&"Free Task"));
}

#[test]
fn test_get_ready_tasks_done_blocker_releases_task() {
    let task1 = create_task("Done Blocker", 1, TaskStatus::Done, TaskPriority::Normal);
    let task2 = create_task("Released Task", 2, TaskStatus::Todo, TaskPriority::High);
    let rels = vec![blocks(&task1, &task2)];
    let tasks = vec![task1, task2];

    let ready = get_ready_tasks(&tasks, &rels, None);

    assert_eq!(ready.len(), 1);
    assert_eq!(ready[0].title, "Released Task");
}

#[test]
fn test_get_ready_tasks_priority_and_due_date_ordering() {
    let task1 = create_task("Normal no date", 1, TaskStatus::Todo, TaskPriority::Normal);
    let mut task2 = create_task("Normal early date", 2, TaskStatus::Todo, TaskPriority::Normal);
    task2.due_date = Some(CalendarDate { year: 2025, month: 1, day: 15 });
    let mut task3 = create_task("Normal late date", 3, TaskStatus::Todo, TaskPriority::Normal);
    task3.due_date = Some(CalendarDate { year: 2025, month: 2, day: 15 });
    let task4 = create_task("High no date", 4, TaskStatus::Todo, TaskPriority::High);
    let tasks = vec![task1, task2, task3, task4];

    let ready = get_ready_tasks(&tasks, &vec![], None);

    assert_eq!(ready.len(), 4);
    assert_eq!(ready[0].title, "High no date");
    assert_eq!(ready[1].title, "Normal early date");
    assert_eq!(ready[2].title, "Normal late date");
    assert_eq!(ready[3].title, "Normal no date");
}

#[test]
fn test_get_blocked_tasks() {
    let task1 = create_task("Blocker 1", 1, TaskStatus::Todo, TaskPriority::Normal);
    let task2 = create_task("Blocker 2", 2, TaskStatus::InProgress, TaskPriority::Normal);
    let task3 = create_task("Blocked Task", 3, TaskStatus::Todo, TaskPriority::Urgent);
    let task4 = create_task("Free Task", 4, TaskStatus::Todo, TaskPriority::Normal);
    let rels = vec![blocks(&task1, &task3), blocks(&task2, &task3)];
    let tasks = vec![task1, task2, task3, task4];

    let blocked = get_blocked_tasks(&tasks, &rels, None);

    assert_eq!(blocked.len(), 1);
    assert_eq!(blocked[0].title, "Blocked Task");
    assert_eq!(blocked[0].blockers.len(), 2);
    assert_eq!(blocked[0].blockers[0].title, "Blocker 1");
    assert_eq!(blocked[0].blockers[1].title, "Blocker 2");
}

#[test]
fn test_get_task_blockers() {
    let task1 = create_task("Blocker", 1, TaskStatus::Todo, TaskPriority::Normal);
    let task2 = create_task("Blocked", 2, TaskStatus::Todo, TaskPriority::Normal);
    let rels = vec![blocks(&task1, &task2)];
    let id2 = uuid_string(task2.base.id);
    let tasks = vec![task1, task2];

    let blockers = get_task_blockers(&tasks, &rels, &id2);

    assert_eq!(blockers.len(), 1);
    assert_eq!(blockers[0].title, "Blocker");
}

#[test]
fn test_get_task_blockers_nonexistent_task() {
    let blockers = get_task_blockers(&vec![], &vec![], "nonexistent-id");
    assert_eq!(blockers.len(), 0);
}

#[test]
fn test_get_next_task() {
    let task1 = create_task("Low priority", 1, TaskStatus::Todo, TaskPriority::Low);
    let task2 = create_task("Urgent priority", 2, TaskStatus::Todo, TaskPriority::Urgent);
    let tasks = vec![task1, task2];

    let next = get_next_task(&tasks, &vec![]);

    assert!(next.is_some());
    assert_eq!(next.unwrap().title, "Urgent priority");
}

#[test]
fn test_get_next_task_no_tasks() {
    let next = get_next_task(&vec![], &vec![]);
    assert!(next.is_none());
}

#[test]
fn test_get_ready_tasks_limit() {
    let mut tasks = vec![];
    for i in 1..=5 {
        tasks.push(create_task(&format!("Task {}", i), i, TaskStatus::Todo, TaskPriority::Normal));
    }
    let ready = get_ready_tasks(&tasks, &vec![], Some(3));
    assert_eq!(ready.len(), 3);
}

// ---------------------------------------------------------------------------
// Further cases
// ---------------------------------------------------------------------------

#[test]
fn ready_and_waiting_partition_open_tasks() {
    let a = create_task("A", 1, TaskStatus::Todo, TaskPriority::Normal);
    let b = create_task("B", 2, TaskStatus::Blocked, TaskPriority::Normal);
    let c = create_task("C", 3, TaskStatus::Todo, TaskPriority::Normal);
    let d = create_task("D", 4, TaskStatus::Done, TaskPriority::Normal);
    let rels = vec![blocks(&a, &c)];
    let tasks = vec![a, b, c, d];
    let ready: Vec<String> = get_ready_tasks(&tasks, &rels, None).into_iter().map(|t| t.title).collect();
    let waiting: Vec<String> = get_blocked_tasks(&tasks, &rels, None).into_iter().map(|t| t.title).collect();
    // A task marked blocked but without an open blocker is ready; one with an
    // open blocker waits; done tasks are in neither list.
    assert_eq!(ready, vec!["A".to_string(), "B".to_string()]);
    assert_eq!(waiting, vec!["C".to_string()]);
}

#[test]
fn limits_default_and_cap() {
    let mut tasks = vec![];
    for i in 1..=120 {
        tasks.push(create_task("T", i, TaskStatus::Todo, TaskPriority::Normal));
    }
    assert_eq!(get_ready_tasks(&tasks, &vec![], None).len(), 50);
    assert_eq!(get_ready_tasks(&tasks, &vec![], Some(500)).len(), 100);
    assert_eq!(get_ready_tasks(&tasks, &vec![], Some(0)).len(), 0);
    let first = get_ready_tasks(&tasks, &vec![], Some(2));
    assert_eq!((first[0].sequence_number, first[1].sequence_number), (1, 2));
}

#[test]
fn ready_entry_fields() {
    let mut t = create_task("Due", 9, TaskStatus::InProgress, TaskPriority::Urgent);
    t.due_date = Some(CalendarDate { year: 2030, month: 12, day: 1 });
    t.assignee = Some("bo".to_string());
    let id = uuid_string(t.base.id);
    let r = get_next_task(&vec![t], &vec![]).unwrap();
    assert_eq!(r.id, id);
    assert_eq!(r.status, "in_progress");
    assert_eq!(r.priority, "urgent");
    assert_eq!(r.due_date, Some("2030-12-01".to_string()));
    assert_eq!(r.assignee, Some("bo".to_string()));
}

#[test]
fn completing_the_last_blocker_makes_a_task_ready() {
    let blocker = create_task("Blocker", 1, TaskStatus::Todo, TaskPriority::Normal);
    let blocked = create_task("Blocked", 2, TaskStatus::Todo, TaskPriority::Urgent);
    let rels = vec![blocks(&blocker, &blocked)];
    let mut tasks = vec![blocker, blocked];

    let before: Vec<String> = get_ready_tasks(&tasks, &rels, None).into_iter().map(|t| t.title).collect();
    assert_eq!(before, vec!["Blocker".to_string()]);
    assert_eq!(get_blocked_tasks(&tasks, &rels, None).len(), 1);

    tasks[0].status = TaskStatus::Done;
    let after: Vec<String> = get_ready_tasks(&tasks, &rels, None).into_iter().map(|t| t.title).collect();
    assert_eq!(after, vec!["Blocked".to_string()]);
    assert!(get_blocked_tasks(&tasks, &rels, None).is_empty());
}

#[test]
fn next_task_is_first_ready_and_lists_partition() {
    let a = create_task("Same A", 1, TaskStatus::Todo, TaskPriority::High);
    let b = create_task("Same B", 1, TaskStatus::Todo, TaskPriority::High);
    let c = create_task("Blocked C", 3, TaskStatus::Todo, TaskPriority::Urgent);
    let d = create_task("Done D", 4, TaskStatus::Done, TaskPriority::Urgent);
    let rels = vec![blocks(&a, &c)];
    let tasks = vec![a, b, c, d];

    let next = get_next_task(&tasks, &rels).unwrap();
    let first = get_ready_tasks(&tasks, &rels, Some(1));
    assert_eq!(first.len(), 1);
    assert_eq!(next.id, first[0].id);
    assert_eq!(next.title, "Same A");

    let ready: Vec<String> = get_ready_tasks(&tasks, &rels, None).into_iter().map(|t| t.title).collect();
    let blocked: Vec<String> = get_blocked_tasks(&tasks, &rels, None).into_iter().map(|t| t.title).collect();
    assert_eq!(ready, vec!["Same A".to_string(), "Same B".to_string()]);
    assert_eq!(blocked, vec!["Blocked C".to_string()]);
}

#[test]
fn blocked_tasks_list_only_open_blockers() {
    let open = create_task("Open blocker", 1, TaskStatus::InProgress, TaskPriority::Normal);
    let done = create_task("Done blocker", 2, TaskStatus::Done, TaskPriority::Normal);
    let target = create_task("Target", 3, TaskStatus::Todo, TaskPriority::High);
    let freed = create_task("Freed", 4, TaskStatus::Todo, TaskPriority::High);
    let rels = vec![blocks(&open, &target), blocks(&done, &target), blocks(&done, &freed)];
    let open_id = uuid_string(open.base.id);
    let tasks = vec![open, done, target, freed];

    let blocked = get_blocked_tasks(&tasks, &rels, None);
    assert_eq!(blocked.len(), 1);
    assert_eq!(blocked[0].title, "Target");
    assert_eq!(blocked[0].blockers.len(), 1);
    assert_eq!(blocked[0].blockers[0].id, open_id);
    assert_eq!(blocked[0].blockers[0].status, "in_progress");
}
