use task_repo::repositories::{
    CreateTaskPayload, RepositoryError, Task, TaskRepository, TaskRepositoryForMemory,
    UpdateTaskPayload,
};

fn payload(text: &str) -> CreateTaskPayload {
    CreateTaskPayload { text: text.to_string() }
}

#[test]
fn scenario() {
    let mut repository = TaskRepositoryForMemory::new();
    let text = "test_task";

    // create
    let created = repository.create(payload(text)).expect("[create] failed.");
    assert_eq!(text, created.text);
    assert!(!created.completed);

    // find one
    let task = repository.find(created.id).expect("[find one] failed.");
    assert_eq!(text, task.text);

    // find all
    let tasks = repository.all();
    assert_eq!(1, tasks.len());
    assert_eq!(created, *tasks.first().unwrap());

    // update
    let updated_text = "Successfully updated.";
    let update_payload = UpdateTaskPayload {
        text: Some(updated_text.to_string()),
        completed: Some(false),
    };
    let updated = repository
        .update(created.id, update_payload)
        .expect("[update] failed.");
    assert_eq!(updated_text, updated.text);
    assert!(!updated.completed);

    // delete
    repository.delete(created.id).expect("[delete] failed.");
    let tasks = repository.all();
    assert_eq!(0, tasks.len());
}

#[test]
fn new_task_is_not_completed() {
    let t = Task::new(4, "x".to_string());
    assert_eq!(t, Task { id: 4, text: "x".to_string(), completed: false });
}

#[test]
fn tasks_differing_in_one_field_are_not_equal() {
    let a = Task::new(1, "x".to_string());
    assert_ne!(a, Task::new(2, "x".to_string()));
    assert_ne!(a, Task::new(1, "y".to_string()));
    assert_ne!(a, Task { id: 1, text: "x".to_string(), completed: true });
    assert_eq!(a.duplicate(), a);
}

#[test]
fn create_then_find_returns_the_created_task() {
    let mut repository = TaskRepositoryForMemory::new();
    repository.create(payload("first")).unwrap();
    let created = repository.create(payload("second")).unwrap();
    assert_eq!(created, Task { id: 2, text: "second".to_string(), completed: false });
    assert_eq!(repository.find(created.id), Ok(created));
}

#[test]
fn ids_are_distinct_and_increasing_across_deletes() {
    let mut repository = TaskRepositoryForMemory::new();
    let a = repository.create(payload("a")).unwrap();
    let b = repository.create(payload("b")).unwrap();
    repository.delete(b.id).unwrap();
    let c = repository.create(payload("c")).unwrap();
    assert_eq!((a.id, b.id, c.id), (1, 2, 3));
}

#[test]
fn many_creates_keep_every_task() {
    let mut repository = TaskRepositoryForMemory::new();
    let mut ids = Vec::new();
    for k in 0..100 {
        ids.push(repository.create(payload(&format!("task {}", k))).unwrap().id);
    }
    let expected: Vec<i32> = (1..=100).collect();
    assert_eq!(ids, expected);
    let all = repository.all();
    assert_eq!(all.len(), 100);
    for (k, t) in all.iter().enumerate() {
        assert_eq!(t.id, ids[k]);
        assert_eq!(t.text, format!("task {}", k));
    }
}

#[test]
fn all_keeps_insertion_order() {
    let mut repository = TaskRepositoryForMemory::new();
    repository.create(payload("a")).unwrap();
    repository.create(payload("b")).unwrap();
    repository.create(payload("c")).unwrap();
    repository.delete(2).unwrap();
    let texts: Vec<String> = repository.all().into_iter().map(|t| t.text).collect();
    assert_eq!(texts, vec!["a".to_string(), "c".to_string()]);
}

#[test]
fn update_text_only_keeps_completed() {
    let mut repository = TaskRepositoryForMemory::new();
    let t = repository.create(payload("a")).unwrap();
    repository
        .update(t.id, UpdateTaskPayload { text: None, completed: Some(true) })
        .unwrap();
    let u = repository
        .update(t.id, UpdateTaskPayload { text: Some("b".to_string()), completed: None })
        .unwrap();
    assert_eq!(u, Task { id: t.id, text: "b".to_string(), completed: true });
    assert_eq!(repository.find(t.id), Ok(u));
}

#[test]
fn update_completed_only_keeps_text() {
    let mut repository = TaskRepositoryForMemory::new();
    let t = repository.create(payload("a")).unwrap();
    let u = repository
        .update(t.id, UpdateTaskPayload { text: None, completed: Some(true) })
        .unwrap();
    assert_eq!(u, Task { id: t.id, text: "a".to_string(), completed: true });
}

#[test]
fn empty_update_changes_nothing() {
    let mut repository = TaskRepositoryForMemory::new();
    let t = repository.create(payload("a")).unwrap();
    let u = repository
        .update(t.id, UpdateTaskPayload { text: None, completed: None })
        .unwrap();
    assert_eq!(u, t);
}

#[test]
fn never_issued_id_is_not_found() {
    let mut repository = TaskRepositoryForMemory::new();
    repository.create(payload("a")).unwrap();
    for id in [0, -1, 2, i32::MAX] {
        assert_eq!(repository.find(id), Err(RepositoryError::NotFound(id)));
        assert_eq!(
            repository.update(id, UpdateTaskPayload { text: None, completed: Some(true) }),
            Err(RepositoryError::NotFound(id))
        );
        assert_eq!(repository.delete(id), Err(RepositoryError::NotFound(id)));
    }
    assert_eq!(repository.all().len(), 1);
}

#[test]
fn delete_removes_the_task() {
    let mut repository = TaskRepositoryForMemory::new();
    let a = repository.create(payload("a")).unwrap();
    let b = repository.create(payload("b")).unwrap();
    assert_eq!(repository.delete(a.id), Ok(()));
    assert_eq!(repository.find(a.id), Err(RepositoryError::NotFound(a.id)));
    assert!(repository.all().iter().all(|t| t.id != a.id));
    assert_eq!(repository.all(), vec![b]);
    assert_eq!(repository.delete(a.id), Err(RepositoryError::NotFound(a.id)));
}

#[test]
fn empty_repository_lists_nothing() {
    let repository = TaskRepositoryForMemory::new();
    assert!(repository.all().is_empty());
    assert_eq!(repository.find(1), Err(RepositoryError::NotFound(1)));
}

#[test]
fn find_after_update_gives_updated_task() {
    let mut repository = TaskRepositoryForMemory::new();
    repository.create(payload("a")).unwrap();
    let t = repository.create(payload("b")).unwrap();
    let u = repository
        .update(t.id, UpdateTaskPayload { text: Some("c".to_string()), completed: Some(true) })
        .unwrap();
    assert_eq!(repository.find(t.id), Ok(u));
}

#[test]
fn repeated_update_changes_nothing_more() {
    let mut repository = TaskRepositoryForMemory::new();
    let t = repository.create(payload("a")).unwrap();
    let p = UpdateTaskPayload { text: Some("z".to_string()), completed: None };
    let first = repository.update(t.id, p.clone()).unwrap();
    let before = repository.all();
    let second = repository.update(t.id, p).unwrap();
    assert_eq!(first, second);
    assert_eq!(repository.all(), before);
}

#[test]
fn all_lists_increasing_distinct_ids() {
    let mut repository = TaskRepositoryForMemory::new();
    for k in 0..5 {
        repository.create(payload(&format!("t{}", k))).unwrap();
    }
    repository.delete(3).unwrap();
    let ids: Vec<i32> = repository.all().iter().map(|t| t.id).collect();
    assert_eq!(ids, vec![1, 2, 4, 5]);
}

#[test]
fn id_not_reused_after_deleting_the_latest() {
    let mut repository = TaskRepositoryForMemory::new();
    let a = repository.create(payload("a")).unwrap();
    repository.delete(a.id).unwrap();
    let b = repository.create(payload("b")).unwrap();
    assert!(b.id > a.id);
    assert_eq!(repository.find(a.id), Err(RepositoryError::NotFound(a.id)));
}
