use todo_repository::repositories::label::test_utils::LabelRepositoryForMemory;
use todo_repository::repositories::label::{Label, LabelRepository};
use todo_repository::repositories::todo::test_utils::TodoRepositoryForMemory;
use todo_repository::repositories::todo::{CreateTodo, TodoEntity, TodoRepository, UpdateTodo};
use todo_repository::repositories::RepositoryError;

fn work() -> Label {
    Label::new(1, "work".to_string())
}

fn home() -> Label {
    Label::new(2, "home".to_string())
}

#[test]
fn todo_crud_scenario() {
    let text = "todo text".to_string();
    let id = 1;
    let expected = TodoEntity::new(id, text.clone(), vec![]);

    // create
    let label_ids = vec![];
    let labels = vec![];
    let mut repository = TodoRepositoryForMemory::new(labels);
    let todo = repository
        .create(CreateTodo::new(text, label_ids))
        .expect("failed to create todo");
    assert_eq!(todo, expected);

    // find
    let todo = repository.find(todo.id).unwrap();
    assert_eq!(todo, expected);

    // all
    let todos = repository.all().expect("failed to get all todos");
    assert_eq!(todos, vec![expected.clone()]);

    // update
    let updated_text = "updated todo text".to_string();
    let todo = repository
        .update(
            id,
            UpdateTodo {
                text: Some(updated_text.clone()),
                completed: Some(true),
                label_ids: Some(vec![]),
            },
        )
        .expect("failed to update");
    assert_eq!(
        todo,
        TodoEntity {
            id,
            text: updated_text.clone(),
            completed: true,
            labels: vec![],
        }
    );

    // delete
    let result = repository.delete(id);
    assert!(result.is_ok());
}

#[test]
fn created_todo_is_found_as_returned() {
    let mut repository = TodoRepositoryForMemory::new(vec![work(), home()]);
    let created = repository
        .create(CreateTodo::new("water the plants".to_string(), vec![2, 1]))
        .unwrap();
    assert_eq!(
        created,
        TodoEntity {
            id: 1,
            text: "water the plants".to_string(),
            completed: false,
            labels: vec![home(), work()],
        }
    );
    assert_eq!(repository.find(created.id), Ok(created));
}

#[test]
fn scenario_create_update_delete() {
    let mut labels = LabelRepositoryForMemory::new();
    let label = labels.create("work".to_string()).unwrap();
    assert_eq!(label, work());
    let mut repository = TodoRepositoryForMemory::new(labels.all().unwrap());
    let created = repository
        .create(CreateTodo::new("buy milk".to_string(), vec![1]))
        .unwrap();
    assert_eq!(
        created,
        TodoEntity {
            id: 1,
            text: "buy milk".to_string(),
            completed: false,
            labels: vec![work()],
        }
    );
    let updated = repository
        .update(
            1,
            UpdateTodo {
                text: None,
                completed: Some(true),
                label_ids: None,
            },
        )
        .unwrap();
    assert_eq!(
        updated,
        TodoEntity {
            id: 1,
            text: "buy milk".to_string(),
            completed: true,
            labels: vec![work()],
        }
    );
    assert_eq!(repository.find(1), Ok(updated));
    assert_eq!(repository.delete(1), Ok(()));
    assert_eq!(repository.find(1), Err(RepositoryError::NotFound(1)));
}

#[test]
fn update_keeps_what_it_does_not_name() {
    let mut repository = TodoRepositoryForMemory::new(vec![work(), home()]);
    repository
        .create(CreateTodo::new("first".to_string(), vec![1, 2]))
        .unwrap();

    let only_text = repository
        .update(
            1,
            UpdateTodo {
                text: Some("second".to_string()),
                completed: None,
                label_ids: None,
            },
        )
        .unwrap();
    assert_eq!(only_text.text, "second");
    assert!(!only_text.completed);
    assert_eq!(only_text.labels, vec![work(), home()]);

    let only_state = repository
        .update(
            1,
            UpdateTodo {
                text: None,
                completed: Some(true),
                label_ids: None,
            },
        )
        .unwrap();
    assert_eq!(only_state.text, "second");
    assert!(only_state.completed);
    assert_eq!(only_state.labels, vec![work(), home()]);

    let only_labels = repository
        .update(
            1,
            UpdateTodo {
                text: None,
                completed: None,
                label_ids: Some(vec![2]),
            },
        )
        .unwrap();
    assert_eq!(only_labels.text, "second");
    assert!(only_labels.completed);
    assert_eq!(only_labels.labels, vec![home()]);

    let nothing = repository
        .update(
            1,
            UpdateTodo {
                text: None,
                completed: None,
                label_ids: None,
            },
        )
        .unwrap();
    assert_eq!(nothing, only_labels);
    assert_eq!(repository.find(1), Ok(nothing));
}

#[test]
fn empty_label_ids_clear_the_labels() {
    let mut repository = TodoRepositoryForMemory::new(vec![work(), home()]);
    repository
        .create(CreateTodo::new("tidy up".to_string(), vec![1, 2]))
        .unwrap();
    let cleared = repository
        .update(
            1,
            UpdateTodo {
                text: None,
                completed: None,
                label_ids: Some(vec![]),
            },
        )
        .unwrap();
    assert_eq!(cleared.labels, vec![]);
    assert_eq!(cleared.text, "tidy up");
    let again = repository
        .update(
            1,
            UpdateTodo {
                text: None,
                completed: None,
                label_ids: Some(vec![]),
            },
        )
        .unwrap();
    assert_eq!(again, cleared);
}

#[test]
fn deleted_todo_is_gone() {
    let mut repository = TodoRepositoryForMemory::new(vec![]);
    repository
        .create(CreateTodo::new("one".to_string(), vec![]))
        .unwrap();
    let two = repository
        .create(CreateTodo::new("two".to_string(), vec![]))
        .unwrap();
    assert_eq!(repository.delete(1), Ok(()));
    assert_eq!(repository.find(1), Err(RepositoryError::NotFound(1)));
    assert_eq!(repository.delete(1), Err(RepositoryError::NotFound(1)));
    assert_eq!(repository.find(2), Ok(two));
}

#[test]
fn missing_todo_is_not_found() {
    let mut repository = TodoRepositoryForMemory::new(vec![]);
    assert_eq!(repository.find(7), Err(RepositoryError::NotFound(7)));
    assert_eq!(
        repository.update(
            7,
            UpdateTodo {
                text: Some("x".to_string()),
                completed: None,
                label_ids: None,
            },
        ),
        Err(RepositoryError::NotFound(7))
    );
    assert_eq!(repository.delete(7), Err(RepositoryError::NotFound(7)));
    assert_eq!(repository.all(), Ok(vec![]));
    assert_eq!(repository.find(-1), Err(RepositoryError::NotFound(-1)));
}

#[test]
fn ids_are_not_given_out_twice() {
    let mut repository = TodoRepositoryForMemory::new(vec![]);
    let one = repository
        .create(CreateTodo::new("one".to_string(), vec![]))
        .unwrap();
    let two = repository
        .create(CreateTodo::new("two".to_string(), vec![]))
        .unwrap();
    assert_eq!((one.id, two.id), (1, 2));
    repository.delete(1).unwrap();
    let three = repository
        .create(CreateTodo::new("three".to_string(), vec![]))
        .unwrap();
    assert_eq!(three.id, 3);
    assert_eq!(repository.find(2), Ok(two));
    repository.delete(3).unwrap();
    let four = repository
        .create(CreateTodo::new("four".to_string(), vec![]))
        .unwrap();
    assert_eq!(four.id, 4);
}

#[test]
fn all_lists_every_todo_latest_first() {
    let mut repository = TodoRepositoryForMemory::new(vec![work()]);
    let one = repository
        .create(CreateTodo::new("one".to_string(), vec![1]))
        .unwrap();
    let two = repository
        .create(CreateTodo::new("two".to_string(), vec![]))
        .unwrap();
    let three = repository
        .create(CreateTodo::new("three".to_string(), vec![1]))
        .unwrap();
    repository.delete(two.id).unwrap();
    assert_eq!(repository.all(), Ok(vec![three, one]));
}

#[test]
fn resolve_labels_keeps_the_order_of_the_ids() {
    let repository = TodoRepositoryForMemory::new(vec![work(), home()]);
    assert_eq!(repository.resolve_labels(vec![2, 1]), vec![home(), work()]);
    assert_eq!(repository.resolve_labels(vec![1, 2]), vec![work(), home()]);
    assert_eq!(repository.resolve_labels(vec![]), vec![]);
}

#[test]
fn resolve_labels_passes_over_unknown_ids() {
    let repository = TodoRepositoryForMemory::new(vec![work(), home()]);
    assert_eq!(repository.resolve_labels(vec![3, 2, 0, -2]), vec![home()]);
    assert_eq!(repository.resolve_labels(vec![9]), vec![]);
}

#[test]
fn resolve_labels_repeats_a_label_whose_id_is_repeated() {
    let repository = TodoRepositoryForMemory::new(vec![work(), home()]);
    assert_eq!(
        repository.resolve_labels(vec![1, 2, 1]),
        vec![work(), home(), work()]
    );
}

#[test]
fn resolve_labels_takes_the_first_label_with_an_id() {
    let repository = TodoRepositoryForMemory::new(vec![
        Label::new(1, "first".to_string()),
        Label::new(1, "second".to_string()),
    ]);
    assert_eq!(
        repository.resolve_labels(vec![1]),
        vec![Label::new(1, "first".to_string())]
    );
}

#[test]
fn unknown_label_ids_are_dropped_on_create_and_update() {
    let mut repository = TodoRepositoryForMemory::new(vec![work()]);
    let created = repository
        .create(CreateTodo::new("call".to_string(), vec![5, 1, 6]))
        .unwrap();
    assert_eq!(created.labels, vec![work()]);
    let updated = repository
        .update(
            1,
            UpdateTodo {
                text: None,
                completed: None,
                label_ids: Some(vec![8]),
            },
        )
        .unwrap();
    assert_eq!(updated.labels, vec![]);
}

fn round_trip<R: TodoRepository>(repository: &mut R, text: &str) -> (TodoEntity, TodoEntity) {
    let created = repository
        .create(CreateTodo::new(text.to_string(), vec![]))
        .unwrap();
    let found = repository.find(created.id).unwrap();
    (created, found)
}

#[test]
fn any_backend_finds_what_it_created() {
    let mut repository = TodoRepositoryForMemory::new(vec![]);
    let (created, found) = round_trip(&mut repository, "generic");
    assert_eq!(created, found);
    assert_eq!(created.text, "generic");
    assert_eq!(created.id, 1);
}
