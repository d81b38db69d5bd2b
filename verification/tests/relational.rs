use todo_repository::repositories::label::Label;
use todo_repository::repositories::todo::{
    entity_from_rows, CreateTodo, TodoChange, TodoEntity, TodoWithLabelFromRow, UpdateTodo,
};
use todo_repository::repositories::validation::{check_length, LengthError};
use todo_repository::repositories::{removal_outcome, BackendFailure, RepositoryError};

fn joined(id: i32, text: &str, label: Option<(i32, &str)>) -> TodoWithLabelFromRow {
    TodoWithLabelFromRow {
        id,
        text: text.to_string(),
        completed: false,
        label_id: label.map(|(id, _)| id),
        label_name: label.map(|(_, name)| name.to_string()),
    }
}

#[test]
fn entity_from_no_rows_is_not_found() {
    assert_eq!(
        entity_from_rows(5, vec![]),
        Err(RepositoryError::NotFound(5))
    );
}

#[test]
fn entity_from_rows_is_the_folded_todo() {
    let rows = vec![
        joined(5, "five", Some((1, "L1"))),
        joined(5, "five", Some((2, "L2"))),
    ];
    assert_eq!(
        entity_from_rows(5, rows),
        Ok(TodoEntity {
            id: 5,
            text: "five".to_string(),
            completed: false,
            labels: vec![
                Label::new(1, "L1".to_string()),
                Label::new(2, "L2".to_string()),
            ],
        })
    );
}

#[test]
fn entity_from_rows_is_the_first_of_several() {
    let rows = vec![
        joined(2, "two", None),
        joined(1, "one", Some((1, "L1"))),
        joined(2, "two", Some((3, "L3"))),
    ];
    assert_eq!(
        entity_from_rows(1, rows),
        Ok(TodoEntity {
            id: 2,
            text: "two".to_string(),
            completed: false,
            labels: vec![Label::new(3, "L3".to_string())],
        })
    );
}

#[test]
fn missing_row_means_not_found() {
    assert_eq!(
        RepositoryError::from_failure(3, BackendFailure::RowNotFound),
        RepositoryError::NotFound(3)
    );
}

#[test]
fn other_failure_is_unexpected_with_its_message() {
    assert_eq!(
        RepositoryError::from_failure(3, BackendFailure::Other("connection reset".to_string())),
        RepositoryError::Unexpected("connection reset".to_string())
    );
}

#[test]
fn removing_no_row_means_not_found() {
    assert_eq!(removal_outcome(9, 0), Err(RepositoryError::NotFound(9)));
    assert_eq!(removal_outcome(9, 1), Ok(()));
    assert_eq!(removal_outcome(9, 3), Ok(()));
}

#[test]
fn settle_takes_from_the_todo_what_the_change_leaves_open() {
    let current = TodoEntity {
        id: 1,
        text: "old".to_string(),
        completed: true,
        labels: vec![],
    };
    let open = UpdateTodo {
        text: None,
        completed: None,
        label_ids: None,
    };
    assert_eq!(
        open.settle(&current),
        TodoChange {
            text: "old".to_string(),
            completed: true,
            label_ids: None,
        }
    );
    let full = UpdateTodo {
        text: Some("new".to_string()),
        completed: Some(false),
        label_ids: Some(vec![3, 4]),
    };
    assert_eq!(
        full.settle(&current),
        TodoChange {
            text: "new".to_string(),
            completed: false,
            label_ids: Some(vec![3, 4]),
        }
    );
    let cleared = UpdateTodo {
        text: None,
        completed: Some(false),
        label_ids: Some(vec![]),
    };
    assert_eq!(
        cleared.settle(&current),
        TodoChange {
            text: "old".to_string(),
            completed: false,
            label_ids: Some(vec![]),
        }
    );
}

#[test]
fn length_is_counted_in_characters() {
    assert_eq!(check_length(&"abc".to_string(), 3, 3), Ok(()));
    assert_eq!(
        check_length(&"ab".to_string(), 3, 3),
        Err(LengthError::TooShort)
    );
    assert_eq!(
        check_length(&"abcd".to_string(), 3, 3),
        Err(LengthError::TooLong)
    );
    assert_eq!(check_length(&"日本語".to_string(), 3, 3), Ok(()));
    assert_eq!(check_length(&"".to_string(), 0, 0), Ok(()));
}

#[test]
fn length_below_the_lower_bound_is_reported_first() {
    assert_eq!(
        check_length(&"abc".to_string(), 5, 2),
        Err(LengthError::TooShort)
    );
    assert_eq!(
        check_length(&"abcdef".to_string(), 5, 2),
        Err(LengthError::TooLong)
    );
}

#[test]
fn todo_text_has_1_to_100_characters() {
    let with = |text: String| CreateTodo::new(text, vec![]);
    assert_eq!(with("".to_string()).validate(), Err(LengthError::TooShort));
    assert_eq!(with("a".to_string()).validate(), Ok(()));
    assert_eq!(with("a".repeat(100)).validate(), Ok(()));
    assert_eq!(with("a".repeat(101)).validate(), Err(LengthError::TooLong));
    assert_eq!(with("あ".repeat(100)).validate(), Ok(()));
}

#[test]
fn change_without_text_is_valid() {
    let change = |text: Option<String>| UpdateTodo {
        text,
        completed: None,
        label_ids: None,
    };
    assert_eq!(change(None).validate(), Ok(()));
    assert_eq!(
        change(Some("".to_string())).validate(),
        Err(LengthError::TooShort)
    );
    assert_eq!(change(Some("x".repeat(100))).validate(), Ok(()));
    assert_eq!(
        change(Some("x".repeat(101))).validate(),
        Err(LengthError::TooLong)
    );
}

#[test]
fn errors_have_their_http_status() {
    assert_eq!(RepositoryError::NotFound(1).status_code(), 404);
    assert_eq!(RepositoryError::Duplicate(1).status_code(), 409);
    assert_eq!(
        RepositoryError::Unexpected("down".to_string()).status_code(),
        500
    );
}
