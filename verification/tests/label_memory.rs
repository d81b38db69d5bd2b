use todo_repository::repositories::label::test_utils::LabelRepositoryForMemory;
use todo_repository::repositories::label::{no_duplicate, Label, LabelRepository, UpdateLabel};
use todo_repository::repositories::validation::LengthError;
use todo_repository::repositories::RepositoryError;

#[test]
fn label_crud_scenario() {
    let mut repository = LabelRepositoryForMemory::new();
    let label_text = "test_label".to_string();

    // create
    let label = repository
        .create(label_text.to_string())
        .expect(&format!("[create] failed to create label"));
    assert_eq!(label.name, label_text);

    // all
    let labels = repository
        .all()
        .expect("[all] failed to get all labels");
    assert_eq!(labels.len(), 1);
    assert_eq!(labels[0].name, label_text);

    // delete
    repository
        .delete(label.id)
        .expect("[delete] failed to delete label");
    let labels = repository.all().unwrap();
    assert_eq!(labels.len(), 0);
}

#[test]
fn first_label_gets_id_1() {
    let mut repository = LabelRepositoryForMemory::new();
    assert_eq!(
        repository.create("work".to_string()),
        Ok(Label::new(1, "work".to_string()))
    );
    assert_eq!(
        repository.create("home".to_string()),
        Ok(Label::new(2, "home".to_string()))
    );
}

#[test]
fn a_name_in_use_is_a_duplicate() {
    let mut repository = LabelRepositoryForMemory::new();
    repository.create("work".to_string()).unwrap();
    repository.create("home".to_string()).unwrap();
    assert_eq!(
        repository.create("home".to_string()),
        Err(RepositoryError::Duplicate(2))
    );
    assert_eq!(
        repository.create("work".to_string()),
        Err(RepositoryError::Duplicate(1))
    );
    assert_eq!(
        repository.all(),
        Ok(vec![
            Label::new(1, "work".to_string()),
            Label::new(2, "home".to_string()),
        ])
    );
}

#[test]
fn a_name_is_free_again_after_its_label_is_deleted() {
    let mut repository = LabelRepositoryForMemory::new();
    repository.create("work".to_string()).unwrap();
    repository.delete(1).unwrap();
    assert_eq!(
        repository.create("work".to_string()),
        Ok(Label::new(2, "work".to_string()))
    );
}

#[test]
fn labels_are_listed_by_ascending_id() {
    let mut repository = LabelRepositoryForMemory::new();
    repository.create("c".to_string()).unwrap();
    repository.create("a".to_string()).unwrap();
    repository.create("b".to_string()).unwrap();
    repository.create("d".to_string()).unwrap();
    repository.delete(2).unwrap();
    assert_eq!(
        repository.all(),
        Ok(vec![
            Label::new(1, "c".to_string()),
            Label::new(3, "b".to_string()),
            Label::new(4, "d".to_string()),
        ])
    );
}

#[test]
fn deleting_a_missing_label_is_not_found() {
    let mut repository = LabelRepositoryForMemory::new();
    assert_eq!(repository.delete(1), Err(RepositoryError::NotFound(1)));
    repository.create("work".to_string()).unwrap();
    assert_eq!(repository.delete(1), Ok(()));
    assert_eq!(repository.delete(1), Err(RepositoryError::NotFound(1)));
    assert_eq!(repository.all(), Ok(vec![]));
}

#[test]
fn label_ids_are_not_given_out_twice() {
    let mut repository = LabelRepositoryForMemory::new();
    repository.create("a".to_string()).unwrap();
    repository.create("b".to_string()).unwrap();
    repository.delete(2).unwrap();
    repository.delete(1).unwrap();
    assert_eq!(
        repository.create("c".to_string()),
        Ok(Label::new(3, "c".to_string()))
    );
}

#[test]
fn no_duplicate_names_the_label_found() {
    assert_eq!(no_duplicate(None), Ok(()));
    assert_eq!(
        no_duplicate(Some(Label::new(12, "work".to_string()))),
        Err(RepositoryError::Duplicate(12))
    );
}

#[test]
fn label_name_has_1_to_20_characters() {
    let with = |name: &str| UpdateLabel {
        id: 1,
        name: name.to_string(),
    };
    assert_eq!(with("").validate(), Err(LengthError::TooShort));
    assert_eq!(with("a").validate(), Ok(()));
    assert_eq!(with(&"a".repeat(20)).validate(), Ok(()));
    assert_eq!(with(&"a".repeat(21)).validate(), Err(LengthError::TooLong));
    assert_eq!(with(&"é".repeat(20)).validate(), Ok(()));
    assert_eq!(with(&"é".repeat(21)).validate(), Err(LengthError::TooLong));
}
