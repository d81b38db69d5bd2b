//! Labels: the tags that can be attached to todos.

use super::validation::{check_length, length_checked, LengthError};
use super::RepositoryError;
use vstd::prelude::*;

pub mod test_utils;

verus! {

/// A tag with a server-assigned id and a name.
#[derive(Debug, PartialEq, Eq)]
pub struct Label {
    pub id: i32,
    pub name: String,
}

/// A label as a mathematical value.
pub struct LabelView {
    pub id: i32,
    pub name: Seq<char>,
}

impl DeepView for Label {
    type V = LabelView;

    open spec fn deep_view(&self) -> LabelView {
        LabelView { id: self.id, name: self.name@ }
    }
}

impl View for Label {
    type V = LabelView;

    open spec fn view(&self) -> LabelView {
        self.deep_view()
    }
}

impl Clone for Label {
    fn clone(&self) -> (copy: Self)
        ensures
            copy == *self,
    {
        Label { id: self.id, name: self.name.clone() }
    }
}

impl Label {
    /// The label with the given id and name.
    pub fn new(id: i32, name: String) -> (label: Self)
        ensures
            label.id == id,
            label.name == name,
    {
        Self { id, name }
    }
}

/// The least number of characters in the name of a label.
pub const NAME_MIN: u64 = 1;

/// The greatest number of characters in the name of a label.
pub const NAME_MAX: u64 = 20;

/// A label's id together with the name that the label is to get.
#[derive(Debug, PartialEq, Eq)]
pub struct UpdateLabel {
    pub id: i32,
    pub name: String,
}

impl DeepView for UpdateLabel {
    type V = LabelView;

    open spec fn deep_view(&self) -> LabelView {
        LabelView { id: self.id, name: self.name@ }
    }
}

impl View for UpdateLabel {
    type V = LabelView;

    open spec fn view(&self) -> LabelView {
        self.deep_view()
    }
}

impl Clone for UpdateLabel {
    fn clone(&self) -> (copy: Self)
        ensures
            copy == *self,
    {
        UpdateLabel { id: self.id, name: self.name.clone() }
    }
}

impl UpdateLabel {
    /// Checks that the name has between `NAME_MIN` and `NAME_MAX` characters.
    pub fn validate(&self) -> (result: Result<(), LengthError>)
        ensures
            result == length_checked(self.name@.len(), NAME_MIN, NAME_MAX),
    {
        check_length(&self.name, NAME_MIN, NAME_MAX)
    }
}

/// Whether a label can be created, given the label that was found to have
/// its name already: it cannot where there is one, and the error names that
/// label.
pub fn no_duplicate(existing: Option<Label>) -> (result: Result<(), RepositoryError>)
    ensures
        result == match existing {
            Some(label) => Err::<(), RepositoryError>(RepositoryError::Duplicate(label.id)),
            None => Ok::<(), RepositoryError>(()),
        },
{
    match existing {
        Some(label) => Err(RepositoryError::Duplicate(label.id)),
        None => Ok(()),
    }
}

/// Whether `list` holds each of `labels` once, and nothing else.
pub open spec fn lists_labels(list: Seq<LabelView>, labels: Map<i32, LabelView>) -> bool {
    &&& forall|i: int|
        0 <= i < list.len() ==> labels.contains_key((#[trigger] list[i]).id) && labels[list[i].id]
            == list[i]
    &&& forall|id: i32| #[trigger]
        labels.contains_key(id) ==> exists|i: int| 0 <= i < list.len() && (#[trigger] list[i]).id == id
}

/// Whether the ids of `list` go up from each label to the next.
pub open spec fn ascending_by_id(list: Seq<LabelView>) -> bool {
    forall|i: int, j: int|
        0 <= i < j < list.len() ==> (#[trigger] list[i]).id < (#[trigger] list[j]).id
}

/// Whether one of `labels` has the given name.
pub open spec fn name_in_use(labels: Map<i32, LabelView>, name: Seq<char>) -> bool {
    exists|id: i32| #[trigger] labels.contains_key(id) && labels[id].name == name
}

/// What a backend that stores labels does, whatever it stores them in.
///
/// The contract is stated over the labels that the repository holds, by id.
/// An operation that fails leaves the labels as they were. A backend may
/// fail with `Unexpected` where its storage fails.
pub trait LabelRepository {
    /// The labels that the repository holds, by id.
    spec fn labels(&self) -> Map<i32, LabelView>;

    /// Stores a new label with the given name under an id that no label has
    /// yet, and returns it. Fails with `Duplicate` and the id of the label
    /// that has the name, where one has it.
    fn create(&mut self, name: String) -> (result: Result<Label, RepositoryError>)
        ensures
            match result {
                Ok(label) => {
                    &&& !name_in_use(old(self).labels(), name@)
                    &&& !old(self).labels().contains_key(label.id)
                    &&& label@.name == name@
                    &&& final(self).labels() == old(self).labels().insert(label.id, label@)
                },
                Err(RepositoryError::Duplicate(existing)) => {
                    &&& old(self).labels().contains_key(existing)
                    &&& old(self).labels()[existing].name == name@
                    &&& final(self).labels() == old(self).labels()
                },
                Err(RepositoryError::Unexpected(_)) => final(self).labels() == old(self).labels(),
                Err(RepositoryError::NotFound(_)) => false,
            },
    ;

    /// Returns every label that the repository holds, once, by ascending id.
    fn all(&self) -> (result: Result<Vec<Label>, RepositoryError>)
        ensures
            match result {
                Ok(list) => lists_labels(list.deep_view(), self.labels()) && ascending_by_id(
                    list.deep_view(),
                ),
                Err(error) => error is Unexpected,
            },
    ;

    /// Removes the label with the given id, or fails with `NotFound` and the
    /// id where the repository holds no such label.
    fn delete(&mut self, id: i32) -> (result: Result<(), RepositoryError>)
        ensures
            match result {
                Ok(()) => {
                    &&& old(self).labels().contains_key(id)
                    &&& final(self).labels() == old(self).labels().remove(id)
                },
                Err(RepositoryError::NotFound(missing)) => {
                    &&& missing == id
                    &&& !old(self).labels().contains_key(id)
                    &&& final(self).labels() == old(self).labels()
                },
                Err(RepositoryError::Unexpected(_)) => final(self).labels() == old(self).labels(),
                Err(RepositoryError::Duplicate(_)) => false,
            },
    ;
}

} // verus!
