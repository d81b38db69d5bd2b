//! A label repository that keeps its labels in memory: the reference for
//! what a backend does, and the backend to test against.

use super::{ascending_by_id, lists_labels, name_in_use, Label, LabelRepository, LabelView};
use crate::repositories::RepositoryError;
use std::collections::HashMap;
use vstd::prelude::*;
use vstd::string::StringExecFns;

verus! {

/// An in-memory label repository as a mathematical value.
pub struct LabelStoreView {
    /// The labels that are stored, by id.
    pub labels: Map<i32, LabelView>,
    /// The id that was given out last, 0 where none was.
    pub last_id: i32,
}

impl LabelStoreView {
    /// Every label is stored under its own id, every id in use was given
    /// out, and no two labels have the same name.
    pub open spec fn well_formed(self) -> bool {
        &&& 0 <= self.last_id
        &&& forall|id: i32| #[trigger]
            self.labels.contains_key(id) ==> 1 <= id <= self.last_id && self.labels[id].id == id
        &&& forall|a: i32, b: i32|
            #![trigger self.labels.contains_key(a), self.labels.contains_key(b)]
            self.labels.contains_key(a) && self.labels.contains_key(b) && a != b
                ==> self.labels[a].name != self.labels[b].name
    }

    /// Whether an id is left for another label.
    pub open spec fn can_create(self) -> bool {
        self.last_id < i32::MAX
    }

    /// The label that is created for `name`.
    pub open spec fn new_label(self, name: Seq<char>) -> LabelView {
        LabelView { id: (self.last_id + 1) as i32, name }
    }

    /// The repository after it has created a label for `name`.
    pub open spec fn create(self, name: Seq<char>) -> LabelStoreView {
        let label = self.new_label(name);
        LabelStoreView { labels: self.labels.insert(label.id, label), last_id: label.id }
    }

    /// The repository without label `id`.
    pub open spec fn delete(self, id: i32) -> LabelStoreView {
        LabelStoreView { labels: self.labels.remove(id), ..self }
    }
}

/// A label repository that keeps its labels in a map by id. Ids are given
/// out by counting up from 1, so an id is never given out twice, whatever
/// was deleted in between.
#[derive(Debug)]
pub struct LabelRepositoryForMemory {
    data: HashMap<i32, Label>,
    last_id: i32,
}

impl View for LabelRepositoryForMemory {
    type V = LabelStoreView;

    closed spec fn view(&self) -> LabelStoreView {
        LabelStoreView {
            labels: Map::new(|id: i32| self.data@.contains_key(id), |id: i32| self.data@[id]@),
            last_id: self.last_id,
        }
    }
}

impl LabelRepositoryForMemory {
    /// Every label is stored under its own id, every id in use was given
    /// out, and no two labels have the same name: the view is well formed.
    #[verifier::type_invariant]
    spec fn sound(self) -> bool {
        &&& 0 <= self.last_id
        &&& forall|id: i32| #[trigger]
            self.data@.contains_key(id) ==> 1 <= id <= self.last_id && self.data@[id].id == id
        &&& forall|a: i32, b: i32|
            #![trigger self.data@.contains_key(a), self.data@.contains_key(b)]
            self.data@.contains_key(a) && self.data@.contains_key(b) && a != b
                ==> self.data@[a].name@ != self.data@[b].name@
    }

    /// A repository without labels.
    pub fn new() -> (repository: Self)
        ensures
            repository@ == (LabelStoreView { labels: Map::empty(), last_id: 0 }),
            repository@.well_formed(),
    {
        let repository = Self { data: HashMap::new(), last_id: 0 };
        assert(repository@.labels =~= Map::empty());
        repository
    }

    /// The id of the label that has the given name, if one has it.
    fn id_of_name(&self, name: &String) -> (found: Option<i32>)
        ensures
            match found {
                Some(id) => self@.labels.contains_key(id) && self@.labels[id].name == name@,
                None => !name_in_use(self@.labels, name@),
            },
    {
        proof {
            use_type_invariant(self);
        }
        let mut id: i32 = 0;
        while id < self.last_id
            invariant
                0 <= id <= self.last_id,
                self.sound(),
                forall|key: i32|
                    key <= id && #[trigger] self.data@.contains_key(key) ==> self.data@[key].name@
                        != name@,
            decreases self.last_id - id,
        {
            id += 1;
            if let Some(label) = self.data.get(&id) {
                if label.name == *name {
                    return Some(id);
                }
            }
        }
        assert forall|key: i32| #[trigger] self@.labels.contains_key(key) implies self@.labels[key].name
            != name@ by {
            assert(self.data@.contains_key(key));
        }
        None
    }

    /// Stores `label` under its id. The map is taken out of the repository
    /// for the change and put back after it, so that the repository is sound
    /// at every step.
    fn put(&mut self, label: Label)
        requires
            1 <= label.id <= old(self)@.last_id,
            !old(self)@.labels.contains_key(label.id),
            !name_in_use(old(self)@.labels, label.name@),
        ensures
            final(self)@ == (LabelStoreView {
                labels: old(self)@.labels.insert(label.id, label@),
                ..old(self)@
            }),
    {
        proof {
            use_type_invariant(&*self);
        }
        let mut data: HashMap<i32, Label> = HashMap::new();
        core::mem::swap(&mut self.data, &mut data);
        proof {
            assert forall|key: i32| #[trigger] data@.contains_key(key) implies data@[key].name@
                != label.name@ by {
                assert(old(self)@.labels.contains_key(key));
            }
        }
        data.insert(label.id, label);
        self.data = data;
        assert(self@.labels =~= old(self)@.labels.insert(label.id, label@));
    }

    /// Takes the label with the given id out of the repository, if there is
    /// one. The map is handled as in `put`.
    fn take_out(&mut self, id: i32) -> (taken: Option<Label>)
        ensures
            taken is Some <==> old(self)@.labels.contains_key(id),
            final(self)@ == old(self)@.delete(id),
    {
        proof {
            use_type_invariant(&*self);
        }
        let mut data: HashMap<i32, Label> = HashMap::new();
        core::mem::swap(&mut self.data, &mut data);
        let taken = data.remove(&id);
        self.data = data;
        assert(self@.labels =~= old(self)@.labels.remove(id));
        taken
    }
}

impl LabelRepository for LabelRepositoryForMemory {
    open spec fn labels(&self) -> Map<i32, LabelView> {
        self@.labels
    }

    /// Stores a label with the given name under the id after the one given
    /// out last. Fails with `Duplicate` exactly where a label has the name,
    /// else with `Unexpected` exactly where no id is left, and then changes
    /// nothing.
    fn create(&mut self, name: String) -> (result: Result<Label, RepositoryError>)
        ensures
            old(self)@.well_formed(),
            final(self)@.well_formed(),
            match result {
                Ok(label) => {
                    &&& !name_in_use(old(self)@.labels, name@)
                    &&& old(self)@.can_create()
                    &&& label@ == old(self)@.new_label(name@)
                    &&& final(self)@ == old(self)@.create(name@)
                },
                Err(RepositoryError::Duplicate(_)) => name_in_use(old(self)@.labels, name@)
                    && final(self)@ == old(self)@,
                Err(_) => !name_in_use(old(self)@.labels, name@) && !old(self)@.can_create()
                    && final(self)@ == old(self)@,
            },
    {
        proof {
            use_type_invariant(&*self);
        }
        if let Some(existing) = self.id_of_name(&name) {
            return Err(RepositoryError::Duplicate(existing));
        }
        if self.last_id == i32::MAX {
            return Err(
                RepositoryError::Unexpected(String::from_str("no id is left for another label")),
            );
        }
        let id: i32 = self.last_id + 1;
        let label = Label::new(id, name);
        self.last_id = id;
        self.put(label.clone());
        proof {
            use_type_invariant(&*self);
        }
        Ok(label)
    }

    /// Returns copies of all labels by ascending id. Never fails.
    fn all(&self) -> (result: Result<Vec<Label>, RepositoryError>)
        ensures
            self@.well_formed(),
            result is Ok,
    {
        proof {
            use_type_invariant(self);
        }
        let mut list: Vec<Label> = Vec::new();
        let mut id: i32 = 0;
        while id < self.last_id
            invariant
                0 <= id <= self.last_id,
                self.sound(),
                forall|i: int|
                    0 <= i < list.len() ==> (#[trigger] list[i]).id <= id && self.data@.contains_key(
                        list[i].id,
                    ) && self.data@[list[i].id] == list[i],
                forall|i: int, j: int|
                    0 <= i < j < list.len() ==> (#[trigger] list[i]).id < (#[trigger] list[j]).id,
                forall|key: i32|
                    key <= id && #[trigger] self.data@.contains_key(key) ==> exists|i: int|
                        0 <= i < list.len() && (#[trigger] list[i]).id == key,
            decreases self.last_id - id,
        {
            id += 1;
            let ghost before = list@;
            if let Some(label) = self.data.get(&id) {
                assert(self.data@.contains_key(id));
                list.push(label.clone());
                assert(list[list.len() - 1].id == id);
                assert forall|key: i32|
                    key <= id && #[trigger] self.data@.contains_key(key) implies exists|i: int|
                    0 <= i < list.len() && (#[trigger] list[i]).id == key by {
                    if key != id {
                        let i = choose|i: int|
                            0 <= i < before.len() && (#[trigger] before[i]).id == key;
                        assert(list[i].id == key);
                    }
                }
            }
        }
        proof {
            let views = list.deep_view();
            assert forall|key: i32| #[trigger] self.labels().contains_key(key) implies exists|i: int|
                0 <= i < views.len() && (#[trigger] views[i]).id == key by {
                assert(self.data@.contains_key(key));
                let i = choose|i: int| 0 <= i < list.len() && (#[trigger] list[i]).id == key;
                assert(views[i].id == key);
            }
            assert(lists_labels(views, self.labels()));
            assert(ascending_by_id(views));
        }
        Ok(list)
    }

    /// Removes the label with the given id. Fails, and changes nothing, only
    /// where there is no such label.
    fn delete(&mut self, id: i32) -> (result: Result<(), RepositoryError>)
        ensures
            old(self)@.well_formed(),
            final(self)@.well_formed(),
            match result {
                Ok(()) => old(self)@.labels.contains_key(id) && final(self)@ == old(self)@.delete(id),
                Err(error) => !old(self)@.labels.contains_key(id) && error
                    == RepositoryError::NotFound(id) && final(self)@ == old(self)@,
            },
    {
        proof {
            use_type_invariant(&*self);
        }
        let taken = self.take_out(id);
        proof {
            use_type_invariant(&*self);
        }
        match taken {
            Some(_) => Ok(()),
            None => {
                assert(self@.labels =~= old(self)@.labels);
                Err(RepositoryError::NotFound(id))
            },
        }
    }
}

/// A repository that is well formed stays so, whatever is done to it, and
/// the id that was given out last never goes down. A label is created only
/// under a name that is not in use.
pub proof fn lemma_label_store_stays_well_formed(store: LabelStoreView, name: Seq<char>, id: i32)
    requires
        store.well_formed(),
    ensures
        store.can_create() && !name_in_use(store.labels, name) ==> store.create(name).well_formed(),
        store.can_create() ==> store.create(name).last_id > store.last_id,
        store.delete(id).well_formed(),
        store.delete(id).last_id == store.last_id,
{
}

/// The id of a new label is above every id that is in use and above every id
/// that was given out before, so no id is given out twice.
pub proof fn lemma_new_label_id_is_fresh(store: LabelStoreView, name: Seq<char>)
    requires
        store.well_formed(),
        store.can_create(),
    ensures
        store.new_label(name).id == store.last_id + 1,
        !store.labels.contains_key(store.new_label(name).id),
        forall|id: i32| #[trigger] store.labels.contains_key(id) ==> id < store.new_label(name).id,
{
}

/// A name belongs to one label at most, so the label that a duplicate is
/// reported against is the only one with the name.
pub proof fn lemma_name_has_one_label(store: LabelStoreView, a: i32, b: i32)
    requires
        store.well_formed(),
        store.labels.contains_key(a),
        store.labels.contains_key(b),
        store.labels[a].name == store.labels[b].name,
    ensures
        a == b,
{
}

/// A label that was created is in the repository under its id, its name is
/// in use from then on, and the labels that were there are there as before.
pub proof fn lemma_created_label_is_stored(store: LabelStoreView, name: Seq<char>)
    requires
        store.well_formed(),
        store.can_create(),
    ensures
        store.create(name).labels.contains_key(store.new_label(name).id),
        store.create(name).labels[store.new_label(name).id] == store.new_label(name),
        name_in_use(store.create(name).labels, name),
        forall|id: i32| #[trigger]
            store.labels.contains_key(id) ==> store.create(name).labels.contains_key(id)
                && store.create(name).labels[id] == store.labels[id],
{
    assert(store.create(name).labels.contains_key(store.new_label(name).id));
}

/// A label that was deleted is not in the repository any more, and its name
/// is free again.
pub proof fn lemma_deleted_label_is_gone(store: LabelStoreView, id: i32)
    requires
        store.well_formed(),
        store.labels.contains_key(id),
    ensures
        !store.delete(id).labels.contains_key(id),
        !name_in_use(store.delete(id).labels, store.labels[id].name),
{
    let after = store.delete(id).labels;
    assert forall|other: i32| #[trigger] after.contains_key(other) implies after[other].name
        != store.labels[id].name by {
        assert(store.labels.contains_key(other));
    }
}

} // verus!
