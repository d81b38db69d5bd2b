//! A todo repository that keeps its todos in memory: the reference for what
//! a backend does, and the backend to test against.

use super::{CreateTodo, CreateTodoView, TodoEntity, TodoRepository, TodoView, UpdateTodo, UpdateTodoView};
use super::lists_todos;
use crate::repositories::label::{Label, LabelView};
use crate::repositories::RepositoryError;
use std::collections::HashMap;
use vstd::prelude::*;
use vstd::string::StringExecFns;

verus! {

/// The first of `labels` that has the given id, if one has it.
pub open spec fn label_with_id(labels: Seq<LabelView>, id: i32) -> Option<LabelView>
    decreases labels.len(),
{
    if labels.len() == 0 {
        None
    } else if labels.first().id == id {
        Some(labels.first())
    } else {
        label_with_id(labels.drop_first(), id)
    }
}

/// The labels among `labels` that `ids` stand for, in the order of `ids`. An
/// id that none of `labels` has stands for nothing, and an id that comes
/// twice has its label twice.
pub open spec fn resolved_labels(labels: Seq<LabelView>, ids: Seq<i32>) -> Seq<LabelView> {
    ids.filter_map(|id: i32| label_with_id(labels, id))
}

/// Whether every one of `attached` is one of `labels`.
pub open spec fn only_known(labels: Seq<LabelView>, attached: Seq<LabelView>) -> bool {
    forall|i: int| 0 <= i < attached.len() ==> labels.contains(#[trigger] attached[i])
}

/// An in-memory todo repository as a mathematical value.
pub struct TodoStoreView {
    /// The todos that are stored, by id.
    pub todos: Map<i32, TodoView>,
    /// The labels that todos can get.
    pub labels: Seq<LabelView>,
    /// The id that was given out last, 0 where none was.
    pub last_id: i32,
}

impl TodoStoreView {
    /// Every todo is stored under its own id, every id in use was given out,
    /// and a todo has no label but the repository's own.
    pub open spec fn well_formed(self) -> bool {
        &&& 0 <= self.last_id
        &&& forall|id: i32| #[trigger]
            self.todos.contains_key(id) ==> {
                &&& 1 <= id <= self.last_id
                &&& self.todos[id].id == id
                &&& only_known(self.labels, self.todos[id].labels)
            }
    }

    /// Whether an id is left for another todo.
    pub open spec fn can_create(self) -> bool {
        self.last_id < i32::MAX
    }

    /// The todo that `payload` creates.
    pub open spec fn new_todo(self, payload: CreateTodoView) -> TodoView {
        TodoView {
            id: (self.last_id + 1) as i32,
            text: payload.text,
            completed: false,
            labels: resolved_labels(self.labels, payload.label_ids),
        }
    }

    /// The repository after it has created the todo of `payload`.
    pub open spec fn create(self, payload: CreateTodoView) -> TodoStoreView {
        let todo = self.new_todo(payload);
        TodoStoreView { todos: self.todos.insert(todo.id, todo), last_id: todo.id, ..self }
    }

    /// What looking for todo `id` gives.
    pub open spec fn find(self, id: i32) -> Result<TodoView, RepositoryError> {
        if self.todos.contains_key(id) {
            Ok(self.todos[id])
        } else {
            Err(RepositoryError::NotFound(id))
        }
    }

    /// Todo `id` as it is after the change that `payload` describes.
    pub open spec fn changed_todo(self, id: i32, payload: UpdateTodoView) -> TodoView {
        payload.applied(
            self.todos[id],
            match payload.label_ids {
                Some(ids) => resolved_labels(self.labels, ids),
                None => Seq::empty(),
            },
        )
    }

    /// The repository after the change that `payload` describes was made to
    /// todo `id`, where it has such a todo.
    pub open spec fn update(self, id: i32, payload: UpdateTodoView) -> TodoStoreView {
        if self.todos.contains_key(id) {
            TodoStoreView { todos: self.todos.insert(id, self.changed_todo(id, payload)), ..self }
        } else {
            self
        }
    }

    /// The repository without todo `id`.
    pub open spec fn delete(self, id: i32) -> TodoStoreView {
        TodoStoreView { todos: self.todos.remove(id), ..self }
    }
}

/// A todo repository that keeps its todos in a map by id. Ids are given out
/// by counting up from 1, so an id is never given out twice, whatever was
/// deleted in between. The labels that todos can get are fixed when the
/// repository is made.
#[derive(Debug)]
pub struct TodoRepositoryForMemory {
    store: HashMap<i32, TodoEntity>,
    labels: Vec<Label>,
    last_id: i32,
}

impl View for TodoRepositoryForMemory {
    type V = TodoStoreView;

    closed spec fn view(&self) -> TodoStoreView {
        TodoStoreView {
            todos: Map::new(
                |id: i32| self.store@.contains_key(id),
                |id: i32| self.store@[id]@,
            ),
            labels: self.labels.deep_view(),
            last_id: self.last_id,
        }
    }
}

impl TodoRepositoryForMemory {
    /// Every todo is stored under its own id, every id in use was given out,
    /// and a todo has no label but the repository's own: the view is well
    /// formed.
    #[verifier::type_invariant]
    spec fn sound(self) -> bool {
        &&& 0 <= self.last_id
        &&& forall|id: i32| #[trigger]
            self.store@.contains_key(id) ==> {
                &&& 1 <= id <= self.last_id
                &&& self.store@[id].id == id
                &&& only_known(self.labels.deep_view(), self.store@[id]@.labels)
            }
    }

    /// A repository without todos, whose todos can get the given labels.
    pub fn new(labels: Vec<Label>) -> (repository: Self)
        ensures
            repository@ == (TodoStoreView {
                todos: Map::empty(),
                labels: labels.deep_view(),
                last_id: 0,
            }),
            repository@.well_formed(),
    {
        let repository = Self { store: HashMap::new(), labels, last_id: 0 };
        assert(repository@.todos =~= Map::empty());
        repository
    }
}

/// Looking for a label among `labels` from place `from` on gives the same as
/// looking among all of them, where none before that place has the id.
proof fn lemma_label_with_id_skip(labels: Seq<LabelView>, id: i32, from: int)
    requires
        0 <= from <= labels.len(),
        forall|k: int| 0 <= k < from ==> (#[trigger] labels[k]).id != id,
    ensures
        label_with_id(labels, id) == label_with_id(labels.skip(from), id),
    decreases from,
{
    if from == 0 {
        assert(labels.skip(0) =~= labels);
    } else {
        lemma_label_with_id_skip(labels, id, from - 1);
        let rest = labels.skip(from - 1);
        assert(rest.first() == labels[from - 1]);
        assert(rest.drop_first() =~= labels.skip(from));
    }
}

/// A label that is found has the id that was looked for and is one of the
/// labels that were looked through.
pub proof fn lemma_label_with_id_known(labels: Seq<LabelView>, id: i32)
    ensures
        label_with_id(labels, id) matches Some(label) ==> label.id == id && labels.contains(label),
        label_with_id(labels, id) is None ==> forall|k: int|
            0 <= k < labels.len() ==> (#[trigger] labels[k]).id != id,
    decreases labels.len(),
{
    if labels.len() > 0 {
        if labels.first().id == id {
            assert(labels[0] == labels.first());
        } else {
            let rest = labels.drop_first();
            lemma_label_with_id_known(rest, id);
            if let Some(label) = label_with_id(rest, id) {
                let k = choose|k: int| 0 <= k < rest.len() && rest[k] == label;
                assert(labels[k + 1] == label);
            } else {
                assert forall|k: int| 0 <= k < labels.len() implies (#[trigger] labels[k]).id
                    != id by {
                    if k > 0 {
                        assert(rest[k - 1].id != id);
                    }
                }
            }
        }
    }
}

impl TodoRepositoryForMemory {
    /// The first of the repository's labels that has the given id.
    fn label_with_id(&self, id: i32) -> (found: Option<Label>)
        ensures
            found.deep_view() == label_with_id(self@.labels, id),
    {
        let ghost labels = self.labels.deep_view();
        let mut k: usize = 0;
        while k < self.labels.len()
            invariant
                k <= self.labels.len(),
                labels == self.labels.deep_view(),
                forall|at: int| 0 <= at < k ==> (#[trigger] labels[at]).id != id,
            decreases self.labels.len() - k,
        {
            if self.labels[k].id == id {
                proof {
                    lemma_label_with_id_skip(labels, id, k as int);
                    assert(labels.skip(k as int).first() == labels[k as int]);
                }
                return Some(self.labels[k].clone());
            }
            k += 1;
        }
        proof {
            lemma_label_with_id_skip(labels, id, k as int);
        }
        None
    }

    /// The repository's labels that `label_ids` stand for, in the order of
    /// the ids. An id that no label of the repository has is passed over.
    pub fn resolve_labels(&self, label_ids: Vec<i32>) -> (labels: Vec<Label>)
        ensures
            labels.deep_view() == resolved_labels(self@.labels, label_ids@),
    {
        let mut labels: Vec<Label> = Vec::new();
        let mut i: usize = 0;
        assert(label_ids@.take(0) =~= Seq::empty());
        assert(labels.deep_view() =~= Seq::empty());
        while i < label_ids.len()
            invariant
                i <= label_ids.len(),
                labels.deep_view() == resolved_labels(self@.labels, label_ids@.take(i as int)),
            decreases label_ids.len() - i,
        {
            let ghost before = labels.deep_view();
            proof {
                label_ids@.lemma_filter_map_take_succ(
                    |id: i32| label_with_id(self@.labels, id),
                    i as int,
                );
            }
            if let Some(label) = self.label_with_id(label_ids[i]) {
                labels.push(label);
                assert(labels.deep_view() =~= before + seq![label@]);
            } else {
                assert(before + Seq::empty() =~= before);
            }
            i += 1;
        }
        assert(label_ids@.take(label_ids.len() as int) =~= label_ids@);
        labels
    }
}

impl TodoRepositoryForMemory {
    /// Stores `todo` under its id, in place of the todo that had the id, if
    /// one had it. The map is taken out of the repository for the change and
    /// put back after it, so that the repository is sound at every step.
    fn put(&mut self, todo: TodoEntity)
        requires
            1 <= todo.id <= old(self)@.last_id,
            only_known(old(self)@.labels, todo@.labels),
        ensures
            final(self)@ == (TodoStoreView {
                todos: old(self)@.todos.insert(todo.id, todo@),
                ..old(self)@
            }),
    {
        proof {
            use_type_invariant(&*self);
        }
        let mut store: HashMap<i32, TodoEntity> = HashMap::new();
        core::mem::swap(&mut self.store, &mut store);
        store.insert(todo.id, todo);
        self.store = store;
        assert(self@.todos =~= old(self)@.todos.insert(todo.id, todo@));
    }

    /// Takes the todo with the given id out of the repository, if there is
    /// one. The map is handled as in `put`.
    fn take_out(&mut self, id: i32) -> (taken: Option<TodoEntity>)
        ensures
            taken is Some <==> old(self)@.todos.contains_key(id),
            final(self)@ == old(self)@.delete(id),
    {
        proof {
            use_type_invariant(&*self);
        }
        let mut store: HashMap<i32, TodoEntity> = HashMap::new();
        core::mem::swap(&mut self.store, &mut store);
        let taken = store.remove(&id);
        self.store = store;
        assert(self@.todos =~= old(self)@.todos.remove(id));
        taken
    }
}

impl TodoRepository for TodoRepositoryForMemory {
    open spec fn todos(&self) -> Map<i32, TodoView> {
        self@.todos
    }

    open spec fn labels_for(&self, label_ids: Seq<i32>) -> Seq<LabelView> {
        resolved_labels(self@.labels, label_ids)
    }

    /// Stores the todo of `payload` under the id after the one given out
    /// last. Fails, and changes nothing, only where no id is left.
    fn create(&mut self, payload: CreateTodo) -> (result: Result<TodoEntity, RepositoryError>)
        ensures
            old(self)@.well_formed(),
            final(self)@.well_formed(),
            match result {
                Ok(todo) => {
                    &&& old(self)@.can_create()
                    &&& todo@ == old(self)@.new_todo(payload@)
                    &&& final(self)@ == old(self)@.create(payload@)
                },
                Err(_) => !old(self)@.can_create() && final(self)@ == old(self)@,
            },
    {
        proof {
            use_type_invariant(&*self);
        }
        if self.last_id == i32::MAX {
            return Err(
                RepositoryError::Unexpected(String::from_str("no id is left for another todo")),
            );
        }
        let id: i32 = self.last_id + 1;
        proof {
            lemma_resolved_labels_are_known(self@.labels, payload.label_ids@);
        }
        let labels = self.resolve_labels(payload.label_ids);
        let todo = TodoEntity::new(id, payload.text, labels);
        self.last_id = id;
        self.put(todo.clone());
        proof {
            use_type_invariant(&*self);
        }
        Ok(todo)
    }

    /// Returns a copy of the todo with the given id. Fails only where there
    /// is no such todo.
    fn find(&self, id: i32) -> (result: Result<TodoEntity, RepositoryError>)
        ensures
            self@.well_formed(),
            match result {
                Ok(todo) => self@.find(id) == Ok::<TodoView, RepositoryError>(todo@),
                Err(error) => self@.find(id) == Err::<TodoView, RepositoryError>(error),
            },
    {
        proof {
            use_type_invariant(self);
        }
        match self.store.get(&id) {
            Some(todo) => Ok(todo.clone()),
            None => Err(RepositoryError::NotFound(id)),
        }
    }

    /// Returns copies of all todos, the one created last first. Never fails.
    fn all(&self) -> (result: Result<Vec<TodoEntity>, RepositoryError>)
        ensures
            self@.well_formed(),
            result is Ok,
            forall|i: int, j: int|
                0 <= i < j < result->Ok_0.len() ==> (#[trigger] result->Ok_0[i]).id > (
                #[trigger] result->Ok_0[j]).id,
    {
        proof {
            use_type_invariant(self);
        }
        let mut list: Vec<TodoEntity> = Vec::new();
        let mut id: i32 = self.last_id;
        while id >= 1
            invariant
                0 <= id <= self.last_id,
                self.sound(),
                forall|i: int|
                    0 <= i < list.len() ==> id < (#[trigger] list[i]).id
                        && self.store@.contains_key(list[i].id) && self.store@[list[i].id]@
                        == list[i]@,
                forall|i: int, j: int|
                    0 <= i < j < list.len() ==> (#[trigger] list[i]).id > (#[trigger] list[j]).id,
                forall|key: i32|
                    id < key && #[trigger] self.store@.contains_key(key) ==> exists|i: int|
                        0 <= i < list.len() && (#[trigger] list[i]).id == key,
            decreases id,
        {
            let ghost before = list@;
            if let Some(todo) = self.store.get(&id) {
                assert(self.store@.contains_key(id));
                list.push(todo.clone());
                assert(list[list.len() - 1].id == id);
                assert forall|key: i32|
                    id - 1 < key && #[trigger] self.store@.contains_key(key) implies exists|i: int|
                    0 <= i < list.len() && (#[trigger] list[i]).id == key by {
                    if key != id {
                        let i = choose|i: int|
                            0 <= i < before.len() && (#[trigger] before[i]).id == key;
                        assert(list[i].id == key);
                    }
                }
            }
            id -= 1;
        }
        assert(lists_todos(list.deep_view(), self.todos())) by {
            let views = list.deep_view();
            assert forall|key: i32| #[trigger] self.todos().contains_key(key) implies exists|i: int|
                0 <= i < views.len() && (#[trigger] views[i]).id == key by {
                assert(self.store@.contains_key(key));
                let i = choose|i: int| 0 <= i < list.len() && (#[trigger] list[i]).id == key;
                assert(views[i].id == key);
            }
        }
        Ok(list)
    }

    /// Changes the todo with the given id and returns a copy of it. Fails,
    /// and changes nothing, only where there is no such todo.
    fn update(&mut self, id: i32, payload: UpdateTodo) -> (result: Result<
        TodoEntity,
        RepositoryError,
    >)
        ensures
            old(self)@.well_formed(),
            final(self)@.well_formed(),
            final(self)@ == old(self)@.update(id, payload@),
            match result {
                Ok(todo) => old(self)@.find(id) is Ok && todo@ == old(self)@.changed_todo(
                    id,
                    payload@,
                ),
                Err(error) => old(self)@.find(id) == Err::<TodoView, RepositoryError>(error),
            },
    {
        proof {
            use_type_invariant(&*self);
        }
        let current = match self.store.get(&id) {
            Some(current) => current,
            None => {
                return Err(RepositoryError::NotFound(id));
            },
        };
        let change = payload.settle(current);
        let labels = match change.label_ids {
            Some(ids) => {
                proof {
                    lemma_resolved_labels_are_known(self@.labels, ids@);
                }
                self.resolve_labels(ids)
            },
            None => {
                let kept = current.labels.clone();
                assert(kept.deep_view() =~= current.labels.deep_view());
                kept
            },
        };
        let todo = TodoEntity { id, text: change.text, completed: change.completed, labels };
        self.put(todo.clone());
        proof {
            use_type_invariant(&*self);
        }
        Ok(todo)
    }

    /// Removes the todo with the given id. Fails, and changes nothing, only
    /// where there is no such todo.
    fn delete(&mut self, id: i32) -> (result: Result<(), RepositoryError>)
        ensures
            old(self)@.well_formed(),
            final(self)@.well_formed(),
            match result {
                Ok(()) => old(self)@.find(id) is Ok && final(self)@ == old(self)@.delete(id),
                Err(error) => old(self)@.find(id) == Err::<TodoView, RepositoryError>(error)
                    && final(self)@ == old(self)@,
            },
    {
        proof {
            use_type_invariant(&*self);
        }
        let taken = self.take_out(id);
        proof {
            use_type_invariant(&*self);
        }
        match taken {
            Some(_) => Ok(()),
            None => {
                assert(self@.todos =~= old(self)@.todos);
                Err(RepositoryError::NotFound(id))
            },
        }
    }
}

/// Every label that ids are resolved to is one of the labels that were
/// given and has one of the ids: no label is made up.
pub proof fn lemma_resolved_labels_are_known(labels: Seq<LabelView>, ids: Seq<i32>)
    ensures
        forall|i: int|
            0 <= i < resolved_labels(labels, ids).len() ==> labels.contains(
                #[trigger] resolved_labels(labels, ids)[i],
            ) && ids.contains(resolved_labels(labels, ids)[i].id),
    decreases ids.len(),
{
    if ids.len() > 0 {
        let init = ids.drop_last();
        lemma_resolved_labels_are_known(labels, init);
        lemma_label_with_id_known(labels, ids.last());
        assert(ids[ids.len() - 1] == ids.last());
        assert forall|i: int| 0 <= i < resolved_labels(labels, ids).len() implies labels.contains(
            #[trigger] resolved_labels(labels, ids)[i],
        ) && ids.contains(resolved_labels(labels, ids)[i].id) by {
            if i < resolved_labels(labels, init).len() {
                let label = resolved_labels(labels, init)[i];
                let at = choose|at: int| 0 <= at < init.len() && init[at] == label.id;
                assert(ids[at] == label.id);
            }
        }
    }
}

/// No ids stand for no labels.
pub proof fn lemma_no_ids_no_labels(labels: Seq<LabelView>)
    ensures
        resolved_labels(labels, Seq::empty()) == Seq::<LabelView>::empty(),
{
}

/// A repository that is well formed stays so, whatever is done to it, and
/// the id that was given out last never goes down.
pub proof fn lemma_store_stays_well_formed(
    store: TodoStoreView,
    id: i32,
    created: CreateTodoView,
    change: UpdateTodoView,
)
    requires
        store.well_formed(),
    ensures
        store.can_create() ==> store.create(created).well_formed(),
        store.can_create() ==> store.create(created).last_id > store.last_id,
        store.update(id, change).well_formed(),
        store.update(id, change).last_id == store.last_id,
        store.delete(id).well_formed(),
        store.delete(id).last_id == store.last_id,
{
    lemma_resolved_labels_are_known(store.labels, created.label_ids);
    if let Some(ids) = change.label_ids {
        lemma_resolved_labels_are_known(store.labels, ids);
    }
}

/// The id of a new todo is above every id that is in use and above every id
/// that was given out before, so no id is given out twice.
pub proof fn lemma_new_id_is_fresh(store: TodoStoreView, payload: CreateTodoView)
    requires
        store.well_formed(),
        store.can_create(),
    ensures
        store.new_todo(payload).id == store.last_id + 1,
        !store.todos.contains_key(store.new_todo(payload).id),
        forall|id: i32| #[trigger] store.todos.contains_key(id) ==> id < store.new_todo(payload).id,
{
}

/// A todo that was created is found under its id, as `create` returned it.
pub proof fn lemma_created_todo_is_found(store: TodoStoreView, payload: CreateTodoView)
    requires
        store.can_create(),
    ensures
        store.create(payload).find(store.new_todo(payload).id) == Ok::<TodoView, RepositoryError>(
            store.new_todo(payload),
        ),
{
}

/// A change leaves what it does not name as it was: the text where it has no
/// text, the state where it has no state, the labels where it has no label
/// ids. The todo is then found as `update` returned it.
pub proof fn lemma_update_keeps_the_rest(store: TodoStoreView, id: i32, payload: UpdateTodoView)
    requires
        store.todos.contains_key(id),
    ensures
        payload.text is None ==> store.changed_todo(id, payload).text == store.todos[id].text,
        payload.completed is None ==> store.changed_todo(id, payload).completed
            == store.todos[id].completed,
        payload.label_ids is None ==> store.changed_todo(id, payload).labels
            == store.todos[id].labels,
        store.changed_todo(id, payload).id == store.todos[id].id,
        store.update(id, payload).find(id) == Ok::<TodoView, RepositoryError>(
            store.changed_todo(id, payload),
        ),
        forall|other: i32|
            other != id ==> #[trigger] store.update(id, payload).find(other) == store.find(other),
{
}

/// A todo that was deleted is not found any more, and the others are found
/// as before.
pub proof fn lemma_deleted_todo_is_gone(store: TodoStoreView, id: i32)
    ensures
        store.delete(id).find(id) == Err::<TodoView, RepositoryError>(RepositoryError::NotFound(id)),
        forall|other: i32| other != id ==> #[trigger] store.delete(id).find(other) == store.find(other),
{
}

/// A change that names an empty list of label ids leaves the todo without
/// labels, whatever labels it had.
pub proof fn lemma_empty_label_ids_clear_labels(
    store: TodoStoreView,
    id: i32,
    payload: UpdateTodoView,
)
    requires
        payload.label_ids == Some(Seq::<i32>::empty()),
    ensures
        store.changed_todo(id, payload).labels == Seq::<LabelView>::empty(),
{
}

} // verus!
