//! Todos: the entity, the payloads that create and change it, and the
//! aggregation of joined rows into entities.

use super::label::{Label, LabelView};
use super::validation::{check_length, length_checked, LengthError};
use super::RepositoryError;
use vstd::prelude::*;

pub mod test_utils;

verus! {

/// One row of the left outer join of todos with their labels: the todo's own
/// columns and at most one label.
#[derive(Debug, PartialEq, Eq)]
pub struct TodoWithLabelFromRow {
    pub id: i32,
    pub text: String,
    pub completed: bool,
    pub label_id: Option<i32>,
    pub label_name: Option<String>,
}

/// A joined row as a mathematical value.
pub struct RowView {
    pub id: i32,
    pub text: Seq<char>,
    pub completed: bool,
    pub label_id: Option<i32>,
    pub label_name: Option<Seq<char>>,
}

impl RowView {
    /// A row that names a label also carries the label's name.
    pub open spec fn well_formed(self) -> bool {
        self.label_id is Some ==> self.label_name is Some
    }

    /// The label that the row carries, if it carries one.
    pub open spec fn label(self) -> Option<LabelView> {
        match (self.label_id, self.label_name) {
            (Some(id), Some(name)) => Some(LabelView { id, name }),
            _ => None,
        }
    }
}

impl DeepView for TodoWithLabelFromRow {
    type V = RowView;

    open spec fn deep_view(&self) -> RowView {
        RowView {
            id: self.id,
            text: self.text@,
            completed: self.completed,
            label_id: self.label_id,
            label_name: self.label_name.deep_view(),
        }
    }
}

impl View for TodoWithLabelFromRow {
    type V = RowView;

    open spec fn view(&self) -> RowView {
        self.deep_view()
    }
}

impl Clone for TodoWithLabelFromRow {
    fn clone(&self) -> (copy: Self)
        ensures
            copy@ == self@,
    {
        TodoWithLabelFromRow {
            id: self.id,
            text: self.text.clone(),
            completed: self.completed,
            label_id: self.label_id,
            label_name: match &self.label_name {
                Some(name) => Some(name.clone()),
                None => None,
            },
        }
    }
}

impl TodoWithLabelFromRow {
    /// Whether the row carries a name for the label it names.
    pub fn is_well_formed(&self) -> (ok: bool)
        ensures
            ok == self@.well_formed(),
    {
        self.label_id.is_none() || self.label_name.is_some()
    }

    /// The label that the row carries, if it carries one.
    pub fn label(&self) -> (label: Option<Label>)
        ensures
            label.deep_view() == self@.label(),
    {
        match (self.label_id, &self.label_name) {
            (Some(id), Some(name)) => Some(Label { id, name: name.clone() }),
            _ => None,
        }
    }
}

/// A todo with the labels attached to it.
#[derive(Debug, PartialEq, Eq)]
pub struct TodoEntity {
    pub id: i32,
    pub text: String,
    pub completed: bool,
    pub labels: Vec<Label>,
}

/// A todo as a mathematical value.
pub struct TodoView {
    pub id: i32,
    pub text: Seq<char>,
    pub completed: bool,
    pub labels: Seq<LabelView>,
}

impl DeepView for TodoEntity {
    type V = TodoView;

    open spec fn deep_view(&self) -> TodoView {
        TodoView {
            id: self.id,
            text: self.text@,
            completed: self.completed,
            labels: self.labels.deep_view(),
        }
    }
}

impl View for TodoEntity {
    type V = TodoView;

    open spec fn view(&self) -> TodoView {
        self.deep_view()
    }
}

impl Clone for TodoEntity {
    fn clone(&self) -> (copy: Self)
        ensures
            copy@ == self@,
    {
        let labels = self.labels.clone();
        assert(labels.deep_view() =~= self.labels.deep_view());
        TodoEntity { id: self.id, text: self.text.clone(), completed: self.completed, labels }
    }
}

impl TodoEntity {
    /// A todo that is not completed yet.
    pub fn new(id: i32, text: String, labels: Vec<Label>) -> (todo: Self)
        ensures
            todo.id == id,
            todo.text == text,
            !todo.completed,
            todo.labels == labels,
    {
        Self { id, text, completed: false, labels }
    }
}

/// The least number of characters in the text of a todo.
pub const TEXT_MIN: u64 = 1;

/// The greatest number of characters in the text of a todo.
pub const TEXT_MAX: u64 = 100;

/// What it takes to create a todo: its text and the ids of its labels.
#[derive(Debug, PartialEq, Eq)]
pub struct CreateTodo {
    pub text: String,
    pub label_ids: Vec<i32>,
}

/// A request to create a todo as a mathematical value.
pub struct CreateTodoView {
    pub text: Seq<char>,
    pub label_ids: Seq<i32>,
}

impl DeepView for CreateTodo {
    type V = CreateTodoView;

    open spec fn deep_view(&self) -> CreateTodoView {
        CreateTodoView { text: self.text@, label_ids: self.label_ids@ }
    }
}

impl View for CreateTodo {
    type V = CreateTodoView;

    open spec fn view(&self) -> CreateTodoView {
        self.deep_view()
    }
}

impl Clone for CreateTodo {
    fn clone(&self) -> (copy: Self)
        ensures
            copy@ == self@,
    {
        CreateTodo { text: self.text.clone(), label_ids: self.label_ids.clone() }
    }
}

impl CreateTodo {
    /// The request to create a todo with the given text and labels.
    pub fn new(text: String, label_ids: Vec<i32>) -> (payload: Self)
        ensures
            payload.text == text,
            payload.label_ids == label_ids,
    {
        Self { text, label_ids }
    }

    /// Checks that the text has between `TEXT_MIN` and `TEXT_MAX` characters.
    pub fn validate(&self) -> (result: Result<(), LengthError>)
        ensures
            result == length_checked(self.text@.len(), TEXT_MIN, TEXT_MAX),
    {
        check_length(&self.text, TEXT_MIN, TEXT_MAX)
    }
}

/// A change to a todo. A field that is `None` leaves the todo as it is in
/// that respect. Label ids, where given, replace all labels of the todo.
#[derive(Debug, PartialEq, Eq)]
pub struct UpdateTodo {
    pub text: Option<String>,
    pub completed: Option<bool>,
    pub label_ids: Option<Vec<i32>>,
}

/// A change to a todo as a mathematical value.
pub struct UpdateTodoView {
    pub text: Option<Seq<char>>,
    pub completed: Option<bool>,
    pub label_ids: Option<Seq<i32>>,
}

impl UpdateTodoView {
    /// The text of a todo after the change, `current` being its text before.
    pub open spec fn text_after(self, current: Seq<char>) -> Seq<char> {
        match self.text {
            Some(text) => text,
            None => current,
        }
    }

    /// The state of a todo after the change, `current` being its state before.
    pub open spec fn completed_after(self, current: bool) -> bool {
        match self.completed {
            Some(completed) => completed,
            None => current,
        }
    }

    /// The labels of a todo after the change: `current` where the change
    /// names no label ids, else `replacement`, the labels that those ids stand
    /// for.
    pub open spec fn labels_after(
        self,
        current: Seq<LabelView>,
        replacement: Seq<LabelView>,
    ) -> Seq<LabelView> {
        match self.label_ids {
            Some(_) => replacement,
            None => current,
        }
    }

    /// The todo `current` after the change, `replacement` being the labels
    /// that the label ids of the change, if it names any, stand for.
    pub open spec fn applied(self, current: TodoView, replacement: Seq<LabelView>) -> TodoView {
        TodoView {
            id: current.id,
            text: self.text_after(current.text),
            completed: self.completed_after(current.completed),
            labels: self.labels_after(current.labels, replacement),
        }
    }
}

impl DeepView for UpdateTodo {
    type V = UpdateTodoView;

    open spec fn deep_view(&self) -> UpdateTodoView {
        UpdateTodoView {
            text: self.text.deep_view(),
            completed: self.completed,
            label_ids: match self.label_ids {
                Some(ids) => Some(ids@),
                None => None,
            },
        }
    }
}

impl View for UpdateTodo {
    type V = UpdateTodoView;

    open spec fn view(&self) -> UpdateTodoView {
        self.deep_view()
    }
}

impl Clone for UpdateTodo {
    fn clone(&self) -> (copy: Self)
        ensures
            copy@ == self@,
    {
        UpdateTodo {
            text: match &self.text {
                Some(text) => Some(text.clone()),
                None => None,
            },
            completed: self.completed,
            label_ids: match &self.label_ids {
                Some(ids) => Some(ids.clone()),
                None => None,
            },
        }
    }
}

/// What a backend has to write to carry out a change to a todo: the text and
/// the state that the todo gets, and, where its labels are to be replaced,
/// the ids of the new ones.
#[derive(Debug, PartialEq, Eq)]
pub struct TodoChange {
    pub text: String,
    pub completed: bool,
    pub label_ids: Option<Vec<i32>>,
}

impl UpdateTodo {
    /// Checks that the text, where the change has one, has between `TEXT_MIN`
    /// and `TEXT_MAX` characters.
    pub fn validate(&self) -> (result: Result<(), LengthError>)
        ensures
            result == match self@.text {
                Some(text) => length_checked(text.len(), TEXT_MIN, TEXT_MAX),
                None => Ok(()),
            },
    {
        match &self.text {
            Some(text) => check_length(text, TEXT_MIN, TEXT_MAX),
            None => Ok(()),
        }
    }

    /// Settles the change against the todo as it is: what the change leaves
    /// open is taken from `current`.
    pub fn settle(self, current: &TodoEntity) -> (change: TodoChange)
        ensures
            change.text@ == self@.text_after(current@.text),
            change.completed == self@.completed_after(current@.completed),
            change.label_ids == self.label_ids,
    {
        let text = match self.text {
            Some(text) => text,
            None => current.text.clone(),
        };
        let completed = match self.completed {
            Some(completed) => completed,
            None => current.completed,
        };
        TodoChange { text, completed, label_ids: self.label_ids }
    }
}

/// The ids of the todos that occur in `rows`, each once, in the order in
/// which they first occur.
pub open spec fn distinct_ids(rows: Seq<RowView>) -> Seq<i32>
    decreases rows.len(),
{
    if rows.len() == 0 {
        Seq::empty()
    } else {
        let earlier = distinct_ids(rows.drop_last());
        if earlier.contains(rows.last().id) {
            earlier
        } else {
            earlier.push(rows.last().id)
        }
    }
}

/// The first of the rows of todo `id`, if it has any.
pub open spec fn head_row(rows: Seq<RowView>, id: i32) -> Option<RowView>
    decreases rows.len(),
{
    if rows.len() == 0 {
        None
    } else {
        match head_row(rows.drop_last(), id) {
            Some(row) => Some(row),
            None => if rows.last().id == id {
                Some(rows.last())
            } else {
                None
            },
        }
    }
}

/// The labels that the rows of todo `id` carry, in the order of the rows.
pub open spec fn labels_of(rows: Seq<RowView>, id: i32) -> Seq<LabelView> {
    rows.filter_map(
        |row: RowView|
            if row.id == id {
                row.label()
            } else {
                None
            },
    )
}

/// The todo `id` as `rows` describe it: the text and the state of its first
/// row, and the labels of all its rows.
pub open spec fn entity_of(rows: Seq<RowView>, id: i32) -> TodoView {
    let head = head_row(rows, id).unwrap();
    TodoView { id, text: head.text, completed: head.completed, labels: labels_of(rows, id) }
}

/// The todos that `rows` describe: one for each id that occurs, in the order
/// in which the ids first occur.
pub open spec fn folded(rows: Seq<RowView>) -> Seq<TodoView> {
    distinct_ids(rows).map_values(|id: i32| entity_of(rows, id))
}

/// The label of `row` as a sequence of at most one element.
pub open spec fn carried(row: RowView) -> Seq<LabelView> {
    match row.label() {
        Some(label) => seq![label],
        None => Seq::empty(),
    }
}

/// An id is among the distinct ids exactly if some row has it, and then the
/// todo has a first row, which has that id.
pub proof fn lemma_distinct_ids_cover(rows: Seq<RowView>, id: i32)
    ensures
        distinct_ids(rows).contains(id) <==> exists|k: int|
            0 <= k < rows.len() && (#[trigger] rows[k]).id == id,
        distinct_ids(rows).contains(id) <==> head_row(rows, id) is Some,
        head_row(rows, id) matches Some(row) ==> row.id == id && rows.contains(row),
    decreases rows.len(),
{
    if rows.len() > 0 {
        let init = rows.drop_last();
        lemma_distinct_ids_cover(init, id);
        let earlier = distinct_ids(init);
        if earlier.contains(id) {
            let k = choose|k: int| 0 <= k < init.len() && (#[trigger] init[k]).id == id;
            assert(rows[k].id == id);
            if earlier.contains(rows.last().id) {
            } else {
                let at = choose|at: int| 0 <= at < earlier.len() && earlier[at] == id;
                assert(earlier.push(rows.last().id)[at] == id);
            }
            let head = head_row(init, id).unwrap();
            let at = choose|at: int| 0 <= at < init.len() && init[at] == head;
            assert(rows[at] == head);
        } else if rows.last().id == id {
            assert(rows[rows.len() - 1].id == id);
            if earlier.contains(id) {
            } else {
                assert(earlier.push(id)[earlier.len() as int] == id);
            }
        } else {
            assert forall|k: int| 0 <= k < rows.len() implies (#[trigger] rows[k]).id != id by {
                if k < init.len() {
                    assert(init[k].id != id);
                }
            }
        }
    }
}

/// No id occurs twice among the distinct ids.
pub proof fn lemma_distinct_ids_no_duplicates(rows: Seq<RowView>)
    ensures
        distinct_ids(rows).no_duplicates(),
    decreases rows.len(),
{
    if rows.len() > 0 {
        lemma_distinct_ids_no_duplicates(rows.drop_last());
    }
}

/// A todo without rows has no labels.
proof fn lemma_no_rows_no_labels(rows: Seq<RowView>, id: i32)
    requires
        head_row(rows, id) is None,
    ensures
        labels_of(rows, id) =~= Seq::empty(),
    decreases rows.len(),
{
    if rows.len() > 0 {
        lemma_no_rows_no_labels(rows.drop_last(), id);
    }
}

/// What one more row does to the folded todos: it adds its label to the todo
/// it belongs to, or it starts a new todo at the end.
proof fn lemma_folded_push(rows: Seq<RowView>, row: RowView)
    ensures
        folded(rows).len() == distinct_ids(rows).len(),
        forall|j: int|
            0 <= j < folded(rows).len() && (#[trigger] folded(rows)[j]).id == row.id ==> folded(
                rows.push(row),
            ) == folded(rows).update(
                j,
                TodoView { labels: folded(rows)[j].labels + carried(row), ..folded(rows)[j] },
            ),
        (forall|j: int| 0 <= j < folded(rows).len() ==> (#[trigger] folded(rows)[j]).id != row.id)
            ==> folded(rows.push(row)) == folded(rows).push(
            TodoView {
                id: row.id,
                text: row.text,
                completed: row.completed,
                labels: carried(row),
            },
        ),
{
    let more = rows.push(row);
    let ids = distinct_ids(rows);
    let before = folded(rows);
    let after = folded(more);
    assert(more.drop_last() =~= rows);
    assert(more.last() == row);
    lemma_distinct_ids_cover(rows, row.id);
    lemma_distinct_ids_no_duplicates(rows);
    assert forall|id: i32| #[trigger]
        labels_of(more, id) == labels_of(rows, id) + (if row.id == id {
            carried(row)
        } else {
            Seq::empty()
        }) by {
        assert(labels_of(more, id) =~= labels_of(rows, id) + (if row.id == id {
            carried(row)
        } else {
            Seq::empty()
        }));
    }
    if ids.contains(row.id) {
        assert(distinct_ids(more) == ids);
        let at = choose|at: int| 0 <= at < ids.len() && ids[at] == row.id;
        assert(before[at].id == row.id);
        assert forall|j: int| 0 <= j < before.len() && (#[trigger] before[j]).id == row.id implies after
            == before.update(
            j,
            TodoView { labels: before[j].labels + carried(row), ..before[j] },
        ) by {
            let changed = before.update(
                j,
                TodoView { labels: before[j].labels + carried(row), ..before[j] },
            );
            assert forall|k: int| 0 <= k < after.len() implies after[k] == changed[k] by {
                if k != j {
                    assert(ids[k] != ids[j]);
                    assert(labels_of(more, ids[k]) =~= labels_of(rows, ids[k]));
                }
            }
            assert(after =~= changed);
        }
    } else {
        assert(distinct_ids(more) == ids.push(row.id));
        assert forall|j: int| 0 <= j < before.len() implies (#[trigger] before[j]).id != row.id by {
            assert(ids.contains(ids[j]));
        }
        lemma_no_rows_no_labels(rows, row.id);
        let started = before.push(
            TodoView {
                id: row.id,
                text: row.text,
                completed: row.completed,
                labels: carried(row),
            },
        );
        assert forall|k: int| 0 <= k < after.len() implies after[k] == started[k] by {
            if k < before.len() {
                assert(ids.contains(ids[k]));
                assert(labels_of(more, ids[k]) =~= labels_of(rows, ids[k]));
            } else {
                assert(labels_of(more, row.id) =~= carried(row));
            }
        }
        assert(after =~= started);
    }
}

/// Of two distinct ids, the one that comes first is the one whose first row
/// comes first: it has a row ahead of every row of the other.
proof fn lemma_distinct_ids_order(rows: Seq<RowView>, i: int, j: int)
    requires
        0 <= i < j < distinct_ids(rows).len(),
    ensures
        exists|a: int|
            0 <= a < rows.len() && (#[trigger] rows[a]).id == distinct_ids(rows)[i] && forall|
                b: int,
            |
                0 <= b < rows.len() && (#[trigger] rows[b]).id == distinct_ids(rows)[j] ==> a < b,
    decreases rows.len(),
{
    let ids = distinct_ids(rows);
    let init = rows.drop_last();
    let earlier = distinct_ids(init);
    if j < earlier.len() {
        lemma_distinct_ids_order(init, i, j);
        let a = choose|a: int|
            0 <= a < init.len() && (#[trigger] init[a]).id == earlier[i] && forall|b: int|
                0 <= b < init.len() && (#[trigger] init[b]).id == earlier[j] ==> a < b;
        assert(rows[a].id == ids[i]);
        assert forall|b: int| 0 <= b < rows.len() && (#[trigger] rows[b]).id == ids[j] implies a
            < b by {
            if b < init.len() {
                assert(init[b].id == earlier[j]);
            }
        }
    } else {
        assert(ids == earlier.push(rows.last().id));
        lemma_distinct_ids_cover(init, earlier[i]);
        lemma_distinct_ids_cover(init, rows.last().id);
        assert(earlier.contains(earlier[i]));
        let a = choose|a: int| 0 <= a < init.len() && (#[trigger] init[a]).id == earlier[i];
        assert(rows[a].id == ids[i]);
        assert forall|b: int| 0 <= b < rows.len() && (#[trigger] rows[b]).id == ids[j] implies a
            < b by {
            if b < init.len() {
                assert(init[b].id == rows.last().id);
            }
        }
    }
}

/// Folding groups the rows by todo. The result has as many todos as the rows
/// have distinct ids, and none twice. Every row's todo is in it, and every
/// todo in it has a row. A todo has the text and the state of its first row
/// and exactly the labels that its rows carry, in the order of the rows. Of
/// two todos, the one whose first row comes first stands first.
pub proof fn lemma_fold_groups_rows(rows: Seq<RowView>)
    ensures
        folded(rows).len() == rows.map_values(|row: RowView| row.id).to_set().len(),
        forall|i: int, j: int|
            0 <= i < j < folded(rows).len() ==> (#[trigger] folded(rows)[i]).id != (
            #[trigger] folded(rows)[j]).id,
        forall|k: int|
            0 <= k < rows.len() ==> exists|j: int|
                0 <= j < folded(rows).len() && (#[trigger] folded(rows)[j]).id == (
                #[trigger] rows[k]).id,
        forall|j: int|
            0 <= j < folded(rows).len() ==> {
                let todo = #[trigger] folded(rows)[j];
                &&& head_row(rows, todo.id) matches Some(head)
                &&& rows.contains(head)
                &&& head.id == todo.id
                &&& todo.text == head.text
                &&& todo.completed == head.completed
                &&& todo.labels == labels_of(rows, todo.id)
            },
        forall|i: int, j: int|
            0 <= i < j < folded(rows).len() ==> exists|a: int|
                0 <= a < rows.len() && (#[trigger] rows[a]).id == (#[trigger] folded(rows)[i]).id
                    && forall|b: int|
                    0 <= b < rows.len() && (#[trigger] rows[b]).id == (
                    #[trigger] folded(rows)[j]).id ==> a < b,
{
    let ids = distinct_ids(rows);
    let todos = folded(rows);
    let row_ids = rows.map_values(|row: RowView| row.id);
    lemma_distinct_ids_no_duplicates(rows);
    ids.unique_seq_to_set();
    assert forall|id: i32| ids.to_set().contains(id) <==> row_ids.to_set().contains(id) by {
        lemma_distinct_ids_cover(rows, id);
        if ids.contains(id) {
            let k = choose|k: int| 0 <= k < rows.len() && (#[trigger] rows[k]).id == id;
            assert(row_ids[k] == id);
        }
        if row_ids.contains(id) {
            let k = choose|k: int| 0 <= k < row_ids.len() && row_ids[k] == id;
            assert(rows[k].id == id);
        }
    }
    assert(ids.to_set() =~= row_ids.to_set());
    assert forall|k: int| 0 <= k < rows.len() implies exists|j: int|
        0 <= j < todos.len() && (#[trigger] todos[j]).id == (#[trigger] rows[k]).id by {
        lemma_distinct_ids_cover(rows, rows[k].id);
        let j = choose|j: int| 0 <= j < ids.len() && ids[j] == rows[k].id;
        assert(todos[j].id == rows[k].id);
    }
    assert forall|j: int| 0 <= j < todos.len() implies {
        let todo = #[trigger] todos[j];
        &&& head_row(rows, todo.id) matches Some(head)
        &&& rows.contains(head)
        &&& head.id == todo.id
        &&& todo.text == head.text
        &&& todo.completed == head.completed
        &&& todo.labels == labels_of(rows, todo.id)
    } by {
        assert(ids.contains(ids[j]));
        lemma_distinct_ids_cover(rows, ids[j]);
    }
    assert forall|i: int, j: int| 0 <= i < j < todos.len() implies exists|a: int|
        0 <= a < rows.len() && (#[trigger] rows[a]).id == (#[trigger] todos[i]).id && forall|
            b: int,
        |
            0 <= b < rows.len() && (#[trigger] rows[b]).id == (#[trigger] todos[j]).id ==> a
                < b by {
        lemma_distinct_ids_order(rows, i, j);
    }
}

/// Rows that come by descending todo id fold into todos by descending id,
/// each id once: a query that sorts its rows so gets its todos so.
pub proof fn lemma_fold_keeps_descending(rows: Seq<RowView>)
    requires
        forall|a: int, b: int|
            0 <= a < b < rows.len() ==> (#[trigger] rows[a]).id >= (#[trigger] rows[b]).id,
    ensures
        forall|i: int, j: int|
            0 <= i < j < folded(rows).len() ==> (#[trigger] folded(rows)[i]).id > (
            #[trigger] folded(rows)[j]).id,
{
    let ids = distinct_ids(rows);
    lemma_distinct_ids_no_duplicates(rows);
    assert forall|i: int, j: int| 0 <= i < j < folded(rows).len() implies (
    #[trigger] folded(rows)[i]).id > (#[trigger] folded(rows)[j]).id by {
        lemma_distinct_ids_order(rows, i, j);
        let a = choose|a: int|
            0 <= a < rows.len() && (#[trigger] rows[a]).id == ids[i] && forall|b: int|
                0 <= b < rows.len() && (#[trigger] rows[b]).id == ids[j] ==> a < b;
        assert(ids.contains(ids[j]));
        lemma_distinct_ids_cover(rows, ids[j]);
        let b = choose|b: int| 0 <= b < rows.len() && (#[trigger] rows[b]).id == ids[j];
        assert(a < b);
        assert(ids[i] != ids[j]);
    }
}

/// The place of todo `id` among `todos`, if it is there.
fn position(todos: &Vec<TodoEntity>, id: i32) -> (found: Option<usize>)
    ensures
        match found {
            Some(j) => j < todos.len() && todos[j as int].id == id,
            None => forall|k: int| 0 <= k < todos.len() ==> todos[k].id != id,
        },
{
    let mut j: usize = 0;
    while j < todos.len()
        invariant
            j <= todos.len(),
            forall|k: int| 0 <= k < j ==> todos[k].id != id,
        decreases todos.len() - j,
    {
        if todos[j].id == id {
            return Some(j);
        }
        j += 1;
    }
    None
}

/// Folds the rows of a join of todos with their labels into todos: one todo
/// for each id, in the order in which the ids first occur, with the text and
/// the state of its first row and the labels of all its rows, in row order.
/// Rows of one todo need not be next to each other, and a label that several
/// rows of a todo carry is kept as often as it comes.
///
/// A row that names a label has to carry the label's name: a join cannot
/// give another row, so the caller has a bug to mend where one turns up.
pub fn fold_entities(rows: Vec<TodoWithLabelFromRow>) -> (todos: Vec<TodoEntity>)
    requires
        forall|i: int| 0 <= i < rows.len() ==> (#[trigger] rows[i])@.well_formed(),
    ensures
        todos.deep_view() == folded(rows.deep_view()),
{
    let mut acc: Vec<TodoEntity> = Vec::new();
    let mut i: usize = 0;
    assert(rows.deep_view().take(0) =~= Seq::empty());
    assert(acc.deep_view() =~= folded(Seq::empty()));
    while i < rows.len()
        invariant
            i <= rows.len(),
            acc.deep_view() == folded(rows.deep_view().take(i as int)),
        decreases rows.len() - i,
    {
        let row = &rows[i];
        let label = row.label();
        let ghost seen = rows.deep_view().take(i as int);
        let ghost before = acc.deep_view();
        proof {
            lemma_folded_push(seen, row@);
            assert(rows.deep_view().take(i + 1) =~= seen.push(row@));
        }
        match position(&acc, row.id) {
            Some(j) => {
                assert(before[j as int].id == row.id);
                if let Some(label) = label {
                    let ghost labels = acc[j as int].labels.deep_view();
                    acc[j].labels.push(label);
                    assert(acc[j as int].labels.deep_view() =~= labels + carried(row@));
                } else {
                    assert(before[j as int].labels + carried(row@) =~= before[j as int].labels);
                }
                assert(acc.deep_view() =~= before.update(
                    j as int,
                    TodoView {
                        labels: before[j as int].labels + carried(row@),
                        ..before[j as int]
                    },
                ));
            },
            None => {
                assert forall|k: int| 0 <= k < before.len() implies (#[trigger] before[k]).id
                    != row.id by {
                    assert(acc[k].id != row.id);
                }
                let mut labels: Vec<Label> = Vec::new();
                if let Some(label) = label {
                    labels.push(label);
                }
                assert(labels.deep_view() =~= carried(row@));
                acc.push(
                    TodoEntity {
                        id: row.id,
                        text: row.text.clone(),
                        completed: row.completed,
                        labels,
                    },
                );
                assert(acc.deep_view() =~= before.push(
                    TodoView {
                        id: row.id,
                        text: row.text@,
                        completed: row.completed,
                        labels: carried(row@),
                    },
                ));
            },
        }
        i += 1;
    }
    assert(rows.deep_view().take(rows.len() as int) =~= rows.deep_view());
    acc
}

/// The todo that the rows of a query for todo `id` describe: the first of
/// the todos that they fold into. Where the query gave no rows there is no
/// such todo, and the result is `NotFound` with the id. The rows have to be
/// well formed, as for `fold_entities`.
pub fn entity_from_rows(id: i32, rows: Vec<TodoWithLabelFromRow>) -> (result: Result<
    TodoEntity,
    RepositoryError,
>)
    requires
        forall|i: int| 0 <= i < rows.len() ==> (#[trigger] rows[i])@.well_formed(),
    ensures
        match result {
            Ok(todo) => rows.len() > 0 && todo@ == folded(rows.deep_view())[0],
            Err(error) => rows.len() == 0 && error == RepositoryError::NotFound(id),
        },
{
    let ghost views = rows.deep_view();
    proof {
        if views.len() > 0 {
            lemma_distinct_ids_cover(views, views[0].id);
            assert(distinct_ids(views).contains(views[0].id));
        }
    }
    let mut todos = fold_entities(rows);
    assert(todos.deep_view().len() == distinct_ids(views).len());
    if todos.len() > 0 {
        let ghost first = todos[0]@;
        assert(first == todos.deep_view()[0]);
        Ok(todos.swap_remove(0))
    } else {
        Err(RepositoryError::NotFound(id))
    }
}

/// Whether `list` holds each of `todos` once, and nothing else.
pub open spec fn lists_todos(list: Seq<TodoView>, todos: Map<i32, TodoView>) -> bool {
    &&& forall|i: int|
        0 <= i < list.len() ==> todos.contains_key((#[trigger] list[i]).id) && todos[list[i].id]
            == list[i]
    &&& forall|i: int, j: int|
        0 <= i < j < list.len() ==> (#[trigger] list[i]).id != (#[trigger] list[j]).id
    &&& forall|id: i32| #[trigger]
        todos.contains_key(id) ==> exists|i: int| 0 <= i < list.len() && (#[trigger] list[i]).id == id
}

/// What a backend that stores todos does, whatever it stores them in.
///
/// The contract is stated over the todos that the repository holds, by id,
/// and over the labels that it attaches to a todo for given label ids. An
/// operation that fails leaves the todos as they were. A backend may fail
/// with `Unexpected` where its storage fails.
pub trait TodoRepository {
    /// The todos that the repository holds, by id.
    spec fn todos(&self) -> Map<i32, TodoView>;

    /// The labels that the repository attaches to a todo for `label_ids`.
    spec fn labels_for(&self, label_ids: Seq<i32>) -> Seq<LabelView>;

    /// Stores a new todo with the text of `payload` and the labels that its
    /// label ids stand for, not completed, under an id that no todo has yet,
    /// and returns it.
    fn create(&mut self, payload: CreateTodo) -> (result: Result<TodoEntity, RepositoryError>)
        ensures
            forall|ids: Seq<i32>| #[trigger] final(self).labels_for(ids) == old(self).labels_for(ids),
            match result {
                Ok(todo) => {
                    &&& !old(self).todos().contains_key(todo.id)
                    &&& todo@.text == payload@.text
                    &&& !todo@.completed
                    &&& todo@.labels == old(self).labels_for(payload@.label_ids)
                    &&& final(self).todos() == old(self).todos().insert(todo.id, todo@)
                },
                Err(error) => error is Unexpected && final(self).todos() == old(self).todos(),
            },
    ;

    /// Returns the todo with the given id, or `NotFound` with the id where
    /// the repository holds no such todo.
    fn find(&self, id: i32) -> (result: Result<TodoEntity, RepositoryError>)
        ensures
            match result {
                Ok(todo) => self.todos().contains_key(id) && todo@ == self.todos()[id],
                Err(RepositoryError::NotFound(missing)) => missing == id && !self.todos().contains_key(
                    id,
                ),
                Err(RepositoryError::Unexpected(_)) => true,
                Err(RepositoryError::Duplicate(_)) => false,
            },
    ;

    /// Returns every todo that the repository holds, once.
    fn all(&self) -> (result: Result<Vec<TodoEntity>, RepositoryError>)
        ensures
            match result {
                Ok(list) => lists_todos(list.deep_view(), self.todos()),
                Err(error) => error is Unexpected,
            },
    ;

    /// Changes the todo with the given id as `payload` says and returns it
    /// as it then is, or fails with `NotFound` and the id where the
    /// repository holds no such todo.
    fn update(&mut self, id: i32, payload: UpdateTodo) -> (result: Result<
        TodoEntity,
        RepositoryError,
    >)
        ensures
            forall|ids: Seq<i32>| #[trigger] final(self).labels_for(ids) == old(self).labels_for(ids),
            match result {
                Ok(todo) => {
                    &&& old(self).todos().contains_key(id)
                    &&& todo@ == payload@.applied(
                        old(self).todos()[id],
                        match payload@.label_ids {
                            Some(ids) => old(self).labels_for(ids),
                            None => Seq::empty(),
                        },
                    )
                    &&& final(self).todos() == old(self).todos().insert(id, todo@)
                },
                Err(RepositoryError::NotFound(missing)) => {
                    &&& missing == id
                    &&& !old(self).todos().contains_key(id)
                    &&& final(self).todos() == old(self).todos()
                },
                Err(RepositoryError::Unexpected(_)) => final(self).todos() == old(self).todos(),
                Err(RepositoryError::Duplicate(_)) => false,
            },
    ;

    /// Removes the todo with the given id, or fails with `NotFound` and the
    /// id where the repository holds no such todo.
    fn delete(&mut self, id: i32) -> (result: Result<(), RepositoryError>)
        ensures
            forall|ids: Seq<i32>| #[trigger] final(self).labels_for(ids) == old(self).labels_for(ids),
            match result {
                Ok(()) => {
                    &&& old(self).todos().contains_key(id)
                    &&& final(self).todos() == old(self).todos().remove(id)
                },
                Err(RepositoryError::NotFound(missing)) => {
                    &&& missing == id
                    &&& !old(self).todos().contains_key(id)
                    &&& final(self).todos() == old(self).todos()
                },
                Err(RepositoryError::Unexpected(_)) => final(self).todos() == old(self).todos(),
                Err(RepositoryError::Duplicate(_)) => false,
            },
    ;
}

} // verus!
