use vstd::prelude::*;
use vstd::string::{StrSliceExecFns, StringExecFns};
use crate::clock::current_millis;
use crate::decimal::dec_u128;
use crate::errors::{env_error, TodoError};
use crate::idgen::fresh_id;
use crate::storage::{
    contains_id, first_index_of, lemma_first_index_of, record_of, remove_id, upsert, views_of,
    TodoStorage,
};
use crate::todo::{Priority, Todo, TodoView};

verus! {

/// The name for what char::is_whitespace answers of a character; the answer
/// depends on the character alone.
pub uninterp spec fn is_white(c: char) -> bool;

/// Relies on char::is_whitespace: whether `c` has the Unicode White_Space
/// property.
pub assume_specification[ char::is_whitespace ](c: char) -> (r: bool)
    ensures
        r == is_white(c),
;

/// A title that trimming would reduce to nothing: every character is
/// whitespace. The empty title is blank.
pub open spec fn is_blank(s: Seq<char>) -> bool {
    forall|i: int| 0 <= i < s.len() ==> is_white(#[trigger] s[i])
}

/// Whether `title` is empty after trimming whitespace.
pub fn title_is_blank(title: &str) -> (r: bool)
    ensures
        r == is_blank(title@),
{
    let n = title.unicode_len();
    let mut i: usize = 0;
    while i < n
        invariant
            n == title@.len(),
            i <= n,
            forall|j: int| 0 <= j < i ==> is_white(#[trigger] title@[j]),
        decreases n - i,
    {
        let c = title.get_char(i);
        if !c.is_whitespace() {
            return false;
        }
        i += 1;
    }
    true
}

fn not_found_error(id: u128) -> (e: TodoError)
    ensures
        e is NotFound,
{
    let mut m = String::from_str("no todo with id ");
    m.append(dec_u128(id).as_str());
    TodoError::NotFound(m)
}

/// The service layer: it validates input, translates absence into `NotFound`,
/// and otherwise delegates to the storage backend it wraps.
pub struct TodoService<S: TodoStorage> {
    storage: S,
}

impl<S: TodoStorage> TodoService<S> {
    /// The stored collection, as the backend reports it.
    pub closed spec fn contents(&self) -> Seq<TodoView> {
        self.storage.contents()
    }

    /// Whether the backend may surface environment errors.
    pub closed spec fn fallible(&self) -> bool {
        self.storage.fallible()
    }

    /// Wraps a backend; the service holds no state of its own.
    pub fn new(storage: S) -> (s: Self)
        ensures
            s.contents() == storage.contents(),
            s.fallible() == storage.fallible(),
    {
        TodoService { storage }
    }

    /// Creates a todo with the default `Medium` priority: a blank title is
    /// rejected, anything else is persisted with a fresh identifier.
    pub fn create_todo(&mut self, title: String) -> (r: Result<Todo, TodoError>)
        ensures
            is_blank(title@) ==> (r matches Err(e) && e is ValidationError),
            r matches Err(e) && e is ValidationError ==> is_blank(title@),
            r is Err ==> final(self).contents() == old(self).contents(),
            r matches Err(e) ==> e is ValidationError || env_error(e),
            r matches Ok(t) ==> {
                &&& !is_blank(title@)
                &&& t@.title == title@
                &&& t@.description is None
                &&& t@.completed == false
                &&& t@.priority == Priority::Medium
                &&& t@.wf()
                &&& final(self).contents() == upsert(old(self).contents(), t@)
            },
            !is_blank(title@) && !old(self).fallible() ==> r is Ok,
            final(self).fallible() == old(self).fallible(),
    {
        if title_is_blank(title.as_str()) {
            return Err(TodoError::ValidationError(String::from_str("title must not be empty")));
        }
        let id = fresh_id();
        let now = current_millis();
        let todo = Todo::new(title, id, now);
        match self.storage.save(&todo) {
            Ok(()) => Ok(todo),
            Err(e) => Err(e),
        }
    }

    /// Creates a todo carrying the given priority; the same validation as
    /// `create_todo`.
    pub fn create_todo_with_priority(&mut self, title: String, priority: Priority) -> (r: Result<
        Todo,
        TodoError,
    >)
        ensures
            is_blank(title@) ==> (r matches Err(e) && e is ValidationError),
            r matches Err(e) && e is ValidationError ==> is_blank(title@),
            r is Err ==> final(self).contents() == old(self).contents(),
            r matches Err(e) ==> e is ValidationError || env_error(e),
            r matches Ok(t) ==> {
                &&& !is_blank(title@)
                &&& t@.title == title@
                &&& t@.description is None
                &&& t@.completed == false
                &&& t@.priority == priority
                &&& t@.wf()
                &&& final(self).contents() == upsert(old(self).contents(), t@)
            },
            !is_blank(title@) && !old(self).fallible() ==> r is Ok,
            final(self).fallible() == old(self).fallible(),
    {
        if title_is_blank(title.as_str()) {
            return Err(TodoError::ValidationError(String::from_str("title must not be empty")));
        }
        let id = fresh_id();
        let now = current_millis();
        let mut todo = Todo::new(title, id, now);
        let now2 = current_millis();
        todo.set_priority(priority, now2);
        match self.storage.save(&todo) {
            Ok(()) => Ok(todo),
            Err(e) => Err(e),
        }
    }

    /// Every stored record, as the backend reports it.
    pub fn get_todos(&self) -> (r: Result<Vec<Todo>, TodoError>)
        ensures
            r matches Ok(v) ==> views_of(v@) == self.contents(),
            !self.fallible() ==> r is Ok,
            r matches Err(e) ==> env_error(e),
    {
        self.storage.find_all()
    }

    /// Passthrough lookup: absence is an explicit answer, not an error.
    pub fn get_todo_by_id(&self, id: u128) -> (r: Result<Option<Todo>, TodoError>)
        ensures
            match r {
                Ok(Some(t)) => contains_id(self.contents(), id) && t@ == record_of(
                    self.contents(),
                    id,
                ),
                Ok(None) => !contains_id(self.contents(), id),
                Err(e) => env_error(e),
            },
            !self.fallible() ==> r is Ok,
    {
        self.storage.find_by_id(id)
    }

    /// Marks the record completed and re-persists it; a missing identifier
    /// is `NotFound`.
    pub fn complete_todo(&mut self, id: u128) -> (r: Result<(), TodoError>)
        ensures
            r is Ok ==> ({
                let s0 = old(self).contents();
                let i = first_index_of(s0, id);
                &&& contains_id(s0, id)
                &&& final(self).contents().len() == s0.len()
                &&& final(self).contents()[i].completes(s0[i])
                &&& forall|j: int|
                    0 <= j < s0.len() && j != i ==> final(self).contents()[j] == s0[j]
            }),
            r is Err ==> final(self).contents() == old(self).contents(),
            r matches Err(e) && e is NotFound ==> !contains_id(old(self).contents(), id),
            !contains_id(old(self).contents(), id) ==> r is Err,
            !old(self).fallible() && contains_id(old(self).contents(), id) ==> r is Ok,
            !old(self).fallible() && !contains_id(old(self).contents(), id) ==> (r matches Err(e)
                && e is NotFound),
            r matches Err(e) ==> e is NotFound || env_error(e),
            final(self).fallible() == old(self).fallible(),
    {
        match self.storage.find_by_id(id) {
            Err(e) => Err(e),
            Ok(None) => Err(not_found_error(id)),
            Ok(Some(mut todo)) => {
                proof {
                    lemma_first_index_of(old(self).contents(), id);
                }
                let now = current_millis();
                todo.complete(now);
                match self.storage.update(&todo) {
                    Ok(()) => Ok(()),
                    Err(e) => Err(e),
                }
            },
        }
    }

    /// Flips the record's completion flag and re-persists it.
    pub fn toggle_todo(&mut self, id: u128) -> (r: Result<(), TodoError>)
        ensures
            r is Ok ==> ({
                let s0 = old(self).contents();
                let i = first_index_of(s0, id);
                &&& contains_id(s0, id)
                &&& final(self).contents().len() == s0.len()
                &&& final(self).contents()[i].toggles(s0[i])
                &&& forall|j: int|
                    0 <= j < s0.len() && j != i ==> final(self).contents()[j] == s0[j]
            }),
            r is Err ==> final(self).contents() == old(self).contents(),
            r matches Err(e) && e is NotFound ==> !contains_id(old(self).contents(), id),
            !contains_id(old(self).contents(), id) ==> r is Err,
            !old(self).fallible() && contains_id(old(self).contents(), id) ==> r is Ok,
            !old(self).fallible() && !contains_id(old(self).contents(), id) ==> (r matches Err(e)
                && e is NotFound),
            r matches Err(e) ==> e is NotFound || env_error(e),
            final(self).fallible() == old(self).fallible(),
    {
        match self.storage.find_by_id(id) {
            Err(e) => Err(e),
            Ok(None) => Err(not_found_error(id)),
            Ok(Some(mut todo)) => {
                proof {
                    lemma_first_index_of(old(self).contents(), id);
                }
                let now = current_millis();
                todo.toggle_complete(now);
                match self.storage.update(&todo) {
                    Ok(()) => Ok(()),
                    Err(e) => Err(e),
                }
            },
        }
    }

    /// Replaces the record's title and re-persists it: a blank new title is
    /// rejected before the record is even looked up.
    pub fn update_todo_title(&mut self, id: u128, title: String) -> (r: Result<(), TodoError>)
        ensures
            is_blank(title@) ==> (r matches Err(e) && e is ValidationError),
            r matches Err(e) && e is ValidationError ==> is_blank(title@),
            r is Ok ==> ({
                let s0 = old(self).contents();
                let i = first_index_of(s0, id);
                &&& !is_blank(title@)
                &&& contains_id(s0, id)
                &&& final(self).contents().len() == s0.len()
                &&& final(self).contents()[i].retitles(s0[i], title@)
                &&& forall|j: int|
                    0 <= j < s0.len() && j != i ==> final(self).contents()[j] == s0[j]
            }),
            r is Err ==> final(self).contents() == old(self).contents(),
            r matches Err(e) && e is NotFound ==> !contains_id(old(self).contents(), id)
                && !is_blank(title@),
            !old(self).fallible() && !is_blank(title@) && contains_id(old(self).contents(), id)
                ==> r is Ok,
            !old(self).fallible() && !is_blank(title@) && !contains_id(old(self).contents(), id)
                ==> (r matches Err(e) && e is NotFound),
            r matches Err(e) ==> e is ValidationError || e is NotFound || env_error(e),
            final(self).fallible() == old(self).fallible(),
    {
        if title_is_blank(title.as_str()) {
            return Err(TodoError::ValidationError(String::from_str("title must not be empty")));
        }
        match self.storage.find_by_id(id) {
            Err(e) => Err(e),
            Ok(None) => Err(not_found_error(id)),
            Ok(Some(mut todo)) => {
                proof {
                    lemma_first_index_of(old(self).contents(), id);
                }
                let now = current_millis();
                todo.update_title(title, now);
                match self.storage.update(&todo) {
                    Ok(()) => Ok(()),
                    Err(e) => Err(e),
                }
            },
        }
    }

    /// Removes the record; a missing identifier is `NotFound`.
    pub fn delete_todo(&mut self, id: u128) -> (r: Result<(), TodoError>)
        ensures
            r is Ok ==> contains_id(old(self).contents(), id) && final(self).contents()
                == remove_id(old(self).contents(), id),
            r is Err ==> final(self).contents() == old(self).contents(),
            r matches Err(e) && e is NotFound ==> !contains_id(old(self).contents(), id),
            !contains_id(old(self).contents(), id) ==> r is Err,
            !old(self).fallible() && contains_id(old(self).contents(), id) ==> r is Ok,
            !old(self).fallible() && !contains_id(old(self).contents(), id) ==> (r matches Err(e)
                && e is NotFound),
            r matches Err(e) ==> e is NotFound || env_error(e),
            final(self).fallible() == old(self).fallible(),
    {
        match self.storage.delete(id) {
            Err(e) => Err(e),
            Ok(true) => Ok(()),
            Ok(false) => Err(not_found_error(id)),
        }
    }
}

} // verus!
