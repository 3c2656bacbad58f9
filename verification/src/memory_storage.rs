use vstd::prelude::*;
use crate::errors::TodoError;
use crate::storage::{
    clone_all, find_in, remove_from, upsert_into, views_of, TodoStorage,
};
use crate::todo::{Todo, TodoView};

verus! {

/// The in-memory backend: the whole collection lives in the process and
/// vanishes with it. None of its operations can fail.
pub struct MemoryStorage {
    todos: Vec<Todo>,
}

impl MemoryStorage {
    /// An empty store.
    pub fn new() -> (s: Self)
        ensures
            s.contents() == Seq::<TodoView>::empty(),
            !s.fallible(),
    {
        let s = MemoryStorage { todos: Vec::new() };
        proof {
            assert(views_of(s.todos@) =~= Seq::<TodoView>::empty());
        }
        s
    }
}

impl TodoStorage for MemoryStorage {
    closed spec fn contents(&self) -> Seq<TodoView> {
        views_of(self.todos@)
    }

    closed spec fn fallible(&self) -> bool {
        false
    }

    fn save(&mut self, todo: &Todo) -> (r: Result<(), TodoError>) {
        upsert_into(&mut self.todos, todo);
        Ok(())
    }

    fn find_by_id(&self, id: u128) -> (r: Result<Option<Todo>, TodoError>) {
        Ok(find_in(&self.todos, id))
    }

    fn find_all(&self) -> (r: Result<Vec<Todo>, TodoError>) {
        Ok(clone_all(&self.todos))
    }

    fn delete(&mut self, id: u128) -> (r: Result<bool, TodoError>) {
        Ok(remove_from(&mut self.todos, id))
    }

    fn update(&mut self, todo: &Todo) -> (r: Result<(), TodoError>) {
        upsert_into(&mut self.todos, todo);
        Ok(())
    }
}

} // verus!
