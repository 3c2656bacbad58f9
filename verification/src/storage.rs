use vstd::prelude::*;
use crate::errors::{env_error, TodoError};
use crate::todo::{Todo, TodoView};

verus! {

/// The models of a sequence of records.
pub open spec fn views_of(s: Seq<Todo>) -> Seq<TodoView> {
    s.map_values(|t: Todo| t@)
}

/// The position of the first record carrying `id`, or -1 if none does.
pub open spec fn first_index_of(s: Seq<TodoView>, id: u128) -> int
    decreases s.len(),
{
    if s.len() == 0 {
        -1
    } else if s[0].id == id {
        0
    } else {
        let r = first_index_of(s.drop_first(), id);
        if r < 0 {
            -1
        } else {
            r + 1
        }
    }
}

/// Whether some record carries `id`.
pub open spec fn contains_id(s: Seq<TodoView>, id: u128) -> bool {
    first_index_of(s, id) >= 0
}

/// The first record carrying `id`.
pub open spec fn record_of(s: Seq<TodoView>, id: u128) -> TodoView
    recommends
        contains_id(s, id),
{
    s[first_index_of(s, id)]
}

/// Insert-or-replace by identifier: a present record is replaced in place,
/// an absent one is appended.
pub open spec fn upsert(s: Seq<TodoView>, t: TodoView) -> Seq<TodoView> {
    if contains_id(s, t.id) {
        s.update(first_index_of(s, t.id), t)
    } else {
        s.push(t)
    }
}

/// Removal by identifier: the first record carrying `id` leaves, the rest
/// keep their order; an absent identifier changes nothing.
pub open spec fn remove_id(s: Seq<TodoView>, id: u128) -> Seq<TodoView> {
    if contains_id(s, id) {
        s.remove(first_index_of(s, id))
    } else {
        s
    }
}

/// How many records carry `id`.
pub open spec fn count_id(s: Seq<TodoView>, id: u128) -> nat
    decreases s.len(),
{
    if s.len() == 0 {
        0
    } else {
        count_id(s.drop_first(), id) + (if s[0].id == id {
            1nat
        } else {
            0nat
        })
    }
}

/// No two records share an identifier.
pub open spec fn unique_ids(s: Seq<TodoView>) -> bool {
    forall|i: int, j: int|
        0 <= i < j < s.len() ==> s[i].id != s[j].id
}

/// What `first_index_of` finds: a non-negative answer is the first position
/// carrying the identifier, a negative one means no position does.
pub proof fn lemma_first_index_of(s: Seq<TodoView>, id: u128)
    ensures
        first_index_of(s, id) >= 0 ==> {
            &&& 0 <= first_index_of(s, id) < s.len()
            &&& s[first_index_of(s, id)].id == id
            &&& forall|i: int| 0 <= i < first_index_of(s, id) ==> s[i].id != id
        },
        first_index_of(s, id) < 0 ==> forall|i: int| 0 <= i < s.len() ==> s[i].id != id,
    decreases s.len(),
{
    if s.len() > 0 && s[0].id != id {
        let rest = s.drop_first();
        lemma_first_index_of(rest, id);
        assert(forall|i: int| 1 <= i < s.len() ==> s[i] == rest[i - 1]);
    }
}

/// `first_index_of` is the only position whose prefix is free of the
/// identifier: knowing a position and the prefix fact pins the answer.
pub proof fn lemma_first_index_of_unique(s: Seq<TodoView>, id: u128, i: int)
    requires
        0 <= i < s.len(),
        s[i].id == id,
        forall|j: int| 0 <= j < i ==> s[j].id != id,
    ensures
        first_index_of(s, id) == i,
    decreases s.len(),
{
    if i > 0 {
        let rest = s.drop_first();
        assert(forall|j: int| 1 <= j < s.len() ==> s[j] == rest[j - 1]);
        lemma_first_index_of_unique(rest, id, i - 1);
    }
}

/// Storing then looking up: the record an upsert put in is exactly what a
/// lookup by its identifier finds afterwards.
pub proof fn lemma_upsert_find(s: Seq<TodoView>, t: TodoView)
    ensures
        contains_id(upsert(s, t), t.id),
        record_of(upsert(s, t), t.id) == t,
{
    lemma_first_index_of(s, t.id);
    if contains_id(s, t.id) {
        let i = first_index_of(s, t.id);
        lemma_first_index_of_unique(s.update(i, t), t.id, i);
    } else {
        lemma_first_index_of_unique(s.push(t), t.id, s.len() as int);
    }
}

/// Saving twice under one identifier is saving once: the second upsert
/// overwrites whatever the first wrote.
pub proof fn lemma_upsert_upsert(s: Seq<TodoView>, t1: TodoView, t2: TodoView)
    requires
        t1.id == t2.id,
    ensures
        upsert(upsert(s, t1), t2) == upsert(s, t2),
{
    lemma_first_index_of(s, t1.id);
    if contains_id(s, t1.id) {
        let i = first_index_of(s, t1.id);
        let sa = s.update(i, t1);
        lemma_first_index_of_unique(sa, t1.id, i);
        assert(sa.update(i, t2) =~= s.update(i, t2));
    } else {
        let sa = s.push(t1);
        lemma_first_index_of_unique(sa, t1.id, s.len() as int);
        assert(sa.update(s.len() as int, t2) =~= s.push(t2));
    }
}

/// Under distinct identifiers, how often an identifier occurs is decided by
/// whether it occurs at all.
pub proof fn lemma_count_id(s: Seq<TodoView>, id: u128)
    ensures
        !contains_id(s, id) ==> count_id(s, id) == 0,
        contains_id(s, id) && unique_ids(s) ==> count_id(s, id) == 1,
    decreases s.len(),
{
    lemma_first_index_of(s, id);
    if s.len() > 0 {
        let rest = s.drop_first();
        assert(forall|i: int| 1 <= i < s.len() ==> s[i] == rest[i - 1]);
        lemma_count_id(rest, id);
        lemma_first_index_of(rest, id);
        if unique_ids(s) && s[0].id == id {
            assert(forall|i: int| 0 <= i < rest.len() ==> rest[i].id != id);
            if contains_id(rest, id) {
                assert(rest[first_index_of(rest, id)].id == id);
            }
        }
        if first_index_of(s, id) >= 0 && s[0].id != id {
            lemma_first_index_of_unique(rest, id, first_index_of(s, id) - 1);
        }
    }
}

/// An upsert keeps identifiers distinct, and leaves exactly one record under
/// the stored identifier.
pub proof fn lemma_upsert_unique(s: Seq<TodoView>, t: TodoView)
    requires
        unique_ids(s),
    ensures
        unique_ids(upsert(s, t)),
        count_id(upsert(s, t), t.id) == 1,
{
    lemma_first_index_of(s, t.id);
    let s2 = upsert(s, t);
    if contains_id(s, t.id) {
        let i = first_index_of(s, t.id);
        assert(forall|j: int| 0 <= j < s.len() ==> s2[j].id == s[j].id);
    } else {
        assert(forall|j: int| 0 <= j < s.len() ==> s[j].id != t.id);
    }
    lemma_upsert_find(s, t);
    lemma_count_id(s2, t.id);
}

/// A removal takes the identifier out for good, and keeps the remaining
/// identifiers distinct.
pub proof fn lemma_remove_absent(s: Seq<TodoView>, id: u128)
    requires
        unique_ids(s),
    ensures
        !contains_id(remove_id(s, id), id),
        unique_ids(remove_id(s, id)),
    decreases s.len(),
{
    lemma_first_index_of(s, id);
    if contains_id(s, id) {
        let i = first_index_of(s, id);
        let s2 = s.remove(i);
        assert(forall|j: int| 0 <= j < s2.len() ==> s2[j].id != id);
        lemma_first_index_of(s2, id);
        if first_index_of(s2, id) >= 0 {
            assert(s2[first_index_of(s2, id)].id == id);
        }
    }
}

/// The position of the first record in `todos` carrying `id`.
pub fn position_of_id(todos: &Vec<Todo>, id: u128) -> (r: Option<usize>)
    ensures
        match r {
            Some(i) => i < todos@.len() && first_index_of(views_of(todos@), id) == i as int,
            None => !contains_id(views_of(todos@), id),
        },
{
    let ghost vs = views_of(todos@);
    let n = todos.len();
    let mut i: usize = 0;
    while i < n
        invariant
            n == todos@.len(),
            i <= n,
            vs == views_of(todos@),
            forall|j: int| 0 <= j < i ==> vs[j].id != id,
        decreases n - i,
    {
        if todos[i].id == id {
            proof {
                lemma_first_index_of_unique(vs, id, i as int);
            }
            return Some(i);
        }
        i += 1;
    }
    proof {
        lemma_first_index_of(vs, id);
    }
    None
}

/// Replaces the record sharing `todo`'s identifier, or appends `todo`.
pub fn upsert_into(todos: &mut Vec<Todo>, todo: &Todo)
    ensures
        views_of(final(todos)@) == upsert(views_of(old(todos)@), todo@),
{
    let ghost vs = views_of(todos@);
    match position_of_id(todos, todo.id) {
        Some(i) => {
            todos.remove(i);
            todos.insert(i, todo.clone());
            proof {
                assert(views_of(todos@) =~= vs.update(first_index_of(vs, todo@.id), todo@));
            }
        },
        None => {
            todos.push(todo.clone());
            proof {
                assert(views_of(todos@) =~= vs.push(todo@));
            }
        },
    }
}

/// A copy of the first record in `todos` carrying `id`, if any.
pub fn find_in(todos: &Vec<Todo>, id: u128) -> (r: Option<Todo>)
    ensures
        match r {
            Some(t) => contains_id(views_of(todos@), id) && t@ == record_of(views_of(todos@), id),
            None => !contains_id(views_of(todos@), id),
        },
{
    match position_of_id(todos, id) {
        Some(i) => Some(todos[i].clone()),
        None => None,
    }
}

/// Removes the first record carrying `id` and reports whether one was there.
pub fn remove_from(todos: &mut Vec<Todo>, id: u128) -> (removed: bool)
    ensures
        removed == contains_id(views_of(old(todos)@), id),
        views_of(final(todos)@) == remove_id(views_of(old(todos)@), id),
{
    let ghost vs = views_of(todos@);
    match position_of_id(todos, id) {
        Some(i) => {
            todos.remove(i);
            proof {
                assert(views_of(todos@) =~= vs.remove(first_index_of(vs, id)));
            }
            true
        },
        None => false,
    }
}

/// A record-by-record copy of the collection.
pub fn clone_all(todos: &Vec<Todo>) -> (r: Vec<Todo>)
    ensures
        views_of(r@) == views_of(todos@),
{
    let n = todos.len();
    let mut out: Vec<Todo> = Vec::new();
    let mut i: usize = 0;
    while i < n
        invariant
            n == todos@.len(),
            i <= n,
            out@.len() == i,
            forall|j: int| 0 <= j < i ==> out@[j]@ == todos@[j]@,
        decreases n - i,
    {
        out.push(todos[i].clone());
        i += 1;
    }
    proof {
        assert(views_of(out@) =~= views_of(todos@));
    }
    out
}

/// The capability contract every storage backend meets. `contents` is the
/// stored collection as the backend reports it; `fallible` says whether an
/// operation may surface an environment error at all — when it is false,
/// success is owed.
pub trait TodoStorage: Sized {
    open spec fn contents(&self) -> Seq<TodoView> {
        Seq::empty()
    }

    open spec fn fallible(&self) -> bool {
        true
    }

    /// Idempotent upsert: a record with the same identifier is replaced,
    /// otherwise the record is inserted.
    fn save(&mut self, todo: &Todo) -> (r: Result<(), TodoError>)
        ensures
            r is Ok ==> final(self).contents() == upsert(old(self).contents(), todo@),
            r is Err ==> final(self).contents() == old(self).contents(),
            r matches Err(e) ==> env_error(e),
            !old(self).fallible() ==> r is Ok,
            final(self).fallible() == old(self).fallible(),
    ;

    /// The first stored record with this identifier, or the explicit absent
    /// answer; a missing identifier is never an error.
    fn find_by_id(&self, id: u128) -> (r: Result<Option<Todo>, TodoError>)
        ensures
            match r {
                Ok(Some(t)) => contains_id(self.contents(), id) && t@ == record_of(
                    self.contents(),
                    id,
                ),
                Ok(None) => !contains_id(self.contents(), id),
                Err(e) => env_error(e),
            },
            !self.fallible() ==> r is Ok,
    ;

    /// Every stored record, in the backend's own order.
    fn find_all(&self) -> (r: Result<Vec<Todo>, TodoError>)
        ensures
            r matches Ok(v) ==> views_of(v@) == self.contents(),
            r matches Err(e) ==> env_error(e),
            !self.fallible() ==> r is Ok,
    ;

    /// Removes the record if present and reports whether it was.
    fn delete(&mut self, id: u128) -> (r: Result<bool, TodoError>)
        ensures
            r matches Ok(b) ==> b == contains_id(old(self).contents(), id)
                && final(self).contents() == remove_id(old(self).contents(), id),
            r is Err ==> final(self).contents() == old(self).contents(),
            r matches Err(e) ==> env_error(e),
            !old(self).fallible() ==> r is Ok,
            final(self).fallible() == old(self).fallible(),
    ;

    /// Same upsert semantics as `save`.
    fn update(&mut self, todo: &Todo) -> (r: Result<(), TodoError>)
        ensures
            r is Ok ==> final(self).contents() == upsert(old(self).contents(), todo@),
            r is Err ==> final(self).contents() == old(self).contents(),
            r matches Err(e) ==> env_error(e),
            !old(self).fallible() ==> r is Ok,
            final(self).fallible() == old(self).fallible(),
    ;
}

} // verus!
