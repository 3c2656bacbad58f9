use vstd::prelude::*;
use vstd::string::StringExecFns;
use crate::errors::TodoError;

verus! {

/// Priority of a todo record; `Medium` is the default at creation.
#[derive(Debug, Clone, Copy, PartialEq, Eq, Structural)]
pub enum Priority {
    Low,
    Medium,
    High,
}

/// The mathematical model of one todo record.
pub ghost struct TodoView {
    pub id: u128,
    pub title: Seq<char>,
    pub description: Option<Seq<char>>,
    pub completed: bool,
    pub created_at: u64,
    pub updated_at: u64,
    pub priority: Priority,
}

impl TodoView {
    /// The record invariant: a record is never stamped before its creation.
    pub open spec fn wf(self) -> bool {
        self.updated_at >= self.created_at
    }

    /// `self` is `base` after some field mutation: identity, description and
    /// creation time are untouched, and the refreshed stamp respects `wf`.
    pub open spec fn mutation_of(self, base: TodoView) -> bool {
        &&& self.id == base.id
        &&& self.description == base.description
        &&& self.created_at == base.created_at
        &&& self.updated_at >= self.created_at
    }

    /// `self` is `base` marked completed.
    pub open spec fn completes(self, base: TodoView) -> bool {
        &&& self.mutation_of(base)
        &&& self.title == base.title
        &&& self.priority == base.priority
        &&& self.completed == true
    }

    /// `self` is `base` with its completion flag flipped.
    pub open spec fn toggles(self, base: TodoView) -> bool {
        &&& self.mutation_of(base)
        &&& self.title == base.title
        &&& self.priority == base.priority
        &&& self.completed == !base.completed
    }

    /// `self` is `base` carrying the new title.
    pub open spec fn retitles(self, base: TodoView, title: Seq<char>) -> bool {
        &&& self.mutation_of(base)
        &&& self.title == title
        &&& self.priority == base.priority
        &&& self.completed == base.completed
    }

    /// `self` is `base` carrying the new priority.
    pub open spec fn reprioritizes(self, base: TodoView, priority: Priority) -> bool {
        &&& self.mutation_of(base)
        &&& self.title == base.title
        &&& self.priority == priority
        &&& self.completed == base.completed
    }
}

/// The stamp written by a mutation: the current time, held back to the
/// creation time if the clock reads earlier, so that `wf` is preserved.
pub open spec fn stamp(created_at: u64, now: u64) -> u64 {
    if now >= created_at {
        now
    } else {
        created_at
    }
}

/// One task record: identity, text, completion state, priority and timestamps.
#[derive(Debug)]
pub struct Todo {
    pub id: u128,
    pub title: String,
    pub description: Option<String>,
    pub completed: bool,
    pub created_at: u64,
    pub updated_at: u64,
    pub priority: Priority,
}

impl View for Todo {
    type V = TodoView;

    open spec fn view(&self) -> TodoView {
        TodoView {
            id: self.id,
            title: self.title@,
            description: match self.description {
                Some(d) => Some(d@),
                None => None,
            },
            completed: self.completed,
            created_at: self.created_at,
            updated_at: self.updated_at,
            priority: self.priority,
        }
    }
}

impl Clone for Todo {
    fn clone(&self) -> (r: Self)
        ensures
            r@ == self@,
    {
        Todo {
            id: self.id,
            title: self.title.clone(),
            description: match &self.description {
                Some(d) => Some(d.clone()),
                None => None,
            },
            completed: self.completed,
            created_at: self.created_at,
            updated_at: self.updated_at,
            priority: self.priority,
        }
    }
}

impl Todo {
    /// A fresh record: both timestamps read `now`, the flag is down and the
    /// priority is `Medium`.
    pub fn new(title: String, id: u128, now: u64) -> (t: Todo)
        ensures
            t@ == (TodoView {
                id,
                title: title@,
                description: None,
                completed: false,
                created_at: now,
                updated_at: now,
                priority: Priority::Medium,
            }),
            t@.wf(),
    {
        Todo {
            id,
            title,
            description: None,
            completed: false,
            created_at: now,
            updated_at: now,
            priority: Priority::Medium,
        }
    }

    /// Marks the record completed and refreshes its stamp.
    pub fn complete(&mut self, now: u64)
        ensures
            final(self)@.completes(old(self)@),
            final(self)@.updated_at == stamp(old(self)@.created_at, now),
    {
        self.completed = true;
        self.refresh(now);
    }

    /// Flips the completion flag and refreshes the stamp.
    pub fn toggle_complete(&mut self, now: u64)
        ensures
            final(self)@.toggles(old(self)@),
            final(self)@.updated_at == stamp(old(self)@.created_at, now),
    {
        self.completed = !self.completed;
        self.refresh(now);
    }

    /// Replaces the title and refreshes the stamp.
    pub fn update_title(&mut self, title: String, now: u64)
        ensures
            final(self)@.retitles(old(self)@, title@),
            final(self)@.updated_at == stamp(old(self)@.created_at, now),
    {
        self.title = title;
        self.refresh(now);
    }

    /// Replaces the priority and refreshes the stamp.
    pub fn set_priority(&mut self, priority: Priority, now: u64)
        ensures
            final(self)@.reprioritizes(old(self)@, priority),
            final(self)@.updated_at == stamp(old(self)@.created_at, now),
    {
        self.priority = priority;
        self.refresh(now);
    }

    fn refresh(&mut self, now: u64)
        ensures
            *final(self) == (Todo {
                updated_at: stamp(old(self)@.created_at, now),
                ..*old(self)
            }),
    {
        self.updated_at = if now >= self.created_at {
            now
        } else {
            self.created_at
        };
    }
}

/// Completing is idempotent on the record: a second completion still leaves
/// the flag up and the rest of the record as it was.
pub proof fn lemma_complete_idempotent(a: TodoView, b: TodoView, c: TodoView)
    requires
        b.completes(a),
        c.completes(b),
    ensures
        b.completed == true,
        c.completed == true,
        c.id == a.id,
        c.title == a.title,
        c.description == a.description,
        c.priority == a.priority,
{
}

/// Toggling alternates the flag: one toggle flips it, a second restores it.
pub proof fn lemma_toggle_alternates(a: TodoView, b: TodoView, c: TodoView)
    requires
        b.toggles(a),
        c.toggles(b),
    ensures
        b.completed == !a.completed,
        c.completed == a.completed,
{
}

/// Reads a priority tag as the command line hands it over: absent means
/// `Medium`; anything but the three known tags is rejected.
pub fn parse_priority(priority_str: Option<String>) -> (r: Result<Priority, TodoError>)
    ensures
        match r {
            Ok(p) => match priority_str {
                None => p == Priority::Medium,
                Some(s) => (s@ == "low"@ && p == Priority::Low) || (s@ == "medium"@ && p
                    == Priority::Medium) || (s@ == "high"@ && p == Priority::High),
            },
            Err(e) => {
                &&& e is ValidationError
                &&& priority_str matches Some(s)
                &&& s@ != "low"@
                &&& s@ != "medium"@
                &&& s@ != "high"@
            },
        },
{
    match priority_str {
        None => Ok(Priority::Medium),
        Some(s) => {
            if s == String::from_str("low") {
                Ok(Priority::Low)
            } else if s == String::from_str("medium") {
                Ok(Priority::Medium)
            } else if s == String::from_str("high") {
                Ok(Priority::High)
            } else {
                Err(TodoError::ValidationError(String::from_str(
                    "priority must be one of: low, medium, high",
                )))
            }
        },
    }
}

} // verus!
