use vstd::prelude::*;
use vstd::string::StringExecFns;

verus! {

/// What happened to a todo.
#[derive(Clone, Copy, Debug, PartialEq, Eq, Structural)]
pub enum MutationKind {
    Create,
    Delete,
}

/// A notification that a todo row was created or deleted.
#[derive(Clone, Copy, Debug, PartialEq, Eq, Structural)]
pub struct TodoUpdate {
    pub mutation_kind: MutationKind,
    pub id: i32,
}

impl TodoUpdate {
    /// The event for a todo that was just inserted with the given id.
    pub fn created(id: i32) -> (r: TodoUpdate)
        ensures
            r.mutation_kind == MutationKind::Create,
            r.id == id,
    {
        TodoUpdate { mutation_kind: MutationKind::Create, id }
    }

    /// The event for a todo that was just deleted.
    pub fn deleted(id: i32) -> (r: TodoUpdate)
        ensures
            r.mutation_kind == MutationKind::Delete,
            r.id == id,
    {
        TodoUpdate { mutation_kind: MutationKind::Delete, id }
    }

    pub fn mutation_kind(&self) -> (r: MutationKind)
        ensures
            r == self.mutation_kind,
    {
        self.mutation_kind
    }

    pub fn id(&self) -> (r: i32)
        ensures
            r == self.id,
    {
        self.id
    }
}

/// The HTML fragment pushed to stream subscribers for one event, given the
/// event's JSON text: the text inside a `div` element.
pub fn event_fragment(json: &str) -> (r: String)
    ensures
        r@ == "<div>"@ + json@ + "</div>"@,
{
    let mut r = String::from_str("<div>");
    r.append(json);
    r.append("</div>");
    r
}

} // verus!
