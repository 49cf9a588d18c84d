//! The closed set of permitted verbs for role actions.

use vstd::prelude::*;
use vstd::string::StringExecFns;

use crate::text::str_eq;

verus! {

/// A permitted verb, with a variant label and a canonical lowercase token.
#[derive(Clone, Copy, Debug, Hash, PartialEq, Eq, Structural)]
pub enum Operation {
    List,
    Fetch,
    Create,
    Update,
    Replace,
    Delete,
}

/// The variant's label, as it is displayed.
pub open spec fn label_of(op: Operation) -> Seq<char> {
    match op {
        Operation::List => "List"@,
        Operation::Fetch => "Fetch"@,
        Operation::Create => "Create"@,
        Operation::Update => "Update"@,
        Operation::Replace => "Replace"@,
        Operation::Delete => "Delete"@,
    }
}

/// The canonical lowercase token of each operation.
pub open spec fn token_of(op: Operation) -> Seq<char> {
    match op {
        Operation::List => "list"@,
        Operation::Fetch => "fetch"@,
        Operation::Create => "create"@,
        Operation::Update => "update"@,
        Operation::Replace => "replace"@,
        Operation::Delete => "delete"@,
    }
}

impl Operation {
    /// The variant's label, e.g. `"List"`.
    pub fn label(&self) -> (r: String)
        ensures
            r@ == label_of(*self),
    {
        match self {
            Operation::List => String::from_str("List"),
            Operation::Fetch => String::from_str("Fetch"),
            Operation::Create => String::from_str("Create"),
            Operation::Update => String::from_str("Update"),
            Operation::Replace => String::from_str("Replace"),
            Operation::Delete => String::from_str("Delete"),
        }
    }

    /// The canonical lowercase token, e.g. `"list"`.
    pub fn token(&self) -> (r: String)
        ensures
            r@ == token_of(*self),
    {
        match self {
            Operation::List => String::from_str("list"),
            Operation::Fetch => String::from_str("fetch"),
            Operation::Create => String::from_str("create"),
            Operation::Update => String::from_str("update"),
            Operation::Replace => String::from_str("replace"),
            Operation::Delete => String::from_str("delete"),
        }
    }

    /// The operation a canonical token denotes, if any: the action set is
    /// closed.
    pub fn from_token(s: &str) -> (r: Option<Operation>)
        ensures
            match r {
                Some(op) => token_of(op) == s@,
                None => forall|op: Operation| token_of(op) != s@,
            },
    {
        if str_eq(s, "list") {
            Some(Operation::List)
        } else if str_eq(s, "fetch") {
            Some(Operation::Fetch)
        } else if str_eq(s, "create") {
            Some(Operation::Create)
        } else if str_eq(s, "update") {
            Some(Operation::Update)
        } else if str_eq(s, "replace") {
            Some(Operation::Replace)
        } else if str_eq(s, "delete") {
            Some(Operation::Delete)
        } else {
            None
        }
    }
}

} // verus!
