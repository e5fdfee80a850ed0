//! The parts of a table change that are one of several kinds.
use vstd::prelude::*;
use crate::key::PrimaryKeyView;
use crate::map::texts;
use crate::pb::database::CompositePrimaryKey;

verus! {

/// What is to happen to a row.
#[derive(Debug, Clone, Copy, PartialEq, Eq, Structural)]
pub enum Operation {
    Unspecified,
    Create,
    Update,
    Delete,
    Upsert,
}

impl Operation {
    /// The number of the operation in the protocol.
    pub open spec fn spec_number(self) -> i32 {
        match self {
            Operation::Unspecified => 0i32,
            Operation::Create => 1i32,
            Operation::Update => 2i32,
            Operation::Delete => 3i32,
            Operation::Upsert => 4i32,
        }
    }

    /// The number of the operation in the protocol.
    #[verifier::when_used_as_spec(spec_number)]
    pub fn number(self) -> (number: i32)
        ensures
            number == self.spec_number(),
    {
        match self {
            Operation::Unspecified => 0,
            Operation::Create => 1,
            Operation::Update => 2,
            Operation::Delete => 3,
            Operation::Upsert => 4,
        }
    }
}

impl Default for Operation {
    fn default() -> (operation: Self)
        ensures
            operation == Operation::Unspecified,
    {
        Operation::Unspecified
    }
}

/// The key of the row that a change is about.
#[derive(Debug, Clone, PartialEq)]
pub enum PrimaryKey {
    Pk(String),
    CompositePk(CompositePrimaryKey),
}

impl PrimaryKey {
    /// No column of the key occurs twice.
    pub open spec fn wf(self) -> bool {
        match self {
            PrimaryKey::Pk(_) => true,
            PrimaryKey::CompositePk(composite) => composite.keys.wf(),
        }
    }
}

impl View for PrimaryKey {
    type V = PrimaryKeyView;

    open spec fn view(&self) -> PrimaryKeyView {
        match *self {
            PrimaryKey::Pk(pk) => PrimaryKeyView::Single(pk@),
            PrimaryKey::CompositePk(composite) => PrimaryKeyView::Composite(texts(composite.keys@)),
        }
    }
}

} // verus!
