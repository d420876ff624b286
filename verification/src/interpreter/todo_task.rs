use crate::syntax::{FeatureSet, Features};
use crate::text::{decimal, decimal_text};
use vstd::prelude::*;
use vstd::string::StringExecFns;

verus! {

/// What is left to do on a syntax tree; the numbers are indices of nodes.
#[derive(Debug, PartialEq, Eq, Hash)]
pub enum TodoTask {
    /// The node awaits a token.
    Val(usize),
    /// The node `from` awaits an interpretation that leads to `to`.
    Lambda { from: usize, to: usize },
    /// The features of `from`, but for `ignore`, are to be merged onto
    /// `to`.
    Project { from: usize, to: usize, ignore: FeatureSet },
}

/// The mathematical content of a [`TodoTask`].
pub enum TodoTaskView {
    Val(usize),
    Lambda { from: usize, to: usize },
    Project { from: usize, to: usize, ignore: Features },
}

impl TodoTaskView {
    /// How the task is written: a node by its index, an application in
    /// round brackets, a projection in angle brackets.
    pub open spec fn text(self) -> Seq<char> {
        match self {
            TodoTaskView::Val(idx) => decimal(idx as nat),
            TodoTaskView::Lambda { from, to } => "("@ + decimal(from as nat) + ", "@ + decimal(
                to as nat,
            ) + ")"@,
            TodoTaskView::Project { from, to, .. } => "<"@ + decimal(from as nat) + ", "@ + decimal(
                to as nat,
            ) + ">"@,
        }
    }
}

impl View for TodoTask {
    type V = TodoTaskView;

    open spec fn view(&self) -> TodoTaskView {
        match self {
            TodoTask::Val(idx) => TodoTaskView::Val(*idx),
            TodoTask::Lambda { from, to } => TodoTaskView::Lambda { from: *from, to: *to },
            TodoTask::Project { from, to, ignore } => TodoTaskView::Project {
                from: *from,
                to: *to,
                ignore: ignore@,
            },
        }
    }
}

impl Clone for TodoTask {
    fn clone(&self) -> (r: Self)
        ensures
            r@ == self@,
    {
        match self {
            TodoTask::Val(idx) => TodoTask::Val(*idx),
            TodoTask::Lambda { from, to } => TodoTask::Lambda { from: *from, to: *to },
            TodoTask::Project { from, to, ignore } => TodoTask::Project {
                from: *from,
                to: *to,
                ignore: ignore.clone(),
            },
        }
    }
}

impl TodoTask {
    /// The task as it is written.
    pub fn to_string(&self) -> (r: String)
        ensures
            r@ == self@.text(),
    {
        match self {
            TodoTask::Val(idx) => decimal_text(*idx),
            TodoTask::Lambda { from, to } => {
                let mut r = String::from_str("(");
                r.append(decimal_text(*from).as_str());
                r.append(", ");
                r.append(decimal_text(*to).as_str());
                r.append(")");
                r
            },
            TodoTask::Project { from, to, .. } => {
                let mut r = String::from_str("<");
                r.append(decimal_text(*from).as_str());
                r.append(", ");
                r.append(decimal_text(*to).as_str());
                r.append(">");
                r
            },
        }
    }
}

} // verus!
