use super::todo_task::{TodoTask, TodoTaskView};
use super::tree_node::{TreeNode, TreeNodeView};
use crate::direction::Direction;
use crate::interner::{name_view, Interner};
use crate::lexicon::{Interpretation, InterpretationView};
use crate::sentence::Sentence;
use crate::syntax::{merged, FeatureSet, Features, Key};
use crate::syntax_node::{SyntaxNode, SyntaxNodeView};
use crate::text::{join, joined, texts, Text};
use vstd::prelude::*;
use vstd::string::StringExecFns;

verus! {

/// Why a step on a syntax tree cannot be taken.
#[derive(Debug, Clone, Copy, PartialEq, Eq, Structural)]
pub enum SyntaxTreeError {
    /// The interner made no key of the target or of a token.
    FromStr,
    /// No token is left.
    TokenStackEmpty,
    /// No task is left.
    TodoStackEmpty,
    /// The arena has no node with this index.
    NoNode(usize),
    /// The node `node` was to hang under `parent`, which the arena has not.
    NoParent { parent: usize, node: usize },
    /// The node `node` was to take `child`, which the arena has not.
    NoChild { child: usize, node: usize },
    /// A token was to be added, but the task on top is not one that awaits
    /// a token.
    NotVal,
    /// An entry was to be applied, but the task on top is no pending
    /// application.
    ApplyToNonLambda,
    /// The entry does not fit the node that awaits interpretation.
    InvalidEntry,
    /// A projection was to be done, but the task on top is none.
    NotProject,
    /// An application was to be given up as vacuous, but the task on top is
    /// none.
    DeleteNonLambda,
    /// The node holds a lexical item where a feature set is required.
    NotFeatures(usize),
    /// The application from `from` to `to` is not vacuous: `to` is no
    /// subset of `from`.
    NotSubset { to: usize, from: usize },
    /// A merge of feature sets failed.
    Syntax(crate::syntax::Error),
    /// A walk from this node towards the root did not end within as many
    /// steps as the arena has nodes.
    NotATree(usize),
    /// The rounds that were granted are used up, with trees still under
    /// construction.
    Unfinished,
}

/// The mathematical content of a [`SyntaxTree`].
pub struct SyntaxTreeView {
    pub nodes: Seq<TreeNodeView>,
    pub tree_root: Option<usize>,
    /// What is left to do, the next task last.
    pub todo_stack: Seq<TodoTaskView>,
    /// The tokens that are left, the next token last.
    pub token_stack: Seq<Key>,
}

impl SyntaxTreeView {
    /// The content of the empty tree.
    pub open spec fn empty() -> SyntaxTreeView {
        SyntaxTreeView {
            nodes: Seq::empty(),
            tree_root: None,
            todo_stack: Seq::empty(),
            token_stack: Seq::empty(),
        }
    }

    /// Whether the arena has a node with the index `idx`.
    pub open spec fn has(self, idx: usize) -> bool {
        idx < self.nodes.len()
    }

    /// The node with the index `idx`.
    pub open spec fn node(self, idx: usize) -> TreeNodeView {
        self.nodes[idx as int]
    }

    /// The tree with `node` in the place of the node `idx`.
    pub open spec fn with_node(self, idx: usize, node: TreeNodeView) -> SyntaxTreeView {
        SyntaxTreeView { nodes: self.nodes.update(idx as int, node), ..self }
    }

    /// The tree with `node` appended to the arena.
    pub open spec fn with_new(self, node: TreeNodeView) -> SyntaxTreeView {
        SyntaxTreeView { nodes: self.nodes.push(node), ..self }
    }

    /// The tree with the task `todo` on top.
    pub open spec fn todo_push(self, todo: TodoTaskView) -> SyntaxTreeView {
        SyntaxTreeView { todo_stack: self.todo_stack.push(todo), ..self }
    }

    /// The tree without the task on top.
    pub open spec fn todo_pop(self) -> SyntaxTreeView {
        SyntaxTreeView { todo_stack: self.todo_stack.drop_last(), ..self }
    }

    /// The feature set of the node `idx`.
    pub open spec fn features_of(self, idx: usize) -> Result<Features, SyntaxTreeError> {
        if !self.has(idx) {
            Err(SyntaxTreeError::NoNode(idx))
        } else {
            match self.node(idx).value {
                SyntaxNodeView::Feat(fs) => Ok(fs),
                SyntaxNodeView::Lexi(_) => Err(SyntaxTreeError::NotFeatures(idx)),
            }
        }
    }

    /// Whether nothing is left to do: no task and no token.
    pub open spec fn job_done(self) -> bool {
        self.todo_stack.len() == 0 && self.token_stack.len() == 0
    }

    /// A new node for `value` is put between the node `child` and the
    /// parent of `child`: it takes the place of `child` under that parent,
    /// if there is one, and `child` becomes its left child. First the link
    /// of the child is changed, then that of the parent.
    pub open spec fn add_parent_node(self, value: SyntaxNodeView, child: Option<usize>) -> (
        SyntaxTreeView,
        Result<usize, SyntaxTreeError>,
    ) {
        let idx = self.nodes.len() as usize;
        match child {
            None => (
                self.with_new(TreeNodeView { value, idx, parent: None, left: None, right: None }),
                Ok(idx),
            ),
            Some(c) => if !self.has(c) {
                (self, Err(SyntaxTreeError::NoChild { child: c, node: idx }))
            } else {
                let parent = self.node(c).parent;
                let s1 = self.with_node(c, TreeNodeView { parent: Some(idx), ..self.node(c) });
                match parent {
                    None => (
                        s1.with_new(
                            TreeNodeView { value, idx, parent: None, left: child, right: None },
                        ),
                        Ok(idx),
                    ),
                    Some(p) => if !s1.has(p) {
                        (s1, Err(SyntaxTreeError::NoParent { parent: p, node: idx }))
                    } else {
                        let above = if s1.node(p).left == child {
                            TreeNodeView { left: Some(idx), ..s1.node(p) }
                        } else {
                            TreeNodeView { right: Some(idx), ..s1.node(p) }
                        };
                        (
                            s1.with_node(p, above).with_new(
                                TreeNodeView { value, idx, parent: Some(p), left: child, right: None },
                            ),
                            Ok(idx),
                        )
                    },
                }
            },
        }
    }

    /// A new node for `value` is hung under the node `parent` on the side
    /// `direction`; what hung there becomes its left child. First the link
    /// of the parent is changed, then that of the child.
    pub open spec fn add_child_node(self, value: SyntaxNodeView, parent: Option<usize>, direction: Direction) -> (
        SyntaxTreeView,
        Result<usize, SyntaxTreeError>,
    ) {
        let idx = self.nodes.len() as usize;
        match parent {
            None => (
                self.with_new(TreeNodeView { value, idx, parent: None, left: None, right: None }),
                Ok(idx),
            ),
            Some(p) => if !self.has(p) {
                (self, Err(SyntaxTreeError::NoParent { parent: p, node: idx }))
            } else {
                let child = match direction {
                    Direction::Left => self.node(p).left,
                    Direction::Right => self.node(p).right,
                };
                let above = match direction {
                    Direction::Left => TreeNodeView { left: Some(idx), ..self.node(p) },
                    Direction::Right => TreeNodeView { right: Some(idx), ..self.node(p) },
                };
                let s1 = self.with_node(p, above);
                match child {
                    None => (
                        s1.with_new(TreeNodeView { value, idx, parent, left: None, right: None }),
                        Ok(idx),
                    ),
                    Some(c) => if !s1.has(c) {
                        (s1, Err(SyntaxTreeError::NoChild { child: c, node: idx }))
                    } else {
                        (
                            s1.with_node(c, TreeNodeView { parent: Some(idx), ..s1.node(c) }).with_new(
                                TreeNodeView { value, idx, parent, left: child, right: None },
                            ),
                            Ok(idx),
                        )
                    },
                }
            },
        }
    }

    /// The tree for the target category `target` and the tokens `tokens`:
    /// a root that holds the target and awaits a token, and the tokens with
    /// the first on top.
    pub open spec fn init(tokens: Seq<Key>, target: Key) -> SyntaxTreeView {
        SyntaxTreeView {
            nodes: seq![
                TreeNodeView {
                    value: SyntaxNodeView::Feat(Features::empty().insert(target, None)),
                    idx: 0,
                    parent: None,
                    left: None,
                    right: None,
                },
            ],
            tree_root: Some(0),
            todo_stack: seq![TodoTaskView::Val(0)],
            token_stack: tokens.reverse(),
        }
    }

    /// The next token is hung on the left of the node that awaits one, and
    /// awaits an interpretation that leads to that node.
    pub open spec fn add_token(self) -> (SyntaxTreeView, Result<(), SyntaxTreeError>) {
        if self.token_stack.len() == 0 {
            (self, Err(SyntaxTreeError::TokenStackEmpty))
        } else {
            let token = self.token_stack.last();
            let s1 = SyntaxTreeView { token_stack: self.token_stack.drop_last(), ..self };
            if s1.todo_stack.len() == 0 {
                (s1, Err(SyntaxTreeError::TodoStackEmpty))
            } else {
                let s2 = s1.todo_pop();
                match s1.todo_stack.last() {
                    TodoTaskView::Val(parent) => if !s2.has(parent) {
                        (s2, Err(SyntaxTreeError::NoNode(parent)))
                    } else {
                        let (s3, r) = s2.add_child_node(
                            SyntaxNodeView::Lexi(token),
                            Some(parent),
                            Direction::Left,
                        );
                        match r {
                            Err(e) => (s3, Err(e)),
                            Ok(idx) => (
                                s3.todo_push(TodoTaskView::Lambda { from: idx, to: parent }),
                                Ok(()),
                            ),
                        }
                    },
                    _ => (s2, Err(SyntaxTreeError::NotVal)),
                }
            }
        }
    }

    /// The entry from `input` to the feature set `fs` is applied to the
    /// node `from` that awaits an interpretation leading to `to`: the
    /// feature set becomes the parent of `from` and awaits an
    /// interpretation in its turn; if `input` is a feature set, the
    /// features of `from`, but for those of `input`, are to be merged onto
    /// it first.
    pub open spec fn apply_value(self, from: usize, to: usize, input: SyntaxNodeView, fs: Features) -> (
        SyntaxTreeView,
        Result<(), SyntaxTreeError>,
    ) {
        let (s1, r1) = self.add_parent_node(SyntaxNodeView::Feat(fs), Some(from));
        match r1 {
            Err(e) => (s1, Err(e)),
            Ok(idx) => {
                let s2 = s1.todo_push(TodoTaskView::Lambda { from: idx, to });
                match input {
                    SyntaxNodeView::Lexi(_) => (s2, Ok(())),
                    SyntaxNodeView::Feat(input_fs) => (
                        s2.todo_push(TodoTaskView::Project { from, to: idx, ignore: input_fs }),
                        Ok(()),
                    ),
                }
            },
        }
    }

    /// The entry from the feature set `input` to a function is applied to
    /// the node `from` that awaits an interpretation leading to `to`: the
    /// function's result becomes the parent of `from`, with the function's
    /// argument as its right child. The argument awaits a token. After
    /// that, features are to be merged onto the result: from the left, those
    /// of `from` but for `input`; from the right, those of the argument but
    /// for what the function asked of it. Then the result awaits an
    /// interpretation in its turn.
    pub open spec fn apply_lambda(
        self,
        from: usize,
        to: usize,
        input: Features,
        interp_from: Features,
        interp_to: Features,
        projection: Direction,
    ) -> (SyntaxTreeView, Result<(), SyntaxTreeError>) {
        let (s1, r1) = self.add_parent_node(SyntaxNodeView::Feat(interp_to), Some(from));
        match r1 {
            Err(e) => (s1, Err(e)),
            Ok(result) => {
                let (s2, r2) = s1.add_child_node(
                    SyntaxNodeView::Feat(interp_from),
                    Some(result),
                    Direction::Right,
                );
                match r2 {
                    Err(e) => (s2, Err(e)),
                    Ok(argument) => {
                        let s3 = s2.todo_push(TodoTaskView::Lambda { from: result, to });
                        let s4 = s3.todo_push(
                            match projection {
                                Direction::Left => TodoTaskView::Project {
                                    from,
                                    to: result,
                                    ignore: input,
                                },
                                Direction::Right => TodoTaskView::Project {
                                    from: argument,
                                    to: result,
                                    ignore: interp_from,
                                },
                            },
                        );
                        (s4.todo_push(TodoTaskView::Val(argument)), Ok(()))
                    },
                }
            },
        }
    }

    /// The entry from `input` to `interp` is applied to the node that
    /// awaits an interpretation. A lexical item takes a feature set from a
    /// lexical entry; a feature set takes a feature set or a function from
    /// a functional entry.
    pub open spec fn apply_entry(self, input: SyntaxNodeView, interp: InterpretationView) -> (
        SyntaxTreeView,
        Result<(), SyntaxTreeError>,
    ) {
        if self.todo_stack.len() == 0 {
            (self, Err(SyntaxTreeError::TodoStackEmpty))
        } else {
            let s1 = self.todo_pop();
            match self.todo_stack.last() {
                TodoTaskView::Lambda { from, to } => if !s1.has(from) {
                    (s1, Err(SyntaxTreeError::NoNode(from)))
                } else {
                    match (s1.node(from).value, input, interp) {
                        (
                            SyntaxNodeView::Lexi(_),
                            SyntaxNodeView::Lexi(_),
                            InterpretationView::Val(fs),
                        ) => s1.apply_value(from, to, input, fs),
                        (
                            SyntaxNodeView::Feat(_),
                            SyntaxNodeView::Feat(_),
                            InterpretationView::Val(fs),
                        ) => s1.apply_value(from, to, input, fs),
                        (
                            SyntaxNodeView::Feat(_),
                            SyntaxNodeView::Feat(input_fs),
                            InterpretationView::Lambda { from: interp_from, to: interp_to, projection },
                        ) => s1.apply_lambda(from, to, input_fs, interp_from, interp_to, projection),
                        _ => (s1, Err(SyntaxTreeError::InvalidEntry)),
                    }
                },
                _ => (s1, Err(SyntaxTreeError::ApplyToNonLambda)),
            }
        }
    }

    /// The features of the node `from`, but for the pairs that `ignore`
    /// holds identically, merged onto those of the node `to`.
    pub open spec fn project(self, from: usize, to: usize, ignore: Features) -> (
        SyntaxTreeView,
        Result<(), SyntaxTreeError>,
    ) {
        match self.features_of(from) {
            Err(e) => (self, Err(e)),
            Ok(from_fs) => match self.features_of(to) {
                Err(e) => (self, Err(e)),
                Ok(to_fs) => match merged(from_fs, to_fs, ignore) {
                    Err(e) => (self, Err(SyntaxTreeError::Syntax(e))),
                    Ok(m) => (
                        self.with_node(
                            to,
                            TreeNodeView { value: SyntaxNodeView::Feat(m), ..self.node(to) },
                        ),
                        Ok(()),
                    ),
                },
            },
        }
    }

    /// The projection on top of the tasks is done.
    pub open spec fn do_projection(self) -> (SyntaxTreeView, Result<(), SyntaxTreeError>) {
        if self.todo_stack.len() == 0 {
            (self, Err(SyntaxTreeError::TodoStackEmpty))
        } else {
            let s1 = self.todo_pop();
            match self.todo_stack.last() {
                TodoTaskView::Project { from, to, ignore } => s1.project(from, to, ignore),
                _ => (s1, Err(SyntaxTreeError::NotProject)),
            }
        }
    }

    /// The application on top of the tasks is given up as vacuous: what it
    /// was to lead to is a subset of what awaits interpretation, whose
    /// other features are merged onto it.
    pub open spec fn delete_identity_lambda(self) -> (SyntaxTreeView, Result<(), SyntaxTreeError>) {
        if self.todo_stack.len() == 0 {
            (self, Err(SyntaxTreeError::TodoStackEmpty))
        } else {
            let s1 = self.todo_pop();
            match self.todo_stack.last() {
                TodoTaskView::Lambda { from, to } => match s1.features_of(from) {
                    Err(e) => (s1, Err(e)),
                    Ok(from_fs) => match s1.features_of(to) {
                        Err(e) => (s1, Err(e)),
                        Ok(to_fs) => if to_fs.submap_of(from_fs) {
                            s1.project(from, to, to_fs)
                        } else {
                            (s1, Err(SyntaxTreeError::NotSubset { to, from }))
                        },
                    },
                },
                _ => (s1, Err(SyntaxTreeError::DeleteNonLambda)),
            }
        }
    }

    /// The number of links from the node `node` up to a node without a
    /// parent. The walk gives up after `fuel` links.
    pub open spec fn depth_from(self, node: TreeNodeView, start: usize, fuel: nat) -> Result<
        nat,
        SyntaxTreeError,
    >
        decreases fuel,
    {
        match node.parent {
            None => Ok(0),
            Some(parent) => if !self.has(parent) {
                Err(SyntaxTreeError::NoParent { parent, node: start })
            } else if fuel == 0 {
                Err(SyntaxTreeError::NotATree(start))
            } else {
                match self.depth_from(self.node(parent), start, (fuel - 1) as nat) {
                    Ok(depth) => Ok((depth + 1) as nat),
                    Err(e) => Err(e),
                }
            },
        }
    }
}

impl SyntaxTreeView {
    /// Whether what hangs below the node `idx` is in order, `fuel` levels
    /// deep: the node is in the arena, and so is every node below it.
    pub open spec fn in_order(self, idx: usize, fuel: nat) -> bool
        decreases fuel,
    {
        &&& self.has(idx)
        &&& fuel > 0
        &&& match self.node(idx).left {
            Some(left) => self.in_order(left, (fuel - 1) as nat),
            None => true,
        }
        &&& match self.node(idx).right {
            Some(right) => self.in_order(right, (fuel - 1) as nat),
            None => true,
        }
    }

    /// How what hangs below the child `child` is written.
    pub open spec fn child_text<I: Interner>(
        self,
        names: &I,
        child: Option<usize>,
        indent: Text,
        fuel: nat,
    ) -> Option<Text>
        decreases fuel, 0nat,
    {
        match child {
            Some(idx) => if self.has(idx) && fuel > 0 {
                self.subtree_text(names, idx, indent, (fuel - 1) as nat)
            } else {
                Some(Seq::empty())
            },
            None => Some(Seq::empty()),
        }
    }

    /// How what hangs below the node `idx`, which is in the arena, is
    /// written after the indentation `indent`, `fuel` levels deep: the
    /// node on a line of its own, in square brackets, then what hangs on
    /// its left and on its right, indented by four blanks more, and a
    /// blank. Nothing if a key has no name.
    pub open spec fn subtree_text<I: Interner>(self, names: &I, idx: usize, indent: Text, fuel: nat) -> Option<
        Text,
    >
        decreases fuel, 1nat,
    {
        match (
            self.child_text(names, self.node(idx).left, indent + "    "@, fuel),
            self.child_text(names, self.node(idx).right, indent + "    "@, fuel),
            self.node(idx).text(names),
        ) {
            (Some(left), Some(right), Some(this)) => Some(
                "\n"@ + indent + "["@ + this + "]"@ + left + right + " "@,
            ),
            _ => None,
        }
    }

    /// The node from which the tree is written: the root, or the first
    /// node of the arena if the tree has no root.
    pub open spec fn top(self) -> usize {
        match self.tree_root {
            Some(root) => root,
            None => 0,
        }
    }

    /// How the tree is written: the tokens that are left, the tasks that
    /// are left, and what hangs below the top node, or `NO TREE` if that
    /// is not in order. Nothing if a key has no name.
    pub open spec fn text<I: Interner>(self, names: &I) -> Option<Text> {
        match (
            key_names(names, self.token_stack),
            if self.in_order(self.top(), self.nodes.len()) {
                self.subtree_text(names, self.top(), Seq::empty(), self.nodes.len())
            } else {
                Some("NO TREE"@)
            },
        ) {
            (Some(tokens), Some(tree)) => Some(
                "Token Stack: "@ + joined(tokens, ", "@) + "\nTodo Stack: "@ + joined(
                    task_texts(self.todo_stack),
                    ", "@,
                ) + "\n\nTree:\n"@ + tree + "\n"@,
            ),
            _ => None,
        }
    }
}

/// The names of the keys `keys`, or nothing if one of them has no name.
pub open spec fn key_names<I: Interner>(names: &I, keys: Seq<Key>) -> Option<Seq<Text>>
    decreases keys.len(),
{
    if keys.len() == 0 {
        Some(Seq::empty())
    } else {
        match (key_names(names, keys.drop_last()), names.name_of(keys.last())) {
            (Some(front), Some(last)) => Some(front.push(last)),
            _ => None,
        }
    }
}

/// Keys with one that has no name have no names.
pub proof fn lemma_key_names_fail<I: Interner>(names: &I, keys: Seq<Key>, n: int)
    requires
        0 <= n < keys.len(),
        names.name_of(keys[n]) is None,
    ensures
        key_names(names, keys) is None,
    decreases keys.len(),
{
    if n < keys.len() - 1 {
        assert(keys.drop_last()[n] == keys[n]);
        lemma_key_names_fail(names, keys.drop_last(), n);
    }
}

/// How the tasks `tasks` are written.
pub open spec fn task_texts(tasks: Seq<TodoTaskView>) -> Seq<Text> {
    tasks.map_values(|t: TodoTaskView| t.text())
}

/// The keys of the tokens `tokens`, or nothing if the interner makes no
/// key of one of them.
pub open spec fn keys_of<I: Interner>(names: &I, tokens: Seq<Text>) -> Option<Seq<Key>>
    decreases tokens.len(),
{
    if tokens.len() == 0 {
        Some(Seq::empty())
    } else {
        match (keys_of(names, tokens.drop_last()), names.key_of(tokens.last())) {
            (Some(front), Some(last)) => Some(front.push(last)),
            _ => None,
        }
    }
}

/// If the first `n` tokens have no keys, the tokens have none.
pub proof fn lemma_keys_of_fail<I: Interner>(names: &I, tokens: Seq<Text>, n: int)
    requires
        0 <= n <= tokens.len(),
        keys_of(names, tokens.take(n)) is None,
    ensures
        keys_of(names, tokens) is None,
    decreases tokens.len() - n,
{
    if n < tokens.len() {
        assert(tokens.take(n + 1).drop_last() =~= tokens.take(n));
        lemma_keys_of_fail(names, tokens, n + 1);
    } else {
        assert(tokens.take(n) =~= tokens);
    }
}

/// A syntax tree under construction: an arena of nodes, the tokens that
/// are left, and what is left to do.
#[derive(Debug, PartialEq, Eq, Hash)]
pub struct SyntaxTree {
    nodes: Vec<TreeNode>,
    tree_root: Option<usize>,
    todo_stack: Vec<TodoTask>,
    token_stack: Vec<Key>,
}

impl View for SyntaxTree {
    type V = SyntaxTreeView;

    closed spec fn view(&self) -> SyntaxTreeView {
        SyntaxTreeView {
            nodes: self.nodes@.map_values(|n: TreeNode| n@),
            tree_root: self.tree_root,
            todo_stack: self.todo_stack@.map_values(|t: TodoTask| t@),
            token_stack: self.token_stack@,
        }
    }
}

impl Clone for SyntaxTree {
    fn clone(&self) -> (r: Self)
        ensures
            r@ == self@,
    {
        let mut nodes: Vec<TreeNode> = Vec::new();
        let mut i: usize = 0;
        while i < self.nodes.len()
            invariant
                i <= self.nodes.len(),
                nodes@.len() == i,
                forall|j: int| 0 <= j < i ==> (#[trigger] nodes@[j])@ == self.nodes@[j]@,
            decreases self.nodes.len() - i,
        {
            nodes.push(self.nodes[i].clone());
            i = i + 1;
        }
        let mut todo_stack: Vec<TodoTask> = Vec::new();
        let mut k: usize = 0;
        while k < self.todo_stack.len()
            invariant
                k <= self.todo_stack.len(),
                todo_stack@.len() == k,
                forall|j: int| 0 <= j < k ==> (#[trigger] todo_stack@[j])@ == self.todo_stack@[j]@,
            decreases self.todo_stack.len() - k,
        {
            todo_stack.push(self.todo_stack[k].clone());
            k = k + 1;
        }
        let r = SyntaxTree {
            nodes,
            tree_root: self.tree_root,
            todo_stack,
            token_stack: self.token_stack.clone(),
        };
        assert(r@.nodes =~= self@.nodes);
        assert(r@.todo_stack =~= self@.todo_stack);
        assert(r@.token_stack =~= self@.token_stack);
        r
    }
}

impl SyntaxTree {
    /// The empty tree.
    pub fn new() -> (r: SyntaxTree)
        ensures
            r@ == SyntaxTreeView::empty(),
    {
        let r = SyntaxTree {
            nodes: Vec::new(),
            tree_root: None,
            todo_stack: Vec::new(),
            token_stack: Vec::new(),
        };
        assert(r@.nodes =~= Seq::<TreeNodeView>::empty());
        assert(r@.todo_stack =~= Seq::<TodoTaskView>::empty());
        r
    }

    /// Whether nothing is left to do.
    pub fn job_done(&self) -> (r: bool)
        ensures
            r == self@.job_done(),
    {
        self.todo_stack.len() == 0 && self.token_stack.len() == 0
    }

    /// The node with the index `idx`, if the arena has one.
    pub fn get_node(&self, idx: usize) -> (r: Option<&TreeNode>)
        ensures
            self@.has(idx) ==> r is Some && r->0@ == self@.node(idx),
            !self@.has(idx) ==> r is None,
    {
        if idx < self.nodes.len() {
            Some(&self.nodes[idx])
        } else {
            None
        }
    }

    /// The node with the index `idx`, to be changed.
    pub fn get_node_mut(&mut self, idx: usize) -> (r: Option<&mut TreeNode>)
        ensures
            match r {
                Some(node) => old(self)@.has(idx) && node@ == old(self)@.node(idx) && final(self)@
                    == old(self)@.with_node(idx, final(node)@),
                None => !old(self)@.has(idx) && final(self)@ == old(self)@,
            },
    {
        if idx < self.nodes.len() {
            let ghost before = self.nodes@;
            let node = &mut self.nodes[idx];
            proof {
                assert(before.map_values(|n: TreeNode| n@).update(idx as int, final(node)@)
                    =~= before.update(idx as int, *final(node)).map_values(|n: TreeNode| n@));
            }
            Some(node)
        } else {
            None
        }
    }

    /// The root, if the tree has one.
    pub fn get_root(&self) -> (r: Option<&TreeNode>)
        ensures
            match self@.tree_root {
                Some(idx) => if self@.has(idx) {
                    r is Some && r->0@ == self@.node(idx)
                } else {
                    r is None
                },
                None => r is None,
            },
    {
        match self.tree_root {
            Some(idx) => self.get_node(idx),
            None => None,
        }
    }

    /// The left child of `node`, if it has one.
    pub fn get_left(&self, node: &TreeNode) -> (r: Option<&TreeNode>)
        ensures
            match node@.left {
                Some(idx) => if self@.has(idx) {
                    r is Some && r->0@ == self@.node(idx)
                } else {
                    r is None
                },
                None => r is None,
            },
    {
        match node.get_left() {
            Some(idx) => self.get_node(idx),
            None => None,
        }
    }

    /// The right child of `node`, if it has one.
    pub fn get_right(&self, node: &TreeNode) -> (r: Option<&TreeNode>)
        ensures
            match node@.right {
                Some(idx) => if self@.has(idx) {
                    r is Some && r->0@ == self@.node(idx)
                } else {
                    r is None
                },
                None => r is None,
            },
    {
        match node.get_right() {
            Some(idx) => self.get_node(idx),
            None => None,
        }
    }

    /// The number of nodes.
    pub fn get_size(&self) -> (r: usize)
        ensures
            r == self@.nodes.len(),
    {
        self.nodes.len()
    }

    /// Puts the task `todo` on top of what is left to do.
    pub fn todo_push(&mut self, todo: TodoTask)
        ensures
            final(self)@ == old(self)@.todo_push(todo@),
    {
        self.todo_stack.push(todo);
        assert(self@.todo_stack =~= old(self)@.todo_stack.push(todo@));
    }

    /// Takes the task on top off what is left to do.
    pub fn todo_pop(&mut self) -> (r: Option<TodoTask>)
        ensures
            old(self)@.todo_stack.len() == 0 ==> r is None && final(self)@ == old(self)@,
            old(self)@.todo_stack.len() > 0 ==> r is Some && r->0@ == old(self)@.todo_stack.last()
                && final(self)@ == old(self)@.todo_pop(),
    {
        let r = self.todo_stack.pop();
        assert(old(self)@.todo_stack.len() > 0 ==> self@.todo_stack =~= old(self)@.todo_stack.drop_last());
        r
    }

    /// The task on top of what is left to do.
    pub fn todo_peek(&self) -> (r: Option<&TodoTask>)
        ensures
            self@.todo_stack.len() == 0 ==> r is None,
            self@.todo_stack.len() > 0 ==> r is Some && r->0@ == self@.todo_stack.last(),
    {
        let n = self.todo_stack.len();
        if n == 0 {
            None
        } else {
            Some(&self.todo_stack[n - 1])
        }
    }

    /// Takes the next token.
    pub fn token_pop(&mut self) -> (r: Option<Key>)
        ensures
            old(self)@.token_stack.len() == 0 ==> r is None && final(self)@ == old(self)@,
            old(self)@.token_stack.len() > 0 ==> r == Some(old(self)@.token_stack.last())
                && final(self)@ == (SyntaxTreeView {
                token_stack: old(self)@.token_stack.drop_last(),
                ..old(self)@
            }),
    {
        self.token_stack.pop()
    }

    /// The tokens that are left, the next token last.
    pub fn tokens(&self) -> (r: &Vec<Key>)
        ensures
            r@ == self@.token_stack,
    {
        &self.token_stack
    }

    /// The number of links from `node` up to a node without a parent.
    #[verifier::loop_isolation(false)]
    pub fn calc_depth(&self, node: &TreeNode) -> (r: Result<usize, SyntaxTreeError>)
        ensures
            match self@.depth_from(node@, node@.idx, self@.nodes.len()) {
                Ok(depth) => r == Ok::<usize, SyntaxTreeError>(depth as usize) && depth
                    <= self@.nodes.len(),
                Err(e) => r == Err::<usize, SyntaxTreeError>(e),
            },
    {
        let mut depth: usize = 0;
        let mut this = node;
        let mut fuel = self.nodes.len();
        let ghost goal = self@.depth_from(node@, node@.idx, self@.nodes.len());
        loop
            invariant
                depth + fuel == self@.nodes.len(),
                goal == (match self@.depth_from(this@, node@.idx, fuel as nat) {
                    Ok(rest) => Ok::<nat, SyntaxTreeError>((rest + depth) as nat),
                    Err(e) => Err(e),
                }),
            decreases fuel,
        {
            match this.get_parent() {
                None => {
                    return Ok(depth);
                },
                Some(idx_parent) => match self.get_node(idx_parent) {
                    Some(node_parent) => {
                        if fuel == 0 {
                            return Err(SyntaxTreeError::NotATree(node.get_idx()));
                        }
                        this = node_parent;
                        depth = depth + 1;
                        fuel = fuel - 1;
                    },
                    None => {
                        return Err(
                            SyntaxTreeError::NoParent { parent: idx_parent, node: node.get_idx() },
                        );
                    },
                },
            }
        }
    }

    /// Puts a new node for `value` between the node `child` and its
    /// parent; see [`SyntaxTreeView::add_parent_node`].
    pub fn add_parent_node(&mut self, value: SyntaxNode, child: Option<usize>) -> (r: Result<
        usize,
        SyntaxTreeError,
    >)
        ensures
            (final(self)@, r) == old(self)@.add_parent_node(value@, child),
    {
        let idx = self.get_size();
        let mut node = TreeNode::new(value, idx, None, child, None);

        let parent = match child {
            Some(idx_child) => match self.get_node(idx_child) {
                Some(node_child) => node_child.get_parent(),
                None => {
                    return Err(SyntaxTreeError::NoChild { child: idx_child, node: idx });
                },
            },
            None => None,
        };

        match child {
            Some(idx_child) => match self.get_node_mut(idx_child) {
                Some(node_child) => {
                    node_child.set_parent(Some(idx));
                    node.set_left(Some(idx_child));
                },
                None => {
                    return Err(SyntaxTreeError::NoChild { child: idx_child, node: idx });
                },
            },
            None => (),
        }

        match parent {
            Some(idx_parent) => {
                let is_left = match self.get_node(idx_parent) {
                    Some(node_parent) => node_parent.get_left() == child,
                    None => {
                        return Err(SyntaxTreeError::NoParent { parent: idx_parent, node: idx });
                    },
                };
                match self.get_node_mut(idx_parent) {
                    Some(node_parent) => {
                        if is_left {
                            node_parent.set_left(Some(idx))
                        } else {
                            node_parent.set_right(Some(idx))
                        }
                        node.set_parent(Some(idx_parent));
                    },
                    None => {
                        return Err(SyntaxTreeError::NoParent { parent: idx_parent, node: idx });
                    },
                }
            },
            None => (),
        }

        let ghost before = self@;
        let ghost added = node@;
        self.nodes.push(node);
        assert(self@.nodes =~= before.nodes.push(added));
        Ok(idx)
    }

    /// Hangs a new node for `value` under the node `parent`; see
    /// [`SyntaxTreeView::add_child_node`].
    pub fn add_child_node(&mut self, value: SyntaxNode, parent: Option<usize>, direction: Direction) -> (r:
        Result<usize, SyntaxTreeError>)
        ensures
            (final(self)@, r) == old(self)@.add_child_node(value@, parent, direction),
    {
        let idx = self.get_size();
        let mut node = TreeNode::new(value, idx, parent, None, None);

        let child = match parent {
            Some(idx_parent) => match self.get_node(idx_parent) {
                Some(node_parent) => match direction {
                    Direction::Left => node_parent.get_left(),
                    Direction::Right => node_parent.get_right(),
                },
                None => {
                    return Err(SyntaxTreeError::NoParent { parent: idx_parent, node: idx });
                },
            },
            None => None,
        };

        match parent {
            Some(idx_parent) => match self.get_node_mut(idx_parent) {
                Some(node_parent) => {
                    match direction {
                        Direction::Left => node_parent.set_left(Some(idx)),
                        Direction::Right => node_parent.set_right(Some(idx)),
                    }
                    node.set_parent(Some(idx_parent));
                },
                None => {
                    return Err(SyntaxTreeError::NoParent { parent: idx_parent, node: idx });
                },
            },
            None => {},
        }

        match child {
            Some(idx_child) => match self.get_node_mut(idx_child) {
                Some(node_child) => {
                    node_child.set_parent(Some(idx));
                    node.set_left(Some(idx_child));
                },
                None => {
                    return Err(SyntaxTreeError::NoChild { child: idx_child, node: idx });
                },
            },
            None => {},
        }

        let ghost before = self@;
        let ghost added = node@;
        self.nodes.push(node);
        assert(self@.nodes =~= before.nodes.push(added));
        Ok(idx)
    }

    /// The tree for the sentence `sentence` and the target category named
    /// `target`. It fails if the interner makes no key of the target or of
    /// a token.
    #[verifier::loop_isolation(false)]
    pub fn init<I: Interner>(names: &I, sentence: &Sentence, target: &str) -> (r: Result<
        SyntaxTree,
        SyntaxTreeError,
    >)
        ensures
            match (names.key_of(target@), keys_of(names, sentence@)) {
                (Some(target), Some(tokens)) => r is Ok && r->Ok_0@ == SyntaxTreeView::init(
                    tokens,
                    target,
                ),
                _ => r == Err::<SyntaxTree, SyntaxTreeError>(SyntaxTreeError::FromStr),
            },
    {
        let target = match names.intern(target) {
            Some(key) => key,
            None => {
                return Err(SyntaxTreeError::FromStr);
            },
        };
        let words = sentence.as_str();
        let ghost all = sentence@;
        let mut tokens: Vec<Key> = Vec::new();
        let mut i: usize = 0;
        while i < words.len()
            invariant
                i <= words.len(),
                words@.len() == all.len(),
                forall|j: int| 0 <= j < words@.len() ==> (#[trigger] words@[j])@ == all[j],
                keys_of(names, all.take(i as int)) == Some(tokens@),
            decreases words.len() - i,
        {
            proof {
                assert(all.take(i + 1).drop_last() =~= all.take(i as int));
                assert(all.take(i + 1).last() == words@[i as int]@);
            }
            match names.intern(words[i]) {
                Some(key) => {
                    tokens.push(key);
                },
                None => {
                    proof {
                        lemma_keys_of_fail(names, all, i + 1);
                    }
                    return Err(SyntaxTreeError::FromStr);
                },
            }
            i = i + 1;
        }
        assert(all.take(i as int) =~= all);
        let mut tree = SyntaxTree::new();
        let added = tree.add_child_node(SyntaxNode::from_feature_str(target), None, Direction::Left);
        tree.tree_root = Some(0);
        tree.todo_push(TodoTask::Val(0));
        let ghost first = tokens@;
        tree.token_stack = reversed(tokens);
        proof {
            assert(tree@.nodes =~= SyntaxTreeView::init(first, target).nodes);
            assert(tree@.todo_stack =~= SyntaxTreeView::init(first, target).todo_stack);
        }
        Ok(tree)
    }

    /// Hangs the next token under the node that awaits one; see
    /// [`SyntaxTreeView::add_token`].
    pub fn add_token(&mut self) -> (r: Result<(), SyntaxTreeError>)
        ensures
            (final(self)@, r) == old(self)@.add_token(),
    {
        let token = match self.token_pop() {
            Some(token) => token,
            None => {
                return Err(SyntaxTreeError::TokenStackEmpty);
            },
        };
        let todo = match self.todo_pop() {
            Some(todo) => todo,
            None => {
                return Err(SyntaxTreeError::TodoStackEmpty);
            },
        };
        match todo {
            TodoTask::Val(parent_idx) => match self.get_node(parent_idx) {
                Some(_) => {
                    let idx = self.add_child_node(
                        SyntaxNode::from_lexical_str(token),
                        Some(parent_idx),
                        Direction::Left,
                    )?;
                    self.todo_push(TodoTask::Lambda { from: idx, to: parent_idx });
                },
                None => {
                    return Err(SyntaxTreeError::NoNode(parent_idx));
                },
            },
            _ => {
                return Err(SyntaxTreeError::NotVal);
            },
        }
        Ok(())
    }

    /// Applies an entry that gives the feature set `fs`.
    fn apply_value(&mut self, from: usize, to: usize, input: &SyntaxNode, fs: &FeatureSet) -> (r:
        Result<(), SyntaxTreeError>)
        ensures
            (final(self)@, r) == old(self)@.apply_value(from, to, input@, fs@),
    {
        let idx = self.add_parent_node(SyntaxNode::from_feature_set(fs.clone()), Some(from))?;
        self.todo_push(TodoTask::Lambda { from: idx, to });
        match input {
            SyntaxNode::Lexi(_) => {},
            SyntaxNode::Feat(input_fset) => {
                self.todo_push(TodoTask::Project { from, to: idx, ignore: input_fset.clone() });
            },
        }
        Ok(())
    }

    /// Applies an entry that gives a function.
    fn apply_lambda(
        &mut self,
        from: usize,
        to: usize,
        input: &FeatureSet,
        interp_from: &FeatureSet,
        interp_to: &FeatureSet,
        projection: Direction,
    ) -> (r: Result<(), SyntaxTreeError>)
        ensures
            (final(self)@, r) == old(self)@.apply_lambda(
                from,
                to,
                input@,
                interp_from@,
                interp_to@,
                projection,
            ),
    {
        let interp_to_idx = self.add_parent_node(
            SyntaxNode::from_feature_set(interp_to.clone()),
            Some(from),
        )?;
        let interp_from_idx = self.add_child_node(
            SyntaxNode::from_feature_set(interp_from.clone()),
            Some(interp_to_idx),
            Direction::Right,
        )?;
        self.todo_push(TodoTask::Lambda { from: interp_to_idx, to });
        match projection {
            Direction::Left => self.todo_push(
                TodoTask::Project { from, to: interp_to_idx, ignore: input.clone() },
            ),
            Direction::Right => self.todo_push(
                TodoTask::Project {
                    from: interp_from_idx,
                    to: interp_to_idx,
                    ignore: interp_from.clone(),
                },
            ),
        }
        self.todo_push(TodoTask::Val(interp_from_idx));
        Ok(())
    }

    /// Applies the entry from `input_val` to `interp_val` to the node that
    /// awaits an interpretation; see [`SyntaxTreeView::apply_entry`].
    pub fn apply_entry(&mut self, input_val: &SyntaxNode, interp_val: &Interpretation) -> (r: Result<
        (),
        SyntaxTreeError,
    >)
        ensures
            (final(self)@, r) == old(self)@.apply_entry(input_val@, interp_val@),
    {
        let todo = match self.todo_pop() {
            Some(todo) => todo,
            None => {
                return Err(SyntaxTreeError::TodoStackEmpty);
            },
        };
        match todo {
            TodoTask::Lambda { from: popped_from, to: popped_to } => {
                // use input = interp to replace from
                let from_is_lexical = match self.get_node(popped_from) {
                    Some(from_node) => match from_node.get_value() {
                        SyntaxNode::Lexi(_) => true,
                        SyntaxNode::Feat(_) => false,
                    },
                    None => {
                        return Err(SyntaxTreeError::NoNode(popped_from));
                    },
                };
                match (from_is_lexical, input_val, interp_val) {
                    (true, SyntaxNode::Lexi(_), Interpretation::Val(interp_fset)) => {
                        self.apply_value(popped_from, popped_to, input_val, interp_fset)
                    },
                    (false, SyntaxNode::Feat(_), Interpretation::Val(interp_fset)) => {
                        self.apply_value(popped_from, popped_to, input_val, interp_fset)
                    },
                    (
                        false,
                        SyntaxNode::Feat(input_fset),
                        Interpretation::Lambda { from: interp_from, to: interp_to, projection },
                    ) => self.apply_lambda(
                        popped_from,
                        popped_to,
                        input_fset,
                        interp_from,
                        interp_to,
                        *projection,
                    ),
                    _ => Err(SyntaxTreeError::InvalidEntry),
                }
            },
            _ => Err(SyntaxTreeError::ApplyToNonLambda),
        }
    }

    /// The feature set of the node `idx`.
    pub fn get_features(&self, idx: usize) -> (r: Result<&FeatureSet, SyntaxTreeError>)
        ensures
            match self@.features_of(idx) {
                Ok(fs) => r is Ok && r->Ok_0@ == fs,
                Err(e) => r == Err::<&FeatureSet, SyntaxTreeError>(e),
            },
    {
        match self.get_node(idx) {
            Some(node) => match node.get_value() {
                SyntaxNode::Feat(fset) => Ok(fset),
                SyntaxNode::Lexi(_) => Err(SyntaxTreeError::NotFeatures(idx)),
            },
            None => Err(SyntaxTreeError::NoNode(idx)),
        }
    }

    /// Merges the features of the node `from`, but for those that `ignore`
    /// holds identically, onto those of the node `to`.
    fn project(&mut self, from: usize, to: usize, ignore: &FeatureSet) -> (r: Result<
        (),
        SyntaxTreeError,
    >)
        ensures
            (final(self)@, r) == old(self)@.project(from, to, ignore@),
    {
        let from_fset = self.get_features(from)?.clone();
        let mut to_fset = self.get_features(to)?.clone();
        match FeatureSet::project(&from_fset, &mut to_fset, ignore) {
            Ok(()) => {},
            Err(e) => {
                return Err(SyntaxTreeError::Syntax(e));
            },
        }
        match self.get_node_mut(to) {
            Some(node) => {
                let value = node.get_value_mut();
                *value = SyntaxNode::Feat(to_fset);
            },
            None => {},
        }
        Ok(())
    }

    /// Does the projection on top of the tasks.
    pub fn do_projection(&mut self) -> (r: Result<(), SyntaxTreeError>)
        ensures
            (final(self)@, r) == old(self)@.do_projection(),
    {
        let todo = match self.todo_pop() {
            Some(todo) => todo,
            None => {
                return Err(SyntaxTreeError::TodoStackEmpty);
            },
        };
        match todo {
            TodoTask::Project { from, to, ignore } => self.project(from, to, &ignore),
            _ => Err(SyntaxTreeError::NotProject),
        }
    }

    /// Gives up the application on top of the tasks as vacuous; see
    /// [`SyntaxTreeView::delete_identity_lambda`].
    pub fn delete_identity_lambda(&mut self) -> (r: Result<(), SyntaxTreeError>)
        ensures
            (final(self)@, r) == old(self)@.delete_identity_lambda(),
    {
        let todo = match self.todo_pop() {
            Some(todo) => todo,
            None => {
                return Err(SyntaxTreeError::TodoStackEmpty);
            },
        };
        match todo {
            TodoTask::Lambda { from, to } => {
                let from_fset = self.get_features(from)?;
                let to_fset = self.get_features(to)?;
                if to_fset.is_subset(from_fset) {
                    let ignore = to_fset.clone();
                    self.project(from, to, &ignore)
                } else {
                    Err(SyntaxTreeError::NotSubset { to, from })
                }
            },
            _ => Err(SyntaxTreeError::DeleteNonLambda),
        }
    }
}

/// The keys `keys` in the opposite order.
fn reversed(keys: Vec<Key>) -> (r: Vec<Key>)
    ensures
        r@ == keys@.reverse(),
{
    let mut r: Vec<Key> = Vec::new();
    let mut i: usize = keys.len();
    while i > 0
        invariant
            i <= keys.len(),
            r@.len() == keys.len() - i,
            forall|j: int| 0 <= j < r@.len() ==> r@[j] == keys@[keys.len() - 1 - j],
        decreases i,
    {
        i = i - 1;
        r.push(keys[i]);
    }
    assert(r@ =~= keys@.reverse());
    r
}

impl SyntaxTree {
    /// Whether what hangs below the node `idx` is in order, `fuel` levels
    /// deep.
    fn in_order(&self, idx: usize, fuel: usize) -> (r: bool)
        ensures
            r == self@.in_order(idx, fuel as nat),
        decreases fuel,
    {
        match self.get_node(idx) {
            Some(node) => {
                if fuel == 0 {
                    return false;
                }
                let left = match node.get_left() {
                    Some(left) => self.in_order(left, fuel - 1),
                    None => true,
                };
                let right = match node.get_right() {
                    Some(right) => self.in_order(right, fuel - 1),
                    None => true,
                };
                left && right
            },
            None => false,
        }
    }

    /// What hangs below the child `child` as it is written.
    fn write_child<I: Interner>(&self, names: &I, child: Option<usize>, indent: &str, fuel: usize) -> (r:
        Option<String>)
        ensures
            name_view(r) == self@.child_text(names, child, indent@, fuel as nat),
        decreases fuel, 0nat,
    {
        match child {
            Some(idx) => match self.get_node(idx) {
                Some(_) => {
                    if fuel == 0 {
                        Some(String::new())
                    } else {
                        self.write_subtree(names, idx, indent, fuel - 1)
                    }
                },
                None => Some(String::new()),
            },
            None => Some(String::new()),
        }
    }

    /// What hangs below the node `idx` as it is written.
    fn write_subtree<I: Interner>(&self, names: &I, idx: usize, indent: &str, fuel: usize) -> (r: Option<
        String,
    >)
        requires
            self@.has(idx),
        ensures
            name_view(r) == self@.subtree_text(names, idx, indent@, fuel as nat),
        decreases fuel, 1nat,
    {
        let node = &self.nodes[idx];
        let mut deeper = String::from_str(indent);
        deeper.append("    ");
        let left = self.write_child(names, node.get_left(), deeper.as_str(), fuel);
        let right = self.write_child(names, node.get_right(), deeper.as_str(), fuel);
        let this = node.to_string(names);
        match (left, right, this) {
            (Some(left), Some(right), Some(this)) => {
                let mut r = String::from_str("\n");
                r.append(indent);
                r.append("[");
                r.append(this.as_str());
                r.append("]");
                r.append(left.as_str());
                r.append(right.as_str());
                r.append(" ");
                Some(r)
            },
            _ => None,
        }
    }

    /// The names of the tokens that are left.
    fn token_names<I: Interner>(&self, names: &I) -> (r: Option<Vec<String>>)
        ensures
            match key_names(names, self@.token_stack) {
                Some(tokens) => r is Some && texts(r->0@) == tokens,
                None => r is None,
            },
    {
        let mut r: Vec<String> = Vec::new();
        let mut i: usize = 0;
        assert(self.token_stack@.take(0) =~= Seq::empty());
        assert(texts(r@) =~= Seq::empty());
        while i < self.token_stack.len()
            invariant
                i <= self.token_stack.len(),
                key_names(names, self.token_stack@.take(i as int)) == Some(texts(r@)),
            decreases self.token_stack.len() - i,
        {
            proof {
                assert(self.token_stack@.take(i + 1).drop_last() =~= self.token_stack@.take(i as int));
                assert(self.token_stack@.take(i + 1).last() == self.token_stack@[i as int]);
            }
            match names.resolve(self.token_stack[i]) {
                Some(name) => {
                    let ghost before = r@;
                    r.push(name);
                    assert(texts(r@) =~= texts(before).push(name@));
                },
                None => {
                    proof {
                        lemma_key_names_fail(names, self.token_stack@, i as int);
                    }
                    return None;
                },
            }
            i = i + 1;
        }
        assert(self.token_stack@.take(i as int) =~= self.token_stack@);
        Some(r)
    }

    /// The tasks that are left as they are written.
    fn task_names(&self) -> (r: Vec<String>)
        ensures
            texts(r@) == task_texts(self@.todo_stack),
    {
        let mut r: Vec<String> = Vec::new();
        let mut i: usize = 0;
        while i < self.todo_stack.len()
            invariant
                i <= self.todo_stack.len(),
                r@.len() == i,
                forall|j: int| 0 <= j < i ==> (#[trigger] r@[j])@ == self.todo_stack@[j]@.text(),
            decreases self.todo_stack.len() - i,
        {
            r.push(self.todo_stack[i].to_string());
            i = i + 1;
        }
        assert(texts(r@) =~= task_texts(self@.todo_stack));
        r
    }

    /// The tree as it is written; nothing if a key has no name.
    pub fn to_string<I: Interner>(&self, names: &I) -> (r: Option<String>)
        ensures
            name_view(r) == self@.text(names),
    {
        let tokens = match self.token_names(names) {
            Some(tokens) => tokens,
            None => {
                return None;
            },
        };
        let tasks = self.task_names();
        let top = match self.tree_root {
            Some(root) => root,
            None => 0,
        };
        let size = self.nodes.len();
        let tree = if self.in_order(top, size) {
            proof {
                reveal_strlit("");
                assert(""@ =~= Seq::<char>::empty());
            }
            match self.write_subtree(names, top, "", size) {
                Some(tree) => tree,
                None => {
                    return None;
                },
            }
        } else {
            String::from_str("NO TREE")
        };
        let mut r = String::from_str("Token Stack: ");
        r.append(join(&tokens, ", ").as_str());
        r.append("\nTodo Stack: ");
        r.append(join(&tasks, ", ").as_str());
        r.append("\n\nTree:\n");
        r.append(tree.as_str());
        r.append("\n");
        Some(r)
    }
}

} // verus!
