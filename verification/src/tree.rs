//! The combinator tree: the executable representation and its
//! mathematical model.

use vstd::prelude::*;

verus! {

/// Mathematical model of a combinator tree. `Ap` carries the children of a
/// left-associative application chain: `Ap([f, a1, ..., an])` denotes
/// `(((f a1) a2) ... an)`.
pub enum SkTree {
    S,
    K,
    Ap(Seq<SkTree>),
}

/// Executable combinator tree. An `Ap` node holds an ordered sequence of two
/// or more children (see `well_formed`); a parenthesised group of one
/// expression collapses to that expression and never appears as an `Ap`.
#[derive(Debug, PartialEq, Eq)]
pub enum SKCombinator {
    S,
    K,
    Ap(Vec<SKCombinator>),
}

/// The model of an executable tree.
pub open spec fn tree_view(t: SKCombinator) -> SkTree
    decreases t, 0int,
{
    match t {
        SKCombinator::S => SkTree::S,
        SKCombinator::K => SkTree::K,
        SKCombinator::Ap(v) => SkTree::Ap(children_view(v, 0)),
    }
}

/// Models of the children `v[i..]`, in order.
pub open spec fn children_view(v: Vec<SKCombinator>, i: int) -> Seq<SkTree>
    decreases v, v.len() - i,
{
    if 0 <= i < v.len() {
        seq![tree_view(v[i])] + children_view(v, i + 1)
    } else {
        Seq::empty()
    }
}

impl View for SKCombinator {
    type V = SkTree;

    open spec fn view(&self) -> SkTree {
        tree_view(*self)
    }
}

/// Every `Ap` node of a well-formed tree has at least two children.
pub open spec fn well_formed(t: SkTree) -> bool
    decreases t, 0int,
{
    match t {
        SkTree::S => true,
        SkTree::K => true,
        SkTree::Ap(ts) => ts.len() >= 2 && well_formed_list(ts, 0),
    }
}

/// All of `ts[i..]` are well formed.
pub open spec fn well_formed_list(ts: Seq<SkTree>, i: int) -> bool
    decreases ts, ts.len() - i,
{
    if 0 <= i < ts.len() {
        well_formed(ts[i]) && well_formed_list(ts, i + 1)
    } else {
        true
    }
}

/// A tail of a well-formed list is well formed element by element.
pub proof fn lemma_well_formed_list_index(ts: Seq<SkTree>, i: int, k: int)
    requires
        0 <= i <= k < ts.len(),
        well_formed_list(ts, i),
    ensures
        well_formed(ts[k]),
        well_formed_list(ts, k),
    decreases k - i,
{
    if i < k {
        lemma_well_formed_list_index(ts, i + 1, k);
    }
}

/// `children_view` of `v[i..]` has one model per child, in order.
pub proof fn lemma_children_view_index(v: Vec<SKCombinator>, i: int)
    requires
        0 <= i <= v.len(),
    ensures
        children_view(v, i).len() == v.len() - i,
        forall|k: int| i <= k < v.len() ==> children_view(v, i)[k - i] == tree_view(v[k]),
    decreases v.len() - i,
{
    if i < v.len() {
        lemma_children_view_index(v, i + 1);
    }
}

/// Pushing a child onto a vector pushes its model onto the children's
/// models.
pub proof fn lemma_children_view_push(a: Vec<SKCombinator>, b: Vec<SKCombinator>, x: SKCombinator, i: int)
    requires
        b@ == a@.push(x),
        0 <= i <= a@.len(),
    ensures
        children_view(b, i) == children_view(a, i).push(tree_view(x)),
    decreases a@.len() - i,
{
    if i == a@.len() {
        assert(children_view(b, i + 1) =~= Seq::<SkTree>::empty());
        assert(children_view(a, i) =~= Seq::<SkTree>::empty());
        assert(b@[i] == x);
        assert(children_view(b, i) =~= children_view(a, i).push(tree_view(x)));
    } else {
        lemma_children_view_push(a, b, x, i + 1);
        assert(b@[i] == a@[i]);
        assert(children_view(b, i) =~= children_view(a, i).push(tree_view(x)));
    }
}

} // verus!
