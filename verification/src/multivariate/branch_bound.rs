use vstd::prelude::*;

verus! {

broadcast use vstd::array::group_array_axioms;

/// Branch and bound for mixed-integer linear programs whose integer variables
/// take the values 0 and 1.
pub struct BranchAndBound;

/// A node of the search over variables that take the values 0 and 1: which
/// variables are fixed to one (`lower`) and which may be one (`upper`).
#[derive(Clone, Copy, Debug)]
pub struct BoundNode<const N: usize> {
    pub lower: [bool; N],
    pub upper: [bool; N],
}

/// The assignment `x` of 0 and 1 (as `false` and `true`) respects the bounds
/// of `node`.
pub open spec fn allows<const N: usize>(node: BoundNode<N>, x: Seq<bool>) -> bool {
    &&& x.len() == N
    &&& forall|i: int| 0 <= i < N ==> (node.lower@[i] ==> x[i]) && (x[i] ==> node.upper@[i])
}

/// The root of the search: every variable between 0 and 1.
pub fn root_node<const N: usize>() -> (node: BoundNode<N>)
    ensures
        forall|i: int| 0 <= i < N ==> !node.lower@[i] && node.upper@[i],
        forall|x: Seq<bool>| x.len() == N ==> allows(node, x),
{
    BoundNode { lower: [false; N], upper: [true; N] }
}

/// The two children of `node` on variable `j`: the right one fixes it to one,
/// the left one to zero; the other bounds stay.
pub fn branch<const N: usize>(node: &BoundNode<N>, j: usize) -> (children: (BoundNode<N>, BoundNode<N>))
    requires
        j < N,
    ensures
        children.0.lower@ == node.lower@.update(j as int, true),
        children.0.upper@ == node.upper@,
        children.1.lower@ == node.lower@,
        children.1.upper@ == node.upper@.update(j as int, false),
{
    let mut right = *node;
    right.lower[j] = true;
    let mut left = *node;
    left.upper[j] = false;
    (right, left)
}

/// Pushes the children of `node` on variable `j` onto the search stack, the
/// right one first, so that the left one (the variable at zero) is explored
/// next.
pub fn push_children<const N: usize>(stack: &mut Vec<BoundNode<N>>, node: &BoundNode<N>, j: usize)
    requires
        j < N,
    ensures
        final(stack)@.len() == old(stack)@.len() + 2,
        final(stack)@.take(old(stack)@.len() as int) == old(stack)@,
        final(stack)@[old(stack)@.len() as int].lower@ == node.lower@.update(j as int, true),
        final(stack)@[old(stack)@.len() as int].upper@ == node.upper@,
        final(stack)@[old(stack)@.len() + 1int].lower@ == node.lower@,
        final(stack)@[old(stack)@.len() + 1int].upper@ == node.upper@.update(j as int, false),
{
    let (right, left) = branch(node, j);
    stack.push(right);
    stack.push(left);
    assert(stack@.take(old(stack)@.len() as int) =~= old(stack)@);
}

/// Branching splits a node: an assignment that the node allows is allowed by
/// exactly one of its two children, and the children allow nothing more.
pub proof fn lemma_branch_partitions<const N: usize>(node: BoundNode<N>, right: BoundNode<N>, left: BoundNode<N>, j: int, x: Seq<bool>)
    requires
        0 <= j < N,
        right.lower@ == node.lower@.update(j, true),
        right.upper@ == node.upper@,
        left.lower@ == node.lower@,
        left.upper@ == node.upper@.update(j, false),
    ensures
        allows(node, x) <==> (allows(right, x) || allows(left, x)),
        !(allows(right, x) && allows(left, x)),
{
    if allows(node, x) {
        if x[j] {
            assert forall|i: int| 0 <= i < N implies (right.lower@[i] ==> x[i]) && (x[i] ==> right.upper@[i]) by {
                if i != j {
                    assert(right.lower@[i] == node.lower@[i]);
                }
            }
        } else {
            assert forall|i: int| 0 <= i < N implies (left.lower@[i] ==> x[i]) && (x[i] ==> left.upper@[i]) by {
                if i != j {
                    assert(left.upper@[i] == node.upper@[i]);
                }
            }
        }
    }
    if allows(right, x) {
        assert(right.lower@[j]);
        assert forall|i: int| 0 <= i < N implies (node.lower@[i] ==> x[i]) && (x[i] ==> node.upper@[i]) by {
            if i != j {
                assert(right.lower@[i] == node.lower@[i]);
            } else {
                assert(x[j]);
            }
        }
    }
    if allows(left, x) {
        assert(!left.upper@[j]);
        assert forall|i: int| 0 <= i < N implies (node.lower@[i] ==> x[i]) && (x[i] ==> node.upper@[i]) by {
            if i != j {
                assert(left.upper@[i] == node.upper@[i]);
            } else {
                assert(!x[j]);
            }
        }
    }
    if allows(right, x) && allows(left, x) {
        assert(right.lower@[j]);
        assert(!left.upper@[j]);
        assert(x[j]);
    }
}

}
