use optimization::multivariate::branch_bound::{branch, push_children, root_node, BoundNode};

fn allows<const N: usize>(node: &BoundNode<N>, x: &[bool; N]) -> bool {
    (0..N).all(|i| (!node.lower[i] || x[i]) && (!x[i] || node.upper[i]))
}

#[test]
fn root_allows_everything() {
    let root: BoundNode<3> = root_node();
    assert_eq!(root.lower, [false; 3]);
    assert_eq!(root.upper, [true; 3]);
}

#[test]
fn branching_fixes_one_variable_each_way() {
    let root: BoundNode<3> = root_node();
    let (right, left) = branch(&root, 1);
    assert_eq!(right.lower, [false, true, false]);
    assert_eq!(right.upper, [true, true, true]);
    assert_eq!(left.lower, [false, false, false]);
    assert_eq!(left.upper, [true, false, true]);
}

#[test]
fn children_split_the_assignments_of_their_parent() {
    let root: BoundNode<3> = root_node();
    let (r, _) = branch(&root, 0);
    let (right, left) = branch(&r, 2);
    for bits in 0..8u8 {
        let x = [bits & 1 != 0, bits & 2 != 0, bits & 4 != 0];
        assert_eq!(allows(&r, &x), allows(&right, &x) || allows(&left, &x));
        assert!(!(allows(&right, &x) && allows(&left, &x)));
    }
}

#[test]
fn the_zero_branch_is_explored_first() {
    let root: BoundNode<2> = root_node();
    let mut stack = vec![root];
    let node = stack.pop().unwrap();
    push_children(&mut stack, &node, 0);
    assert_eq!(stack.len(), 2);
    let next = stack.pop().unwrap();
    assert_eq!(next.upper, [false, true]);
    let later = stack.pop().unwrap();
    assert_eq!(later.lower, [true, false]);
}
