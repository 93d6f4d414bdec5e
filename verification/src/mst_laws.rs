//! What the walk does on every tree instance.

use crate::bytes::lex_lt;
use crate::cid::CidView;
use crate::digest::key_depth;
use crate::mst::{
    lemma_remaining_insert, lemma_remaining_subset, walk, walk_entries,
    MstError, Scan, Walk,
};
use crate::node::{decode_node, EntryView};
use crate::tree::{
    branch_ok, branches_fail_with, entry_matches, fails_with, holds, holds_from, in_store,
    last_key, link, ordered, previous_key, report, top_depth, top_max, top_min, visit,
    visit_from, well_formed, Branch, Tree,
};
use vstd::prelude::*;

verus! {

/// A traversal only adds to the visited identifiers.
pub proof fn lemma_visit_grows(tree: Tree, visited: Set<CidView>)
    ensures
        visit(tree, visited) matches Some(seen) ==> visited.subset_of(seen),
    decreases tree, 0nat,
{
    match tree {
        Tree::Node { cid, left, branches } => {
            if !visited.contains(cid) {
                lemma_visit_grows(*left, visited.insert(cid));
                if let Some(seen) = visit(*left, visited.insert(cid)) {
                    lemma_visit_from_grows(branches, 0, seen);
                }
            }
        },
        _ => {},
    }
}

/// A traversal of the subtrees to the right of the entries only adds to the
/// visited identifiers.
pub proof fn lemma_visit_from_grows(branches: Seq<Branch>, i: int, visited: Set<CidView>)
    ensures
        visit_from(branches, i, visited) matches Some(seen) ==> visited.subset_of(seen),
    decreases branches, branches.len() - i,
{
    if 0 <= i < branches.len() {
        lemma_visit_grows(branches[i].right, visited);
        if let Some(seen) = visit(branches[i].right, visited) {
            lemma_visit_from_grows(branches, i + 1, seen);
        }
    }
}

/// The rules that the entries from index `i` on, the subtrees to their
/// right and the left subtree's bound must meet.
pub open spec fn branches_ok(left: Tree, branches: Seq<Branch>, i: int) -> bool {
    &&& forall|j: int|
        i <= j < branches.len() ==> ordered((#[trigger] branches[j]).right) && branch_ok(
            left,
            branches,
            j,
        )
    &&& (top_max(left) matches Some(max) ==> branches.len() > 0 ==> lex_lt(max, branches[0].key))
}

/// What the scan reports at its end for a node with the given entries.
pub open spec fn node_report(branches: Seq<Branch>, found: bool) -> Walk {
    if branches.len() > 0 {
        Walk {
            found,
            min: Some(branches[0].key),
            max: Some(last_key(branches[branches.len() - 1])),
            depth: Some(key_depth(branches[0].key)),
        }
    } else {
        Walk { found, min: None, max: None, depth: None }
    }
}

/// The scan over a node's entries from index `i` on succeeds exactly where
/// the rest of the node keeps every rule, and then reports the node.
pub proof fn lemma_walk_branches(
    store: Map<CidView, Seq<u8>>,
    target: CidView,
    left: Tree,
    branches: Seq<Branch>,
    entries: Seq<EntryView>,
    i: int,
    scan: Scan,
)
    requires
        store.dom().finite(),
        0 <= i <= branches.len(),
        entries.len() == branches.len(),
        forall|j: int|
            0 <= j < branches.len() ==> in_store(store, (#[trigger] branches[j]).right)
                && entry_matches(entries[j], previous_key(branches, j), branches[j]),
        scan.key == previous_key(branches, i),
        i == 0 ==> scan.depth is None && scan.first_key is None && scan.last_key is None,
        i > 0 ==> scan.depth == Some(key_depth(branches[0].key)) && scan.first_key == Some(
            branches[0].key,
        ) && scan.last_key == Some(last_key(branches[i - 1])),
    ensures
        match walk_entries(store, target, entries, report(left, target), i as nat, scan) {
            Ok((w, seen)) => branches_ok(left, branches, i) && visit_from(
                branches,
                i,
                scan.visited,
            ) == Some(seen) && w == node_report(
                branches,
                scan.found || holds_from(branches, i, target),
            ),
            Err(_) => !(branches_ok(left, branches, i) && visit_from(branches, i, scan.visited)
                is Some),
        },
    decreases branches, branches.len() - i,
{
    let left_report = report(left, target);
    let total = walk_entries(store, target, entries, left_report, i as nat, scan);
    if i >= branches.len() {
        assert(visit_from(branches, i, scan.visited) == Some(scan.visited));
        assert(!holds_from(branches, i, target));
    } else {
        let branch = branches[i];
        let entry = entries[i];
        assert(entry_matches(entry, previous_key(branches, i), branch));
        let key = branch.key;
        assert(key == crate::mst::full_key(scan.key, entry));
        let depth = key_depth(key);
        if scan.depth is Some && scan.depth->Some_0 != depth {
            assert(!branch_ok(left, branches, i));
        } else if scan.last_key is Some && !lex_lt(scan.last_key->Some_0, key) {
            assert(!branch_ok(left, branches, i));
        } else {
            lemma_walk_tree(store, scan.visited, branch.right, target);
            match walk(store, scan.visited, entry.right, target) {
                Err(_) => {
                    assert(!well_formed(branch.right, scan.visited));
                    if visit(branch.right, scan.visited) is Some {
                        assert(!ordered(branches[i].right));
                    }
                },
                Ok((right, seen)) => {
                    assert(right == report(branch.right, target));
                    assert(visit(branch.right, scan.visited) == Some(seen));
                    if right.min is Some && lex_lt(right.min->Some_0, key) {
                        assert(!branch_ok(left, branches, i));
                    } else if (left_report.depth is Some && left_report.depth->Some_0 >= depth)
                        || (right.depth is Some && right.depth->Some_0 >= depth) {
                        assert(!branch_ok(left, branches, i));
                    } else {
                        lemma_visit_grows(branch.right, scan.visited);
                        lemma_remaining_subset(store, scan.visited, seen);
                        let next = Scan {
                            visited: seen,
                            key,
                            found: scan.found || entry.value == target || right.found,
                            depth: Some(depth),
                            first_key: if scan.first_key is Some {
                                scan.first_key
                            } else {
                                Some(key)
                            },
                            last_key: if right.max is Some {
                                right.max
                            } else {
                                Some(key)
                            },
                        };
                        assert(total == walk_entries(
                            store,
                            target,
                            entries,
                            left_report,
                            (i + 1) as nat,
                            next,
                        ));
                        assert(branch_ok(left, branches, i));
                        assert(ordered(branches[i].right));
                        lemma_walk_branches(store, target, left, branches, entries, i + 1, next);
                        assert(visit_from(branches, i, scan.visited) == visit_from(
                            branches,
                            i + 1,
                            seen,
                        ));
                        assert(holds_from(branches, i, target) == (branch.value == target
                            || holds(branch.right, target) || holds_from(
                            branches,
                            i + 1,
                            target,
                        )));
                        assert(branches_ok(left, branches, i) == branches_ok(
                            left,
                            branches,
                            i + 1,
                        )) by {
                            if branches_ok(left, branches, i + 1) {
                                assert forall|j: int| i <= j < branches.len() implies ordered(
                                    (#[trigger] branches[j]).right,
                                ) && branch_ok(left, branches, j) by {
                                    if j > i {
                                    }
                                }
                            }
                        }
                    }
                },
            }
        }
    }
}

/// The walk over a tree that the store holds succeeds exactly where the
/// tree is well formed, and then it reports the tree and has visited every
/// identifier of it.
pub proof fn lemma_walk_tree(
    store: Map<CidView, Seq<u8>>,
    visited: Set<CidView>,
    tree: Tree,
    target: CidView,
)
    requires
        store.dom().finite(),
        in_store(store, tree),
    ensures
        match walk(store, visited, link(tree), target) {
            Ok((w, seen)) => ordered(tree) && visit(tree, visited) == Some(seen) && w == report(
                tree,
                target,
            ),
            Err(_) => !well_formed(tree, visited),
        },
    decreases tree, 0nat,
{
    match tree {
        Tree::Absent => {},
        Tree::Missing(cid) => {},
        Tree::Node { cid, left, branches } => {
            if !visited.contains(cid) {
                let node = decode_node(store[cid])->Some_0;
                let after = visited.insert(cid);
                lemma_remaining_insert(store, visited, cid);
                lemma_walk_tree(store, after, *left, target);
                match walk(store, after, node.left, target) {
                    Err(_) => {},
                    Ok((left_report, seen)) => {
                        lemma_visit_grows(*left, after);
                        lemma_remaining_subset(store, after, seen);
                        let scan = Scan {
                            visited: seen,
                            key: Seq::empty(),
                            found: left_report.found,
                            depth: None,
                            first_key: None,
                            last_key: None,
                        };
                        lemma_walk_branches(store, target, *left, branches, node.entries, 0, scan);
                        assert(ordered(tree) == (ordered(*left) && branches_ok(
                            *left,
                            branches,
                            0,
                        )));
                        assert(node_report(
                            branches,
                            left_report.found || holds_from(branches, 0, target),
                        ) == report(tree, target));
                    },
                }
            }
        },
    }
}

/// Every well-formed tree is accepted: the walk reports no violation, and
/// it reports the target as found exactly where some entry of the tree maps
/// to it.
pub proof fn law_well_formed_tree_is_accepted(
    store: Map<CidView, Seq<u8>>,
    visited: Set<CidView>,
    tree: Tree,
    target: CidView,
)
    requires
        store.dom().finite(),
        in_store(store, tree),
        well_formed(tree, visited),
    ensures
        walk(store, visited, link(tree), target) matches Ok((w, seen)) && w == report(tree, target)
            && (w.found <==> holds(tree, target)) && visit(tree, visited) == Some(seen),
{
    lemma_walk_tree(store, visited, tree, target);
}

/// A walk that succeeds has checked the whole tree: every node keeps the
/// structural rules, and no identifier occurs twice.
pub proof fn law_accepted_tree_is_well_formed(
    store: Map<CidView, Seq<u8>>,
    visited: Set<CidView>,
    tree: Tree,
    target: CidView,
)
    requires
        store.dom().finite(),
        in_store(store, tree),
        walk(store, visited, link(tree), target) is Ok,
    ensures
        well_formed(tree, visited),
{
    lemma_walk_tree(store, visited, tree, target);
}

/// A tree in which some node breaks a rule of order or depth is rejected
/// with an error; the walk never answers "not found" for it.
pub proof fn law_disordered_tree_is_rejected(
    store: Map<CidView, Seq<u8>>,
    visited: Set<CidView>,
    tree: Tree,
    target: CidView,
)
    requires
        store.dom().finite(),
        in_store(store, tree),
        !ordered(tree),
    ensures
        walk(store, visited, link(tree), target) is Err,
{
    lemma_walk_tree(store, visited, tree, target);
}

/// An entry whose key is not greater than the greatest key before it, and
/// whose depth agrees with the entries before it, makes the scan report an
/// order violation.
pub proof fn law_key_out_of_order_is_an_order_violation(
    store: Map<CidView, Seq<u8>>,
    target: CidView,
    entries: Seq<EntryView>,
    left: Walk,
    i: nat,
    scan: Scan,
)
    requires
        i < entries.len(),
        scan.last_key is Some,
        !lex_lt(scan.last_key->Some_0, crate::mst::full_key(scan.key, entries[i as int])),
        scan.depth matches Some(depth) ==> depth == key_depth(
            crate::mst::full_key(scan.key, entries[i as int]),
        ),
    ensures
        walk_entries(store, target, entries, left, i, scan) == Err::<
            (Walk, Set<CidView>),
            MstError,
        >(MstError::OrderViolation),
{
}

/// Two keys that were in order, met in swapped order, are an order
/// violation: the scan that has just passed the greater key rejects the
/// smaller one.
pub proof fn law_swapped_keys_are_an_order_violation(
    store: Map<CidView, Seq<u8>>,
    target: CidView,
    entries: Seq<EntryView>,
    left: Walk,
    i: nat,
    scan: Scan,
)
    requires
        i < entries.len(),
        scan.last_key is Some,
        lex_lt(crate::mst::full_key(scan.key, entries[i as int]), scan.last_key->Some_0),
        scan.depth matches Some(depth) ==> depth == key_depth(
            crate::mst::full_key(scan.key, entries[i as int]),
        ),
    ensures
        walk_entries(store, target, entries, left, i, scan) == Err::<
            (Walk, Set<CidView>),
            MstError,
        >(MstError::OrderViolation),
{
    crate::bytes::lemma_lex_lt_asymmetric(
        crate::mst::full_key(scan.key, entries[i as int]),
        scan.last_key->Some_0,
        0,
    );
    law_key_out_of_order_is_an_order_violation(store, target, entries, left, i, scan);
}

/// Reaching the identifier of a stored block a second time stops the walk
/// with an error.
pub proof fn law_revisit_is_rejected(
    store: Map<CidView, Seq<u8>>,
    visited: Set<CidView>,
    cid: CidView,
    target: CidView,
)
    requires
        store.contains_key(cid),
        visited.contains(cid),
    ensures
        walk(store, visited, Some(cid), target) == Err::<(Walk, Set<CidView>), MstError>(
            MstError::CorruptedTree,
        ),
{
}

/// The scan reports exactly the first violation that it meets.
pub proof fn lemma_failing_scan(
    store: Map<CidView, Seq<u8>>,
    target: CidView,
    left: Tree,
    branches: Seq<Branch>,
    entries: Seq<EntryView>,
    i: int,
    scan: Scan,
    error: MstError,
)
    requires
        store.dom().finite(),
        0 <= i <= branches.len(),
        entries.len() == branches.len(),
        forall|j: int|
            0 <= j < branches.len() ==> entry_matches(
                entries[j],
                previous_key(branches, j),
                #[trigger] branches[j],
            ),
        scan.key == previous_key(branches, i),
        i == 0 ==> scan.depth is None && scan.first_key is None && scan.last_key is None,
        i > 0 ==> scan.depth == Some(key_depth(branches[0].key)) && scan.first_key == Some(
            branches[0].key,
        ) && scan.last_key == Some(last_key(branches[i - 1])),
        branches_fail_with(store, left, branches, i, scan.visited, error),
    ensures
        walk_entries(store, target, entries, report(left, target), i as nat, scan) == Err::<
            (Walk, Set<CidView>),
            MstError,
        >(error),
    decreases branches, branches.len() - i,
{
    if i < branches.len() {
        let entry = entries[i];
        let branch = branches[i];
        assert(entry_matches(entry, previous_key(branches, i), branch));
        let key = branch.key;
        let depth = key_depth(key);
        if depth != key_depth(branches[0].key) {
        } else if i > 0 && !lex_lt(last_key(branches[i - 1]), key) {
        } else if fails_with(store, branch.right, scan.visited, error) {
            lemma_failing_walk(store, scan.visited, branch.right, target, error);
        } else {
            lemma_walk_tree(store, scan.visited, branch.right, target);
            let outcome = walk(store, scan.visited, entry.right, target);
            let right = outcome->Ok_0.0;
            let seen = outcome->Ok_0.1;
            lemma_visit_grows(branch.right, scan.visited);
            lemma_remaining_subset(store, scan.visited, seen);
            if top_min(branch.right) is Some && lex_lt(top_min(branch.right)->Some_0, key) {
            } else if (top_depth(left) is Some && top_depth(left)->Some_0 >= depth) || (top_depth(
                branch.right,
            ) is Some && top_depth(branch.right)->Some_0 >= depth) {
            } else {
                let next = Scan {
                    visited: seen,
                    key,
                    found: scan.found || entry.value == target || right.found,
                    depth: Some(depth),
                    first_key: if scan.first_key is Some {
                        scan.first_key
                    } else {
                        Some(key)
                    },
                    last_key: if right.max is Some {
                        right.max
                    } else {
                        Some(key)
                    },
                };
                lemma_failing_scan(store, target, left, branches, entries, i + 1, next, error);
            }
        }
    }
}

/// The walk reports exactly the first violation that it meets.
pub proof fn lemma_failing_walk(
    store: Map<CidView, Seq<u8>>,
    visited: Set<CidView>,
    tree: Tree,
    target: CidView,
    error: MstError,
)
    requires
        store.dom().finite(),
        fails_with(store, tree, visited, error),
    ensures
        walk(store, visited, link(tree), target) == Err::<(Walk, Set<CidView>), MstError>(error),
    decreases tree, 0nat,
{
    match tree {
        Tree::Node { cid, left, branches } => {
            if !visited.contains(cid) {
                let node = decode_node(store[cid])->Some_0;
                let after = visited.insert(cid);
                lemma_remaining_insert(store, visited, cid);
                if fails_with(store, *left, after, error) {
                    lemma_failing_walk(store, after, *left, target, error);
                } else {
                    lemma_walk_tree(store, after, *left, target);
                    let outcome = walk(store, after, node.left, target);
                    let left_report = outcome->Ok_0.0;
                    let seen = outcome->Ok_0.1;
                    lemma_visit_grows(*left, after);
                    lemma_remaining_subset(store, after, seen);
                    let scan = Scan {
                        visited: seen,
                        key: Seq::empty(),
                        found: left_report.found,
                        depth: None,
                        first_key: None,
                        last_key: None,
                    };
                    lemma_failing_scan(
                        store,
                        target,
                        *left,
                        branches,
                        node.entries,
                        0,
                        scan,
                        error,
                    );
                }
            }
        },
        _ => {},
    }
}

/// Wherever in a tree the first violation lies, the walk from the root
/// reports exactly that violation, whatever the target: an entry out of
/// order gives the order violation, an identifier met a second time gives
/// the corrupted tree, and so for the rules of depth. It never answers
/// "found" or "not found" for such a tree.
pub proof fn law_first_violation_is_reported(
    store: Map<CidView, Seq<u8>>,
    visited: Set<CidView>,
    tree: Tree,
    target: CidView,
    error: MstError,
)
    requires
        store.dom().finite(),
        fails_with(store, tree, visited, error),
    ensures
        walk(store, visited, link(tree), target) == Err::<(Walk, Set<CidView>), MstError>(error),
{
    lemma_failing_walk(store, visited, tree, target, error);
}

/// A loop is a corrupted tree: a node whose left link or whose link to the
/// right of an entry leads back to a node that the walk has visited, after
/// entries that keep every rule, is rejected with exactly that error.
pub proof fn law_loop_is_a_corrupted_tree(
    store: Map<CidView, Seq<u8>>,
    visited: Set<CidView>,
    tree: Tree,
    target: CidView,
)
    requires
        store.dom().finite(),
        fails_with(store, tree, visited, MstError::CorruptedTree),
    ensures
        walk(store, visited, link(tree), target) == Err::<(Walk, Set<CidView>), MstError>(
            MstError::CorruptedTree,
        ),
{
    lemma_failing_walk(store, visited, tree, target, MstError::CorruptedTree);
}

/// An entry whose depth differs from the depth of the entries before it
/// makes the scan report a depth inconsistency.
pub proof fn law_unequal_depth_is_inconsistent(
    store: Map<CidView, Seq<u8>>,
    target: CidView,
    entries: Seq<EntryView>,
    left: Walk,
    i: nat,
    scan: Scan,
)
    requires
        i < entries.len(),
        scan.depth is Some,
        scan.depth->Some_0 != key_depth(crate::mst::full_key(scan.key, entries[i as int])),
    ensures
        walk_entries(store, target, entries, left, i, scan) == Err::<
            (Walk, Set<CidView>),
            MstError,
        >(MstError::DepthInconsistent),
{
}

/// An entry that passes the tests of depth and order, and whose right
/// subtree is walked without a violation and lies within its bound, makes
/// the scan report a depth violation where the left subtree or the right
/// subtree is not strictly below the entry.
pub proof fn law_subtree_not_below_is_a_depth_violation(
    store: Map<CidView, Seq<u8>>,
    target: CidView,
    entries: Seq<EntryView>,
    left: Walk,
    i: nat,
    scan: Scan,
)
    requires
        i < entries.len(),
        scan.depth matches Some(depth) ==> depth == key_depth(
            crate::mst::full_key(scan.key, entries[i as int]),
        ),
        scan.last_key matches Some(last) ==> lex_lt(
            last,
            crate::mst::full_key(scan.key, entries[i as int]),
        ),
        walk(store, scan.visited, entries[i as int].right, target) is Ok,
        ({
            let key = crate::mst::full_key(scan.key, entries[i as int]);
            let right = walk(store, scan.visited, entries[i as int].right, target)->Ok_0.0;
            &&& right.min matches Some(min) ==> !lex_lt(min, key)
            &&& (left.depth is Some && left.depth->Some_0 >= key_depth(key)) || (right.depth
                is Some && right.depth->Some_0 >= key_depth(key))
        }),
    ensures
        walk_entries(store, target, entries, left, i, scan) == Err::<
            (Walk, Set<CidView>),
            MstError,
        >(MstError::DepthOrder),
{
}

/// A link to a block that the store does not hold is passed over: the walk
/// reports nothing and marks nothing, however often the link is met.
pub proof fn law_absent_block_is_passed_over(
    store: Map<CidView, Seq<u8>>,
    visited: Set<CidView>,
    cid: CidView,
    target: CidView,
)
    requires
        !store.contains_key(cid),
    ensures
        walk(store, visited, Some(cid), target) == Ok::<(Walk, Set<CidView>), MstError>(
            (crate::mst::empty_walk(), visited),
        ),
{
}

} // verus!
