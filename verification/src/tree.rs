//! A mathematical model of Merkle Search Tree instances, against which the
//! verifier's walk is stated and proved.

use crate::bytes::lex_lt;
use crate::cid::CidView;
use crate::digest::key_depth;
use crate::mst::{full_key, MstError, Walk};
use crate::node::{decode_node, EntryView};
use vstd::prelude::*;

verus! {

/// A tree instance, unfolded from its root. Every link of a node is
/// followed to the subtree that it leads to.
pub enum Tree {
    /// No link.
    Absent,
    /// A link that is not unfolded. In a tree that the store holds it leads
    /// to a block that the store lacks.
    Missing(CidView),
    /// A node with its left subtree and its entries in order.
    Node { cid: CidView, left: Box<Tree>, branches: Seq<Branch> },
}

/// One entry of a node with its full key and the subtree to its right.
pub struct Branch {
    pub key: Seq<u8>,
    pub value: CidView,
    pub right: Tree,
}

/// The link that leads to a tree.
pub open spec fn link(tree: Tree) -> Option<CidView> {
    match tree {
        Tree::Absent => None,
        Tree::Missing(cid) => Some(cid),
        Tree::Node { cid, .. } => Some(cid),
    }
}

/// The first key of a tree's root node.
pub open spec fn top_min(tree: Tree) -> Option<Seq<u8>> {
    match tree {
        Tree::Node { branches, .. } => if branches.len() > 0 {
            Some(branches[0].key)
        } else {
            None
        },
        _ => None,
    }
}

/// The depth of a tree's root node: that of its first key.
pub open spec fn top_depth(tree: Tree) -> Option<nat> {
    match tree {
        Tree::Node { branches, .. } => if branches.len() > 0 {
            Some(key_depth(branches[0].key))
        } else {
            None
        },
        _ => None,
    }
}

/// The last key under a tree's root node: that of the subtree to the right
/// of its last entry where that subtree has one, else the last entry's key.
pub open spec fn top_max(tree: Tree) -> Option<Seq<u8>>
    decreases tree,
{
    match tree {
        Tree::Node { branches, .. } => if branches.len() > 0 {
            match top_max(branches[branches.len() - 1].right) {
                Some(max) => Some(max),
                None => Some(branches[branches.len() - 1].key),
            }
        } else {
            None
        },
        _ => None,
    }
}

/// The greatest key that an entry and the subtree to its right reach.
pub open spec fn last_key(branch: Branch) -> Seq<u8> {
    match top_max(branch.right) {
        Some(max) => max,
        None => branch.key,
    }
}

/// The key before the entry at index `i`; empty before the first.
pub open spec fn previous_key(branches: Seq<Branch>, i: int) -> Seq<u8> {
    if i <= 0 {
        Seq::empty()
    } else {
        branches[i - 1].key
    }
}

/// Whether some entry of the tree maps to `target`.
pub open spec fn holds(tree: Tree, target: CidView) -> bool
    decreases tree, 0nat,
{
    match tree {
        Tree::Node { left, branches, .. } => holds(*left, target) || holds_from(
            branches,
            0,
            target,
        ),
        _ => false,
    }
}

/// Whether some entry from index `i` on, or of a subtree to the right of
/// one, maps to `target`.
pub open spec fn holds_from(branches: Seq<Branch>, i: int, target: CidView) -> bool
    decreases branches, branches.len() - i,
{
    if i < 0 || i >= branches.len() {
        false
    } else {
        branches[i].value == target || holds(branches[i].right, target) || holds_from(
            branches,
            i + 1,
            target,
        )
    }
}

/// The identifiers visited after a traversal of the tree that starts with
/// `visited`: those of its nodes are added. `None` where the traversal
/// would reach a node's identifier a second time.
pub open spec fn visit(tree: Tree, visited: Set<CidView>) -> Option<Set<CidView>>
    decreases tree, 0nat,
{
    match tree {
        Tree::Absent => Some(visited),
        Tree::Missing(_) => Some(visited),
        Tree::Node { cid, left, branches } => if visited.contains(cid) {
            None
        } else {
            match visit(*left, visited.insert(cid)) {
                None => None,
                Some(seen) => visit_from(branches, 0, seen),
            }
        },
    }
}

/// [`visit`] over the subtrees to the right of the entries from index `i`
/// on, in order.
pub open spec fn visit_from(branches: Seq<Branch>, i: int, visited: Set<CidView>) -> Option<
    Set<CidView>,
>
    decreases branches, branches.len() - i,
{
    if i < 0 || i >= branches.len() {
        Some(visited)
    } else {
        match visit(branches[i].right, visited) {
            None => None,
            Some(seen) => visit_from(branches, i + 1, seen),
        }
    }
}

/// What the walk reports of a tree.
pub open spec fn report(tree: Tree, target: CidView) -> Walk {
    Walk {
        found: holds(tree, target),
        min: top_min(tree),
        max: top_max(tree),
        depth: top_depth(tree),
    }
}

/// The rules that the entry at index `i` of a node must meet: it has the
/// depth of the node, its key is greater than everything before it and not
/// greater than anything in the subtree to its right, and the left subtree
/// and the subtree to its right lie strictly below the node.
pub open spec fn branch_ok(left: Tree, branches: Seq<Branch>, i: int) -> bool {
    let key = branches[i].key;
    let depth = key_depth(key);
    &&& depth == key_depth(branches[0].key)
    &&& i > 0 ==> lex_lt(last_key(branches[i - 1]), key)
    &&& top_min(branches[i].right) matches Some(min) ==> !lex_lt(min, key)
    &&& top_depth(left) matches Some(below) ==> below < depth
    &&& top_depth(branches[i].right) matches Some(below) ==> below < depth
}

/// Whether a tree keeps the structural rules in every node: entries in
/// strictly ascending order and of one depth, subtrees strictly below
/// their node, and every subtree within the bounds of the keys around it.
pub open spec fn ordered(tree: Tree) -> bool
    decreases tree,
{
    match tree {
        Tree::Node { left, branches, .. } => {
            &&& ordered(*left)
            &&& forall|i: int|
                0 <= i < branches.len() ==> ordered((#[trigger] branches[i]).right) && branch_ok(
                    *left,
                    branches,
                    i,
                )
            &&& (top_max(*left) matches Some(max) ==> branches.len() > 0 ==> lex_lt(
                max,
                branches[0].key,
            ))
        },
        _ => true,
    }
}

/// Whether an encoded entry is the entry of a branch, given the key before
/// it: the same value, the link to the branch's right subtree, and a prefix
/// length and suffix that give the branch's full key.
pub open spec fn entry_matches(entry: EntryView, previous: Seq<u8>, branch: Branch) -> bool {
    &&& entry.value == branch.value
    &&& entry.right == link(branch.right)
    &&& full_key(previous, entry) == branch.key
}

/// Whether the store holds exactly the tree: every node's block decodes to
/// the node, and every `Missing` link has no block.
pub open spec fn in_store(store: Map<CidView, Seq<u8>>, tree: Tree) -> bool
    decreases tree,
{
    match tree {
        Tree::Absent => true,
        Tree::Missing(cid) => !store.contains_key(cid),
        Tree::Node { cid, left, branches } => {
            &&& store.contains_key(cid)
            &&& decode_node(store[cid]) matches Some(node)
            &&& node.left == link(*left)
            &&& node.entries.len() == branches.len()
            &&& in_store(store, *left)
            &&& forall|i: int|
                0 <= i < branches.len() ==> in_store(store, (#[trigger] branches[i]).right)
                    && entry_matches(node.entries[i], previous_key(branches, i), branches[i])
        },
    }
}

/// Whether the store holds the node `cid` itself: its block decodes to a
/// node with the link to `left` and with the entries of `branches`.
pub open spec fn node_in_store(
    store: Map<CidView, Seq<u8>>,
    cid: CidView,
    left: Tree,
    branches: Seq<Branch>,
) -> bool {
    &&& store.contains_key(cid)
    &&& decode_node(store[cid]) matches Some(node)
    &&& node.left == link(left)
    &&& node.entries.len() == branches.len()
    &&& forall|i: int|
        0 <= i < branches.len() ==> entry_matches(
            node.entries[i],
            previous_key(branches, i),
            #[trigger] branches[i],
        )
}

/// Whether `error` is the first violation that a walk of the tree from
/// `visited` meets: everything that the walk passes before it is held by
/// the store and well formed. Nothing is asked of what lies after it. A
/// `Missing` leaf stands here for a link back to a stored node that the walk
/// has visited, which closes a loop.
pub open spec fn fails_with(
    store: Map<CidView, Seq<u8>>,
    tree: Tree,
    visited: Set<CidView>,
    error: MstError,
) -> bool
    decreases tree, 0nat,
{
    match tree {
        Tree::Absent => false,
        Tree::Missing(cid) => store.contains_key(cid) && visited.contains(cid) && error
            == MstError::CorruptedTree,
        Tree::Node { cid, left, branches } => store.contains_key(cid) && if visited.contains(cid) {
            error == MstError::CorruptedTree
        } else {
            node_in_store(store, cid, *left, branches) && (fails_with(
                store,
                *left,
                visited.insert(cid),
                error,
            ) || (in_store(store, *left) && well_formed(*left, visited.insert(cid))
                && branches_fail_with(
                store,
                *left,
                branches,
                0,
                visit(*left, visited.insert(cid))->Some_0,
                error,
            )))
        },
    }
}

/// Whether `error` is the first violation that the scan over a node's
/// entries meets from index `i` on, or in the final comparison with the
/// left subtree.
pub open spec fn branches_fail_with(
    store: Map<CidView, Seq<u8>>,
    left: Tree,
    branches: Seq<Branch>,
    i: int,
    visited: Set<CidView>,
    error: MstError,
) -> bool
    decreases branches, branches.len() - i,
{
    if i < 0 {
        false
    } else if i >= branches.len() {
        top_max(left) is Some && branches.len() > 0 && !lex_lt(
            top_max(left)->Some_0,
            branches[0].key,
        ) && error == MstError::OrderViolation
    } else {
        let key = branches[i].key;
        let depth = key_depth(key);
        let right = branches[i].right;
        if depth != key_depth(branches[0].key) {
            error == MstError::DepthInconsistent
        } else if i > 0 && !lex_lt(last_key(branches[i - 1]), key) {
            error == MstError::OrderViolation
        } else if fails_with(store, right, visited, error) {
            true
        } else if !(in_store(store, right) && well_formed(right, visited)) {
            false
        } else if top_min(right) is Some && lex_lt(top_min(right)->Some_0, key) {
            error == MstError::OrderViolation
        } else if (top_depth(left) is Some && top_depth(left)->Some_0 >= depth) || (top_depth(
            right,
        ) is Some && top_depth(right)->Some_0 >= depth) {
            error == MstError::DepthOrder
        } else {
            branches_fail_with(store, left, branches, i + 1, visit(right, visited)->Some_0, error)
        }
    }
}

/// A tree without a violation of any rule, as a traversal from `visited`
/// meets it.
pub open spec fn well_formed(tree: Tree, visited: Set<CidView>) -> bool {
    ordered(tree) && visit(tree, visited) is Some
}

} // verus!
