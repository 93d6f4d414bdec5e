//! The Merkle Search Tree verifier: one recursive walk that checks the
//! shape of the tree and looks for a record at the same time.

use crate::bytes::{bytes_less, lex_lt};
use crate::cid::{Cid, CidView};
use crate::digest::{compute_key_depth, key_depth};
use crate::node::{decode_node, entry_views, EntryView, IPLDNode};
use crate::store::{BlockStore, VisitedSet};
use vstd::prelude::*;

verus! {

/// A structural violation of the tree.
#[derive(Clone, Copy, Debug, PartialEq, Eq, Structural)]
pub enum MstError {
    /// An identifier was reached a second time: the structure is no tree.
    CorruptedTree,
    /// A block that should hold a node does not decode to one.
    MalformedNode,
    /// Two entries of one node have different depths.
    DepthInconsistent,
    /// Keys are not in strictly ascending order.
    OrderViolation,
    /// A subtree is not strictly below the node that holds it.
    DepthOrder,
}

/// What a walk over a subtree reports.
pub struct Walk {
    /// Whether an entry of the subtree maps to the target.
    pub found: bool,
    /// The first key of the subtree's root node.
    pub min: Option<Seq<u8>>,
    /// The last key under the subtree's root node.
    pub max: Option<Seq<u8>>,
    /// The depth of the subtree's root node.
    pub depth: Option<nat>,
}

/// What a walk reports where there is no node: an absent link, or a block
/// that the store does not hold.
pub open spec fn empty_walk() -> Walk {
    Walk { found: false, min: None, max: None, depth: None }
}

/// The state of the scan over one node's entries.
pub struct Scan {
    /// The identifiers visited so far.
    pub visited: Set<CidView>,
    /// The full key of the entry before.
    pub key: Seq<u8>,
    pub found: bool,
    /// The depth that the entries so far share.
    pub depth: Option<nat>,
    pub first_key: Option<Seq<u8>>,
    /// The greatest key met so far.
    pub last_key: Option<Seq<u8>>,
}

/// Number of stored blocks that have not been visited. Every visit of a
/// stored block lowers it, which bounds the walk.
pub open spec fn remaining(store: Map<CidView, Seq<u8>>, visited: Set<CidView>) -> nat {
    store.dom().difference(visited).len()
}

/// The full key of an entry: the first `prefix_len` bytes of the previous
/// key (all of it where it is shorter), then the suffix.
pub open spec fn full_key(previous: Seq<u8>, entry: EntryView) -> Seq<u8> {
    if entry.prefix_len <= previous.len() {
        previous.take(entry.prefix_len as int) + entry.suffix
    } else {
        previous + entry.suffix
    }
}

/// The walk from `start`: what it reports and the identifiers visited after
/// it, or the violation that stops it.
///
/// The two comparisons of [`remaining`] only serve to show that the
/// definition ends: for a store with finitely many blocks they always hold
/// (see [`lemma_walk_visits_more`]).
pub open spec fn walk(
    store: Map<CidView, Seq<u8>>,
    visited: Set<CidView>,
    start: Option<CidView>,
    target: CidView,
) -> Result<(Walk, Set<CidView>), MstError>
    decreases remaining(store, visited), 0nat,
{
    match start {
        None => Ok((empty_walk(), visited)),
        Some(cid) => if !store.contains_key(cid) {
            Ok((empty_walk(), visited))
        } else if visited.contains(cid) {
            Err(MstError::CorruptedTree)
        } else {
            match decode_node(store[cid]) {
                None => Err(MstError::MalformedNode),
                Some(node) => if remaining(store, visited.insert(cid)) < remaining(
                    store,
                    visited,
                ) {
                    match walk(store, visited.insert(cid), node.left, target) {
                        Err(e) => Err(e),
                        Ok((left, seen)) => if remaining(store, seen) < remaining(store, visited) {
                            walk_entries(
                                store,
                                target,
                                node.entries,
                                left,
                                0,
                                Scan {
                                    visited: seen,
                                    key: Seq::empty(),
                                    found: left.found,
                                    depth: None,
                                    first_key: None,
                                    last_key: None,
                                },
                            )
                        } else {
                            Err(MstError::CorruptedTree)
                        },
                    }
                } else {
                    Err(MstError::CorruptedTree)
                },
            }
        },
    }
}

/// The scan over a node's entries from index `i` on, and the final check
/// against the left subtree.
pub open spec fn walk_entries(
    store: Map<CidView, Seq<u8>>,
    target: CidView,
    entries: Seq<EntryView>,
    left: Walk,
    i: nat,
    scan: Scan,
) -> Result<(Walk, Set<CidView>), MstError>
    decreases remaining(store, scan.visited), entries.len() - i + 1,
{
    if i >= entries.len() {
        if left.max is Some && scan.first_key is Some && !lex_lt(
            left.max->Some_0,
            scan.first_key->Some_0,
        ) {
            Err(MstError::OrderViolation)
        } else {
            Ok(
                (
                    Walk {
                        found: scan.found,
                        min: scan.first_key,
                        max: scan.last_key,
                        depth: scan.depth,
                    },
                    scan.visited,
                ),
            )
        }
    } else {
        let entry = entries[i as int];
        let key = full_key(scan.key, entry);
        let depth = key_depth(key);
        if scan.depth is Some && scan.depth->Some_0 != depth {
            Err(MstError::DepthInconsistent)
        } else if scan.last_key is Some && !lex_lt(scan.last_key->Some_0, key) {
            Err(MstError::OrderViolation)
        } else {
            match walk(store, scan.visited, entry.right, target) {
                Err(e) => Err(e),
                Ok((right, seen)) => if right.min is Some && lex_lt(right.min->Some_0, key) {
                    Err(MstError::OrderViolation)
                } else if (left.depth is Some && left.depth->Some_0 >= depth) || (right.depth
                    is Some && right.depth->Some_0 >= depth) {
                    Err(MstError::DepthOrder)
                } else if remaining(store, seen) <= remaining(store, scan.visited) {
                    walk_entries(
                        store,
                        target,
                        entries,
                        left,
                        i + 1,
                        Scan {
                            visited: seen,
                            key,
                            found: scan.found || entry.value == target || right.found,
                            depth: Some(depth),
                            first_key: if scan.first_key is Some {
                                scan.first_key
                            } else {
                                Some(key)
                            },
                            last_key: if right.max is Some {
                                right.max
                            } else {
                                Some(key)
                            },
                        },
                    )
                } else {
                    Err(MstError::CorruptedTree)
                },
            }
        }
    }
}

/// Visiting a stored block that was not visited lowers [`remaining`].
pub proof fn lemma_remaining_insert(
    store: Map<CidView, Seq<u8>>,
    visited: Set<CidView>,
    cid: CidView,
)
    requires
        store.dom().finite(),
        store.contains_key(cid),
        !visited.contains(cid),
    ensures
        remaining(store, visited.insert(cid)) < remaining(store, visited),
{
    let before = store.dom().difference(visited);
    let after = store.dom().difference(visited.insert(cid));
    assert(after =~= before.remove(cid));
    assert(before.contains(cid));
}

/// Visiting more never raises [`remaining`].
pub proof fn lemma_remaining_subset(
    store: Map<CidView, Seq<u8>>,
    fewer: Set<CidView>,
    more: Set<CidView>,
)
    requires
        store.dom().finite(),
        fewer.subset_of(more),
    ensures
        remaining(store, more) <= remaining(store, fewer),
{
    vstd::set_lib::lemma_len_subset(
        store.dom().difference(more),
        store.dom().difference(fewer),
    );
}

/// A walk that succeeds has visited everything that was visited before it.
pub proof fn lemma_walk_visits_more(
    store: Map<CidView, Seq<u8>>,
    visited: Set<CidView>,
    start: Option<CidView>,
    target: CidView,
)
    requires
        store.dom().finite(),
    ensures
        walk(store, visited, start, target) matches Ok((_, seen)) ==> visited.subset_of(seen),
    decreases remaining(store, visited), 0nat,
{
    if let Some(cid) = start {
        if !visited.contains(cid) && store.contains_key(cid) {
            if let Some(node) = decode_node(store[cid]) {
                let after = visited.insert(cid);
                lemma_remaining_insert(store, visited, cid);
                lemma_walk_visits_more(store, after, node.left, target);
                if let Ok((left, seen)) = walk(store, after, node.left, target) {
                    lemma_remaining_subset(store, after, seen);
                    lemma_walk_entries_visits_more(
                        store,
                        target,
                        node.entries,
                        left,
                        0,
                        Scan {
                            visited: seen,
                            key: Seq::empty(),
                            found: left.found,
                            depth: None,
                            first_key: None,
                            last_key: None,
                        },
                    );
                }
            }
        }
    }
}

/// A scan that succeeds has visited everything that was visited before it.
pub proof fn lemma_walk_entries_visits_more(
    store: Map<CidView, Seq<u8>>,
    target: CidView,
    entries: Seq<EntryView>,
    left: Walk,
    i: nat,
    scan: Scan,
)
    requires
        store.dom().finite(),
    ensures
        walk_entries(store, target, entries, left, i, scan) matches Ok((_, seen))
            ==> scan.visited.subset_of(seen),
    decreases remaining(store, scan.visited), entries.len() - i + 1,
{
    if i < entries.len() {
        let entry = entries[i as int];
        let key = full_key(scan.key, entry);
        let depth = key_depth(key);
        lemma_walk_visits_more(store, scan.visited, entry.right, target);
        if let Ok((right, seen)) = walk(store, scan.visited, entry.right, target) {
            lemma_remaining_subset(store, scan.visited, seen);
            lemma_walk_entries_visits_more(
                store,
                target,
                entries,
                left,
                i + 1,
                Scan {
                    visited: seen,
                    key,
                    found: scan.found || entry.value == target || right.found,
                    depth: Some(depth),
                    first_key: if scan.first_key is Some {
                        scan.first_key
                    } else {
                        Some(key)
                    },
                    last_key: if right.max is Some {
                        right.max
                    } else {
                        Some(key)
                    },
                },
            );
        }
    }
}

/// The view of optional bytes.
pub open spec fn opt_bytes_view(bytes: Option<Vec<u8>>) -> Option<Seq<u8>> {
    match bytes {
        Some(b) => Some(b@),
        None => None,
    }
}

/// The view of an optional depth.
pub open spec fn opt_depth_view(depth: Option<u32>) -> Option<nat> {
    match depth {
        Some(d) => Some(d as nat),
        None => None,
    }
}

/// The view of an optional reference to an identifier.
pub open spec fn opt_ref_view(cid: Option<&Cid>) -> Option<CidView> {
    match cid {
        Some(c) => Some(c@),
        None => None,
    }
}

/// What a walk over a subtree reports.
#[derive(Debug, PartialEq, Eq)]
pub struct DFSState {
    /// Whether an entry of the subtree maps to the target.
    pub found: bool,
    /// The first key of the subtree's root node.
    pub min: Option<Vec<u8>>,
    /// The last key under the subtree's root node.
    pub max: Option<Vec<u8>>,
    /// The depth of the subtree's root node.
    pub depth: Option<u32>,
}

impl View for DFSState {
    type V = Walk;

    open spec fn view(&self) -> Walk {
        Walk {
            found: self.found,
            min: opt_bytes_view(self.min),
            max: opt_bytes_view(self.max),
            depth: opt_depth_view(self.depth),
        }
    }
}

/// Walks the tree from `start`, checking every structural rule on the way,
/// and reports whether an entry maps to `target`. A link to a block that the
/// store does not hold is passed over. The identifier of every stored block
/// is added to `visited` when it is reached; reaching one a second time is
/// an error.
pub fn dfs(tree: &BlockStore, visited: &mut VisitedSet, start: Option<&Cid>, target: &Cid) -> (result:
    Result<DFSState, MstError>)
    ensures
        old(visited)@.subset_of(final(visited)@),
        match walk(tree@, old(visited)@, opt_ref_view(start), target@) {
            Ok((report, seen)) => result matches Ok(state) && state@ == report && final(visited)@
                == seen,
            Err(e) => result matches Err(got) && got == e,
        },
    decreases remaining(tree@, old(visited)@),
{
    let cid = match start {
        Some(cid) => cid,
        None => {
            return Ok(DFSState { found: false, min: None, max: None, depth: None });
        },
    };
    let block = match tree.get(cid) {
        Some(block) => block,
        None => {
            return Ok(DFSState { found: false, min: None, max: None, depth: None });
        },
    };
    if visited.contains(cid) {
        return Err(MstError::CorruptedTree);
    }
    visited.insert(cid.clone());
    let node = match IPLDNode::decode(block.as_slice()) {
        Some(node) => node,
        None => {
            return Err(MstError::MalformedNode);
        },
    };
    proof {
        lemma_remaining_insert(tree@, old(visited)@, cid@);
    }
    let ghost inserted = visited@;
    let left = match dfs(tree, visited, node.left(), target) {
        Ok(left) => left,
        Err(e) => {
            return Err(e);
        },
    };
    proof {
        lemma_remaining_subset(tree@, inserted, visited@);
    }
    let entries = node.entries();
    let ghost total = walk(tree@, old(visited)@, opt_ref_view(start), target@);
    let mut key: Vec<u8> = Vec::new();
    let mut found = left.found;
    let mut depth: Option<u32> = None;
    let mut first_key: Option<Vec<u8>> = None;
    let mut last_key: Option<Vec<u8>> = None;
    let mut i: usize = 0;
    while i < entries.len()
        invariant
            0 <= i <= entries@.len(),
            tree@.dom().finite(),
            entry_views(entries@) == node@.entries,
            old(visited)@.subset_of(visited@),
            remaining(tree@, visited@) < remaining(tree@, old(visited)@),
            total == walk(tree@, old(visited)@, opt_ref_view(start), target@),
            total == walk_entries(
                tree@,
                target@,
                node@.entries,
                left@,
                i as nat,
                Scan {
                    visited: visited@,
                    key: key@,
                    found,
                    depth: opt_depth_view(depth),
                    first_key: opt_bytes_view(first_key),
                    last_key: opt_bytes_view(last_key),
                },
            ),
        decreases entries@.len() - i,
    {
        let entry = &entries[i];
        let ghost previous = key@;
        let ghost before = visited@;
        assert(node@.entries[i as int] == entry@);
        key.truncate(entry.prefix_len() as usize);
        key.extend_from_slice(entry.suffix());
        assert(key@ =~= full_key(previous, entry@));
        let this_depth = compute_key_depth(key.as_slice());
        match depth {
            None => {},
            Some(d) => {
                if d != this_depth {
                    return Err(MstError::DepthInconsistent);
                }
            },
        }
        match &last_key {
            None => {},
            Some(last) => {
                if !bytes_less(last.as_slice(), key.as_slice()) {
                    return Err(MstError::OrderViolation);
                }
            },
        }
        let right = match dfs(tree, visited, entry.right(), target) {
            Ok(right) => right,
            Err(e) => {
                return Err(e);
            },
        };
        proof {
            lemma_remaining_subset(tree@, before, visited@);
        }
        match &right.min {
            None => {},
            Some(min) => {
                if bytes_less(min.as_slice(), key.as_slice()) {
                    return Err(MstError::OrderViolation);
                }
            },
        }
        match left.depth {
            None => {},
            Some(left_depth) => {
                if left_depth >= this_depth {
                    return Err(MstError::DepthOrder);
                }
            },
        }
        match right.depth {
            None => {},
            Some(right_depth) => {
                if right_depth >= this_depth {
                    return Err(MstError::DepthOrder);
                }
            },
        }
        if entry.value().equals(target) || right.found {
            found = true;
        }
        depth = Some(this_depth);
        if first_key.is_none() {
            first_key = Some(key.clone());
        }
        last_key = match right.max {
            Some(max) => Some(max),
            None => Some(key.clone()),
        };
        i = i + 1;
    }
    match &left.max {
        None => {},
        Some(left_max) => {
            match &first_key {
                None => {},
                Some(first) => {
                    if !bytes_less(left_max.as_slice(), first.as_slice()) {
                        return Err(MstError::OrderViolation);
                    }
                },
            }
        },
    }
    Ok(DFSState { found, min: first_key, max: last_key, depth })
}

} // verus!
