use atproto_verify::cid::{Cid, HashError};
use atproto_verify::codec::encode_value;
use atproto_verify::digest::compute_key_depth;
use atproto_verify::mst::{dfs, DFSState, MstError};
use atproto_verify::node::IPLDNode;
use atproto_verify::store::{BlockStore, VisitedSet};
use atproto_verify::value::Value;
use sha2::Digest;

fn cid_of(bytes: &[u8]) -> Cid {
    Cid::new(1, 0x71, 0x12, sha2::Sha256::digest(bytes).to_vec()).unwrap()
}

fn text(s: &str) -> Value {
    Value::Text(s.to_string())
}

fn dict(entries: Vec<(&str, Value)>) -> Value {
    Value::Dict(entries.into_iter().map(|(k, v)| (k.to_string(), v)).collect())
}

fn link(cid: Option<&Cid>) -> Value {
    match cid {
        Some(c) => Value::Link(c.clone()),
        None => Value::Null,
    }
}

fn raw_entry(p: u32, k: &str, v: &Cid, t: Option<&Cid>) -> Value {
    dict(vec![
        ("k", text(k)),
        ("p", Value::Integer(p as i128)),
        ("t", link(t)),
        ("v", Value::Link(v.clone())),
    ])
}

fn raw_node(left: Option<&Cid>, entries: Vec<Value>) -> Value {
    dict(vec![("e", Value::List(entries)), ("l", link(left))])
}

fn shared_prefix(a: &[u8], b: &[u8]) -> usize {
    let mut n = 0;
    while n < a.len() && n < b.len() && a[n] == b[n] {
        n += 1;
    }
    n
}

fn node(left: Option<&Cid>, items: &[(String, Cid, Option<Cid>)]) -> Value {
    let mut previous: Vec<u8> = Vec::new();
    let mut entries = Vec::new();
    for (key, value, right) in items {
        let p = shared_prefix(&previous, key.as_bytes());
        entries.push(raw_entry(p as u32, &key[p..], value, right.as_ref()));
        previous = key.as_bytes().to_vec();
    }
    raw_node(left, entries)
}

fn put(store: &mut BlockStore, value: &Value) -> Cid {
    let bytes = encode_value(value).unwrap();
    let cid = cid_of(&bytes);
    assert_eq!(store.insert(cid.clone(), bytes), Ok(()));
    cid
}

/// Keys of the given depth, in ascending order.
fn keys_of_depth(depth: u32, count: usize) -> Vec<String> {
    let mut keys = Vec::new();
    let mut n = 0u32;
    while keys.len() < count {
        let key = format!("app.bsky.feed.post/{:06}", n);
        if compute_key_depth(key.as_bytes()) == depth {
            keys.push(key);
        }
        n += 1;
    }
    keys
}

fn value_cid(n: u8) -> Cid {
    cid_of(&[n])
}

fn walk(store: &BlockStore, start: Option<&Cid>, target: &Cid) -> Result<DFSState, MstError> {
    let mut visited = VisitedSet::new();
    dfs(store, &mut visited, start, target)
}

fn nothing() -> DFSState {
    DFSState { found: false, min: None, max: None, depth: None }
}

/// A tree of two levels: a root with two keys of depth 1, a left subtree
/// and a subtree to the right of each key, all with keys of depth 0.
/// Returns the store, the root and the keys in ascending order:
/// left keys, first root key, middle keys, second root key, right keys.
fn two_level_tree(target: &Cid) -> (BlockStore, Cid, Vec<String>) {
    let high = keys_of_depth(1, 2);
    let low = keys_of_depth(0, 200);
    let below: Vec<String> = low.iter().filter(|k| **k < high[0]).take(2).cloned().collect();
    let between: Vec<String> =
        low.iter().filter(|k| **k > high[0] && **k < high[1]).take(2).cloned().collect();
    let above: Vec<String> = low.iter().filter(|k| **k > high[1]).take(2).cloned().collect();
    assert_eq!((below.len(), between.len(), above.len()), (2, 2, 2));
    let mut store = BlockStore::new();
    let left = put(
        &mut store,
        &node(
            None,
            &[(below[0].clone(), value_cid(1), None), (below[1].clone(), value_cid(2), None)],
        ),
    );
    let middle = put(
        &mut store,
        &node(
            None,
            &[(between[0].clone(), value_cid(3), None), (between[1].clone(), target.clone(), None)],
        ),
    );
    let right = put(
        &mut store,
        &node(
            None,
            &[(above[0].clone(), value_cid(5), None), (above[1].clone(), value_cid(6), None)],
        ),
    );
    let root = put(
        &mut store,
        &node(
            Some(&left),
            &[
                (high[0].clone(), value_cid(7), Some(middle)),
                (high[1].clone(), value_cid(8), Some(right)),
            ],
        ),
    );
    let keys = vec![
        below[0].clone(),
        below[1].clone(),
        high[0].clone(),
        between[0].clone(),
        between[1].clone(),
        high[1].clone(),
        above[0].clone(),
        above[1].clone(),
    ];
    (store, root, keys)
}

#[test]
fn absent_start_reports_nothing() {
    let store = BlockStore::new();
    assert_eq!(walk(&store, None, &value_cid(1)), Ok(nothing()));
}

#[test]
fn start_missing_from_store_reports_nothing_and_is_not_visited() {
    let store = BlockStore::new();
    let start = value_cid(9);
    let mut visited = VisitedSet::new();
    assert_eq!(dfs(&store, &mut visited, Some(&start), &value_cid(1)), Ok(nothing()));
    assert!(!visited.contains(&start));
    assert_eq!(dfs(&store, &mut visited, Some(&start), &value_cid(1)), Ok(nothing()));
    assert!(!visited.contains(&start));
}

#[test]
fn stored_start_is_visited_and_a_second_visit_is_an_error() {
    let mut store = BlockStore::new();
    let root = put(&mut store, &raw_node(None, vec![]));
    let mut visited = VisitedSet::new();
    assert_eq!(dfs(&store, &mut visited, Some(&root), &value_cid(1)), Ok(nothing()));
    assert!(visited.contains(&root));
    assert_eq!(
        dfs(&store, &mut visited, Some(&root), &value_cid(1)),
        Err(MstError::CorruptedTree)
    );
}

#[test]
fn single_node_reports_bounds_depth_and_found() {
    let keys = keys_of_depth(0, 3);
    let mut store = BlockStore::new();
    let root = put(
        &mut store,
        &node(
            None,
            &[
                (keys[0].clone(), value_cid(1), None),
                (keys[1].clone(), value_cid(2), None),
                (keys[2].clone(), value_cid(3), None),
            ],
        ),
    );
    let expected = |found: bool| DFSState {
        found,
        min: Some(keys[0].as_bytes().to_vec()),
        max: Some(keys[2].as_bytes().to_vec()),
        depth: Some(0),
    };
    assert_eq!(walk(&store, Some(&root), &value_cid(2)), Ok(expected(true)));
    assert_eq!(walk(&store, Some(&root), &value_cid(4)), Ok(expected(false)));
}

#[test]
fn node_without_entries_reports_no_bounds() {
    let mut store = BlockStore::new();
    let root = put(&mut store, &raw_node(None, vec![]));
    assert_eq!(walk(&store, Some(&root), &value_cid(1)), Ok(nothing()));
}

#[test]
fn well_formed_two_level_tree_finds_target_in_subtree() {
    let target = value_cid(4);
    let (store, root, keys) = two_level_tree(&target);
    let report = walk(&store, Some(&root), &target).unwrap();
    assert_eq!(
        report,
        DFSState {
            found: true,
            min: Some(keys[2].as_bytes().to_vec()),
            max: Some(keys[7].as_bytes().to_vec()),
            depth: Some(1),
        }
    );
}

#[test]
fn well_formed_two_level_tree_without_target_is_not_found() {
    let (store, root, _) = two_level_tree(&value_cid(4));
    let report = walk(&store, Some(&root), &value_cid(99)).unwrap();
    assert!(!report.found);
    assert_eq!(report.depth, Some(1));
}

#[test]
fn found_holds_for_every_value_of_the_tree_and_no_other() {
    let (store, root, _) = two_level_tree(&value_cid(4));
    for n in 1..=8u8 {
        assert!(walk(&store, Some(&root), &value_cid(n)).unwrap().found);
    }
    for n in 9..=20u8 {
        assert!(!walk(&store, Some(&root), &value_cid(n)).unwrap().found);
    }
}

#[test]
fn swapped_keys_are_an_order_violation() {
    let keys = keys_of_depth(0, 3);
    let mut store = BlockStore::new();
    let root = put(
        &mut store,
        &node(
            None,
            &[
                (keys[0].clone(), value_cid(1), None),
                (keys[2].clone(), value_cid(2), None),
                (keys[1].clone(), value_cid(3), None),
            ],
        ),
    );
    assert_eq!(walk(&store, Some(&root), &value_cid(2)), Err(MstError::OrderViolation));
    assert_eq!(walk(&store, Some(&root), &value_cid(9)), Err(MstError::OrderViolation));
}

#[test]
fn repeated_key_is_an_order_violation() {
    let keys = keys_of_depth(0, 1);
    let mut store = BlockStore::new();
    let root = put(
        &mut store,
        &node(
            None,
            &[(keys[0].clone(), value_cid(1), None), (keys[0].clone(), value_cid(2), None)],
        ),
    );
    assert_eq!(walk(&store, Some(&root), &value_cid(1)), Err(MstError::OrderViolation));
}

#[test]
fn entries_of_different_depths_are_inconsistent() {
    let mut keys = vec![keys_of_depth(0, 1).remove(0), keys_of_depth(1, 1).remove(0)];
    keys.sort();
    let mut store = BlockStore::new();
    let root = put(
        &mut store,
        &node(
            None,
            &[(keys[0].clone(), value_cid(1), None), (keys[1].clone(), value_cid(2), None)],
        ),
    );
    assert_eq!(walk(&store, Some(&root), &value_cid(1)), Err(MstError::DepthInconsistent));
}

#[test]
fn subtree_reached_twice_is_a_corrupted_tree() {
    let high = keys_of_depth(1, 2);
    let low = keys_of_depth(0, 200);
    let between: Vec<String> =
        low.iter().filter(|k| **k > high[0] && **k < high[1]).take(1).cloned().collect();
    let mut store = BlockStore::new();
    let shared = put(&mut store, &node(None, &[(between[0].clone(), value_cid(1), None)]));
    let root = put(
        &mut store,
        &node(
            None,
            &[
                (high[0].clone(), value_cid(2), Some(shared.clone())),
                (high[1].clone(), value_cid(3), Some(shared)),
            ],
        ),
    );
    assert_eq!(walk(&store, Some(&root), &value_cid(1)), Err(MstError::CorruptedTree));
}

#[test]
fn missing_subtree_linked_twice_is_passed_over_both_times() {
    let keys = keys_of_depth(0, 2);
    let gone = value_cid(50);
    let mut store = BlockStore::new();
    let root = put(
        &mut store,
        &node(
            Some(&gone),
            &[
                (keys[0].clone(), value_cid(1), Some(gone.clone())),
                (keys[1].clone(), value_cid(2), Some(gone.clone())),
            ],
        ),
    );
    let mut visited = VisitedSet::new();
    assert_eq!(
        dfs(&store, &mut visited, Some(&root), &value_cid(2)),
        Ok(DFSState {
            found: true,
            min: Some(keys[0].as_bytes().to_vec()),
            max: Some(keys[1].as_bytes().to_vec()),
            depth: Some(0),
        })
    );
    assert!(visited.contains(&root));
    assert!(!visited.contains(&gone));
}

#[test]
fn node_that_links_to_itself_through_a_later_root_is_a_corrupted_tree() {
    let keys = keys_of_depth(0, 1);
    let mut store = BlockStore::new();
    let child = put(&mut store, &node(None, &[(keys[0].clone(), value_cid(1), None)]));
    let mut visited = VisitedSet::new();
    assert!(dfs(&store, &mut visited, Some(&child), &value_cid(1)).is_ok());
    let high = keys_of_depth(1, 1).remove(0);
    let parent = if high > keys[0] {
        node(Some(&child), &[(high, value_cid(2), None)])
    } else {
        node(None, &[(high, value_cid(2), Some(child.clone()))])
    };
    let root = put(&mut store, &parent);
    assert_eq!(
        dfs(&store, &mut visited, Some(&root), &value_cid(1)),
        Err(MstError::CorruptedTree)
    );
}

#[test]
fn subtree_at_the_depth_of_its_node_is_a_depth_violation() {
    let keys = keys_of_depth(0, 3);
    let mut store = BlockStore::new();
    let child = put(&mut store, &node(None, &[(keys[2].clone(), value_cid(1), None)]));
    let right_root = put(&mut store, &node(None, &[(keys[1].clone(), value_cid(2), Some(child))]));
    assert_eq!(walk(&store, Some(&right_root), &value_cid(1)), Err(MstError::DepthOrder));
    let child = put(&mut store, &node(None, &[(keys[0].clone(), value_cid(3), None)]));
    let left_root = put(&mut store, &node(Some(&child), &[(keys[1].clone(), value_cid(4), None)]));
    assert_eq!(walk(&store, Some(&left_root), &value_cid(1)), Err(MstError::DepthOrder));
}

#[test]
fn right_subtree_below_its_key_is_an_order_violation() {
    let high = keys_of_depth(1, 1).remove(0);
    let low = keys_of_depth(0, 200);
    let smaller = low.iter().find(|k| **k < high).unwrap().clone();
    let mut store = BlockStore::new();
    let child = put(&mut store, &node(None, &[(smaller, value_cid(1), None)]));
    let root = put(&mut store, &node(None, &[(high, value_cid(2), Some(child))]));
    assert_eq!(walk(&store, Some(&root), &value_cid(1)), Err(MstError::OrderViolation));
}

#[test]
fn left_subtree_above_the_first_key_is_an_order_violation() {
    let high = keys_of_depth(1, 1).remove(0);
    let low = keys_of_depth(0, 200);
    let greater = low.iter().find(|k| **k > high).unwrap().clone();
    let mut store = BlockStore::new();
    let child = put(&mut store, &node(None, &[(greater, value_cid(1), None)]));
    let root = put(&mut store, &node(Some(&child), &[(high, value_cid(2), None)]));
    assert_eq!(walk(&store, Some(&root), &value_cid(1)), Err(MstError::OrderViolation));
}

#[test]
fn block_that_is_no_node_is_malformed() {
    let mut store = BlockStore::new();
    let root = put(&mut store, &Value::Integer(5));
    assert_eq!(walk(&store, Some(&root), &value_cid(1)), Err(MstError::MalformedNode));
    let root = put(&mut store, &dict(vec![("l", Value::Null)]));
    assert_eq!(walk(&store, Some(&root), &value_cid(1)), Err(MstError::MalformedNode));
    let entry_without_value =
        dict(vec![("k", text("a")), ("p", Value::Integer(0)), ("t", Value::Null)]);
    let root = put(&mut store, &raw_node(None, vec![entry_without_value]));
    assert_eq!(walk(&store, Some(&root), &value_cid(1)), Err(MstError::MalformedNode));
}

#[test]
fn prefix_longer_than_previous_key_keeps_the_whole_key() {
    let key = keys_of_depth(0, 1).remove(0);
    let mut store = BlockStore::new();
    let root = put(&mut store, &raw_node(None, vec![raw_entry(100, &key, &value_cid(1), None)]));
    let report = walk(&store, Some(&root), &value_cid(1)).unwrap();
    assert_eq!(report.min, Some(key.as_bytes().to_vec()));
    assert_eq!(report.max, Some(key.as_bytes().to_vec()));
}

#[test]
fn node_is_read_with_prefix_lengths_and_links() {
    let child = value_cid(3);
    let value = raw_node(
        Some(&child),
        vec![raw_entry(0, "abc", &value_cid(1), None), raw_entry(2, "d", &value_cid(2), Some(&child))],
    );
    let parsed = IPLDNode::from_value(&value).unwrap();
    assert_eq!(parsed.left(), Some(&child));
    let entries = parsed.entries();
    assert_eq!(entries.len(), 2);
    assert_eq!(entries[0].prefix_len(), 0);
    assert_eq!(entries[0].suffix(), b"abc");
    assert_eq!(entries[0].value(), &value_cid(1));
    assert_eq!(entries[0].right(), None);
    assert_eq!(entries[1].prefix_len(), 2);
    assert_eq!(entries[1].suffix(), b"d");
    assert_eq!(entries[1].right(), Some(&child));
    let bytes = encode_value(&value).unwrap();
    assert!(IPLDNode::decode(&bytes).is_some());
    assert!(IPLDNode::decode(&bytes[1..]).is_none());
}

#[test]
fn node_with_prefix_length_out_of_range_is_rejected() {
    let too_big = dict(vec![
        ("k", text("a")),
        ("p", Value::Integer(1 << 32)),
        ("v", Value::Link(value_cid(1))),
    ]);
    assert!(IPLDNode::from_value(&raw_node(None, vec![too_big])).is_none());
    let negative = dict(vec![
        ("k", text("a")),
        ("p", Value::Integer(-1)),
        ("v", Value::Link(value_cid(1))),
    ]);
    assert!(IPLDNode::from_value(&raw_node(None, vec![negative])).is_none());
    let key_as_bytes = dict(vec![
        ("k", Value::Bytes(vec![0x61])),
        ("p", Value::Integer(0)),
        ("v", Value::Link(value_cid(1))),
    ]);
    assert!(IPLDNode::from_value(&raw_node(None, vec![key_as_bytes])).is_none());
}

#[test]
fn visited_set_tells_identifiers_with_the_same_fingerprint_apart() {
    let mut first = vec![7u8; 32];
    let mut second = vec![7u8; 32];
    first[31] = 1;
    second[31] = 2;
    let a = Cid::new(1, 0x71, 0x12, first).unwrap();
    let b = Cid::new(1, 0x71, 0x12, second).unwrap();
    let c = Cid::new(1, 0x55, 0x12, vec![7u8; 32]).unwrap();
    let short = Cid::new(1, 0x55, 0x00, vec![1, 2]).unwrap();
    assert_eq!(a.fingerprint(), b.fingerprint());
    assert_eq!(a.fingerprint(), 7 + 256 * 7 + 65536 * 7 + 16777216 * 7);
    assert_eq!(short.fingerprint(), 0);
    let mut visited = VisitedSet::new();
    assert!(!visited.contains(&a));
    visited.insert(a.clone());
    assert!(visited.contains(&a));
    assert!(!visited.contains(&b));
    assert!(!visited.contains(&c));
    visited.insert(b.clone());
    visited.insert(short.clone());
    assert!(visited.contains(&a));
    assert!(visited.contains(&b));
    assert!(visited.contains(&short));
    assert!(!visited.contains(&c));
}

#[test]
fn store_finds_each_of_many_blocks() {
    let mut store = BlockStore::new();
    let mut cids = Vec::new();
    for n in 0..200u32 {
        let bytes = n.to_be_bytes().to_vec();
        let cid = cid_of(&bytes);
        assert_eq!(store.insert(cid.clone(), bytes), Ok(()));
        cids.push(cid);
    }
    for n in 0..200u32 {
        assert_eq!(store.get(&cids[n as usize]), Some(&n.to_be_bytes().to_vec()));
    }
    assert_eq!(store.insert(cids[5].clone(), 5u32.to_be_bytes().to_vec()), Ok(()));
    assert_eq!(store.get(&cids[5]), Some(&5u32.to_be_bytes().to_vec()));
    assert!(store.get(&cid_of(b"absent")).is_none());
}

#[test]
fn store_takes_only_blocks_that_hash_to_their_identifier() {
    let mut store = BlockStore::new();
    let bytes = vec![1u8, 2, 3];
    let cid = cid_of(&bytes);
    assert!(store.get(&cid).is_none());
    assert_eq!(store.insert(cid.clone(), vec![1, 2, 4]), Err(HashError::Mismatch));
    assert!(store.get(&cid).is_none());
    let other = Cid::new(1, 0x71, 0x13, vec![0u8; 64]).unwrap();
    assert_eq!(store.insert(other, bytes.clone()), Err(HashError::UnsupportedCid));
    assert_eq!(store.insert(cid.clone(), bytes.clone()), Ok(()));
    assert_eq!(store.get(&cid), Some(&bytes));
}
