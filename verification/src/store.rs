//! The block store and the set of visited identifiers.

use crate::cid::{verify_content_hash, Cid, CidView, HashError};
use crate::digest::sha256;
use crate::index::PositionIndex;
use vstd::prelude::*;

verus! {

/// The map that a list of blocks stands for: later blocks replace earlier
/// ones with the same identifier.
pub open spec fn blocks_map(blocks: Seq<(Cid, Vec<u8>)>) -> Map<CidView, Seq<u8>>
    decreases blocks.len(),
{
    if blocks.len() == 0 {
        Map::empty()
    } else {
        blocks_map(blocks.drop_last()).insert(blocks.last().0@, blocks.last().1@)
    }
}

/// The set that a list of identifiers stands for.
pub open spec fn cid_set(cids: Seq<Cid>) -> Set<CidView>
    decreases cids.len(),
{
    if cids.len() == 0 {
        Set::empty()
    } else {
        cid_set(cids.drop_last()).insert(cids.last()@)
    }
}

/// The map of a list of blocks has finitely many keys.
pub proof fn lemma_blocks_map_finite(blocks: Seq<(Cid, Vec<u8>)>)
    ensures
        blocks_map(blocks).dom().finite(),
    decreases blocks.len(),
{
    if blocks.len() > 0 {
        lemma_blocks_map_finite(blocks.drop_last());
    }
}

/// The set of a list of identifiers is finite.
pub proof fn lemma_cid_set_finite(cids: Seq<Cid>)
    ensures
        cid_set(cids).finite(),
    decreases cids.len(),
{
    if cids.len() > 0 {
        lemma_cid_set_finite(cids.drop_last());
    }
}

/// The map of a list of blocks holds an identifier exactly where a block of
/// the list has it.
pub proof fn lemma_blocks_map_members(blocks: Seq<(Cid, Vec<u8>)>, cid: CidView)
    ensures
        blocks_map(blocks).contains_key(cid) <==> exists|i: int|
            0 <= i < blocks.len() && (#[trigger] blocks[i]).0@ == cid,
    decreases blocks.len(),
{
    if blocks.len() > 0 {
        let front = blocks.drop_last();
        lemma_blocks_map_members(front, cid);
        if blocks.last().0@ == cid {
            assert(blocks[blocks.len() - 1].0@ == cid);
        } else {
            if blocks_map(front).contains_key(cid) {
                let i = choose|i: int| 0 <= i < front.len() && (#[trigger] front[i]).0@ == cid;
                assert(blocks[i].0@ == cid);
            }
            if exists|i: int| 0 <= i < blocks.len() && (#[trigger] blocks[i]).0@ == cid {
                let i = choose|i: int| 0 <= i < blocks.len() && (#[trigger] blocks[i]).0@ == cid;
                assert(front[i].0@ == cid);
            }
        }
    }
}

/// The map of a list of blocks maps the identifier of a block to the bytes
/// of that block, where no later block has the same identifier.
pub proof fn lemma_blocks_map_last(blocks: Seq<(Cid, Vec<u8>)>, last: int)
    requires
        0 <= last < blocks.len(),
        forall|later: int|
            last < later < blocks.len() ==> (#[trigger] blocks[later]).0@ != blocks[last].0@,
    ensures
        blocks_map(blocks).contains_key(blocks[last].0@),
        blocks_map(blocks)[blocks[last].0@] == blocks[last].1@,
    decreases blocks.len(),
{
    if last < blocks.len() - 1 {
        let front = blocks.drop_last();
        assert(blocks[blocks.len() - 1].0@ != blocks[last].0@);
        assert(front[last] == blocks[last]);
        assert forall|later: int| last < later < front.len() implies (#[trigger] front[later]).0@
            != front[last].0@ by {
            assert(blocks[later].0@ != blocks[last].0@);
        }
        lemma_blocks_map_last(front, last);
    }
}

/// The set of a list of identifiers holds exactly the identifiers of the
/// list.
pub proof fn lemma_cid_set_members(cids: Seq<Cid>, cid: CidView)
    ensures
        cid_set(cids).contains(cid) <==> exists|i: int|
            0 <= i < cids.len() && (#[trigger] cids[i])@ == cid,
    decreases cids.len(),
{
    if cids.len() > 0 {
        let front = cids.drop_last();
        lemma_cid_set_members(front, cid);
        if cids.last()@ == cid {
            assert(cids[cids.len() - 1]@ == cid);
        } else {
            if cid_set(front).contains(cid) {
                let i = choose|i: int| 0 <= i < front.len() && (#[trigger] front[i])@ == cid;
                assert(cids[i]@ == cid);
            }
            if exists|i: int| 0 <= i < cids.len() && (#[trigger] cids[i])@ == cid {
                let i = choose|i: int| 0 <= i < cids.len() && (#[trigger] cids[i])@ == cid;
                assert(front[i]@ == cid);
            }
        }
    }
}

/// A mapping from identifier to the bytes of the block that it names. A
/// block enters the store only after its digest has been checked. The
/// blocks are found through an index by the identifiers' fingerprints.
pub struct BlockStore {
    blocks: Vec<(Cid, Vec<u8>)>,
    index: PositionIndex,
}

impl View for BlockStore {
    type V = Map<CidView, Seq<u8>>;

    closed spec fn view(&self) -> Map<CidView, Seq<u8>> {
        blocks_map(self.blocks@)
    }
}

/// Whether the index files the position `i` under `key`.
pub open spec fn files(index: PositionIndex, key: u64, i: int) -> bool {
    exists|at: int| 0 <= at < index.positions(key).len() && #[trigger] index.positions(key)[at] == i
}

/// Whether the index files every position of the list under the
/// fingerprint of the identifier at that position, and files no position
/// beyond the list.
pub open spec fn indexed(index: PositionIndex, cids: Seq<CidView>) -> bool {
    &&& forall|i: int|
        0 <= i < cids.len() ==> files(index, (#[trigger] cids[i]).fingerprint(), i)
    &&& forall|key: u64, j: int|
        0 <= j < index.positions(key).len() ==> (#[trigger] index.positions(key)[j]) < cids.len()
}

/// The identifiers of a list of blocks.
pub open spec fn block_cids(blocks: Seq<(Cid, Vec<u8>)>) -> Seq<CidView> {
    Seq::new(blocks.len(), |i: int| blocks[i].0@)
}

/// The views of a list of identifiers.
pub open spec fn seen_cids(cids: Seq<Cid>) -> Seq<CidView> {
    Seq::new(cids.len(), |i: int| cids[i]@)
}

/// Filing the next position under the fingerprint of a new last identifier
/// keeps the index in step with the list.
pub proof fn lemma_indexed_push(
    before: PositionIndex,
    after: PositionIndex,
    cids: Seq<CidView>,
    cid: CidView,
    position: usize,
)
    requires
        indexed(before, cids),
        position == cids.len(),
        after.positions(cid.fingerprint()) == before.positions(cid.fingerprint()).push(position),
        forall|other: u64|
            other != cid.fingerprint() ==> (#[trigger] after.positions(other)) == before.positions(
                other,
            ),
    ensures
        indexed(after, cids.push(cid)),
{
    let longer = cids.push(cid);
    let key = cid.fingerprint();
    assert forall|i: int| 0 <= i < longer.len() implies files(
        after,
        (#[trigger] longer[i]).fingerprint(),
        i,
    ) by {
        if i < cids.len() {
            let k = cids[i].fingerprint();
            assert(files(before, k, i));
            let at = choose|at: int|
                0 <= at < before.positions(k).len() && #[trigger] before.positions(k)[at] == i;
            assert(after.positions(k)[at] == i);
        } else {
            assert(after.positions(key)[before.positions(key).len() as int] == i);
        }
    }
    assert forall|other: u64, j: int| 0 <= j < after.positions(other).len() implies (
    #[trigger] after.positions(other)[j]) < longer.len() by {
        if other == key {
            if j < before.positions(key).len() {
                assert(before.positions(key)[j] < cids.len());
            }
        } else {
            assert(before.positions(other)[j] < cids.len());
        }
    }
}

impl BlockStore {
    #[verifier::type_invariant]
    spec fn inv(&self) -> bool {
        &&& forall|i: int|
            0 <= i < self.blocks@.len() ==> (#[trigger] self.blocks@[i]).0@.names(
                self.blocks@[i].1@,
            )
        &&& indexed(self.index, block_cids(self.blocks@))
    }

    /// An empty store.
    pub fn new() -> (store: BlockStore)
        ensures
            store@ == Map::<CidView, Seq<u8>>::empty(),
            store@.dom().finite(),
    {
        BlockStore { blocks: Vec::new(), index: PositionIndex::new() }
    }

    /// Checks that `cid` names `block` and, if it does, stores the block
    /// under it. A block that fails the check leaves the store unchanged.
    pub fn insert(&mut self, cid: Cid, block: Vec<u8>) -> (checked: Result<(), HashError>)
        ensures
            checked is Ok <==> cid@.names(block@),
            checked is Ok ==> final(self)@ == old(self)@.insert(cid@, block@),
            checked is Err ==> final(self)@ == old(self)@,
            final(self)@.dom().finite(),
            checked == Err::<(), HashError>(HashError::UnsupportedCid) <==> !cid@.is_sha256(),
            checked == Err::<(), HashError>(HashError::Mismatch) <==> cid@.is_sha256()
                && cid@.digest != sha256(block@),
    {
        proof {
            use_type_invariant(&*self);
            lemma_blocks_map_finite(self.blocks@);
        }
        match verify_content_hash(block.as_slice(), &cid) {
            Err(e) => Err(e),
            Ok(()) => {
                let mut taken = BlockStore::new();
                std::mem::swap(&mut taken, self);
                proof {
                    use_type_invariant(&taken);
                }
                let BlockStore { blocks, index } = taken;
                let mut blocks = blocks;
                let mut index = index;
                let ghost before = blocks@;
                let ghost index_before = index;
                let ghost added = cid@;
                let position = blocks.len();
                index.add(cid.fingerprint(), position);
                blocks.push((cid, block));
                proof {
                    assert(blocks@.drop_last() =~= before);
                    lemma_indexed_push(index_before, index, block_cids(before), added, position);
                    assert(block_cids(blocks@) =~= block_cids(before).push(added));
                    lemma_blocks_map_finite(blocks@);
                }
                *self = BlockStore { blocks, index };
                Ok(())
            },
        }
    }

    /// The block stored under `cid`, if there is one. Its bytes hash to the
    /// identifier's digest.
    pub fn get(&self, cid: &Cid) -> (block: Option<&Vec<u8>>)
        ensures
            self@.dom().finite(),
            block is Some <==> self@.contains_key(cid@),
            block matches Some(b) ==> b@ == self@[cid@] && cid@.names(b@),
    {
        proof {
            use_type_invariant(self);
            lemma_blocks_map_finite(self.blocks@);
            lemma_blocks_map_members(self.blocks@, cid@);
        }
        let ghost cids = block_cids(self.blocks@);
        let positions = match self.index.get(cid.fingerprint()) {
            Some(positions) => positions,
            None => {
                proof {
                    if self@.contains_key(cid@) {
                        let i = choose|i: int|
                            0 <= i < self.blocks@.len() && (#[trigger] self.blocks@[i]).0@ == cid@;
                        assert(cids[i] == cid@);
                        assert(files(self.index, cids[i].fingerprint(), i));
                    }
                }
                return None;
            },
        };
        let mut best: Option<usize> = None;
        let mut j: usize = 0;
        while j < positions.len()
            invariant
                0 <= j <= positions@.len(),
                positions@ == self.index.positions(cid@.fingerprint()),
                cids == block_cids(self.blocks@),
                indexed(self.index, cids),
                best matches Some(b) ==> b < self.blocks@.len() && self.blocks@[b as int].0@
                    == cid@,
                forall|k: int|
                    0 <= k < j && self.blocks@[(#[trigger] positions@[k]) as int].0@ == cid@
                        ==> best is Some && positions@[k] <= best->Some_0,
            decreases positions@.len() - j,
        {
            let position = positions[j];
            assert(self.index.positions(cid@.fingerprint())[j as int] < cids.len());
            if self.blocks[position].0.equals(cid) {
                best = match best {
                    Some(b) => if b >= position {
                        Some(b)
                    } else {
                        Some(position)
                    },
                    None => Some(position),
                };
            }
            j = j + 1;
        }
        match best {
            None => {
                proof {
                    if self@.contains_key(cid@) {
                        let i = choose|i: int|
                            0 <= i < self.blocks@.len() && (#[trigger] self.blocks@[i]).0@ == cid@;
                        assert(cids[i] == cid@);
                        assert(files(self.index, cids[i].fingerprint(), i));
                        let k = choose|k: int|
                            0 <= k < positions@.len() && #[trigger] positions@[k] == i;
                        assert(self.blocks@[positions@[k] as int].0@ == cid@);
                    }
                }
                None
            },
            Some(b) => {
                proof {
                    assert forall|later: int|
                        b < later < self.blocks@.len() implies (#[trigger] self.blocks@[later]).0@
                        != cid@ by {
                        if self.blocks@[later].0@ == cid@ {
                            assert(cids[later] == cid@);
                            assert(files(self.index, cids[later].fingerprint(), later));
                            let k = choose|k: int|
                                0 <= k < positions@.len() && #[trigger] positions@[k] == later;
                            assert(self.blocks@[positions@[k] as int].0@ == cid@);
                        }
                    }
                    lemma_blocks_map_last(self.blocks@, b as int);
                }
                Some(&self.blocks[b].1)
            },
        }
    }
}

/// The identifiers that a traversal has visited, found through an index by
/// their fingerprints.
pub struct VisitedSet {
    seen: Vec<Cid>,
    index: PositionIndex,
}

impl View for VisitedSet {
    type V = Set<CidView>;

    closed spec fn view(&self) -> Set<CidView> {
        cid_set(self.seen@)
    }
}

impl VisitedSet {
    #[verifier::type_invariant]
    spec fn inv(&self) -> bool {
        indexed(self.index, seen_cids(self.seen@))
    }

    /// An empty set.
    pub fn new() -> (set: VisitedSet)
        ensures
            set@ == Set::<CidView>::empty(),
    {
        VisitedSet { seen: Vec::new(), index: PositionIndex::new() }
    }

    /// Whether `cid` is in the set.
    pub fn contains(&self, cid: &Cid) -> (present: bool)
        ensures
            present == self@.contains(cid@),
            self@.finite(),
    {
        proof {
            use_type_invariant(self);
            lemma_cid_set_finite(self.seen@);
            lemma_cid_set_members(self.seen@, cid@);
        }
        let ghost cids = seen_cids(self.seen@);
        let positions = match self.index.get(cid.fingerprint()) {
            Some(positions) => positions,
            None => {
                proof {
                    if self@.contains(cid@) {
                        let i = choose|i: int|
                            0 <= i < self.seen@.len() && (#[trigger] self.seen@[i])@ == cid@;
                        assert(cids[i] == cid@);
                        assert(files(self.index, cids[i].fingerprint(), i));
                    }
                }
                return false;
            },
        };
        let mut j: usize = 0;
        while j < positions.len()
            invariant
                0 <= j <= positions@.len(),
                positions@ == self.index.positions(cid@.fingerprint()),
                cids == seen_cids(self.seen@),
                indexed(self.index, cids),
                self@.finite(),
                self@.contains(cid@) <==> exists|i: int|
                    0 <= i < self.seen@.len() && (#[trigger] self.seen@[i])@ == cid@,
                forall|k: int| 0 <= k < j ==> self.seen@[(#[trigger] positions@[k]) as int]@ != cid@,
            decreases positions@.len() - j,
        {
            let position = positions[j];
            assert(self.index.positions(cid@.fingerprint())[j as int] < cids.len());
            if self.seen[position].equals(cid) {
                assert(self.seen@[position as int]@ == cid@);
                return true;
            }
            j = j + 1;
        }
        proof {
            if self@.contains(cid@) {
                let i = choose|i: int|
                    0 <= i < self.seen@.len() && (#[trigger] self.seen@[i])@ == cid@;
                assert(cids[i] == cid@);
                assert(files(self.index, cids[i].fingerprint(), i));
                let k = choose|k: int| 0 <= k < positions@.len() && #[trigger] positions@[k] == i;
                assert(self.seen@[positions@[k] as int]@ == cid@);
            }
        }
        false
    }

    /// Adds `cid` to the set.
    pub fn insert(&mut self, cid: Cid)
        ensures
            final(self)@ == old(self)@.insert(cid@),
            final(self)@.finite(),
    {
        let mut taken = VisitedSet::new();
        std::mem::swap(&mut taken, self);
        proof {
            use_type_invariant(&taken);
        }
        let VisitedSet { seen, index } = taken;
        let mut seen = seen;
        let mut index = index;
        let ghost before = seen@;
        let ghost index_before = index;
        let ghost added = cid@;
        let position = seen.len();
        index.add(cid.fingerprint(), position);
        seen.push(cid);
        proof {
            assert(seen@.drop_last() =~= before);
            lemma_indexed_push(index_before, index, seen_cids(before), added, position);
            assert(seen_cids(seen@) =~= seen_cids(before).push(added));
            lemma_cid_set_finite(seen@);
        }
        *self = VisitedSet { seen, index };
    }
}

} // verus!
