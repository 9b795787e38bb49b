//! The blocks the validator has reported and the blocks Raft has agreed to
//! commit, in the order Raft committed them.

use vstd::prelude::*;
use std::collections::VecDeque;

use crate::types::{bytes_eq, copy_vec, BlockId, PeerId};

verus! {

broadcast use vstd::std_specs::vecdeque::group_vec_dequeue_axioms;

/// All information about a block that matters to consensus.
#[derive(Debug)]
pub struct Block {
    pub block_id: BlockId,
    pub previous_id: BlockId,
    pub signer_id: PeerId,
    pub block_num: u64,
    pub payload: Vec<u8>,
    pub summary: Vec<u8>,
}

/// The mathematical value of a [`Block`].
pub struct BlockView {
    pub block_id: Seq<u8>,
    pub previous_id: Seq<u8>,
    pub signer_id: Seq<u8>,
    pub block_num: u64,
    pub payload: Seq<u8>,
    pub summary: Seq<u8>,
}

impl View for Block {
    type V = BlockView;

    open spec fn view(&self) -> BlockView {
        BlockView {
            block_id: self.block_id@,
            previous_id: self.previous_id@,
            signer_id: self.signer_id@,
            block_num: self.block_num,
            payload: self.payload@,
            summary: self.summary@,
        }
    }
}

impl Clone for Block {
    fn clone(&self) -> (r: Self)
        ensures
            r@ == self@,
    {
        Block {
            block_id: copy_vec(&self.block_id),
            previous_id: copy_vec(&self.previous_id),
            signer_id: copy_vec(&self.signer_id),
            block_num: self.block_num,
            payload: copy_vec(&self.payload),
            summary: copy_vec(&self.summary),
        }
    }
}

/// What is known of a block the validator is processing.
pub struct BlockStatus {
    /// The block received in a BlockNew message.
    pub block: Option<Block>,
    /// Whether the validator has reported the block valid.
    pub block_valid: bool,
}

/// The mathematical value of a [`BlockStatus`].
pub struct BlockStatusView {
    pub block: Option<BlockView>,
    pub block_valid: bool,
}

impl View for BlockStatus {
    type V = BlockStatusView;

    open spec fn view(&self) -> BlockStatusView {
        BlockStatusView {
            block: match self.block {
                Some(b) => Some(b@),
                None => None,
            },
            block_valid: self.block_valid,
        }
    }
}

impl BlockStatus {
    /// The status of a block that has been received but not validated.
    pub fn with_block(block: Block) -> (r: BlockStatus)
        ensures
            r@ == (BlockStatusView { block: Some(block@), block_valid: false }),
    {
        BlockStatus { block: Some(block), block_valid: false }
    }

    /// The status of a block reported valid before it was received.
    pub fn with_valid() -> (r: BlockStatus)
        ensures
            r@ == (BlockStatusView { block: None, block_valid: true }),
    {
        BlockStatus { block: None, block_valid: true }
    }
}

/// The status a backlog gives a block, where it has one.
pub open spec fn status_in(backlog: Map<Seq<u8>, BlockStatusView>, id: Seq<u8>) -> Option<BlockStatusView> {
    if backlog.contains_key(id) {
        Some(backlog[id])
    } else {
        None
    }
}

/// The backlog after a BlockNew message for `block`: the block is recorded and
/// whether it was already reported valid is kept.
pub open spec fn backlog_after_new(backlog: Map<Seq<u8>, BlockStatusView>, block: BlockView) -> Map<Seq<u8>, BlockStatusView> {
    let valid = match status_in(backlog, block.block_id) {
        Some(s) => s.block_valid,
        None => false,
    };
    backlog.insert(block.block_id, BlockStatusView { block: Some(block), block_valid: valid })
}

/// The backlog after a BlockValid message for `id`: the block is marked valid
/// and what was received of it is kept.
pub open spec fn backlog_after_valid(backlog: Map<Seq<u8>, BlockStatusView>, id: Seq<u8>) -> Map<Seq<u8>, BlockStatusView> {
    let block = match status_in(backlog, id) {
        Some(s) => s.block,
        None => None,
    };
    backlog.insert(id, BlockStatusView { block, block_valid: true })
}

/// The block that may be committed next on top of the chain head `head`:
/// the front of the commit queue, once it has been received and validated and
/// it extends `head`.
pub open spec fn next_committable(
    backlog: Map<Seq<u8>, BlockStatusView>,
    queue: Seq<(Seq<u8>, u64)>,
    head: Seq<u8>,
) -> Option<Seq<u8>> {
    if queue.len() == 0 {
        None
    } else {
        let id = queue[0].0;
        match status_in(backlog, id) {
            Some(s) => match s.block {
                Some(b) => if s.block_valid && b.previous_id == head {
                    Some(id)
                } else {
                    None
                },
                None => None,
            },
            None => None,
        }
    }
}

/// Blocks commit in the order Raft committed them: the block to commit
/// next is always the front of the commit queue, however long the queue,
/// and it is committable exactly when it has been received and validated
/// and it builds on the chain head; what stands behind the front plays no
/// part.
pub proof fn lemma_next_committable_front(
    backlog: Map<Seq<u8>, BlockStatusView>,
    queue: Seq<(Seq<u8>, u64)>,
    head: Seq<u8>,
)
    ensures
        queue.len() > 0 && backlog.contains_key(queue[0].0) && backlog[queue[0].0].block_valid
            && (backlog[queue[0].0].block matches Some(b) && b.previous_id == head)
            ==> next_committable(backlog, queue, head) == Some(queue[0].0),
        next_committable(backlog, queue, head) matches Some(id) ==> {
            &&& queue.len() > 0
            &&& id == queue[0].0
            &&& backlog.contains_key(id)
            &&& backlog[id].block_valid
            &&& (backlog[id].block matches Some(b) && b.previous_id == head)
        },
        queue.len() == 0 ==> next_committable(backlog, queue, head) is None,
        forall|rest: Seq<(Seq<u8>, u64)>| queue.len() > 0 ==> #[trigger] next_committable(backlog, queue + rest, head)
            == next_committable(backlog, queue, head),
{
    assert forall|rest: Seq<(Seq<u8>, u64)>| queue.len() > 0 implies #[trigger] next_committable(backlog, queue + rest, head)
        == next_committable(backlog, queue, head) by {
        assert((queue + rest)[0] == queue[0]);
    }
}

/// The backlog of blocks the validator is processing, and the queue of blocks
/// Raft has committed, each with the index of its Raft entry.
pub struct BlockQueue {
    validator_backlog: Vec<(BlockId, BlockStatus)>,
    commit_queue: VecDeque<(BlockId, u64)>,
}

impl BlockQueue {
    /// No block is recorded twice in the backlog.
    pub closed spec fn wf(&self) -> bool {
        forall|i: int, j: int|
            0 <= i < j < self.validator_backlog@.len() ==> #[trigger] self.validator_backlog@[i].0@
                != #[trigger] self.validator_backlog@[j].0@
    }

    /// The backlog, as a map from block id to status.
    pub closed spec fn backlog(&self) -> Map<Seq<u8>, BlockStatusView> {
        Map::new(
            |id: Seq<u8>| exists|i: int| 0 <= i < self.validator_backlog@.len() && #[trigger] self.validator_backlog@[i].0@ == id,
            |id: Seq<u8>| {
                let i = choose|i: int| 0 <= i < self.validator_backlog@.len() && #[trigger] self.validator_backlog@[i].0@ == id;
                self.validator_backlog@[i].1@
            },
        )
    }

    /// The commit queue, front first, as block ids with their entry indexes.
    pub closed spec fn queue(&self) -> Seq<(Seq<u8>, u64)> {
        self.commit_queue@.map_values(|p: (BlockId, u64)| (p.0@, p.1))
    }

    proof fn lemma_backlog_at(&self, i: int)
        requires
            self.wf(),
            0 <= i < self.validator_backlog@.len(),
        ensures
            self.backlog().contains_key(self.validator_backlog@[i].0@),
            self.backlog()[self.validator_backlog@[i].0@] == self.validator_backlog@[i].1@,
    {
        let id = self.validator_backlog@[i].0@;
        assert(self.backlog().dom().contains(id));
        let k = choose|k: int| 0 <= k < self.validator_backlog@.len() && #[trigger] self.validator_backlog@[k].0@ == id;
        assert(k == i);
    }

    /// An empty backlog and an empty commit queue.
    pub fn new() -> (r: BlockQueue)
        ensures
            r.wf(),
            r.backlog() == Map::<Seq<u8>, BlockStatusView>::empty(),
            r.queue() == Seq::<(Seq<u8>, u64)>::empty(),
    {
        let r = BlockQueue { validator_backlog: Vec::new(), commit_queue: VecDeque::new() };
        assert(r.backlog() =~= Map::<Seq<u8>, BlockStatusView>::empty());
        assert(r.queue() =~= Seq::<(Seq<u8>, u64)>::empty());
        r
    }

    /// The position of `id` in the backlog, if it is there.
    fn find(&self, id: &BlockId) -> (r: Option<usize>)
        requires
            self.wf(),
        ensures
            match r {
                Some(i) => i < self.validator_backlog@.len() && self.validator_backlog@[i as int].0@ == id@,
                None => !self.backlog().contains_key(id@),
            },
    {
        let mut i: usize = 0;
        while i < self.validator_backlog.len()
            invariant
                i <= self.validator_backlog@.len(),
                forall|j: int| 0 <= j < i ==> self.validator_backlog@[j].0@ != id@,
            decreases self.validator_backlog.len() - i,
        {
            if bytes_eq(&self.validator_backlog[i].0, id) {
                return Some(i);
            }
            i = i + 1;
        }
        proof {
            if self.backlog().contains_key(id@) {
                let k = choose|k: int| 0 <= k < self.validator_backlog@.len() && #[trigger] self.validator_backlog@[k].0@ == id@;
                assert(self.validator_backlog@[k].0@ == id@);
            }
        }
        None
    }

    /// Replaces the status at position `i`.
    fn set_status(&mut self, i: usize, status: BlockStatus)
        requires
            old(self).wf(),
            i < old(self).validator_backlog@.len(),
        ensures
            final(self).wf(),
            final(self).backlog() == old(self).backlog().insert(old(self).validator_backlog@[i as int].0@, status@),
            final(self).queue() == old(self).queue(),
    {
        let ghost id = self.validator_backlog@[i as int].0@;
        let ghost pre = *self;
        let key = copy_vec(&self.validator_backlog[i].0);
        self.validator_backlog.set(i, (key, status));
        assert forall|k: Seq<u8>| #[trigger] self.backlog().contains_key(k) == pre.backlog().insert(id, status@).contains_key(k) by {
            if pre.backlog().contains_key(k) {
                let j = choose|j: int| 0 <= j < pre.validator_backlog@.len() && #[trigger] pre.validator_backlog@[j].0@ == k;
                assert(self.validator_backlog@[j].0@ == k);
            }
            if self.backlog().contains_key(k) {
                let j = choose|j: int| 0 <= j < self.validator_backlog@.len() && #[trigger] self.validator_backlog@[j].0@ == k;
                assert(pre.validator_backlog@[j].0@ == k);
            }
        }
        assert forall|k: Seq<u8>| #[trigger] self.backlog().contains_key(k) implies self.backlog()[k] == pre.backlog().insert(id, status@)[k] by {
            let j = choose|j: int| 0 <= j < self.validator_backlog@.len() && #[trigger] self.validator_backlog@[j].0@ == k;
            self.lemma_backlog_at(j);
            if j != i {
                pre.lemma_backlog_at(j);
            }
        }
        assert(self.backlog() =~= pre.backlog().insert(id, status@));
    }

    /// Adds a block that is not yet in the backlog.
    fn push_status(&mut self, id: BlockId, status: BlockStatus)
        requires
            old(self).wf(),
            !old(self).backlog().contains_key(id@),
        ensures
            final(self).wf(),
            final(self).backlog() == old(self).backlog().insert(id@, status@),
            final(self).queue() == old(self).queue(),
    {
        let ghost pre = *self;
        let ghost idv = id@;
        let ghost n = self.validator_backlog@.len();
        assert forall|j: int| 0 <= j < n implies #[trigger] pre.validator_backlog@[j].0@ != idv by {
            if pre.validator_backlog@[j].0@ == idv {
                pre.lemma_backlog_at(j);
            }
        }
        self.validator_backlog.push((id, status));
        assert forall|k: Seq<u8>| #[trigger] self.backlog().contains_key(k) == pre.backlog().insert(idv, status@).contains_key(k) by {
            if pre.backlog().contains_key(k) {
                let j = choose|j: int| 0 <= j < pre.validator_backlog@.len() && #[trigger] pre.validator_backlog@[j].0@ == k;
                assert(self.validator_backlog@[j].0@ == k);
            }
            if k == idv {
                assert(self.validator_backlog@[n as int].0@ == k);
            }
            if self.backlog().contains_key(k) {
                let j = choose|j: int| 0 <= j < self.validator_backlog@.len() && #[trigger] self.validator_backlog@[j].0@ == k;
                if j < n {
                    assert(pre.validator_backlog@[j].0@ == k);
                }
            }
        }
        assert forall|k: Seq<u8>| #[trigger] self.backlog().contains_key(k) implies self.backlog()[k] == pre.backlog().insert(idv, status@)[k] by {
            let j = choose|j: int| 0 <= j < self.validator_backlog@.len() && #[trigger] self.validator_backlog@[j].0@ == k;
            self.lemma_backlog_at(j);
            if j < n {
                pre.lemma_backlog_at(j);
            }
        }
        assert(self.backlog() =~= pre.backlog().insert(idv, status@));
    }

    /// Records a received block (a BlockNew message), keeping whether it was
    /// already reported valid.
    pub fn block_new(&mut self, block: Block)
        requires
            old(self).wf(),
        ensures
            final(self).wf(),
            final(self).backlog() == backlog_after_new(old(self).backlog(), block@),
            final(self).queue() == old(self).queue(),
    {
        match self.find(&block.block_id) {
            Some(i) => {
                proof {
                    self.lemma_backlog_at(i as int);
                }
                let valid = self.validator_backlog[i].1.block_valid;
                self.set_status(i, BlockStatus { block: Some(block), block_valid: valid });
            },
            None => {
                let id = copy_vec(&block.block_id);
                self.push_status(id, BlockStatus::with_block(block));
            },
        }
    }

    /// Marks a block valid (a BlockValid message), keeping what was received
    /// of it.
    pub fn block_valid(&mut self, block_id: &BlockId)
        requires
            old(self).wf(),
        ensures
            final(self).wf(),
            final(self).backlog() == backlog_after_valid(old(self).backlog(), block_id@),
            final(self).queue() == old(self).queue(),
    {
        match self.find(block_id) {
            Some(i) => {
                proof {
                    self.lemma_backlog_at(i as int);
                }
                let block = match &self.validator_backlog[i].1.block {
                    Some(b) => Some(b.clone()),
                    None => None,
                };
                self.set_status(i, BlockStatus { block, block_valid: true });
            },
            None => {
                self.push_status(copy_vec(block_id), BlockStatus::with_valid());
            },
        }
    }

    /// Queues a block for commit, with the index of the Raft entry that
    /// carried it.
    pub fn add_block_commit(&mut self, block_id: BlockId, entry: u64)
        requires
            old(self).wf(),
        ensures
            final(self).wf(),
            final(self).backlog() == old(self).backlog(),
            final(self).queue() == old(self).queue().push((block_id@, entry)),
    {
        let ghost pre = self.queue();
        let ghost idv = block_id@;
        self.commit_queue.push_back((block_id, entry));
        assert(self.queue() =~= pre.push((idv, entry)));
    }

    /// Removes a block from the backlog.
    fn remove_status(&mut self, id: &BlockId)
        requires
            old(self).wf(),
        ensures
            final(self).wf(),
            final(self).backlog() == old(self).backlog().remove(id@),
            final(self).queue() == old(self).queue(),
    {
        match self.find(id) {
            Some(i) => {
                let ghost pre = *self;
                self.validator_backlog.remove(i);
                assert forall|k: Seq<u8>| #[trigger] self.backlog().contains_key(k) == pre.backlog().remove(id@).contains_key(k) by {
                    if pre.backlog().contains_key(k) && k != id@ {
                        let j = choose|j: int| 0 <= j < pre.validator_backlog@.len() && #[trigger] pre.validator_backlog@[j].0@ == k;
                        if j < i {
                            assert(self.validator_backlog@[j].0@ == k);
                        } else {
                            assert(j != i);
                            assert(self.validator_backlog@[j - 1].0@ == k);
                        }
                    }
                    if self.backlog().contains_key(k) {
                        let j = choose|j: int| 0 <= j < self.validator_backlog@.len() && #[trigger] self.validator_backlog@[j].0@ == k;
                        if j < i {
                            assert(pre.validator_backlog@[j].0@ == k);
                        } else {
                            assert(pre.validator_backlog@[j + 1].0@ == k);
                        }
                    }
                }
                assert forall|k: Seq<u8>| #[trigger] self.backlog().contains_key(k) implies self.backlog()[k] == pre.backlog().remove(id@)[k] by {
                    let j = choose|j: int| 0 <= j < self.validator_backlog@.len() && #[trigger] self.validator_backlog@[j].0@ == k;
                    self.lemma_backlog_at(j);
                    if j < i {
                        pre.lemma_backlog_at(j);
                    } else {
                        pre.lemma_backlog_at(j + 1);
                    }
                }
                assert(self.backlog() =~= pre.backlog().remove(id@));
            },
            None => {
                assert(self.backlog() =~= self.backlog().remove(id@));
            },
        }
    }

    /// Takes the front block off the commit queue once it has been committed,
    /// forgets it in the backlog, and returns the index of its Raft entry.
    pub fn block_committed(&mut self) -> (entry: u64)
        requires
            old(self).wf(),
            old(self).queue().len() > 0,
        ensures
            final(self).wf(),
            entry == old(self).queue()[0].1,
            final(self).queue() == old(self).queue().drop_first(),
            final(self).backlog() == old(self).backlog().remove(old(self).queue()[0].0),
    {
        let ghost pre = self.queue();
        let front = self.commit_queue.pop_front();
        match front {
            Some((block_id, entry)) => {
                assert(self.queue() =~= pre.drop_first());
                self.remove_status(&block_id);
                entry
            },
            None => {
                assert(false);
                0
            },
        }
    }

    /// The id of the block that can be committed next on top of
    /// `chain_head`, if there is one.
    pub fn get_next_committable(&self, chain_head: &Block) -> (r: Option<BlockId>)
        requires
            self.wf(),
        ensures
            match r {
                Some(id) => next_committable(self.backlog(), self.queue(), chain_head.block_id@) == Some(id@),
                None => next_committable(self.backlog(), self.queue(), chain_head.block_id@) is None,
            },
    {
        if self.commit_queue.len() == 0 {
            return None;
        }
        let front = &self.commit_queue[0];
        let block_id = &front.0;
        assert(self.queue()[0].0 == block_id@);
        match self.find(block_id) {
            Some(i) => {
                proof {
                    self.lemma_backlog_at(i as int);
                }
                let status = &self.validator_backlog[i].1;
                match &status.block {
                    Some(block) => {
                        if status.block_valid && bytes_eq(&block.previous_id, &chain_head.block_id) {
                            Some(copy_vec(block_id))
                        } else {
                            None
                        }
                    },
                    None => None,
                }
            },
            None => None,
        }
    }
}

} // verus!
