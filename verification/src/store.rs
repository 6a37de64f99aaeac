//! The block store: an ordered sequence of content blocks, each with a stable
//! identifier and plain text content. The single source of truth for the
//! document.

use vstd::prelude::*;
use crate::ids::mint_id;

verus! {

/// A unit of content: a stable identifier and mutable plain text.
///
/// The identifier is the 128-bit value of the block's UUID; its textual form
/// doubles as the correlating attribute written onto the block's visual node.
pub struct Block {
    pub id: u128,
    pub content: String,
}

/// Mathematical model of a block: its identifier and its text as a sequence
/// of characters.
pub ghost struct BlockModel {
    pub id: u128,
    pub content: Seq<char>,
}

impl View for Block {
    type V = BlockModel;

    open spec fn view(&self) -> BlockModel {
        BlockModel { id: self.id, content: self.content@ }
    }
}

/// The identifiers of a sequence of blocks, in order.
pub open spec fn ids(s: Seq<BlockModel>) -> Seq<u128> {
    s.map_values(|b: BlockModel| b.id)
}

/// Identifiers are pairwise distinct.
pub open spec fn unique_ids(s: Seq<BlockModel>) -> bool {
    forall|i: int, j: int| 0 <= i < s.len() && 0 <= j < s.len() && i != j ==> s[i].id != s[j].id
}

/// The index of the first block carrying `id`, or `-1` when no block does.
pub open spec fn find_block(s: Seq<BlockModel>, id: u128) -> int
    decreases s.len(),
{
    if s.len() == 0 {
        -1
    } else if s[0].id == id {
        0
    } else {
        let r = find_block(s.drop_first(), id);
        if r < 0 {
            -1
        } else {
            r + 1
        }
    }
}

/// `find_block` returns `-1` exactly when no block carries the identifier,
/// and otherwise the first index that does.
pub proof fn lemma_find_block(s: Seq<BlockModel>, id: u128)
    ensures
        find_block(s, id) == -1 || 0 <= find_block(s, id) < s.len(),
        find_block(s, id) >= 0 ==> s[find_block(s, id)].id == id,
        find_block(s, id) >= 0 ==> forall|j: int| 0 <= j < find_block(s, id) ==> s[j].id != id,
        find_block(s, id) == -1 <==> (forall|j: int| 0 <= j < s.len() ==> s[j].id != id),
    decreases s.len(),
{
    if s.len() > 0 && s[0].id != id {
        let st = s.drop_first();
        lemma_find_block(st, id);
        let r = find_block(st, id);
        if r >= 0 {
            assert(s[r + 1].id == st[r].id);
            assert forall|j: int| 0 <= j < r + 1 implies s[j].id != id by {
                if j > 0 {
                    assert(st[j - 1].id != id);
                    assert(s[j] == st[j - 1]);
                }
            }
        } else {
            assert forall|j: int| 0 <= j < s.len() implies s[j].id != id by {
                if j > 0 {
                    assert(st[j - 1].id != id);
                    assert(s[j] == st[j - 1]);
                }
            }
        }
    }
}

/// `find_block` depends only on the sequence of identifiers.
pub proof fn lemma_find_block_same_ids(s1: Seq<BlockModel>, s2: Seq<BlockModel>, id: u128)
    requires
        ids(s1) == ids(s2),
    ensures
        find_block(s1, id) == find_block(s2, id),
    decreases s1.len(),
{
    assert(ids(s1).len() == s1.len());
    assert(ids(s2).len() == s2.len());
    if s1.len() > 0 {
        assert(s1[0].id == ids(s1)[0]);
        assert(s2[0].id == ids(s2)[0]);
        if s1[0].id != id {
            let t1 = s1.drop_first();
            let t2 = s2.drop_first();
            assert(ids(t1) =~= ids(t2)) by {
                assert forall|j: int| 0 <= j < s1.len() - 1 implies ids(t1)[j] == ids(t2)[j] by {
                    assert(ids(t1)[j] == t1[j].id);
                    assert(t1[j] == s1[j + 1]);
                    assert(ids(s1)[j + 1] == s1[j + 1].id);
                    assert(ids(t2)[j] == t2[j].id);
                    assert(t2[j] == s2[j + 1]);
                    assert(ids(s2)[j + 1] == s2[j + 1].id);
                }
            }
            lemma_find_block_same_ids(t1, t2, id);
        }
    }
}

/// Replacing a block with one carrying the same identifier leaves the
/// identifier sequence as it was.
pub proof fn lemma_ids_update(s: Seq<BlockModel>, i: int, b: BlockModel)
    requires
        0 <= i < s.len(),
        b.id == s[i].id,
    ensures
        ids(s.update(i, b)) == ids(s),
{
    assert(ids(s.update(i, b)) =~= ids(s)) by {
        assert forall|j: int| 0 <= j < s.len() implies ids(s.update(i, b))[j] == ids(s)[j] by {
            assert(ids(s.update(i, b))[j] == s.update(i, b)[j].id);
            assert(ids(s)[j] == s[j].id);
            if j != i {
                assert(s.update(i, b)[j] == s[j]);
            }
        }
    }
}

/// Appending a block appends its identifier.
pub proof fn lemma_ids_push(s: Seq<BlockModel>, b: BlockModel)
    ensures
        ids(s.push(b)) == ids(s).push(b.id),
{
    assert(ids(s.push(b)) =~= ids(s).push(b.id)) by {
        assert forall|j: int| 0 <= j < s.len() + 1 implies ids(s.push(b))[j] == ids(s).push(
            b.id,
        )[j] by {
            assert(ids(s.push(b))[j] == s.push(b)[j].id);
            if j < s.len() {
                assert(s.push(b)[j] == s[j]);
                assert(ids(s)[j] == s[j].id);
            } else {
                assert(s.push(b)[j] == b);
            }
        }
    }
}

/// The ordered collection of blocks: the document's single source of truth.
pub struct Store {
    pub blocks: Vec<Block>,
}

impl View for Store {
    type V = Seq<BlockModel>;

    open spec fn view(&self) -> Seq<BlockModel> {
        self.blocks@.map_values(|b: Block| b@)
    }
}

impl Store {
    /// The number of blocks.
    pub fn len(&self) -> (n: usize)
        ensures
            n == self@.len(),
    {
        self.blocks.len()
    }

    /// The store a document starts from: exactly one block of placeholder
    /// text, under a freshly minted identifier.
    pub fn initial() -> (s: Store)
        ensures
            s@.len() == 1,
            s@[0].content == "first element"@,
            unique_ids(s@),
    {
        let block = Block { id: mint_id(), content: "first element".to_owned() };
        let blocks = vec![block];
        let s = Store { blocks };
        proof {
            assert(s@ =~= seq![block@]);
        }
        s
    }

    /// The index of the first block carrying `id`, or `None` when no block
    /// does.
    pub fn find_index(&self, id: u128) -> (r: Option<usize>)
        ensures
            match r {
                Some(i) => i == find_block(self@, id),
                None => find_block(self@, id) == -1,
            },
    {
        proof {
            lemma_find_block(self@, id);
        }
        let n = self.blocks.len();
        let mut i: usize = 0;
        while i < n
            invariant
                n == self@.len(),
                i <= n,
                forall|j: int| 0 <= j < i ==> self@[j].id != id,
            decreases n - i,
        {
            if self.blocks[i].id == id {
                proof {
                    lemma_find_block(self@, id);
                    let f = find_block(self@, id);
                    assert(self@[i as int].id == id);
                    assert(f != -1);
                    if f < i as int {
                        assert(self@[f].id != id);
                    }
                    if f > i as int {
                        assert(self@[i as int].id != id);
                    }
                }
                return Some(i);
            }
            i += 1;
        }
        None
    }

    /// Whether some block carries `id`.
    pub fn contains_id(&self, id: u128) -> (b: bool)
        ensures
            b == ids(self@).contains(id),
    {
        proof {
            lemma_find_block(self@, id);
            assert(ids(self@).len() == self@.len());
            if exists|j: int| 0 <= j < self@.len() && self@[j].id == id {
                let j = choose|j: int| 0 <= j < self@.len() && self@[j].id == id;
                assert(ids(self@)[j] == self@[j].id);
            }
            if ids(self@).contains(id) {
                let j = choose|j: int| 0 <= j < ids(self@).len() && ids(self@)[j] == id;
                assert(ids(self@)[j] == self@[j].id);
            }
        }
        self.find_index(id).is_some()
    }
}

} // verus!
