//! The reconciler: consumes a batch of change records and applies to the
//! store exactly one of two transitions per record — an in-place text update
//! for a tracked node, or the creation of a fresh block for a node that is
//! not yet tracked.
//!
//! `step` is the mathematical transition for one record; every executable
//! entry point is proved to realise it. A newly discovered node is tagged
//! with its identifier in the same step that appends its block, so a later
//! record for the same node — in this batch or any later one — is already
//! tracked and cannot create a duplicate.
//!
//! Direct deletion or reordering of visual nodes has no transition: the
//! records it provokes target tracked nodes or the root surface and are
//! skipped, so the store keeps such blocks. Blocks are likewise appended in
//! discovery order, not visual order.

use vstd::prelude::*;
use crate::ids::{NodeTag, classify, id_string, mint_id, spec_tag};
use crate::laws::{lemma_steps_preserve_links, linked};
use crate::record::{Record, RecordKind};
use crate::store::{Block, BlockModel, Store, find_block, ids, lemma_find_block};
use crate::surface::{Node, NodeModel, Surface};

verus! {

/// The transition one record makes on the store and the surface, given the
/// identifier `fresh` that would be minted for a newly discovered node.
///
/// A record is skipped (no change) when its target cannot be resolved, when a
/// text change concerns a node that is not a tracked block, when a child-list
/// change concerns the root surface or an already tracked block, or when its
/// class is reserved. A valid identifier with no matching block is also
/// skipped: the record is dropped rather than misapplied to an arbitrary
/// block. A minted identifier already in use is skipped likewise, so block
/// identifiers stay unique whatever the mint returns.
pub open spec fn step(
    s: Seq<BlockModel>,
    v: Seq<NodeModel>,
    r: Record,
    fresh: u128,
) -> (Seq<BlockModel>, Seq<NodeModel>) {
    match r.target {
        Some(t) => {
            if t < v.len() {
                match r.kind {
                    RecordKind::CharacterData => {
                        match v[t as int].tag {
                            NodeTag::Tagged(id) => {
                                let i = find_block(s, id);
                                if i >= 0 {
                                    (s.update(i, BlockModel { id, content: v[t as int].text }), v)
                                } else {
                                    (s, v)
                                }
                            },
                            _ => (s, v),
                        }
                    },
                    RecordKind::ChildList => {
                        match v[t as int].tag {
                            NodeTag::Untagged => {
                                if ids(s).contains(fresh) {
                                    (s, v)
                                } else {
                                    (
                                        s.push(BlockModel { id: fresh, content: v[t as int].text }),
                                        v.update(
                                            t as int,
                                            NodeModel {
                                                tag: NodeTag::Tagged(fresh),
                                                text: v[t as int].text,
                                            },
                                        ),
                                    )
                                }
                            },
                            _ => (s, v),
                        }
                    },
                    RecordKind::Other => (s, v),
                }
            } else {
                (s, v)
            }
        },
        None => (s, v),
    }
}

/// The transition a whole batch makes, given one minted identifier per
/// record (records that create no block ignore theirs).
pub open spec fn steps(
    s: Seq<BlockModel>,
    v: Seq<NodeModel>,
    rs: Seq<Record>,
    fs: Seq<u128>,
) -> (Seq<BlockModel>, Seq<NodeModel>)
    decreases rs.len(),
{
    if rs.len() == 0 {
        (s, v)
    } else {
        let next = step(s, v, rs[0], fs[0]);
        steps(next.0, next.1, rs.drop_first(), fs.drop_first())
    }
}

/// The store and surface a batch can leave behind: the result of `steps`
/// under some choice of minted identifiers.
pub open spec fn steps_to(
    s0: Seq<BlockModel>,
    v0: Seq<NodeModel>,
    rs: Seq<Record>,
    s1: Seq<BlockModel>,
    v1: Seq<NodeModel>,
) -> bool {
    exists|fs: Seq<u128>|
        fs.len() == rs.len() && steps(s0, v0, rs, fs) == (s1, v1)
}

/// Whether `r` would create a block, so that a fresh identifier is wanted:
/// a child-list record on a resolved node that is neither the root surface
/// nor already tracked.
pub open spec fn spec_creates(v: Seq<NodeModel>, r: Record) -> bool {
    &&& r.kind == RecordKind::ChildList
    &&& match r.target {
        Some(t) => t < v.len() && v[t as int].tag == NodeTag::Untagged,
        None => false,
    }
}

/// Apply one record to the store and the surface, with the identifier to use
/// should the record create a block. Realises `step` exactly.
pub fn apply_record(store: &mut Store, surface: &mut Surface, rec: &Record, fresh: u128)
    ensures
        final(store)@ == step(old(store)@, old(surface)@, *rec, fresh).0,
        final(surface)@ == step(old(store)@, old(surface)@, *rec, fresh).1,
{
    let t = match rec.target {
        Some(t) => t,
        None => {
            return ;
        },
    };
    if t >= surface.len() {
        return ;
    }
    proof {
        assert(surface@.len() == surface.nodes@.len());
        assert(surface@[t as int] == surface.nodes@[t as int]@);
    }
    match rec.kind {
        RecordKind::CharacterData => {
            let tag = classify(&surface.nodes[t].attr);
            match tag {
                NodeTag::Tagged(id) => {
                    match store.find_index(id) {
                        Some(i) => {
                            proof {
                                lemma_find_block(store@, id);
                            }
                            let text = surface.nodes[t].text.clone();
                            store.blocks[i].content = text;
                            proof {
                                assert(store@ =~= old(store)@.update(
                                    i as int,
                                    BlockModel { id, content: old(surface)@[t as int].text },
                                ));
                            }
                        },
                        None => {},
                    }
                },
                _ => {},
            }
        },
        RecordKind::ChildList => {
            let tag = classify(&surface.nodes[t].attr);
            match tag {
                NodeTag::Untagged => {
                    if !store.contains_id(fresh) {
                        let attr = id_string(fresh);
                        proof {
                            reveal_strlit("editor");
                            assert(attr@ != "editor"@);
                            assert(spec_tag(attr@) == NodeTag::Tagged(fresh));
                        }
                        let text = surface.nodes[t].text.clone();
                        surface.nodes[t].attr = attr;
                        let block = Block { id: fresh, content: text };
                        store.blocks.push(block);
                        proof {
                            assert(store@ =~= old(store)@.push(
                                BlockModel { id: fresh, content: old(surface)@[t as int].text },
                            ));
                            assert(surface@ =~= old(surface)@.update(
                                t as int,
                                NodeModel {
                                    tag: NodeTag::Tagged(fresh),
                                    text: old(surface)@[t as int].text,
                                },
                            ));
                        }
                    }
                },
                _ => {},
            }
        },
        RecordKind::Other => {},
    }
}

/// Whether `rec` would create a block, so that a fresh identifier must be
/// minted before applying it.
fn creates_block(surface: &Surface, rec: &Record) -> (b: bool)
    ensures
        b == spec_creates(surface@, *rec),
{
    match rec.kind {
        RecordKind::ChildList => {
            match rec.target {
                Some(t) => {
                    if t >= surface.len() {
                        false
                    } else {
                        proof {
                            assert(surface@[t as int] == surface.nodes@[t as int]@);
                        }
                        match classify(&surface.nodes[t].attr) {
                            NodeTag::Untagged => true,
                            _ => false,
                        }
                    }
                },
                None => false,
            }
        },
        _ => false,
    }
}

/// Process one record: mint an identifier exactly when the record creates a
/// block, then apply the record. Returns the identifier the transition was
/// taken with, as a ghost witness.
pub fn reconcile_record(store: &mut Store, surface: &mut Surface, rec: &Record) -> (fresh: Ghost<
    u128,
>)
    ensures
        final(store)@ == step(old(store)@, old(surface)@, *rec, fresh@).0,
        final(surface)@ == step(old(store)@, old(surface)@, *rec, fresh@).1,
{
    if creates_block(surface, rec) {
        let f = mint_id();
        apply_record(store, surface, rec, f);
        Ghost(f)
    } else {
        apply_record(store, surface, rec, 0);
        Ghost(0u128)
    }
}

/// Extending a batch by one record extends its transition by one step.
pub proof fn lemma_steps_snoc(
    s: Seq<BlockModel>,
    v: Seq<NodeModel>,
    rs: Seq<Record>,
    fs: Seq<u128>,
    r: Record,
    f: u128,
)
    requires
        fs.len() == rs.len(),
    ensures
        steps(s, v, rs.push(r), fs.push(f)) == step(
            steps(s, v, rs, fs).0,
            steps(s, v, rs, fs).1,
            r,
            f,
        ),
    decreases rs.len(),
{
    if rs.len() == 0 {
        let nx = step(s, v, r, f);
        assert(rs.push(r)[0] == r);
        assert(fs.push(f)[0] == f);
        assert(rs.push(r).drop_first() =~= Seq::<Record>::empty());
        assert(fs.push(f).drop_first() =~= Seq::<u128>::empty());
        assert(steps(s, v, rs.push(r), fs.push(f)) == steps(
            nx.0,
            nx.1,
            Seq::<Record>::empty(),
            Seq::<u128>::empty(),
        ));
        assert(steps(nx.0, nx.1, Seq::<Record>::empty(), Seq::<u128>::empty()) == (nx.0, nx.1));
        assert(steps(s, v, rs, fs) == (s, v));
    } else {
        let next = step(s, v, rs[0], fs[0]);
        assert(rs.push(r)[0] == rs[0]);
        assert(fs.push(f)[0] == fs[0]);
        assert(rs.push(r).drop_first() =~= rs.drop_first().push(r));
        assert(fs.push(f).drop_first() =~= fs.drop_first().push(f));
        lemma_steps_snoc(next.0, next.1, rs.drop_first(), fs.drop_first(), r, f);
        assert(steps(s, v, rs.push(r), fs.push(f)) == steps(
            next.0,
            next.1,
            rs.drop_first().push(r),
            fs.drop_first().push(f),
        ));
        assert(steps(s, v, rs, fs) == steps(next.0, next.1, rs.drop_first(), fs.drop_first()));
    }
}

/// Process one batch of records, in batch order. The store and the surface
/// end exactly as `steps` takes them under the identifiers that were minted
/// along the way. A record later in the batch sees every tag an earlier
/// record wrote, so a node is never turned into a block twice, and a linked
/// store and surface stay linked.
pub fn reconcile_batch(store: &mut Store, surface: &mut Surface, records: &Vec<Record>)
    ensures
        steps_to(old(store)@, old(surface)@, records@, final(store)@, final(surface)@),
        linked(old(store)@, old(surface)@) ==> linked(final(store)@, final(surface)@),
{
    let ghost s0 = store@;
    let ghost v0 = surface@;
    let ghost mut fs: Seq<u128> = Seq::empty();
    let n = records.len();
    let mut k: usize = 0;
    proof {
        assert(records@.take(0) =~= Seq::<Record>::empty());
    }
    while k < n
        invariant
            n == records@.len(),
            k <= n,
            fs.len() == k,
            steps(s0, v0, records@.take(k as int), fs) == (store@, surface@),
        decreases n - k,
    {
        let rec = records[k];
        let f = reconcile_record(store, surface, &rec);
        proof {
            lemma_steps_snoc(s0, v0, records@.take(k as int), fs, rec, f@);
            assert(records@.take(k as int).push(records@[k as int]) =~= records@.take(
                k as int + 1,
            ));
            fs = fs.push(f@);
        }
        k += 1;
    }
    proof {
        assert(records@.take(n as int) =~= records@);
        if linked(s0, v0) {
            lemma_steps_preserve_links(s0, v0, records@, fs);
        }
    }
}

} // verus!
