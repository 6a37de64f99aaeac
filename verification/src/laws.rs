//! The properties reconciliation keeps, stated and proved over the
//! mathematical transition `step` that every executable entry point realises.

use vstd::prelude::*;
use crate::ids::NodeTag;
use crate::record::{Record, RecordKind};
use crate::store::{
    BlockModel, find_block, ids, lemma_find_block, lemma_find_block_same_ids, lemma_ids_push,
    lemma_ids_update, unique_ids,
};
use crate::surface::{NodeModel, is_projection};
use crate::reconcile::{step, steps};

verus! {

/// The identifier a node's tag carries, if any.
pub open spec fn tag_id(t: NodeTag) -> Option<u128> {
    match t {
        NodeTag::Tagged(id) => Some(id),
        _ => None,
    }
}

/// A tag's identifier, if any, names some block.
pub open spec fn tag_known(s: Seq<BlockModel>, t: NodeTag) -> bool {
    match tag_id(t) {
        Some(id) => ids(s).contains(id),
        None => true,
    }
}

/// Two tags never carry the same identifier.
pub open spec fn tags_distinct(a: NodeTag, b: NodeTag) -> bool {
    match (tag_id(a), tag_id(b)) {
        (Some(x), Some(y)) => x != y,
        _ => true,
    }
}

/// The correspondence between store and surface that reconciliation keeps:
/// block identifiers are pairwise distinct, every tracked node's identifier
/// names a block, and no two nodes carry the same identifier — so each
/// tracked node's attribute equals exactly one block's identifier.
pub open spec fn linked(s: Seq<BlockModel>, v: Seq<NodeModel>) -> bool {
    &&& unique_ids(s)
    &&& forall|i: int| 0 <= i < v.len() ==> #[trigger] tag_known(s, v[i].tag)
    &&& forall|i: int, j: int|
        0 <= i < v.len() && 0 <= j < v.len() && i != j ==> #[trigger] tags_distinct(
            v[i].tag,
            v[j].tag,
        )
}

/// Uniqueness, one record: a step taken from a linked store and surface
/// leaves them linked, whatever identifier the mint returned — in particular
/// every block's identifier stays distinct and every tracked node still names
/// exactly one block.
pub proof fn lemma_step_preserves_links(s: Seq<BlockModel>, v: Seq<NodeModel>, r: Record, f: u128)
    requires
        linked(s, v),
    ensures
        linked(step(s, v, r, f).0, step(s, v, r, f).1),
{
    let t_us: usize = match r.target {
        Some(t_us) => t_us,
        None => 0,
    };
    if r.target == Some(t_us) && t_us < v.len() {
        let t = t_us as int;
        match r.kind {
            RecordKind::CharacterData => {
                match v[t].tag {
                    NodeTag::Tagged(id) => {
                        lemma_find_block(s, id);
                        let i = find_block(s, id);
                        if i >= 0 {
                            let b = BlockModel { id, content: v[t].text };
                            let s1 = s.update(i, b);
                            lemma_ids_update(s, i, b);
                            assert forall|x: int| 0 <= x < s1.len() implies s1[x].id == s[x].id by {
                                if x != i {
                                    assert(s1[x] == s[x]);
                                }
                            }
                            assert(unique_ids(s1));
                            assert forall|x: int| 0 <= x < v.len() implies #[trigger] tag_known(
                                s1,
                                v[x].tag,
                            ) by {
                                assert(tag_known(s, v[x].tag));
                            }
                        }
                    },
                    _ => {},
                }
            },
            RecordKind::ChildList => {
                if v[t].tag == NodeTag::Untagged && !ids(s).contains(f) {
                    let b = BlockModel { id: f, content: v[t].text };
                    let s1 = s.push(b);
                    let v1 = v.update(t, NodeModel { tag: NodeTag::Tagged(f), text: v[t].text });
                    lemma_ids_push(s, b);
                    assert(ids(s).len() == s.len());
                    assert forall|x: int| 0 <= x < s.len() implies s[x].id != f by {
                        assert(ids(s)[x] == s[x].id);
                    }
                    assert(unique_ids(s1)) by {
                        assert forall|x: int, y: int|
                            0 <= x < s1.len() && 0 <= y < s1.len() && x != y implies s1[x].id
                            != s1[y].id by {
                            if x < s.len() && y < s.len() {
                                assert(s1[x] == s[x] && s1[y] == s[y]);
                            } else if x < s.len() {
                                assert(s1[x] == s[x] && s1[y] == b);
                            } else {
                                assert(s1[x] == b && s1[y] == s[y]);
                            }
                        }
                    }
                    assert(ids(s1).contains(f)) by {
                        assert(ids(s1)[s.len() as int] == f);
                    }
                    assert forall|x: int| 0 <= x < v1.len() implies #[trigger] tag_known(
                        s1,
                        v1[x].tag,
                    ) by {
                        if x == t {
                            assert(tag_id(v1[x].tag) == Some(f));
                        } else {
                            assert(v1[x] == v[x]);
                            assert(tag_known(s, v[x].tag));
                            match tag_id(v[x].tag) {
                                Some(id) => {
                                    let w = choose|w: int|
                                        0 <= w < ids(s).len() && ids(s)[w] == id;
                                    assert(ids(s1)[w] == id);
                                },
                                None => {},
                            }
                        }
                    }
                    assert forall|x: int, y: int|
                        0 <= x < v1.len() && 0 <= y < v1.len() && x != y implies #[trigger] tags_distinct(
                        v1[x].tag,
                        v1[y].tag,
                    ) by {
                        if x != t && y != t {
                            assert(v1[x] == v[x] && v1[y] == v[y]);
                            assert(tags_distinct(v[x].tag, v[y].tag));
                        } else {
                            let o = if x == t {
                                y
                            } else {
                                x
                            };
                            assert(v1[o] == v[o]);
                            assert(tag_known(s, v[o].tag));
                            match tag_id(v[o].tag) {
                                Some(id) => {
                                    let w = choose|w: int|
                                        0 <= w < ids(s).len() && ids(s)[w] == id;
                                    assert(ids(s)[w] == s[w].id);
                                    assert(id != f);
                                },
                                None => {},
                            }
                        }
                    }
                }
            },
            RecordKind::Other => {},
        }
    }
}

/// Uniqueness, one batch: reconciling any batch keeps the store and the
/// surface linked.
pub proof fn lemma_steps_preserve_links(
    s: Seq<BlockModel>,
    v: Seq<NodeModel>,
    rs: Seq<Record>,
    fs: Seq<u128>,
)
    requires
        fs.len() == rs.len(),
        linked(s, v),
    ensures
        linked(steps(s, v, rs, fs).0, steps(s, v, rs, fs).1),
    decreases rs.len(),
{
    if rs.len() > 0 {
        lemma_step_preserves_links(s, v, rs[0], fs[0]);
        let next = step(s, v, rs[0], fs[0]);
        lemma_steps_preserve_links(next.0, next.1, rs.drop_first(), fs.drop_first());
    }
}

/// Idempotence of re-tagging: a child-list record for a node that already
/// carries a valid identifier changes nothing — replaying it never creates a
/// duplicate block.
pub proof fn lemma_retag_idempotent(
    s: Seq<BlockModel>,
    v: Seq<NodeModel>,
    r: Record,
    f: u128,
    t: usize,
    id: u128,
)
    requires
        r.kind == RecordKind::ChildList,
        r.target == Some(t),
        t < v.len(),
        v[t as int].tag == NodeTag::Tagged(id),
    ensures
        step(s, v, r, f) == (s, v),
{
}

/// Skip on unknown: a record whose target is unresolved, untracked (for a
/// text change), or the root surface never changes the store or the surface.
pub proof fn lemma_skip_on_unknown(s: Seq<BlockModel>, v: Seq<NodeModel>, r: Record, f: u128)
    requires
        match r.target {
            Some(t) => t < v.len() ==> (v[t as int].tag == NodeTag::Root || (r.kind
                == RecordKind::CharacterData && v[t as int].tag == NodeTag::Untagged)),
            None => true,
        },
    ensures
        step(s, v, r, f) == (s, v),
{
}

/// No feedback loop: against a surface that is exactly the renderer's
/// projection of the store, no record changes anything — a text record finds
/// the block already holding the node's text, and a child-list record finds
/// the node already tagged. The reconciler's own writes, once re-projected,
/// are silent.
pub proof fn lemma_no_feedback(s: Seq<BlockModel>, v: Seq<NodeModel>, r: Record, f: u128)
    requires
        unique_ids(s),
        is_projection(s, v),
    ensures
        step(s, v, r, f) == (s, v),
{
    let t_us: usize = match r.target {
        Some(t_us) => t_us,
        None => 0,
    };
    if r.target == Some(t_us) && t_us < v.len() {
        let t = t_us as int;
        let id = s[t].id;
        assert(v[t].tag == NodeTag::Tagged(id));
        if r.kind == RecordKind::CharacterData {
            lemma_find_block(s, id);
            let i = find_block(s, id);
            assert(i != -1) by {
                assert(s[t].id == id);
            }
            assert(i == t) by {
                if i != t {
                    assert(s[i].id == s[t].id);
                }
            }
            let b = BlockModel { id, content: v[t].text };
            assert(b == s[t]);
            assert(s.update(t, b) =~= s);
        }
    }
}

/// Text convergence: after any nonempty run of text-change records targeting
/// one tracked node whose identifier names a block, that block's content
/// equals the node's current full text — the authoritative text, not a
/// delta — and nothing else has changed.
pub proof fn lemma_text_convergence(
    s: Seq<BlockModel>,
    v: Seq<NodeModel>,
    rs: Seq<Record>,
    fs: Seq<u128>,
    t: usize,
    id: u128,
)
    requires
        fs.len() == rs.len(),
        rs.len() > 0,
        forall|k: int|
            0 <= k < rs.len() ==> (#[trigger] rs[k]).kind == RecordKind::CharacterData
                && rs[k].target == Some(t),
        t < v.len(),
        v[t as int].tag == NodeTag::Tagged(id),
        find_block(s, id) >= 0,
    ensures
        steps(s, v, rs, fs).1 == v,
        steps(s, v, rs, fs).0 == s.update(
            find_block(s, id),
            BlockModel { id, content: v[t as int].text },
        ),
        steps(s, v, rs, fs).0[find_block(s, id)].content == v[t as int].text,
    decreases rs.len(),
{
    lemma_find_block(s, id);
    let i = find_block(s, id);
    let b = BlockModel { id, content: v[t as int].text };
    let s1 = s.update(i, b);
    assert(step(s, v, rs[0], fs[0]) == (s1, v));
    if rs.len() == 1 {
        assert(rs.drop_first() =~= Seq::<Record>::empty());
        assert(steps(s1, v, rs.drop_first(), fs.drop_first()) == (s1, v));
    } else {
        lemma_ids_update(s, i, b);
        lemma_find_block_same_ids(s1, s, id);
        assert(forall|k: int|
            0 <= k < rs.drop_first().len() ==> rs.drop_first()[k] == rs[k + 1]);
        lemma_text_convergence(s1, v, rs.drop_first(), fs.drop_first(), t, id);
        assert(s1.update(i, b) =~= s1);
    }
}

} // verus!
