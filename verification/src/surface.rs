//! A model of the editable visual tree: the nodes under the observed surface,
//! each with its correlating attribute and its current full text content.
//!
//! The reconciler never touches the browser's tree directly; the host reads
//! the relevant nodes into a `Surface` and writes the attribute assignments
//! back out.

use vstd::prelude::*;
use crate::ids::{NodeTag, id_string, spec_tag};
use crate::store::{BlockModel, Store};

verus! {

/// One visual node: its correlating attribute as it stands in the tree, and
/// its current full text content.
pub struct Node {
    pub attr: String,
    pub text: String,
}

/// Mathematical model of a node: the classification of its attribute, and its
/// text as a sequence of characters.
pub ghost struct NodeModel {
    pub tag: NodeTag,
    pub text: Seq<char>,
}

impl View for Node {
    type V = NodeModel;

    open spec fn view(&self) -> NodeModel {
        NodeModel { tag: spec_tag(self.attr@), text: self.text@ }
    }
}

/// The observed visual nodes, in tree order.
pub struct Surface {
    pub nodes: Vec<Node>,
}

impl View for Surface {
    type V = Seq<NodeModel>;

    open spec fn view(&self) -> Seq<NodeModel> {
        self.nodes@.map_values(|n: Node| n@)
    }
}

impl Surface {
    /// A surface with no nodes.
    pub fn new() -> (s: Surface)
        ensures
            s@ == Seq::<NodeModel>::empty(),
    {
        let s = Surface { nodes: Vec::new() };
        proof {
            assert(s@ =~= Seq::<NodeModel>::empty());
        }
        s
    }

    /// The number of observed nodes.
    pub fn len(&self) -> (n: usize)
        ensures
            n == self@.len(),
    {
        self.nodes.len()
    }

    /// Append a node to the surface, as the host does when the browser
    /// reports a new element under the observed subtree.
    pub fn push_node(&mut self, node: Node)
        ensures
            final(self)@ == old(self)@.push(node@),
    {
        self.nodes.push(node);
        proof {
            assert(self@ =~= old(self)@.push(node@));
        }
    }
}

/// The surface is exactly the renderer's forward projection of the blocks:
/// one node per block, in order, tagged with the block's identifier and
/// showing the block's text.
pub open spec fn is_projection(s: Seq<BlockModel>, v: Seq<NodeModel>) -> bool {
    &&& v.len() == s.len()
    &&& forall|i: int|
        0 <= i < s.len() ==> v[i].tag == NodeTag::Tagged(s[i].id) && v[i].text == s[i].content
}

/// The renderer's forward projection: for each block in store order, one
/// visual node whose correlating attribute is the block's identifier and
/// whose text is the block's content.
pub fn project(store: &Store) -> (sf: Surface)
    ensures
        is_projection(store@, sf@),
{
    let mut sf = Surface::new();
    let n = store.len();
    let mut i: usize = 0;
    while i < n
        invariant
            n == store@.len(),
            i <= n,
            sf@.len() == i,
            forall|j: int|
                0 <= j < i ==> sf@[j].tag == NodeTag::Tagged(store@[j].id) && sf@[j].text
                    == store@[j].content,
        decreases n - i,
    {
        proof {
            assert(store@[i as int] == store.blocks@[i as int]@);
        }
        let attr = id_string(store.blocks[i].id);
        proof {
            reveal_strlit("editor");
            assert(attr@ != "editor"@);
        }
        let text = store.blocks[i].content.clone();
        sf.push_node(Node { attr, text });
        i += 1;
    }
    sf
}

} // verus!
