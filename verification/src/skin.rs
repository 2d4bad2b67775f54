//! The integer bookkeeping of importing a skinned model: which joint each
//! scene node is, which node is each node's parent, the parent joint of each
//! joint, joint indices remapped into skeleton order, and primitives'
//! indices rebased into one shared index buffer.
use vstd::prelude::*;
use crate::world::Submesh;

verus! {

/// The last joint, among the first `k`, that is node `n`; `usize::MAX` if
/// none is.
pub open spec fn last_joint_of(joint_nodes: Seq<usize>, n: int, k: int) -> usize
    decreases k,
{
    if k <= 0 || k > joint_nodes.len() {
        usize::MAX
    } else if joint_nodes[k - 1] == n {
        (k - 1) as usize
    } else {
        last_joint_of(joint_nodes, n, k - 1)
    }
}

/// For each of `node_count` nodes, the joint it is (the last one listing it
/// when several do), or `usize::MAX` for a node that is no joint. Joint
/// nodes past `node_count` are ignored.
pub fn node_joint_map(joint_nodes: &[usize], node_count: usize) -> (r: Vec<usize>)
    ensures
        r@.len() == node_count,
        forall|n: int| 0 <= n < node_count ==> #[trigger] r@[n] == last_joint_of(joint_nodes@, n, joint_nodes@.len() as int),
{
    let mut out: Vec<usize> = Vec::new();
    let mut n: usize = 0;
    while n < node_count
        invariant
            n <= node_count,
            out@.len() == n,
            forall|m: int| 0 <= m < n ==> #[trigger] out@[m] == usize::MAX,
        decreases node_count - n,
    {
        out.push(usize::MAX);
        n = n + 1;
    }
    let mut ji: usize = 0;
    while ji < joint_nodes.len()
        invariant
            ji <= joint_nodes.len(),
            out@.len() == node_count,
            forall|m: int| 0 <= m < node_count ==> #[trigger] out@[m] == last_joint_of(joint_nodes@, m, ji as int),
        decreases joint_nodes.len() - ji,
    {
        let node = joint_nodes[ji];
        if node < out.len() {
            out.set(node, ji);
        }
        assert forall|m: int| 0 <= m < node_count implies #[trigger] out@[m] == last_joint_of(
            joint_nodes@,
            m,
            ji + 1,
        ) by {}
        ji = ji + 1;
    }
    out
}

/// The last node, among the first `k`, that lists `c` among its children;
/// `usize::MAX` if none does.
pub open spec fn last_parent_of(children: Seq<Seq<usize>>, c: int, k: int) -> usize
    decreases k,
{
    if k <= 0 || k > children.len() {
        usize::MAX
    } else if children[k - 1].contains(c as usize) {
        (k - 1) as usize
    } else {
        last_parent_of(children, c, k - 1)
    }
}

/// For each node, given every node's children, its parent node (the last one
/// listing it when several do), or `usize::MAX` for a root. Children past
/// the node count are ignored.
pub fn node_parent_map(children: &Vec<Vec<usize>>) -> (r: Vec<usize>)
    ensures
        r@.len() == children@.len(),
        forall|c: int|
            0 <= c < children@.len() ==> #[trigger] r@[c] == last_parent_of(
                Seq::new(children@.len(), |i: int| children@[i]@),
                c,
                children@.len() as int,
            ),
{
    let ghost ch = Seq::new(children@.len(), |i: int| children@[i]@);
    let count = children.len();
    let mut out: Vec<usize> = Vec::new();
    let mut n: usize = 0;
    while n < count
        invariant
            count == children@.len(),
            n <= count,
            out@.len() == n,
            forall|m: int| 0 <= m < n ==> #[trigger] out@[m] == usize::MAX,
        decreases count - n,
    {
        out.push(usize::MAX);
        n = n + 1;
    }
    let mut node: usize = 0;
    while node < count
        invariant
            count == children@.len(),
            ch == Seq::new(children@.len(), |i: int| children@[i]@),
            node <= count,
            out@.len() == count,
            forall|c: int| 0 <= c < count ==> #[trigger] out@[c] == last_parent_of(ch, c, node as int),
        decreases count - node,
    {
        let kids = &children[node];
        let mut j: usize = 0;
        while j < kids.len()
            invariant
                count == children@.len(),
                ch == Seq::new(children@.len(), |i: int| children@[i]@),
                node < count,
                kids@ == ch[node as int],
                j <= kids@.len(),
                out@.len() == count,
                forall|c: int|
                    0 <= c < count ==> #[trigger] out@[c] == if kids@.take(j as int).contains(
                        c as usize,
                    ) {
                        node
                    } else {
                        last_parent_of(ch, c, node as int)
                    },
            decreases kids@.len() - j,
        {
            let child = kids[j];
            if child < out.len() {
                out.set(child, node);
            }
            assert forall|c: int| 0 <= c < count implies #[trigger] out@[c] == if kids@.take(
                j + 1,
            ).contains(c as usize) {
                node
            } else {
                last_parent_of(ch, c, node as int)
            } by {
                let t = kids@.take(j + 1);
                assert(t =~= kids@.take(j as int).push(child));
                if t.contains(c as usize) && !kids@.take(j as int).contains(c as usize) {
                    let w = choose|w: int| 0 <= w < t.len() && t[w] == c as usize;
                    if w < j {
                        assert(kids@.take(j as int)[w] == c as usize);
                    }
                }
                if c as usize == child {
                    assert(t[j as int] == child);
                }
                if kids@.take(j as int).contains(c as usize) {
                    let w = choose|w: int|
                        0 <= w < kids@.take(j as int).len() && kids@.take(j as int)[w] == c as usize;
                    assert(t[w] == c as usize);
                }
            }
            j = j + 1;
        }
        assert(kids@.take(kids@.len() as int) =~= kids@);
        node = node + 1;
    }
    out
}

/// The parent joint of joint `g`: the joint its node's parent node is, when
/// that node has a parent and the parent is a joint.
pub open spec fn spec_parent_joint(
    joint_nodes: Seq<usize>,
    parent_node: Seq<usize>,
    node_joint: Seq<usize>,
    g: int,
) -> Option<usize> {
    let pn = parent_node[joint_nodes[g] as int];
    if pn != usize::MAX && node_joint[pn as int] != usize::MAX {
        Some(node_joint[pn as int])
    } else {
        None
    }
}

/// For each joint, its parent joint, if its node's parent node is a joint.
pub fn joint_parents(joint_nodes: &[usize], parent_node: &[usize], node_joint: &[usize]) -> (r: Vec<
    Option<usize>,
>)
    requires
        forall|g: int| 0 <= g < joint_nodes@.len() ==> #[trigger] joint_nodes@[g] < parent_node@.len(),
        forall|n: int|
            0 <= n < parent_node@.len() ==> #[trigger] parent_node@[n] == usize::MAX
                || parent_node@[n] < node_joint@.len(),
    ensures
        r@.len() == joint_nodes@.len(),
        forall|g: int|
            0 <= g < joint_nodes@.len() ==> #[trigger] r@[g] == spec_parent_joint(
                joint_nodes@,
                parent_node@,
                node_joint@,
                g,
            ),
{
    let mut out: Vec<Option<usize>> = Vec::new();
    let mut g: usize = 0;
    while g < joint_nodes.len()
        invariant
            g <= joint_nodes@.len(),
            out@.len() == g,
            forall|i: int| 0 <= i < joint_nodes@.len() ==> #[trigger] joint_nodes@[i] < parent_node@.len(),
            forall|n: int|
                0 <= n < parent_node@.len() ==> #[trigger] parent_node@[n] == usize::MAX
                    || parent_node@[n] < node_joint@.len(),
            forall|i: int|
                0 <= i < g ==> #[trigger] out@[i] == spec_parent_joint(
                    joint_nodes@,
                    parent_node@,
                    node_joint@,
                    i,
                ),
        decreases joint_nodes@.len() - g,
    {
        let pn = parent_node[joint_nodes[g]];
        if pn != usize::MAX && node_joint[pn] != usize::MAX {
            out.push(Some(node_joint[pn]));
        } else {
            out.push(None);
        }
        g = g + 1;
    }
    out
}

/// A vertex's joint index in skeleton order: `remap` of it, or joint 0 for
/// an index past the table (truncated to `u32`).
pub open spec fn spec_remap_joint(x: u16, remap: Seq<usize>) -> u32 {
    if (x as int) < remap.len() {
        remap[x as int] as u32
    } else {
        0
    }
}

/// One joint index, remapped into skeleton order.
fn remap_joint(x: u16, remap: &[usize]) -> (r: u32)
    ensures
        r == spec_remap_joint(x, remap@),
{
    let i = x as usize;
    if i < remap.len() {
        remap[i] as u32
    } else {
        0
    }
}

/// A vertex's four joint indices, remapped into skeleton order.
pub fn remap_joints(j: [u16; 4], remap: &[usize]) -> (r: [u32; 4])
    ensures
        forall|k: int| 0 <= k < 4 ==> #[trigger] r@[k] == spec_remap_joint(j@[k], remap@),
{
    let r = [
        remap_joint(j[0], remap),
        remap_joint(j[1], remap),
        remap_joint(j[2], remap),
        remap_joint(j[3], remap),
    ];
    assert(r@[0] == spec_remap_joint(j@[0], remap@));
    r
}

/// Append a primitive's indices, each shifted by `base_vertex`, to the
/// shared index buffer, and give the submesh that covers them.
pub fn append_primitive(indices: &mut Vec<u32>, prim: &[u32], base_vertex: u32) -> (s: Submesh)
    requires
        forall|i: int| 0 <= i < prim@.len() ==> #[trigger] prim@[i] + base_vertex <= u32::MAX,
    ensures
        final(indices)@ == old(indices)@ + Seq::new(
            prim@.len(),
            |i: int| (prim@[i] + base_vertex) as u32,
        ),
        s.material == 0,
        s.index_start == old(indices)@.len() as u32,
        s.index_count == prim@.len() as u32,
{
    let index_start = indices.len() as u32;
    let ghost before = indices@;
    let mut k: usize = 0;
    while k < prim.len()
        invariant
            k <= prim@.len(),
            forall|i: int| 0 <= i < prim@.len() ==> #[trigger] prim@[i] + base_vertex <= u32::MAX,
            indices@ == before + Seq::new(k as nat, |i: int| (prim@[i] + base_vertex) as u32),
        decreases prim@.len() - k,
    {
        indices.push(prim[k] + base_vertex);
        assert(indices@ =~= before + Seq::new((k + 1) as nat, |i: int| (prim@[i] + base_vertex) as u32));
        k = k + 1;
    }
    assert(Seq::new(k as nat, |i: int| (prim@[i] + base_vertex) as u32) =~= Seq::new(
        prim@.len(),
        |i: int| (prim@[i] + base_vertex) as u32,
    ));
    Submesh { material: 0, index_start, index_count: prim.len() as u32 }
}

} // verus!
