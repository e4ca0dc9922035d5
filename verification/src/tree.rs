//! Operations on the profile tree's top-level sequence: the shallow lookup
//! that the trash operations build on.

use vstd::prelude::*;

use crate::model::{lemma_nodes_view_index, lemma_nodes_view_len, node_view, nodes_view,
    ProfileNode, NodeV};

verus! {

/// The first node of the top-level sequence that carries `id`, if any.
/// The search is deliberately shallow: nodes nested inside folders are not
/// seen, mirroring the store's lookup the composer does not share.
pub open spec fn spec_find_top(ts: Seq<NodeV>, id: Seq<char>) -> Option<NodeV>
    decreases ts.len(),
{
    if ts.len() == 0 {
        Option::None
    } else if ts[0].id == id {
        Option::Some(ts[0])
    } else {
        spec_find_top(ts.drop_first(), id)
    }
}

/// There is a top-level node carrying `id`.
pub open spec fn has_top_match(ts: Seq<NodeV>, id: Seq<char>) -> bool {
    exists|i: int| 0 <= i < ts.len() && ts[i].id == id
}

pub proof fn lemma_find_top_iff_match(ts: Seq<NodeV>, id: Seq<char>)
    ensures
        spec_find_top(ts, id) is Some <==> has_top_match(ts, id),
    decreases ts.len(),
{
    if ts.len() > 0 {
        lemma_find_top_iff_match(ts.drop_first(), id);
        if ts[0].id == id {
            assert(has_top_match(ts, id));
        } else {
            if has_top_match(ts.drop_first(), id) {
                let i = choose|i: int| 0 <= i < ts.drop_first().len()
                    && ts.drop_first()[i].id == id;
                assert(ts[i + 1].id == id);
            }
            if has_top_match(ts, id) {
                let i = choose|i: int| 0 <= i < ts.len() && ts[i].id == id;
                assert(ts.drop_first()[i - 1].id == id);
            }
        }
    }
}

/// Shallow lookup of a node by id, over the top-level sequence only.
pub fn get_item_from_list<'a>(tree: &'a Vec<ProfileNode>, id: &String) -> (r: Option<
    &'a ProfileNode,
>)
    ensures
        match r {
            Option::Some(n) => spec_find_top(nodes_view(tree@), id@) == Option::Some(node_view(*n)),
            Option::None => spec_find_top(nodes_view(tree@), id@) is None,
        },
{
    proof {
        lemma_nodes_view_len(tree@);
    }
    let ghost ts = nodes_view(tree@);
    proof {
        assert(ts.subrange(0, ts.len() as int) =~= ts);
    }
    let mut i: usize = 0;
    while i < tree.len()
        invariant
            0 <= i <= tree.len(),
            ts == nodes_view(tree@),
            ts.len() == tree@.len(),
            spec_find_top(ts, id@) == spec_find_top(ts.subrange(i as int, ts.len() as int), id@),
        decreases tree.len() - i,
    {
        proof {
            lemma_nodes_view_index(tree@, i as int);
            assert(ts.subrange(i as int, ts.len() as int)[0] == ts[i as int]);
        }
        if tree[i].id == *id {
            proof {
                assert(spec_find_top(ts.subrange(i as int, ts.len() as int), id@)
                    == Option::Some(ts[i as int]));
            }
            return Some(&tree[i]);
        }
        proof {
            assert(ts.subrange(i as int, ts.len() as int).drop_first()
                =~= ts.subrange(i + 1, ts.len() as int));
        }
        i = i + 1;
    }
    proof {
        assert(ts.subrange(i as int, ts.len() as int).len() == 0);
    }
    None
}

} // verus!
