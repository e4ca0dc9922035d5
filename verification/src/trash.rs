//! The trash bin: moving top-level nodes out of the profile tree into
//! recoverable snapshots, restoring them to the tree root, and deleting them
//! for good. The move looks at the top level of the tree only; nodes nested
//! inside folders are out of its sight, and a proof below pins that down.

use vstd::prelude::*;

use crate::model::{lemma_nodes_view_index, lemma_nodes_view_len, node_view, nodes_view,
    trash_entry_view, trash_view, NodeV, ProfileNode, TrashEntry, TrashV};
use crate::tree::has_top_match;

verus! {

/// The top-level sequence with every node carrying `id` removed.
pub open spec fn spec_remove_top(ts: Seq<NodeV>, id: Seq<char>) -> Seq<NodeV>
    decreases ts.len(),
{
    if ts.len() == 0 {
        Seq::empty()
    } else if ts.last().id == id {
        spec_remove_top(ts.drop_last(), id)
    } else {
        spec_remove_top(ts.drop_last(), id).push(ts.last())
    }
}

/// The last top-level node carrying `id`, if any: the snapshot a move of that
/// id takes when several top-level nodes share it.
pub open spec fn spec_last_top_match(ts: Seq<NodeV>, id: Seq<char>) -> Option<NodeV>
    decreases ts.len(),
{
    if ts.len() == 0 {
        Option::None
    } else if ts.last().id == id {
        Option::Some(ts.last())
    } else {
        spec_last_top_match(ts.drop_last(), id)
    }
}

/// The node as the trash snapshots it: its activation flag forced off.
pub open spec fn spec_node_off(n: NodeV) -> NodeV {
    NodeV { on: false, ..n }
}

/// The trash after a move of `id` out of a tree whose top level read `ts`:
/// unchanged when nothing matched, else the snapshot appended, timestamped
/// and marked as taken from the top level.
pub open spec fn spec_trash_after_move(
    tv: Seq<TrashV>,
    ts: Seq<NodeV>,
    id: Seq<char>,
    now_ms: u64,
) -> Seq<TrashV> {
    match spec_last_top_match(ts, id) {
        Option::None => tv,
        Option::Some(n) => tv.push(
            TrashV { data: spec_node_off(n), add_time_ms: now_ms, parent_id: Option::None },
        ),
    }
}

/// The trash with every entry whose node carries `id` removed.
pub open spec fn spec_remove_trash(tv: Seq<TrashV>, id: Seq<char>) -> Seq<TrashV>
    decreases tv.len(),
{
    if tv.len() == 0 {
        Seq::empty()
    } else if tv.last().data.id == id {
        spec_remove_trash(tv.drop_last(), id)
    } else {
        spec_remove_trash(tv.drop_last(), id).push(tv.last())
    }
}

/// The last trash entry whose node carries `id`, if any: the snapshot a
/// restore of that id brings back.
pub open spec fn spec_last_trash_match(tv: Seq<TrashV>, id: Seq<char>) -> Option<TrashV>
    decreases tv.len(),
{
    if tv.len() == 0 {
        Option::None
    } else if tv.last().data.id == id {
        Option::Some(tv.last())
    } else {
        spec_last_trash_match(tv.drop_last(), id)
    }
}

/// Some trash entry's node carries `id`.
pub open spec fn has_trash_match(tv: Seq<TrashV>, id: Seq<char>) -> bool {
    exists|i: int| 0 <= i < tv.len() && tv[i].data.id == id
}

pub proof fn lemma_last_top_match_iff(ts: Seq<NodeV>, id: Seq<char>)
    ensures
        spec_last_top_match(ts, id) is Some <==> has_top_match(ts, id),
        spec_last_top_match(ts, id) matches Option::Some(n) ==> n.id == id,
    decreases ts.len(),
{
    if ts.len() > 0 {
        lemma_last_top_match_iff(ts.drop_last(), id);
        if ts.last().id == id {
            assert(ts[ts.len() - 1].id == id);
        } else {
            if has_top_match(ts.drop_last(), id) {
                let i = choose|i: int| 0 <= i < ts.len() - 1 && ts.drop_last()[i].id == id;
                assert(ts[i].id == id);
            }
            if has_top_match(ts, id) {
                let i = choose|i: int| 0 <= i < ts.len() && ts[i].id == id;
                assert(ts.drop_last()[i].id == id);
            }
        }
    }
}

pub proof fn lemma_last_trash_match_iff(tv: Seq<TrashV>, id: Seq<char>)
    ensures
        spec_last_trash_match(tv, id) is Some <==> has_trash_match(tv, id),
        spec_last_trash_match(tv, id) matches Option::Some(e) ==> e.data.id == id,
    decreases tv.len(),
{
    if tv.len() > 0 {
        lemma_last_trash_match_iff(tv.drop_last(), id);
        if tv.last().data.id == id {
            assert(tv[tv.len() - 1].data.id == id);
        } else {
            if has_trash_match(tv.drop_last(), id) {
                let i = choose|i: int| 0 <= i < tv.len() - 1 && tv.drop_last()[i].data.id == id;
                assert(tv[i].data.id == id);
            }
            if has_trash_match(tv, id) {
                let i = choose|i: int| 0 <= i < tv.len() && tv[i].data.id == id;
                assert(tv.drop_last()[i].data.id == id);
            }
        }
    }
}

/// Every node the removal keeps misses `id`.
pub proof fn lemma_remove_trash_no_match(tv: Seq<TrashV>, id: Seq<char>)
    ensures
        forall|i: int| 0 <= i < spec_remove_trash(tv, id).len()
            ==> #[trigger] spec_remove_trash(tv, id)[i].data.id != id,
    decreases tv.len(),
{
    if tv.len() > 0 {
        lemma_remove_trash_no_match(tv.drop_last(), id);
    }
}

/// Move the top-level node carrying `id` out of the tree and into the trash,
/// its activation flag forced off and the removal timestamped `now_ms`.
/// Nothing nested inside a folder is looked at. Returns success even when no
/// node matched, as the store's contract has it.
pub fn move_to_trashcan(
    tree: &mut Vec<ProfileNode>,
    trash: &mut Vec<TrashEntry>,
    id: &String,
    now_ms: u64,
) -> (r: bool)
    ensures
        r == true,
        nodes_view(final(tree)@) == spec_remove_top(nodes_view(old(tree)@), id@),
        trash_view(final(trash)@) == spec_trash_after_move(
            trash_view(old(trash)@),
            nodes_view(old(tree)@),
            id@,
            now_ms,
        ),
{
    proof {
        lemma_nodes_view_len(tree@);
    }
    let ghost orig = nodes_view(tree@);
    let mut kept: Vec<ProfileNode> = Vec::new();
    let mut removed: Option<ProfileNode> = None;
    let ghost mut k: int = 0;
    proof {
        assert(nodes_view(tree@) =~= orig.subrange(0, orig.len() as int));
    }
    while tree.len() > 0
        invariant
            0 <= k <= orig.len(),
            nodes_view(tree@) =~= orig.subrange(k, orig.len() as int),
            tree@.len() == orig.len() - k,
            nodes_view(kept@) == spec_remove_top(orig.subrange(0, k), id@),
            match removed {
                Option::Some(n) => spec_last_top_match(orig.subrange(0, k), id@)
                    == Option::Some(node_view(n)),
                Option::None => spec_last_top_match(orig.subrange(0, k), id@) is None,
            },
        decreases tree.len(),
    {
        let ghost pre = tree@;
        let n = tree.remove(0);
        proof {
            lemma_nodes_view_len(pre);
            lemma_nodes_view_index(pre, 0);
            assert(node_view(n) == nodes_view(pre)[0]);
            assert(node_view(n) == orig[k]);
            assert(tree@ =~= pre.drop_first());
            lemma_nodes_view_len(tree@);
            assert forall|j: int| 0 <= j < tree@.len() implies #[trigger] nodes_view(tree@)[j]
                == orig.subrange(k + 1, orig.len() as int)[j] by {
                lemma_nodes_view_index(tree@, j);
                lemma_nodes_view_index(pre, j + 1);
                assert(tree@[j] == pre[j + 1]);
                assert(nodes_view(pre)[j + 1] == orig.subrange(k, orig.len() as int)[j + 1]);
            };
            assert(nodes_view(tree@) =~= orig.subrange(k + 1, orig.len() as int));
            assert(orig.subrange(0, k + 1).drop_last() =~= orig.subrange(0, k));
            assert(orig.subrange(0, k + 1).last() == orig[k]);
        }
        if n.id == *id {
            proof {
                assert(node_view(n).id == id@);
                assert(spec_last_top_match(orig.subrange(0, k + 1), id@)
                    == Option::Some(node_view(n)));
                assert(spec_remove_top(orig.subrange(0, k + 1), id@)
                    == spec_remove_top(orig.subrange(0, k), id@));
            }
            removed = Some(n);
        } else {
            proof {
                assert(node_view(n).id != id@);
            }
            let ghost old_kept = kept@;
            kept.push(n);
            proof {
                assert(kept@.drop_last() =~= old_kept);
                assert(kept@.last() == n);
                assert(nodes_view(kept@) == nodes_view(old_kept).push(node_view(n)));
                assert(spec_remove_top(orig.subrange(0, k + 1), id@)
                    == spec_remove_top(orig.subrange(0, k), id@).push(orig[k]));
            }
        }
        proof {
            k = k + 1;
        }
    }
    proof {
        assert(orig.subrange(0, k) =~= orig);
    }
    let mut kept = kept;
    core::mem::swap(tree, &mut kept);
    match removed {
        Some(n) => {
            let ghost before = node_view(n);
            let mut n = n;
            n.on = false;
            proof {
                assert(node_view(n) =~= spec_node_off(before));
            }
            let entry = TrashEntry { data: n, add_time_ms: now_ms, parent_id: None };
            let ghost old_tv = trash_view(trash@);
            trash.push(entry);
            proof {
                assert(trash_view(trash@) =~= old_tv.push(trash_entry_view(entry)));
            }
        },
        None => {},
    }
    true
}

/// The pair of tree and trash after moving each id of a batch in turn.
pub open spec fn spec_move_many(
    ts: Seq<NodeV>,
    tv: Seq<TrashV>,
    ids: Seq<Seq<char>>,
    now_ms: u64,
) -> (Seq<NodeV>, Seq<TrashV>)
    decreases ids.len(),
{
    if ids.len() == 0 {
        (ts, tv)
    } else {
        spec_move_many(
            spec_remove_top(ts, ids[0]),
            spec_trash_after_move(tv, ts, ids[0], now_ms),
            ids.drop_first(),
            now_ms,
        )
    }
}

/// Move each id of the batch to the trash in turn, all stamped `now_ms`.
pub fn move_many_to_trashcan(
    tree: &mut Vec<ProfileNode>,
    trash: &mut Vec<TrashEntry>,
    ids: &Vec<String>,
    now_ms: u64,
) -> (r: bool)
    ensures
        r == true,
        spec_move_many(
            nodes_view(old(tree)@),
            trash_view(old(trash)@),
            crate::model::strings_view(ids@),
            now_ms,
        ) == (nodes_view(final(tree)@), trash_view(final(trash)@)),
{
    let ghost idsv = crate::model::strings_view(ids@);
    let mut i: usize = 0;
    proof {
        assert(idsv.subrange(0, idsv.len() as int) =~= idsv);
    }
    while i < ids.len()
        invariant
            0 <= i <= ids.len(),
            idsv == crate::model::strings_view(ids@),
            idsv.len() == ids@.len(),
            spec_move_many(
                nodes_view(old(tree)@),
                trash_view(old(trash)@),
                idsv,
                now_ms,
            ) == spec_move_many(
                nodes_view(tree@),
                trash_view(trash@),
                idsv.subrange(i as int, idsv.len() as int),
                now_ms,
            ),
        decreases ids.len() - i,
    {
        proof {
            assert(idsv.subrange(i as int, idsv.len() as int)[0] == ids@[i as int]@);
            assert(idsv.subrange(i as int, idsv.len() as int).drop_first()
                =~= idsv.subrange(i + 1, idsv.len() as int));
        }
        let _ = move_to_trashcan(tree, trash, &ids[i], now_ms);
        i = i + 1;
    }
    proof {
        assert(idsv.subrange(i as int, idsv.len() as int).len() == 0);
    }
    true
}

/// Take the last trash entry whose node carries `id` out of the trash and
/// append its node, with the activation flag it was trashed with, to the tree
/// root; the original folder placement is not reconstructed. Returns whether
/// a match was found.
pub fn restore_item_from_trashcan(
    tree: &mut Vec<ProfileNode>,
    trash: &mut Vec<TrashEntry>,
    id: &String,
) -> (found: bool)
    ensures
        found == spec_last_trash_match(trash_view(old(trash)@), id@) is Some,
        trash_view(final(trash)@) == spec_remove_trash(trash_view(old(trash)@), id@),
        nodes_view(final(tree)@) == match spec_last_trash_match(trash_view(old(trash)@), id@) {
            Option::None => nodes_view(old(tree)@),
            Option::Some(e) => nodes_view(old(tree)@).push(e.data),
        },
{
    let ghost orig = trash_view(trash@);
    let mut kept: Vec<TrashEntry> = Vec::new();
    let mut restored: Option<TrashEntry> = None;
    let ghost mut k: int = 0;
    proof {
        assert(trash_view(trash@) =~= orig.subrange(0, orig.len() as int));
    }
    while trash.len() > 0
        invariant
            0 <= k <= orig.len(),
            trash_view(trash@) =~= orig.subrange(k, orig.len() as int),
            trash@.len() == orig.len() - k,
            trash_view(kept@) == spec_remove_trash(orig.subrange(0, k), id@),
            match restored {
                Option::Some(e) => spec_last_trash_match(orig.subrange(0, k), id@)
                    == Option::Some(trash_entry_view(e)),
                Option::None => spec_last_trash_match(orig.subrange(0, k), id@) is None,
            },
        decreases trash.len(),
    {
        let ghost pre = trash@;
        let e = trash.remove(0);
        proof {
            assert(trash_entry_view(e) == trash_view(pre)[0]);
            assert(trash_entry_view(e) == orig[k]);
            assert(trash@ =~= pre.drop_first());
            assert forall|j: int| 0 <= j < trash@.len() implies #[trigger] trash_view(trash@)[j]
                == orig.subrange(k + 1, orig.len() as int)[j] by {
                assert(trash@[j] == pre[j + 1]);
                assert(trash_view(pre)[j + 1] == orig.subrange(k, orig.len() as int)[j + 1]);
            };
            assert(trash_view(trash@) =~= orig.subrange(k + 1, orig.len() as int));
            assert(orig.subrange(0, k + 1).drop_last() =~= orig.subrange(0, k));
            assert(orig.subrange(0, k + 1).last() == orig[k]);
        }
        if e.data.id == *id {
            proof {
                assert(trash_entry_view(e).data.id == id@);
                assert(spec_last_trash_match(orig.subrange(0, k + 1), id@)
                    == Option::Some(trash_entry_view(e)));
                assert(spec_remove_trash(orig.subrange(0, k + 1), id@)
                    == spec_remove_trash(orig.subrange(0, k), id@));
            }
            restored = Some(e);
        } else {
            proof {
                assert(trash_entry_view(e).data.id != id@);
            }
            let ghost old_kept = kept@;
            kept.push(e);
            proof {
                assert(kept@.drop_last() =~= old_kept);
                assert(trash_view(kept@) =~= trash_view(old_kept).push(trash_entry_view(e)));
                assert(spec_remove_trash(orig.subrange(0, k + 1), id@)
                    == spec_remove_trash(orig.subrange(0, k), id@).push(orig[k]));
            }
        }
        proof {
            k = k + 1;
        }
    }
    proof {
        assert(orig.subrange(0, k) =~= orig);
    }
    let mut kept = kept;
    core::mem::swap(trash, &mut kept);
    match restored {
        Some(e) => {
            let ghost old_tree = tree@;
            let ghost ev = trash_entry_view(e);
            tree.push(e.data);
            proof {
                assert(tree@.drop_last() =~= old_tree);
                assert(tree@.last() == e.data);
                assert(nodes_view(tree@) == nodes_view(old_tree).push(ev.data));
            }
            true
        },
        None => false,
    }
}

/// Permanently delete every trash entry whose node carries `id`; returns
/// whether anything was removed.
pub fn delete_item_from_trashcan(trash: &mut Vec<TrashEntry>, id: &String) -> (changed: bool)
    ensures
        trash_view(final(trash)@) == spec_remove_trash(trash_view(old(trash)@), id@),
        changed == has_trash_match(trash_view(old(trash)@), id@),
{
    let ghost orig = trash_view(trash@);
    let mut kept: Vec<TrashEntry> = Vec::new();
    let mut hit: bool = false;
    let ghost mut k: int = 0;
    proof {
        assert(trash_view(trash@) =~= orig.subrange(0, orig.len() as int));
    }
    while trash.len() > 0
        invariant
            0 <= k <= orig.len(),
            trash_view(trash@) =~= orig.subrange(k, orig.len() as int),
            trash@.len() == orig.len() - k,
            trash_view(kept@) == spec_remove_trash(orig.subrange(0, k), id@),
            hit == has_trash_match(orig.subrange(0, k), id@),
        decreases trash.len(),
    {
        let ghost pre = trash@;
        let e = trash.remove(0);
        proof {
            assert(trash_entry_view(e) == trash_view(pre)[0]);
            assert(trash_entry_view(e) == orig[k]);
            assert(trash@ =~= pre.drop_first());
            assert forall|j: int| 0 <= j < trash@.len() implies #[trigger] trash_view(trash@)[j]
                == orig.subrange(k + 1, orig.len() as int)[j] by {
                assert(trash@[j] == pre[j + 1]);
                assert(trash_view(pre)[j + 1] == orig.subrange(k, orig.len() as int)[j + 1]);
            };
            assert(trash_view(trash@) =~= orig.subrange(k + 1, orig.len() as int));
            assert(orig.subrange(0, k + 1).drop_last() =~= orig.subrange(0, k));
            assert(orig.subrange(0, k + 1).last() == orig[k]);
        }
        if e.data.id == *id {
            hit = true;
            proof {
                assert(trash_entry_view(e).data.id == id@);
                assert(orig.subrange(0, k + 1)[k].data.id == id@);
                assert(has_trash_match(orig.subrange(0, k + 1), id@));
                assert(spec_remove_trash(orig.subrange(0, k + 1), id@)
                    == spec_remove_trash(orig.subrange(0, k), id@));
            }
        } else {
            proof {
                assert(trash_entry_view(e).data.id != id@);
            }
            let ghost old_kept = kept@;
            kept.push(e);
            proof {
                assert(kept@.drop_last() =~= old_kept);
                assert(trash_view(kept@) =~= trash_view(old_kept).push(trash_entry_view(e)));
                assert(spec_remove_trash(orig.subrange(0, k + 1), id@)
                    == spec_remove_trash(orig.subrange(0, k), id@).push(orig[k]));
            }
        }
        proof {
            if hit {
                if trash_entry_view(e).data.id == id@ {
                    assert(orig.subrange(0, k + 1)[k].data.id == id@);
                } else {
                    let i = choose|i: int| 0 <= i < k && orig.subrange(0, k)[i].data.id == id@;
                    assert(orig.subrange(0, k + 1)[i] == orig.subrange(0, k)[i]);
                    assert(orig.subrange(0, k + 1)[i].data.id == id@);
                }
                assert(has_trash_match(orig.subrange(0, k + 1), id@));
            } else {
                assert(!has_trash_match(orig.subrange(0, k + 1), id@)) by {
                    assert forall|i: int| 0 <= i < k + 1 implies #[trigger] orig.subrange(
                        0,
                        k + 1,
                    )[i].data.id != id@ by {
                        assert(orig.subrange(0, k)[i] == orig.subrange(0, k + 1)[i] || i == k);
                    };
                };
            }
            k = k + 1;
        }
    }
    proof {
        assert(orig.subrange(0, k) =~= orig);
    }
    core::mem::swap(trash, &mut kept);
    hit
}

/// Empty the trash bin.
pub fn clear_trashcan(trash: &mut Vec<TrashEntry>) -> (r: bool)
    ensures
        r == true,
        final(trash)@.len() == 0,
{
    trash.clear();
    true
}

/// Moving an id that matches nothing at the top level — in particular one
/// that exists only nested inside a folder's children — leaves both the tree
/// and the trash exactly as they were.
pub proof fn lemma_move_nested_id_changes_nothing(
    ts: Seq<NodeV>,
    tv: Seq<TrashV>,
    id: Seq<char>,
    now_ms: u64,
)
    requires
        !has_top_match(ts, id),
    ensures
        spec_remove_top(ts, id) == ts,
        spec_trash_after_move(tv, ts, id, now_ms) == tv,
{
    lemma_last_top_match_iff(ts, id);
    lemma_remove_top_no_match(ts, id);
}

proof fn lemma_remove_top_no_match(ts: Seq<NodeV>, id: Seq<char>)
    requires
        !has_top_match(ts, id),
    ensures
        spec_remove_top(ts, id) == ts,
    decreases ts.len(),
{
    if ts.len() == 0 {
        assert(spec_remove_top(ts, id) =~= ts);
    } else {
        assert(!has_top_match(ts.drop_last(), id)) by {
            assert forall|i: int| 0 <= i < ts.len() - 1 implies #[trigger] ts.drop_last()[i].id
                != id by {
                assert(ts.drop_last()[i] == ts[i]);
            };
        };
        lemma_remove_top_no_match(ts.drop_last(), id);
        assert(ts[ts.len() - 1].id != id);
        assert(ts.last().id != id);
        assert(ts.drop_last().push(ts.last()) =~= ts);
    }
}

/// Moving a top-level id to the trash and then restoring that id brings the
/// node back: the tree again holds a node with that id, now switched off, and
/// the trash holds no entry with it.
pub proof fn lemma_move_then_restore(
    ts: Seq<NodeV>,
    tv: Seq<TrashV>,
    id: Seq<char>,
    now_ms: u64,
)
    requires
        has_top_match(ts, id),
    ensures
        ({
            let ts1 = spec_remove_top(ts, id);
            let tv1 = spec_trash_after_move(tv, ts, id, now_ms);
            let m = spec_last_trash_match(tv1, id);
            &&& m is Some
            &&& {
                let ts2 = ts1.push(m->Some_0.data);
                let tv2 = spec_remove_trash(tv1, id);
                &&& ts2.len() > 0
                &&& ts2.last().id == id
                &&& ts2.last().on == false
                &&& !has_trash_match(tv2, id)
            }
        }),
{
    lemma_last_top_match_iff(ts, id);
    let n = spec_last_top_match(ts, id)->Some_0;
    let tv1 = spec_trash_after_move(tv, ts, id, now_ms);
    assert(tv1.last().data.id == id);
    assert(spec_last_trash_match(tv1, id) == Option::Some(tv1.last()));
    let tv2 = spec_remove_trash(tv1, id);
    lemma_remove_trash_no_match(tv1, id);
    assert(!has_trash_match(tv2, id));
}

} // verus!
