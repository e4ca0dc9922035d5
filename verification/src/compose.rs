//! The composer: walk the whole profile tree in depth-first order, collect
//! the id of every node whose own activation flag is on — a folder's flag
//! never gates its children — fetch each collected id's content blob, and
//! concatenate the found blobs, each under a marker naming its source id,
//! separated by blank lines.

use vstd::prelude::*;

use crate::model::{lemma_nodes_view_index, lemma_nodes_view_len, node_view, nodes_view,
    strings_view, NodeV, ProfileNode};

verus! {

broadcast use vstd::std_specs::vec::group_vec_axioms;

/// One content blob, keyed by the id of the profile it belongs to.
pub struct ContentEntry {
    pub id: String,
    pub text: String,
}

/// The in-memory content store: one opaque text blob per profile id, the
/// image of the per-id blob files on disk.
pub struct ContentStore {
    pub entries: Vec<ContentEntry>,
}

/// The map a sequence of entries denotes; a later entry would win, though a
/// well-formed store never holds a key twice.
pub open spec fn store_map(es: Seq<ContentEntry>) -> Map<Seq<char>, Seq<char>>
    decreases es.len(),
{
    if es.len() == 0 {
        Map::empty()
    } else {
        store_map(es.drop_last()).insert(es.last().id@, es.last().text@)
    }
}

impl View for ContentStore {
    type V = Map<Seq<char>, Seq<char>>;

    open spec fn view(&self) -> Map<Seq<char>, Seq<char>> {
        store_map(self.entries@)
    }
}

impl ContentStore {
    /// No id occurs twice.
    pub open spec fn wf(&self) -> bool {
        forall|i: int, j: int|
            0 <= i < j < self.entries@.len() ==> self.entries@[i].id@ != self.entries@[j].id@
    }

    /// An empty store.
    pub fn new() -> (r: ContentStore)
        ensures
            r.wf(),
            r@ == Map::<Seq<char>, Seq<char>>::empty(),
    {
        let r = ContentStore { entries: Vec::new() };
        proof {
            assert(r@ =~= Map::<Seq<char>, Seq<char>>::empty());
        }
        r
    }

    /// The blob stored under `id`, if any.
    pub fn get(&self, id: &String) -> (r: Option<&String>)
        requires
            self.wf(),
        ensures
            match r {
                Option::Some(t) => self@.contains_key(id@) && self@[id@] == t@,
                Option::None => !self@.contains_key(id@),
            },
    {
        let mut i: usize = 0;
        while i < self.entries.len()
            invariant
                0 <= i <= self.entries@.len(),
                self.wf(),
                forall|j: int| 0 <= j < i ==> self.entries@[j].id@ != id@,
            decreases self.entries@.len() - i,
        {
            if self.entries[i].id == *id {
                proof {
                    lemma_store_map_found(self.entries@, i as int);
                }
                return Some(&self.entries[i].text);
            }
            i = i + 1;
        }
        proof {
            lemma_store_map_missing(self.entries@, id@);
        }
        None
    }

    /// Store `text` under `id`, overwriting any earlier blob for that id.
    pub fn set(&mut self, id: &String, text: String) -> (r: bool)
        requires
            old(self).wf(),
        ensures
            r == true,
            final(self).wf(),
            final(self)@ == old(self)@.insert(id@, text@),
    {
        let mut i: usize = 0;
        while i < self.entries.len()
            invariant
                0 <= i <= self.entries@.len(),
                self.wf(),
                self == old(self),
                forall|j: int| 0 <= j < i ==> self.entries@[j].id@ != id@,
            decreases self.entries@.len() - i,
        {
            if self.entries[i].id == *id {
                let ghost pre = self.entries@;
                let entry = ContentEntry { id: self.entries[i].id.clone(), text };
                self.entries.set(i, entry);
                proof {
                    assert(self.entries@ =~= pre.update(i as int, entry));
                    assert(self.entries@[i as int].id@ == id@);
                    assert(self.entries@[i as int].text@ == text@);
                    lemma_store_map_update(pre, self.entries@, i as int);
                    assert forall|a: int, b: int|
                        0 <= a < b < self.entries@.len() implies self.entries@[a].id@
                        != self.entries@[b].id@ by {
                        assert(pre[a].id@ == self.entries@[a].id@ || a == i);
                        assert(pre[b].id@ == self.entries@[b].id@ || b == i);
                    };
                }
                return true;
            }
            i = i + 1;
        }
        let ghost pre = self.entries@;
        let entry = ContentEntry { id: id.clone(), text };
        self.entries.push(entry);
        proof {
            assert(self.entries@.drop_last() =~= pre);
            assert(store_map(self.entries@) == store_map(pre).insert(id@, text@));
            assert forall|a: int, b: int|
                0 <= a < b < self.entries@.len() implies self.entries@[a].id@
                != self.entries@[b].id@ by {
                if b < self.entries@.len() - 1 {
                    assert(pre[a].id@ != pre[b].id@);
                } else {
                    assert(pre[a].id@ != id@);
                }
            };
        }
        true
    }
}

/// In a store without duplicate ids, the entry found by a scan is the map's
/// value at its id.
proof fn lemma_store_map_found(es: Seq<ContentEntry>, i: int)
    requires
        0 <= i < es.len(),
        forall|a: int, b: int| 0 <= a < b < es.len() ==> es[a].id@ != es[b].id@,
    ensures
        store_map(es).contains_key(es[i].id@),
        store_map(es)[es[i].id@] == es[i].text@,
    decreases es.len(),
{
    if i == es.len() - 1 {
    } else {
        assert(es.last().id@ != es[i].id@);
        assert forall|a: int, b: int|
            0 <= a < b < es.drop_last().len() implies es.drop_last()[a].id@
            != es.drop_last()[b].id@ by {
            assert(es.drop_last()[a] == es[a]);
            assert(es.drop_last()[b] == es[b]);
        };
        lemma_store_map_found(es.drop_last(), i);
        assert(es.drop_last()[i] == es[i]);
    }
}

/// An id no entry carries is not in the map.
proof fn lemma_store_map_missing(es: Seq<ContentEntry>, id: Seq<char>)
    requires
        forall|j: int| 0 <= j < es.len() ==> es[j].id@ != id,
    ensures
        !store_map(es).contains_key(id),
    decreases es.len(),
{
    if es.len() > 0 {
        assert(es[es.len() - 1].id@ != id);
        assert forall|j: int| 0 <= j < es.drop_last().len() implies es.drop_last()[j].id@
            != id by {
            assert(es.drop_last()[j] == es[j]);
        };
        lemma_store_map_missing(es.drop_last(), id);
    }
}

/// Overwriting the one entry that carries a key updates the map at that key.
proof fn lemma_store_map_update(es: Seq<ContentEntry>, es2: Seq<ContentEntry>, i: int)
    requires
        0 <= i < es.len(),
        es2.len() == es.len(),
        forall|j: int| 0 <= j < es.len() && j != i ==> es2[j] == es[j],
        es2[i].id@ == es[i].id@,
        forall|a: int, b: int| 0 <= a < b < es.len() ==> es[a].id@ != es[b].id@,
    ensures
        store_map(es2) == store_map(es).insert(es2[i].id@, es2[i].text@),
    decreases es.len(),
{
    if i == es.len() - 1 {
        assert(es2.drop_last() =~= es.drop_last());
        assert(store_map(es2) == store_map(es.drop_last()).insert(es2[i].id@, es2[i].text@));
        assert(store_map(es2) =~= store_map(es).insert(es2[i].id@, es2[i].text@));
    } else {
        assert forall|a: int, b: int|
            0 <= a < b < es.drop_last().len() implies es.drop_last()[a].id@
            != es.drop_last()[b].id@ by {
            assert(es.drop_last()[a] == es[a]);
            assert(es.drop_last()[b] == es[b]);
        };
        assert forall|j: int| 0 <= j < es.drop_last().len() && j != i implies es2.drop_last()[j]
            == es.drop_last()[j] by {
            assert(es2.drop_last()[j] == es2[j]);
            assert(es.drop_last()[j] == es[j]);
        };
        assert(es2.drop_last()[i] == es2[i]);
        assert(es.drop_last()[i] == es[i]);
        lemma_store_map_update(es.drop_last(), es2.drop_last(), i);
        assert(es2.last() == es.last());
        assert(es.last().id@ != es[i].id@);
        assert(store_map(es2) == store_map(es.drop_last()).insert(es2[i].id@,
            es2[i].text@).insert(es.last().id@, es.last().text@));
        assert(store_map(es2) =~= store_map(es).insert(es2[i].id@, es2[i].text@));
    }
}

/// Depth-first active-id collection over one node: the node's own id when its
/// flag is on, then whatever its children contribute; a folder's flag does
/// not gate its children.
pub open spec fn active_ids_node(n: NodeV) -> Seq<Seq<char>>
    decreases n, 0int,
{
    (if n.on {
        seq![n.id]
    } else {
        Seq::empty()
    }) + active_ids_list(n.children)
}

/// Depth-first active-id collection over a sequence of nodes, in order.
pub open spec fn active_ids_list(ts: Seq<NodeV>) -> Seq<Seq<char>>
    decreases ts, 1int,
{
    if ts.len() == 0 {
        Seq::empty()
    } else {
        active_ids_node(ts[0]) + active_ids_list(ts.drop_first())
    }
}

/// The traversal's flattening is deliberate: a folder's own flag adds or
/// removes only the folder's own id, and its children contribute the same
/// ids either way.
pub proof fn lemma_folder_flag_does_not_gate_children(n: NodeV)
    ensures
        active_ids_node(NodeV { on: true, ..n }) == seq![n.id] + active_ids_list(n.children),
        active_ids_node(NodeV { on: false, ..n }) == active_ids_list(n.children),
{
    assert(active_ids_node(NodeV { on: false, ..n }) =~= active_ids_list(n.children));
}

/// An empty tree composes to the empty document.
pub proof fn lemma_compose_empty(m: Map<Seq<char>, Seq<char>>)
    ensures
        spec_compose(Seq::empty(), m) == Seq::<char>::empty(),
{
    assert(active_ids_list(Seq::empty()) =~= Seq::<Seq<char>>::empty());
    assert(spec_sections(Seq::empty(), m) =~= Seq::<Seq<char>>::empty());
}

fn collect_node_ids(n: &ProfileNode, out: &mut Vec<String>)
    ensures
        strings_view(final(out)@) == strings_view(old(out)@) + active_ids_node(node_view(*n)),
    decreases *n, 0int,
{
    let ghost head: Seq<Seq<char>> = if n.on {
        seq![n.id@]
    } else {
        Seq::empty()
    };
    if n.on {
        let ghost pre = strings_view(out@);
        out.push(n.id.clone());
        proof {
            assert(strings_view(out@) =~= pre.push(n.id@));
            assert(strings_view(out@) =~= strings_view(old(out)@) + head);
        }
    } else {
        proof {
            assert(strings_view(out@) =~= strings_view(old(out)@) + head);
        }
    }
    let ghost mid = strings_view(out@);
    collect_nodes_ids(&n.children, 0, out);
    proof {
        assert(nodes_view(n.children@).subrange(0, nodes_view(n.children@).len() as int)
            =~= nodes_view(n.children@));
        assert(strings_view(out@) == mid + active_ids_list(nodes_view(n.children@)));
        assert(strings_view(out@) =~= strings_view(old(out)@) + active_ids_node(node_view(*n)));
    }
}

fn collect_nodes_ids(ns: &Vec<ProfileNode>, from: usize, out: &mut Vec<String>)
    requires
        from <= ns@.len(),
    ensures
        strings_view(final(out)@) == strings_view(old(out)@) + active_ids_list(
            nodes_view(ns@).subrange(from as int, nodes_view(ns@).len() as int),
        ),
    decreases *ns, ns@.len() - from, 1int,
{
    proof {
        lemma_nodes_view_len(ns@);
    }
    let ghost ts = nodes_view(ns@);
    if from < ns.len() {
        proof {
            lemma_nodes_view_index(ns@, from as int);
            assert(ts.subrange(from as int, ts.len() as int)[0] == ts[from as int]);
            assert(ts.subrange(from as int, ts.len() as int).drop_first() =~= ts.subrange(
                from + 1,
                ts.len() as int,
            ));
            assert(decreases_to!(*ns => ns@));
            assert(decreases_to!(ns@ => ns@[from as int]));
        }
        let ghost mid0 = strings_view(out@);
        collect_node_ids(&ns[from], out);
        let ghost mid1 = strings_view(out@);
        collect_nodes_ids(ns, from + 1, out);
        proof {
            assert(strings_view(out@) == mid1 + active_ids_list(ts.subrange(from + 1,
                ts.len() as int)));
            assert(strings_view(out@) =~= strings_view(old(out)@) + active_ids_list(ts.subrange(
                from as int,
                ts.len() as int,
            )));
        }
    } else {
        proof {
            assert(ts.subrange(from as int, ts.len() as int).len() == 0);
            assert(strings_view(out@) =~= strings_view(old(out)@) + active_ids_list(ts.subrange(
                from as int,
                ts.len() as int,
            )));
        }
    }
}

/// Every id collected by the depth-first walk: each node whose own flag is
/// on contributes its id, in traversal order.
pub fn collect_active_ids(tree: &Vec<ProfileNode>) -> (r: Vec<String>)
    ensures
        strings_view(r@) == active_ids_list(nodes_view(tree@)),
{
    let mut out: Vec<String> = Vec::new();
    proof {
        lemma_nodes_view_len(tree@);
    }
    collect_nodes_ids(tree, 0, &mut out);
    proof {
        assert(nodes_view(tree@).subrange(0, nodes_view(tree@).len() as int)
            =~= nodes_view(tree@));
        assert(strings_view(out@) =~= active_ids_list(nodes_view(tree@)));
    }
    out
}

/// One included blob: a marker naming its source id, a line break, and the
/// blob itself.
pub open spec fn blob_section(id: Seq<char>, text: Seq<char>) -> Seq<char> {
    seq!['#', ' ', 'f', 'i', 'l', 'e', ':', ' '] + id + seq!['\n'] + text
}

/// The sections of a composition: one per collected id whose blob exists;
/// ids without a blob are skipped silently.
pub open spec fn spec_sections(
    ids: Seq<Seq<char>>,
    m: Map<Seq<char>, Seq<char>>,
) -> Seq<Seq<char>>
    decreases ids.len(),
{
    if ids.len() == 0 {
        Seq::empty()
    } else {
        (if m.contains_key(ids[0]) {
            seq![blob_section(ids[0], m[ids[0]])]
        } else {
            Seq::empty()
        }) + spec_sections(ids.drop_first(), m)
    }
}

/// Concatenation with a blank line between neighbouring pieces.
pub open spec fn join_blank(ss: Seq<Seq<char>>) -> Seq<char>
    decreases ss.len(),
{
    if ss.len() == 0 {
        Seq::empty()
    } else if ss.len() == 1 {
        ss[0]
    } else {
        ss[0] + seq!['\n', '\n'] + join_blank(ss.drop_first())
    }
}

/// The composed document of a tree against a content store: the sections of
/// its active ids, joined by blank lines; empty when nothing is active.
pub open spec fn spec_compose(ts: Seq<NodeV>, m: Map<Seq<char>, Seq<char>>) -> Seq<char> {
    join_blank(spec_sections(active_ids_list(ts), m))
}

/// Compose the document of the active profiles of `tree` against `store`.
pub fn get_content_of_list(tree: &Vec<ProfileNode>, store: &ContentStore) -> (r: String)
    requires
        store.wf(),
    ensures
        r@ == spec_compose(nodes_view(tree@), store@),
{
    let ids = collect_active_ids(tree);
    let ghost idsv = strings_view(ids@);
    let mut secs: Vec<String> = Vec::new();
    let mut i: usize = 0;
    proof {
        assert(idsv.subrange(0, idsv.len() as int) =~= idsv);
        assert(strings_view(secs@) =~= Seq::<Seq<char>>::empty());
    }
    while i < ids.len()
        invariant
            0 <= i <= ids@.len(),
            idsv == strings_view(ids@),
            idsv.len() == ids@.len(),
            store.wf(),
            spec_sections(idsv, store@) == strings_view(secs@) + spec_sections(
                idsv.subrange(i as int, idsv.len() as int),
                store@,
            ),
        decreases ids@.len() - i,
    {
        proof {
            assert(idsv.subrange(i as int, idsv.len() as int)[0] == ids@[i as int]@);
            assert(idsv.subrange(i as int, idsv.len() as int).drop_first() =~= idsv.subrange(
                i + 1,
                idsv.len() as int,
            ));
        }
        match store.get(&ids[i]) {
            Some(text) => {
                let mut sec = String::new();
                sec.append("# file: ");
                sec.append(ids[i].as_str());
                sec.append("\n");
                sec.append(text.as_str());
                proof {
                    reveal_strlit("# file: ");
                    reveal_strlit("\n");
                    assert("# file: "@ =~= seq!['#', ' ', 'f', 'i', 'l', 'e', ':', ' ']);
                    assert("\n"@ =~= seq!['\n']);
                    assert(sec@ =~= blob_section(ids@[i as int]@, store@[ids@[i as int]@]));
                }
                let ghost pre = strings_view(secs@);
                secs.push(sec);
                proof {
                    assert(strings_view(secs@) =~= pre.push(sec@));
                    assert(strings_view(secs@) =~= pre + seq![sec@]);
                    assert((pre + seq![sec@]) + spec_sections(
                        idsv.subrange(i + 1, idsv.len() as int),
                        store@,
                    ) =~= pre + (seq![sec@] + spec_sections(
                        idsv.subrange(i + 1, idsv.len() as int),
                        store@,
                    )));
                }
            },
            None => {
                proof {
                    assert(spec_sections(idsv.subrange(i as int, idsv.len() as int), store@)
                        =~= spec_sections(idsv.subrange(i + 1, idsv.len() as int), store@));
                }
            },
        }
        i = i + 1;
    }
    proof {
        assert(idsv.subrange(i as int, idsv.len() as int).len() == 0);
        assert(spec_sections(idsv, store@) =~= strings_view(secs@));
        assert(strings_view(secs@).subrange(0, secs@.len() as int) =~= strings_view(secs@));
    }
    join_blank_exec(&secs, 0)
}

fn join_blank_exec(secs: &Vec<String>, from: usize) -> (r: String)
    requires
        from <= secs@.len(),
    ensures
        r@ == join_blank(strings_view(secs@).subrange(from as int, secs@.len() as int)),
    decreases secs@.len() - from,
{
    let ghost sv = strings_view(secs@);
    let ghost tail = sv.subrange(from as int, sv.len() as int);
    if from >= secs.len() {
        proof {
            assert(tail.len() == 0);
        }
        String::new()
    } else if from == secs.len() - 1 {
        let r = secs[from].clone();
        proof {
            assert(tail[0] == sv[from as int]);
            assert(r@ == join_blank(tail));
        }
        r
    } else {
        let mut r = secs[from].clone();
        r.append("\n\n");
        let rest = join_blank_exec(secs, from + 1);
        r.append(rest.as_str());
        proof {
            reveal_strlit("\n\n");
            assert("\n\n"@ =~= seq!['\n', '\n']);
            assert(tail.drop_first() =~= sv.subrange(from + 1, sv.len() as int));
            assert(tail[0] == sv[from as int]);
            assert(r@ =~= join_blank(tail));
        }
        r
    }
}

} // verus!
