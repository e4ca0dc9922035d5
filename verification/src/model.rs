//! Data model of the profile tree, the trash bin and the two history logs,
//! together with the mathematical views the contracts are stated over.

use vstd::prelude::*;

verus! {

/// Whether a node is a single profile (it has a content blob of its own) or a
/// folder that groups further nodes.
#[derive(Clone, Copy, PartialEq, Eq, Structural, Debug)]
pub enum NodeKind {
    Leaf,
    Folder,
}

/// One node of the profile tree: a profile or a folder. The `children`
/// sequence is meaningful for folders; a well-formed leaf has none, and every
/// operation and the codec treat the field uniformly, so even an ill-formed
/// value round-trips through the stores unchanged.
#[derive(Debug)]
pub struct ProfileNode {
    pub id: String,
    pub title: String,
    pub on: bool,
    pub kind: NodeKind,
    pub children: Vec<ProfileNode>,
}

/// The mathematical value of a `ProfileNode`.
#[verifier::ext_equal]
pub struct NodeV {
    pub id: Seq<char>,
    pub title: Seq<char>,
    pub on: bool,
    pub kind: NodeKind,
    pub children: Seq<NodeV>,
}

/// The mathematical value of a node: its strings as character sequences and
/// its children as a sequence of values.
pub open spec fn node_view(n: ProfileNode) -> NodeV
    decreases n,
{
    NodeV {
        id: n.id@,
        title: n.title@,
        on: n.on,
        kind: n.kind,
        children: nodes_view(n.children@),
    }
}

/// The values of a sequence of nodes, element by element.
pub open spec fn nodes_view(ns: Seq<ProfileNode>) -> Seq<NodeV>
    decreases ns,
{
    if ns.len() == 0 {
        Seq::empty()
    } else {
        nodes_view(ns.drop_last()).push(node_view(ns.last()))
    }
}

impl View for ProfileNode {
    type V = NodeV;

    open spec fn view(&self) -> NodeV {
        node_view(*self)
    }
}

pub broadcast proof fn lemma_nodes_view_len(ns: Seq<ProfileNode>)
    ensures
        #[trigger] nodes_view(ns).len() == ns.len(),
    decreases ns,
{
    if ns.len() > 0 {
        lemma_nodes_view_len(ns.drop_last());
    }
}

pub broadcast proof fn lemma_nodes_view_index(ns: Seq<ProfileNode>, i: int)
    requires
        0 <= i < ns.len(),
    ensures
        #[trigger] nodes_view(ns)[i] == node_view(ns[i]),
    decreases ns,
{
    lemma_nodes_view_len(ns);
    if ns.len() > 0 {
        lemma_nodes_view_len(ns.drop_last());
        if i < ns.len() - 1 {
            lemma_nodes_view_index(ns.drop_last(), i);
        }
    }
}

/// One removed node, wrapped with its provenance: when it was removed and the
/// id of its former containing folder (none when it stood at top level, which
/// is the only case the shallow move ever produces).
#[derive(Debug)]
pub struct TrashEntry {
    pub data: ProfileNode,
    pub add_time_ms: u64,
    pub parent_id: Option<String>,
}

/// The mathematical value of a `TrashEntry`.
#[verifier::ext_equal]
pub struct TrashV {
    pub data: NodeV,
    pub add_time_ms: u64,
    pub parent_id: Option<Seq<char>>,
}

pub open spec fn trash_entry_view(e: TrashEntry) -> TrashV {
    TrashV {
        data: node_view(e.data),
        add_time_ms: e.add_time_ms,
        parent_id: match e.parent_id {
            Option::None => Option::None,
            Option::Some(p) => Option::Some(p@),
        },
    }
}

pub open spec fn trash_view(es: Seq<TrashEntry>) -> Seq<TrashV> {
    es.map_values(|e: TrashEntry| trash_entry_view(e))
}

impl View for TrashEntry {
    type V = TrashV;

    open spec fn view(&self) -> TrashV {
        trash_entry_view(*self)
    }
}

/// One record of the append-only log of installed documents.
#[derive(Debug)]
pub struct HistoryEntry {
    pub id: String,
    pub content: String,
    pub add_time_ms: u64,
}

/// The mathematical value of a `HistoryEntry`.
#[verifier::ext_equal]
pub struct HistV {
    pub id: Seq<char>,
    pub content: Seq<char>,
    pub add_time_ms: u64,
}

pub open spec fn history_entry_view(e: HistoryEntry) -> HistV {
    HistV { id: e.id@, content: e.content@, add_time_ms: e.add_time_ms }
}

pub open spec fn history_view(es: Seq<HistoryEntry>) -> Seq<HistV> {
    es.map_values(|e: HistoryEntry| history_entry_view(e))
}

impl View for HistoryEntry {
    type V = HistV;

    open spec fn view(&self) -> HistV {
        history_entry_view(*self)
    }
}

/// One record of the command-hook log: the outcome of the shell command run
/// after a successful apply.
#[derive(Debug)]
pub struct CmdRecord {
    pub id: String,
    pub success: bool,
    pub stdout: String,
    pub stderr: String,
    pub add_time_ms: u64,
}

/// The mathematical value of a `CmdRecord`.
#[verifier::ext_equal]
pub struct CmdV {
    pub id: Seq<char>,
    pub success: bool,
    pub stdout: Seq<char>,
    pub stderr: Seq<char>,
    pub add_time_ms: u64,
}

pub open spec fn cmd_record_view(e: CmdRecord) -> CmdV {
    CmdV {
        id: e.id@,
        success: e.success,
        stdout: e.stdout@,
        stderr: e.stderr@,
        add_time_ms: e.add_time_ms,
    }
}

pub open spec fn cmd_view(es: Seq<CmdRecord>) -> Seq<CmdV> {
    es.map_values(|e: CmdRecord| cmd_record_view(e))
}

impl View for CmdRecord {
    type V = CmdV;

    open spec fn view(&self) -> CmdV {
        cmd_record_view(*self)
    }
}

/// The values of a sequence of strings.
pub open spec fn strings_view(ss: Seq<String>) -> Seq<Seq<char>> {
    ss.map_values(|s: String| s@)
}

} // verus!
