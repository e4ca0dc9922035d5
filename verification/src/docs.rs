//! The persisted document formats: the profile tree, the trash bin and the
//! history log each serialize to one JSON document, written canonically —
//! fixed field order, no whitespace — and read back by a strict parser. The
//! round-trip proofs show that loading what was saved yields the saved value;
//! a document the parser does not accept loads as the empty store, which is
//! how corruption degrades.

use vstd::prelude::*;

use crate::codec::{chars_of, dec_digits, esc_str, lemma_parse_dec, lemma_parse_esc_str,
    lemma_subrange_split, lit_at, parse_number, parse_number_exec, parse_str, parse_str_exec,
    pow10, push_dec_u64, push_escaped, push_str_chars, string_from_chars, eat_str, is_digit};
use crate::model::{history_entry_view, history_view, lemma_nodes_view_index,
    lemma_nodes_view_len, node_view, nodes_view, trash_entry_view, trash_view, HistoryEntry,
    HistV, NodeKind, NodeV, ProfileNode, TrashEntry, TrashV};

verus! {

broadcast use vstd::std_specs::vec::group_vec_axioms;

/// A string as the documents carry it: escaped, with its closing quote; the
/// opening quote belongs to the literal before it.
pub open spec fn ser_qstr(t: Seq<char>) -> Seq<char> {
    esc_str(t) + "\""@
}

pub open spec fn ser_bool(b: bool) -> Seq<char> {
    if b {
        "true"@
    } else {
        "false"@
    }
}

pub open spec fn ser_kind(k: NodeKind) -> Seq<char> {
    if k == NodeKind::Leaf {
        ",\"kind\":\"leaf\",\"children\":"@
    } else {
        ",\"kind\":\"folder\",\"children\":"@
    }
}

/// One node, serialized: its fields in fixed order, children always present.
pub open spec fn ser_node(n: NodeV) -> Seq<char>
    decreases n, 0int,
{
    "{\"id\":\""@ + (ser_qstr(n.id) + (",\"title\":\""@ + (ser_qstr(n.title) + (",\"on\":"@
        + (ser_bool(n.on) + (ser_kind(n.kind) + ("["@ + (ser_items(n.children) + ("]"@
        + "}"@)))))))))
}

/// A comma-separated run of serialized nodes.
pub open spec fn ser_items(ts: Seq<NodeV>) -> Seq<char>
    decreases ts, 1int,
{
    if ts.len() == 0 {
        Seq::empty()
    } else if ts.len() == 1 {
        ser_node(ts[0])
    } else {
        ser_node(ts[0]) + (","@ + ser_items(ts.drop_first()))
    }
}

/// A whole tree document: the top-level sequence in brackets.
pub open spec fn ser_tree(ts: Seq<NodeV>) -> Seq<char> {
    "["@ + (ser_items(ts) + "]"@)
}

pub open spec fn parse_bool(s: Seq<char>, pos: int) -> Option<(bool, int)> {
    if lit_at(s, pos, "true"@) {
        Option::Some((true, pos + "true"@.len()))
    } else if lit_at(s, pos, "false"@) {
        Option::Some((false, pos + "false"@.len()))
    } else {
        Option::None
    }
}

pub open spec fn parse_kind(s: Seq<char>, pos: int) -> Option<(NodeKind, int)> {
    if lit_at(s, pos, ",\"kind\":\"leaf\",\"children\":"@) {
        Option::Some((NodeKind::Leaf, pos + ",\"kind\":\"leaf\",\"children\":"@.len()))
    } else if lit_at(s, pos, ",\"kind\":\"folder\",\"children\":"@) {
        Option::Some((NodeKind::Folder, pos + ",\"kind\":\"folder\",\"children\":"@.len()))
    } else {
        Option::None
    }
}

/// Parse one serialized node at `pos`.
pub open spec fn parse_node(s: Seq<char>, pos: int) -> Option<(NodeV, int)>
    decreases s.len() - pos, 0int,
{
    if pos < 0 || pos > s.len() || !lit_at(s, pos, "{\"id\":\""@) {
        Option::None
    } else {
        match parse_str(s, pos + "{\"id\":\""@.len()) {
            Option::None => Option::None,
            Option::Some((id, p2)) => if !lit_at(s, p2, ",\"title\":\""@) {
                Option::None
            } else {
                match parse_str(s, p2 + ",\"title\":\""@.len()) {
                    Option::None => Option::None,
                    Option::Some((title, p3)) => if !lit_at(s, p3, ",\"on\":"@) {
                        Option::None
                    } else {
                        match parse_bool(s, p3 + ",\"on\":"@.len()) {
                            Option::None => Option::None,
                            Option::Some((on, p5)) => match parse_kind(s, p5) {
                                Option::None => Option::None,
                                Option::Some((kind, p6)) => if !lit_at(s, p6, "["@) || !(pos < p6
                                    + "["@.len() <= s.len()) {
                                    Option::None
                                } else {
                                    match parse_items(s, p6 + "["@.len()) {
                                        Option::None => Option::None,
                                        Option::Some((children, p7)) => if lit_at(s, p7, "]"@)
                                            && lit_at(s, p7 + "]"@.len(), "}"@) {
                                            Option::Some(
                                                (
                                                    NodeV { id, title, on, kind, children },
                                                    p7 + "]"@.len() + "}"@.len(),
                                                ),
                                            )
                                        } else {
                                            Option::None
                                        },
                                    }
                                },
                            },
                        }
                    },
                }
            },
        }
    }
}

/// Parse a comma-separated run of nodes; the closing bracket stays for the
/// caller.
pub open spec fn parse_items(s: Seq<char>, pos: int) -> Option<(Seq<NodeV>, int)>
    decreases s.len() - pos, 1int,
{
    if pos < 0 || pos > s.len() {
        Option::None
    } else if lit_at(s, pos, "]"@) {
        Option::Some((Seq::empty(), pos))
    } else {
        match parse_node(s, pos) {
            Option::None => Option::None,
            Option::Some((n, p)) => if !(pos < p <= s.len()) {
                Option::None
            } else if lit_at(s, p, ","@) && pos < p + ","@.len() <= s.len() {
                match parse_items(s, p + ","@.len()) {
                    Option::None => Option::None,
                    Option::Some((rest, p2)) => Option::Some((seq![n] + rest, p2)),
                }
            } else {
                Option::Some((seq![n], p))
            },
        }
    }
}

/// Parse a whole tree document; the parser must consume the input exactly.
pub open spec fn parse_tree(s: Seq<char>) -> Option<Seq<NodeV>> {
    if !lit_at(s, 0, "["@) {
        Option::None
    } else {
        match parse_items(s, "["@.len() as int) {
            Option::None => Option::None,
            Option::Some((ts, p)) => if lit_at(s, p, "]"@) && p + "]"@.len() == s.len() {
                Option::Some(ts)
            } else {
                Option::None
            },
        }
    }
}

/// Parsing inverts node serialization.
pub proof fn lemma_parse_ser_node(s: Seq<char>, pos: int, n: NodeV)
    requires
        0 <= pos,
        pos + ser_node(n).len() <= s.len(),
        s.subrange(pos, pos + ser_node(n).len()) == ser_node(n),
    ensures
        parse_node(s, pos) == Option::Some((n, pos + ser_node(n).len())),
    decreases n, 0int,
{
    reveal_strlit("{\"id\":\"");
    reveal_strlit("\"");
    reveal_strlit(",\"title\":\"");
    reveal_strlit(",\"on\":");
    reveal_strlit("true");
    reveal_strlit("false");
    reveal_strlit(",\"kind\":\"leaf\",\"children\":");
    reveal_strlit(",\"kind\":\"folder\",\"children\":");
    reveal_strlit("[");
    reveal_strlit("]");
    reveal_strlit("}");
    let l1 = "{\"id\":\""@;
    let r1 = ser_qstr(n.id) + (",\"title\":\""@ + (ser_qstr(n.title) + (",\"on\":"@ + (ser_bool(
        n.on,
    ) + (ser_kind(n.kind) + ("["@ + (ser_items(n.children) + ("]"@ + "}"@))))))));
    assert(ser_node(n) == l1 + r1);
    lemma_subrange_split(s, pos, l1, r1);
    assert(lit_at(s, pos, l1));
    let p1 = pos + l1.len();
    let q1 = ser_qstr(n.id);
    let r2 = ",\"title\":\""@ + (ser_qstr(n.title) + (",\"on\":"@ + (ser_bool(n.on) + (ser_kind(
        n.kind,
    ) + ("["@ + (ser_items(n.children) + ("]"@ + "}"@)))))));
    lemma_subrange_split(s, p1, q1, r2);
    assert(q1 == esc_str(n.id) + "\""@);
    lemma_subrange_split(s, p1, esc_str(n.id), "\""@);
    assert(s[p1 + esc_str(n.id).len()] == '"') by {
        assert(s.subrange(p1 + esc_str(n.id).len(), p1 + esc_str(n.id).len() + 1)[0] == s[p1
            + esc_str(n.id).len()]);
    };
    lemma_parse_esc_str(s, p1, n.id);
    let p2 = p1 + q1.len();
    assert(parse_str(s, p1) == Option::Some((n.id, p2)));
    let l2 = ",\"title\":\""@;
    let r3 = ser_qstr(n.title) + (",\"on\":"@ + (ser_bool(n.on) + (ser_kind(n.kind) + ("["@
        + (ser_items(n.children) + ("]"@ + "}"@))))));
    lemma_subrange_split(s, p2, l2, r3);
    assert(lit_at(s, p2, l2));
    let p2b = p2 + l2.len();
    let q2 = ser_qstr(n.title);
    let r4 = ",\"on\":"@ + (ser_bool(n.on) + (ser_kind(n.kind) + ("["@ + (ser_items(n.children)
        + ("]"@ + "}"@)))));
    lemma_subrange_split(s, p2b, q2, r4);
    lemma_subrange_split(s, p2b, esc_str(n.title), "\""@);
    assert(s[p2b + esc_str(n.title).len()] == '"') by {
        assert(s.subrange(p2b + esc_str(n.title).len(), p2b + esc_str(n.title).len() + 1)[0]
            == s[p2b + esc_str(n.title).len()]);
    };
    lemma_parse_esc_str(s, p2b, n.title);
    let p3 = p2b + q2.len();
    assert(parse_str(s, p2b) == Option::Some((n.title, p3)));
    let l3 = ",\"on\":"@;
    let r5 = ser_bool(n.on) + (ser_kind(n.kind) + ("["@ + (ser_items(n.children) + ("]"@
        + "}"@))));
    lemma_subrange_split(s, p3, l3, r5);
    assert(lit_at(s, p3, l3));
    let p4 = p3 + l3.len();
    let r6 = ser_kind(n.kind) + ("["@ + (ser_items(n.children) + ("]"@ + "}"@)));
    lemma_subrange_split(s, p4, ser_bool(n.on), r6);
    if n.on {
        assert(lit_at(s, p4, "true"@));
    } else {
        assert(lit_at(s, p4, "false"@));
        assert(!lit_at(s, p4, "true"@)) by {
            if lit_at(s, p4, "true"@) {
                assert(s.subrange(p4, p4 + 4)[0] == s[p4]);
                assert(s.subrange(p4, p4 + 5)[0] == s[p4]);
            }
        };
    }
    let p5 = p4 + ser_bool(n.on).len();
    assert(parse_bool(s, p4) == Option::Some((n.on, p5)));
    let r7 = "["@ + (ser_items(n.children) + ("]"@ + "}"@));
    lemma_subrange_split(s, p5, ser_kind(n.kind), r7);
    if n.kind == NodeKind::Leaf {
        assert(lit_at(s, p5, ",\"kind\":\"leaf\",\"children\":"@));
    } else {
        assert(lit_at(s, p5, ",\"kind\":\"folder\",\"children\":"@));
        assert(!lit_at(s, p5, ",\"kind\":\"leaf\",\"children\":"@)) by {
            if lit_at(s, p5, ",\"kind\":\"leaf\",\"children\":"@) {
                assert(s.subrange(p5, p5 + ",\"kind\":\"leaf\",\"children\":"@.len())[9] == s[p5
                    + 9]);
                assert(s.subrange(p5, p5 + ",\"kind\":\"folder\",\"children\":"@.len())[9] == s[p5
                    + 9]);
            }
        };
    }
    let p6 = p5 + ser_kind(n.kind).len();
    assert(parse_kind(s, p5) == Option::Some((n.kind, p6)));
    let r8 = ser_items(n.children) + ("]"@ + "}"@);
    lemma_subrange_split(s, p6, "["@, r8);
    assert(lit_at(s, p6, "["@));
    let p6b = p6 + 1;
    lemma_subrange_split(s, p6b, ser_items(n.children), "]"@ + "}"@);
    let p7 = p6b + ser_items(n.children).len();
    lemma_subrange_split(s, p7, "]"@, "}"@);
    assert(s[p7] == ']') by {
        assert(s.subrange(p7, p7 + 1)[0] == s[p7]);
    };
    lemma_parse_ser_items(s, p6b, n.children);
    assert(parse_items(s, p6b) == Option::Some((n.children, p7)));
    assert(lit_at(s, p7, "]"@));
    assert(lit_at(s, p7 + 1, "}"@));
    let nv = NodeV {
        id: n.id,
        title: n.title,
        on: n.on,
        kind: n.kind,
        children: n.children,
    };
    assert(nv =~= n);
    assert(parse_node(s, pos) == Option::Some((n, p7 + 2)));
    assert(p7 + 2 == pos + ser_node(n).len());
}

/// Parsing inverts the serialization of a node run, up to the closing
/// bracket that follows it.
pub proof fn lemma_parse_ser_items(s: Seq<char>, pos: int, ts: Seq<NodeV>)
    requires
        0 <= pos,
        pos + ser_items(ts).len() + 1 <= s.len(),
        s.subrange(pos, pos + ser_items(ts).len()) == ser_items(ts),
        s[pos + ser_items(ts).len()] == ']',
    ensures
        parse_items(s, pos) == Option::Some((ts, pos + ser_items(ts).len())),
    decreases ts, 1int,
{
    reveal_strlit("{\"id\":\"");
    reveal_strlit("[");
    reveal_strlit("]");
    reveal_strlit(",");
    if ts.len() == 0 {
        assert(s.subrange(pos, pos + 1) =~= "]"@);
        assert(lit_at(s, pos, "]"@));
        assert(ts =~= Seq::<NodeV>::empty());
    } else {
        let sn = ser_node(ts[0]);
        assert(sn == "{\"id\":\""@ + (ser_qstr(ts[0].id) + (",\"title\":\""@ + (ser_qstr(
            ts[0].title,
        ) + (",\"on\":"@ + (ser_bool(ts[0].on) + (ser_kind(ts[0].kind) + ("["@ + (ser_items(
            ts[0].children,
        ) + ("]"@ + "}"@))))))))));
        if ts.len() == 1 {
            assert(ser_items(ts) == sn);
            lemma_parse_ser_node(s, pos, ts[0]);
            let p = pos + sn.len();
            assert(s[pos] == '{') by {
                assert(s.subrange(pos, pos + sn.len())[0] == s[pos]);
            };
            assert(!lit_at(s, pos, "]"@)) by {
                if lit_at(s, pos, "]"@) {
                    assert(s.subrange(pos, pos + 1)[0] == s[pos]);
                }
            };
            assert(!lit_at(s, p, ","@)) by {
                if lit_at(s, p, ","@) {
                    assert(s.subrange(p, p + 1)[0] == s[p]);
                }
            };
            assert(seq![ts[0]] =~= ts);
        } else {
            let rest = ts.drop_first();
            assert(ser_items(ts) == sn + (","@ + ser_items(rest)));
            lemma_subrange_split(s, pos, sn, ","@ + ser_items(rest));
            lemma_parse_ser_node(s, pos, ts[0]);
            let p = pos + sn.len();
            assert(s[pos] == '{') by {
                assert(s.subrange(pos, pos + sn.len())[0] == s[pos]);
            };
            assert(!lit_at(s, pos, "]"@)) by {
                if lit_at(s, pos, "]"@) {
                    assert(s.subrange(pos, pos + 1)[0] == s[pos]);
                }
            };
            lemma_subrange_split(s, p, ","@, ser_items(rest));
            assert(lit_at(s, p, ","@));
            let q = p + 1;
            assert(s[q + ser_items(rest).len()] == ']');
            lemma_parse_ser_items(s, q, rest);
            assert(parse_items(s, q) == Option::Some((rest, q + ser_items(rest).len())));
            assert(seq![ts[0]] + rest =~= ts);
        }
    }
}

/// Round trip: a saved tree document parses back to exactly the saved tree.
pub proof fn lemma_tree_round_trip(ts: Seq<NodeV>)
    ensures
        parse_tree(ser_tree(ts)) == Option::Some(ts),
{
    reveal_strlit("[");
    reveal_strlit("]");
    let s = ser_tree(ts);
    assert(s.subrange(0, s.len() as int) =~= s);
    lemma_subrange_split(s, 0, "["@, ser_items(ts) + "]"@);
    lemma_subrange_split(s, 1, ser_items(ts), "]"@);
    let p: int = 1 + ser_items(ts).len() as int;
    assert(s[p] == ']') by {
        assert(s.subrange(p, p + 1)[0] == s[p]);
    };
    lemma_parse_ser_items(s, 1, ts);
    assert(lit_at(s, 0, "["@));
    assert(lit_at(s, p, "]"@));
    assert(p + 1 == s.len());
}

#[verifier::rlimit(30)]
proof fn lemma_node_pieces(
    o: Seq<char>,
    a1: Seq<char>,
    a2: Seq<char>,
    a3: Seq<char>,
    a4: Seq<char>,
    a5: Seq<char>,
    a6: Seq<char>,
    a7: Seq<char>,
    a8: Seq<char>,
    a9: Seq<char>,
    a10: Seq<char>,
    a11: Seq<char>,
    a12: Seq<char>,
    a13: Seq<char>,
)
    ensures
        o + a1 + a2 + a3 + a4 + a5 + a6 + a7 + a8 + a9 + a10 + a11 + a12 + a13 == o + (a1 + ((a2
            + a3) + (a4 + ((a5 + a6) + (a7 + (a8 + (a9 + (a10 + (a11 + (a12 + a13)))))))))),
{
    assert(o + a1 + a2 + a3 + a4 + a5 + a6 + a7 + a8 + a9 + a10 + a11 + a12 + a13 =~= o + (a1 + ((
    a2 + a3) + (a4 + ((a5 + a6) + (a7 + (a8 + (a9 + (a10 + (a11 + (a12 + a13)))))))))));
}

fn push_ser_node(out: &mut Vec<char>, n: &ProfileNode)
    ensures
        final(out)@ == old(out)@ + ser_node(node_view(*n)),
    decreases *n, 0int,
{
    push_str_chars(out, "{\"id\":\"");
    push_escaped(out, n.id.as_str());
    push_str_chars(out, "\"");
    push_str_chars(out, ",\"title\":\"");
    push_escaped(out, n.title.as_str());
    push_str_chars(out, "\"");
    push_str_chars(out, ",\"on\":");
    if n.on {
        push_str_chars(out, "true");
    } else {
        push_str_chars(out, "false");
    }
    match n.kind {
        NodeKind::Leaf => push_str_chars(out, ",\"kind\":\"leaf\",\"children\":"),
        NodeKind::Folder => push_str_chars(out, ",\"kind\":\"folder\",\"children\":"),
    }
    push_str_chars(out, "[");
    push_ser_items(out, &n.children, 0);
    push_str_chars(out, "]");
    push_str_chars(out, "}");
    proof {
        lemma_nodes_view_len(n.children@);
        assert(nodes_view(n.children@).subrange(0, nodes_view(n.children@).len() as int)
            =~= nodes_view(n.children@));
        let o = old(out)@;
        let nv = node_view(*n);
        assert(out@ == o + "{\"id\":\""@ + esc_str(n.id@) + "\""@ + ",\"title\":\""@ + esc_str(
            n.title@,
        ) + "\""@ + ",\"on\":"@ + ser_bool(nv.on) + ser_kind(nv.kind) + "["@ + ser_items(
            nv.children,
        ) + "]"@ + "}"@);
        lemma_node_pieces(
            o,
            "{\"id\":\""@,
            esc_str(n.id@),
            "\""@,
            ",\"title\":\""@,
            esc_str(n.title@),
            "\""@,
            ",\"on\":"@,
            ser_bool(nv.on),
            ser_kind(nv.kind),
            "["@,
            ser_items(nv.children),
            "]"@,
            "}"@,
        );
        assert(ser_node(nv) == "{\"id\":\""@ + ((esc_str(n.id@) + "\""@) + (",\"title\":\""@ + ((
        esc_str(n.title@) + "\""@) + (",\"on\":"@ + (ser_bool(nv.on) + (ser_kind(nv.kind) + ("["@
            + (ser_items(nv.children) + ("]"@ + "}"@))))))))));
    }
}

fn push_ser_items(out: &mut Vec<char>, ns: &Vec<ProfileNode>, from: usize)
    requires
        from <= ns@.len(),
    ensures
        final(out)@ == old(out)@ + ser_items(
            nodes_view(ns@).subrange(from as int, nodes_view(ns@).len() as int),
        ),
    decreases *ns, ns@.len() - from, 1int,
{
    proof {
        lemma_nodes_view_len(ns@);
    }
    let ghost tail = nodes_view(ns@).subrange(from as int, nodes_view(ns@).len() as int);
    if from >= ns.len() {
        proof {
            assert(tail.len() == 0);
            assert(out@ =~= old(out)@ + ser_items(tail));
        }
    } else {
        proof {
            lemma_nodes_view_index(ns@, from as int);
            assert(tail[0] == node_view(ns@[from as int]));
            assert(decreases_to!(*ns => ns@));
            assert(decreases_to!(ns@ => ns@[from as int]));
        }
        push_ser_node(out, &ns[from]);
        if from + 1 < ns.len() {
            push_str_chars(out, ",");
            push_ser_items(out, ns, from + 1);
            proof {
                assert(tail.drop_first() =~= nodes_view(ns@).subrange(
                    from + 1,
                    nodes_view(ns@).len() as int,
                ));
                assert(out@ =~= old(out)@ + ser_items(tail));
            }
        } else {
            proof {
                assert(tail.len() == 1);
                assert(out@ =~= old(out)@ + ser_items(tail));
            }
        }
    }
}

/// Serialize the profile tree to its persisted document.
pub fn save_list(tree: &Vec<ProfileNode>) -> (r: String)
    ensures
        r@ == ser_tree(nodes_view(tree@)),
{
    proof {
        lemma_nodes_view_len(tree@);
    }
    let mut out: Vec<char> = Vec::new();
    push_str_chars(&mut out, "[");
    push_ser_items(&mut out, tree, 0);
    push_str_chars(&mut out, "]");
    proof {
        assert(nodes_view(tree@).subrange(0, nodes_view(tree@).len() as int)
            =~= nodes_view(tree@));
        assert(out@ =~= ser_tree(nodes_view(tree@)));
    }
    string_from_chars(&out)
}

fn parse_node_exec(s: &Vec<char>, pos: usize) -> (r: Option<(ProfileNode, usize)>)
    ensures
        match r {
            Option::Some((n, p)) => parse_node(s@, pos as int) == Option::Some(
                (node_view(n), p as int),
            ) && pos < p <= s@.len(),
            Option::None => parse_node(s@, pos as int) is None,
        },
    decreases s@.len() - pos, 0int,
{
    let p1 = match eat_str(s, pos, "{\"id\":\"") {
        Some(p) => p,
        None => {
            return None;
        },
    };
    let (id_chars, p2) = match parse_str_exec(s, p1) {
        Some(x) => x,
        None => {
            return None;
        },
    };
    let p2b = match eat_str(s, p2, ",\"title\":\"") {
        Some(p) => p,
        None => {
            return None;
        },
    };
    let (title_chars, p3) = match parse_str_exec(s, p2b) {
        Some(x) => x,
        None => {
            return None;
        },
    };
    let p4 = match eat_str(s, p3, ",\"on\":") {
        Some(p) => p,
        None => {
            return None;
        },
    };
    let (on, p5) = match eat_str(s, p4, "true") {
        Some(p) => (true, p),
        None => match eat_str(s, p4, "false") {
            Some(p) => (false, p),
            None => {
                return None;
            },
        },
    };
    let (kind, p6) = match eat_str(s, p5, ",\"kind\":\"leaf\",\"children\":") {
        Some(p) => (NodeKind::Leaf, p),
        None => match eat_str(s, p5, ",\"kind\":\"folder\",\"children\":") {
            Some(p) => (NodeKind::Folder, p),
            None => {
                return None;
            },
        },
    };
    let p6b = match eat_str(s, p6, "[") {
        Some(p) => p,
        None => {
            return None;
        },
    };
    let (children, p7) = match parse_items_exec(s, p6b) {
        Some(x) => x,
        None => {
            return None;
        },
    };
    let p8 = match eat_str(s, p7, "]") {
        Some(p) => p,
        None => {
            return None;
        },
    };
    let p9 = match eat_str(s, p8, "}") {
        Some(p) => p,
        None => {
            return None;
        },
    };
    let id = string_from_chars(&id_chars);
    let title = string_from_chars(&title_chars);
    let n = ProfileNode { id, title, on, kind, children };
    proof {
        assert(node_view(n) =~= parse_node(s@, pos as int)->Some_0.0);
    }
    Some((n, p9))
}

fn parse_items_exec(s: &Vec<char>, pos: usize) -> (r: Option<(Vec<ProfileNode>, usize)>)
    ensures
        match r {
            Option::Some((v, p)) => parse_items(s@, pos as int) == Option::Some(
                (nodes_view(v@), p as int),
            ) && pos <= p <= s@.len(),
            Option::None => parse_items(s@, pos as int) is None,
        },
    decreases s@.len() - pos, 1int,
{
    match eat_str(s, pos, "]") {
        Some(_) => {
            let v: Vec<ProfileNode> = Vec::new();
            proof {
                assert(nodes_view(v@) =~= Seq::<NodeV>::empty());
            }
            return Some((v, pos));
        },
        None => {},
    }
    let (n, p) = match parse_node_exec(s, pos) {
        Some(x) => x,
        None => {
            return None;
        },
    };
    match eat_str(s, p, ",") {
        Some(q) => {
            match parse_items_exec(s, q) {
                Some((rest, p2)) => {
                    let ghost pre = rest@;
                    let ghost restv = nodes_view(rest@);
                    let mut rest = rest;
                    rest.insert(0, n);
                    proof {
                        assert(rest@ =~= seq![n] + pre);
                        lemma_nodes_view_len(rest@);
                        lemma_nodes_view_len(pre);
                        assert forall|j: int| 0 <= j < rest@.len() implies
                            #[trigger] nodes_view(rest@)[j] == (seq![node_view(n)] + restv)[j] by {
                            lemma_nodes_view_index(rest@, j);
                            if j == 0 {
                                assert(rest@[0] == n);
                            } else {
                                assert(rest@[j] == pre[j - 1]);
                                lemma_nodes_view_index(pre, j - 1);
                            }
                        };
                        assert(nodes_view(rest@) =~= seq![node_view(n)] + restv);
                    }
                    Some((rest, p2))
                },
                None => None,
            }
        },
        None => {
            let mut v: Vec<ProfileNode> = Vec::new();
            v.push(n);
            proof {
                lemma_nodes_view_len(v@);
                lemma_nodes_view_index(v@, 0);
                assert(nodes_view(v@) =~= seq![node_view(n)]);
            }
            Some((v, p))
        },
    }
}

/// A timestamp small enough for the documents' nineteen-digit numbers; every
/// epoch-millisecond clock reading is far below it.
pub open spec fn ts_ok(t: u64) -> bool {
    (t as nat) < pow10(19)
}

pub open spec fn ser_pid(p: Option<Seq<char>>) -> Seq<char> {
    match p {
        Option::None => "null"@,
        Option::Some(t) => "\""@ + ser_qstr(t),
    }
}

pub open spec fn parse_pid(s: Seq<char>, pos: int) -> Option<(Option<Seq<char>>, int)> {
    if lit_at(s, pos, "null"@) {
        Option::Some((Option::None, pos + "null"@.len()))
    } else if lit_at(s, pos, "\""@) {
        match parse_str(s, pos + "\""@.len()) {
            Option::None => Option::None,
            Option::Some((t, p)) => Option::Some((Option::Some(t), p)),
        }
    } else {
        Option::None
    }
}

/// One trash entry, serialized.
pub open spec fn ser_trash_entry(e: TrashV) -> Seq<char> {
    "{\"data\":"@ + (ser_node(e.data) + (",\"add_time_ms\":"@ + (dec_digits(
        e.add_time_ms as nat,
    ) + (",\"parent_id\":"@ + (ser_pid(e.parent_id) + "}"@)))))
}

/// Parse one trash entry at `pos`.
pub open spec fn parse_trash_entry(s: Seq<char>, pos: int) -> Option<(TrashV, int)> {
    if pos < 0 || pos > s.len() || !lit_at(s, pos, "{\"data\":"@) {
        Option::None
    } else {
        match parse_node(s, pos + "{\"data\":"@.len()) {
            Option::None => Option::None,
            Option::Some((d, p2)) => if !lit_at(s, p2, ",\"add_time_ms\":"@) {
                Option::None
            } else {
                match parse_number(s, p2 + ",\"add_time_ms\":"@.len()) {
                    Option::None => Option::None,
                    Option::Some((v, p3)) => if !lit_at(s, p3, ",\"parent_id\":"@) {
                        Option::None
                    } else {
                        match parse_pid(s, p3 + ",\"parent_id\":"@.len()) {
                            Option::None => Option::None,
                            Option::Some((pid, p4)) => if lit_at(s, p4, "}"@) {
                                Option::Some(
                                    (
                                        TrashV {
                                            data: d,
                                            add_time_ms: v as u64,
                                            parent_id: pid,
                                        },
                                        p4 + "}"@.len(),
                                    ),
                                )
                            } else {
                                Option::None
                            },
                        }
                    },
                }
            },
        }
    }
}

pub open spec fn ser_trash_items(tv: Seq<TrashV>) -> Seq<char>
    decreases tv.len(),
{
    if tv.len() == 0 {
        Seq::empty()
    } else if tv.len() == 1 {
        ser_trash_entry(tv[0])
    } else {
        ser_trash_entry(tv[0]) + (","@ + ser_trash_items(tv.drop_first()))
    }
}

/// A whole trash document.
pub open spec fn ser_trash_doc(tv: Seq<TrashV>) -> Seq<char> {
    "["@ + (ser_trash_items(tv) + "]"@)
}

pub open spec fn parse_trash_items(s: Seq<char>, pos: int) -> Option<(Seq<TrashV>, int)>
    decreases s.len() - pos,
{
    if pos < 0 || pos > s.len() {
        Option::None
    } else if lit_at(s, pos, "]"@) {
        Option::Some((Seq::empty(), pos))
    } else {
        match parse_trash_entry(s, pos) {
            Option::None => Option::None,
            Option::Some((e, p)) => if !(pos < p <= s.len()) {
                Option::None
            } else if lit_at(s, p, ","@) && pos < p + ","@.len() <= s.len() {
                match parse_trash_items(s, p + ","@.len()) {
                    Option::None => Option::None,
                    Option::Some((rest, p2)) => Option::Some((seq![e] + rest, p2)),
                }
            } else {
                Option::Some((seq![e], p))
            },
        }
    }
}

/// Parse a whole trash document, exactly.
pub open spec fn parse_trash_doc(s: Seq<char>) -> Option<Seq<TrashV>> {
    if !lit_at(s, 0, "["@) {
        Option::None
    } else {
        match parse_trash_items(s, "["@.len() as int) {
            Option::None => Option::None,
            Option::Some((tv, p)) => if lit_at(s, p, "]"@) && p + "]"@.len() == s.len() {
                Option::Some(tv)
            } else {
                Option::None
            },
        }
    }
}

/// One history entry, serialized.
pub open spec fn ser_hist_entry(h: HistV) -> Seq<char> {
    "{\"id\":\""@ + (ser_qstr(h.id) + (",\"content\":\""@ + (ser_qstr(h.content)
        + (",\"add_time_ms\":"@ + (dec_digits(h.add_time_ms as nat) + "}"@)))))
}

/// Parse one history entry at `pos`.
pub open spec fn parse_hist_entry(s: Seq<char>, pos: int) -> Option<(HistV, int)> {
    if pos < 0 || pos > s.len() || !lit_at(s, pos, "{\"id\":\""@) {
        Option::None
    } else {
        match parse_str(s, pos + "{\"id\":\""@.len()) {
            Option::None => Option::None,
            Option::Some((id, p2)) => if !lit_at(s, p2, ",\"content\":\""@) {
                Option::None
            } else {
                match parse_str(s, p2 + ",\"content\":\""@.len()) {
                    Option::None => Option::None,
                    Option::Some((content, p3)) => if !lit_at(s, p3, ",\"add_time_ms\":"@) {
                        Option::None
                    } else {
                        match parse_number(s, p3 + ",\"add_time_ms\":"@.len()) {
                            Option::None => Option::None,
                            Option::Some((v, p4)) => if lit_at(s, p4, "}"@) {
                                Option::Some(
                                    (
                                        HistV { id, content, add_time_ms: v as u64 },
                                        p4 + "}"@.len(),
                                    ),
                                )
                            } else {
                                Option::None
                            },
                        }
                    },
                }
            },
        }
    }
}

pub open spec fn ser_hist_items(hv: Seq<HistV>) -> Seq<char>
    decreases hv.len(),
{
    if hv.len() == 0 {
        Seq::empty()
    } else if hv.len() == 1 {
        ser_hist_entry(hv[0])
    } else {
        ser_hist_entry(hv[0]) + (","@ + ser_hist_items(hv.drop_first()))
    }
}

/// A whole history document.
pub open spec fn ser_hist_doc(hv: Seq<HistV>) -> Seq<char> {
    "["@ + (ser_hist_items(hv) + "]"@)
}

pub open spec fn parse_hist_items(s: Seq<char>, pos: int) -> Option<(Seq<HistV>, int)>
    decreases s.len() - pos,
{
    if pos < 0 || pos > s.len() {
        Option::None
    } else if lit_at(s, pos, "]"@) {
        Option::Some((Seq::empty(), pos))
    } else {
        match parse_hist_entry(s, pos) {
            Option::None => Option::None,
            Option::Some((e, p)) => if !(pos < p <= s.len()) {
                Option::None
            } else if lit_at(s, p, ","@) && pos < p + ","@.len() <= s.len() {
                match parse_hist_items(s, p + ","@.len()) {
                    Option::None => Option::None,
                    Option::Some((rest, p2)) => Option::Some((seq![e] + rest, p2)),
                }
            } else {
                Option::Some((seq![e], p))
            },
        }
    }
}

/// Parse a whole history document, exactly.
pub open spec fn parse_hist_doc(s: Seq<char>) -> Option<Seq<HistV>> {
    if !lit_at(s, 0, "["@) {
        Option::None
    } else {
        match parse_hist_items(s, "["@.len() as int) {
            Option::None => Option::None,
            Option::Some((hv, p)) => if lit_at(s, p, "]"@) && p + "]"@.len() == s.len() {
                Option::Some(hv)
            } else {
                Option::None
            },
        }
    }
}

/// Parsing inverts pid serialization, for a pid followed by a non-quote.
proof fn lemma_parse_ser_pid(s: Seq<char>, pos: int, p: Option<Seq<char>>)
    requires
        0 <= pos,
        pos + ser_pid(p).len() <= s.len(),
        s.subrange(pos, pos + ser_pid(p).len()) == ser_pid(p),
    ensures
        parse_pid(s, pos) == Option::Some((p, pos + ser_pid(p).len())),
{
    reveal_strlit("null");
    reveal_strlit("\"");
    match p {
        Option::None => {
            assert(lit_at(s, pos, "null"@));
        },
        Option::Some(t) => {
            lemma_subrange_split(s, pos, "\""@, ser_qstr(t));
            assert(lit_at(s, pos, "\""@));
            assert(s[pos] == '"') by {
                assert(s.subrange(pos, pos + 1)[0] == s[pos]);
            };
            assert(!lit_at(s, pos, "null"@)) by {
                if lit_at(s, pos, "null"@) {
                    assert(s.subrange(pos, pos + 4)[0] == s[pos]);
                }
            };
            let p1 = pos + 1;
            lemma_subrange_split(s, p1, esc_str(t), "\""@);
            assert(s[p1 + esc_str(t).len()] == '"') by {
                assert(s.subrange(p1 + esc_str(t).len(), p1 + esc_str(t).len() + 1)[0] == s[p1
                    + esc_str(t).len()]);
            };
            lemma_parse_esc_str(s, p1, t);
        },
    }
}

#[verifier::rlimit(30)]
proof fn lemma_cat7(
    o: Seq<char>,
    a1: Seq<char>,
    a2: Seq<char>,
    a3: Seq<char>,
    a4: Seq<char>,
    a5: Seq<char>,
    a6: Seq<char>,
    a7: Seq<char>,
)
    ensures
        o + a1 + a2 + a3 + a4 + a5 + a6 + a7 == o + (a1 + (a2 + (a3 + (a4 + (a5 + (a6 + a7)))))),
{
    assert(o + a1 + a2 + a3 + a4 + a5 + a6 + a7 =~= o + (a1 + (a2 + (a3 + (a4 + (a5 + (a6
        + a7)))))));
}

#[verifier::rlimit(30)]
proof fn lemma_cat9(
    o: Seq<char>,
    a1: Seq<char>,
    a2: Seq<char>,
    a3: Seq<char>,
    a4: Seq<char>,
    a5: Seq<char>,
    a6: Seq<char>,
    a7: Seq<char>,
    a8: Seq<char>,
    a9: Seq<char>,
)
    ensures
        o + a1 + a2 + a3 + a4 + a5 + a6 + a7 + a8 + a9 == o + (a1 + ((a2 + a3) + (a4 + ((a5 + a6)
            + (a7 + (a8 + a9)))))),
{
    assert(o + a1 + a2 + a3 + a4 + a5 + a6 + a7 + a8 + a9 =~= o + (a1 + ((a2 + a3) + (a4 + ((a5
        + a6) + (a7 + (a8 + a9)))))));
}

/// Parsing inverts trash-entry serialization.
proof fn lemma_parse_ser_trash_entry(s: Seq<char>, pos: int, e: TrashV)
    requires
        0 <= pos,
        ts_ok(e.add_time_ms),
        pos + ser_trash_entry(e).len() <= s.len(),
        s.subrange(pos, pos + ser_trash_entry(e).len()) == ser_trash_entry(e),
    ensures
        parse_trash_entry(s, pos) == Option::Some((e, pos + ser_trash_entry(e).len())),
{
    reveal_strlit("{\"data\":");
    reveal_strlit(",\"add_time_ms\":");
    reveal_strlit(",\"parent_id\":");
    reveal_strlit("}");
    let l1 = "{\"data\":"@;
    let dd = dec_digits(e.add_time_ms as nat);
    let r1 = ser_node(e.data) + (",\"add_time_ms\":"@ + (dd + (",\"parent_id\":"@ + (ser_pid(
        e.parent_id,
    ) + "}"@))));
    lemma_subrange_split(s, pos, l1, r1);
    assert(lit_at(s, pos, l1));
    let p1 = pos + l1.len();
    let r2 = ",\"add_time_ms\":"@ + (dd + (",\"parent_id\":"@ + (ser_pid(e.parent_id) + "}"@)));
    lemma_subrange_split(s, p1, ser_node(e.data), r2);
    lemma_parse_ser_node(s, p1, e.data);
    let p2 = p1 + ser_node(e.data).len();
    let l2 = ",\"add_time_ms\":"@;
    let r3 = dd + (",\"parent_id\":"@ + (ser_pid(e.parent_id) + "}"@));
    lemma_subrange_split(s, p2, l2, r3);
    assert(lit_at(s, p2, l2));
    let p2b = p2 + l2.len();
    let r4 = ",\"parent_id\":"@ + (ser_pid(e.parent_id) + "}"@);
    lemma_subrange_split(s, p2b, dd, r4);
    assert(s[p2b + dd.len()] == ',') by {
        assert(s.subrange(p2b + dd.len(), p2b + dd.len() + r4.len())[0] == s[p2b + dd.len()]);
    };
    assert(!is_digit(',')) by {
        assert(',' < '0');
    };
    lemma_parse_dec(s, p2b, e.add_time_ms as nat);
    let p3 = p2b + dd.len();
    assert(parse_number(s, p2b) == Option::Some((e.add_time_ms as nat, p3)));
    let l3 = ",\"parent_id\":"@;
    let r5 = ser_pid(e.parent_id) + "}"@;
    lemma_subrange_split(s, p3, l3, r5);
    assert(lit_at(s, p3, l3));
    let p3b = p3 + l3.len();
    lemma_subrange_split(s, p3b, ser_pid(e.parent_id), "}"@);
    lemma_parse_ser_pid(s, p3b, e.parent_id);
    let p4 = p3b + ser_pid(e.parent_id).len();
    assert(lit_at(s, p4, "}"@));
    let ev = TrashV {
        data: e.data,
        add_time_ms: (e.add_time_ms as nat) as u64,
        parent_id: e.parent_id,
    };
    assert(ev =~= e);
    assert(parse_trash_entry(s, pos) == Option::Some((e, p4 + 1)));
}

/// Parsing inverts history-entry serialization.
proof fn lemma_parse_ser_hist_entry(s: Seq<char>, pos: int, h: HistV)
    requires
        0 <= pos,
        ts_ok(h.add_time_ms),
        pos + ser_hist_entry(h).len() <= s.len(),
        s.subrange(pos, pos + ser_hist_entry(h).len()) == ser_hist_entry(h),
    ensures
        parse_hist_entry(s, pos) == Option::Some((h, pos + ser_hist_entry(h).len())),
{
    reveal_strlit("{\"id\":\"");
    reveal_strlit(",\"content\":\"");
    reveal_strlit(",\"add_time_ms\":");
    reveal_strlit("\"");
    reveal_strlit("}");
    let l1 = "{\"id\":\""@;
    let dd = dec_digits(h.add_time_ms as nat);
    let r1 = ser_qstr(h.id) + (",\"content\":\""@ + (ser_qstr(h.content) + (",\"add_time_ms\":"@
        + (dd + "}"@))));
    lemma_subrange_split(s, pos, l1, r1);
    assert(lit_at(s, pos, l1));
    let p1 = pos + l1.len();
    let r2 = ",\"content\":\""@ + (ser_qstr(h.content) + (",\"add_time_ms\":"@ + (dd + "}"@)));
    lemma_subrange_split(s, p1, ser_qstr(h.id), r2);
    lemma_subrange_split(s, p1, esc_str(h.id), "\""@);
    assert(s[p1 + esc_str(h.id).len()] == '"') by {
        assert(s.subrange(p1 + esc_str(h.id).len(), p1 + esc_str(h.id).len() + 1)[0] == s[p1
            + esc_str(h.id).len()]);
    };
    lemma_parse_esc_str(s, p1, h.id);
    let p2 = p1 + ser_qstr(h.id).len();
    assert(parse_str(s, p1) == Option::Some((h.id, p2)));
    let l2 = ",\"content\":\""@;
    let r3 = ser_qstr(h.content) + (",\"add_time_ms\":"@ + (dd + "}"@));
    lemma_subrange_split(s, p2, l2, r3);
    assert(lit_at(s, p2, l2));
    let p2b = p2 + l2.len();
    let r4 = ",\"add_time_ms\":"@ + (dd + "}"@);
    lemma_subrange_split(s, p2b, ser_qstr(h.content), r4);
    lemma_subrange_split(s, p2b, esc_str(h.content), "\""@);
    assert(s[p2b + esc_str(h.content).len()] == '"') by {
        assert(s.subrange(p2b + esc_str(h.content).len(), p2b + esc_str(h.content).len() + 1)[0]
            == s[p2b + esc_str(h.content).len()]);
    };
    lemma_parse_esc_str(s, p2b, h.content);
    let p3 = p2b + ser_qstr(h.content).len();
    assert(parse_str(s, p2b) == Option::Some((h.content, p3)));
    let l3 = ",\"add_time_ms\":"@;
    let r5 = dd + "}"@;
    lemma_subrange_split(s, p3, l3, r5);
    assert(lit_at(s, p3, l3));
    let p3b = p3 + l3.len();
    lemma_subrange_split(s, p3b, dd, "}"@);
    assert(s[p3b + dd.len()] == '}') by {
        assert(s.subrange(p3b + dd.len(), p3b + dd.len() + 1)[0] == s[p3b + dd.len()]);
    };
    assert(!is_digit('}')) by {
        assert('}' > '9');
    };
    lemma_parse_dec(s, p3b, h.add_time_ms as nat);
    let p4 = p3b + dd.len();
    assert(lit_at(s, p4, "}"@));
    let hv = HistV {
        id: h.id,
        content: h.content,
        add_time_ms: (h.add_time_ms as nat) as u64,
    };
    assert(hv =~= h);
    assert(parse_hist_entry(s, pos) == Option::Some((h, p4 + 1)));
}

/// Parsing inverts a trash-entry run, up to the closing bracket after it.
proof fn lemma_parse_ser_trash_items(s: Seq<char>, pos: int, tv: Seq<TrashV>)
    requires
        0 <= pos,
        forall|i: int| 0 <= i < tv.len() ==> ts_ok(#[trigger] tv[i].add_time_ms),
        pos + ser_trash_items(tv).len() + 1 <= s.len(),
        s.subrange(pos, pos + ser_trash_items(tv).len()) == ser_trash_items(tv),
        s[pos + ser_trash_items(tv).len()] == ']',
    ensures
        parse_trash_items(s, pos) == Option::Some((tv, pos + ser_trash_items(tv).len())),
    decreases tv.len(),
{
    reveal_strlit("{\"data\":");
    reveal_strlit("[");
    reveal_strlit("]");
    reveal_strlit(",");
    if tv.len() == 0 {
        assert(s.subrange(pos, pos + 1) =~= "]"@);
        assert(lit_at(s, pos, "]"@));
        assert(tv =~= Seq::<TrashV>::empty());
    } else {
        let sn = ser_trash_entry(tv[0]);
        assert(sn == "{\"data\":"@ + (ser_node(tv[0].data) + (",\"add_time_ms\":"@ + (dec_digits(
            tv[0].add_time_ms as nat,
        ) + (",\"parent_id\":"@ + (ser_pid(tv[0].parent_id) + "}"@))))));
        if tv.len() == 1 {
            assert(ser_trash_items(tv) == sn);
            lemma_parse_ser_trash_entry(s, pos, tv[0]);
            let p = pos + sn.len();
            assert(s[pos] == '{') by {
                assert(s.subrange(pos, pos + sn.len())[0] == s[pos]);
            };
            assert(!lit_at(s, pos, "]"@)) by {
                if lit_at(s, pos, "]"@) {
                    assert(s.subrange(pos, pos + 1)[0] == s[pos]);
                }
            };
            assert(!lit_at(s, p, ","@)) by {
                if lit_at(s, p, ","@) {
                    assert(s.subrange(p, p + 1)[0] == s[p]);
                }
            };
            assert(seq![tv[0]] =~= tv);
        } else {
            let rest = tv.drop_first();
            assert(ser_trash_items(tv) == sn + (","@ + ser_trash_items(rest)));
            lemma_subrange_split(s, pos, sn, ","@ + ser_trash_items(rest));
            lemma_parse_ser_trash_entry(s, pos, tv[0]);
            let p = pos + sn.len();
            assert(s[pos] == '{') by {
                assert(s.subrange(pos, pos + sn.len())[0] == s[pos]);
            };
            assert(!lit_at(s, pos, "]"@)) by {
                if lit_at(s, pos, "]"@) {
                    assert(s.subrange(pos, pos + 1)[0] == s[pos]);
                }
            };
            lemma_subrange_split(s, p, ","@, ser_trash_items(rest));
            assert(lit_at(s, p, ","@));
            let q = p + 1;
            assert(s[q + ser_trash_items(rest).len()] == ']');
            assert(forall|i: int| 0 <= i < rest.len() ==> ts_ok(#[trigger] rest[i].add_time_ms));
            lemma_parse_ser_trash_items(s, q, rest);
            assert(seq![tv[0]] + rest =~= tv);
        }
    }
}

/// Parsing inverts a history-entry run, up to the closing bracket after it.
proof fn lemma_parse_ser_hist_items(s: Seq<char>, pos: int, hv: Seq<HistV>)
    requires
        0 <= pos,
        forall|i: int| 0 <= i < hv.len() ==> ts_ok(#[trigger] hv[i].add_time_ms),
        pos + ser_hist_items(hv).len() + 1 <= s.len(),
        s.subrange(pos, pos + ser_hist_items(hv).len()) == ser_hist_items(hv),
        s[pos + ser_hist_items(hv).len()] == ']',
    ensures
        parse_hist_items(s, pos) == Option::Some((hv, pos + ser_hist_items(hv).len())),
    decreases hv.len(),
{
    reveal_strlit("{\"id\":\"");
    reveal_strlit("[");
    reveal_strlit("]");
    reveal_strlit(",");
    if hv.len() == 0 {
        assert(s.subrange(pos, pos + 1) =~= "]"@);
        assert(lit_at(s, pos, "]"@));
        assert(hv =~= Seq::<HistV>::empty());
    } else {
        let sn = ser_hist_entry(hv[0]);
        assert(sn == "{\"id\":\""@ + (ser_qstr(hv[0].id) + (",\"content\":\""@ + (ser_qstr(
            hv[0].content,
        ) + (",\"add_time_ms\":"@ + (dec_digits(hv[0].add_time_ms as nat) + "}"@))))));
        if hv.len() == 1 {
            assert(ser_hist_items(hv) == sn);
            lemma_parse_ser_hist_entry(s, pos, hv[0]);
            let p = pos + sn.len();
            assert(s[pos] == '{') by {
                assert(s.subrange(pos, pos + sn.len())[0] == s[pos]);
            };
            assert(!lit_at(s, pos, "]"@)) by {
                if lit_at(s, pos, "]"@) {
                    assert(s.subrange(pos, pos + 1)[0] == s[pos]);
                }
            };
            assert(!lit_at(s, p, ","@)) by {
                if lit_at(s, p, ","@) {
                    assert(s.subrange(p, p + 1)[0] == s[p]);
                }
            };
            assert(seq![hv[0]] =~= hv);
        } else {
            let rest = hv.drop_first();
            assert(ser_hist_items(hv) == sn + (","@ + ser_hist_items(rest)));
            lemma_subrange_split(s, pos, sn, ","@ + ser_hist_items(rest));
            lemma_parse_ser_hist_entry(s, pos, hv[0]);
            let p = pos + sn.len();
            assert(s[pos] == '{') by {
                assert(s.subrange(pos, pos + sn.len())[0] == s[pos]);
            };
            assert(!lit_at(s, pos, "]"@)) by {
                if lit_at(s, pos, "]"@) {
                    assert(s.subrange(pos, pos + 1)[0] == s[pos]);
                }
            };
            lemma_subrange_split(s, p, ","@, ser_hist_items(rest));
            assert(lit_at(s, p, ","@));
            let q = p + 1;
            assert(s[q + ser_hist_items(rest).len()] == ']');
            assert(forall|i: int| 0 <= i < rest.len() ==> ts_ok(#[trigger] rest[i].add_time_ms));
            lemma_parse_ser_hist_items(s, q, rest);
            assert(seq![hv[0]] + rest =~= hv);
        }
    }
}

/// Round trip: a saved trash document parses back to exactly the saved
/// entries, for any timestamps below the nineteen-digit bound.
pub proof fn lemma_trash_round_trip(tv: Seq<TrashV>)
    requires
        forall|i: int| 0 <= i < tv.len() ==> ts_ok(#[trigger] tv[i].add_time_ms),
    ensures
        parse_trash_doc(ser_trash_doc(tv)) == Option::Some(tv),
{
    reveal_strlit("[");
    reveal_strlit("]");
    let s = ser_trash_doc(tv);
    assert(s.subrange(0, s.len() as int) =~= s);
    lemma_subrange_split(s, 0, "["@, ser_trash_items(tv) + "]"@);
    lemma_subrange_split(s, 1, ser_trash_items(tv), "]"@);
    let p: int = 1 + ser_trash_items(tv).len() as int;
    assert(s[p] == ']') by {
        assert(s.subrange(p, p + 1)[0] == s[p]);
    };
    lemma_parse_ser_trash_items(s, 1, tv);
    assert(lit_at(s, 0, "["@));
    assert(lit_at(s, p, "]"@));
    assert(p + 1 == s.len());
}

/// Round trip: a saved history document parses back to exactly the saved
/// entries, for any timestamps below the nineteen-digit bound.
pub proof fn lemma_history_round_trip(hv: Seq<HistV>)
    requires
        forall|i: int| 0 <= i < hv.len() ==> ts_ok(#[trigger] hv[i].add_time_ms),
    ensures
        parse_hist_doc(ser_hist_doc(hv)) == Option::Some(hv),
{
    reveal_strlit("[");
    reveal_strlit("]");
    let s = ser_hist_doc(hv);
    assert(s.subrange(0, s.len() as int) =~= s);
    lemma_subrange_split(s, 0, "["@, ser_hist_items(hv) + "]"@);
    lemma_subrange_split(s, 1, ser_hist_items(hv), "]"@);
    let p: int = 1 + ser_hist_items(hv).len() as int;
    assert(s[p] == ']') by {
        assert(s.subrange(p, p + 1)[0] == s[p]);
    };
    lemma_parse_ser_hist_items(s, 1, hv);
    assert(lit_at(s, 0, "["@));
    assert(lit_at(s, p, "]"@));
    assert(p + 1 == s.len());
}

/// The combined export document: the tree, the trash and the history under
/// one object, with a format version.
pub open spec fn ser_export_doc(ts: Seq<NodeV>, tv: Seq<TrashV>, hv: Seq<HistV>) -> Seq<char> {
    "{\"list\":"@ + (ser_tree(ts) + (",\"trashcan\":"@ + (ser_trash_doc(tv) + (",\"history\":"@
        + (ser_hist_doc(hv) + ",\"version\":[0,0,0,0]}"@)))))
}

/// The basic-data snapshot handed to the shell: the tree and the trash with
/// an application version.
pub open spec fn ser_basic_data(ts: Seq<NodeV>, tv: Seq<TrashV>) -> Seq<char> {
    "{\"list\":"@ + (ser_tree(ts) + (",\"trashcan\":"@ + (ser_trash_doc(tv)
        + ",\"version\":\"0.0.0\"}"@)))
}

/// Parse an export document: an import takes the tree and the trash from it
/// and leaves the exported history alone.
pub open spec fn parse_export_doc(s: Seq<char>) -> Option<(Seq<NodeV>, Seq<TrashV>)> {
    if !lit_at(s, 0, "{\"list\":"@) || !lit_at(s, "{\"list\":"@.len() as int, "["@) {
        Option::None
    } else {
        match parse_items(s, ("{\"list\":"@.len() + "["@.len()) as int) {
            Option::None => Option::None,
            Option::Some((ts, p1)) => if !lit_at(s, p1, "]"@) || !lit_at(
                s,
                p1 + "]"@.len(),
                ",\"trashcan\":"@,
            ) || !lit_at(s, p1 + "]"@.len() + ",\"trashcan\":"@.len(), "["@) {
                Option::None
            } else {
                match parse_trash_items(
                    s,
                    p1 + "]"@.len() + ",\"trashcan\":"@.len() + "["@.len(),
                ) {
                    Option::None => Option::None,
                    Option::Some((tv, p2)) => if !lit_at(s, p2, "]"@) || !lit_at(
                        s,
                        p2 + "]"@.len(),
                        ",\"history\":"@,
                    ) || !lit_at(s, p2 + "]"@.len() + ",\"history\":"@.len(), "["@) {
                        Option::None
                    } else {
                        match parse_hist_items(
                            s,
                            p2 + "]"@.len() + ",\"history\":"@.len() + "["@.len(),
                        ) {
                            Option::None => Option::None,
                            Option::Some((_hv, p3)) => if lit_at(s, p3, "]"@) && lit_at(
                                s,
                                p3 + "]"@.len(),
                                ",\"version\":[0,0,0,0]}"@,
                            ) && p3 + "]"@.len() + ",\"version\":[0,0,0,0]}"@.len() == s.len() {
                                Option::Some((ts, tv))
                            } else {
                                Option::None
                            },
                        }
                    },
                }
            },
        }
    }
}

/// Serialize the combined export document.
pub fn export_data(
    tree: &Vec<ProfileNode>,
    trash: &Vec<TrashEntry>,
    history: &Vec<HistoryEntry>,
) -> (r: String)
    ensures
        r@ == ser_export_doc(nodes_view(tree@), trash_view(trash@), history_view(history@)),
{
    let mut out: Vec<char> = Vec::new();
    push_str_chars(&mut out, "{\"list\":");
    let t = save_list(tree);
    push_str_chars(&mut out, t.as_str());
    push_str_chars(&mut out, ",\"trashcan\":");
    let tc = save_trashcan(trash);
    push_str_chars(&mut out, tc.as_str());
    push_str_chars(&mut out, ",\"history\":");
    let h = save_history(history);
    push_str_chars(&mut out, h.as_str());
    push_str_chars(&mut out, ",\"version\":[0,0,0,0]}");
    proof {
        assert(out@ =~= ser_export_doc(
            nodes_view(tree@),
            trash_view(trash@),
            history_view(history@),
        ));
    }
    string_from_chars(&out)
}

/// Serialize the basic-data snapshot.
pub fn get_basic_data(tree: &Vec<ProfileNode>, trash: &Vec<TrashEntry>) -> (r: String)
    ensures
        r@ == ser_basic_data(nodes_view(tree@), trash_view(trash@)),
{
    let mut out: Vec<char> = Vec::new();
    push_str_chars(&mut out, "{\"list\":");
    let t = save_list(tree);
    push_str_chars(&mut out, t.as_str());
    push_str_chars(&mut out, ",\"trashcan\":");
    let tc = save_trashcan(trash);
    push_str_chars(&mut out, tc.as_str());
    push_str_chars(&mut out, ",\"version\":\"0.0.0\"}");
    proof {
        assert(out@ =~= ser_basic_data(nodes_view(tree@), trash_view(trash@)));
    }
    string_from_chars(&out)
}

/// Parse an export document into the tree and trash it carries; `None` when
/// the document is not one of ours.
pub fn import_data(raw: &String) -> (r: Option<(Vec<ProfileNode>, Vec<TrashEntry>)>)
    ensures
        match r {
            Option::Some((t, tc)) => parse_export_doc(raw@) == Option::Some(
                (nodes_view(t@), trash_view(tc@)),
            ),
            Option::None => parse_export_doc(raw@) is None,
        },
{
    let cs = chars_of(raw.as_str());
    let p0 = match eat_str(&cs, 0, "{\"list\":") {
        Some(p) => p,
        None => {
            return None;
        },
    };
    let p0b = match eat_str(&cs, p0, "[") {
        Some(p) => p,
        None => {
            return None;
        },
    };
    let (tree, p1) = match parse_items_exec(&cs, p0b) {
        Some(x) => x,
        None => {
            return None;
        },
    };
    let p1b = match eat_str(&cs, p1, "]") {
        Some(p) => p,
        None => {
            return None;
        },
    };
    let p1c = match eat_str(&cs, p1b, ",\"trashcan\":") {
        Some(p) => p,
        None => {
            return None;
        },
    };
    let p1d = match eat_str(&cs, p1c, "[") {
        Some(p) => p,
        None => {
            return None;
        },
    };
    let (trash, p2) = match parse_trash_items_exec(&cs, p1d) {
        Some(x) => x,
        None => {
            return None;
        },
    };
    let p2b = match eat_str(&cs, p2, "]") {
        Some(p) => p,
        None => {
            return None;
        },
    };
    let p2c = match eat_str(&cs, p2b, ",\"history\":") {
        Some(p) => p,
        None => {
            return None;
        },
    };
    let p2d = match eat_str(&cs, p2c, "[") {
        Some(p) => p,
        None => {
            return None;
        },
    };
    let (_hist, p3) = match parse_hist_items_exec(&cs, p2d) {
        Some(x) => x,
        None => {
            return None;
        },
    };
    let p3b = match eat_str(&cs, p3, "]") {
        Some(p) => p,
        None => {
            return None;
        },
    };
    let p3c = match eat_str(&cs, p3b, ",\"version\":[0,0,0,0]}") {
        Some(p) => p,
        None => {
            return None;
        },
    };
    if p3c != cs.len() {
        return None;
    }
    Some((tree, trash))
}

/// Parse a tree document back into a tree; anything the strict parser does
/// not accept — a missing document included — loads as the empty tree.
pub fn load_list(raw: Option<&String>) -> (r: Vec<ProfileNode>)
    ensures
        match raw {
            Option::None => r@.len() == 0,
            Option::Some(s) => match parse_tree(s@) {
                Option::Some(ts) => nodes_view(r@) == ts,
                Option::None => r@.len() == 0,
            },
        },
{
    let s = match raw {
        None => {
            return Vec::new();
        },
        Some(s) => s,
    };
    let cs = chars_of(s.as_str());
    let p0 = match eat_str(&cs, 0, "[") {
        Some(p) => p,
        None => {
            return Vec::new();
        },
    };
    match parse_items_exec(&cs, p0) {
        None => Vec::new(),
        Some((v, p)) => {
            match eat_str(&cs, p, "]") {
                Some(q) => {
                    if q == cs.len() {
                        v
                    } else {
                        Vec::new()
                    }
                },
                None => Vec::new(),
            }
        },
    }
}

fn push_pid(out: &mut Vec<char>, p: &Option<String>)
    ensures
        final(out)@ == old(out)@ + ser_pid(match *p {
            Option::None => Option::None,
            Option::Some(t) => Option::Some(t@),
        }),
{
    match p {
        None => {
            push_str_chars(out, "null");
        },
        Some(t) => {
            push_str_chars(out, "\"");
            push_escaped(out, t.as_str());
            push_str_chars(out, "\"");
            proof {
                assert(out@ =~= old(out)@ + ("\""@ + (esc_str(t@) + "\""@)));
            }
        },
    }
}

#[verifier::rlimit(30)]
fn push_trash_entry(out: &mut Vec<char>, e: &TrashEntry)
    ensures
        final(out)@ == old(out)@ + ser_trash_entry(trash_entry_view(*e)),
{
    push_str_chars(out, "{\"data\":");
    push_ser_node(out, &e.data);
    push_str_chars(out, ",\"add_time_ms\":");
    push_dec_u64(out, e.add_time_ms);
    push_str_chars(out, ",\"parent_id\":");
    push_pid(out, &e.parent_id);
    push_str_chars(out, "}");
    proof {
        let ev = trash_entry_view(*e);
        let o = old(out)@;
        assert(out@ == o + "{\"data\":"@ + ser_node(ev.data) + ",\"add_time_ms\":"@ + dec_digits(
            ev.add_time_ms as nat,
        ) + ",\"parent_id\":"@ + ser_pid(ev.parent_id) + "}"@);
        lemma_cat7(
            o,
            "{\"data\":"@,
            ser_node(ev.data),
            ",\"add_time_ms\":"@,
            dec_digits(ev.add_time_ms as nat),
            ",\"parent_id\":"@,
            ser_pid(ev.parent_id),
            "}"@,
        );
        assert(ser_trash_entry(ev) == "{\"data\":"@ + (ser_node(ev.data) + (",\"add_time_ms\":"@
            + (dec_digits(ev.add_time_ms as nat) + (",\"parent_id\":"@ + (ser_pid(ev.parent_id)
            + "}"@))))));
    }
}

#[verifier::rlimit(30)]
fn push_hist_entry(out: &mut Vec<char>, h: &HistoryEntry)
    ensures
        final(out)@ == old(out)@ + ser_hist_entry(history_entry_view(*h)),
{
    push_str_chars(out, "{\"id\":\"");
    push_escaped(out, h.id.as_str());
    push_str_chars(out, "\"");
    push_str_chars(out, ",\"content\":\"");
    push_escaped(out, h.content.as_str());
    push_str_chars(out, "\"");
    push_str_chars(out, ",\"add_time_ms\":");
    push_dec_u64(out, h.add_time_ms);
    push_str_chars(out, "}");
    proof {
        let ev = history_entry_view(*h);
        let o = old(out)@;
        assert(out@ == o + "{\"id\":\""@ + esc_str(h.id@) + "\""@ + ",\"content\":\""@ + esc_str(
            h.content@,
        ) + "\""@ + ",\"add_time_ms\":"@ + dec_digits(ev.add_time_ms as nat) + "}"@);
        lemma_cat9(
            o,
            "{\"id\":\""@,
            esc_str(h.id@),
            "\""@,
            ",\"content\":\""@,
            esc_str(h.content@),
            "\""@,
            ",\"add_time_ms\":"@,
            dec_digits(ev.add_time_ms as nat),
            "}"@,
        );
        assert(ser_hist_entry(ev) == "{\"id\":\""@ + ((esc_str(h.id@) + "\""@)
            + (",\"content\":\""@ + ((esc_str(h.content@) + "\""@) + (",\"add_time_ms\":"@ + (
        dec_digits(ev.add_time_ms as nat) + "}"@))))));
    }
}

fn push_trash_items(out: &mut Vec<char>, es: &Vec<TrashEntry>, from: usize)
    requires
        from <= es@.len(),
    ensures
        final(out)@ == old(out)@ + ser_trash_items(
            trash_view(es@).subrange(from as int, trash_view(es@).len() as int),
        ),
    decreases es@.len() - from,
{
    let ghost tail = trash_view(es@).subrange(from as int, trash_view(es@).len() as int);
    if from >= es.len() {
        proof {
            assert(tail.len() == 0);
            assert(out@ =~= old(out)@ + ser_trash_items(tail));
        }
    } else {
        proof {
            assert(tail[0] == trash_entry_view(es@[from as int]));
        }
        push_trash_entry(out, &es[from]);
        if from + 1 < es.len() {
            push_str_chars(out, ",");
            push_trash_items(out, es, from + 1);
            proof {
                assert(tail.drop_first() =~= trash_view(es@).subrange(
                    from + 1,
                    trash_view(es@).len() as int,
                ));
                assert(out@ =~= old(out)@ + ser_trash_items(tail));
            }
        } else {
            proof {
                assert(tail.len() == 1);
                assert(out@ =~= old(out)@ + ser_trash_items(tail));
            }
        }
    }
}

fn push_hist_items(out: &mut Vec<char>, es: &Vec<HistoryEntry>, from: usize)
    requires
        from <= es@.len(),
    ensures
        final(out)@ == old(out)@ + ser_hist_items(
            history_view(es@).subrange(from as int, history_view(es@).len() as int),
        ),
    decreases es@.len() - from,
{
    let ghost tail = history_view(es@).subrange(from as int, history_view(es@).len() as int);
    if from >= es.len() {
        proof {
            assert(tail.len() == 0);
            assert(out@ =~= old(out)@ + ser_hist_items(tail));
        }
    } else {
        proof {
            assert(tail[0] == history_entry_view(es@[from as int]));
        }
        push_hist_entry(out, &es[from]);
        if from + 1 < es.len() {
            push_str_chars(out, ",");
            push_hist_items(out, es, from + 1);
            proof {
                assert(tail.drop_first() =~= history_view(es@).subrange(
                    from + 1,
                    history_view(es@).len() as int,
                ));
                assert(out@ =~= old(out)@ + ser_hist_items(tail));
            }
        } else {
            proof {
                assert(tail.len() == 1);
                assert(out@ =~= old(out)@ + ser_hist_items(tail));
            }
        }
    }
}

/// Serialize the trash bin to its persisted document.
pub fn save_trashcan(trash: &Vec<TrashEntry>) -> (r: String)
    ensures
        r@ == ser_trash_doc(trash_view(trash@)),
{
    let mut out: Vec<char> = Vec::new();
    push_str_chars(&mut out, "[");
    push_trash_items(&mut out, trash, 0);
    push_str_chars(&mut out, "]");
    proof {
        assert(trash_view(trash@).subrange(0, trash_view(trash@).len() as int)
            =~= trash_view(trash@));
        assert(out@ =~= ser_trash_doc(trash_view(trash@)));
    }
    string_from_chars(&out)
}

/// Serialize the history log to its persisted document.
pub fn save_history(history: &Vec<HistoryEntry>) -> (r: String)
    ensures
        r@ == ser_hist_doc(history_view(history@)),
{
    let mut out: Vec<char> = Vec::new();
    push_str_chars(&mut out, "[");
    push_hist_items(&mut out, history, 0);
    push_str_chars(&mut out, "]");
    proof {
        assert(history_view(history@).subrange(0, history_view(history@).len() as int)
            =~= history_view(history@));
        assert(out@ =~= ser_hist_doc(history_view(history@)));
    }
    string_from_chars(&out)
}

fn parse_trash_entry_exec(s: &Vec<char>, pos: usize) -> (r: Option<(TrashEntry, usize)>)
    ensures
        match r {
            Option::Some((e, p)) => parse_trash_entry(s@, pos as int) == Option::Some(
                (trash_entry_view(e), p as int),
            ) && pos < p <= s@.len(),
            Option::None => parse_trash_entry(s@, pos as int) is None,
        },
{
    let p1 = match eat_str(s, pos, "{\"data\":") {
        Some(p) => p,
        None => {
            return None;
        },
    };
    let (data, p2) = match parse_node_exec(s, p1) {
        Some(x) => x,
        None => {
            return None;
        },
    };
    let p2b = match eat_str(s, p2, ",\"add_time_ms\":") {
        Some(p) => p,
        None => {
            return None;
        },
    };
    let (v, p3) = match parse_number_exec(s, p2b) {
        Some(x) => x,
        None => {
            return None;
        },
    };
    let p3b = match eat_str(s, p3, ",\"parent_id\":") {
        Some(p) => p,
        None => {
            return None;
        },
    };
    let (pid, p4) = match eat_str(s, p3b, "null") {
        Some(p) => (None, p),
        None => {
            let pq = match eat_str(s, p3b, "\"") {
                Some(p) => p,
                None => {
                    return None;
                },
            };
            match parse_str_exec(s, pq) {
                Some((t, p)) => (Some(string_from_chars(&t)), p),
                None => {
                    return None;
                },
            }
        },
    };
    let p5 = match eat_str(s, p4, "}") {
        Some(p) => p,
        None => {
            return None;
        },
    };
    let e = TrashEntry { data, add_time_ms: v, parent_id: pid };
    proof {
        assert(trash_entry_view(e) =~= parse_trash_entry(s@, pos as int)->Some_0.0);
    }
    Some((e, p5))
}

fn parse_hist_entry_exec(s: &Vec<char>, pos: usize) -> (r: Option<(HistoryEntry, usize)>)
    ensures
        match r {
            Option::Some((e, p)) => parse_hist_entry(s@, pos as int) == Option::Some(
                (history_entry_view(e), p as int),
            ) && pos < p <= s@.len(),
            Option::None => parse_hist_entry(s@, pos as int) is None,
        },
{
    let p1 = match eat_str(s, pos, "{\"id\":\"") {
        Some(p) => p,
        None => {
            return None;
        },
    };
    let (id_chars, p2) = match parse_str_exec(s, p1) {
        Some(x) => x,
        None => {
            return None;
        },
    };
    let p2b = match eat_str(s, p2, ",\"content\":\"") {
        Some(p) => p,
        None => {
            return None;
        },
    };
    let (content_chars, p3) = match parse_str_exec(s, p2b) {
        Some(x) => x,
        None => {
            return None;
        },
    };
    let p3b = match eat_str(s, p3, ",\"add_time_ms\":") {
        Some(p) => p,
        None => {
            return None;
        },
    };
    let (v, p4) = match parse_number_exec(s, p3b) {
        Some(x) => x,
        None => {
            return None;
        },
    };
    let p5 = match eat_str(s, p4, "}") {
        Some(p) => p,
        None => {
            return None;
        },
    };
    let e = HistoryEntry {
        id: string_from_chars(&id_chars),
        content: string_from_chars(&content_chars),
        add_time_ms: v,
    };
    proof {
        assert(history_entry_view(e) =~= parse_hist_entry(s@, pos as int)->Some_0.0);
    }
    Some((e, p5))
}

fn parse_trash_items_exec(s: &Vec<char>, pos: usize) -> (r: Option<(Vec<TrashEntry>, usize)>)
    ensures
        match r {
            Option::Some((v, p)) => parse_trash_items(s@, pos as int) == Option::Some(
                (trash_view(v@), p as int),
            ) && pos <= p <= s@.len(),
            Option::None => parse_trash_items(s@, pos as int) is None,
        },
    decreases s@.len() - pos,
{
    match eat_str(s, pos, "]") {
        Some(_) => {
            let v: Vec<TrashEntry> = Vec::new();
            proof {
                assert(trash_view(v@) =~= Seq::<TrashV>::empty());
            }
            return Some((v, pos));
        },
        None => {},
    }
    let (e, p) = match parse_trash_entry_exec(s, pos) {
        Some(x) => x,
        None => {
            return None;
        },
    };
    match eat_str(s, p, ",") {
        Some(q) => {
            match parse_trash_items_exec(s, q) {
                Some((rest, p2)) => {
                    let ghost pre = rest@;
                    let ghost restv = trash_view(rest@);
                    let ghost ev = trash_entry_view(e);
                    let mut rest = rest;
                    rest.insert(0, e);
                    proof {
                        assert(rest@ =~= seq![e] + pre);
                        assert(trash_view(rest@) =~= seq![ev] + restv);
                    }
                    Some((rest, p2))
                },
                None => None,
            }
        },
        None => {
            let ghost ev = trash_entry_view(e);
            let mut v: Vec<TrashEntry> = Vec::new();
            v.push(e);
            proof {
                assert(trash_view(v@) =~= seq![ev]);
            }
            Some((v, p))
        },
    }
}

fn parse_hist_items_exec(s: &Vec<char>, pos: usize) -> (r: Option<(Vec<HistoryEntry>, usize)>)
    ensures
        match r {
            Option::Some((v, p)) => parse_hist_items(s@, pos as int) == Option::Some(
                (history_view(v@), p as int),
            ) && pos <= p <= s@.len(),
            Option::None => parse_hist_items(s@, pos as int) is None,
        },
    decreases s@.len() - pos,
{
    match eat_str(s, pos, "]") {
        Some(_) => {
            let v: Vec<HistoryEntry> = Vec::new();
            proof {
                assert(history_view(v@) =~= Seq::<HistV>::empty());
            }
            return Some((v, pos));
        },
        None => {},
    }
    let (e, p) = match parse_hist_entry_exec(s, pos) {
        Some(x) => x,
        None => {
            return None;
        },
    };
    match eat_str(s, p, ",") {
        Some(q) => {
            match parse_hist_items_exec(s, q) {
                Some((rest, p2)) => {
                    let ghost pre = rest@;
                    let ghost restv = history_view(rest@);
                    let ghost ev = history_entry_view(e);
                    let mut rest = rest;
                    rest.insert(0, e);
                    proof {
                        assert(rest@ =~= seq![e] + pre);
                        assert(history_view(rest@) =~= seq![ev] + restv);
                    }
                    Some((rest, p2))
                },
                None => None,
            }
        },
        None => {
            let ghost ev = history_entry_view(e);
            let mut v: Vec<HistoryEntry> = Vec::new();
            v.push(e);
            proof {
                assert(history_view(v@) =~= seq![ev]);
            }
            Some((v, p))
        },
    }
}

/// Parse a trash document; anything the strict parser does not accept — a
/// missing document included — loads as the empty trash.
pub fn load_trashcan(raw: Option<&String>) -> (r: Vec<TrashEntry>)
    ensures
        match raw {
            Option::None => r@.len() == 0,
            Option::Some(s) => match parse_trash_doc(s@) {
                Option::Some(tv) => trash_view(r@) == tv,
                Option::None => r@.len() == 0,
            },
        },
{
    let s = match raw {
        None => {
            return Vec::new();
        },
        Some(s) => s,
    };
    let cs = chars_of(s.as_str());
    let p0 = match eat_str(&cs, 0, "[") {
        Some(p) => p,
        None => {
            return Vec::new();
        },
    };
    match parse_trash_items_exec(&cs, p0) {
        None => Vec::new(),
        Some((v, p)) => {
            match eat_str(&cs, p, "]") {
                Some(q) => {
                    if q == cs.len() {
                        v
                    } else {
                        Vec::new()
                    }
                },
                None => Vec::new(),
            }
        },
    }
}

/// Parse a history document; anything the strict parser does not accept — a
/// missing document included — loads as the empty log.
pub fn load_history(raw: Option<&String>) -> (r: Vec<HistoryEntry>)
    ensures
        match raw {
            Option::None => r@.len() == 0,
            Option::Some(s) => match parse_hist_doc(s@) {
                Option::Some(hv) => history_view(r@) == hv,
                Option::None => r@.len() == 0,
            },
        },
{
    let s = match raw {
        None => {
            return Vec::new();
        },
        Some(s) => s,
    };
    let cs = chars_of(s.as_str());
    let p0 = match eat_str(&cs, 0, "[") {
        Some(p) => p,
        None => {
            return Vec::new();
        },
    };
    match parse_hist_items_exec(&cs, p0) {
        None => Vec::new(),
        Some((v, p)) => {
            match eat_str(&cs, p, "]") {
                Some(q) => {
                    if q == cs.len() {
                        v
                    } else {
                        Vec::new()
                    }
                },
                None => Vec::new(),
            }
        },
    }
}

} // verus!
