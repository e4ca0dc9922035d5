use sweethosts::model::{NodeKind, ProfileNode, TrashEntry, HistoryEntry};
use sweethosts::tree::get_item_from_list;
use sweethosts::trash::{clear_trashcan, delete_item_from_trashcan, move_many_to_trashcan,
    move_to_trashcan, restore_item_from_trashcan};
use sweethosts::history::{add_history, cmd_add_history, cmd_clear_history, cmd_delete_history,
    delete_history, find_add_history, make_cmd_record, timestamp_id};
use sweethosts::docs::{export_data, get_basic_data, import_data, load_history, load_list,
    load_trashcan, save_history, save_list, save_trashcan};
use sweethosts::content_file_name;

fn leaf(id: &str, title: &str, on: bool) -> ProfileNode {
    ProfileNode {
        id: id.to_string(),
        title: title.to_string(),
        on,
        kind: NodeKind::Leaf,
        children: Vec::new(),
    }
}

fn folder(id: &str, title: &str, on: bool, children: Vec<ProfileNode>) -> ProfileNode {
    ProfileNode { id: id.to_string(), title: title.to_string(), on, kind: NodeKind::Folder, children }
}

fn node_eq(a: &ProfileNode, b: &ProfileNode) -> bool {
    a.id == b.id && a.title == b.title && a.on == b.on && a.kind == b.kind
        && a.children.len() == b.children.len()
        && a.children.iter().zip(b.children.iter()).all(|(x, y)| node_eq(x, y))
}

fn tree_eq(a: &[ProfileNode], b: &[ProfileNode]) -> bool {
    a.len() == b.len() && a.iter().zip(b.iter()).all(|(x, y)| node_eq(x, y))
}

fn trash_eq(a: &[TrashEntry], b: &[TrashEntry]) -> bool {
    a.len() == b.len()
        && a.iter().zip(b.iter()).all(|(x, y)| {
            node_eq(&x.data, &y.data) && x.add_time_ms == y.add_time_ms
                && x.parent_id == y.parent_id
        })
}

fn hist_eq(a: &[HistoryEntry], b: &[HistoryEntry]) -> bool {
    a.len() == b.len()
        && a.iter().zip(b.iter()).all(|(x, y)| {
            x.id == y.id && x.content == y.content && x.add_time_ms == y.add_time_ms
        })
}

#[test]
fn tree_round_trip_nested() {
    let tree = vec![
        leaf("a\"b\\c\nd", "ti\ttle\r", true),
        folder(
            "f1",
            "Folder",
            false,
            vec![leaf("x", "", true), folder("f2", "inner", true, vec![leaf("y", "deep", false)])],
        ),
        leaf("", "empty id", false),
    ];
    let doc = save_list(&tree);
    let back = load_list(Some(&doc));
    assert!(tree_eq(&tree, &back));
}

#[test]
fn tree_round_trip_empty_and_single() {
    let empty: Vec<ProfileNode> = Vec::new();
    let back = load_list(Some(&save_list(&empty)));
    assert_eq!(back.len(), 0);

    let one = vec![leaf("a", "T", true)];
    let back = load_list(Some(&save_list(&one)));
    assert!(tree_eq(&one, &back));
}

#[test]
fn tree_document_exact_text() {
    let one = vec![leaf("a", "T", true)];
    assert_eq!(
        save_list(&one),
        "[{\"id\":\"a\",\"title\":\"T\",\"on\":true,\"kind\":\"leaf\",\"children\":[]}]"
    );
    let two = vec![folder("f", "F", false, vec![leaf("c", "C", true)])];
    assert_eq!(
        save_list(&two),
        "[{\"id\":\"f\",\"title\":\"F\",\"on\":false,\"kind\":\"folder\",\"children\":[{\"id\":\"c\",\"title\":\"C\",\"on\":true,\"kind\":\"leaf\",\"children\":[]}]}]"
    );
}

#[test]
fn load_missing_or_corrupt_is_empty() {
    assert_eq!(load_list(None).len(), 0);
    assert_eq!(load_list(Some(&"not a document".to_string())).len(), 0);
    assert_eq!(load_list(Some(&"[{\"id\":".to_string())).len(), 0);
    assert_eq!(load_trashcan(None).len(), 0);
    assert_eq!(load_trashcan(Some(&"{}".to_string())).len(), 0);
    assert_eq!(load_history(None).len(), 0);
    assert_eq!(load_history(Some(&"".to_string())).len(), 0);
}

#[test]
fn get_item_is_shallow() {
    let tree = vec![leaf("a", "A", true), folder("f", "F", true, vec![leaf("x", "X", true)])];
    assert!(get_item_from_list(&tree, &"a".to_string()).is_some());
    assert!(get_item_from_list(&tree, &"f".to_string()).is_some());
    assert!(get_item_from_list(&tree, &"x".to_string()).is_none());
    assert!(get_item_from_list(&tree, &"zzz".to_string()).is_none());
}

#[test]
fn move_then_restore_top_level() {
    let mut tree = vec![leaf("a", "A", true), leaf("b", "B", true)];
    let mut trash: Vec<TrashEntry> = Vec::new();
    assert!(move_to_trashcan(&mut tree, &mut trash, &"a".to_string(), 77));
    assert_eq!(tree.len(), 1);
    assert_eq!(trash.len(), 1);
    assert_eq!(trash[0].data.id, "a");
    assert!(!trash[0].data.on, "a trashed node is switched off");
    assert_eq!(trash[0].add_time_ms, 77);
    assert_eq!(trash[0].parent_id, None);

    assert!(restore_item_from_trashcan(&mut tree, &mut trash, &"a".to_string()));
    assert_eq!(trash.len(), 0);
    assert_eq!(tree.len(), 2);
    assert_eq!(tree[1].id, "a");
    assert!(!tree[1].on, "a restored node keeps its trashed flag");
}

#[test]
fn move_nested_id_changes_nothing() {
    let tree0 = vec![folder("f", "F", true, vec![leaf("x", "X", true)])];
    let mut tree = vec![folder("f", "F", true, vec![leaf("x", "X", true)])];
    let mut trash: Vec<TrashEntry> = Vec::new();
    assert!(move_to_trashcan(&mut tree, &mut trash, &"x".to_string(), 5));
    assert!(tree_eq(&tree0, &tree));
    assert_eq!(trash.len(), 0);
}

#[test]
fn restore_missing_id_reports_false() {
    let mut tree = vec![leaf("a", "A", true)];
    let mut trash: Vec<TrashEntry> = Vec::new();
    assert!(!restore_item_from_trashcan(&mut tree, &mut trash, &"nope".to_string()));
    assert_eq!(tree.len(), 1);
}

#[test]
fn delete_and_clear_trash() {
    let mut tree = vec![leaf("a", "A", true), leaf("b", "B", false)];
    let mut trash: Vec<TrashEntry> = Vec::new();
    move_to_trashcan(&mut tree, &mut trash, &"a".to_string(), 1);
    move_to_trashcan(&mut tree, &mut trash, &"b".to_string(), 2);
    assert_eq!(trash.len(), 2);
    assert!(delete_item_from_trashcan(&mut trash, &"a".to_string()));
    assert_eq!(trash.len(), 1);
    assert!(!delete_item_from_trashcan(&mut trash, &"a".to_string()));
    assert!(clear_trashcan(&mut trash));
    assert_eq!(trash.len(), 0);
}

#[test]
fn move_many_moves_each() {
    let mut tree = vec![leaf("a", "A", true), leaf("b", "B", true), leaf("c", "C", true)];
    let mut trash: Vec<TrashEntry> = Vec::new();
    let ids = vec!["a".to_string(), "c".to_string()];
    assert!(move_many_to_trashcan(&mut tree, &mut trash, &ids, 9));
    assert_eq!(tree.len(), 1);
    assert_eq!(tree[0].id, "b");
    assert_eq!(trash.len(), 2);
}

#[test]
fn trash_round_trip() {
    let mut tree = vec![leaf("a", "A", true), folder("f", "F", false, vec![leaf("k", "K", true)])];
    let mut trash: Vec<TrashEntry> = Vec::new();
    move_to_trashcan(&mut tree, &mut trash, &"a".to_string(), 1700000000123);
    move_to_trashcan(&mut tree, &mut trash, &"f".to_string(), 1700000000456);
    let doc = save_trashcan(&trash);
    let back = load_trashcan(Some(&doc));
    assert!(trash_eq(&trash, &back));
}

#[test]
fn trash_round_trip_with_parent_id() {
    let trash = vec![
        TrashEntry { data: leaf("a", "A", false), add_time_ms: 5, parent_id: None },
        TrashEntry {
            data: leaf("b", "B\"q", false),
            add_time_ms: 9999999999999999999,
            parent_id: Some("par'ent\n".to_string()),
        },
    ];
    let back = load_trashcan(Some(&save_trashcan(&trash)));
    assert!(trash_eq(&trash, &back));
}

#[test]
fn history_round_trip_and_delete() {
    let mut h: Vec<HistoryEntry> = Vec::new();
    add_history(&mut h, "first\ncontent", 10);
    add_history(&mut h, "", 11);
    let doc = save_history(&h);
    let back = load_history(Some(&doc));
    assert!(hist_eq(&h, &back));

    assert_eq!(h[0].id, "10");
    assert!(delete_history(&mut h, &"10".to_string()));
    assert_eq!(h.len(), 1);
    assert!(!delete_history(&mut h, &"10".to_string()));
}

#[test]
fn timestamp_ids_are_decimal() {
    assert_eq!(timestamp_id(0), "0");
    assert_eq!(timestamp_id(1700000000123), "1700000000123");
    assert_eq!(timestamp_id(u64::MAX), "18446744073709551615");
}

#[test]
fn cmd_log_operations() {
    let mut log = Vec::new();
    let rec = make_cmd_record(true, "out".to_string(), "".to_string(), 42);
    assert_eq!(rec.id, "42");
    cmd_add_history(&mut log, rec);
    cmd_add_history(&mut log, make_cmd_record(false, "".to_string(), "err".to_string(), 43));
    assert_eq!(log.len(), 2);
    assert!(cmd_delete_history(&mut log, &"42".to_string()));
    assert_eq!(log.len(), 1);
    assert!(!cmd_delete_history(&mut log, &"42".to_string()));
    assert!(cmd_clear_history(&mut log));
    assert_eq!(log.len(), 0);
}

#[test]
fn find_history_moves_item_to_end() {
    let mut list = vec!["a".to_string(), "b".to_string(), "c".to_string()];
    find_add_history(&mut list, "a".to_string());
    assert_eq!(list, vec!["b".to_string(), "c".to_string(), "a".to_string()]);
    find_add_history(&mut list, "new".to_string());
    assert_eq!(list.len(), 4);
    assert_eq!(list[3], "new");
}

#[test]
fn export_import_round_trip() {
    let tree = vec![leaf("a", "A", true), folder("f", "F", false, vec![leaf("k", "K", true)])];
    let trash = vec![TrashEntry {
        data: leaf("old", "Old", false),
        add_time_ms: 123,
        parent_id: None,
    }];
    let mut hist = Vec::new();
    add_history(&mut hist, "body", 7);
    let doc = export_data(&tree, &trash, &hist);
    let (t2, tc2) = import_data(&doc).expect("an exported document imports");
    assert!(tree_eq(&tree, &t2));
    assert!(trash_eq(&trash, &tc2));
    assert!(import_data(&"junk".to_string()).is_none());
}

#[test]
fn basic_data_exact_text() {
    let tree: Vec<ProfileNode> = Vec::new();
    let trash: Vec<TrashEntry> = Vec::new();
    assert_eq!(
        get_basic_data(&tree, &trash),
        "{\"list\":[],\"trashcan\":[],\"version\":\"0.0.0\"}"
    );
}

#[test]
fn content_file_names() {
    assert_eq!(content_file_name("abc"), "hosts_content_abc.txt");
    assert_eq!(content_file_name(""), "hosts_content_.txt");
}
