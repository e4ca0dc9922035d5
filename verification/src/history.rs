//! The append-only logs: the history of installed documents, the command-hook
//! log, and the small search-history list.

use vstd::prelude::*;

use crate::codec::{dec_digits, push_dec_u64, string_from_chars};
use crate::model::{cmd_record_view, cmd_view, history_entry_view, history_view, strings_view,
    CmdRecord, CmdV, HistoryEntry, HistV};

verus! {

/// The history entry a log append at `now_ms` produces: its id is the
/// timestamp's decimal digits.
pub open spec fn spec_history_entry(content: Seq<char>, now_ms: u64) -> HistV {
    HistV { id: dec_digits(now_ms as nat), content: content, add_time_ms: now_ms }
}

/// The decimal digits of a timestamp, as a string: the id a log append coins.
pub fn timestamp_id(now_ms: u64) -> (r: String)
    ensures
        r@ == dec_digits(now_ms as nat),
{
    let mut v: Vec<char> = Vec::new();
    push_dec_u64(&mut v, now_ms);
    string_from_chars(&v)
}

/// Append one installed document to the history log, timestamped `now_ms`.
pub fn add_history(history: &mut Vec<HistoryEntry>, content: &str, now_ms: u64) -> (r: bool)
    ensures
        r == true,
        history_view(final(history)@) == history_view(old(history)@).push(
            spec_history_entry(content@, now_ms),
        ),
{
    let id = timestamp_id(now_ms);
    let mut c = String::new();
    c.append(content);
    let entry = HistoryEntry { id, content: c, add_time_ms: now_ms };
    let ghost before = history_view(history@);
    history.push(entry);
    proof {
        assert(history_view(history@) =~= before.push(spec_history_entry(content@, now_ms)));
    }
    true
}

/// The history log with every entry carrying `id` removed.
pub open spec fn spec_remove_history(hv: Seq<HistV>, id: Seq<char>) -> Seq<HistV>
    decreases hv.len(),
{
    if hv.len() == 0 {
        Seq::empty()
    } else if hv.last().id == id {
        spec_remove_history(hv.drop_last(), id)
    } else {
        spec_remove_history(hv.drop_last(), id).push(hv.last())
    }
}

/// Some history entry carries `id`.
pub open spec fn has_history_match(hv: Seq<HistV>, id: Seq<char>) -> bool {
    exists|i: int| 0 <= i < hv.len() && hv[i].id == id
}

/// Delete every history entry carrying `id`; returns whether anything was
/// removed.
pub fn delete_history(history: &mut Vec<HistoryEntry>, id: &String) -> (changed: bool)
    ensures
        history_view(final(history)@) == spec_remove_history(history_view(old(history)@), id@),
        changed == has_history_match(history_view(old(history)@), id@),
{
    let ghost orig = history_view(history@);
    let mut kept: Vec<HistoryEntry> = Vec::new();
    let mut hit: bool = false;
    let ghost mut k: int = 0;
    proof {
        assert(history_view(history@) =~= orig.subrange(0, orig.len() as int));
    }
    while history.len() > 0
        invariant
            0 <= k <= orig.len(),
            history_view(history@) =~= orig.subrange(k, orig.len() as int),
            history@.len() == orig.len() - k,
            history_view(kept@) == spec_remove_history(orig.subrange(0, k), id@),
            hit == has_history_match(orig.subrange(0, k), id@),
        decreases history.len(),
    {
        let ghost pre = history@;
        let e = history.remove(0);
        proof {
            assert(history_entry_view(e) == history_view(pre)[0]);
            assert(history_entry_view(e) == orig[k]);
            assert(history@ =~= pre.drop_first());
            assert forall|j: int| 0 <= j < history@.len() implies
                #[trigger] history_view(history@)[j]
                == orig.subrange(k + 1, orig.len() as int)[j] by {
                assert(history@[j] == pre[j + 1]);
                assert(history_view(pre)[j + 1] == orig.subrange(k, orig.len() as int)[j + 1]);
            };
            assert(history_view(history@) =~= orig.subrange(k + 1, orig.len() as int));
            assert(orig.subrange(0, k + 1).drop_last() =~= orig.subrange(0, k));
            assert(orig.subrange(0, k + 1).last() == orig[k]);
        }
        if e.id == *id {
            hit = true;
            proof {
                assert(orig.subrange(0, k + 1)[k].id == id@);
                assert(has_history_match(orig.subrange(0, k + 1), id@));
            }
        } else {
            let ghost old_kept = kept@;
            kept.push(e);
            proof {
                assert(kept@.drop_last() =~= old_kept);
                assert(history_view(kept@) =~= history_view(old_kept).push(history_entry_view(e)));
            }
        }
        proof {
            if hit {
                if history_entry_view(e).id == id@ {
                    assert(orig.subrange(0, k + 1)[k].id == id@);
                } else {
                    let i = choose|i: int| 0 <= i < k && orig.subrange(0, k)[i].id == id@;
                    assert(orig.subrange(0, k + 1)[i] == orig.subrange(0, k)[i]);
                    assert(orig.subrange(0, k + 1)[i].id == id@);
                }
                assert(has_history_match(orig.subrange(0, k + 1), id@));
            } else {
                assert(!has_history_match(orig.subrange(0, k + 1), id@)) by {
                    assert forall|i: int| 0 <= i < k + 1 implies #[trigger] orig.subrange(
                        0,
                        k + 1,
                    )[i].id != id@ by {
                        assert(orig.subrange(0, k)[i] == orig.subrange(0, k + 1)[i] || i == k);
                    };
                };
            }
            k = k + 1;
        }
    }
    proof {
        assert(orig.subrange(0, k) =~= orig);
    }
    core::mem::swap(history, &mut kept);
    hit
}

/// The record the command hook writes for one run of the configured command.
pub fn make_cmd_record(
    success: bool,
    stdout: String,
    stderr: String,
    now_ms: u64,
) -> (r: CmdRecord)
    ensures
        cmd_record_view(r) == (CmdV {
            id: dec_digits(now_ms as nat),
            success: success,
            stdout: stdout@,
            stderr: stderr@,
            add_time_ms: now_ms,
        }),
{
    let id = timestamp_id(now_ms);
    CmdRecord { id, success, stdout, stderr, add_time_ms: now_ms }
}

/// Append one record to the command-hook log.
pub fn cmd_add_history(log: &mut Vec<CmdRecord>, rec: CmdRecord)
    ensures
        cmd_view(final(log)@) == cmd_view(old(log)@).push(cmd_record_view(rec)),
{
    let ghost before = cmd_view(log@);
    let ghost rv = cmd_record_view(rec);
    log.push(rec);
    proof {
        assert(cmd_view(log@) =~= before.push(rv));
    }
}

/// The command-hook log with every record carrying `id` removed.
pub open spec fn spec_remove_cmd(cv: Seq<CmdV>, id: Seq<char>) -> Seq<CmdV>
    decreases cv.len(),
{
    if cv.len() == 0 {
        Seq::empty()
    } else if cv.last().id == id {
        spec_remove_cmd(cv.drop_last(), id)
    } else {
        spec_remove_cmd(cv.drop_last(), id).push(cv.last())
    }
}

/// Some command-hook record carries `id`.
pub open spec fn has_cmd_match(cv: Seq<CmdV>, id: Seq<char>) -> bool {
    exists|i: int| 0 <= i < cv.len() && cv[i].id == id
}

/// Delete every command-hook record carrying `id`; returns whether anything
/// was removed.
pub fn cmd_delete_history(log: &mut Vec<CmdRecord>, id: &String) -> (changed: bool)
    ensures
        cmd_view(final(log)@) == spec_remove_cmd(cmd_view(old(log)@), id@),
        changed == has_cmd_match(cmd_view(old(log)@), id@),
{
    let ghost orig = cmd_view(log@);
    let mut kept: Vec<CmdRecord> = Vec::new();
    let mut hit: bool = false;
    let ghost mut k: int = 0;
    proof {
        assert(cmd_view(log@) =~= orig.subrange(0, orig.len() as int));
    }
    while log.len() > 0
        invariant
            0 <= k <= orig.len(),
            cmd_view(log@) =~= orig.subrange(k, orig.len() as int),
            log@.len() == orig.len() - k,
            cmd_view(kept@) == spec_remove_cmd(orig.subrange(0, k), id@),
            hit == has_cmd_match(orig.subrange(0, k), id@),
        decreases log.len(),
    {
        let ghost pre = log@;
        let e = log.remove(0);
        proof {
            assert(cmd_record_view(e) == cmd_view(pre)[0]);
            assert(cmd_record_view(e) == orig[k]);
            assert(log@ =~= pre.drop_first());
            assert forall|j: int| 0 <= j < log@.len() implies #[trigger] cmd_view(log@)[j]
                == orig.subrange(k + 1, orig.len() as int)[j] by {
                assert(log@[j] == pre[j + 1]);
                assert(cmd_view(pre)[j + 1] == orig.subrange(k, orig.len() as int)[j + 1]);
            };
            assert(cmd_view(log@) =~= orig.subrange(k + 1, orig.len() as int));
            assert(orig.subrange(0, k + 1).drop_last() =~= orig.subrange(0, k));
            assert(orig.subrange(0, k + 1).last() == orig[k]);
        }
        if e.id == *id {
            hit = true;
            proof {
                assert(orig.subrange(0, k + 1)[k].id == id@);
                assert(has_cmd_match(orig.subrange(0, k + 1), id@));
            }
        } else {
            let ghost old_kept = kept@;
            kept.push(e);
            proof {
                assert(kept@.drop_last() =~= old_kept);
                assert(cmd_view(kept@) =~= cmd_view(old_kept).push(cmd_record_view(e)));
            }
        }
        proof {
            if hit {
                if cmd_record_view(e).id == id@ {
                    assert(orig.subrange(0, k + 1)[k].id == id@);
                } else {
                    let i = choose|i: int| 0 <= i < k && orig.subrange(0, k)[i].id == id@;
                    assert(orig.subrange(0, k + 1)[i] == orig.subrange(0, k)[i]);
                    assert(orig.subrange(0, k + 1)[i].id == id@);
                }
                assert(has_cmd_match(orig.subrange(0, k + 1), id@));
            } else {
                assert(!has_cmd_match(orig.subrange(0, k + 1), id@)) by {
                    assert forall|i: int| 0 <= i < k + 1 implies #[trigger] orig.subrange(
                        0,
                        k + 1,
                    )[i].id != id@ by {
                        assert(orig.subrange(0, k)[i] == orig.subrange(0, k + 1)[i] || i == k);
                    };
                };
            }
            k = k + 1;
        }
    }
    proof {
        assert(orig.subrange(0, k) =~= orig);
    }
    core::mem::swap(log, &mut kept);
    hit
}

/// Empty the command-hook log.
pub fn cmd_clear_history(log: &mut Vec<CmdRecord>) -> (r: bool)
    ensures
        r == true,
        final(log)@.len() == 0,
{
    log.clear();
    true
}

/// The search-history list with every copy of `item` removed.
pub open spec fn spec_remove_string(ss: Seq<Seq<char>>, item: Seq<char>) -> Seq<Seq<char>>
    decreases ss.len(),
{
    if ss.len() == 0 {
        Seq::empty()
    } else if ss.last() == item {
        spec_remove_string(ss.drop_last(), item)
    } else {
        spec_remove_string(ss.drop_last(), item).push(ss.last())
    }
}

/// Add one item to the search-history list: any earlier copy is removed, and
/// the item goes to the end as the most recent entry.
pub fn find_add_history(list: &mut Vec<String>, item: String)
    ensures
        strings_view(final(list)@) == spec_remove_string(strings_view(old(list)@), item@).push(
            item@,
        ),
{
    let ghost orig = strings_view(list@);
    let mut kept: Vec<String> = Vec::new();
    let ghost mut k: int = 0;
    proof {
        assert(strings_view(list@) =~= orig.subrange(0, orig.len() as int));
    }
    while list.len() > 0
        invariant
            0 <= k <= orig.len(),
            strings_view(list@) =~= orig.subrange(k, orig.len() as int),
            list@.len() == orig.len() - k,
            strings_view(kept@) == spec_remove_string(orig.subrange(0, k), item@),
        decreases list.len(),
    {
        let ghost pre = list@;
        let s = list.remove(0);
        proof {
            assert(s@ == strings_view(pre)[0]);
            assert(s@ == orig[k]);
            assert(list@ =~= pre.drop_first());
            assert forall|j: int| 0 <= j < list@.len() implies #[trigger] strings_view(list@)[j]
                == orig.subrange(k + 1, orig.len() as int)[j] by {
                assert(list@[j] == pre[j + 1]);
                assert(strings_view(pre)[j + 1] == orig.subrange(k, orig.len() as int)[j + 1]);
            };
            assert(strings_view(list@) =~= orig.subrange(k + 1, orig.len() as int));
            assert(orig.subrange(0, k + 1).drop_last() =~= orig.subrange(0, k));
            assert(orig.subrange(0, k + 1).last() == orig[k]);
        }
        if !(s == item) {
            let ghost old_kept = kept@;
            kept.push(s);
            proof {
                assert(kept@.drop_last() =~= old_kept);
                assert(strings_view(kept@) =~= strings_view(old_kept).push(s@));
            }
        }
        proof {
            k = k + 1;
        }
    }
    proof {
        assert(orig.subrange(0, k) =~= orig);
    }
    let ghost kv = strings_view(kept@);
    let ghost iv = item@;
    kept.push(item);
    proof {
        assert(strings_view(kept@) =~= kv.push(iv));
    }
    core::mem::swap(list, &mut kept);
}

} // verus!
