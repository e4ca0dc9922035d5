//! The apply pipeline: install a composed document as the system hosts file.
//! The decisions — sandbox redirect, direct write first, elevation only as a
//! fallback and only with a caller-supplied secret, the paired history
//! entries on success — are a small state machine here; the caller performs
//! each emitted action (a file write, the privileged copy) and feeds the
//! outcome back in as the next event.

use vstd::prelude::*;

use crate::codec::{dec_digits, push_dec_u64, push_str_chars, string_from_chars};
use crate::history::{add_history, spec_history_entry};
use crate::model::{history_view, HistoryEntry, HistV};

verus! {

/// What an apply run reports.
pub enum ApplyOutcome {
    /// The document stands in the system hosts file.
    Installed,
    /// Sandbox mode was active: the document went to this harmless path.
    InstalledSandboxed(String),
    /// The system path could not be written; the message is the captured
    /// error output of the elevation helper, or nothing when none ran.
    PermissionDenied(Option<String>),
    /// The elevation helper could not be run at all.
    IOFailure,
}

/// The fixed facts of one apply run.
pub struct ApplyRequest {
    /// The document to install.
    pub doc: String,
    /// The sandbox safety switch: when set, the real system path is never
    /// touched.
    pub sandbox: bool,
    /// Whether the platform has the posix elevation pathway.
    pub posix: bool,
    /// The caller-supplied elevation secret, if any.
    pub secret: Option<String>,
    /// The system hosts path.
    pub sys_path: String,
    /// A fresh temporary path, for the sandbox copy or the elevation staging
    /// file.
    pub tmp_path: String,
    /// The system path's content before the run, read best-effort.
    pub old_content: String,
}

/// Where the machine stands.
pub enum ApplyState {
    /// The sandbox copy is being written.
    SandboxWriting,
    /// The direct write to the system path is being tried.
    DirectWriting,
    /// The elevation helper is running.
    Elevating,
    /// The two history entries are being recorded.
    Recording,
    /// The run is over.
    Finished(ApplyOutcome),
}

/// What the caller reports back after performing an action.
pub enum ApplyEvent {
    /// The file write succeeded.
    WriteOk,
    /// The file write failed.
    WriteFailed,
    /// The elevation helper ran and succeeded.
    ElevateOk,
    /// The elevation helper ran and failed; its captured error output.
    ElevateFailed(String),
    /// The elevation helper could not be run at all.
    ElevateUnavailable,
    /// The history entries were recorded.
    Recorded,
}

/// What the caller must do next.
pub enum ApplyAction {
    /// Write `content` to `path`.
    WriteFile { path: String, content: String },
    /// Stage `content` at `tmp_path` and run the privileged copy onto
    /// `sys_path`.
    ElevatedInstall { tmp_path: String, sys_path: String, content: String },
    /// Append the two history entries: the replaced document, then the new
    /// one.
    AppendHistory { old_doc: String, new_doc: String },
    /// Nothing more: report the outcome.
    Finish(ApplyOutcome),
}

/// The first state and action of a run: the sandbox copy when the safety
/// switch is on, else the direct write.
pub open spec fn spec_start(req: ApplyRequest) -> (ApplyState, ApplyAction) {
    if req.sandbox {
        (
            ApplyState::SandboxWriting,
            ApplyAction::WriteFile { path: req.tmp_path, content: req.doc },
        )
    } else {
        (
            ApplyState::DirectWriting,
            ApplyAction::WriteFile { path: req.sys_path, content: req.doc },
        )
    }
}

/// The transition table of the pipeline.
pub open spec fn spec_step(req: ApplyRequest, st: ApplyState, ev: ApplyEvent) -> (
    ApplyState,
    ApplyAction,
) {
    match st {
        ApplyState::SandboxWriting => (
            ApplyState::Finished(ApplyOutcome::InstalledSandboxed(req.tmp_path)),
            ApplyAction::Finish(ApplyOutcome::InstalledSandboxed(req.tmp_path)),
        ),
        ApplyState::DirectWriting => match ev {
            ApplyEvent::WriteOk => (
                ApplyState::Recording,
                ApplyAction::AppendHistory { old_doc: req.old_content, new_doc: req.doc },
            ),
            _ => if req.posix && req.secret is Some {
                (
                    ApplyState::Elevating,
                    ApplyAction::ElevatedInstall {
                        tmp_path: req.tmp_path,
                        sys_path: req.sys_path,
                        content: req.doc,
                    },
                )
            } else {
                (
                    ApplyState::Finished(ApplyOutcome::PermissionDenied(Option::None)),
                    ApplyAction::Finish(ApplyOutcome::PermissionDenied(Option::None)),
                )
            },
        },
        ApplyState::Elevating => match ev {
            ApplyEvent::ElevateOk => (
                ApplyState::Recording,
                ApplyAction::AppendHistory { old_doc: req.old_content, new_doc: req.doc },
            ),
            ApplyEvent::ElevateFailed(msg) => (
                ApplyState::Finished(ApplyOutcome::PermissionDenied(Option::Some(msg))),
                ApplyAction::Finish(ApplyOutcome::PermissionDenied(Option::Some(msg))),
            ),
            _ => (
                ApplyState::Finished(ApplyOutcome::IOFailure),
                ApplyAction::Finish(ApplyOutcome::IOFailure),
            ),
        },
        ApplyState::Recording => (
            ApplyState::Finished(ApplyOutcome::Installed),
            ApplyAction::Finish(ApplyOutcome::Installed),
        ),
        ApplyState::Finished(o) => (ApplyState::Finished(o), ApplyAction::Finish(o)),
    }
}

/// Begin an apply run.
pub fn start_apply(req: &ApplyRequest) -> (r: (ApplyState, ApplyAction))
    ensures
        r == spec_start(*req),
{
    if req.sandbox {
        (
            ApplyState::SandboxWriting,
            ApplyAction::WriteFile { path: req.tmp_path.clone(), content: req.doc.clone() },
        )
    } else {
        (
            ApplyState::DirectWriting,
            ApplyAction::WriteFile { path: req.sys_path.clone(), content: req.doc.clone() },
        )
    }
}

/// Take one step of the pipeline.
pub fn apply_step(req: &ApplyRequest, st: ApplyState, ev: ApplyEvent) -> (r: (
    ApplyState,
    ApplyAction,
))
    ensures
        r == spec_step(*req, st, ev),
{
    match st {
        ApplyState::SandboxWriting => {
            let o = ApplyOutcome::InstalledSandboxed(req.tmp_path.clone());
            let o2 = ApplyOutcome::InstalledSandboxed(req.tmp_path.clone());
            (ApplyState::Finished(o), ApplyAction::Finish(o2))
        },
        ApplyState::DirectWriting => match ev {
            ApplyEvent::WriteOk => (
                ApplyState::Recording,
                ApplyAction::AppendHistory {
                    old_doc: req.old_content.clone(),
                    new_doc: req.doc.clone(),
                },
            ),
            _ => {
                if req.posix && req.secret.is_some() {
                    (
                        ApplyState::Elevating,
                        ApplyAction::ElevatedInstall {
                            tmp_path: req.tmp_path.clone(),
                            sys_path: req.sys_path.clone(),
                            content: req.doc.clone(),
                        },
                    )
                } else {
                    (
                        ApplyState::Finished(ApplyOutcome::PermissionDenied(None)),
                        ApplyAction::Finish(ApplyOutcome::PermissionDenied(None)),
                    )
                }
            },
        },
        ApplyState::Elevating => match ev {
            ApplyEvent::ElevateOk => (
                ApplyState::Recording,
                ApplyAction::AppendHistory {
                    old_doc: req.old_content.clone(),
                    new_doc: req.doc.clone(),
                },
            ),
            ApplyEvent::ElevateFailed(msg) => {
                let m2 = msg.clone();
                (
                    ApplyState::Finished(ApplyOutcome::PermissionDenied(Some(msg))),
                    ApplyAction::Finish(ApplyOutcome::PermissionDenied(Some(m2))),
                )
            },
            _ => (
                ApplyState::Finished(ApplyOutcome::IOFailure),
                ApplyAction::Finish(ApplyOutcome::IOFailure),
            ),
        },
        ApplyState::Recording => (
            ApplyState::Finished(ApplyOutcome::Installed),
            ApplyAction::Finish(ApplyOutcome::Installed),
        ),
        ApplyState::Finished(o) => {
            let o2 = clone_outcome(&o);
            (ApplyState::Finished(o), ApplyAction::Finish(o2))
        },
    }
}

fn clone_outcome(o: &ApplyOutcome) -> (r: ApplyOutcome)
    ensures
        r == *o,
{
    match o {
        ApplyOutcome::Installed => ApplyOutcome::Installed,
        ApplyOutcome::InstalledSandboxed(p) => ApplyOutcome::InstalledSandboxed(p.clone()),
        ApplyOutcome::PermissionDenied(m) => match m {
            Some(s) => ApplyOutcome::PermissionDenied(Some(s.clone())),
            None => ApplyOutcome::PermissionDenied(None),
        },
        ApplyOutcome::IOFailure => ApplyOutcome::IOFailure,
    }
}

/// The history log after recording one apply: exactly two entries appended,
/// the replaced document first, then the installed one.
pub open spec fn spec_record_apply(
    h: Seq<HistV>,
    old_doc: Seq<char>,
    new_doc: Seq<char>,
    t_old: u64,
    t_new: u64,
) -> Seq<HistV> {
    h.push(spec_history_entry(old_doc, t_old)).push(spec_history_entry(new_doc, t_new))
}

/// Record a successful apply: append the replaced document, then the new
/// one, each under its timestamp's id.
pub fn record_apply(
    history: &mut Vec<HistoryEntry>,
    old_doc: &str,
    new_doc: &str,
    t_old: u64,
    t_new: u64,
)
    ensures
        history_view(final(history)@) == spec_record_apply(
            history_view(old(history)@),
            old_doc@,
            new_doc@,
            t_old,
            t_new,
        ),
{
    let _ = add_history(history, old_doc, t_old);
    let _ = add_history(history, new_doc, t_new);
}

/// History pairing: recording a successful apply appends exactly two
/// entries, the first carrying the pre-apply system content and the second
/// the newly installed document, and disturbs nothing that was logged
/// before.
pub proof fn lemma_history_pairing(
    h: Seq<HistV>,
    old_doc: Seq<char>,
    new_doc: Seq<char>,
    t_old: u64,
    t_new: u64,
)
    ensures
        spec_record_apply(h, old_doc, new_doc, t_old, t_new).len() == h.len() + 2,
        spec_record_apply(h, old_doc, new_doc, t_old, t_new)[h.len() as int].content == old_doc,
        spec_record_apply(h, old_doc, new_doc, t_old, t_new)[h.len() as int + 1].content
            == new_doc,
        forall|i: int| 0 <= i < h.len() ==> spec_record_apply(h, old_doc, new_doc, t_old, t_new)[i]
            == h[i],
{
}

/// The machine asks for a history append only with the run's own two
/// documents: the pre-apply content and the document being installed.
pub proof fn lemma_append_only_documents(req: ApplyRequest, st: ApplyState, ev: ApplyEvent)
    ensures
        spec_step(req, st, ev).1 matches ApplyAction::AppendHistory { old_doc, new_doc } ==> (
        old_doc == req.old_content && new_doc == req.doc),
{
}

/// The states a sandboxed run can be in.
pub open spec fn sandbox_reachable(req: ApplyRequest, st: ApplyState) -> bool {
    st == ApplyState::SandboxWriting || st == ApplyState::Finished(
        ApplyOutcome::InstalledSandboxed(req.tmp_path),
    )
}

/// Sandbox isolation: with the sandbox switch on, the run's first and only
/// file write goes to the fresh temporary path — never the system path, as
/// long as the two differ — and no later step writes a file, runs the
/// elevation helper, or appends to the history log.
pub proof fn lemma_sandbox_isolation(req: ApplyRequest, st: ApplyState, ev: ApplyEvent)
    requires
        req.sandbox,
        req.tmp_path@ != req.sys_path@,
    ensures
        spec_start(req).0 == ApplyState::SandboxWriting,
        spec_start(req).1 matches ApplyAction::WriteFile { path, content } ==> (path@ != req.sys_path@
            && content == req.doc),
        sandbox_reachable(req, spec_start(req).0),
        sandbox_reachable(req, st) ==> sandbox_reachable(req, spec_step(req, st, ev).0),
        sandbox_reachable(req, st) ==> !(spec_step(req, st, ev).1 is AppendHistory),
        sandbox_reachable(req, st) ==> !(spec_step(req, st, ev).1 is WriteFile),
        sandbox_reachable(req, st) ==> !(spec_step(req, st, ev).1 is ElevatedInstall),
{
}

/// `s` holds `sub` as a contiguous stretch.
pub open spec fn contains_substr(s: Seq<char>, sub: Seq<char>) -> bool {
    exists|i: int| 0 <= i && i + sub.len() <= s.len() && #[trigger] s.subrange(i, i + sub.len())
        == sub
}

/// The elevation secret never reaches a persisted artifact: the only things
/// an apply run persists are the two documents themselves, so a secret that
/// stands in neither the old content nor the new document stands in no
/// history entry after the run either.
pub proof fn lemma_secret_never_persisted(
    h: Seq<HistV>,
    old_doc: Seq<char>,
    new_doc: Seq<char>,
    t_old: u64,
    t_new: u64,
    secret: Seq<char>,
)
    requires
        forall|i: int| 0 <= i < h.len() ==> !contains_substr(#[trigger] h[i].content, secret),
        !contains_substr(old_doc, secret),
        !contains_substr(new_doc, secret),
    ensures
        forall|i: int|
            0 <= i < spec_record_apply(h, old_doc, new_doc, t_old, t_new).len()
                ==> !contains_substr(
                #[trigger] spec_record_apply(h, old_doc, new_doc, t_old, t_new)[i].content,
                secret,
            ),
{
    let h2 = spec_record_apply(h, old_doc, new_doc, t_old, t_new);
    assert forall|i: int| 0 <= i < h2.len() implies !contains_substr(
        #[trigger] h2[i].content,
        secret,
    ) by {
        if i < h.len() {
            assert(h2[i] == h[i]);
        } else if i == h.len() {
            assert(h2[i].content == old_doc);
        } else {
            assert(h2[i].content == new_doc);
        }
    };
}

/// A character sequence with every single quote replaced by the shell's
/// quote-close, escaped-quote, quote-open idiom.
pub open spec fn sh_squote_escaped(s: Seq<char>) -> Seq<char>
    decreases s.len(),
{
    if s.len() == 0 {
        Seq::empty()
    } else {
        (if s[0] == '\'' {
            seq!['\'', '\\', '\'', '\'']
        } else {
            seq![s[0]]
        }) + sh_squote_escaped(s.drop_first())
    }
}

proof fn lemma_sh_squote_push(s: Seq<char>, c: char)
    ensures
        sh_squote_escaped(s.push(c)) == sh_squote_escaped(s) + (if c == '\'' {
            seq!['\'', '\\', '\'', '\'']
        } else {
            seq![c]
        }),
    decreases s.len(),
{
    let e: Seq<char> = if c == '\'' {
        seq!['\'', '\\', '\'', '\'']
    } else {
        seq![c]
    };
    if s.len() == 0 {
        assert(s =~= Seq::<char>::empty());
        assert(s.push(c)[0] == c);
        assert(s.push(c).drop_first() =~= s);
        assert(sh_squote_escaped(s.push(c)) == e + sh_squote_escaped(s));
        assert(sh_squote_escaped(s.push(c)) =~= sh_squote_escaped(s) + e);
    } else {
        assert(s.push(c).drop_first() =~= s.drop_first().push(c));
        lemma_sh_squote_push(s.drop_first(), c);
        assert(s.push(c)[0] == s[0]);
        assert(sh_squote_escaped(s.push(c)) =~= sh_squote_escaped(s) + e);
    }
}

/// The shell pipeline of the elevation fallback: feed the secret to the
/// elevation helper and have it copy the staged file over the system path
/// and restore its permissions. The secret is single-quote-escaped so it
/// passes through the shell as one word.
pub open spec fn spec_elevation_command(
    secret: Seq<char>,
    tmp_path: Seq<char>,
    sys_path: Seq<char>,
) -> Seq<char> {
    "echo '"@ + sh_squote_escaped(secret) + "' | sudo -S sh -c 'cat \""@ + tmp_path
        + "\" > \""@ + sys_path + "\" && chmod 644 \""@ + sys_path + "\"'"@
}

/// Append the single-quote-escaped form of `s` to `out`.
fn push_sh_squote(out: &mut Vec<char>, s: &str)
    ensures
        final(out)@ == old(out)@ + sh_squote_escaped(s@),
{
    let cs = crate::codec::chars_of(s);
    let mut i: usize = 0;
    proof {
        assert(cs@.subrange(0, 0) =~= Seq::<char>::empty());
    }
    while i < cs.len()
        invariant
            0 <= i <= cs@.len(),
            cs@ == s@,
            out@ == old(out)@ + sh_squote_escaped(cs@.subrange(0, i as int)),
        decreases cs@.len() - i,
    {
        let c = cs[i];
        if c == '\'' {
            out.push('\'');
            out.push('\\');
            out.push('\'');
            out.push('\'');
        } else {
            out.push(c);
        }
        proof {
            assert(cs@.subrange(0, i + 1) =~= cs@.subrange(0, i as int).push(cs@[i as int]));
            lemma_sh_squote_push(cs@.subrange(0, i as int), cs@[i as int]);
            assert(out@ =~= old(out)@ + sh_squote_escaped(cs@.subrange(0, i + 1)));
        }
        i = i + 1;
    }
    proof {
        assert(cs@.subrange(0, cs@.len() as int) =~= cs@);
    }
}

/// Build the elevation shell pipeline for a staged file and the system path,
/// with the secret escaped.
pub fn elevation_command(secret: &str, tmp_path: &str, sys_path: &str) -> (r: String)
    ensures
        r@ == spec_elevation_command(secret@, tmp_path@, sys_path@),
{
    let mut out: Vec<char> = Vec::new();
    push_str_chars(&mut out, "echo '");
    push_sh_squote(&mut out, secret);
    push_str_chars(&mut out, "' | sudo -S sh -c 'cat \"");
    push_str_chars(&mut out, tmp_path);
    push_str_chars(&mut out, "\" > \"");
    push_str_chars(&mut out, sys_path);
    push_str_chars(&mut out, "\" && chmod 644 \"");
    push_str_chars(&mut out, sys_path);
    push_str_chars(&mut out, "\"'");
    proof {
        assert(out@ =~= spec_elevation_command(secret@, tmp_path@, sys_path@));
    }
    string_from_chars(&out)
}

/// The platform's system hosts path: the windows drivers/etc file under the
/// system root when that root is known, a hardcoded fallback when it is not,
/// and the posix path otherwise.
pub fn get_path_of_system_hosts(windows: bool, windir: Option<&String>) -> (r: String)
    ensures
        windows ==> match windir {
            Option::Some(w) => r@ == w@ + "\\system32\\drivers\\etc\\hosts"@,
            Option::None => r@ == "C:\\Windows\\system32\\drivers\\etc\\hosts"@,
        },
        !windows ==> r@ == "/etc/hosts"@,
{
    if windows {
        match windir {
            Some(w) => {
                let mut s = String::new();
                s.append(w.as_str());
                s.append("\\system32\\drivers\\etc\\hosts");
                s
            },
            None => {
                let mut s = String::new();
                s.append("C:\\Windows\\system32\\drivers\\etc\\hosts");
                proof {
                    assert(s@ =~= "C:\\Windows\\system32\\drivers\\etc\\hosts"@);
                }
                s
            },
        }
    } else {
        let mut s = String::new();
        s.append("/etc/hosts");
        proof {
            assert(s@ =~= "/etc/hosts"@);
        }
        s
    }
}

/// The request a refresh makes: the tree's composed document, to be applied
/// without an elevation secret, so a system without rights reports the
/// denial rather than prompting.
pub fn refresh_hosts_request(
    tree: &Vec<crate::model::ProfileNode>,
    store: &crate::compose::ContentStore,
    sandbox: bool,
    posix: bool,
    sys_path: String,
    tmp_path: String,
    old_content: String,
) -> (r: ApplyRequest)
    requires
        store.wf(),
    ensures
        r.doc@ == crate::compose::spec_compose(crate::model::nodes_view(tree@), store@),
        r.sandbox == sandbox,
        r.posix == posix,
        r.secret is None,
        r.sys_path == sys_path,
        r.tmp_path == tmp_path,
        r.old_content == old_content,
{
    let doc = crate::compose::get_content_of_list(tree, store);
    ApplyRequest { doc, sandbox, posix, secret: None, sys_path, tmp_path, old_content }
}

/// Whether a character counts as blank when deciding if a configured hook
/// command is empty.
pub open spec fn is_blank_char(c: char) -> bool {
    c == ' ' || c == '\t' || c == '\n' || c == '\r'
}

/// A command that is nothing but blanks.
pub open spec fn all_blank(s: Seq<char>) -> bool {
    forall|i: int| 0 <= i < s.len() ==> is_blank_char(#[trigger] s[i])
}

/// Whether a string is nothing but blanks.
fn str_all_blank(c: &String) -> (r: bool)
    ensures
        r == all_blank(c@),
{
    let cs = crate::codec::chars_of(c.as_str());
    let mut i: usize = 0;
    while i < cs.len()
        invariant
            0 <= i <= cs@.len(),
            cs@ == c@,
            forall|j: int| 0 <= j < i ==> is_blank_char(#[trigger] cs@[j]),
        decreases cs@.len() - i,
    {
        let ch = cs[i];
        if !(ch == ' ' || ch == '\t' || ch == '\n' || ch == '\r') {
            proof {
                assert(!is_blank_char(c@[i as int]));
            }
            return false;
        }
        i = i + 1;
    }
    true
}

/// The post-apply hook's decision: run the configured command exactly when
/// one is configured and it is not blank.
pub fn should_run_hook(cmd: Option<&String>) -> (r: bool)
    ensures
        r == (cmd matches Option::Some(c) && !all_blank(c@)),
{
    match cmd {
        None => false,
        Some(c) => !str_all_blank(c),
    }
}

/// The name of the sandbox copy written at `now_ms`.
pub fn sandbox_file_name(now_ms: u64) -> (r: String)
    ensures
        r@ == "sweethosts_safe_"@ + dec_digits(now_ms as nat) + ".hosts"@,
{
    let mut out: Vec<char> = Vec::new();
    push_str_chars(&mut out, "sweethosts_safe_");
    push_dec_u64(&mut out, now_ms);
    push_str_chars(&mut out, ".hosts");
    string_from_chars(&out)
}

/// The name of the elevation staging file written at `now_ms`.
pub fn staging_file_name(now_ms: u64) -> (r: String)
    ensures
        r@ == "swh_"@ + dec_digits(now_ms as nat) + ".txt"@,
{
    let mut out: Vec<char> = Vec::new();
    push_str_chars(&mut out, "swh_");
    push_dec_u64(&mut out, now_ms);
    push_str_chars(&mut out, ".txt");
    string_from_chars(&out)
}

} // verus!
