//! Forge actions around local verbs: closing out a superseded ADR's issue
//! and pull request, commenting on both, and refreshing a pull request's
//! description from the ADR.
use vstd::prelude::*;
use crate::text::{append_str, chars_of, string_of};
use super::{forge_message, Forge, ForgeError, ForgeRefs, Tracker, Transition};

verus! {

/// What a forge action did: whether the local change goes ahead (or the
/// forge error that stops it), the plan lines a preview prints, the lines
/// an applied run prints, and the warnings.
#[derive(Debug)]
pub struct HookReport {
    pub proceed: Result<bool, ForgeError>,
    pub plan: Vec<String>,
    pub warnings: Vec<String>,
}

pub open spec fn strs(v: Seq<String>) -> Seq<Seq<char>> {
    v.map_values(|s: String| s@)
}

pub open spec fn url_line(prefix: Seq<char>, r: Option<(String, String)>) -> Seq<Seq<char>> {
    match r {
        Some(x) => seq![prefix + x.1@],
        None => Seq::empty(),
    }
}

pub open spec fn preview_tail() -> Seq<Seq<char>> {
    seq![Seq::empty(), "Preview — re-run with --yes to apply."@]
}

fn push_line(v: &mut Vec<String>, prefix: &str, r: &Option<(String, String)>)
    ensures
        strs(final(v)@) == strs(old(v)@) + url_line(prefix@, *r),
{
    let ghost before = strs(v@);
    match r {
        Some(x) => {
            let mut l = chars_of(prefix);
            append_str(&mut l, x.1.as_str());
            v.push(string_of(&l));
            assert(strs(v@) =~= before + url_line(prefix@, *r));
        },
        None => {
            assert(strs(v@) =~= before + url_line(prefix@, *r));
        },
    }
}

fn push_tail(v: &mut Vec<String>)
    ensures
        strs(final(v)@) == strs(old(v)@) + preview_tail(),
{
    let ghost before = strs(v@);
    v.push(string_of(&Vec::new()));
    v.push(string_of(&chars_of("Preview — re-run with --yes to apply.")));
    assert(strs(v@) =~= before + preview_tail());
}

/// The forge side of superseding an ADR, run before the local change:
/// without `yes`, or with `dry_run`, preview commenting on and closing the
/// old ADR's pull request and issue and stop; otherwise comment
/// `Superseded by <new_label>.` on both, close the pull request and mark the
/// issue done (failures there are ignored) and go ahead.
pub fn on_supersede<F: Forge, T: Tracker>(
    forge: &F,
    tracker: &T,
    refs: &ForgeRefs,
    new_label: &str,
    dry_run: bool,
    yes: bool,
) -> (r: HookReport)
    ensures
        r.proceed == Ok::<bool, ForgeError>(yes && !dry_run),
        r.warnings.len() == 0,
        !(yes && !dry_run) ==> strs(r.plan@) == seq!["Forge plan (supersede):"@] + url_line("  - comment + close PR "@, refs.pr)
            + url_line("  - comment + close issue "@, refs.issue) + preview_tail(),
        (yes && !dry_run) ==> r.plan.len() == 0,
{
    let mut plan: Vec<String> = Vec::new();
    if !(yes && !dry_run) {
        plan.push(string_of(&chars_of("Forge plan (supersede):")));
        push_line(&mut plan, "  - comment + close PR ", &refs.pr);
        push_line(&mut plan, "  - comment + close issue ", &refs.issue);
        push_tail(&mut plan);
        return HookReport { proceed: Ok(false), plan, warnings: Vec::new() };
    }
    let mut msg = chars_of("Superseded by ");
    append_str(&mut msg, new_label);
    append_str(&mut msg, ".");
    let msg = string_of(&msg);
    match &refs.pr {
        Some(p) => {
            let _ = forge.comment_pr(p.0.as_str(), msg.as_str());
            let _ = forge.close_pr(p.0.as_str());
        },
        None => {},
    }
    match &refs.issue {
        Some(i) => {
            let _ = tracker.comment_issue(i.0.as_str(), msg.as_str());
            let _ = tracker.transition(i.0.as_str(), Transition::Done);
        },
        None => {},
    }
    HookReport { proceed: Ok(true), plan, warnings: Vec::new() }
}

/// `<prefix><message>)`.
pub open spec fn failed(prefix: Seq<char>, e: ForgeError) -> Seq<char> {
    prefix + forge_message(e) + ")"@
}

/// A warning about a comment the forge refused.
pub open spec fn comment_warning(w: Seq<char>) -> bool {
    exists|e: ForgeError| #[trigger] failed("couldn't comment on PR ("@, e) == w || failed("couldn't comment on issue ("@, e) == w
}

/// Post `body` as a comment on an ADR's linked pull request and issue.
/// Nothing is done when neither is linked; without `yes`, or with
/// `dry_run`, the plan is previewed; a failed comment warns.
pub fn comment<F: Forge, T: Tracker>(
    forge: &F,
    tracker: &T,
    refs: &ForgeRefs,
    body: &str,
    label: &str,
    dry_run: bool,
    yes: bool,
) -> (r: HookReport)
    ensures
        r.proceed == Ok::<bool, ForgeError>(true),
        (refs.issue is None && refs.pr is None) ==> (r.plan.len() == 0 && r.warnings.len() == 0),
        !(refs.issue is None && refs.pr is None) && !(yes && !dry_run) ==> (strs(r.plan@)
            == seq!["Forge plan ("@ + label@ + "):"@] + url_line("  - comment on PR "@, refs.pr)
            + url_line("  - comment on issue "@, refs.issue) + preview_tail() && r.warnings.len() == 0),
        (yes && !dry_run) ==> r.plan.len() == 0,
        r.warnings.len() <= 2,
        forall|k: int| 0 <= k < r.warnings.len() ==> comment_warning(#[trigger] r.warnings@[k]@),
{
    let mut plan: Vec<String> = Vec::new();
    let mut warnings: Vec<String> = Vec::new();
    if refs.issue.is_none() && refs.pr.is_none() {
        return HookReport { proceed: Ok(true), plan, warnings };
    }
    if !(yes && !dry_run) {
        let mut head = chars_of("Forge plan (");
        append_str(&mut head, label);
        append_str(&mut head, "):");
        plan.push(string_of(&head));
        push_line(&mut plan, "  - comment on PR ", &refs.pr);
        push_line(&mut plan, "  - comment on issue ", &refs.issue);
        push_tail(&mut plan);
        return HookReport { proceed: Ok(true), plan, warnings };
    }
    match &refs.pr {
        Some(p) => match forge.comment_pr(p.0.as_str(), body) {
            Ok(()) => {},
            Err(e) => {
                let mut w = chars_of("couldn't comment on PR (");
                append_str(&mut w, e.message().as_str());
                append_str(&mut w, ")");
                assert(w@ == failed("couldn't comment on PR ("@, e));
                assert(comment_warning(w@));
                warnings.push(string_of(&w));
            },
        },
        None => {},
    }
    match &refs.issue {
        Some(i) => match tracker.comment_issue(i.0.as_str(), body) {
            Ok(()) => {},
            Err(e) => {
                let mut w = chars_of("couldn't comment on issue (");
                append_str(&mut w, e.message().as_str());
                append_str(&mut w, ")");
                assert(w@ == failed("couldn't comment on issue ("@, e));
                assert(failed("couldn't comment on PR ("@, e) == failed("couldn't comment on PR ("@, e));
                assert(comment_warning(w@));
                warnings.push(string_of(&w));
            },
        },
        None => {},
    }
    HookReport { proceed: Ok(true), plan, warnings }
}

/// The pull request description `sync` writes: `Closes #<issue>` and a blank
/// line when an issue is linked, a marker naming the ADR file, then the
/// ADR's content.
pub open spec fn sync_body(refs: ForgeRefs, file: Seq<char>, content: Seq<char>) -> Seq<char> {
    (match refs.issue {
        Some(i) => "Closes #"@ + i.0@ + "\n\n"@,
        None => Seq::empty(),
    }) + "<!-- adroit:adr="@ + file + " -->\n"@ + content
}

pub fn pr_sync_body(refs: &ForgeRefs, file: &str, content: &str) -> (r: String)
    ensures
        r@ == sync_body(*refs, file@, content@),
{
    let mut v: Vec<char> = Vec::new();
    match &refs.issue {
        Some(i) => {
            append_str(&mut v, "Closes #");
            append_str(&mut v, i.0.as_str());
            append_str(&mut v, "\n\n");
        },
        None => {},
    }
    append_str(&mut v, "<!-- adroit:adr=");
    append_str(&mut v, file);
    append_str(&mut v, " -->\n");
    append_str(&mut v, content);
    string_of(&v)
}

/// Refresh an ADR's linked pull request description from its content
/// (`file` is the ADR's file name). Nothing to do without a pull request;
/// without `yes`, or with `dry_run`, the plan is previewed and the run
/// stops; otherwise the description becomes [`sync_body`]. An unreachable
/// forge leaves it unchanged with a warning; another error stops the run.
pub fn sync_pr<F: Forge>(forge: &F, refs: &ForgeRefs, file: &str, content: &str, dry_run: bool, yes: bool) -> (r: HookReport)
    ensures
        refs.pr is None ==> (r.proceed == Ok::<bool, ForgeError>(true) && r.plan.len() == 0 && r.warnings.len() == 0),
        refs.pr is Some && !(yes && !dry_run) ==> (r.proceed == Ok::<bool, ForgeError>(false) && strs(r.plan@)
            == seq!["Forge plan (sync): refresh PR "@ + refs.pr.unwrap().1@ + " description from `"@ + file@ + "`"@]
            + preview_tail()),
        r.proceed matches Err(e) ==> (refs.pr is Some && yes && !dry_run && !(e is Offline)),
        r.proceed == Ok::<bool, ForgeError>(true) && refs.pr is Some && r.warnings.len() == 0 ==> (strs(r.plan@)
            == seq!["Forge: synced PR "@ + refs.pr.unwrap().1@]),
        r.warnings.len() <= 1,
{
    let (pr, pr_url) = match &refs.pr {
        Some(p) => (&p.0, &p.1),
        None => {
            return HookReport { proceed: Ok(true), plan: Vec::new(), warnings: Vec::new() };
        },
    };
    let mut plan: Vec<String> = Vec::new();
    let mut warnings: Vec<String> = Vec::new();
    if !(yes && !dry_run) {
        let mut l = chars_of("Forge plan (sync): refresh PR ");
        append_str(&mut l, pr_url.as_str());
        append_str(&mut l, " description from `");
        append_str(&mut l, file);
        append_str(&mut l, "`");
        plan.push(string_of(&l));
        push_tail(&mut plan);
        return HookReport { proceed: Ok(false), plan, warnings };
    }
    let body = pr_sync_body(refs, file, content);
    match forge.set_pr_body(pr.as_str(), body.as_str()) {
        Ok(()) => {
            let mut l = chars_of("Forge: synced PR ");
            append_str(&mut l, pr_url.as_str());
            plan.push(string_of(&l));
            HookReport { proceed: Ok(true), plan, warnings }
        },
        Err(e) => {
            if e.is_offline() {
                let mut w = chars_of("forge unreachable (");
                append_str(&mut w, e.message().as_str());
                append_str(&mut w, "); PR left unchanged.");
                warnings.push(string_of(&w));
                HookReport { proceed: Ok(true), plan, warnings }
            } else {
                HookReport { proceed: Err(e), plan, warnings }
            }
        },
    }
}

} // verus!
