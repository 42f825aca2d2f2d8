//! Authoring-quality checks on a single ADR's prose: sections left as their
//! italic `_…_` prompt, no honest negative consequences, only one option
//! considered. Read-only and deterministic.
use vstd::prelude::*;
use crate::text::{
    all_digits, append_all, append_str, chars_of, eq_chars, eq_pred, lead, lead_char, lines,
    lines_str, slice_of, split_once, split_once_str, starts_with, starts_with_str, string_of,
    strip_prefix, strip_prefix_str, trim, trim_char, trim_char_v, trim_start, trim_start_char,
    trim_start_char_v, trim_start_v, trim_v, views,
};

verus! {

/// Where a finding came from.
#[derive(Debug, Clone, Copy, PartialEq, Eq, Structural)]
pub enum LintSource {
    /// A deterministic structural/content check.
    Mechanical,
    /// The optional AI review.
    Ai,
}

impl LintSource {
    /// The snake_case name.
    pub fn to_string(&self) -> (s: String)
        ensures
            *self is Mechanical ==> s@ == "mechanical"@,
            *self is Ai ==> s@ == "ai"@,
    {
        match self {
            LintSource::Mechanical => string_of(&chars_of("mechanical")),
            LintSource::Ai => string_of(&chars_of("ai")),
        }
    }
}

/// One authoring-quality finding.
#[derive(Debug, Clone, PartialEq, Eq)]
pub struct LintFinding {
    pub source: LintSource,
    pub message: String,
}

// ---------------------------------------------------------------------------
// Prompt lines
// ---------------------------------------------------------------------------

/// A numbered list marker's number: one or more ASCII digits.
pub open spec fn list_number(n: Seq<char>) -> bool {
    n.len() > 0 && all_digits(n)
}

/// A line with an optional `- `, `* ` or `N. ` list marker removed.
pub open spec fn strip_marker(t: Seq<char>) -> Seq<char> {
    match strip_prefix(t, "- "@) {
        Some(r) => r,
        None => match strip_prefix(t, "* "@) {
            Some(r) => r,
            None => match split_once(t, ". "@) {
                Some(p) => if list_number(p.0) {
                    p.1
                } else {
                    t
                },
                None => t,
            },
        },
    }
}

/// An italic authoring prompt: `_…_` with non-blank inner text, after an
/// optional list marker.
pub open spec fn prompt_line(line: Seq<char>) -> bool {
    let t = trim(strip_marker(trim(line)));
    &&& t.len() >= 2
    &&& t[0] == '_'
    &&& t.last() == '_'
    &&& trim(trim_char(t.subrange(1, t.len() - 1), '_')).len() > 0
}

fn strip_marker_v(t: &Vec<char>) -> (r: Vec<char>)
    ensures
        r@ == strip_marker(t@),
{
    if let Some(r) = strip_prefix_str(t, "- ") {
        return r;
    }
    if let Some(r) = strip_prefix_str(t, "* ") {
        return r;
    }
    match split_once_str(t, ". ") {
        Some((n, rest)) => {
            let mut all = n.len() > 0;
            let mut k: usize = 0;
            while k < n.len()
                invariant
                    k <= n.len(),
                    all == (n.len() > 0 && forall|j: int| 0 <= j < k ==> crate::text::is_digit(#[trigger] n@[j])),
                decreases n.len() - k,
            {
                if !(n[k] >= '0' && n[k] <= '9') {
                    all = false;
                }
                k = k + 1;
            }
            if all {
                rest
            } else {
                t.clone()
            }
        },
        None => t.clone(),
    }
}

/// True if `line` is an italic authoring prompt, `_…_` with non-empty inner
/// text, after an optional leading list marker.
pub fn is_prompt_line(line: &str) -> (r: bool)
    ensures
        r == prompt_line(line@),
{
    let t = trim_v(&strip_marker_v(&trim_v(&chars_of(line))));
    if t.len() < 2 || t[0] != '_' || t[t.len() - 1] != '_' {
        return false;
    }
    let inner = trim_v(&trim_char_v(&slice_of(&t, 1, t.len() - 1), '_'));
    inner.len() > 0
}

fn is_prompt_line_v(line: &Vec<char>) -> (r: bool)
    ensures
        r == prompt_line(line@),
{
    is_prompt_line(string_of(line).as_str())
}

/// Whether the lines from `i` on are nothing but prompts and blanks, with a
/// prompt among them once `saw` (or a later prompt) holds.
pub open spec fn prompt_from(ls: Seq<Seq<char>>, i: int, saw: bool) -> bool
    decreases ls.len() - i,
{
    if i < 0 || i >= ls.len() {
        saw
    } else if trim(ls[i]).len() == 0 {
        prompt_from(ls, i + 1, saw)
    } else if prompt_line(ls[i]) {
        prompt_from(ls, i + 1, true)
    } else {
        false
    }
}

/// A section's content is nothing but its prompt: at least one prompt line
/// and no other non-blank line.
pub open spec fn prompt_only_spec(content: Seq<char>) -> bool {
    prompt_from(lines(content), 0, false)
}

fn prompt_only_v(content: &Vec<char>) -> (r: bool)
    ensures
        r == prompt_only_spec(content@),
{
    prompt_only(string_of(content).as_str())
}

/// True if a section's `content` is nothing but its prompt. Empty sections
/// are not prompt-only.
pub fn prompt_only(content: &str) -> (r: bool)
    ensures
        r == prompt_only_spec(content@),
{
    let ls = lines_str(content);
    let mut saw = false;
    let mut i: usize = 0;
    while i < ls.len()
        invariant
            i <= ls.len(),
            views(ls@) == lines(content@),
            prompt_from(views(ls@), i as int, saw) == prompt_only_spec(content@),
        decreases ls.len() - i,
    {
        if trim_v(&ls[i]).len() == 0 {
            i = i + 1;
            continue;
        }
        if is_prompt_line_v(&ls[i]) {
            saw = true;
        } else {
            return false;
        }
        i = i + 1;
    }
    saw
}

// ---------------------------------------------------------------------------
// Sections
// ---------------------------------------------------------------------------

pub open spec fn sections_from(ls: Seq<Seq<char>>, i: int, acc: Seq<(Seq<char>, Seq<char>)>) -> Seq<(Seq<char>, Seq<char>)>
    decreases ls.len() - i,
{
    if i < 0 || i >= ls.len() {
        acc
    } else if starts_with(trim_start(ls[i]), "#"@) {
        sections_from(ls, i + 1, acc.push((trim_start(ls[i]), Seq::empty())))
    } else if acc.len() > 0 {
        sections_from(ls, i + 1, acc.update(acc.len() - 1, (acc.last().0, acc.last().1 + ls[i] + seq!['\n'])))
    } else {
        sections_from(ls, i + 1, acc)
    }
}

/// `(heading line, content)` pairs: each heading's text runs up to the next
/// heading of any level; lines before the first heading are dropped.
pub open spec fn sections_spec(body: Seq<char>) -> Seq<(Seq<char>, Seq<char>)> {
    sections_from(lines(body), 0, seq![])
}

pub open spec fn pairs_view(v: Seq<(Vec<char>, Vec<char>)>) -> Seq<(Seq<char>, Seq<char>)> {
    v.map_values(|p: (Vec<char>, Vec<char>)| (p.0@, p.1@))
}

fn sections(body: &str) -> (r: Vec<(Vec<char>, Vec<char>)>)
    ensures
        pairs_view(r@) == sections_spec(body@),
{
    let ls = lines_str(body);
    let mut out: Vec<(Vec<char>, Vec<char>)> = Vec::new();
    let mut i: usize = 0;
    proof {
        reveal_strlit("#");
        assert(pairs_view(out@) =~= seq![]);
    }
    while i < ls.len()
        invariant
            i <= ls.len(),
            views(ls@) == lines(body@),
            sections_from(views(ls@), i as int, pairs_view(out@)) == sections_spec(body@),
        decreases ls.len() - i,
    {
        let ghost before = pairs_view(out@);
        let t = trim_start_v(&ls[i]);
        if starts_with_str(&t, "#") {
            out.push((t, Vec::new()));
            proof {
                assert(pairs_view(out@) =~= before.push((trim_start(views(ls@)[i as int]), Seq::empty())));
            }
        } else if out.len() > 0 {
            let last = out.len() - 1;
            let ghost ov = out@;
            let (h, mut c) = out.remove(last);
            assert(h@ == ov[last as int].0@ && c@ == ov[last as int].1@);
            let ghost c0 = c@;
            append_all(&mut c, &ls[i]);
            c.push('\n');
            assert(c@ =~= c0 + views(ls@)[i as int] + seq!['\n']);
            let ghost hv = h@;
            let ghost cv = c@;
            out.push((h, c));
            proof {
                assert(out@ =~= ov.update(last as int, out@.last()));
                assert(pairs_view(out@) =~= pairs_view(ov).update(last as int, (hv, cv)));
                assert(pairs_view(out@) =~= before.update(before.len() - 1, (before.last().0, before.last().1 + views(ls@)[i as int] + seq!['\n'])));
            }
        }
        i = i + 1;
    }
    out
}

/// The number of leading `#` marks of a heading.
pub open spec fn heading_level(h: Seq<char>) -> int {
    lead(h, eq_pred('#'))
}

/// The section text from line `i` up to a heading of level `level` or higher.
pub open spec fn section_text(ls: Seq<Seq<char>>, i: int, level: int) -> Seq<char>
    decreases ls.len() - i,
{
    if i < 0 || i >= ls.len() {
        Seq::empty()
    } else {
        let t = trim_start(ls[i]);
        if starts_with(t, "#"@) && heading_level(t) <= level {
            Seq::empty()
        } else {
            ls[i] + seq!['\n'] + section_text(ls, i + 1, level)
        }
    }
}

pub open spec fn heading_pred(h: Seq<char>) -> spec_fn(Seq<char>) -> bool {
    |l: Seq<char>| trim(l) == h
}

/// The text under `heading`, up to the next heading of the same or a higher
/// level; `None` if the heading is absent.
pub open spec fn section_spec(body: Seq<char>, heading: Seq<char>) -> Option<Seq<char>> {
    let ls = lines(body);
    let k = crate::text::first_where(ls, heading_pred(heading), 0);
    if k < ls.len() {
        Some(section_text(ls, k + 1, heading_level(heading)))
    } else {
        None
    }
}

fn section(body: &str, heading: &str) -> (r: Option<Vec<char>>)
    ensures
        crate::naming::opt_chars(r) == section_spec(body@, heading@),
{
    let hv = chars_of(heading);
    let level = lead_char(&hv, '#');
    let ls = lines_str(body);
    let mut k: usize = 0;
    while k < ls.len() && !eq_chars(&trim_v(&ls[k]), &hv)
        invariant
            k <= ls.len(),
            forall|j: int| 0 <= j < k ==> !(heading_pred(hv@))(#[trigger] views(ls@)[j]),
        decreases ls.len() - k,
    {
        k = k + 1;
    }
    proof {
        crate::text::lemma_first_where(views(ls@), heading_pred(hv@), 0, k as int);
    }
    if k >= ls.len() {
        return None;
    }
    let mut content: Vec<char> = Vec::new();
    let mut i = k + 1;
    proof {
        reveal_strlit("#");
    }
    while i < ls.len()
        invariant
            k < i <= ls.len(),
            views(ls@) == lines(body@),
            level as int == heading_level(hv@),
            content@ + section_text(views(ls@), i as int, level as int) == section_text(views(ls@), k + 1, level as int),
        decreases ls.len() - i,
    {
        let t = trim_start_v(&ls[i]);
        if starts_with_str(&t, "#") && lead_char(&t, '#') <= level {
            proof {
                assert(content@ + Seq::<char>::empty() =~= content@);
            }
            i = ls.len();
            proof {
                assert(section_text(views(ls@), i as int, level as int) =~= Seq::<char>::empty());
            }
        } else {
            let ghost before = content@;
            append_all(&mut content, &ls[i]);
            content.push('\n');
            proof {
                assert(before + section_text(views(ls@), i - 1 + 1, level as int) =~= content@ + section_text(views(ls@), i + 1, level as int)) by {
                    assert(section_text(views(ls@), i as int, level as int) == views(ls@)[i as int] + seq!['\n'] + section_text(views(ls@), i + 1, level as int));
                }
            }
            i = i + 1;
        }
    }
    proof {
        assert(content@ + Seq::<char>::empty() =~= content@);
    }
    Some(content)
}

/// A markdown list item (`- …`, `* …` or `N. …`), after leading blanks.
pub open spec fn list_item(l: Seq<char>) -> bool {
    let t = trim_start(l);
    ||| starts_with(t, "- "@)
    ||| starts_with(t, "* "@)
    ||| numbered_item(t)
}

/// `N. …` with a number before the first `. `.
pub open spec fn numbered_item(t: Seq<char>) -> bool {
    match split_once(t, ". "@) {
        Some(p) => list_number(p.0),
        None => false,
    }
}

pub open spec fn count_items(ls: Seq<Seq<char>>) -> nat
    decreases ls.len(),
{
    if ls.len() == 0 {
        0
    } else {
        count_items(ls.drop_last()) + if list_item(ls.last()) { 1nat } else { 0nat }
    }
}

fn is_list_item(l: &Vec<char>) -> (r: bool)
    ensures
        r == list_item(l@),
{
    let t = trim_start_v(l);
    if starts_with_str(&t, "- ") || starts_with_str(&t, "* ") {
        return true;
    }
    match split_once_str(&t, ". ") {
        Some((n, _)) => {
            let mut all = n.len() > 0;
            let mut k: usize = 0;
            while k < n.len()
                invariant
                    k <= n.len(),
                    all == (n.len() > 0 && forall|j: int| 0 <= j < k ==> crate::text::is_digit(#[trigger] n@[j])),
                decreases n.len() - k,
            {
                if !(n[k] >= '0' && n[k] <= '9') {
                    all = false;
                }
                k = k + 1;
            }
            all
        },
        None => false,
    }
}

/// Count markdown list items in a block.
fn list_items(block: &Vec<char>) -> (r: usize)
    ensures
        r == count_items(lines(block@)),
{
    let ls = crate::text::lines_v(block);
    let mut n: usize = 0;
    let mut i: usize = 0;
    while i < ls.len()
        invariant
            i <= ls.len(),
            n == count_items(views(ls@).take(i as int)),
            n <= i,
        decreases ls.len() - i,
    {
        proof {
            assert(views(ls@).take(i + 1).drop_last() =~= views(ls@).take(i as int));
        }
        if is_list_item(&ls[i]) {
            n = n + 1;
        }
        i = i + 1;
    }
    assert(views(ls@).take(ls.len() as int) =~= views(ls@));
    n
}

// ---------------------------------------------------------------------------
// The checks
// ---------------------------------------------------------------------------

pub open spec fn prompt_message(heading: Seq<char>) -> Seq<char> {
    "`"@ + trim(trim_start_char(heading, '#')) + "` still holds only its prompt — replace it with real content"@
}

/// One finding per section that still holds only its prompt, in order.
pub open spec fn prompt_findings(secs: Seq<(Seq<char>, Seq<char>)>) -> Seq<Seq<char>>
    decreases secs.len(),
{
    if secs.len() == 0 {
        seq![]
    } else {
        let r = prompt_findings(secs.drop_last());
        if prompt_only_spec(secs.last().1) {
            r.push(prompt_message(secs.last().0))
        } else {
            r
        }
    }
}

/// The finding about negative consequences, if any.
pub open spec fn negative_findings(body: Seq<char>) -> Seq<Seq<char>> {
    match section_spec(body, "### Negative Consequences"@) {
        None => seq!["no `### Negative Consequences` section — document the trade-offs honestly"@],
        Some(c) => if trim(c).len() == 0 {
            seq!["`### Negative Consequences` is empty — every decision has downsides; name them"@]
        } else {
            seq![]
        },
    }
}

/// The finding about considered options, if any.
pub open spec fn option_findings(body: Seq<char>) -> Seq<Seq<char>> {
    match section_spec(body, "## Considered Options"@) {
        Some(opts) => if !prompt_only_spec(opts) && count_items(lines(opts)) < 2 {
            seq!["fewer than two options under `## Considered Options` — record the alternatives you weighed and rejected"@]
        } else {
            seq![]
        },
        None => seq![],
    }
}

/// Every mechanical finding for `body`, in the order the checks run.
pub open spec fn lint_spec(body: Seq<char>) -> Seq<Seq<char>> {
    prompt_findings(sections_spec(body)) + negative_findings(body) + option_findings(body)
}

pub open spec fn finding_messages(v: Seq<LintFinding>) -> Seq<Seq<char>> {
    v.map_values(|f: LintFinding| f.message@)
}

fn mech(out: &mut Vec<LintFinding>, message: Vec<char>)
    ensures
        final(out)@ == old(out)@.push(LintFinding { source: LintSource::Mechanical, message: final(out)@.last().message }),
        final(out)@.last().message@ == message@,
{
    out.push(LintFinding { source: LintSource::Mechanical, message: string_of(&message) });
}

/// Run the mechanical authoring checks over an ADR body; empty means clean.
pub fn lint(body: &str) -> (r: Vec<LintFinding>)
    ensures
        finding_messages(r@) == lint_spec(body@),
        forall|i: int| 0 <= i < r@.len() ==> (#[trigger] r@[i]).source == LintSource::Mechanical,
{
    let mut out: Vec<LintFinding> = Vec::new();
    let secs = sections(body);
    let mut i: usize = 0;
    while i < secs.len()
        invariant
            i <= secs.len(),
            finding_messages(out@) == prompt_findings(pairs_view(secs@).take(i as int)),
            forall|j: int| 0 <= j < out@.len() ==> (#[trigger] out@[j]).source == LintSource::Mechanical,
        decreases secs.len() - i,
    {
        proof {
            assert(pairs_view(secs@).take(i + 1).drop_last() =~= pairs_view(secs@).take(i as int));
        }
        if prompt_only_v(&secs[i].1) {
            let mut msg = chars_of("`");
            append_all(&mut msg, &trim_v(&trim_start_char_v(&secs[i].0, '#')));
            append_str(&mut msg, "` still holds only its prompt — replace it with real content");
            let ghost before = out@;
            mech(&mut out, msg);
            proof {
                assert(finding_messages(out@) =~= finding_messages(before).push(msg@));
            }
        }
        i = i + 1;
    }
    proof {
        assert(pairs_view(secs@).take(secs.len() as int) =~= pairs_view(secs@));
    }
    let ghost after_prompts = finding_messages(out@);
    match section(body, "### Negative Consequences") {
        None => {
            mech(&mut out, chars_of("no `### Negative Consequences` section — document the trade-offs honestly"));
        },
        Some(c) => {
            if trim_v(&c).len() == 0 {
                mech(&mut out, chars_of("`### Negative Consequences` is empty — every decision has downsides; name them"));
            }
        },
    }
    proof {
        assert(finding_messages(out@) =~= after_prompts + negative_findings(body@));
    }
    let ghost after_negative = finding_messages(out@);
    match section(body, "## Considered Options") {
        Some(opts) => {
            if !prompt_only_v(&opts) && list_items(&opts) < 2 {
                mech(&mut out, chars_of("fewer than two options under `## Considered Options` — record the alternatives you weighed and rejected"));
            }
        },
        None => {},
    }
    proof {
        assert(finding_messages(out@) =~= after_negative + option_findings(body@));
    }
    out
}


proof fn lemma_count_items_prefix(ls: Seq<Seq<char>>, m: int)
    requires
        0 <= m <= ls.len(),
    ensures
        count_items(ls.take(m)) <= count_items(ls),
    decreases ls.len() - m,
{
    if m < ls.len() {
        lemma_count_items_prefix(ls, m + 1);
        assert(ls.take(m + 1).drop_last() =~= ls.take(m));
    } else {
        assert(ls.take(m) =~= ls);
    }
}

/// Each prompt finding starts with a backtick.
proof fn lemma_prompt_findings_tick(secs: Seq<(Seq<char>, Seq<char>)>)
    ensures
        forall|k: int| 0 <= k < prompt_findings(secs).len() ==> (#[trigger] prompt_findings(secs)[k]).len() > 0
            && prompt_findings(secs)[k][0] == '`',
    decreases secs.len(),
{
    reveal_strlit("`");
    if secs.len() > 0 {
        lemma_prompt_findings_tick(secs.drop_last());
        let r = prompt_findings(secs.drop_last());
        let m = prompt_message(secs.last().0);
        assert(m.len() > 0 && m[0] == '`');
        if prompt_only_spec(secs.last().1) {
            assert forall|k: int| 0 <= k < r.push(m).len() implies (#[trigger] r.push(m)[k]).len() > 0 && r.push(m)[k][0] == '`' by {
                if k < r.len() {
                    assert(r.push(m)[k] == r[k]);
                }
            }
        }
    }
}

/// The finding that too few options were considered.
pub open spec fn too_few_options() -> Seq<char> {
    "fewer than two options under `## Considered Options` — record the alternatives you weighed and rejected"@
}

/// A line that, after leading blanks, opens a markdown list entry: `* `,
/// `- `, or digits followed by `. `.
pub open spec fn opens_list_entry(l: Seq<char>) -> bool {
    let t = trim_start(l);
    ||| starts_with(t, "* "@)
    ||| starts_with(t, "- "@)
    ||| (split_once(t, ". "@) matches Some(p) && p.0.len() > 0 && all_digits(p.0))
}

/// Two listed options are enough: when the `## Considered Options` section
/// holds two lines that open list entries (`* `, `- ` or `N. `), lint never
/// reports that fewer than two options were considered.
pub proof fn law_two_listed_options_are_enough(body: Seq<char>, i: int, j: int)
    requires
        section_spec(body, "## Considered Options"@) is Some,
        0 <= i < j < lines(section_spec(body, "## Considered Options"@)->0).len(),
        opens_list_entry(lines(section_spec(body, "## Considered Options"@)->0)[i]),
        opens_list_entry(lines(section_spec(body, "## Considered Options"@)->0)[j]),
    ensures
        !lint_spec(body).contains(too_few_options()),
{
    let ls = lines(section_spec(body, "## Considered Options"@)->0);
    let nf = negative_findings(body);
    assert(list_item(ls[i]) && list_item(ls[j]));
    lemma_count_items_prefix(ls, j + 1);
    lemma_count_items_prefix(ls.take(j), i + 1);
    assert(ls.take(j + 1).drop_last() =~= ls.take(j));
    assert(ls.take(j + 1).last() == ls[j]);
    assert(ls.take(j).take(i + 1) =~= ls.take(i + 1));
    assert(ls.take(i + 1).drop_last() =~= ls.take(i));
    assert(ls.take(i + 1).last() == ls[i]);
    assert(count_items(ls.take(i + 1)) >= 1);
    assert(count_items(ls.take(j + 1)) >= 2);
    assert(count_items(ls) >= 2);
    assert(option_findings(body) =~= Seq::<Seq<char>>::empty());
    assert(!nf.contains(too_few_options())) by {
        reveal_strlit("fewer than two options under `## Considered Options` — record the alternatives you weighed and rejected");
        reveal_strlit("no `### Negative Consequences` section — document the trade-offs honestly");
        reveal_strlit("`### Negative Consequences` is empty — every decision has downsides; name them");
        if nf.contains(too_few_options()) {
            let k = choose|k: int| 0 <= k < nf.len() && nf[k] == too_few_options();
            assert(nf[k][0] == too_few_options()[0]);
        }
    }
    reveal_strlit("fewer than two options under `## Considered Options` — record the alternatives you weighed and rejected");
    reveal_strlit("no `### Negative Consequences` section — document the trade-offs honestly");
    reveal_strlit("`### Negative Consequences` is empty — every decision has downsides; name them");
    lemma_prompt_findings_tick(sections_spec(body));
    let pf = prompt_findings(sections_spec(body));
    let all = lint_spec(body);
    assert(all == pf + nf + option_findings(body));
    assert(too_few_options()[0] == 'f');
    if all.contains(too_few_options()) {
        let k = choose|k: int| 0 <= k < all.len() && all[k] == too_few_options();
        if k < pf.len() {
            assert(all[k] == pf[k]);
            assert(pf[k][0] == '`');
            assert(false);
        } else {
            assert(all[k] == nf[k - pf.len()]);
            assert(nf.contains(too_few_options()));
            assert(false);
        }
    }
}


proof fn lemma_count_items_none(ls: Seq<Seq<char>>)
    requires
        forall|k: int| 0 <= k < ls.len() ==> !opens_list_entry(#[trigger] ls[k]),
    ensures
        count_items(ls) == 0,
    decreases ls.len(),
{
    if ls.len() > 0 {
        assert(!opens_list_entry(ls[ls.len() - 1]));
        lemma_count_items_none(ls.drop_last());
    }
}

/// A decision with no listed alternative is flagged: when the
/// `## Considered Options` section holds real content (not only its prompt)
/// and no line of it opens a list entry, lint reports that fewer than two
/// options were considered.
pub proof fn law_unlisted_options_are_flagged(body: Seq<char>)
    requires
        section_spec(body, "## Considered Options"@) is Some,
        !prompt_only_spec(section_spec(body, "## Considered Options"@)->0),
        forall|k: int| 0 <= k < lines(section_spec(body, "## Considered Options"@)->0).len()
            ==> !opens_list_entry(#[trigger] lines(section_spec(body, "## Considered Options"@)->0)[k]),
    ensures
        lint_spec(body).contains(too_few_options()),
{
    let ls = lines(section_spec(body, "## Considered Options"@)->0);
    lemma_count_items_none(ls);
    let of = option_findings(body);
    assert(of == seq![too_few_options()]);
    let pf = prompt_findings(sections_spec(body));
    let nf = negative_findings(body);
    assert(lint_spec(body) == pf + nf + of);
    assert((pf + nf + of)[pf.len() + nf.len() as int] == too_few_options());
}

} // verus!
