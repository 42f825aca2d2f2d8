//! Git-derived ADR history: the creation date, the last-modified date and the
//! status lifecycle, read from `git log --follow --name-status` output. In
//! the by-status layout a status change is a directory move, which git
//! records as a rename; the first commit that added the file is its creation.
use vstd::prelude::*;
use crate::adr::Status;
use crate::config::Layout;
use crate::store::{dir_status_spec, Store};
use crate::text::{chars_of, lines, lines_str, split, split_str, string_of, strip_prefix, strip_prefix_str, trim, trim_v, views};

verus! {

/// A handle on the git repository an ADR tree lives in.
#[derive(Debug, Clone)]
pub struct GitRepo {
    /// The directory git runs in (it finds the enclosing work tree itself).
    pub dir: String,
}

/// One lifecycle milestone: the ADR reached `status` with commit `commit`.
#[derive(Debug, Clone)]
pub struct HistoryEvent {
    /// The commit's author date, as Unix nanoseconds.
    pub date: i128,
    pub status: Status,
    /// Abbreviated commit hash.
    pub commit: String,
    /// Commit subject line.
    pub subject: String,
}

/// The git-derived history of one ADR file.
#[derive(Debug, Clone)]
pub struct AdrHistory {
    /// When the file was first added (oldest commit), as Unix nanoseconds.
    pub created: i128,
    /// The most recent commit that touched it, as Unix nanoseconds.
    pub last_modified: i128,
    /// The proposal and each status change, oldest first; consecutive
    /// milestones of one status are kept once. Empty in the flat layout.
    pub events: Vec<HistoryEvent>,
}

/// The instant `time::OffsetDateTime::parse` reads from an RFC 3339 text, as
/// Unix nanoseconds; `None` when it reads none.
pub uninterp spec fn rfc3339_nanos(s: Seq<char>) -> Option<i128>;

/// `time::OffsetDateTime::parse` with the RFC 3339 format, then
/// `unix_timestamp_nanos`, named by [`rfc3339_nanos`].
#[verifier::external_body]
fn parse_rfc3339(s: &str) -> (r: Option<i128>)
    ensures
        r == rfc3339_nanos(s@),
{
    match time::OffsetDateTime::parse(s, &time::format_description::well_known::Rfc3339) {
        Ok(d) => Some(d.unix_timestamp_nanos()),
        Err(_) => None,
    }
}

/// The abstract value of a [`HistoryEvent`].
pub struct EventV {
    pub date: i128,
    pub status: Status,
    pub commit: Seq<char>,
    pub subject: Seq<char>,
}

pub open spec fn event_view(e: HistoryEvent) -> EventV {
    EventV { date: e.date, status: e.status, commit: e.commit@, subject: e.subject@ }
}

pub open spec fn events_view(v: Seq<HistoryEvent>) -> Seq<EventV> {
    v.map_values(|e: HistoryEvent| event_view(e))
}

/// What reading a log has gathered so far.
pub struct LogState {
    /// The first commit's date (git lists the newest first).
    pub newest: Option<i128>,
    /// The latest commit's date so far.
    pub oldest: Option<i128>,
    /// Date, hash and subject of the commit whose file lines are being read.
    pub cur: Option<(i128, Seq<char>, Seq<char>)>,
    /// Milestones, newest first.
    pub milestones: Seq<EventV>,
    /// A commit header carried a date that does not read.
    pub failed: bool,
}

pub open spec fn initial_log() -> LogState {
    LogState { newest: None, oldest: None, cur: None, milestones: Seq::empty(), failed: false }
}

/// The `i`-th field of a header, or nothing.
pub open spec fn field(parts: Seq<Seq<char>>, i: int) -> Seq<char> {
    if i < parts.len() {
        parts[i]
    } else {
        Seq::empty()
    }
}

/// The columns of a name-status line: its tab-separated non-empty pieces.
pub open spec fn columns(line: Seq<char>) -> Seq<Seq<char>> {
    split(line, "\t"@).filter(|c: Seq<char>| c.len() > 0)
}

/// The change kind of a name-status line: the first character of its code.
pub open spec fn change_kind(cols: Seq<Seq<char>>) -> char {
    if cols.len() > 0 && cols[0].len() > 0 {
        cols[0][0]
    } else {
        ' '
    }
}

/// The path a name-status line leaves the file at: the last column of a
/// rename or copy, the second column otherwise.
pub open spec fn change_path(cols: Seq<Seq<char>>) -> Option<Seq<char>> {
    let k = change_kind(cols);
    if cols.len() < 2 {
        None
    } else if k == 'R' || k == 'C' {
        Some(cols.last())
    } else {
        Some(cols[1])
    }
}

/// One line of the log: a commit header (`\x1f` hash `\x1f` date `\x1f`
/// subject) or a name-status line of the current commit; an add or a rename
/// into a status directory is a milestone.
pub open spec fn log_step(st: LogState, line: Seq<char>, layout: Layout, dirs: Seq<(Status, Seq<char>)>) -> LogState {
    if st.failed {
        st
    } else {
        match strip_prefix(line, "\u{1f}"@) {
            Some(rest) => {
                let parts = split(rest, "\u{1f}"@);
                match rfc3339_nanos(field(parts, 1)) {
                    None => LogState { failed: true, ..st },
                    Some(d) => LogState {
                        newest: if st.newest is Some { st.newest } else { Some(d) },
                        oldest: Some(d),
                        cur: Some((d, field(parts, 0), field(parts, 2))),
                        ..st
                    },
                }
            },
            None => if trim(line).len() == 0 {
                st
            } else {
                match st.cur {
                    None => st,
                    Some(c) => {
                        let cols = columns(line);
                        let k = change_kind(cols);
                        match change_path(cols) {
                            Some(p) => if (k == 'A' || k == 'R') && dir_status_spec(layout, dirs, p) is Some {
                                LogState {
                                    milestones: st.milestones.push(
                                        EventV {
                                            date: c.0,
                                            status: dir_status_spec(layout, dirs, p)->0,
                                            commit: c.1,
                                            subject: c.2,
                                        },
                                    ),
                                    ..st
                                }
                            } else {
                                st
                            },
                            None => st,
                        }
                    },
                }
            },
        }
    }
}

pub open spec fn log_fold(ls: Seq<Seq<char>>, i: int, st: LogState, layout: Layout, dirs: Seq<(Status, Seq<char>)>) -> LogState
    decreases ls.len() - i,
{
    if i < 0 || i >= ls.len() {
        st
    } else {
        log_fold(ls, i + 1, log_step(st, ls[i], layout, dirs), layout, dirs)
    }
}

/// Milestones with each run of one status kept once (its first).
pub open spec fn collapse(ms: Seq<EventV>) -> Seq<EventV>
    decreases ms.len(),
{
    if ms.len() == 0 {
        Seq::empty()
    } else {
        let c = collapse(ms.drop_last());
        if c.len() > 0 && c.last().status == ms.last().status {
            c
        } else {
            c.push(ms.last())
        }
    }
}

/// The abstract value of an [`AdrHistory`].
pub struct HistoryV {
    pub created: i128,
    pub last_modified: i128,
    pub events: Seq<EventV>,
}

/// The history a log tells: `None` when it holds no commit or a date that
/// does not read; otherwise the oldest and newest commit dates and the
/// milestones oldest first, each status run kept once.
pub open spec fn parse_log_spec(text: Seq<char>, layout: Layout, dirs: Seq<(Status, Seq<char>)>) -> Option<HistoryV> {
    let st = log_fold(lines(text), 0, initial_log(), layout, dirs);
    if st.failed || st.oldest is None || st.newest is None {
        None
    } else {
        Some(HistoryV { created: st.oldest->0, last_modified: st.newest->0, events: collapse(st.milestones.reverse()) })
    }
}

/// The reading state held in executable values.
pub open spec fn state_of(
    newest: Option<i128>,
    oldest: Option<i128>,
    cur: Option<(i128, String, String)>,
    ms: Seq<HistoryEvent>,
) -> LogState {
    LogState {
        newest,
        oldest,
        cur: match cur {
            Some(c) => Some((c.0, c.1@, c.2@)),
            None => None,
        },
        milestones: events_view(ms),
        failed: false,
    }
}

/// The columns of a name-status line.
fn columns_v(line: &Vec<char>) -> (r: Vec<Vec<char>>)
    ensures
        views(r@) == columns(line@),
{
    proof {
        reveal_strlit("\t");
    }
    let parts = split_str(line, "\t");
    let ghost pv = views(parts@);
    let mut out: Vec<Vec<char>> = Vec::new();
    let mut i: usize = 0;
    while i < parts.len()
        invariant
            i <= parts.len(),
            pv == views(parts@),
            views(out@) == pv.take(i as int).filter(|c: Seq<char>| c.len() > 0),
        decreases parts.len() - i,
    {
        proof {
            reveal(Seq::filter);
            assert(pv.take(i + 1).drop_last() =~= pv.take(i as int));
        }
        if parts[i].len() > 0 {
            let ghost before = views(out@);
            out.push(parts[i].clone());
            assert(views(out@) =~= before.push(pv[i as int]));
        }
        i = i + 1;
    }
    assert(pv.take(parts.len() as int) =~= pv);
    out
}

/// One field of a header, or nothing.
fn field_v(parts: &Vec<Vec<char>>, i: usize) -> (r: String)
    ensures
        r@ == field(views(parts@), i as int),
{
    if i < parts.len() {
        string_of(&parts[i])
    } else {
        string_of(&Vec::new())
    }
}

/// The events with each run of one status kept once.
fn collapse_v(ms: Vec<HistoryEvent>) -> (r: Vec<HistoryEvent>)
    ensures
        events_view(r@) == collapse(events_view(ms@)),
{
    let ghost mv = events_view(ms@);
    let mut out: Vec<HistoryEvent> = Vec::new();
    let mut i: usize = 0;
    while i < ms.len()
        invariant
            i <= ms.len(),
            mv == events_view(ms@),
            events_view(out@) == collapse(mv.take(i as int)),
        decreases ms.len() - i,
    {
        assert(mv.take(i + 1).drop_last() =~= mv.take(i as int));
        let e = &ms[i];
        let keep = out.len() == 0 || out[out.len() - 1].status != e.status;
        if keep {
            let ghost before = events_view(out@);
            out.push(HistoryEvent {
                date: e.date,
                status: e.status,
                commit: string_of(&chars_of(e.commit.as_str())),
                subject: string_of(&chars_of(e.subject.as_str())),
            });
            assert(events_view(out@) =~= before.push(mv[i as int]));
        }
        i = i + 1;
    }
    assert(mv.take(ms.len() as int) =~= mv);
    out
}

/// Parse `git log --follow --name-status --format=%x1f%h%x1f%aI%x1f%s`
/// output (newest commit first) into the file's history, reading which
/// directory means which status from `store`. `None` when the log holds no
/// commit (an untracked file) or a header date does not read.
pub fn parse_log(text: &str, store: &Store) -> (r: Option<AdrHistory>)
    ensures
        match r {
            Some(h) => parse_log_spec(text@, store.layout_view(), store.dirs()) == Some(
                HistoryV { created: h.created, last_modified: h.last_modified, events: events_view(h.events@) },
            ),
            None => parse_log_spec(text@, store.layout_view(), store.dirs()) is None,
        },
{
    proof {
        reveal_strlit("\u{1f}");
    }
    let ls = lines_str(text);
    let ghost lv = views(ls@);
    let ghost layout = store.layout_view();
    let ghost dirs = store.dirs();
    let mut newest: Option<i128> = None;
    let mut oldest: Option<i128> = None;
    let mut cur: Option<(i128, String, String)> = None;
    let mut milestones: Vec<HistoryEvent> = Vec::new();
    let mut i: usize = 0;
    assert(events_view(milestones@) =~= Seq::<EventV>::empty());
    while i < ls.len()
        invariant
            i <= ls.len(),
            lv == views(ls@),
            lv == lines(text@),
            layout == store.layout_view(),
            dirs == store.dirs(),
            log_fold(lv, 0, initial_log(), layout, dirs) == log_fold(
                lv,
                i as int,
                state_of(newest, oldest, cur, milestones@),
                layout,
                dirs,
            ),
        decreases ls.len() - i,
    {
        proof {
            reveal_strlit("\u{1f}");
        }
        let line = &ls[i];
        match strip_prefix_str(line, "\u{1f}") {
            Some(rest) => {
                let parts = split_str(&rest, "\u{1f}");
                let date = match parse_rfc3339(field_v(&parts, 1).as_str()) {
                    Some(d) => d,
                    None => {
                        proof {
                            let st = state_of(newest, oldest, cur, milestones@);
                            assert(lv[i as int] == line@);
                            assert(log_step(st, lv[i as int], layout, dirs).failed);
                            lemma_fold_failed(lv, i + 1, layout, dirs);
                            assert(log_fold(lv, i + 1, log_step(st, lv[i as int], layout, dirs), layout, dirs).failed);
                        }
                        return None;
                    },
                };
                if newest.is_none() {
                    newest = Some(date);
                }
                oldest = Some(date);
                cur = Some((date, field_v(&parts, 0), field_v(&parts, 2)));
            },
            None => {
                if trim_v(line).len() > 0 {
                    match &cur {
                        Some(c) => {
                            let cols = columns_v(line);
                            let kind = if cols.len() > 0 && cols[0].len() > 0 {
                                cols[0][0]
                            } else {
                                ' '
                            };
                            if cols.len() >= 2 && (kind == 'A' || kind == 'R') {
                                let path = if kind == 'R' {
                                    &cols[cols.len() - 1]
                                } else {
                                    &cols[1]
                                };
                                match store.dir_status(string_of(path).as_str()) {
                                    Some(status) => {
                                        let ghost before = events_view(milestones@);
                                        milestones.push(HistoryEvent {
                                            date: c.0,
                                            status,
                                            commit: string_of(&chars_of(c.1.as_str())),
                                            subject: string_of(&chars_of(c.2.as_str())),
                                        });
                                        assert(events_view(milestones@) =~= before.push(
                                            EventV { date: c.0, status, commit: c.1@, subject: c.2@ },
                                        ));
                                    },
                                    None => {},
                                }
                            }
                        },
                        None => {},
                    }
                }
            },
        }
        i = i + 1;
    }
    let (created, last_modified) = match (oldest, newest) {
        (Some(o), Some(n)) => (o, n),
        _ => {
            return None;
        },
    };
    let mut chrono: Vec<HistoryEvent> = Vec::new();
    let mut k: usize = milestones.len();
    let ghost mv = events_view(milestones@);
    while k > 0
        invariant
            k <= milestones.len(),
            mv == events_view(milestones@),
            events_view(chrono@) == mv.reverse().take(milestones.len() - k),
        decreases k,
    {
        k = k - 1;
        let e = &milestones[k];
        let ghost before = events_view(chrono@);
        assert(mv.reverse()[(milestones.len() - 1 - k) as int] == mv[k as int]);
        chrono.push(HistoryEvent {
            date: e.date,
            status: e.status,
            commit: string_of(&chars_of(e.commit.as_str())),
            subject: string_of(&chars_of(e.subject.as_str())),
        });
        assert(events_view(chrono@) =~= before.push(mv[k as int]));
        assert(mv.reverse().take(milestones.len() - k) =~= mv.reverse().take(milestones.len() - k - 1).push(
            mv.reverse()[(milestones.len() - 1 - k) as int],
        ));
        assert(events_view(chrono@) =~= mv.reverse().take(milestones.len() - k));
    }
    assert(mv.reverse().take(milestones.len() as int) =~= mv.reverse());
    Some(AdrHistory { created, last_modified, events: collapse_v(chrono) })
}

/// Once a date fails to read, the rest of the log changes nothing.
proof fn lemma_fold_failed(ls: Seq<Seq<char>>, i: int, layout: Layout, dirs: Seq<(Status, Seq<char>)>)
    ensures
        forall|st: LogState| st.failed ==> #[trigger] log_fold(ls, i, st, layout, dirs).failed,
    decreases ls.len() - i,
{
    if 0 <= i < ls.len() {
        lemma_fold_failed(ls, i + 1, layout, dirs);
    }
    assert forall|st: LogState| st.failed implies #[trigger] log_fold(ls, i, st, layout, dirs).failed by {
        if 0 <= i < ls.len() {
            assert(log_step(st, ls[i], layout, dirs) == st);
            assert(log_fold(ls, i + 1, st, layout, dirs).failed);
        }
    }
}

} // verus!
