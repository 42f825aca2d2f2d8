//! Cross-ADR link integrity: keep relative markdown links between ADRs
//! pointing at each file's current location, so that a file moving between
//! status directories does not break `[..](../proposed/X.md)` references.
use vstd::prelude::*;
use vstd::string::StrSliceExecFns;
use crate::paths::{components, components_v};
use crate::text::{
    after_last, after_last_str, append_all, append_str, before_first, before_first_str, chars_of,
    contains, contains_str, ends_with, ends_with_str, find, find_from, join, join_str,
    leading_digits, leading_digits_v, lemma_find_skip, lemma_find_skip_none, occurs_at,
    slice_of, split_once, split_once_str, starts_with, starts_with_str, string_of, strip_prefix,
    strip_prefix_str, views,
};

verus! {

// ---------------------------------------------------------------------------
// Relative paths
// ---------------------------------------------------------------------------

/// The components `Path::components` yields: a leading root (`/`) or current
/// directory (`.`) marker, then the named components.
pub open spec fn path_parts(s: Seq<char>) -> Seq<Seq<char>> {
    if starts_with(s, seq!['/']) {
        seq![seq!['/']] + components(s)
    } else if s == seq!['.'] || starts_with(s, seq!['.', '/']) {
        seq![seq!['.']] + components(s)
    } else {
        components(s)
    }
}

/// The length of the common prefix of `a` and `b`, counting from `i`.
pub open spec fn common_len(a: Seq<Seq<char>>, b: Seq<Seq<char>>, i: int) -> int
    decreases a.len() - i,
{
    if 0 <= i < a.len() && i < b.len() && a[i] == b[i] {
        common_len(a, b, i + 1)
    } else {
        i
    }
}

/// The relative link from directory `from` to file `to`: `..` for each
/// component of `from` past the common prefix, then the rest of `to`;
/// a same-directory target gets a `./` prefix.
pub open spec fn rel_link_spec(from: Seq<char>, to: Seq<char>) -> Seq<char> {
    let f = path_parts(from);
    let t = path_parts(to);
    let i = common_len(f, t, 0);
    let ups = f.len() - i;
    let joined = join(Seq::new(ups as nat, |k: int| seq!['.', '.']) + t.skip(i), seq!['/']);
    if ups == 0 {
        seq!['.', '/'] + joined
    } else {
        joined
    }
}

fn path_parts_v(s: &Vec<char>) -> (r: Vec<Vec<char>>)
    ensures
        views(r@) == path_parts(s@),
{
    let c = components_v(s);
    let mut r: Vec<Vec<char>> = Vec::new();
    let slash = vec!['/'];
    let dot_slash = vec!['.', '/'];
    assert(slash@ =~= seq!['/']);
    assert(dot_slash@ =~= seq!['.', '/']);
    let ghost pre: Seq<Seq<char>>;
    if crate::text::starts_with_v(s, &slash) {
        let root = vec!['/'];
        assert(root@ =~= seq!['/']);
        r.push(root);
        proof {
            pre = seq![seq!['/']];
            assert(views(r@) =~= pre);
        }
    } else if (s.len() == 1 && s[0] == '.') || crate::text::starts_with_v(s, &dot_slash) {
        let cur = vec!['.'];
        assert(cur@ =~= seq!['.']);
        r.push(cur);
        proof {
            pre = seq![seq!['.']];
            assert(views(r@) =~= pre);
            if s.len() == 1 && s@[0] == '.' {
                assert(s@ =~= seq!['.']);
            }
        }
    } else {
        proof {
            pre = Seq::empty();
            assert(views(r@) =~= pre);
            if s@ == seq!['.'] {
                assert(s.len() == 1 && s@[0] == '.');
            }
        }
    }
    let mut i: usize = 0;
    while i < c.len()
        invariant
            i <= c.len(),
            views(r@) == pre + views(c@).take(i as int),
        decreases c.len() - i,
    {
        let ghost before = r@;
        let x = c[i].clone();
        r.push(x);
        proof {
            assert(views(r@) =~= views(before).push(x@));
            assert(views(c@).take(i + 1) =~= views(c@).take(i as int).push(c@[i as int]@));
        }
        i = i + 1;
    }
    proof {
        assert(views(c@).take(c.len() as int) =~= views(c@));
    }
    r
}

/// Relative link from `from_dir` to `to_file`, `/`-separated. Same-directory
/// targets keep a `./` prefix; deeper targets get `../` segments.
pub fn rel_link(from_dir: &str, to_file: &str) -> (r: String)
    ensures
        r@ == rel_link_spec(from_dir@, to_file@),
{
    let f = path_parts_v(&chars_of(from_dir));
    let t = path_parts_v(&chars_of(to_file));
    let mut i: usize = 0;
    while i < f.len() && i < t.len() && crate::text::eq_chars(&f[i], &t[i])
        invariant
            i <= f.len(),
            i <= t.len(),
            common_len(views(f@), views(t@), i as int) == common_len(views(f@), views(t@), 0),
        decreases f.len() - i,
    {
        i = i + 1;
    }
    let ups = f.len() - i;
    let mut parts: Vec<Vec<char>> = Vec::new();
    let mut k: usize = 0;
    while k < ups
        invariant
            k <= ups,
            views(parts@) == Seq::new(k as nat, |j: int| seq!['.', '.']),
        decreases ups - k,
    {
        let ghost before = parts@;
        let up = vec!['.', '.'];
        parts.push(up);
        proof {
            assert(up@ =~= seq!['.', '.']);
            assert(views(parts@) =~= views(before).push(up@));
            assert(views(parts@) =~= Seq::new((k + 1) as nat, |j: int| seq!['.', '.']));
        }
        k = k + 1;
    }
    let ghost ups_part = views(parts@);
    let mut m = i;
    while m < t.len()
        invariant
            i <= m <= t.len(),
            i <= t.len(),
            views(parts@) == ups_part + views(t@).subrange(i as int, m as int),
        decreases t.len() - m,
    {
        let ghost before = parts@;
        let x = t[m].clone();
        parts.push(x);
        proof {
            assert(views(parts@) =~= views(before).push(x@));
            assert(views(t@).subrange(i as int, m + 1) =~= views(t@).subrange(i as int, m as int).push(t@[m as int]@));
        }
        m = m + 1;
    }
    proof {
        if i > t.len() {
            assert(false);
        }
        assert(views(t@).subrange(i as int, t.len() as int) =~= views(t@).skip(i as int));
    }
    let slash = vec!['/'];
    assert(slash@ =~= seq!['/']);
    let joined = crate::text::join_v(&parts, &slash);
    if ups == 0 {
        let mut r = vec!['.', '/'];
        append_all(&mut r, &joined);
        proof {
            assert(r@ =~= seq!['.', '/'] + joined@);
        }
        string_of(&r)
    } else {
        string_of(&joined)
    }
}

// ---------------------------------------------------------------------------
// Link targets
// ---------------------------------------------------------------------------

/// The last `/`-segment of a target's path part, without an `ADR-`/`adr-`
/// prefix.
pub open spec fn target_segment(target: Seq<char>) -> Seq<char> {
    let seg = after_last(before_first(target, seq!['#']), seq!['/']);
    match strip_prefix(seg, "ADR-"@) {
        Some(t) => t,
        None => match strip_prefix(seg, "adr-"@) {
            Some(t) => t,
            None => seg,
        },
    }
}

/// The ADR number a link target names: the leading digits of its file
/// name, after an optional `ADR-` prefix (a `#anchor` is ignored).
pub open spec fn target_number(target: Seq<char>) -> Option<u32> {
    leading_digits(target_segment(target))
}

/// Extract an ADR number from a link target, accepting `ADR-0006`,
/// `.../0006-foo.md` or a bare `0006`.
pub fn number_in_target(target: &str) -> (r: Option<u32>)
    ensures
        r == target_number(target@),
{
    proof {
        reveal_strlit("#");
        reveal_strlit("/");
    }
    let t = chars_of(target);
    let path = before_first_str(&t, "#");
    let seg = after_last_str(&path, "/");
    assert("#"@ =~= seq!['#']);
    assert("/"@ =~= seq!['/']);
    let s = match strip_prefix_str(&seg, "ADR-") {
        Some(x) => x,
        None => match strip_prefix_str(&seg, "adr-") {
            Some(x) => x,
            None => seg,
        },
    };
    leading_digits_v(&s)
}

/// A relative `.md` path (optionally with `#anchor`): not empty, not an
/// anchor, not absolute, not a URL or `mailto:`.
pub open spec fn relative_md(target: Seq<char>) -> bool {
    &&& target.len() > 0
    &&& !starts_with(target, seq!['#'])
    &&& !starts_with(target, seq!['/'])
    &&& !contains(target, "://"@)
    &&& !starts_with(target, "mailto:"@)
    &&& ends_with(before_first(target, seq!['#']), ".md"@)
}

/// Whether `target` is a candidate cross-ADR link.
pub fn is_relative_md(target: &str) -> (r: bool)
    ensures
        r == relative_md(target@),
{
    proof {
        reveal_strlit("#");
        reveal_strlit("/");
    }
    assert("#"@ =~= seq!['#']);
    assert("/"@ =~= seq!['/']);
    let t = chars_of(target);
    if t.len() == 0 || starts_with_str(&t, "#") || starts_with_str(&t, "/") {
        return false;
    }
    if contains_str(&t, "://") || starts_with_str(&t, "mailto:") {
        return false;
    }
    ends_with_str(&before_first_str(&t, "#"), ".md")
}

// ---------------------------------------------------------------------------
// Scanning for `](target)`
// ---------------------------------------------------------------------------

/// Where the `)` closing a link that opens at `i` stands, if it does.
pub open spec fn link_close(s: Seq<char>, i: int) -> int {
    if 0 <= i && i + 1 < s.len() && s[i] == ']' && s[i + 1] == '(' {
        let k = find(s.skip(i + 2), seq![')']);
        if k < 0 {
            -1
        } else {
            i + 2 + k
        }
    } else {
        -1
    }
}

pub proof fn lemma_link_close(s: Seq<char>, i: int)
    requires
        0 <= i,
        link_close(s, i) >= 0,
    ensures
        i + 2 <= link_close(s, i) < s.len(),
        s[link_close(s, i)] == ')',
{
    crate::text::lemma_find(s.skip(i + 2), seq![')']);
    let k = find(s.skip(i + 2), seq![')']);
    assert(occurs_at(s.skip(i + 2), seq![')'], k));
    assert(s.skip(i + 2).subrange(k, k + 1) == seq![')']);
    assert(s.skip(i + 2).subrange(k, k + 1)[0] == s.skip(i + 2)[k]);
    assert(s.skip(i + 2)[k] == s[i + 2 + k]);
}

/// The spans `[start, end)` of the link targets from index `i` on.
pub open spec fn link_spans(s: Seq<char>, i: int) -> Seq<(int, int)>
    decreases s.len() - i,
{
    if i < 0 || i >= s.len() {
        seq![]
    } else if link_close(s, i) >= 0 {
        proof {
            lemma_link_close(s, i);
        }
        seq![(i + 2, link_close(s, i))] + link_spans(s, link_close(s, i) + 1)
    } else {
        link_spans(s, i + 1)
    }
}

/// The `)` that closes a link opening at `i`, if one does.
pub fn link_close_v(v: &Vec<char>, i: usize) -> (r: Option<usize>)
    requires
        i < v.len(),
    ensures
        match r {
            Some(e) => e as int == link_close(v@, i as int) && i + 2 <= e < v.len(),
            None => link_close(v@, i as int) < 0,
        },
{
    if i + 1 < v.len() && v[i] == ']' && v[i + 1] == '(' {
        let close = vec![')'];
        assert(close@ =~= seq![')']);
        match find_from(v, &close, i + 2) {
            Some(k) => {
                proof {
                    lemma_find_skip(v@, close@, i + 2, k as int);
                }
                Some(k)
            },
            None => {
                proof {
                    lemma_find_skip_none(v@, close@, i + 2);
                }
                None
            },
        }
    } else {
        None
    }
}

pub open spec fn span_texts(s: Seq<char>, spans: Seq<(int, int)>) -> Seq<Seq<char>> {
    spans.map_values(|p: (int, int)| s.subrange(p.0, p.1))
}

/// The targets from `i` on that are relative `.md` paths.
pub open spec fn md_targets_from(s: Seq<char>, i: int) -> Seq<Seq<char>> {
    span_texts(s, link_spans(s, i)).filter(|t: Seq<char>| relative_md(t))
}

/// The relative-`.md` link targets in `content`, in order.
pub fn relative_md_targets(content: &str) -> (r: Vec<&str>)
    ensures
        r@.map_values(|t: &str| t@) == md_targets_from(content@, 0),
{
    let v = chars_of(content);
    let mut out: Vec<&str> = Vec::new();
    let mut i: usize = 0;
    while i < v.len()
        invariant
            i <= v.len(),
            v@ == content@,
            out@.map_values(|t: &str| t@) + md_targets_from(v@, i as int) == md_targets_from(v@, 0),
        decreases v.len() - i,
    {
        let ghost s = v@;
        match link_close_v(&v, i) {
            Some(e) => {
                let t = content.substring_char(i + 2, e);
                proof {
                    let rest = link_spans(s, e + 1);
                    assert(link_spans(s, i as int) == seq![(i + 2, e as int)] + rest);
                    assert(span_texts(s, link_spans(s, i as int)) =~= seq![t@] + span_texts(s, rest));
                    reveal(Seq::filter);
                    assert((seq![t@] + span_texts(s, rest)).drop_first() =~= span_texts(s, rest));
                }
                if is_relative_md(t) {
                    proof {
                        assert(out@.push(t).map_values(|t: &str| t@) =~= out@.map_values(|t: &str| t@).push(t@));
                        assert(md_targets_from(s, i as int) =~= seq![t@] + md_targets_from(s, e + 1));
                    }
                    out.push(t);
                } else {
                    proof {
                        reveal_with_fuel(Seq::filter, 2);
                        let rest = span_texts(s, link_spans(s, e + 1));
                        Seq::filter_distributes_over_add(seq![t@], rest, |t: Seq<char>| relative_md(t));
                        assert(seq![t@].filter(|t: Seq<char>| relative_md(t)) =~= Seq::<Seq<char>>::empty());
                        assert(md_targets_from(s, i as int) =~= md_targets_from(s, e + 1));
                    }
                }
                i = e + 1;
            },
            None => {
                i = i + 1;
            },
        }
    }
    proof {
        assert(md_targets_from(v@, i as int) =~= Seq::<Seq<char>>::empty());
    }
    out
}

// ---------------------------------------------------------------------------
// Rewriting links
// ---------------------------------------------------------------------------

/// The path the table gives for ADR `n`: its first entry for `n`.
pub open spec fn lookup_path(table: Seq<(u32, Seq<char>)>, n: u32) -> Option<Seq<char>>
    decreases table.len(),
{
    if table.len() == 0 {
        None
    } else if table[0].0 == n {
        Some(table[0].1)
    } else {
        lookup_path(table.drop_first(), n)
    }
}

pub open spec fn table_view(t: Seq<(u32, String)>) -> Seq<(u32, Seq<char>)> {
    t.map_values(|p: (u32, String)| (p.0, p.1@))
}

/// What a link target becomes when rewritten from `dir`: `None` when it is
/// left as it is (not a relative `.md` link, no number, an ADR the table does
/// not place, or already pointing at the right place).
pub open spec fn new_target(target: Seq<char>, dir: Seq<char>, table: Seq<(u32, Seq<char>)>) -> Option<Seq<char>> {
    if !relative_md(target) {
        None
    } else {
        match target_number(target) {
            None => None,
            Some(n) => match lookup_path(table, n) {
                None => None,
                Some(abs) => {
                    let anchor = match split_once(target, seq!['#']) {
                        Some(p) => seq!['#'] + p.1,
                        None => Seq::<char>::empty(),
                    };
                    let nt = rel_link_spec(dir, abs) + anchor;
                    if nt != target {
                        Some(nt)
                    } else {
                        None
                    }
                },
            },
        }
    }
}

/// The rewrite of `s` from index `i` on, with the unchanged text pending
/// since `last`; and how many links it changed.
pub open spec fn rewrite_from(s: Seq<char>, i: int, last: int, dir: Seq<char>, table: Seq<(u32, Seq<char>)>) -> (Seq<char>, nat)
    decreases s.len() - i,
{
    if i < 0 || i >= s.len() {
        (s.subrange(last, s.len() as int), 0)
    } else if link_close(s, i) >= 0 {
        proof {
            lemma_link_close(s, i);
        }
        let e = link_close(s, i);
        match new_target(s.subrange(i + 2, e), dir, table) {
            Some(nt) => {
                let r = rewrite_from(s, e + 1, e, dir, table);
                (s.subrange(last, i + 2) + nt + r.0, r.1 + 1)
            },
            None => rewrite_from(s, e + 1, last, dir, table),
        }
    } else {
        rewrite_from(s, i + 1, last, dir, table)
    }
}

pub proof fn lemma_rewrite_count(s: Seq<char>, i: int, last: int, dir: Seq<char>, table: Seq<(u32, Seq<char>)>)
    requires
        0 <= i <= s.len(),
    ensures
        rewrite_from(s, i, last, dir, table).1 <= s.len() - i,
    decreases s.len() - i,
{
    if i < s.len() {
        if link_close(s, i) >= 0 {
            lemma_link_close(s, i);
            let e = link_close(s, i);
            lemma_rewrite_count(s, e + 1, e, dir, table);
            lemma_rewrite_count(s, e + 1, last, dir, table);
        } else {
            lemma_rewrite_count(s, i + 1, last, dir, table);
        }
    }
}

fn lookup_path_v(table: &[(u32, String)], n: u32) -> (r: Option<&String>)
    ensures
        match r {
            Some(p) => lookup_path(table_view(table@), n) == Some(p@),
            None => lookup_path(table_view(table@), n) is None,
        },
{
    let mut k: usize = 0;
    assert(table_view(table@).skip(0) =~= table_view(table@));
    while k < table.len()
        invariant
            k <= table.len(),
            lookup_path(table_view(table@).skip(k as int), n) == lookup_path(table_view(table@), n),
        decreases table.len() - k,
    {
        proof {
            let t = table_view(table@).skip(k as int);
            assert(t.drop_first() =~= table_view(table@).skip(k + 1));
        }
        if table[k].0 == n {
            return Some(&table[k].1);
        }
        k = k + 1;
    }
    proof {
        assert(table_view(table@).skip(k as int) =~= Seq::<(u32, Seq<char>)>::empty());
    }
    None
}

/// The rewritten target for the link text `t`, if it changes.
fn new_target_v(t: &Vec<char>, source_dir: &str, resolve: &[(u32, String)]) -> (r: Option<Vec<char>>)
    ensures
        match r {
            Some(nt) => new_target(t@, source_dir@, table_view(resolve@)) == Some(nt@),
            None => new_target(t@, source_dir@, table_view(resolve@)) is None,
        },
{
    let ts = string_of(t);
    if !is_relative_md(ts.as_str()) {
        return None;
    }
    let num = match number_in_target(ts.as_str()) {
        Some(n) => n,
        None => return None,
    };
    let abs = match lookup_path_v(resolve, num) {
        Some(p) => p,
        None => return None,
    };
    let mut nt = chars_of(rel_link(source_dir, abs.as_str()).as_str());
    proof {
        reveal_strlit("#");
    }
    assert("#"@ =~= seq!['#']);
    let ghost base = nt@;
    match split_once_str(t, "#") {
        Some((_, a)) => {
            nt.push('#');
            append_all(&mut nt, &a);
            assert(nt@ =~= base + (seq!['#'] + a@));
        },
        None => {
            assert(nt@ =~= base + Seq::<char>::empty());
        },
    }
    if crate::text::eq_chars(&nt, t) {
        None
    } else {
        Some(nt)
    }
}

/// Rewrite every cross-ADR relative link in `content` to point, from
/// `source_dir`, at the path `resolve` gives for the ADR it names. Links the
/// table does not place, non-ADR, external and anchor-only links are kept
/// as they are. Returns the new content and the number of links changed.
pub fn rewrite_links(content: &str, source_dir: &str, resolve: &[(u32, String)]) -> (r: (String, usize))
    ensures
        r.0@ == rewrite_from(content@, 0, 0, source_dir@, table_view(resolve@)).0,
        r.1 == rewrite_from(content@, 0, 0, source_dir@, table_view(resolve@)).1,
{
    let v = chars_of(content);
    let ghost tv = table_view(resolve@);
    let ghost total = rewrite_from(v@, 0, 0, source_dir@, tv);
    let mut out: Vec<char> = Vec::new();
    let mut last: usize = 0;
    let mut changed: usize = 0;
    let mut i: usize = 0;
    proof {
        lemma_rewrite_count(v@, 0, 0, source_dir@, tv);
    }
    while i < v.len()
        invariant
            last <= i <= v.len(),
            v@ == content@,
            tv == table_view(resolve@),
            total == rewrite_from(v@, 0, 0, source_dir@, tv),
            total.1 <= v.len(),
            out@ + rewrite_from(v@, i as int, last as int, source_dir@, tv).0 == total.0,
            changed + rewrite_from(v@, i as int, last as int, source_dir@, tv).1 == total.1,
        decreases v.len() - i,
    {
        let ghost s = v@;
        match link_close_v(&v, i) {
            Some(e) => {
                let t = slice_of(&v, i + 2, e);
                match new_target_v(&t, source_dir, resolve) {
                    Some(nt) => {
                        let ghost before = out@;
                        append_all(&mut out, &slice_of(&v, last, i + 2));
                        append_all(&mut out, &nt);
                        proof {
                            let r = rewrite_from(s, e + 1, e as int, source_dir@, tv);
                            assert(out@ + r.0 =~= before + (s.subrange(last as int, i + 2) + nt@ + r.0));
                        }
                        last = e;
                        changed = changed + 1;
                    },
                    None => {},
                }
                i = e + 1;
            },
            None => {
                i = i + 1;
            },
        }
    }
    append_all(&mut out, &slice_of(&v, last, v.len()));
    (string_of(&out), changed)
}

} // verus!
