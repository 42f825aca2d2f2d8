//! The frontmatter profile's document shape: a `---` delimited YAML block
//! followed by the markdown body, and the reference remapping a renumber
//! applies to its fields. The YAML itself is read and written with serde by
//! the application.
use vstd::prelude::*;
use crate::adr::Adr;
use crate::naming::{AdrRef, RefV};
use crate::query::refs_of;
use crate::text::{append_str, chars_of, contains, find, find_str, occurs_at, slice_of, starts_with, starts_with_str, string_of, trim_start, trim_start_v};

verus! {

/// What can go wrong framing or reading a frontmatter document.
#[derive(Debug, Clone, PartialEq, Eq)]
pub enum FrontmatterError {
    /// The ADR has no number yet.
    MissingNumber,
    MissingOpenDelimiter,
    MissingCloseDelimiter,
    /// The YAML block did not read, with the reader's message.
    Yaml(String),
}

impl FrontmatterError {
    pub fn message(&self) -> (s: String)
        ensures
            self is MissingNumber ==> s@ == "ADR number must be assigned before serializing"@,
            self is MissingOpenDelimiter ==> s@ == "missing opening frontmatter delimiter `---`"@,
            self is MissingCloseDelimiter ==> s@ == "missing closing frontmatter delimiter `---`"@,
            self matches FrontmatterError::Yaml(m) ==> s@ == "invalid frontmatter YAML: "@ + m@,
    {
        match self {
            FrontmatterError::MissingNumber => string_of(&chars_of("ADR number must be assigned before serializing")),
            FrontmatterError::MissingOpenDelimiter => string_of(&chars_of("missing opening frontmatter delimiter `---`")),
            FrontmatterError::MissingCloseDelimiter => string_of(&chars_of("missing closing frontmatter delimiter `---`")),
            FrontmatterError::Yaml(m) => {
                let mut v = chars_of("invalid frontmatter YAML: ");
                append_str(&mut v, m.as_str());
                string_of(&v)
            },
        }
    }
}

/// `s` without its leading `\r` and `\n` characters.
pub open spec fn skip_newlines(s: Seq<char>) -> Seq<char>
    decreases s.len(),
{
    if s.len() > 0 && (s[0] == '\r' || s[0] == '\n') {
        skip_newlines(s.drop_first())
    } else {
        s
    }
}

fn skip_newlines_v(v: &Vec<char>, from: usize) -> (r: Vec<char>)
    requires
        from <= v.len(),
    ensures
        r@ == skip_newlines(v@.skip(from as int)),
{
    let mut i = from;
    while i < v.len() && (v[i] == '\r' || v[i] == '\n')
        invariant
            from <= i <= v.len(),
            skip_newlines(v@.skip(i as int)) == skip_newlines(v@.skip(from as int)),
        decreases v.len() - i,
    {
        assert(v@.skip(i as int).drop_first() =~= v@.skip(i + 1));
        i = i + 1;
    }
    slice_of(v, i, v.len())
}

/// The YAML block and the body of a frontmatter document: after leading
/// whitespace it opens with `---`; the block runs, past the newlines that
/// follow, up to the first `\n---`; the body follows that, past its
/// newlines.
pub open spec fn split_spec(input: Seq<char>) -> Result<(Seq<char>, Seq<char>), FrontmatterError> {
    let t = trim_start(input);
    if !starts_with(t, "---"@) {
        Err(FrontmatterError::MissingOpenDelimiter)
    } else {
        let after = skip_newlines(t.skip(3));
        let k = find(after, "\n---"@);
        if k < 0 {
            Err(FrontmatterError::MissingCloseDelimiter)
        } else {
            Ok((after.take(k), skip_newlines(after.skip(k + 4))))
        }
    }
}

/// Split a frontmatter document into its YAML block and its body.
pub fn split_frontmatter(input: &str) -> (r: Result<(String, String), FrontmatterError>)
    ensures
        match r {
            Ok((y, b)) => split_spec(input@) == Ok::<(Seq<char>, Seq<char>), FrontmatterError>((y@, b@)),
            Err(e) => split_spec(input@) == Err::<(Seq<char>, Seq<char>), FrontmatterError>(e),
        },
{
    proof {
        reveal_strlit("---");
        reveal_strlit("\n---");
    }
    let t = trim_start_v(&chars_of(input));
    if !starts_with_str(&t, "---") {
        return Err(FrontmatterError::MissingOpenDelimiter);
    }
    let after = skip_newlines_v(&t, 3);
    match find_str(&after, "\n---") {
        None => Err(FrontmatterError::MissingCloseDelimiter),
        Some(k) => {
            assert(k + 4 <= after.len());
            let yaml = slice_of(&after, 0, k);
            let body = skip_newlines_v(&after, k + 4);
            Ok((string_of(&yaml), string_of(&body)))
        },
    }
}

/// The document for a YAML block and a body: the block between `---`
/// lines, then the body after a blank line when there is one.
pub open spec fn frame_spec(yaml: Seq<char>, body: Seq<char>) -> Seq<char> {
    "---\n"@ + yaml + "---\n"@ + if body.len() > 0 {
        "\n"@ + body + "\n"@
    } else {
        Seq::empty()
    }
}

/// Frame a serialized YAML block and an ADR body as a document.
pub fn frame(yaml: &str, body: &str) -> (r: String)
    ensures
        r@ == frame_spec(yaml@, body@),
{
    let mut v = chars_of("---\n");
    append_str(&mut v, yaml);
    append_str(&mut v, "---\n");
    let b = chars_of(body);
    if b.len() > 0 {
        append_str(&mut v, "\n");
        append_str(&mut v, body);
        append_str(&mut v, "\n");
    }
    string_of(&v)
}

// ---------------------------------------------------------------------------
// Remapping numeric references
// ---------------------------------------------------------------------------

/// `r`, pointed at ADR `to` when it is the number `from`.
pub open spec fn remap_ref(r: RefV, from: u32, to: u32) -> RefV {
    if r == RefV::Number(from) {
        RefV::Number(to)
    } else {
        r
    }
}

pub open spec fn remap_opt(r: Option<AdrRef>, from: u32, to: u32) -> Option<RefV> {
    match r {
        Some(x) => Some(remap_ref(x@, from, to)),
        None => None,
    }
}

pub open spec fn remap_all(rs: Seq<RefV>, from: u32, to: u32) -> Seq<RefV> {
    rs.map_values(|r: RefV| remap_ref(r, from, to))
}

/// Whether any of an ADR's reference fields names the number `from`.
pub open spec fn refers_to(a: Adr, from: u32) -> bool {
    crate::naming::opt_view(a.supersedes) == Some(RefV::Number(from))
        || crate::naming::opt_view(a.superseded_by) == Some(RefV::Number(from))
        || refs_of(a.relates_to@).contains(RefV::Number(from))
        || refs_of(a.depends_on@).contains(RefV::Number(from))
        || refs_of(a.refines@).contains(RefV::Number(from))
}

fn remap_one(r: &mut AdrRef, from: u32, to: u32) -> (changed: bool)
    ensures
        final(r)@ == remap_ref(old(r)@, from, to),
        changed == (old(r)@ == RefV::Number(from)),
{
    let hit = match r {
        AdrRef::Number(n) => *n == from,
        AdrRef::Slug(_) => false,
    };
    if hit {
        *r = AdrRef::Number(to);
    }
    hit
}

fn remap_vec(v: &mut Vec<AdrRef>, from: u32, to: u32) -> (changed: bool)
    ensures
        refs_of(final(v)@) == remap_all(refs_of(old(v)@), from, to),
        changed == refs_of(old(v)@).contains(RefV::Number(from)),
{
    let ghost start = refs_of(v@);
    let mut changed = false;
    let mut i: usize = 0;
    while i < v.len()
        invariant
            i <= v.len(),
            v.len() == start.len(),
            forall|k: int| 0 <= k < i ==> refs_of(v@)[k] == remap_ref(start[k], from, to),
            forall|k: int| i <= k < v.len() ==> refs_of(v@)[k] == start[k],
            changed == exists|k: int| 0 <= k < i && start[k] == RefV::Number(from),
        decreases v.len() - i,
    {
        assert(refs_of(v@)[i as int] == start[i as int]);
        let mut r = v[i].copy();
        assert(r@ == start[i as int]);
        let hit = remap_one(&mut r, from, to);
        let ghost before = v@;
        let ghost rv = r@;
        assert(rv == remap_ref(start[i as int], from, to));
        v.set(i, r);
        proof {
            assert(v@ == before.update(i as int, r));
            assert(refs_of(v@)[i as int] == rv);
            assert forall|k: int| 0 <= k < v.len() && k != i implies refs_of(v@)[k] == refs_of(before)[k] by {
                assert(v@[k] == before[k]);
            }
            assert forall|k: int| 0 <= k < i + 1 implies refs_of(v@)[k] == remap_ref(start[k], from, to) by {
                if k < i {
                    assert(refs_of(before)[k] == remap_ref(start[k], from, to));
                }
            }
        }
        if hit {
            changed = true;
        }
        proof {
            if hit {
                assert(start[i as int] == RefV::Number(from));
            }
            assert(changed == exists|k: int| 0 <= k < i + 1 && start[k] == RefV::Number(from)) by {
                if !hit && !(exists|k: int| 0 <= k < i && start[k] == RefV::Number(from)) {
                    assert forall|k: int| 0 <= k < i + 1 implies start[k] != RefV::Number(from) by {
                        if k == i {
                        }
                    }
                }
            }
        }
        i = i + 1;
    }
    assert(refs_of(v@) =~= remap_all(start, from, to));
    changed
}

/// Point every numeric reference to ADR `from` in an ADR's reference fields
/// (`supersedes`, `superseded_by`, `relates_to`, `depends_on`, `refines`)
/// at ADR `to`, leaving slug references and everything else alone; say
/// whether any was changed.
pub fn remap_refs(adr: &mut Adr, from: u32, to: u32) -> (changed: bool)
    ensures
        changed == refers_to(*old(adr), from),
        crate::naming::opt_view(final(adr).supersedes) == remap_opt(old(adr).supersedes, from, to),
        crate::naming::opt_view(final(adr).superseded_by) == remap_opt(old(adr).superseded_by, from, to),
        refs_of(final(adr).relates_to@) == remap_all(refs_of(old(adr).relates_to@), from, to),
        refs_of(final(adr).depends_on@) == remap_all(refs_of(old(adr).depends_on@), from, to),
        refs_of(final(adr).refines@) == remap_all(refs_of(old(adr).refines@), from, to),
        final(adr).id == old(adr).id,
        final(adr).number == old(adr).number,
        final(adr).slug == old(adr).slug,
        final(adr).category == old(adr).category,
        final(adr).title == old(adr).title,
        final(adr).status == old(adr).status,
        final(adr).created == old(adr).created,
        final(adr).body == old(adr).body,
        final(adr).git_sha == old(adr).git_sha,
        final(adr).review_by == old(adr).review_by,
{
    let mut changed = false;
    match &mut adr.supersedes {
        Some(r) => {
            changed = remap_one(r, from, to);
        },
        None => {},
    }
    match &mut adr.superseded_by {
        Some(r) => {
            let c = remap_one(r, from, to);
            changed = changed || c;
        },
        None => {},
    }
    let a = remap_vec(&mut adr.relates_to, from, to);
    let b = remap_vec(&mut adr.depends_on, from, to);
    let c = remap_vec(&mut adr.refines, from, to);
    changed || a || b || c
}

/// `s` begins with a character other than `\r` and `\n`, or is empty.
pub open spec fn no_lead_newline(s: Seq<char>) -> bool {
    s.len() == 0 || (s[0] != '\r' && s[0] != '\n')
}

proof fn lemma_skip_newlines_stop(s: Seq<char>)
    requires
        no_lead_newline(s),
    ensures
        skip_newlines(s) == s,
{
}

/// Reading back a framed document gives back its YAML block (without the
/// newline that ends it) and its body (with the newline framing adds),
/// when the block ends with a newline, holds no `\n---`, and neither the
/// block nor the body begins with a newline.
#[verifier::rlimit(40)]
pub proof fn law_split_after_frame(yaml: Seq<char>, body: Seq<char>)
    requires
        yaml.len() > 0,
        yaml.last() == '\n',
        !contains(yaml, "\n---"@),
        no_lead_newline(yaml),
        no_lead_newline(body),
    ensures
        split_spec(frame_spec(yaml, body)) == Ok::<(Seq<char>, Seq<char>), FrontmatterError>(
            (yaml.drop_last(), if body.len() > 0 { body + "\n"@ } else { Seq::empty() }),
        ),
{
    reveal_strlit("---\n");
    reveal_strlit("---");
    reveal_strlit("\n---");
    reveal_strlit("\n");
    let tb: Seq<char> = if body.len() > 0 { "\n"@ + body + "\n"@ } else { Seq::empty() };
    let doc = frame_spec(yaml, body);
    assert(doc =~= "---\n"@ + yaml + "---\n"@ + tb);
    // Nothing to trim at the front: the document starts with `-`.
    assert(crate::text::is_lead(doc, crate::text::ws_pred(), 0));
    crate::text::lemma_lead(doc, crate::text::ws_pred(), 0);
    assert(trim_start(doc) =~= doc);
    assert(starts_with(doc, "---"@)) by {
        assert(doc.take(3) =~= "---"@);
    }
    let after = yaml + "---\n"@ + tb;
    assert(doc.skip(3) =~= seq!['\n'] + after);
    assert((seq!['\n'] + after).drop_first() =~= after);
    assert(after[0] == yaml[0]);
    lemma_skip_newlines_stop(after);
    assert(skip_newlines(doc.skip(3)) == after);
    // The first `\n---` is the one the block's final newline starts.
    let n = yaml.len() as int;
    let p = "\n---"@;
    assert(occurs_at(after, p, n - 1)) by {
        assert(after.subrange(n - 1, n + 3) =~= p);
    }
    assert forall|j: int| 0 <= j < n - 1 implies !#[trigger] occurs_at(after, p, j) by {
        if occurs_at(after, p, j) {
            let w = after.subrange(j, j + 4);
            assert(w == p);
            if j + 4 <= n {
                assert(yaml.subrange(j, j + 4) =~= w);
                assert(occurs_at(yaml, p, j));
                assert(contains(yaml, p));
            } else if j == n - 2 {
                assert(w[1] == after[j + 1]);
                assert(after[j + 1] == yaml[n - 1]);
                assert(p[1] == '-');
            } else {
                assert(j == n - 3);
                assert(w[2] == after[j + 2]);
                assert(after[j + 2] == yaml[n - 1]);
                assert(p[2] == '-');
            }
        }
    }
    assert(crate::text::first_occ(after, p, n - 1));
    crate::text::lemma_find_is(after, p, n - 1);
    assert(after.take(n - 1) =~= yaml.drop_last());
    let rest = after.skip(n + 3);
    assert(rest =~= seq!['\n'] + tb);
    assert(rest[0] == '\n');
    assert(skip_newlines(rest) == skip_newlines(rest.drop_first()));
    if body.len() > 0 {
        assert(rest.drop_first() =~= seq!['\n'] + body + "\n"@);
        assert(rest.drop_first()[0] == '\n');
        assert(skip_newlines(rest.drop_first()) == skip_newlines(rest.drop_first().drop_first()));
        assert(rest.drop_first().drop_first() =~= body + "\n"@);
        assert((body + "\n"@)[0] == body[0]);
        lemma_skip_newlines_stop(body + "\n"@);
    } else {
        assert(rest.drop_first() =~= Seq::<char>::empty());
    }
    assert(find(after, p) == n - 1);
}

} // verus!
