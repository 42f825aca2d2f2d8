//! Publishing accepted ADRs: the report a run gives back and the `index.md`
//! that lists what was published.
use vstd::prelude::*;
use crate::text::{append_str, chars_of, string_of};

verus! {

/// Outcome of a publish run.
#[derive(Debug, Default)]
pub struct PublishReport {
    /// Number of ADR files written (or that would be, on a dry run).
    pub written: usize,
    /// `(title, filename)` of each published ADR, in list order.
    pub files: Vec<(String, String)>,
    /// The output directory.
    pub out: String,
}

/// One published ADR as the index lists it.
pub struct IndexEntry {
    /// The ADR's display reference (`ADR-0001`).
    pub reference: String,
    pub title: String,
    /// The published file's name, the link target.
    pub file: String,
}

/// The index's opening lines.
pub open spec fn index_header() -> Seq<char> {
    "# Decision log\n\nPublished accepted ADRs.\n\n"@
}

/// One index line: `- [<reference>: <title>](<file>)`.
pub open spec fn index_line(e: IndexEntry) -> Seq<char> {
    "- ["@ + e.reference@ + ": "@ + e.title@ + "]("@ + e.file@ + ")\n"@
}

/// The index over the entries, in order.
pub open spec fn index_spec(entries: Seq<IndexEntry>) -> Seq<char>
    decreases entries.len(),
{
    if entries.len() == 0 {
        index_header()
    } else {
        index_spec(entries.drop_last()) + index_line(entries.last())
    }
}

/// The `index.md` listing the published ADRs.
pub fn index_markdown(entries: &[IndexEntry]) -> (r: String)
    ensures
        r@ == index_spec(entries@),
{
    let mut v = chars_of("# Decision log\n\nPublished accepted ADRs.\n\n");
    let mut i: usize = 0;
    while i < entries.len()
        invariant
            i <= entries.len(),
            v@ == index_spec(entries@.take(i as int)),
        decreases entries.len() - i,
    {
        let e = &entries[i];
        let ghost before = v@;
        append_str(&mut v, "- [");
        append_str(&mut v, e.reference.as_str());
        append_str(&mut v, ": ");
        append_str(&mut v, e.title.as_str());
        append_str(&mut v, "](");
        append_str(&mut v, e.file.as_str());
        append_str(&mut v, ")\n");
        proof {
            assert(entries@.take(i + 1).drop_last() =~= entries@.take(i as int));
            assert(v@ =~= before + index_line(*e));
        }
        i = i + 1;
    }
    assert(entries@.take(entries.len() as int) =~= entries@);
    string_of(&v)
}

impl PublishReport {
    /// A report with nothing written yet.
    pub fn new(out: String) -> (r: Self)
        ensures
            r.written == 0,
            r.files@.len() == 0,
            r.out@ == out@,
    {
        PublishReport { written: 0, files: Vec::new(), out }
    }

    /// Count one published ADR.
    pub fn record(&mut self, title: String, file: String)
        requires
            old(self).written < usize::MAX,
        ensures
            final(self).written == old(self).written + 1,
            final(self).files@ == old(self).files@.push((title, file)),
            final(self).out == old(self).out,
    {
        self.written = self.written + 1;
        self.files.push((title, file));
    }
}

} // verus!
