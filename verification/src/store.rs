//! The ADR store: where files go and how they are named and found. The
//! filesystem walks stay with the caller; the store decides from the paths
//! it is given.
use vstd::prelude::*;
use crate::adr::{all_statuses, status_name, Adr, Number, Status};
use crate::config::{
    join_path, join_path_v, layout_name, ostr, DateSource, Layout, RelinkScope,
};
use crate::format::{format_name, Format};
use crate::naming::{
    lemma_seq_max_member, max_of, opt_view, scheme_display, scheme_parse, scheme_ref_matches,
    seq_max, slugify, slugify_v, str_to_lowercase, AdrRef, NamingScheme, RefV,
};
use crate::paths::{file_name, file_name_v, parent_name, parent_name_v};
use crate::text::{
    append_all, append_str, ascii_lower_seq, chars_of, dec, ends_with, ends_with_str,
    eq_ignore_ascii_case, eq_ignore_case_chars, is_ascii_seq, join, leading_digits,
    leading_digits_v, pad4_v, pad_zero, starts_with, starts_with_str, string_of, trim_start,
    trim_start_v,
};

verus! {

/// Errors that can occur during ADR storage operations.
#[derive(Debug, Clone, PartialEq, Eq)]
pub enum StoreError {
    NotFound(String),
    Io(String),
    Parse(String),
    NumberNotFound(Number),
}

impl StoreError {
    pub fn message(&self) -> (s: String)
        ensures
            self matches StoreError::NotFound(p) ==> s@ == "ADR directory not found: "@ + p@,
            self matches StoreError::Io(m) ==> s@ == m@,
            self matches StoreError::Parse(m) ==> s@ == "failed to parse ADR: "@ + m@,
            self matches StoreError::NumberNotFound(n) ==> s@ == "no ADR found with number "@ + pad_zero(dec(n.0 as nat), 4),
    {
        match self {
            StoreError::NotFound(p) => {
                let mut v = chars_of("ADR directory not found: ");
                append_str(&mut v, p.as_str());
                string_of(&v)
            },
            StoreError::Io(m) => string_of(&chars_of(m.as_str())),
            StoreError::Parse(m) => {
                let mut v = chars_of("failed to parse ADR: ");
                append_str(&mut v, m.as_str());
                string_of(&v)
            },
            StoreError::NumberNotFound(n) => {
                let mut v = chars_of("no ADR found with number ");
                append_all(&mut v, &pad4_v(n.0));
                string_of(&v)
            },
        }
    }
}

/// Outcome of a relink pass.
#[derive(Debug, Clone)]
pub struct RelinkReport {
    /// Number of files whose content was (or would be) rewritten.
    pub files_changed: usize,
    /// Total cross-ADR links rewritten across those files.
    pub links_rewritten: usize,
    /// Files (relative to the store root) that changed.
    pub changed_files: Vec<String>,
}

impl Default for RelinkReport {
    fn default() -> (r: Self)
        ensures
            r.files_changed == 0 && r.links_rewritten == 0 && r.changed_files@.len() == 0,
    {
        RelinkReport { files_changed: 0, links_rewritten: 0, changed_files: Vec::new() }
    }
}

/// What an ADR directory looks like on disk; `None` for a dimension that
/// cannot be told.
#[derive(Debug, Clone, Copy)]
pub struct Detected {
    pub layout: Option<Layout>,
    pub format: Option<Format>,
}

/// A planned (or applied) profile migration.
#[derive(Debug)]
pub struct MigrateReport {
    pub layout_change: Option<(Layout, Layout)>,
    pub format_change: Option<(Format, Format)>,
    /// Number of ADR files migrated.
    pub files: usize,
    /// `(from, to)` relative to the store root for each file that moves.
    pub moves: Vec<(String, String)>,
    /// Whether the migration was applied, not just planned.
    pub applied: bool,
    /// Cross-ADR links rewritten afterward.
    pub links_rewritten: usize,
}

impl MigrateReport {
    /// `true` when source and target profiles already match.
    pub fn is_noop(&self) -> (r: bool)
        ensures
            r == (self.layout_change is None && self.format_change is None),
    {
        self.layout_change.is_none() && self.format_change.is_none()
    }
}

/// Which typed relational link to add or remove.
#[derive(Debug, Clone, Copy, PartialEq, Eq, Structural)]
pub enum LinkKind {
    RelatesTo,
    DependsOn,
    Refines,
}

/// Outcome of a renumbering.
#[derive(Debug)]
pub struct RenumberReport {
    pub from: u32,
    pub to: u32,
    /// Files rewritten: the renamed ADR and every file with an inbound reference.
    pub files_updated: usize,
}

/// How a store serializes and lays out ADRs. A status occurs at most once
/// in `status_dir`.
#[derive(Debug, Clone)]
pub struct StoreOptions {
    pub format: Format,
    pub layout: Layout,
    /// Map from status to directory name (by-status layout); a status
    /// without an entry uses its lower-cased name.
    pub status_dir: Vec<(Status, String)>,
    /// Age in days past which a still-proposed ADR is review-due.
    pub review_overdue_days: Option<u32>,
    pub date_source: DateSource,
    pub naming: NamingScheme,
    pub relink_scope: RelinkScope,
}

pub open spec fn dirs_view(v: Seq<(Status, String)>) -> Seq<(Status, Seq<char>)> {
    v.map_values(|p: (Status, String)| (p.0, p.1@))
}

/// The directory name for a status: its entry, else its lower-cased name.
pub open spec fn dir_name_spec(dirs: Seq<(Status, Seq<char>)>, s: Status) -> Seq<char> {
    crate::config::dir_for_spec(dirs, s)
}

impl Default for StoreOptions {
    fn default() -> (r: Self)
        ensures
            r.format == Format::Markdown,
            r.layout == Layout::ByStatus,
            r.status_dir@.len() == 0,
            r.review_overdue_days is None,
            r.date_source == DateSource::Auto,
            r.naming == NamingScheme::Sequential,
            r.relink_scope == RelinkScope::All,
    {
        StoreOptions {
            format: Format::Markdown,
            layout: Layout::ByStatus,
            status_dir: Vec::new(),
            review_overdue_days: None,
            date_source: DateSource::Auto,
            naming: NamingScheme::Sequential,
            relink_scope: RelinkScope::All,
        }
    }
}

impl StoreOptions {
    /// Options for the original behaviour: flat layout, frontmatter format.
    pub fn flat_frontmatter() -> (r: Self)
        ensures
            r.format == Format::Frontmatter,
            r.layout == Layout::Flat,
            r.status_dir@.len() == 0,
            r.review_overdue_days is None,
            r.date_source == DateSource::Auto,
            r.naming == NamingScheme::Sequential,
            r.relink_scope == RelinkScope::All,
    {
        StoreOptions {
            format: Format::Frontmatter,
            layout: Layout::Flat,
            status_dir: Vec::new(),
            review_overdue_days: None,
            date_source: DateSource::Auto,
            naming: NamingScheme::Sequential,
            relink_scope: RelinkScope::All,
        }
    }

    /// The directory name a status maps to.
    pub fn dir_name(&self, status: Status) -> (r: String)
        ensures
            r@ == dir_name_spec(dirs_view(self.status_dir@), status),
    {
        let mut k: usize = 0;
        let ghost dv = dirs_view(self.status_dir@);
        assert(dv.skip(0) =~= dv);
        while k < self.status_dir.len()
            invariant
                k <= self.status_dir.len(),
                dv == dirs_view(self.status_dir@),
                dir_name_spec(dv.skip(k as int), status) == dir_name_spec(dv, status),
            decreases self.status_dir.len() - k,
        {
            assert(dv.skip(k as int).drop_first() =~= dv.skip(k + 1));
            if self.status_dir[k].0 == status {
                return string_of(&chars_of(self.status_dir[k].1.as_str()));
            }
            k = k + 1;
        }
        assert(dv.skip(k as int) =~= Seq::<(Status, Seq<char>)>::empty());
        let name = status.to_string();
        proof {
            reveal_strlit("Proposed");
            reveal_strlit("Accepted");
            reveal_strlit("Rejected");
            reveal_strlit("Deprecated");
            reveal_strlit("Superseded");
        }
        assert(is_ascii_seq(status_name(status)));
        str_to_lowercase(name.as_str())
    }
}

// ---------------------------------------------------------------------------
// File names
// ---------------------------------------------------------------------------

/// The canonical sequential file name: `0001-some-title.md`, or `0001.md`
/// when the title has no word characters.
pub open spec fn filename_spec(number: u32, title: Seq<char>) -> Seq<char> {
    let slug = slugify(title);
    if slug.len() == 0 {
        pad_zero(dec(number as nat), 4) + ".md"@
    } else {
        pad_zero(dec(number as nat), 4) + "-"@ + slug + ".md"@
    }
}

/// Generate the canonical sequential file name for an ADR.
pub fn filename(number: Number, title: &str) -> (r: String)
    ensures
        r@ == filename_spec(number.0, title@),
{
    let slug = slugify_v(title);
    let mut v = pad4_v(number.0);
    if slug.len() == 0 {
        append_str(&mut v, ".md");
    } else {
        append_str(&mut v, "-");
        append_all(&mut v, &slug);
        append_str(&mut v, ".md");
    }
    string_of(&v)
}

/// The number a file name starts with, if it does and it fits.
pub open spec fn filename_number(path: Seq<char>) -> Option<u32> {
    match file_name(path) {
        Some(n) => leading_digits(n),
        None => None,
    }
}

/// Parse the leading zero-padded number from a file name like `0006-foo.md`.
pub fn number_from_filename(path: &str) -> (r: Option<Number>)
    ensures
        match r {
            Some(n) => filename_number(path@) == Some(n.0),
            None => filename_number(path@) is None,
        },
{
    match file_name_v(&chars_of(path)) {
        Some(n) => match leading_digits_v(&n) {
            Some(x) => Some(Number::new(x)),
            None => None,
        },
        None => None,
    }
}

/// An ADR file: a `*.md` file other than `README.md` and `adr-template.md`
/// (names compared ignoring ASCII case).
pub open spec fn adr_file(path: Seq<char>) -> bool {
    match file_name(path) {
        Some(n) => {
            &&& ends_with(n, ".md"@)
            &&& n.len() > 3
            &&& !eq_ignore_ascii_case(n, "README.md"@)
            &&& !eq_ignore_ascii_case(n, "adr-template.md"@)
        },
        None => false,
    }
}

/// True if this path names an ADR file.
pub fn is_adr_file(path: &str) -> (r: bool)
    ensures
        r == adr_file(path@),
{
    match file_name_v(&chars_of(path)) {
        Some(n) => {
            ends_with_str(&n, ".md") && n.len() > 3 && !eq_ignore_case_chars(&n, &chars_of("README.md"))
                && !eq_ignore_case_chars(&n, &chars_of("adr-template.md"))
        },
        None => false,
    }
}

/// Whether the directory at a path exists. What it returns depends on the
/// filesystem and is not stated.
#[verifier::external_body]
fn path_is_dir(p: &str) -> (r: bool) {
    std::path::Path::new(p).is_dir()
}

// ---------------------------------------------------------------------------
// The store
// ---------------------------------------------------------------------------

/// Manages where ADRs live on disk.
#[derive(Debug)]
pub struct Store {
    root: String,
    opts: StoreOptions,
}

impl Store {
    pub closed spec fn root_view(&self) -> Seq<char> {
        self.root@
    }

    pub closed spec fn layout_view(&self) -> Layout {
        self.opts.layout
    }

    pub closed spec fn format_view(&self) -> Format {
        self.opts.format
    }

    pub closed spec fn naming_view(&self) -> NamingScheme {
        self.opts.naming
    }

    pub closed spec fn dirs(&self) -> Seq<(Status, Seq<char>)> {
        dirs_view(self.opts.status_dir@)
    }

    /// Open the store at `root` with default options; an error when `root`
    /// is not a directory.
    pub fn open(root: &str) -> (r: Result<Store, StoreError>)
        ensures
            r matches Ok(s) ==> s.root_view() == root@ && s.layout_view() == Layout::ByStatus
                && s.format_view() == Format::Markdown,
            r matches Err(e) ==> e == StoreError::NotFound(e->NotFound_0) && e->NotFound_0@ == root@,
    {
        Store::open_with(root, StoreOptions::default())
    }

    /// Open the store at `root` with explicit options.
    pub fn open_with(root: &str, opts: StoreOptions) -> (r: Result<Store, StoreError>)
        ensures
            r matches Ok(s) ==> s.root_view() == root@ && s.layout_view() == opts.layout
                && s.format_view() == opts.format && s.naming_view() == opts.naming
                && s.dirs() == dirs_view(opts.status_dir@),
            r matches Err(e) ==> e == StoreError::NotFound(e->NotFound_0) && e->NotFound_0@ == root@,
    {
        if !path_is_dir(root) {
            return Err(StoreError::NotFound(string_of(&chars_of(root))));
        }
        Ok(Store { root: string_of(&chars_of(root)), opts })
    }

    /// The store at `root`, with no check of the disk (for a root the caller
    /// has just created).
    pub fn at(root: &str, opts: StoreOptions) -> (r: Store)
        ensures
            r.root_view() == root@,
            r.layout_view() == opts.layout,
            r.format_view() == opts.format,
            r.naming_view() == opts.naming,
            r.dirs() == dirs_view(opts.status_dir@),
    {
        Store { root: string_of(&chars_of(root)), opts }
    }

    /// The root path of this store.
    pub fn root(&self) -> (r: &str)
        ensures
            r@ == self.root_view(),
    {
        self.root.as_str()
    }

    /// The store options.
    pub fn options(&self) -> (r: &StoreOptions)
        ensures
            r.layout == self.layout_view(),
            r.format == self.format_view(),
            r.naming == self.naming_view(),
            dirs_view(r.status_dir@) == self.dirs(),
    {
        &self.opts
    }

    /// The on-disk serialization format this store uses.
    pub fn format(&self) -> (r: Format)
        ensures
            r == self.format_view(),
    {
        self.opts.format
    }

    /// The directory a status maps to: its status directory under the root
    /// in the by-status layout, the root itself otherwise.
    pub fn status_dir(&self, status: Status) -> (r: String)
        ensures
            r@ == (match self.layout_view() {
                Layout::ByStatus => join_path(self.root_view(), dir_name_spec(self.dirs(), status)),
                _ => self.root_view(),
            }),
    {
        match self.opts.layout {
            Layout::ByStatus => join_path_v(self.root.as_str(), self.opts.dir_name(status).as_str()),
            _ => string_of(&chars_of(self.root.as_str())),
        }
    }

    /// The directory for a category under the by-category layout.
    pub fn category_dir(&self, category: &str) -> (r: String)
        ensures
            r@ == join_path(self.root_view(), category@),
    {
        join_path_v(self.root.as_str(), category)
    }

    /// The status whose directory a file sits in, in the by-status layout:
    /// the first status, in lifecycle order, whose directory name equals the
    /// file's parent directory name ignoring ASCII case.
    pub fn dir_status(&self, path: &str) -> (r: Option<Status>)
        ensures
            r == dir_status_spec(self.layout_view(), self.dirs(), path@),
    {
        if self.opts.layout != Layout::ByStatus {
            return None;
        }
        let dir = match parent_name_v(&chars_of(path)) {
            Some(d) => d,
            None => return None,
        };
        let all = crate::adr::all_status_list();
        assert(all_statuses().skip(0) =~= all_statuses());
        let mut k: usize = 0;
        while k < all.len()
            invariant
                k <= all.len(),
                all@ == all_statuses(),
                self.layout_view() == Layout::ByStatus,
                parent_name(path@) == Some(dir@),
                status_for_dir(self.dirs(), all_statuses().skip(k as int), dir@) == status_for_dir(self.dirs(), all_statuses(), dir@),
            decreases all.len() - k,
        {
            assert(all_statuses().skip(k as int).drop_first() =~= all_statuses().skip(k + 1));
            let name = self.opts.dir_name(all[k]);
            assert(all_statuses().skip(k as int)[0] == all[k as int]);
            if eq_ignore_case_chars(&chars_of(name.as_str()), &dir) {
                return Some(all[k]);
            }
            k = k + 1;
        }
        assert(all_statuses().skip(k as int) =~= Seq::<Status>::empty());
        None
    }

    /// Whether a subdirectory name is one of this store's status directories.
    pub fn is_status_dir_name(&self, name: &str) -> (r: bool)
        ensures
            r == (status_for_dir(self.dirs(), all_statuses(), name@) is Some),
    {
        let all = crate::adr::all_status_list();
        assert(all_statuses().skip(0) =~= all_statuses());
        let dir = chars_of(name);
        let mut k: usize = 0;
        while k < all.len()
            invariant
                k <= all.len(),
                all@ == all_statuses(),
                dir@ == name@,
                status_for_dir(self.dirs(), all_statuses().skip(k as int), dir@) == status_for_dir(self.dirs(), all_statuses(), dir@),
            decreases all.len() - k,
        {
            assert(all_statuses().skip(k as int).drop_first() =~= all_statuses().skip(k + 1));
            let dn = self.opts.dir_name(all[k]);
            assert(all_statuses().skip(k as int)[0] == all[k as int]);
            if eq_ignore_case_chars(&chars_of(dn.as_str()), &dir) {
                return true;
            }
            k = k + 1;
        }
        assert(all_statuses().skip(k as int) =~= Seq::<Status>::empty());
        false
    }

    /// The file among `files` whose leading number is `number`.
    pub fn find_path_by_number(&self, number: Number, files: &[String]) -> (r: Result<String, StoreError>)
        ensures
            match first_numbered(paths_view(files@), number.0) {
                Some(p) => r matches Ok(s) && s@ == p,
                None => r == Err::<String, StoreError>(StoreError::NumberNotFound(number)),
            },
    {
        let ghost fv = paths_view(files@);
        assert(fv.skip(0) =~= fv);
        let mut k: usize = 0;
        while k < files.len()
            invariant
                k <= files.len(),
                fv == paths_view(files@),
                first_numbered(fv.skip(k as int), number.0) == first_numbered(fv, number.0),
            decreases files.len() - k,
        {
            assert(fv.skip(k as int).drop_first() =~= fv.skip(k + 1));
            match number_from_filename(files[k].as_str()) {
                Some(n) => {
                    if n.0 == number.0 {
                        return Ok(string_of(&chars_of(files[k].as_str())));
                    }
                },
                None => {},
            }
            k = k + 1;
        }
        assert(fv.skip(k as int) =~= Seq::<Seq<char>>::empty());
        Err(StoreError::NumberNotFound(number))
    }

    /// The file among `files` whose scheme identity matches `r`.
    pub fn find_path_by_ref(&self, r: &AdrRef, files: &[String]) -> (res: Result<String, StoreError>)
        ensures
            match first_matching(self.naming_view(), paths_view(files@), r@) {
                Some(p) => res matches Ok(s) && s@ == p,
                None => res matches Err(e) && e == StoreError::Parse(e->Parse_0)
                    && e->Parse_0@ == "no ADR found with id "@ + scheme_display(self.naming_view(), r@),
            },
    {
        let ghost fv = paths_view(files@);
        assert(fv.skip(0) =~= fv);
        proof {
            reveal_strlit("");
        }
        assert(""@ =~= Seq::<char>::empty());
        let mut k: usize = 0;
        while k < files.len()
            invariant
                k <= files.len(),
                fv == paths_view(files@),
                ""@ == Seq::<char>::empty(),
                first_matching(self.naming_view(), fv.skip(k as int), r@) == first_matching(self.naming_view(), fv, r@),
            decreases files.len() - k,
        {
            assert(fv.skip(k as int).drop_first() =~= fv.skip(k + 1));
            match self.opts.naming.parse(files[k].as_str(), "") {
                Some(stored) => {
                    if self.opts.naming.ref_matches(&stored, r) {
                        return Ok(string_of(&chars_of(files[k].as_str())));
                    }
                },
                None => {},
            }
            k = k + 1;
        }
        assert(fv.skip(k as int) =~= Seq::<Seq<char>>::empty());
        let mut m = chars_of("no ADR found with id ");
        append_str(&mut m, self.opts.naming.display(r).as_str());
        Err(StoreError::Parse(string_of(&m)))
    }

    /// The next available ADR number: one past the largest leading number
    /// among `files` (1 when there is none).
    pub fn next_number(&self, files: &[String]) -> (r: Number)
        requires
            seq_max(file_numbers(paths_view(files@))) < u32::MAX,
        ensures
            r.0 == seq_max(file_numbers(paths_view(files@))) + 1,
    {
        let nums = numbers_of(files);
        let m = max_of(nums.as_slice());
        Number::new(m + 1)
    }

    /// The identifier the next ADR in `category` gets under the by-category
    /// layout, given the files already in that category's directory.
    pub fn next_ref_in_category(&self, category: &str, files: &[String]) -> (r: AdrRef)
        requires
            seq_max(file_numbers(paths_view(files@))) < u32::MAX,
        ensures
            self.naming_view() == NamingScheme::PerCategory ==> r@ == RefV::Slug(
                crate::naming::percat_id(category@, (seq_max(file_numbers(paths_view(files@))) + 1) as u32),
            ),
    {
        let nums = numbers_of(files);
        proof {
            crate::naming::lemma_seq_max_bound(nums@);
        }
        self.opts.naming.assign_in_category(category, nums.as_slice())
    }

    /// If the detected on-disk profile disagrees with this store's layout or
    /// format, the explanation; otherwise `None`.
    pub fn profile_mismatch(&self, detected: &Detected) -> (r: Option<String>)
        ensures
            ostr(r) == mismatch_spec(*detected, self.layout_view(), self.format_view()),
    {
        let mut diffs: Vec<Vec<char>> = Vec::new();
        if let Some(l) = detected.layout {
            if l != self.opts.layout {
                let mut v = chars_of("laid out as `");
                append_str(&mut v, l.to_string().as_str());
                append_str(&mut v, "` but configured for `");
                append_str(&mut v, self.opts.layout.to_string().as_str());
                append_str(&mut v, "`");
                diffs.push(v);
            }
        }
        let ghost after_layout = crate::text::views(diffs@);
        assert(after_layout == layout_diff(*detected, self.layout_view()));
        if let Some(f) = detected.format {
            if f != self.opts.format {
                let mut v = chars_of("written as `");
                append_str(&mut v, f.to_string().as_str());
                append_str(&mut v, "` but configured for `");
                append_str(&mut v, self.opts.format.to_string().as_str());
                append_str(&mut v, "`");
                diffs.push(v);
            }
        }
        assert(crate::text::views(diffs@) =~= layout_diff(*detected, self.layout_view()) + format_diff(*detected, self.format_view()));
        if diffs.len() == 0 {
            return None;
        }
        let mut m = chars_of("this ADR directory is ");
        append_all(&mut m, &crate::text::join_str(&diffs, ", and "));
        append_str(&mut m, ". Run `adroit migrate` to convert it, or set --layout / --format (or config / .env) to match — refusing to run to avoid hiding ADRs or corrupting numbering.");
        Some(string_of(&m))
    }
}

pub open spec fn paths_view(v: Seq<String>) -> Seq<Seq<char>> {
    v.map_values(|s: String| s@)
}

/// The first status in `ss` whose directory name is `dir`, ignoring ASCII case.
pub open spec fn status_for_dir(dirs: Seq<(Status, Seq<char>)>, ss: Seq<Status>, dir: Seq<char>) -> Option<Status>
    decreases ss.len(),
{
    if ss.len() == 0 {
        None
    } else if eq_ignore_ascii_case(dir_name_spec(dirs, ss[0]), dir) {
        Some(ss[0])
    } else {
        status_for_dir(dirs, ss.drop_first(), dir)
    }
}

/// The status a file's directory implies: only in the by-status layout.
pub open spec fn dir_status_spec(layout: Layout, dirs: Seq<(Status, Seq<char>)>, path: Seq<char>) -> Option<Status> {
    if layout != Layout::ByStatus {
        None
    } else {
        match parent_name(path) {
            Some(d) => status_for_dir(dirs, all_statuses(), d),
            None => None,
        }
    }
}

/// The first path whose leading number is `n`.
pub open spec fn first_numbered(paths: Seq<Seq<char>>, n: u32) -> Option<Seq<char>>
    decreases paths.len(),
{
    if paths.len() == 0 {
        None
    } else if filename_number(paths[0]) == Some(n) {
        Some(paths[0])
    } else {
        first_numbered(paths.drop_first(), n)
    }
}

/// The first path whose scheme identity matches `r`.
pub open spec fn first_matching(scheme: NamingScheme, paths: Seq<Seq<char>>, r: RefV) -> Option<Seq<char>>
    decreases paths.len(),
{
    if paths.len() == 0 {
        None
    } else if scheme_parse(scheme, paths[0], Seq::empty()) is Some
        && scheme_ref_matches(scheme, scheme_parse(scheme, paths[0], Seq::empty())->0, r) {
        Some(paths[0])
    } else {
        first_matching(scheme, paths.drop_first(), r)
    }
}

/// The leading numbers of the paths that have one, in order.
pub open spec fn file_numbers(paths: Seq<Seq<char>>) -> Seq<u32>
    decreases paths.len(),
{
    if paths.len() == 0 {
        seq![]
    } else {
        let rest = file_numbers(paths.drop_last());
        match filename_number(paths.last()) {
            Some(n) => rest.push(n),
            None => rest,
        }
    }
}

fn numbers_of(files: &[String]) -> (r: Vec<u32>)
    ensures
        r@ == file_numbers(paths_view(files@)),
{
    let mut r: Vec<u32> = Vec::new();
    let mut k: usize = 0;
    while k < files.len()
        invariant
            k <= files.len(),
            r@ == file_numbers(paths_view(files@).take(k as int)),
        decreases files.len() - k,
    {
        assert(paths_view(files@).take(k + 1).drop_last() =~= paths_view(files@).take(k as int));
        match number_from_filename(files[k].as_str()) {
            Some(n) => r.push(n.0),
            None => {},
        }
        k = k + 1;
    }
    assert(paths_view(files@).take(files.len() as int) =~= paths_view(files@));
    r
}

pub open spec fn layout_diff(d: Detected, layout: Layout) -> Seq<Seq<char>> {
    match d.layout {
        Some(l) => if l != layout {
            seq!["laid out as `"@ + layout_name(l) + "` but configured for `"@ + layout_name(layout) + "`"@]
        } else {
            seq![]
        },
        None => seq![],
    }
}

pub open spec fn format_diff(d: Detected, format: Format) -> Seq<Seq<char>> {
    match d.format {
        Some(f) => if f != format {
            seq!["written as `"@ + format_name(f) + "` but configured for `"@ + format_name(format) + "`"@]
        } else {
            seq![]
        },
        None => seq![],
    }
}

/// The explanation of a profile mismatch, if there is one.
pub open spec fn mismatch_spec(d: Detected, layout: Layout, format: Format) -> Option<Seq<char>> {
    let diffs = layout_diff(d, layout) + format_diff(d, format);
    if diffs.len() == 0 {
        None
    } else {
        Some("this ADR directory is "@ + join(diffs, ", and "@)
            + ". Run `adroit migrate` to convert it, or set --layout / --format (or config / .env) to match — refusing to run to avoid hiding ADRs or corrupting numbering."@)
    }
}

/// The layout the files on disk show: ADRs under status directories mean
/// by-status, under other directories by-category, at the root flat.
pub fn detected_layout(status_adrs: bool, category_adrs: bool, root_adrs: bool) -> (r: Option<Layout>)
    ensures
        r == (if status_adrs {
            Some(Layout::ByStatus)
        } else if category_adrs {
            Some(Layout::ByCategory)
        } else if root_adrs {
            Some(Layout::Flat)
        } else {
            None
        }),
{
    if status_adrs {
        Some(Layout::ByStatus)
    } else if category_adrs {
        Some(Layout::ByCategory)
    } else if root_adrs {
        Some(Layout::Flat)
    } else {
        None
    }
}

/// The format a document is written in: frontmatter when it opens with
/// `---` after leading blanks, markdown otherwise.
pub fn format_of_content(content: &str) -> (r: Format)
    ensures
        r == (if starts_with(trim_start(content@), "---"@) { Format::Frontmatter } else { Format::Markdown }),
{
    if starts_with_str(&trim_start_v(&chars_of(content)), "---") {
        Format::Frontmatter
    } else {
        Format::Markdown
    }
}


// ---------------------------------------------------------------------------
// Migration planning
// ---------------------------------------------------------------------------

/// A path relative to the store root (unchanged when outside it).
pub open spec fn rel_to(root: Seq<char>, p: Seq<char>) -> Seq<char> {
    if starts_with(p, root + "/"@) {
        p.skip(root.len() + 1int)
    } else {
        p
    }
}

pub(crate) fn rel_to_v(root: &str, p: &Vec<char>) -> (r: String)
    ensures
        r@ == rel_to(root@, p@),
{
    proof {
        reveal_strlit("/");
    }
    let mut pre = chars_of(root);
    append_str(&mut pre, "/");
    if crate::text::starts_with_v(p, &pre) {
        let r = crate::text::slice_of(p, pre.len(), p.len());
        assert(r@ =~= p@.skip(root@.len() + 1int));
        string_of(&r)
    } else {
        string_of(p)
    }
}

/// The directory a status maps to under a layout.
pub open spec fn status_dir_spec(layout: Layout, root: Seq<char>, dirs: Seq<(Status, Seq<char>)>, s: Status) -> Seq<char> {
    match layout {
        Layout::ByStatus => join_path(root, dir_name_spec(dirs, s)),
        _ => root,
    }
}

pub open spec fn entries_view(v: Seq<(String, Status)>) -> Seq<(Seq<char>, Status)> {
    v.map_values(|e: (String, Status)| (e.0@, e.1))
}

/// Where an ADR goes: its status's directory, under its own file name.
pub open spec fn migration_target(layout: Layout, root: Seq<char>, dirs: Seq<(Status, Seq<char>)>, e: (Seq<char>, Status)) -> Seq<char> {
    join_path(status_dir_spec(layout, root, dirs, e.1), file_name(e.0)->0)
}

/// Target `j` repeats the earlier target `i`.
pub open spec fn collides(ts: Seq<Seq<char>>, i: int, j: int) -> bool {
    0 <= i < j < ts.len() && ts[i] == ts[j]
}

/// The moves a migration makes: `(from, to)` relative to the root, for each
/// ADR whose target is not where it is.
pub open spec fn planned_moves(root: Seq<char>, es: Seq<(Seq<char>, Status)>, ts: Seq<Seq<char>>) -> Seq<(Seq<char>, Seq<char>)>
    decreases es.len(),
{
    if es.len() == 0 || ts.len() < es.len() {
        Seq::empty()
    } else {
        let n = es.len() - 1;
        let prev = planned_moves(root, es.drop_last(), ts.take(n));
        if ts[n] != es[n].0 {
            prev.push((rel_to(root, es[n].0), rel_to(root, ts[n])))
        } else {
            prev
        }
    }
}

pub open spec fn moves_view(v: Seq<(String, String)>) -> Seq<(Seq<char>, Seq<char>)> {
    v.map_values(|m: (String, String)| (m.0@, m.1@))
}

impl Store {
    /// The plan for migrating this directory from the profile detected on
    /// disk to this store's profile, given every ADR file with its status
    /// (read under the detected profile). Moving to or from the by-category
    /// layout is refused (a no-op when both sides are by-category); two ADRs
    /// landing on one path are refused, naming the first such pair.
    #[verifier::loop_isolation(false)]
    pub fn plan_migration(&self, detected: &Detected, entries: &[(String, Status)]) -> (r: Result<MigrateReport, StoreError>)
        requires
            forall|k: int| 0 <= k < entries@.len() ==> (#[trigger] file_name(entries@[k].0@)) is Some,
        ensures
            ({
                let src_layout = match detected.layout {
                    Some(l) => l,
                    None => self.layout_view(),
                };
                let src_format = match detected.format {
                    Some(f) => f,
                    None => self.format_view(),
                };
                let by_cat = src_layout == Layout::ByCategory || self.layout_view() == Layout::ByCategory;
                let es = entries_view(entries@);
                let ts = Seq::new(es.len(), |k: int| migration_target(self.layout_view(), self.root_view(), self.dirs(), es[k]));
                &&& (by_cat && src_layout != self.layout_view()) ==> (r matches Err(StoreError::Parse(m))
                    && m@ == "migrating to/from the by_category layout is not supported; reorganize categories by hand"@)
                &&& (by_cat && src_layout == self.layout_view()) ==> (r matches Ok(rep) && rep.layout_change is None
                    && rep.format_change is None && rep.files == 0 && rep.moves@.len() == 0)
                &&& !by_cat ==> (r is Err <==> (exists|i: int, j: int| #[trigger] collides(ts, i, j))
                    && (src_layout != self.layout_view() || src_format != self.format_view()))
                &&& !by_cat ==> (r matches Err(StoreError::Parse(m)) ==> exists|i: int, j: int|
                    collides(ts, i, j) && (forall|a: int, b: int| b < j ==> !#[trigger] collides(ts, a, b))
                    && m@ == "migration would collide: "@ + es[i].0 + " and "@ + es[j].0 + " both map to "@ + ts[j])
                &&& !by_cat ==> (r matches Ok(rep) ==> rep.layout_change == (if src_layout != self.layout_view() {
                    Some((src_layout, self.layout_view()))
                } else {
                    None
                }) && rep.format_change == (if src_format != self.format_view() {
                    Some((src_format, self.format_view()))
                } else {
                    None
                }) && !rep.applied && rep.links_rewritten == 0
                    && (rep.layout_change is None && rep.format_change is None ==> rep.files == 0 && rep.moves@.len() == 0)
                    && (rep.layout_change is Some || rep.format_change is Some ==> rep.files == entries@.len()
                    && moves_view(rep.moves@) == planned_moves(self.root_view(), es, ts)))
            }),
    {
        let src_layout = match detected.layout {
            Some(l) => l,
            None => self.opts.layout,
        };
        let src_format = match detected.format {
            Some(f) => f,
            None => self.opts.format,
        };
        let empty = MigrateReport { layout_change: None, format_change: None, files: 0, moves: Vec::new(), applied: false, links_rewritten: 0 };
        if src_layout == Layout::ByCategory || self.opts.layout == Layout::ByCategory {
            if src_layout == self.opts.layout {
                return Ok(empty);
            }
            return Err(StoreError::Parse(string_of(&chars_of(
                "migrating to/from the by_category layout is not supported; reorganize categories by hand",
            ))));
        }
        let layout_change = if src_layout != self.opts.layout {
            Some((src_layout, self.opts.layout))
        } else {
            None
        };
        let format_change = if src_format != self.opts.format {
            Some((src_format, self.opts.format))
        } else {
            None
        };
        if layout_change.is_none() && format_change.is_none() {
            return Ok(empty);
        }
        let ghost es = entries_view(entries@);
        let ghost ts = Seq::new(es.len(), |k: int| migration_target(self.layout_view(), self.root_view(), self.dirs(), es[k]));
        let mut targets: Vec<Vec<char>> = Vec::new();
        let mut moves: Vec<(String, String)> = Vec::new();
        let mut j: usize = 0;
        while j < entries.len()
            invariant
                j <= entries.len(),
                es == entries_view(entries@),
                ts.len() == es.len(),
                forall|k: int| 0 <= k < es.len() ==> ts[k] == migration_target(self.layout_view(), self.root_view(), self.dirs(), #[trigger] es[k]),
                forall|k: int| 0 <= k < entries@.len() ==> (#[trigger] file_name(entries@[k].0@)) is Some,
                crate::text::views(targets@) == ts.take(j as int),
                forall|a: int, b: int| b < j ==> !#[trigger] collides(ts, a, b),
                moves_view(moves@) == planned_moves(self.root_view(), es.take(j as int), ts.take(j as int)),
            decreases entries.len() - j,
        {
            let src = chars_of(entries[j].0.as_str());
            let name = match file_name_v(&src) {
                Some(n) => n,
                None => {
                    assert(file_name(entries@[j as int].0@) is Some);
                    return Err(StoreError::Parse(string_of(&src)));
                },
            };
            let target = chars_of(join_path_v(self.status_dir(entries[j].1).as_str(), string_of(&name).as_str()).as_str());
            assert(es[j as int] == (entries@[j as int].0@, entries@[j as int].1));
            assert(target@ == ts[j as int]);
            let mut i: usize = 0;
            while i < targets.len()
                invariant
                    i <= targets.len(),
                    targets.len() == j,
                    j < entries.len(),
                    es == entries_view(entries@),
                    crate::text::views(targets@) == ts.take(j as int),
                    target@ == ts[j as int],
                    j < ts.len(),
                    forall|a: int| 0 <= a < i ==> ts[a] != ts[j as int],
                decreases targets.len() - i,
            {
                assert(crate::text::views(targets@)[i as int] == targets@[i as int]@);
                if crate::text::eq_chars(&targets[i], &target) {
                    assert(collides(ts, i as int, j as int));
                    let mut m = chars_of("migration would collide: ");
                    append_str(&mut m, entries[i].0.as_str());
                    append_str(&mut m, " and ");
                    append_str(&mut m, entries[j].0.as_str());
                    append_str(&mut m, " both map to ");
                    append_all(&mut m, &target);
                    assert(es[i as int].0 == entries@[i as int].0@);
                    assert(es[j as int].0 == entries@[j as int].0@);
                    assert(m@ =~= "migration would collide: "@ + es[i as int].0 + " and "@ + es[j as int].0 + " both map to "@
                        + ts[j as int]);
                    assert(exists|a: int, b: int| #[trigger] collides(ts, a, b));
                    return Err(StoreError::Parse(string_of(&m)));
                }
                i = i + 1;
            }
            assert forall|a: int, b: int| b < j + 1 implies !#[trigger] collides(ts, a, b) by {
                if b == j && collides(ts, a, b) {
                    assert(ts[a] == ts[j as int]);
                }
            }
            proof {
                assert(es.take(j + 1).drop_last() =~= es.take(j as int));
                assert(ts.take(j + 1).take(j as int) =~= ts.take(j as int));
            }
            if !crate::text::eq_chars(&target, &src) {
                let ghost before = moves_view(moves@);
                moves.push((rel_to_v(self.root.as_str(), &src), rel_to_v(self.root.as_str(), &target)));
                assert(moves_view(moves@) =~= before.push((rel_to(self.root_view(), es[j as int].0), rel_to(self.root_view(), ts[j as int]))));
            }
            let ghost tb = crate::text::views(targets@);
            targets.push(target);
            assert(crate::text::views(targets@) =~= tb.push(ts[j as int]));
            assert(ts.take(j + 1) =~= ts.take(j as int).push(ts[j as int]));
            j = j + 1;
        }
        assert(es.take(entries.len() as int) =~= es);
        assert(ts.take(entries.len() as int) =~= ts);
        Ok(MigrateReport { layout_change, format_change, files: entries.len(), moves, applied: false, links_rewritten: 0 })
    }
}

// ---------------------------------------------------------------------------
// Renumbering
// ---------------------------------------------------------------------------

/// The directory part of a path: before its last `/` (`/` itself for a file
/// at the root, nothing for a bare file name).
pub open spec fn dir_of(p: Seq<char>) -> Seq<char> {
    let k = crate::text::rfind(p, "/"@);
    if k < 0 {
        Seq::empty()
    } else if k == 0 {
        "/"@
    } else {
        p.take(k)
    }
}

pub(crate) fn dir_of_v(p: &Vec<char>) -> (r: Vec<char>)
    ensures
        r@ == dir_of(p@),
{
    match crate::text::rfind_str(p, "/") {
        None => Vec::new(),
        Some(k) => if k == 0 {
            chars_of("/")
        } else {
            crate::text::slice_of(p, 0, k)
        },
    }
}

/// `ADR-NNNN`.
pub open spec fn adr_label(n: u32) -> Seq<char> {
    "ADR-"@ + pad_zero(dec(n as nat), 4)
}

fn adr_label_v(n: u32) -> (r: String)
    ensures
        r@ == adr_label(n),
{
    let mut v = chars_of("ADR-");
    append_all(&mut v, &pad4_v(n));
    string_of(&v)
}

/// The files whose name starts with number `n`.
pub open spec fn files_numbered(files: Seq<Seq<char>>, n: u32) -> Seq<Seq<char>> {
    files.filter(|p: Seq<char>| filename_number(p) == Some(n))
}

/// A file renamed to a new number: its leading digits replaced by the new
/// number, zero-padded to four, the rest of the name kept.
pub open spec fn renumbered_name(base: Seq<char>, new: u32) -> Seq<char> {
    pad_zero(dec(new as nat), 4) + base.skip(crate::text::lead(base, crate::text::digit_pred()))
}

/// What a renumbering does: the file it renames and to what, and the labels
/// it swaps in the texts that name the ADR.
#[derive(Debug)]
pub struct RenumberPlan {
    pub old_path: String,
    pub new_path: String,
    pub old_label: String,
    pub new_label: String,
}

/// The error when `old` names more than one file.
pub open spec fn ambiguous_message(root: Seq<char>, old: u32, cands: Seq<Seq<char>>) -> Seq<char> {
    adr_label(old) + " is ambiguous ("@ + dec(cands.len()) + " files) — pass --file <path>: "@ + join(
        cands.map_values(|c: Seq<char>| rel_to(root, c)),
        ", "@,
    )
}

/// Whether `p` is among the paths.
fn listed(ps: &Vec<Vec<char>>, p: &Vec<char>) -> (r: bool)
    ensures
        r == crate::text::views(ps@).contains(p@),
{
    let mut k: usize = 0;
    while k < ps.len()
        invariant
            k <= ps.len(),
            forall|j: int| 0 <= j < k ==> crate::text::views(ps@)[j] != p@,
        decreases ps.len() - k,
    {
        assert(crate::text::views(ps@)[k as int] == ps@[k as int]@);
        if crate::text::eq_chars(&ps[k], p) {
            return true;
        }
        k = k + 1;
    }
    false
}

/// The files numbered `n`, in order.
fn files_numbered_v(files: &[String], n: u32) -> (r: Vec<Vec<char>>)
    ensures
        crate::text::views(r@) == files_numbered(files@.map_values(|f: String| f@), n),
{
    let ghost fv = files@.map_values(|f: String| f@);
    let mut out: Vec<Vec<char>> = Vec::new();
    let mut i: usize = 0;
    while i < files.len()
        invariant
            i <= files.len(),
            fv == files@.map_values(|f: String| f@),
            crate::text::views(out@) == files_numbered(fv.take(i as int), n),
        decreases files.len() - i,
    {
        proof {
            reveal(Seq::filter);
            assert(fv.take(i + 1).drop_last() =~= fv.take(i as int));
            assert(fv.take(i + 1).last() == files@[i as int]@);
        }
        let hit = match number_from_filename(files[i].as_str()) {
            Some(m) => m.0 == n,
            None => false,
        };
        if hit {
            let ghost before = crate::text::views(out@);
            out.push(chars_of(files[i].as_str()));
            assert(crate::text::views(out@) =~= before.push(fv[i as int]));
        }
        i = i + 1;
    }
    assert(fv.take(files.len() as int) =~= fv);
    out
}

impl Store {
    /// The plan for renumbering ADR `old` to `new` among `files`: `file`
    /// picks among several files numbered `old`. Refused when `file` is not
    /// one of them, when none or (without `file`) several are, or when a
    /// file already carries `new`.
    #[verifier::loop_isolation(false)]
    pub fn plan_renumber(&self, old: Number, new: Number, file: Option<&str>, files: &[String]) -> (r: Result<RenumberPlan, StoreError>)
        ensures
            ({
                let fv = files@.map_values(|f: String| f@);
                let cands = files_numbered(fv, old.0);
                let picked: Option<Seq<char>> = match file {
                    Some(f) => if cands.contains(f@) {
                        Some(f@)
                    } else {
                        None
                    },
                    None => if cands.len() == 1 {
                        Some(cands[0])
                    } else {
                        None
                    },
                };
                &&& file matches Some(f) ==> (!cands.contains(f@) ==> (r matches Err(StoreError::Parse(m)) && m@ == f@
                    + " is not an "@ + adr_label(old.0) + " file"@))
                &&& (file is None && cands.len() == 0) ==> r == Err::<RenumberPlan, StoreError>(StoreError::NumberNotFound(old))
                &&& (file is None && cands.len() > 1) ==> (r matches Err(StoreError::Parse(m)) && m@ == ambiguous_message(
                    self.root_view(),
                    old.0,
                    cands,
                ))
                &&& (picked is Some && files_numbered(fv, new.0).len() > 0) ==> (r matches Err(StoreError::Parse(m)) && m@
                    == adr_label(new.0) + " already exists"@)
                &&& (picked is Some && files_numbered(fv, new.0).len() == 0) ==> (r matches Ok(plan) && plan.old_path@
                    == picked->0 && file_name(picked->0) is Some && plan.new_path@ == join_path(
                    dir_of(picked->0),
                    renumbered_name(file_name(picked->0)->0, new.0),
                ) && plan.old_label@ == adr_label(old.0) && plan.new_label@ == adr_label(new.0))
            }),
    {
        let ghost fv = files@.map_values(|f: String| f@);
        let cands = files_numbered_v(files, old.0);
        let old_path: Vec<char> = match file {
            Some(f) => {
                let fc = chars_of(f);
                if !listed(&cands, &fc) {
                    let mut m = chars_of(f);
                    append_str(&mut m, " is not an ");
                    append_str(&mut m, adr_label_v(old.0).as_str());
                    append_str(&mut m, " file");
                    return Err(StoreError::Parse(string_of(&m)));
                }
                fc
            },
            None => {
                if cands.len() == 0 {
                    return Err(StoreError::NumberNotFound(old));
                } else if cands.len() == 1 {
                    cands[0].clone()
                } else {
                    let mut rels: Vec<Vec<char>> = Vec::new();
                    let mut k: usize = 0;
                    let ghost cv = crate::text::views(cands@);
                    while k < cands.len()
                        invariant
                            k <= cands.len(),
                            cv == crate::text::views(cands@),
                            crate::text::views(rels@) == cv.take(k as int).map_values(|c: Seq<char>| rel_to(self.root_view(), c)),
                        decreases cands.len() - k,
                    {
                        let ghost before = crate::text::views(rels@);
                        rels.push(chars_of(rel_to_v(self.root.as_str(), &cands[k]).as_str()));
                        assert(crate::text::views(rels@) =~= before.push(rel_to(self.root_view(), cv[k as int])));
                        assert(cv.take(k + 1).map_values(|c: Seq<char>| rel_to(self.root_view(), c)) =~= cv.take(
                            k as int,
                        ).map_values(|c: Seq<char>| rel_to(self.root_view(), c)).push(rel_to(self.root_view(), cv[k as int])));
                        k = k + 1;
                    }
                    assert(cv.take(cands.len() as int) =~= cv);
                    let mut m = chars_of(adr_label_v(old.0).as_str());
                    append_str(&mut m, " is ambiguous (");
                    append_all(&mut m, &crate::text::dec_v(cands.len() as u64));
                    append_str(&mut m, " files) — pass --file <path>: ");
                    append_all(&mut m, &crate::text::join_str(&rels, ", "));
                    return Err(StoreError::Parse(string_of(&m)));
                }
            },
        };
        let taken = files_numbered_v(files, new.0);
        if taken.len() > 0 {
            let mut m = chars_of(adr_label_v(new.0).as_str());
            append_str(&mut m, " already exists");
            return Err(StoreError::Parse(string_of(&m)));
        }
        proof {
            let cv = crate::text::views(cands@);
            let j = choose|j: int| 0 <= j < cv.len() && cv[j] == old_path@;
            assert(cv.contains(old_path@));
            fv.lemma_filter_pred(|p: Seq<char>| filename_number(p) == Some(old.0), j);
            assert(filename_number(old_path@) == Some(old.0));
        }
        let base = match file_name_v(&old_path) {
            Some(b) => b,
            None => {
                return Err(StoreError::Parse(string_of(&old_path)));
            },
        };
        let nd = crate::text::lead_digits(&base);
        let mut nb = pad4_v(new.0);
        append_all(&mut nb, &crate::text::slice_of(&base, nd, base.len()));
        assert(nb@ =~= renumbered_name(base@, new.0));
        let np = join_path_v(string_of(&dir_of_v(&old_path)).as_str(), string_of(&nb).as_str());
        Ok(RenumberPlan { old_path: string_of(&old_path), new_path: np, old_label: adr_label_v(old.0), new_label: adr_label_v(new.0) })
    }
}

// ---------------------------------------------------------------------------
// Status changes and typed links
// ---------------------------------------------------------------------------

/// A planned status change of one file: where it ends up and what it holds.
#[derive(Debug)]
pub struct StatusMove {
    pub path: String,
    pub content: String,
}

/// The directory a file at `path` lives in after a status change.
pub open spec fn status_target_spec(store: Store, path: Seq<char>, status: Status) -> Seq<char> {
    match store.layout_view() {
        Layout::ByStatus => join_path(store.root_view(), dir_name_spec(store.dirs(), status)),
        _ => if path.len() == 0 {
            store.root_view()
        } else {
            dir_of(path)
        },
    }
}

impl Store {
    /// Where a file at `path` lives after a status change: the status's
    /// directory in the by-status layout (a move); its own directory in the
    /// flat and by-category layouts, where the status is in the content.
    pub fn status_target_dir(&self, path: &str, status: Status) -> (r: String)
        ensures
            r@ == status_target_spec(*self, path@, status),
    {
        match self.opts.layout {
            Layout::ByStatus => self.status_dir(status),
            _ => {
                let pv = chars_of(path);
                if pv.len() == 0 {
                    string_of(&chars_of(self.root.as_str()))
                } else {
                    string_of(&dir_of_v(&pv))
                }
            },
        }
    }

    fn moved_path(&self, path: &str, status: Status) -> (r: String)
        requires
            file_name(path@) is Some,
        ensures
            r@ == join_path(status_target_spec(*self, path@, status), file_name(path@)->0),
    {
        let dir = self.status_target_dir(path, status);
        let name = match file_name_v(&chars_of(path)) {
            Some(n) => n,
            None => Vec::new(),
        };
        join_path_v(dir.as_str(), string_of(&name).as_str())
    }

    /// A markdown status change of the file at `path` holding `original`:
    /// its `## Status` section rewritten to `new_status`, and its path after
    /// the move to the status's directory (in place outside the by-status
    /// layout).
    pub fn set_status(&self, path: &str, original: &str, new_status: Status) -> (r: StatusMove)
        requires
            file_name(path@) is Some,
        ensures
            r.path@ == join_path(status_target_spec(*self, path@, new_status), file_name(path@)->0),
            r.content@ == crate::format::rewrite_status_spec(original@, new_status, None),
    {
        StatusMove {
            path: self.moved_path(path, new_status),
            content: crate::format::rewrite_status(original, new_status, None),
        }
    }

    /// Mark the ADR at `old_path` (holding `original`) as superseded by `new`,
    /// which lives at `new_path`: its status becomes `Superseded by [<label>]
    /// (<link>)`, the link relative to where the old ADR ends up.
    pub fn supersede(&self, new: &AdrRef, new_path: &str, old_path: &str, original: &str) -> (r: StatusMove)
        requires
            file_name(old_path@) is Some,
        ensures
            r.path@ == join_path(status_target_spec(*self, old_path@, Status::Superseded), file_name(old_path@)->0),
            r.content@ == crate::format::rewrite_status_spec(
                original@,
                Status::Superseded,
                Some(
                    (
                        scheme_display(self.naming_view(), new@),
                        crate::links::rel_link_spec(status_target_spec(*self, old_path@, Status::Superseded), new_path@),
                    ),
                ),
            ),
    {
        let from_dir = self.status_target_dir(old_path, Status::Superseded);
        let link = crate::links::rel_link(from_dir.as_str(), new_path);
        let label = self.opts.naming.link_label(new);
        StatusMove {
            path: self.moved_path(old_path, Status::Superseded),
            content: crate::format::rewrite_status(original, Status::Superseded, Some((label.as_str(), link.as_str()))),
        }
    }
}

/// The typed links of `kind` after adding `target` (unless already there) or
/// removing every occurrence of it.
pub open spec fn edit_links_spec(links: Seq<RefV>, target: RefV, remove: bool) -> Seq<RefV> {
    if remove {
        links.filter(|r: RefV| r != target)
    } else if links.contains(target) {
        links
    } else {
        links.push(target)
    }
}

fn edit_links(links: &mut Vec<AdrRef>, target: &AdrRef, remove: bool)
    ensures
        crate::query::refs_of(final(links)@) == edit_links_spec(crate::query::refs_of(old(links)@), target@, remove),
{
    let ghost start = crate::query::refs_of(links@);
    if remove {
        let mut kept: Vec<AdrRef> = Vec::new();
        let mut i: usize = 0;
        assert(start.take(0).filter(|r: RefV| r != target@) =~= Seq::<RefV>::empty());
        while i < links.len()
            invariant
                i <= links.len(),
                start == crate::query::refs_of(links@),
                crate::query::refs_of(kept@) == start.take(i as int).filter(|r: RefV| r != target@),
            decreases links.len() - i,
        {
            let ghost before = crate::query::refs_of(kept@);
            proof {
                reveal(Seq::filter);
                assert(start.take(i + 1).drop_last() =~= start.take(i as int));
                assert(start.take(i + 1).last() == start[i as int]);
                assert(start[i as int] == links@[i as int]@);
            }
            if !links[i].same(target) {
                kept.push(links[i].copy());
                assert(crate::query::refs_of(kept@) =~= before.push(start[i as int]));
            }
            i = i + 1;
        }
        assert(start.take(i as int) =~= start);
        *links = kept;
    } else {
        let mut found = false;
        let mut i: usize = 0;
        while i < links.len()
            invariant
                i <= links.len(),
                start == crate::query::refs_of(links@),
                found == exists|k: int| 0 <= k < i && start[k] == target@,
            decreases links.len() - i,
        {
            assert(start[i as int] == links@[i as int]@);
            if links[i].same(target) {
                found = true;
            }
            i = i + 1;
        }
        if !found {
            links.push(target.copy());
            assert(crate::query::refs_of(links@) =~= start.push(target@));
        } else {
            assert(start.contains(target@));
        }
    }
}

impl Store {
    /// Add or remove a typed relational link of `kind` to `target` on `adr`.
    /// Typed links are a frontmatter-profile feature: under the markdown
    /// profile this is refused and `adr` is left alone.
    pub fn set_links_ref(&self, adr: &mut Adr, kind: LinkKind, target: &AdrRef, remove: bool) -> (r: Result<(), StoreError>)
        ensures
            (r is Err) <==> self.format_view() != Format::Frontmatter,
            r is Err ==> *final(adr) == *old(adr),
            r is Ok ==> match kind {
                LinkKind::RelatesTo => crate::query::refs_of(final(adr).relates_to@)
                    == edit_links_spec(crate::query::refs_of(old(adr).relates_to@), target@, remove)
                    && final(adr).depends_on == old(adr).depends_on && final(adr).refines == old(adr).refines,
                LinkKind::DependsOn => crate::query::refs_of(final(adr).depends_on@)
                    == edit_links_spec(crate::query::refs_of(old(adr).depends_on@), target@, remove)
                    && final(adr).relates_to == old(adr).relates_to && final(adr).refines == old(adr).refines,
                LinkKind::Refines => crate::query::refs_of(final(adr).refines@)
                    == edit_links_spec(crate::query::refs_of(old(adr).refines@), target@, remove)
                    && final(adr).relates_to == old(adr).relates_to && final(adr).depends_on == old(adr).depends_on,
            },
            r is Ok ==> final(adr).title == old(adr).title && final(adr).status == old(adr).status
                && final(adr).body == old(adr).body && final(adr).number == old(adr).number
                && final(adr).supersedes == old(adr).supersedes && final(adr).superseded_by == old(adr).superseded_by,
    {
        if self.opts.format != Format::Frontmatter {
            return Err(StoreError::Parse(string_of(&chars_of(
                "typed links require the frontmatter format (run `adroit migrate --format frontmatter`)",
            ))));
        }
        match kind {
            LinkKind::RelatesTo => edit_links(&mut adr.relates_to, target, remove),
            LinkKind::DependsOn => edit_links(&mut adr.depends_on, target, remove),
            LinkKind::Refines => edit_links(&mut adr.refines, target, remove),
        }
        Ok(())
    }
}

impl Store {
    /// The identity the next new ADR is given, among the identities of the
    /// ADRs already stored, under the configured naming scheme (`title`,
    /// `today` and `fresh_uuid` feed the date and uuid schemes).
    pub fn next_ref(&self, existing: &[AdrRef], title: &str, today: crate::template::CalDate, fresh_uuid: u128) -> (r: AdrRef)
        requires
            crate::naming::refs_max(crate::naming::refs_view(existing@)) < u32::MAX,
            existing@.len() <= isize::MAX,
        ensures
            (self.naming_view() == NamingScheme::Sequential || self.naming_view() == NamingScheme::PerCategory) ==> r@
                == RefV::Number((crate::naming::refs_max(crate::naming::refs_view(existing@)) + 1) as u32),
            self.naming_view() == NamingScheme::Date ==> (r@ matches RefV::Slug(s) && crate::naming::is_dedup_of(
                s,
                crate::naming::ymd(today) + "-"@ + slugify(title@),
                crate::naming::refs_view(existing@),
            )),
            self.naming_view() == NamingScheme::Uuid ==> r@ == RefV::Slug(crate::adr::uuid_simple(fresh_uuid as nat)),
            self.naming_view() != NamingScheme::Uuid ==> !crate::naming::refs_view(existing@).contains(r@),
    {
        self.opts.naming.assign(existing, title, today, fresh_uuid)
    }
}

/// Give an ADR the identity `r`: its number (clearing any slug) or its slug
/// (clearing any number).
pub fn apply_ref(adr: &mut Adr, r: &AdrRef)
    ensures
        match r@ {
            RefV::Number(n) => final(adr).number == Some(Number(n)) && final(adr).slug is None,
            RefV::Slug(s) => ostr(final(adr).slug) == Some(s) && final(adr).number is None,
        },
        crate::adr::adr_ref(*final(adr)) == r@,
        final(adr).title == old(adr).title,
        final(adr).status == old(adr).status,
        final(adr).body == old(adr).body,
        final(adr).category == old(adr).category,
        final(adr).supersedes == old(adr).supersedes,
        final(adr).superseded_by == old(adr).superseded_by,
{
    match r {
        AdrRef::Number(n) => {
            adr.number = Some(Number(*n));
            adr.slug = None;
        },
        AdrRef::Slug(s) => {
            adr.slug = Some(string_of(&chars_of(s.as_str())));
            adr.number = None;
        },
    }
}

pub open spec fn opt_string(o: Option<String>) -> Option<Seq<char>> {
    match o {
        Some(s) => Some(s@),
        None => None,
    }
}

impl Store {
    /// Finish reading the ADR decoded from the file at `path` holding
    /// `content`: give it the identity the naming scheme reads from the file,
    /// its category (the parent directory) under the by-category layout, and,
    /// for per-category markdown, the supersession references resolved within
    /// that category.
    pub fn complete_read(&self, path: &str, content: &str, adr: &mut Adr)
        ensures
            match scheme_parse(self.naming_view(), path@, content@) {
                Some(r) => crate::adr::adr_ref(*final(adr)) == r && match r {
                    RefV::Number(n) => final(adr).number == Some(Number(n)) && final(adr).slug is None,
                    RefV::Slug(s) => ostr(final(adr).slug) == Some(s) && final(adr).number is None,
                },
                None => final(adr).number == old(adr).number && final(adr).slug == old(adr).slug,
            },
            self.layout_view() == Layout::ByCategory ==> opt_string(final(adr).category) == parent_name(path@),
            self.layout_view() != Layout::ByCategory ==> final(adr).category == old(adr).category,
            (self.naming_view() == NamingScheme::PerCategory && self.format_view() == Format::Markdown) ==> (
            opt_view(final(adr).supersedes) == crate::format::resolve_note(
                self.naming_view(),
                crate::format::status_region(content@).supersedes,
                opt_string(final(adr).category),
            ) && opt_view(final(adr).superseded_by) == crate::format::resolve_note(
                self.naming_view(),
                crate::format::status_region(content@).superseded_by,
                opt_string(final(adr).category),
            )),
            !(self.naming_view() == NamingScheme::PerCategory && self.format_view() == Format::Markdown) ==> (
            final(adr).supersedes == old(adr).supersedes && final(adr).superseded_by == old(adr).superseded_by),
            final(adr).title == old(adr).title,
            final(adr).status == old(adr).status,
            final(adr).body == old(adr).body,
    {
        match self.opts.naming.parse(path, content) {
            Some(r) => apply_ref(adr, &r),
            None => {},
        }
        if self.opts.layout == Layout::ByCategory {
            adr.category = match parent_name_v(&chars_of(path)) {
                Some(n) => Some(string_of(&n)),
                None => None,
            };
        }
        if self.opts.naming == NamingScheme::PerCategory && self.opts.format == Format::Markdown {
            let cat: Option<&str> = match &adr.category {
                Some(c) => Some(c.as_str()),
                None => None,
            };
            let (sup, sup_by) = crate::format::parse_markdown_section_supersession(content, self.opts.naming, cat);
            adr.supersedes = sup;
            adr.superseded_by = sup_by;
        }
    }
}

/// The status directories tell every status apart: each name is a plain
/// path component, and no two are equal ignoring ASCII case.
pub open spec fn dirs_apart(dirs: Seq<(Status, Seq<char>)>) -> bool {
    &&& forall|st: Status| crate::paths::plain_component(#[trigger] dir_name_spec(dirs, st))
    &&& forall|st: Status, t: Status| st != t ==> !eq_ignore_ascii_case(
        #[trigger] dir_name_spec(dirs, st),
        #[trigger] dir_name_spec(dirs, t),
    )
}

proof fn lemma_status_for_dir(dirs: Seq<(Status, Seq<char>)>, ss: Seq<Status>, st: Status)
    requires
        dirs_apart(dirs),
        ss.contains(st),
    ensures
        status_for_dir(dirs, ss, dir_name_spec(dirs, st)) == Some(st),
    decreases ss.len(),
{
    if ss[0] == st {
        assert(eq_ignore_ascii_case(dir_name_spec(dirs, st), dir_name_spec(dirs, st)));
    } else {
        assert(!eq_ignore_ascii_case(dir_name_spec(dirs, ss[0]), dir_name_spec(dirs, st)));
        let k = choose|k: int| 0 <= k < ss.len() && ss[k] == st;
        assert(ss.drop_first()[k - 1] == st);
        lemma_status_for_dir(dirs, ss.drop_first(), st);
    }
}

/// `root` joined with a plain directory name, joined with a plain file
/// name, has that directory as its parent.
proof fn lemma_moved_parent(root: Seq<char>, d: Seq<char>, f: Seq<char>)
    requires
        crate::paths::plain_component(d),
        crate::paths::plain_component(f),
    ensures
        parent_name(join_path(join_path(root, d), f)) == Some(d),
{
    reveal_strlit("/");
    let slash = seq!['/'];
    assert("/"@ =~= slash);
    assert(!starts_with(d, "/"@)) by {
        if starts_with(d, "/"@) {
            assert(d.take(1)[0] == d[0]);
        }
    }
    assert(!starts_with(f, "/"@)) by {
        if starts_with(f, "/"@) {
            assert(f.take(1)[0] == f[0]);
        }
    }
    let t = join_path(root, d);
    assert(t.len() > 0 && t.last() == d.last());
    assert(!ends_with(t, "/"@)) by {
        if ends_with(t, "/"@) {
            assert(t.skip(t.len() - 1)[0] == t.last());
        }
    }
    let moved = join_path(t, f);
    assert(moved =~= t + slash + f);
    if root.len() == 0 {
        assert(t =~= d);
        crate::paths::lemma_parent_and_file(Seq::empty(), d, f);
    } else if ends_with(root, "/"@) {
        let x = root.drop_last();
        assert(root =~= x + slash) by {
            assert(root.skip(root.len() - 1)[0] == root.last());
        }
        assert(moved =~= x + slash + d + slash + f);
        crate::paths::lemma_parent_and_file(x, d, f);
    } else {
        assert(moved =~= root + slash + d + slash + f);
        crate::paths::lemma_parent_and_file(root, d, f);
    }
}

/// Status is the directory: in the by-status layout, when the status
/// directories tell the statuses apart, a status change moves the file to
/// where its directory reads back as the new status, and the rewritten
/// document then reads back with that status.
pub proof fn law_set_status_reads_back(store: Store, path: Seq<char>, original: Seq<char>, st: Status)
    requires
        store.layout_view() == Layout::ByStatus,
        dirs_apart(store.dirs()),
        file_name(path) is Some,
    ensures
        dir_status_spec(
            Layout::ByStatus,
            store.dirs(),
            join_path(status_target_spec(store, path, st), file_name(path)->0),
        ) == Some(st),
        crate::format::effective_status(
            dir_status_spec(Layout::ByStatus, store.dirs(), join_path(status_target_spec(store, path, st), file_name(path)->0)),
            crate::format::rewrite_status_spec(original, st, None),
        ) == st,
{
    let d = dir_name_spec(store.dirs(), st);
    crate::paths::lemma_file_name_plain(path);
    assert(crate::paths::plain_component(d));
    lemma_moved_parent(store.root_view(), d, file_name(path)->0);
    assert(crate::adr::all_statuses().contains(st)) by {
        let all = crate::adr::all_statuses();
        match st {
            Status::Proposed => assert(all[0] == st),
            Status::Accepted => assert(all[1] == st),
            Status::Rejected => assert(all[2] == st),
            Status::Deprecated => assert(all[3] == st),
            Status::Superseded => assert(all[4] == st),
        }
    }
    lemma_status_for_dir(store.dirs(), crate::adr::all_statuses(), st);
}


// ---------------------------------------------------------------------------
// Relinking
// ---------------------------------------------------------------------------

/// The files a relink pass reads: each file's path, its identity and its text.
pub open spec fn relink_files_view(v: Seq<(String, Adr, String)>) -> Seq<(Seq<char>, RefV, Seq<char>)> {
    v.map_values(|e: (String, Adr, String)| (e.0@, crate::adr::adr_ref(e.1), e.2@))
}

/// How many of the first `k` files carry the identity `r`.
pub open spec fn ref_count(es: Seq<(Seq<char>, RefV, Seq<char>)>, r: RefV, k: int) -> nat
    decreases k,
{
    if k <= 0 {
        0
    } else {
        ref_count(es, r, k - 1) + if es[k - 1].1 == r { 1nat } else { 0nat }
    }
}

/// The link resolver built from the first `k` files: each numbered ADR whose
/// number no other file shares, with its path, in file order. Duplicated
/// numbers are ambiguous and left out.
pub open spec fn resolver_upto(es: Seq<(Seq<char>, RefV, Seq<char>)>, k: int) -> Seq<(u32, Seq<char>)>
    decreases k,
{
    if k <= 0 {
        Seq::empty()
    } else {
        let prev = resolver_upto(es, k - 1);
        match es[k - 1].1 {
            RefV::Number(n) => if ref_count(es, es[k - 1].1, es.len() as int) == 1 {
                prev.push((n, es[k - 1].0))
            } else {
                prev
            },
            RefV::Slug(_) => prev,
        }
    }
}

pub open spec fn resolver_table(es: Seq<(Seq<char>, RefV, Seq<char>)>) -> Seq<(u32, Seq<char>)> {
    resolver_upto(es, es.len() as int)
}

/// A file's text with its links rewritten from its own directory.
pub open spec fn relinked(path: Seq<char>, text: Seq<char>, table: Seq<(u32, Seq<char>)>) -> (Seq<char>, nat) {
    crate::links::rewrite_from(text, 0, 0, dir_of(path), table)
}

/// A file is rewritten when some link changed and its text differs.
pub open spec fn relink_changes(path: Seq<char>, text: Seq<char>, table: Seq<(u32, Seq<char>)>) -> bool {
    relinked(path, text, table).1 > 0 && relinked(path, text, table).0 != text
}

/// The outcome of relinking the first `k` files: files changed, links
/// rewritten, the changed files relative to `root`, and the new texts by path.
pub open spec fn relink_upto(
    root: Seq<char>,
    es: Seq<(Seq<char>, RefV, Seq<char>)>,
    table: Seq<(u32, Seq<char>)>,
    k: int,
) -> (nat, nat, Seq<Seq<char>>, Seq<(Seq<char>, Seq<char>)>)
    decreases k,
{
    if k <= 0 {
        (0, 0, Seq::empty(), Seq::empty())
    } else {
        let p = relink_upto(root, es, table, k - 1);
        let e = es[k - 1];
        if relink_changes(e.0, e.2, table) {
            (p.0 + 1, p.1 + relinked(e.0, e.2, table).1, p.2.push(rel_to(root, e.0)), p.3.push((e.0, relinked(e.0, e.2, table).0)))
        } else {
            p
        }
    }
}

/// The total length of the first `k` texts.
pub open spec fn texts_len(es: Seq<(Seq<char>, RefV, Seq<char>)>, k: int) -> nat
    decreases k,
{
    if k <= 0 {
        0
    } else {
        texts_len(es, k - 1) + es[k - 1].2.len()
    }
}

pub open spec fn writes_view(v: Seq<(String, String)>) -> Seq<(Seq<char>, Seq<char>)> {
    v.map_values(|w: (String, String)| (w.0@, w.1@))
}

proof fn lemma_relink_bounds(
    root: Seq<char>,
    es: Seq<(Seq<char>, RefV, Seq<char>)>,
    table: Seq<(u32, Seq<char>)>,
    k: int,
)
    requires
        0 <= k <= es.len(),
    ensures
        relink_upto(root, es, table, k).0 <= k,
        relink_upto(root, es, table, k).1 <= texts_len(es, k),
        relink_upto(root, es, table, k).2.len() == relink_upto(root, es, table, k).0,
        relink_upto(root, es, table, k).3.len() == relink_upto(root, es, table, k).0,
    decreases k,
{
    if k > 0 {
        lemma_relink_bounds(root, es, table, k - 1);
        let e = es[k - 1];
        crate::links::lemma_rewrite_count(e.2, 0, 0, dir_of(e.0), table);
    }
}

proof fn lemma_texts_len_mono(es: Seq<(Seq<char>, RefV, Seq<char>)>, j: int, k: int)
    requires
        0 <= j <= k,
    ensures
        texts_len(es, j) <= texts_len(es, k),
    decreases k - j,
{
    if j < k {
        lemma_texts_len_mono(es, j, k - 1);
    }
}

/// How many files carry the identity `r`.
fn count_ref(files: &[(String, Adr, String)], r: &AdrRef) -> (c: usize)
    ensures
        c == ref_count(relink_files_view(files@), r@, files@.len() as int),
{
    let ghost es = relink_files_view(files@);
    let mut c: usize = 0;
    let mut j: usize = 0;
    while j < files.len()
        invariant
            j <= files.len(),
            es == relink_files_view(files@),
            c == ref_count(es, r@, j as int),
            c <= j,
        decreases files.len() - j,
    {
        let other = files[j].1.reference();
        if other.same(r) {
            c = c + 1;
        }
        j = j + 1;
    }
    c
}

impl Store {
    /// The table that places each ADR for relinking: every numbered ADR whose
    /// number is not shared by another file, mapped to its path.
    pub fn link_resolver_map(files: &[(String, Adr, String)]) -> (r: Vec<(u32, String)>)
        ensures
            crate::links::table_view(r@) == resolver_table(relink_files_view(files@)),
    {
        let ghost es = relink_files_view(files@);
        let mut out: Vec<(u32, String)> = Vec::new();
        let mut k: usize = 0;
        while k < files.len()
            invariant
                k <= files.len(),
                es == relink_files_view(files@),
                crate::links::table_view(out@) == resolver_upto(es, k as int),
            decreases files.len() - k,
        {
            let r = files[k].1.reference();
            let ghost prev = out@;
            match r {
                AdrRef::Number(n) => {
                    let c = count_ref(files, &r);
                    if c == 1 {
                        out.push((n, files[k].0.clone()));
                        assert(crate::links::table_view(out@) =~= crate::links::table_view(prev).push((n, es[k as int].0)));
                    }
                },
                AdrRef::Slug(_) => {},
            }
            k = k + 1;
        }
        out
    }

    /// Rewrite every cross-ADR relative link across `files` so that it points
    /// at the current location of the ADR it names. A file whose links are
    /// already right is left alone; ADRs whose number is shared are not
    /// placed. Returns the report and, for each changed file, its new text.
    pub fn relink(&self, files: &[(String, Adr, String)]) -> (r: (RelinkReport, Vec<(String, String)>))
        requires
            texts_len(relink_files_view(files@), files@.len() as int) <= usize::MAX,
        ensures
            ({
                let es = relink_files_view(files@);
                let o = relink_upto(self.root_view(), es, resolver_table(es), es.len() as int);
                &&& r.0.files_changed == o.0
                &&& r.0.links_rewritten == o.1
                &&& paths_view(r.0.changed_files@) == o.2
                &&& writes_view(r.1@) == o.3
            }),
    {
        let ghost es = relink_files_view(files@);
        let table = Store::link_resolver_map(files);
        let ghost tv = crate::links::table_view(table@);
        let mut report = RelinkReport { files_changed: 0, links_rewritten: 0, changed_files: Vec::new() };
        let mut writes: Vec<(String, String)> = Vec::new();
        let mut k: usize = 0;
        while k < files.len()
            invariant
                k <= files.len(),
                es == relink_files_view(files@),
                tv == resolver_table(es),
                tv == crate::links::table_view(table@),
                texts_len(es, es.len() as int) <= usize::MAX,
                report.files_changed == relink_upto(self.root_view(), es, tv, k as int).0,
                report.links_rewritten == relink_upto(self.root_view(), es, tv, k as int).1,
                paths_view(report.changed_files@) == relink_upto(self.root_view(), es, tv, k as int).2,
                writes_view(writes@) == relink_upto(self.root_view(), es, tv, k as int).3,
            decreases files.len() - k,
        {
            let path = &files[k].0;
            let original = &files[k].2;
            let dir = string_of(&dir_of_v(&chars_of(path.as_str())));
            let (rewritten, changed) = crate::links::rewrite_links(original.as_str(), dir.as_str(), &table);
            proof {
                lemma_relink_bounds(self.root_view(), es, tv, k + 1);
                lemma_texts_len_mono(es, k + 1, es.len() as int);
            }
            if changed > 0 && !crate::text::eq_chars(&chars_of(rewritten.as_str()), &chars_of(original.as_str())) {
                let ghost before_files = paths_view(report.changed_files@);
                let ghost before_writes = writes_view(writes@);
                report.files_changed = report.files_changed + 1;
                report.links_rewritten = report.links_rewritten + changed;
                report.changed_files.push(rel_to_v(self.root.as_str(), &chars_of(path.as_str())));
                writes.push((path.clone(), rewritten));
                assert(paths_view(report.changed_files@) =~= before_files.push(rel_to(self.root_view(), es[k as int].0)));
                assert(writes_view(writes@) =~= before_writes.push((es[k as int].0, relinked(es[k as int].0, es[k as int].2, tv).0)));
            }
            k = k + 1;
        }
        (report, writes)
    }

    /// Relink only `path`'s own outbound links, resolving against all of
    /// `files`. Returns the new text when it changed.
    pub fn relink_one(&self, files: &[(String, Adr, String)], path: &str, content: &str) -> (r: Option<String>)
        ensures
            ({
                let t = resolver_table(relink_files_view(files@));
                match r {
                    Some(s) => relink_changes(path@, content@, t) && s@ == relinked(path@, content@, t).0,
                    None => !relink_changes(path@, content@, t),
                }
            }),
    {
        let table = Store::link_resolver_map(files);
        let dir = string_of(&dir_of_v(&chars_of(path)));
        let (rewritten, changed) = crate::links::rewrite_links(content, dir.as_str(), &table);
        if changed > 0 && !crate::text::eq_chars(&chars_of(rewritten.as_str()), &chars_of(content)) {
            Some(rewritten)
        } else {
            None
        }
    }
}


// ---------------------------------------------------------------------------
// Renumbering: the text rewrite
// ---------------------------------------------------------------------------

/// The file name of a path (empty when it has none).
pub open spec fn base_of(p: Seq<char>) -> Seq<char> {
    match file_name(p) {
        Some(b) => b,
        None => Seq::empty(),
    }
}

/// Retarget and relabel the references to a renamed ADR in another file:
/// every mention of its old file name becomes the new one, and every
/// mention of its old label the new one.
pub open spec fn relabel_spec(text: Seq<char>, old_base: Seq<char>, new_base: Seq<char>, old_label: Seq<char>, new_label: Seq<char>) -> Seq<char> {
    crate::text::replace(crate::text::replace(text, old_base, new_base), old_label, new_label)
}

/// A file's text after renumbering per `plan`, under its path after the
/// move: the renamed file has its own label updated; every other file has
/// its references to the renamed file retargeted and relabelled.
pub open spec fn renumbered_file(plan: (Seq<char>, Seq<char>, Seq<char>, Seq<char>), path: Seq<char>, text: Seq<char>) -> (Seq<char>, Seq<char>) {
    let (old_path, new_path, old_label, new_label) = plan;
    if path == old_path {
        (new_path, crate::text::replace(text, old_label, new_label))
    } else {
        (path, relabel_spec(text, base_of(old_path), base_of(new_path), old_label, new_label))
    }
}

/// The rewrites of the first `k` files that change: each by its path after
/// the move, with its new text, in file order.
pub open spec fn renumber_upto(plan: (Seq<char>, Seq<char>, Seq<char>, Seq<char>), files: Seq<(Seq<char>, Seq<char>)>, k: int) -> Seq<(Seq<char>, Seq<char>)>
    decreases k,
{
    if k <= 0 {
        Seq::empty()
    } else {
        let prev = renumber_upto(plan, files, k - 1);
        let f = files[k - 1];
        let r = renumbered_file(plan, f.0, f.1);
        if r.1 != f.1 {
            prev.push(r)
        } else {
            prev
        }
    }
}

pub open spec fn plan_view(p: RenumberPlan) -> (Seq<char>, Seq<char>, Seq<char>, Seq<char>) {
    (p.old_path@, p.new_path@, p.old_label@, p.new_label@)
}

/// `replace` with an empty pattern leaving the text as it is.
fn replace_any(v: &Vec<char>, p: &Vec<char>, with: &Vec<char>) -> (r: Vec<char>)
    ensures
        r@ == crate::text::replace(v@, p@, with@),
{
    if p.len() == 0 {
        proof {
            reveal_with_fuel(crate::text::replace, 1);
        }
        let mut out: Vec<char> = Vec::new();
        append_all(&mut out, v);
        out
    } else {
        crate::text::replace_v(v, p, with)
    }
}

fn base_of_v(p: &Vec<char>) -> (r: Vec<char>)
    ensures
        r@ == base_of(p@),
{
    match file_name_v(p) {
        Some(b) => b,
        None => Vec::new(),
    }
}

/// The text rewrite of a renumbering planned by [`Store::plan_renumber`],
/// over the files as read before the move (path, text): the renamed file
/// has its label updated and is returned under its new path; every other
/// file has its references to the renamed file retargeted to the new file
/// name and relabelled. Only the files whose text changes are returned.
pub fn renumber_texts(plan: &RenumberPlan, files: &Vec<(String, String)>) -> (r: Vec<(String, String)>)
    ensures
        writes_view(r@) == renumber_upto(plan_view(*plan), writes_view(files@), files@.len() as int),
{
    let ghost pv = plan_view(*plan);
    let ghost fv = writes_view(files@);
    let old_path = chars_of(plan.old_path.as_str());
    let old_base = base_of_v(&old_path);
    let new_base = base_of_v(&chars_of(plan.new_path.as_str()));
    let old_label = chars_of(plan.old_label.as_str());
    let new_label = chars_of(plan.new_label.as_str());
    let mut out: Vec<(String, String)> = Vec::new();
    let mut k: usize = 0;
    while k < files.len()
        invariant
            k <= files.len(),
            pv == plan_view(*plan),
            fv == writes_view(files@),
            old_path@ == pv.0,
            old_base@ == base_of(pv.0),
            new_base@ == base_of(pv.1),
            old_label@ == pv.2,
            new_label@ == pv.3,
            writes_view(out@) == renumber_upto(pv, fv, k as int),
        decreases files.len() - k,
    {
        let path = chars_of(files[k].0.as_str());
        let text = chars_of(files[k].1.as_str());
        let (dest, new_text) = if crate::text::eq_chars(&path, &old_path) {
            (string_of(&chars_of(plan.new_path.as_str())), replace_any(&text, &old_label, &new_label))
        } else {
            let t1 = replace_any(&text, &old_base, &new_base);
            (string_of(&path), replace_any(&t1, &old_label, &new_label))
        };
        assert((dest@, new_text@) == renumbered_file(pv, fv[k as int].0, fv[k as int].1));
        if !crate::text::eq_chars(&new_text, &text) {
            let ghost before = writes_view(out@);
            out.push((dest, string_of(&new_text)));
            assert(writes_view(out@) =~= before.push((dest@, new_text@)));
        }
        k = k + 1;
    }
    out
}

} // verus!
