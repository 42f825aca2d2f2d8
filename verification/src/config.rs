//! Application configuration: the settings, their names and defaults, and
//! the scalar key/value view that `adroit config` gets and sets.
use vstd::prelude::*;
use crate::adr::{status_name, status_named, Status};
use crate::format::{format_name, format_named, Format};
use crate::naming::{naming_name, naming_named, str_to_lowercase, NamingScheme};
use crate::text::{
    after_last, after_last_str, append_all, append_str, ascii_lower, ascii_lower_seq, chars_of, contains,
    contains_str, dec, dec_v, ends_with, ends_with_str, eq_chars, eq_ignore_ascii_case,
    eq_ignore_case_chars, is_ascii_seq, parse_u32, parse_u32_v, split_once, split_once_str,
    starts_with, starts_with_str, string_of, strip_prefix, strip_prefix_str, trim,
    trim_end_char, trim_end_char_v, trim_end_str, trim_end_str_v, trim_v,
};

verus! {

/// On-disk directory layout for a store.
#[derive(Debug, Clone, Copy, PartialEq, Eq, Structural)]
pub enum Layout {
    /// ADRs grouped into per-status subdirectories. The default.
    ByStatus,
    /// ADRs grouped into per-category subdirectories; status lives in the document.
    ByCategory,
    /// All ADRs in one flat directory.
    Flat,
}

/// The snake_case name of a [`Layout`].
pub open spec fn layout_name(x: Layout) -> Seq<char> {
    match x {
        Layout::ByStatus => "by_status"@,
        Layout::ByCategory => "by_category"@,
        Layout::Flat => "flat"@,
    }
}

/// The [`Layout`] a name selects, ignoring ASCII case.
pub open spec fn layout_named(s: Seq<char>) -> Option<Layout> {
    if eq_ignore_ascii_case(s, "by_status"@) {
        Some(Layout::ByStatus)
    } else if eq_ignore_ascii_case(s, "by_category"@) {
        Some(Layout::ByCategory)
    } else if eq_ignore_ascii_case(s, "flat"@) {
        Some(Layout::Flat)
    } else {
        None
    }
}

impl Layout {
    /// The snake_case name.
    pub fn to_string(&self) -> (s: String)
        ensures
            s@ == layout_name(*self),
    {
        match self {
            Layout::ByStatus => string_of(&chars_of("by_status")),
            Layout::ByCategory => string_of(&chars_of("by_category")),
            Layout::Flat => string_of(&chars_of("flat")),
        }
    }

    /// Parse a name, ignoring ASCII case.
    pub fn parse_str(s: &str) -> (r: Option<Layout>)
        ensures
            r == layout_named(s@),
    {
        let v = chars_of(s);
        if eq_ignore_case_chars(&v, &chars_of("by_status")) {
            Some(Layout::ByStatus)
        } else if eq_ignore_case_chars(&v, &chars_of("by_category")) {
            Some(Layout::ByCategory)
        } else if eq_ignore_case_chars(&v, &chars_of("flat")) {
            Some(Layout::Flat)
        } else {
            None
        }
    }
}

impl Default for Layout {
    fn default() -> (r: Self)
        ensures
            r == Layout::ByStatus,
    {
        Layout::ByStatus
    }
}

/// Color theme for the terminal markdown preview.
#[derive(Debug, Clone, Copy, PartialEq, Eq, Structural)]
pub enum MarkdownTheme {
    /// 16-color ANSI palette. The default.
    Default,
    /// Gruvbox true-color.
    Gruvbox,
}

/// The snake_case name of a [`MarkdownTheme`].
pub open spec fn theme_name(x: MarkdownTheme) -> Seq<char> {
    match x {
        MarkdownTheme::Default => "default"@,
        MarkdownTheme::Gruvbox => "gruvbox"@,
    }
}

/// The [`MarkdownTheme`] a name selects, ignoring ASCII case.
pub open spec fn theme_named(s: Seq<char>) -> Option<MarkdownTheme> {
    if eq_ignore_ascii_case(s, "default"@) {
        Some(MarkdownTheme::Default)
    } else if eq_ignore_ascii_case(s, "gruvbox"@) {
        Some(MarkdownTheme::Gruvbox)
    } else {
        None
    }
}

impl MarkdownTheme {
    /// The snake_case name.
    pub fn to_string(&self) -> (s: String)
        ensures
            s@ == theme_name(*self),
    {
        match self {
            MarkdownTheme::Default => string_of(&chars_of("default")),
            MarkdownTheme::Gruvbox => string_of(&chars_of("gruvbox")),
        }
    }

    /// Parse a name, ignoring ASCII case.
    pub fn parse_str(s: &str) -> (r: Option<MarkdownTheme>)
        ensures
            r == theme_named(s@),
    {
        let v = chars_of(s);
        if eq_ignore_case_chars(&v, &chars_of("default")) {
            Some(MarkdownTheme::Default)
        } else if eq_ignore_case_chars(&v, &chars_of("gruvbox")) {
            Some(MarkdownTheme::Gruvbox)
        } else {
            None
        }
    }
}

impl Default for MarkdownTheme {
    fn default() -> (r: Self)
        ensures
            r == MarkdownTheme::Default,
    {
        MarkdownTheme::Default
    }
}

/// Where ADR creation and lifecycle dates come from.
#[derive(Debug, Clone, Copy, PartialEq, Eq, Structural)]
pub enum DateSource {
    /// Git history when available, else the filesystem. The default.
    Auto,
    /// Require git history.
    Git,
    /// Filesystem only.
    Filesystem,
}

/// The snake_case name of a [`DateSource`].
pub open spec fn date_source_name(x: DateSource) -> Seq<char> {
    match x {
        DateSource::Auto => "auto"@,
        DateSource::Git => "git"@,
        DateSource::Filesystem => "filesystem"@,
    }
}

/// The [`DateSource`] a name selects, ignoring ASCII case.
pub open spec fn date_source_named(s: Seq<char>) -> Option<DateSource> {
    if eq_ignore_ascii_case(s, "auto"@) {
        Some(DateSource::Auto)
    } else if eq_ignore_ascii_case(s, "git"@) {
        Some(DateSource::Git)
    } else if eq_ignore_ascii_case(s, "filesystem"@) {
        Some(DateSource::Filesystem)
    } else {
        None
    }
}

impl DateSource {
    /// The snake_case name.
    pub fn to_string(&self) -> (s: String)
        ensures
            s@ == date_source_name(*self),
    {
        match self {
            DateSource::Auto => string_of(&chars_of("auto")),
            DateSource::Git => string_of(&chars_of("git")),
            DateSource::Filesystem => string_of(&chars_of("filesystem")),
        }
    }

    /// Parse a name, ignoring ASCII case.
    pub fn parse_str(s: &str) -> (r: Option<DateSource>)
        ensures
            r == date_source_named(s@),
    {
        let v = chars_of(s);
        if eq_ignore_case_chars(&v, &chars_of("auto")) {
            Some(DateSource::Auto)
        } else if eq_ignore_case_chars(&v, &chars_of("git")) {
            Some(DateSource::Git)
        } else if eq_ignore_case_chars(&v, &chars_of("filesystem")) {
            Some(DateSource::Filesystem)
        } else {
            None
        }
    }
}

impl Default for DateSource {
    fn default() -> (r: Self)
        ensures
            r == DateSource::Auto,
    {
        DateSource::Auto
    }
}

/// How much a status-change move relinks cross-ADR links.
#[derive(Debug, Clone, Copy, PartialEq, Eq, Structural)]
pub enum RelinkScope {
    /// Heal every inbound link on a move. The default.
    All,
    /// Fix only the moved file's own outbound links.
    SelfOnly,
    /// Move only; defer all link fixing.
    MoveOnly,
}

/// The snake_case name of a [`RelinkScope`].
pub open spec fn relink_scope_name(x: RelinkScope) -> Seq<char> {
    match x {
        RelinkScope::All => "all"@,
        RelinkScope::SelfOnly => "self"@,
        RelinkScope::MoveOnly => "none"@,
    }
}

/// The [`RelinkScope`] a name selects, ignoring ASCII case.
pub open spec fn relink_scope_named(s: Seq<char>) -> Option<RelinkScope> {
    if eq_ignore_ascii_case(s, "all"@) {
        Some(RelinkScope::All)
    } else if eq_ignore_ascii_case(s, "self"@) {
        Some(RelinkScope::SelfOnly)
    } else if eq_ignore_ascii_case(s, "none"@) {
        Some(RelinkScope::MoveOnly)
    } else {
        None
    }
}

impl RelinkScope {
    /// The snake_case name.
    pub fn to_string(&self) -> (s: String)
        ensures
            s@ == relink_scope_name(*self),
    {
        match self {
            RelinkScope::All => string_of(&chars_of("all")),
            RelinkScope::SelfOnly => string_of(&chars_of("self")),
            RelinkScope::MoveOnly => string_of(&chars_of("none")),
        }
    }

    /// Parse a name, ignoring ASCII case.
    pub fn parse_str(s: &str) -> (r: Option<RelinkScope>)
        ensures
            r == relink_scope_named(s@),
    {
        let v = chars_of(s);
        if eq_ignore_case_chars(&v, &chars_of("all")) {
            Some(RelinkScope::All)
        } else if eq_ignore_case_chars(&v, &chars_of("self")) {
            Some(RelinkScope::SelfOnly)
        } else if eq_ignore_case_chars(&v, &chars_of("none")) {
            Some(RelinkScope::MoveOnly)
        } else {
            None
        }
    }
}

impl Default for RelinkScope {
    fn default() -> (r: Self)
        ensures
            r == RelinkScope::All,
    {
        RelinkScope::All
    }
}

/// The code-review host the forge integration drives.
#[derive(Debug, Clone, Copy, PartialEq, Eq, Structural)]
pub enum Provider {
    /// Forge integration off. The default.
    Off,
    /// GitHub.
    Github,
    /// GitLab.
    Gitlab,
}

/// The snake_case name of a [`Provider`].
pub open spec fn provider_name(x: Provider) -> Seq<char> {
    match x {
        Provider::Off => "none"@,
        Provider::Github => "github"@,
        Provider::Gitlab => "gitlab"@,
    }
}

/// The [`Provider`] a name selects, ignoring ASCII case.
pub open spec fn provider_named(s: Seq<char>) -> Option<Provider> {
    if eq_ignore_ascii_case(s, "none"@) {
        Some(Provider::Off)
    } else if eq_ignore_ascii_case(s, "github"@) {
        Some(Provider::Github)
    } else if eq_ignore_ascii_case(s, "gitlab"@) {
        Some(Provider::Gitlab)
    } else {
        None
    }
}

impl Provider {
    /// The snake_case name.
    pub fn to_string(&self) -> (s: String)
        ensures
            s@ == provider_name(*self),
    {
        match self {
            Provider::Off => string_of(&chars_of("none")),
            Provider::Github => string_of(&chars_of("github")),
            Provider::Gitlab => string_of(&chars_of("gitlab")),
        }
    }

    /// Parse a name, ignoring ASCII case.
    pub fn parse_str(s: &str) -> (r: Option<Provider>)
        ensures
            r == provider_named(s@),
    {
        let v = chars_of(s);
        if eq_ignore_case_chars(&v, &chars_of("none")) {
            Some(Provider::Off)
        } else if eq_ignore_case_chars(&v, &chars_of("github")) {
            Some(Provider::Github)
        } else if eq_ignore_case_chars(&v, &chars_of("gitlab")) {
            Some(Provider::Gitlab)
        } else {
            None
        }
    }
}

impl Default for Provider {
    fn default() -> (r: Self)
        ensures
            r == Provider::Off,
    {
        Provider::Off
    }
}

/// Which issue tracker the forge integration files to.
#[derive(Debug, Clone, Copy, PartialEq, Eq, Structural)]
pub enum TrackerProvider {
    /// The forge's own issue tracker. The default.
    Native,
    /// Jira.
    Jira,
    /// Linear.
    Linear,
    /// GitHub Issues.
    GhIssues,
    /// GitLab Issues.
    GlIssues,
}

/// The snake_case name of a [`TrackerProvider`].
pub open spec fn tracker_name(x: TrackerProvider) -> Seq<char> {
    match x {
        TrackerProvider::Native => "native"@,
        TrackerProvider::Jira => "jira"@,
        TrackerProvider::Linear => "linear"@,
        TrackerProvider::GhIssues => "gh_issues"@,
        TrackerProvider::GlIssues => "gl_issues"@,
    }
}

/// The [`TrackerProvider`] a name selects, ignoring ASCII case.
pub open spec fn tracker_named(s: Seq<char>) -> Option<TrackerProvider> {
    if eq_ignore_ascii_case(s, "native"@) {
        Some(TrackerProvider::Native)
    } else if eq_ignore_ascii_case(s, "jira"@) {
        Some(TrackerProvider::Jira)
    } else if eq_ignore_ascii_case(s, "linear"@) {
        Some(TrackerProvider::Linear)
    } else if eq_ignore_ascii_case(s, "gh_issues"@) {
        Some(TrackerProvider::GhIssues)
    } else if eq_ignore_ascii_case(s, "gl_issues"@) {
        Some(TrackerProvider::GlIssues)
    } else {
        None
    }
}

impl TrackerProvider {
    /// The snake_case name.
    pub fn to_string(&self) -> (s: String)
        ensures
            s@ == tracker_name(*self),
    {
        match self {
            TrackerProvider::Native => string_of(&chars_of("native")),
            TrackerProvider::Jira => string_of(&chars_of("jira")),
            TrackerProvider::Linear => string_of(&chars_of("linear")),
            TrackerProvider::GhIssues => string_of(&chars_of("gh_issues")),
            TrackerProvider::GlIssues => string_of(&chars_of("gl_issues")),
        }
    }

    /// Parse a name, ignoring ASCII case.
    pub fn parse_str(s: &str) -> (r: Option<TrackerProvider>)
        ensures
            r == tracker_named(s@),
    {
        let v = chars_of(s);
        if eq_ignore_case_chars(&v, &chars_of("native")) {
            Some(TrackerProvider::Native)
        } else if eq_ignore_case_chars(&v, &chars_of("jira")) {
            Some(TrackerProvider::Jira)
        } else if eq_ignore_case_chars(&v, &chars_of("linear")) {
            Some(TrackerProvider::Linear)
        } else if eq_ignore_case_chars(&v, &chars_of("gh_issues")) {
            Some(TrackerProvider::GhIssues)
        } else if eq_ignore_case_chars(&v, &chars_of("gl_issues")) {
            Some(TrackerProvider::GlIssues)
        } else {
            None
        }
    }
}

impl Default for TrackerProvider {
    fn default() -> (r: Self)
        ensures
            r == TrackerProvider::Native,
    {
        TrackerProvider::Native
    }
}

// ---------------------------------------------------------------------------
// Configuration
// ---------------------------------------------------------------------------

/// The abstract value of a [`ForgeConfig`].
pub struct ForgeV {
    pub provider: Provider,
    pub repo: Option<Seq<char>>,
    pub host: Option<Seq<char>>,
    pub branch_prefix: Seq<char>,
    pub base_branch: Seq<char>,
    pub tracker: TrackerProvider,
    pub tracker_project: Option<Seq<char>>,
    pub tracker_host: Option<Seq<char>>,
    pub token: Option<Seq<char>>,
}

/// Opt-in forge/tracker integration config. The token is never persisted;
/// it comes from the environment.
#[derive(Debug, Clone)]
pub struct ForgeConfig {
    pub provider: Provider,
    pub repo: Option<String>,
    pub host: Option<String>,
    pub branch_prefix: String,
    pub base_branch: String,
    pub tracker: TrackerProvider,
    pub tracker_project: Option<String>,
    pub tracker_host: Option<String>,
    pub token: Option<String>,
}

pub open spec fn ostr(o: Option<String>) -> Option<Seq<char>> {
    match o {
        Some(s) => Some(s@),
        None => None,
    }
}

impl View for ForgeConfig {
    type V = ForgeV;

    open spec fn view(&self) -> ForgeV {
        ForgeV {
            provider: self.provider,
            repo: ostr(self.repo),
            host: ostr(self.host),
            branch_prefix: self.branch_prefix@,
            base_branch: self.base_branch@,
            tracker: self.tracker,
            tracker_project: ostr(self.tracker_project),
            tracker_host: ostr(self.tracker_host),
            token: ostr(self.token),
        }
    }
}

/// The forge block's defaults.
pub open spec fn default_forge() -> ForgeV {
    ForgeV {
        provider: Provider::Off,
        repo: None,
        host: None,
        branch_prefix: "adr/"@,
        base_branch: "main"@,
        tracker: TrackerProvider::Native,
        tracker_project: None,
        tracker_host: None,
        token: None,
    }
}

impl Default for ForgeConfig {
    fn default() -> (r: Self)
        ensures
            r@ == default_forge(),
    {
        ForgeConfig {
            provider: Provider::Off,
            repo: None,
            host: None,
            branch_prefix: string_of(&chars_of("adr/")),
            base_branch: string_of(&chars_of("main")),
            tracker: TrackerProvider::Native,
            tracker_project: None,
            tracker_host: None,
            token: None,
        }
    }
}

/// The abstract value of a [`Config`].
pub struct ConfigV {
    pub dir: Option<Seq<char>>,
    pub editor: Option<Seq<char>>,
    pub format: Format,
    pub layout: Layout,
    pub status_dirs: Seq<(Status, Seq<char>)>,
    pub default_template: Seq<char>,
    pub templates_dir: Option<Seq<char>>,
    pub default_status: Status,
    pub open_on_new: bool,
    pub summary_path: Option<Seq<char>>,
    pub review_days: u32,
    pub review_quorum: u32,
    pub review_overdue_days: u32,
    pub tui_theme: MarkdownTheme,
    pub date_source: DateSource,
    pub naming: NamingScheme,
    pub relink_scope: RelinkScope,
    pub forge: Option<ForgeV>,
}

/// Application configuration. `status_dirs` maps a status to the directory
/// name used in the `by_status` layout; a status occurs in it at most once.
#[derive(Debug, Clone)]
pub struct Config {
    pub dir: Option<String>,
    pub editor: Option<String>,
    pub format: Format,
    pub layout: Layout,
    pub status_dirs: Vec<(Status, String)>,
    pub default_template: String,
    pub templates_dir: Option<String>,
    pub default_status: Status,
    pub open_on_new: bool,
    pub summary_path: Option<String>,
    pub review_days: u32,
    pub review_quorum: u32,
    pub review_overdue_days: u32,
    pub tui_theme: MarkdownTheme,
    pub date_source: DateSource,
    pub naming: NamingScheme,
    pub relink_scope: RelinkScope,
    pub forge: Option<ForgeConfig>,
}

pub open spec fn oforge(o: Option<ForgeConfig>) -> Option<ForgeV> {
    match o {
        Some(f) => Some(f@),
        None => None,
    }
}

pub open spec fn status_dirs_view(v: Seq<(Status, String)>) -> Seq<(Status, Seq<char>)> {
    v.map_values(|p: (Status, String)| (p.0, p.1@))
}

impl View for Config {
    type V = ConfigV;

    open spec fn view(&self) -> ConfigV {
        ConfigV {
            dir: ostr(self.dir),
            editor: ostr(self.editor),
            format: self.format,
            layout: self.layout,
            status_dirs: status_dirs_view(self.status_dirs@),
            default_template: self.default_template@,
            templates_dir: ostr(self.templates_dir),
            default_status: self.default_status,
            open_on_new: self.open_on_new,
            summary_path: ostr(self.summary_path),
            review_days: self.review_days,
            review_quorum: self.review_quorum,
            review_overdue_days: self.review_overdue_days,
            tui_theme: self.tui_theme,
            date_source: self.date_source,
            naming: self.naming,
            relink_scope: self.relink_scope,
            forge: oforge(self.forge),
        }
    }
}

/// The configuration's defaults.
pub open spec fn default_config() -> ConfigV {
    ConfigV {
        dir: None,
        editor: None,
        format: Format::Markdown,
        layout: Layout::ByStatus,
        status_dirs: seq![],
        default_template: "madr"@,
        templates_dir: None,
        default_status: Status::Proposed,
        open_on_new: true,
        summary_path: None,
        review_days: 3,
        review_quorum: 3,
        review_overdue_days: 30,
        tui_theme: MarkdownTheme::Default,
        date_source: DateSource::Auto,
        naming: NamingScheme::Sequential,
        relink_scope: RelinkScope::All,
        forge: None,
    }
}

impl Default for Config {
    fn default() -> (r: Self)
        ensures
            r@ == default_config(),
    {
        let r = Config {
            dir: None,
            editor: None,
            format: Format::Markdown,
            layout: Layout::ByStatus,
            status_dirs: Vec::new(),
            default_template: string_of(&chars_of("madr")),
            templates_dir: None,
            default_status: Status::Proposed,
            open_on_new: true,
            summary_path: None,
            review_days: 3,
            review_quorum: 3,
            review_overdue_days: 30,
            tui_theme: MarkdownTheme::Default,
            date_source: DateSource::Auto,
            naming: NamingScheme::Sequential,
            relink_scope: RelinkScope::All,
            forge: None,
        };
        assert(r@.status_dirs =~= seq![]);
        r
    }
}

/// The directory a status is filed under: its `status_dirs` entry, else its
/// lower-cased name.
pub open spec fn dir_for_spec(dirs: Seq<(Status, Seq<char>)>, s: Status) -> Seq<char>
    decreases dirs.len(),
{
    if dirs.len() == 0 {
        ascii_lower_seq(status_name(s))
    } else if dirs[0].0 == s {
        dirs[0].1
    } else {
        dir_for_spec(dirs.drop_first(), s)
    }
}

/// `true` / `false`.
pub open spec fn bool_name(b: bool) -> Seq<char> {
    if b {
        "true"@
    } else {
        "false"@
    }
}

/// `<bool as FromStr>`: exactly `true` or `false`.
pub open spec fn bool_named(s: Seq<char>) -> Option<bool> {
    if s == "true"@ {
        Some(true)
    } else if s == "false"@ {
        Some(false)
    } else {
        None
    }
}

/// The forge block as the forge keys read and write it: the configured one,
/// else the defaults.
pub open spec fn forge_base(c: ConfigV) -> ForgeV {
    match c.forge {
        Some(f) => f,
        None => default_forge(),
    }
}

/// The current value of a config key as a string; `None` for an unset
/// optional or an unknown key.
pub open spec fn get_spec(c: ConfigV, key: Seq<char>) -> Option<Seq<char>> {
    let f = forge_base(c);
    if key == "dir"@ {
        c.dir
    } else if key == "editor"@ {
        c.editor
    } else if key == "format"@ {
        Some(format_name(c.format))
    } else if key == "layout"@ {
        Some(layout_name(c.layout))
    } else if key == "default_template"@ {
        Some(c.default_template)
    } else if key == "default_status"@ {
        Some(status_name(c.default_status))
    } else if key == "open_on_new"@ {
        Some(bool_name(c.open_on_new))
    } else if key == "review_days"@ {
        Some(dec(c.review_days as nat))
    } else if key == "review_quorum"@ {
        Some(dec(c.review_quorum as nat))
    } else if key == "review_overdue_days"@ {
        Some(dec(c.review_overdue_days as nat))
    } else if key == "tui_theme"@ {
        Some(theme_name(c.tui_theme))
    } else if key == "date_source"@ {
        Some(date_source_name(c.date_source))
    } else if key == "naming"@ {
        Some(naming_name(c.naming))
    } else if key == "relink_scope"@ {
        Some(relink_scope_name(c.relink_scope))
    } else if key == "forge.provider"@ {
        Some(provider_name(f.provider))
    } else if key == "forge.repo"@ {
        f.repo
    } else if key == "forge.host"@ {
        f.host
    } else if key == "forge.branch_prefix"@ {
        Some(f.branch_prefix)
    } else if key == "forge.base_branch"@ {
        Some(f.base_branch)
    } else if key == "forge.tracker"@ {
        Some(tracker_name(f.tracker))
    } else if key == "forge.tracker_project"@ {
        f.tracker_project
    } else if key == "forge.tracker_host"@ {
        f.tracker_host
    } else {
        None
    }
}

/// The error for an invalid value.
pub open spec fn bad_value(what: Seq<char>, value: Seq<char>) -> Seq<char> {
    "invalid "@ + what + " `"@ + value + "`"@
}

/// The config with its forge block replaced.
pub open spec fn with_forge(c: ConfigV, f: ForgeV) -> ConfigV {
    ConfigV { forge: Some(f), ..c }
}

/// Setting one of the document keys; `None` for another key.
pub open spec fn set_top_a(c: ConfigV, key: Seq<char>, value: Seq<char>) -> Option<Result<ConfigV, Seq<char>>> {
    if key == "dir"@ {
        Some(Ok(ConfigV { dir: Some(value), ..c }))
    } else if key == "editor"@ {
        Some(Ok(ConfigV { editor: Some(value), ..c }))
    } else if key == "format"@ {
        Some(
            match format_named(value) {
                Some(x) => Ok(ConfigV { format: x, ..c }),
                None => Err(bad_value("format (markdown|frontmatter)"@, value)),
            }
        )
    } else if key == "layout"@ {
        Some(
            match layout_named(value) {
                Some(x) => Ok(ConfigV { layout: x, ..c }),
                None => Err(bad_value("layout (by_status|by_category|flat)"@, value)),
            }
        )
    } else if key == "default_template"@ {
        Some(Ok(ConfigV { default_template: value, ..c }))
    } else if key == "default_status"@ {
        Some(
            match status_named(value) {
                Some(x) => Ok(ConfigV { default_status: x, ..c }),
                None => Err(bad_value("status"@, value)),
            }
        )
    } else if key == "open_on_new"@ {
        Some(
            match bool_named(value) {
                Some(x) => Ok(ConfigV { open_on_new: x, ..c }),
                None => Err(bad_value("boolean"@, value)),
            }
        )
    } else {
        None
    }
}

/// Setting one of the workflow keys; `None` for another key.
pub open spec fn set_top_b(c: ConfigV, key: Seq<char>, value: Seq<char>) -> Option<Result<ConfigV, Seq<char>>> {
    if key == "review_days"@ {
        Some(
            match parse_u32(value) {
                Some(x) => Ok(ConfigV { review_days: x, ..c }),
                None => Err(bad_value("number"@, value)),
            }
        )
    } else if key == "review_quorum"@ {
        Some(
            match parse_u32(value) {
                Some(x) => Ok(ConfigV { review_quorum: x, ..c }),
                None => Err(bad_value("number"@, value)),
            }
        )
    } else if key == "review_overdue_days"@ {
        Some(
            match parse_u32(value) {
                Some(x) => Ok(ConfigV { review_overdue_days: x, ..c }),
                None => Err(bad_value("number"@, value)),
            }
        )
    } else if key == "tui_theme"@ {
        Some(
            match theme_named(value) {
                Some(x) => Ok(ConfigV { tui_theme: x, ..c }),
                None => Err(bad_value("theme (default|gruvbox)"@, value)),
            }
        )
    } else if key == "date_source"@ {
        Some(
            match date_source_named(value) {
                Some(x) => Ok(ConfigV { date_source: x, ..c }),
                None => Err(bad_value("date source (auto|git|filesystem)"@, value)),
            }
        )
    } else if key == "naming"@ {
        Some(
            match naming_named(value) {
                Some(x) => Ok(ConfigV { naming: x, ..c }),
                None => Err(bad_value("naming scheme (sequential|date|uuid|per_category)"@, value)),
            }
        )
    } else if key == "relink_scope"@ {
        Some(
            match relink_scope_named(value) {
                Some(x) => Ok(ConfigV { relink_scope: x, ..c }),
                None => Err(bad_value("relink scope (all|self|none)"@, value)),
            }
        )
    } else {
        None
    }
}

/// Setting one of the forge keys; `None` for another key.
pub open spec fn set_forge_key(c: ConfigV, key: Seq<char>, value: Seq<char>) -> Option<Result<ConfigV, Seq<char>>> {
    let f = forge_base(c);
    if key == "forge.provider"@ {
        Some(
            match provider_named(value) {
                Some(x) => Ok(with_forge(c, ForgeV { provider: x, ..f })),
                None => Err(bad_value("forge provider (none|github|gitlab)"@, value)),
            }
        )
    } else if key == "forge.repo"@ {
        Some(Ok(with_forge(c, ForgeV { repo: Some(value), ..f })))
    } else if key == "forge.host"@ {
        Some(Ok(with_forge(c, ForgeV { host: Some(value), ..f })))
    } else if key == "forge.branch_prefix"@ {
        Some(Ok(with_forge(c, ForgeV { branch_prefix: value, ..f })))
    } else if key == "forge.base_branch"@ {
        Some(Ok(with_forge(c, ForgeV { base_branch: value, ..f })))
    } else if key == "forge.tracker"@ {
        Some(
            match tracker_named(value) {
                Some(x) => Ok(with_forge(c, ForgeV { tracker: x, ..f })),
                None => Err(bad_value("tracker (native|jira|linear|gh_issues|gl_issues)"@, value)),
            }
        )
    } else if key == "forge.tracker_project"@ {
        Some(Ok(with_forge(c, ForgeV { tracker_project: Some(value), ..f })))
    } else if key == "forge.tracker_host"@ {
        Some(Ok(with_forge(c, ForgeV { tracker_host: Some(value), ..f })))
    } else {
        None
    }
}

/// The config after setting `key` to `value`, or the error: an invalid
/// value or an unknown key leaves the config as it was.
pub open spec fn set_spec(c: ConfigV, key: Seq<char>, value: Seq<char>) -> Result<ConfigV, Seq<char>> {
    match set_top_a(c, key, value) {
        Some(r) => r,
        None => match set_top_b(c, key, value) {
            Some(r) => r,
            None => match set_forge_key(c, key, value) {
                Some(r) => r,
                None => Err("unknown config key `"@ + key + "`"@),
            },
        },
    }
}

fn opt_string(o: &Option<String>) -> (r: Option<String>)
    ensures
        ostr(r) == ostr(*o),
{
    match o {
        Some(s) => Some(string_of(&chars_of(s.as_str()))),
        None => None,
    }
}

fn bad(what: &str, value: &str) -> (r: String)
    ensures
        r@ == bad_value(what@, value@),
{
    let mut v = chars_of("invalid ");
    append_str(&mut v, what);
    append_str(&mut v, " `");
    append_str(&mut v, value);
    append_str(&mut v, "`");
    string_of(&v)
}

fn bool_to_string(b: bool) -> (r: String)
    ensures
        r@ == bool_name(b),
{
    if b {
        string_of(&chars_of("true"))
    } else {
        string_of(&chars_of("false"))
    }
}

fn parse_bool(v: &Vec<char>) -> (r: Option<bool>)
    ensures
        r == bool_named(v@),
{
    if eq_chars(v, &chars_of("true")) {
        Some(true)
    } else if eq_chars(v, &chars_of("false")) {
        Some(false)
    } else {
        None
    }
}

fn u32_to_string(n: u32) -> (r: String)
    ensures
        r@ == dec(n as nat),
{
    string_of(&dec_v(n as u64))
}

fn is_key(k: &Vec<char>, name: &str) -> (r: bool)
    ensures
        r == (k@ == name@),
{
    eq_chars(k, &chars_of(name))
}

impl Config {
    /// The directory name for a status: its `status_dirs` entry, else the
    /// lower-cased status name.
    pub fn dir_for(&self, status: Status) -> (r: String)
        ensures
            r@ == dir_for_spec(self@.status_dirs, status),
    {
        let mut k: usize = 0;
        let ghost dv = self@.status_dirs;
        assert(dv.skip(0) =~= dv);
        while k < self.status_dirs.len()
            invariant
                k <= self.status_dirs.len(),
                dv == self@.status_dirs,
                dir_for_spec(dv.skip(k as int), status) == dir_for_spec(dv, status),
            decreases self.status_dirs.len() - k,
        {
            assert(dv.skip(k as int).drop_first() =~= dv.skip(k + 1));
            if self.status_dirs[k].0 == status {
                return string_of(&chars_of(self.status_dirs[k].1.as_str()));
            }
            k = k + 1;
        }
        assert(dv.skip(k as int) =~= Seq::<(Status, Seq<char>)>::empty());
        let name = status.to_string();
        proof {
            reveal_strlit("Proposed");
            reveal_strlit("Accepted");
            reveal_strlit("Rejected");
            reveal_strlit("Deprecated");
            reveal_strlit("Superseded");
        }
        assert(is_ascii_seq(status_name(status)));
        str_to_lowercase(name.as_str())
    }

    /// The current value of a config key as a string, or `None` for an unset
    /// optional or an unknown key.
    pub fn get_str(&self, key: &str) -> (r: Option<String>)
        ensures
            ostr(r) == get_spec(self@, key@),
    {
        let k = chars_of(key);
        let dflt = ForgeConfig::default();
        let f = match &self.forge {
            Some(f) => f,
            None => &dflt,
        };
        assert(f@ == forge_base(self@));
        if is_key(&k, "dir") {
            opt_string(&self.dir)
        } else if is_key(&k, "editor") {
            opt_string(&self.editor)
        } else if is_key(&k, "format") {
            Some(self.format.to_string())
        } else if is_key(&k, "layout") {
            Some(self.layout.to_string())
        } else if is_key(&k, "default_template") {
            Some(string_of(&chars_of(self.default_template.as_str())))
        } else if is_key(&k, "default_status") {
            Some(self.default_status.to_string())
        } else if is_key(&k, "open_on_new") {
            Some(bool_to_string(self.open_on_new))
        } else if is_key(&k, "review_days") {
            Some(u32_to_string(self.review_days))
        } else if is_key(&k, "review_quorum") {
            Some(u32_to_string(self.review_quorum))
        } else if is_key(&k, "review_overdue_days") {
            Some(u32_to_string(self.review_overdue_days))
        } else if is_key(&k, "tui_theme") {
            Some(self.tui_theme.to_string())
        } else if is_key(&k, "date_source") {
            Some(self.date_source.to_string())
        } else if is_key(&k, "naming") {
            Some(self.naming.to_string())
        } else if is_key(&k, "relink_scope") {
            Some(self.relink_scope.to_string())
        } else if is_key(&k, "forge.provider") {
            Some(f.provider.to_string())
        } else if is_key(&k, "forge.repo") {
            opt_string(&f.repo)
        } else if is_key(&k, "forge.host") {
            opt_string(&f.host)
        } else if is_key(&k, "forge.branch_prefix") {
            Some(string_of(&chars_of(f.branch_prefix.as_str())))
        } else if is_key(&k, "forge.base_branch") {
            Some(string_of(&chars_of(f.base_branch.as_str())))
        } else if is_key(&k, "forge.tracker") {
            Some(f.tracker.to_string())
        } else if is_key(&k, "forge.tracker_project") {
            opt_string(&f.tracker_project)
        } else if is_key(&k, "forge.tracker_host") {
            opt_string(&f.tracker_host)
        } else {
            None
        }
    }

    fn take_forge(&mut self) -> (f: ForgeConfig)
        ensures
            f@ == forge_base(old(self)@),
            final(self)@ == (ConfigV { forge: None, ..old(self)@ }),
    {
        match self.forge.take() {
            Some(f) => f,
            None => ForgeConfig::default(),
        }
    }

    fn set_a(&mut self, k: &Vec<char>, value: &str) -> (r: Option<Result<(), String>>)
        ensures
            match set_top_a(old(self)@, k@, value@) {
                None => r is None && final(self)@ == old(self)@,
                Some(Ok(c)) => r == Some(Ok::<(), String>(())) && final(self)@ == c,
                Some(Err(m)) => r is Some && r->0 is Err && r->0->Err_0@ == m && final(self)@ == old(self)@,
            },
    {
        let v = chars_of(value);
        let owned = string_of(&v);
        if is_key(&k, "dir") {
            self.dir = Some(owned);
        } else if is_key(&k, "editor") {
            self.editor = Some(owned);
        } else if is_key(&k, "format") {
            match Format::parse_str(value) {
                Some(x) => self.format = x,
                None => return Some(Err(bad("format (markdown|frontmatter)", value))),
            }
        } else if is_key(&k, "layout") {
            match Layout::parse_str(value) {
                Some(x) => self.layout = x,
                None => return Some(Err(bad("layout (by_status|by_category|flat)", value))),
            }
        } else if is_key(&k, "default_template") {
            self.default_template = owned;
        } else if is_key(&k, "default_status") {
            match Status::parse_str(value) {
                Some(x) => self.default_status = x,
                None => return Some(Err(bad("status", value))),
            }
        } else if is_key(&k, "open_on_new") {
            match parse_bool(&v) {
                Some(x) => self.open_on_new = x,
                None => return Some(Err(bad("boolean", value))),
            }
        } else {
            return None;
        }
        Some(Ok(()))
    }

    fn set_b(&mut self, k: &Vec<char>, value: &str) -> (r: Option<Result<(), String>>)
        ensures
            match set_top_b(old(self)@, k@, value@) {
                None => r is None && final(self)@ == old(self)@,
                Some(Ok(c)) => r == Some(Ok::<(), String>(())) && final(self)@ == c,
                Some(Err(m)) => r is Some && r->0 is Err && r->0->Err_0@ == m && final(self)@ == old(self)@,
            },
    {
        let v = chars_of(value);
        let owned = string_of(&v);
        if is_key(&k, "review_days") {
            match parse_u32_v(&v) {
                Some(x) => self.review_days = x,
                None => return Some(Err(bad("number", value))),
            }
        } else if is_key(&k, "review_quorum") {
            match parse_u32_v(&v) {
                Some(x) => self.review_quorum = x,
                None => return Some(Err(bad("number", value))),
            }
        } else if is_key(&k, "review_overdue_days") {
            match parse_u32_v(&v) {
                Some(x) => self.review_overdue_days = x,
                None => return Some(Err(bad("number", value))),
            }
        } else if is_key(&k, "tui_theme") {
            match MarkdownTheme::parse_str(value) {
                Some(x) => self.tui_theme = x,
                None => return Some(Err(bad("theme (default|gruvbox)", value))),
            }
        } else if is_key(&k, "date_source") {
            match DateSource::parse_str(value) {
                Some(x) => self.date_source = x,
                None => return Some(Err(bad("date source (auto|git|filesystem)", value))),
            }
        } else if is_key(&k, "naming") {
            match NamingScheme::parse_str(value) {
                Some(x) => self.naming = x,
                None => return Some(Err(bad("naming scheme (sequential|date|uuid|per_category)", value))),
            }
        } else if is_key(&k, "relink_scope") {
            match RelinkScope::parse_str(value) {
                Some(x) => self.relink_scope = x,
                None => return Some(Err(bad("relink scope (all|self|none)", value))),
            }
        } else {
            return None;
        }
        Some(Ok(()))
    }

    fn set_forge(&mut self, k: &Vec<char>, value: &str) -> (r: Option<Result<(), String>>)
        ensures
            match set_forge_key(old(self)@, k@, value@) {
                None => r is None && final(self)@ == old(self)@,
                Some(Ok(c)) => r == Some(Ok::<(), String>(())) && final(self)@ == c,
                Some(Err(m)) => r is Some && r->0 is Err && r->0->Err_0@ == m && final(self)@ == old(self)@,
            },
    {
        let v = chars_of(value);
        let owned = string_of(&v);
        if is_key(&k, "forge.provider") {
            match Provider::parse_str(value) {
                Some(x) => {
                    let mut f = self.take_forge();
                    f.provider = x;
                    self.forge = Some(f);
                },
                None => return Some(Err(bad("forge provider (none|github|gitlab)", value))),
            }
        } else if is_key(&k, "forge.repo") {
            let mut f = self.take_forge();
            f.repo = Some(owned);
            self.forge = Some(f);
        } else if is_key(&k, "forge.host") {
            let mut f = self.take_forge();
            f.host = Some(owned);
            self.forge = Some(f);
        } else if is_key(&k, "forge.branch_prefix") {
            let mut f = self.take_forge();
            f.branch_prefix = owned;
            self.forge = Some(f);
        } else if is_key(&k, "forge.base_branch") {
            let mut f = self.take_forge();
            f.base_branch = owned;
            self.forge = Some(f);
        } else if is_key(&k, "forge.tracker") {
            match TrackerProvider::parse_str(value) {
                Some(x) => {
                    let mut f = self.take_forge();
                    f.tracker = x;
                    self.forge = Some(f);
                },
                None => return Some(Err(bad("tracker (native|jira|linear|gh_issues|gl_issues)", value))),
            }
        } else if is_key(&k, "forge.tracker_project") {
            let mut f = self.take_forge();
            f.tracker_project = Some(owned);
            self.forge = Some(f);
        } else if is_key(&k, "forge.tracker_host") {
            let mut f = self.take_forge();
            f.tracker_host = Some(owned);
            self.forge = Some(f);

        } else {
            return None;
        }
        Some(Ok(()))
    }

    /// Set a config key from a string, validating the value. An unknown key
    /// or an invalid value is an error and leaves the config as it was.
    pub fn set_str(&mut self, key: &str, value: &str) -> (r: Result<(), String>)
        ensures
            match set_spec(old(self)@, key@, value@) {
                Ok(c) => r is Ok && final(self)@ == c,
                Err(m) => r is Err && r->Err_0@ == m && final(self)@ == old(self)@,
            },
    {
        let k = chars_of(key);
        if let Some(r) = self.set_a(&k, value) {
            return r;
        }
        if let Some(r) = self.set_b(&k, value) {
            return r;
        }
        if let Some(r) = self.set_forge(&k, value) {
            return r;
        }
        let mut m = chars_of("unknown config key `");
        append_str(&mut m, key);
        append_str(&mut m, "`");
        Err(string_of(&m))
    }

}

// ---------------------------------------------------------------------------
// Environment overrides and remotes
// ---------------------------------------------------------------------------

/// The environment variable that overrides a config key, if any.
pub open spec fn env_var_spec(key: Seq<char>) -> Option<Seq<char>> {
    if key == "dir"@ {
        Some("ADROIT_DIR"@)
    } else if key == "format"@ {
        Some("ADROIT_FORMAT"@)
    } else if key == "layout"@ {
        Some("ADROIT_LAYOUT"@)
    } else if key == "tui_theme"@ {
        Some("ADROIT_THEME"@)
    } else if key == "default_template"@ {
        Some("ADROIT_TEMPLATE"@)
    } else if key == "review_overdue_days"@ {
        Some("ADROIT_REVIEW_OVERDUE_DAYS"@)
    } else if key == "date_source"@ {
        Some("ADROIT_DATE_SOURCE"@)
    } else if key == "naming"@ {
        Some("ADROIT_NAMING"@)
    } else if key == "relink_scope"@ {
        Some("ADROIT_RELINK_SCOPE"@)
    } else {
        None
    }
}

/// The environment variable that overrides a config key, or `None` for
/// keys with no override.
pub fn env_var_for(key: &str) -> (r: Option<&'static str>)
    ensures
        match r {
            Some(v) => env_var_spec(key@) == Some(v@),
            None => env_var_spec(key@) is None,
        },
{
    let k = chars_of(key);
    if is_key(&k, "dir") {
        Some("ADROIT_DIR")
    } else if is_key(&k, "format") {
        Some("ADROIT_FORMAT")
    } else if is_key(&k, "layout") {
        Some("ADROIT_LAYOUT")
    } else if is_key(&k, "tui_theme") {
        Some("ADROIT_THEME")
    } else if is_key(&k, "default_template") {
        Some("ADROIT_TEMPLATE")
    } else if is_key(&k, "review_overdue_days") {
        Some("ADROIT_REVIEW_OVERDUE_DAYS")
    } else if is_key(&k, "date_source") {
        Some("ADROIT_DATE_SOURCE")
    } else if is_key(&k, "naming") {
        Some("ADROIT_NAMING")
    } else if is_key(&k, "relink_scope") {
        Some("ADROIT_RELINK_SCOPE")
    } else {
        None
    }
}

/// A remote URL cut into `(host, path)`: `git@host:path`, or
/// `scheme://[user@]host/path`.
pub open spec fn remote_parts(u: Seq<char>) -> Option<(Seq<char>, Seq<char>)> {
    match strip_prefix(u, "git@"@) {
        Some(rest) => split_once(rest, ":"@),
        None => {
            let rest0 = match split_once(u, "://"@) {
                Some(p) => p.1,
                None => u,
            };
            split_once(after_last(rest0, "@"@), "/"@)
        },
    }
}

/// What a git remote URL says: `(provider, repo path, host)`, the host only
/// for a self-managed GitLab; `None` for an unrecognized host or no path.
pub open spec fn remote_spec(url: Seq<char>) -> Option<(Provider, Seq<char>, Option<Seq<char>>)> {
    match remote_parts(trim(url)) {
        None => None,
        Some(p) => {
            let host = p.0;
            let repo = trim_end_str(trim_end_char(p.1, '/'), ".git"@);
            if repo.len() == 0 {
                None
            } else if host == "github.com"@ {
                Some((Provider::Github, repo, None))
            } else if host == "gitlab.com"@ {
                Some((Provider::Gitlab, repo, None))
            } else if contains(host, "gitlab"@) {
                Some((Provider::Gitlab, repo, Some(host)))
            } else {
                None
            }
        },
    }
}

pub open spec fn remote_view(r: Option<(Provider, String, Option<String>)>) -> Option<(Provider, Seq<char>, Option<Seq<char>>)> {
    match r {
        Some(t) => Some((t.0, t.1@, ostr(t.2))),
        None => None,
    }
}

/// Parse a git remote URL into `(provider, "owner/repo", host)`. Handles
/// `git@host:path.git`, `https://host/path.git` and `ssh://git@host/path`.
pub fn parse_remote_url(url: &str) -> (r: Option<(Provider, String, Option<String>)>)
    ensures
        remote_view(r) == remote_spec(url@),
{
    let u = trim_v(&chars_of(url));
    let parts = match strip_prefix_str(&u, "git@") {
        Some(rest) => split_once_str(&rest, ":"),
        None => {
            let rest0 = match split_once_str(&u, "://") {
                Some((_, r)) => r,
                None => u,
            };
            split_once_str(&after_last_str(&rest0, "@"), "/")
        },
    };
    let (host, path) = match parts {
        Some(p) => p,
        None => return None,
    };
    let repo = trim_end_str_v(&trim_end_char_v(&path, '/'), ".git");
    if repo.len() == 0 {
        return None;
    }
    let repo_s = string_of(&repo);
    if is_key(&host, "github.com") {
        Some((Provider::Github, repo_s, None))
    } else if is_key(&host, "gitlab.com") {
        Some((Provider::Gitlab, repo_s, None))
    } else if contains_str(&host, "gitlab") {
        Some((Provider::Gitlab, repo_s, Some(string_of(&host))))
    } else {
        None
    }
}

// ---------------------------------------------------------------------------
// Resolving the ADR directory
// ---------------------------------------------------------------------------

/// `shellexpand::full`: `~` and `$VAR` expansion, the input itself when
/// expansion fails. Without a `$`, a path that does not start with `~`
/// comes back unchanged, and one that starts with `~/` keeps what follows
/// the `~`; what else comes back depends on the environment and is not
/// stated.
#[verifier::external_body]
fn expand_path(raw: &str) -> (r: String)
    ensures
        !contains(raw@, "$"@) && !starts_with(raw@, "~"@) ==> r@ == raw@,
        !contains(raw@, "$"@) && starts_with(raw@, "~/"@) ==> ends_with(r@, raw@.skip(1)),
{
    match shellexpand::full(raw) {
        Ok(s) => s.into_owned(),
        Err(_) => raw.to_string(),
    }
}

/// `directories::ProjectDirs::from("", "", "adroit")` and its `data_dir`,
/// lossily as a string; `None` when no home directory is known. Which
/// directory it is depends on the platform and the environment and is not
/// stated.
#[verifier::external_body]
fn project_data_dir() -> (r: Option<String>) {
    directories::ProjectDirs::from("", "", "adroit").map(|p| p.data_dir().to_string_lossy().into_owned())
}

/// The default ADR data directory: the platform's data directory for the
/// application, else `.adroit`.
pub fn default_dir() -> (r: String) {
    match project_data_dir() {
        Some(d) => d,
        None => string_of(&chars_of(".adroit")),
    }
}

/// `PathBuf::push` on POSIX paths: an absolute `b` replaces `a`; otherwise
/// `b` is appended with a `/` unless `a` is empty or already ends in one.
pub open spec fn join_path(a: Seq<char>, b: Seq<char>) -> Seq<char> {
    if starts_with(b, "/"@) {
        b
    } else if a.len() == 0 || ends_with(a, "/"@) {
        a + b
    } else {
        a + "/"@ + b
    }
}

pub fn join_path_v(a: &str, b: &str) -> (r: String)
    ensures
        r@ == join_path(a@, b@),
{
    let av = chars_of(a);
    let bv = chars_of(b);
    proof {
        reveal_strlit("/");
    }
    if starts_with_str(&bv, "/") {
        return string_of(&bv);
    }
    let mut r = av;
    if !(r.len() == 0 || ends_with_str(&r, "/")) {
        r.push('/');
    }
    append_all(&mut r, &bv);
    assert(r@ =~= join_path(a@, b@));
    string_of(&r)
}

/// The ADR directory from already-expanded inputs: the CLI path; else the
/// configured path, absolute as it is or relative to the data directory;
/// else the data directory.
pub open spec fn resolve_dir_spec(cli: Option<Seq<char>>, configured: Option<Seq<char>>, data: Seq<char>) -> Seq<char> {
    match cli {
        Some(c) => c,
        None => match configured {
            Some(e) => if starts_with(e, "/"@) {
                e
            } else {
                join_path(data, e)
            },
            None => data,
        },
    }
}

pub fn resolve_dir_with(cli: Option<String>, configured: Option<String>, data: String) -> (r: String)
    ensures
        r@ == resolve_dir_spec(ostr(cli), ostr(configured), data@),
{
    proof {
        reveal_strlit("/");
    }
    match cli {
        Some(c) => c,
        None => match configured {
            Some(e) => if starts_with_str(&chars_of(e.as_str()), "/") {
                e
            } else {
                join_path_v(data.as_str(), e.as_str())
            },
            None => data,
        },
    }
}

/// Resolve the ADR directory: CLI path > configured path > data directory.
/// CLI and configured paths are `~`/`$VAR` expanded; a relative configured
/// path resolves against the data directory.
pub fn resolve_dir(cli_dir: Option<&str>, config: &Config) -> (r: String)
    ensures
        exists|c: Option<Seq<char>>, e: Option<Seq<char>>, d: Seq<char>|
            #![trigger resolve_dir_spec(c, e, d)]
            r@ == resolve_dir_spec(c, e, d) && (c is Some <==> cli_dir is Some) && (e is Some <==> config.dir is Some),
        cli_dir is Some && !contains(cli_dir->0@, "$"@) && !starts_with(cli_dir->0@, "~"@) ==> r@ == cli_dir->0@,
        cli_dir is None && config@.dir is Some && !contains(config@.dir->0, "$"@) && starts_with(config@.dir->0, "/"@)
            ==> r@ == config@.dir->0,
{
    let cli = match cli_dir {
        Some(p) => Some(expand_path(p)),
        None => None,
    };
    let configured = match &config.dir {
        Some(p) => Some(expand_path(p.as_str())),
        None => None,
    };
    let data = default_dir();
    proof {
        reveal_strlit("/");
        reveal_strlit("~");
        if let Some(p) = config@.dir {
            if starts_with(p, "/"@) {
                assert("/"@ =~= seq!['/']);
                assert("~"@ =~= seq!['~']);
                assert(p.take(1)[0] == p[0]);
                assert(!starts_with(p, "~"@));
            }
        }
    }
    let r = resolve_dir_with(cli, configured, data);
    proof {
        assert(resolve_dir_spec(ostr(cli), ostr(configured), data@) == r@);
    }
    r
}


// ---------------------------------------------------------------------------
// Laws
// ---------------------------------------------------------------------------

/// Sequences of different lengths differ, ignoring case.
proof fn lemma_ic_len(a: Seq<char>, b: Seq<char>)
    requires
        a.len() != b.len(),
    ensures
        !eq_ignore_ascii_case(a, b),
{
    assert(ascii_lower_seq(a).len() == a.len());
    assert(ascii_lower_seq(b).len() == b.len());
}

/// Sequences that differ at a position, ignoring case, differ.
proof fn lemma_ic_at(a: Seq<char>, b: Seq<char>, i: int)
    requires
        0 <= i < a.len(),
        i < b.len(),
        ascii_lower(a[i]) != ascii_lower(b[i]),
    ensures
        !eq_ignore_ascii_case(a, b),
{
    assert(ascii_lower_seq(a)[i] == ascii_lower(a[i]));
    assert(ascii_lower_seq(b)[i] == ascii_lower(b[i]));
}

/// Each enum's name selects it again.
proof fn lemma_names_round_trip(
    f: Format,
    l: Layout,
    st: Status,
    t: MarkdownTheme,
    d: DateSource,
    n: NamingScheme,
    r: RelinkScope,
    p: Provider,
    k: TrackerProvider,
)
    ensures
        format_named(format_name(f)) == Some(f),
        layout_named(layout_name(l)) == Some(l),
        status_named(status_name(st)) == Some(st),
        theme_named(theme_name(t)) == Some(t),
        date_source_named(date_source_name(d)) == Some(d),
        naming_named(naming_name(n)) == Some(n),
        relink_scope_named(relink_scope_name(r)) == Some(r),
        provider_named(provider_name(p)) == Some(p),
        tracker_named(tracker_name(k)) == Some(k),
{
    reveal_strlit("markdown");
    reveal_strlit("frontmatter");
    if f == Format::Frontmatter {
        lemma_ic_len("frontmatter"@, "markdown"@);
    }
    reveal_strlit("by_status");
    reveal_strlit("by_category");
    reveal_strlit("flat");
    if l != Layout::ByStatus {
        lemma_ic_len(layout_name(l), "by_status"@);
    }
    if l == Layout::Flat {
        lemma_ic_len("flat"@, "by_category"@);
    }
    reveal_strlit("Proposed");
    reveal_strlit("Accepted");
    reveal_strlit("Rejected");
    reveal_strlit("Deprecated");
    reveal_strlit("Superseded");
    reveal_strlit("proposed");
    reveal_strlit("accepted");
    reveal_strlit("rejected");
    reveal_strlit("deprecated");
    reveal_strlit("superseded");
    let sn = status_name(st);
    assert(ascii_lower('P') == 'p');
    assert(ascii_lower('A') == 'a');
    assert(ascii_lower('R') == 'r');
    assert(ascii_lower('D') == 'd');
    assert(ascii_lower('S') == 's');
    if st != Status::Proposed {
        lemma_ic_at(sn, "proposed"@, 0);
    }
    if st != Status::Proposed && st != Status::Accepted {
        lemma_ic_at(sn, "accepted"@, 0);
    }
    if st == Status::Deprecated || st == Status::Superseded {
        lemma_ic_len(sn, "rejected"@);
    }
    if st == Status::Superseded {
        lemma_ic_at(sn, "deprecated"@, 0);
    }
    assert(ascii_lower_seq(sn) =~= ascii_lower_seq(match st {
        Status::Proposed => "proposed"@,
        Status::Accepted => "accepted"@,
        Status::Rejected => "rejected"@,
        Status::Deprecated => "deprecated"@,
        Status::Superseded => "superseded"@,
    }));
    reveal_strlit("default");
    reveal_strlit("gruvbox");
    if t == MarkdownTheme::Gruvbox {
        lemma_ic_at("gruvbox"@, "default"@, 0);
    }
    reveal_strlit("auto");
    reveal_strlit("git");
    reveal_strlit("filesystem");
    if d != DateSource::Auto {
        lemma_ic_len(date_source_name(d), "auto"@);
    }
    if d == DateSource::Filesystem {
        lemma_ic_len("filesystem"@, "git"@);
    }
    reveal_strlit("sequential");
    reveal_strlit("date");
    reveal_strlit("uuid");
    reveal_strlit("per_category");
    if n != NamingScheme::Sequential {
        lemma_ic_len(naming_name(n), "sequential"@);
    }
    if n == NamingScheme::Uuid {
        lemma_ic_at("uuid"@, "date"@, 0);
    }
    if n == NamingScheme::PerCategory {
        lemma_ic_len("per_category"@, "date"@);
        lemma_ic_len("per_category"@, "uuid"@);
    }
    reveal_strlit("all");
    reveal_strlit("self");
    reveal_strlit("none");
    if r != RelinkScope::All {
        lemma_ic_len(relink_scope_name(r), "all"@);
    }
    if r == RelinkScope::MoveOnly {
        lemma_ic_at("none"@, "self"@, 0);
    }
    reveal_strlit("github");
    reveal_strlit("gitlab");
    if p != Provider::Off {
        lemma_ic_len(provider_name(p), "none"@);
    }
    if p == Provider::Gitlab {
        lemma_ic_at("gitlab"@, "github"@, 4);
    }
    reveal_strlit("native");
    reveal_strlit("jira");
    reveal_strlit("linear");
    reveal_strlit("gh_issues");
    reveal_strlit("gl_issues");
    let kn = tracker_name(k);
    if k != TrackerProvider::Native {
        lemma_ic_at(kn, "native"@, 0);
    }
    if k != TrackerProvider::Native && k != TrackerProvider::Jira {
        lemma_ic_at(kn, "jira"@, 0);
    }
    if k == TrackerProvider::GhIssues || k == TrackerProvider::GlIssues {
        lemma_ic_len(kn, "linear"@);
    }
    if k == TrackerProvider::GlIssues {
        lemma_ic_at(kn, "gh_issues"@, 1);
    }
}

/// `true` and `false` read back as themselves.
proof fn lemma_bool_round_trip(b: bool)
    ensures
        bool_named(bool_name(b)) == Some(b),
{
    reveal_strlit("true");
    reveal_strlit("false");
    assert("false"@.len() != "true"@.len());
}

/// What `config get` prints for a key, `config set` accepts and takes the
/// configuration nowhere: after a successful set, setting the key to what
/// get then reads changes nothing.
pub proof fn law_config_get_after_set_round_trips(c: ConfigV, key: Seq<char>, value: Seq<char>)
    requires
        set_spec(c, key, value) is Ok,
    ensures
        ({
            let c2 = set_spec(c, key, value)->Ok_0;
            get_spec(c2, key) matches Some(g) && set_spec(c2, key, g) == Ok::<ConfigV, Seq<char>>(c2)
        }),
{
    let c2 = set_spec(c, key, value)->Ok_0;
    if key == "dir"@ || key == "editor"@ || key == "format"@ || key == "layout"@ || key == "default_template"@
        || key == "default_status"@ || key == "open_on_new"@ {
        lemma_round_trip_documents(c, key, value);
    } else if key == "review_days"@ || key == "review_quorum"@ || key == "review_overdue_days"@ {
        crate::text::lemma_parse_dec(c2.review_days);
        crate::text::lemma_parse_dec(c2.review_quorum);
        crate::text::lemma_parse_dec(c2.review_overdue_days);
    } else if key == "tui_theme"@ || key == "date_source"@ || key == "naming"@ || key == "relink_scope"@ {
        let f2 = forge_base(c2);
        lemma_names_round_trip(c2.format, c2.layout, c2.default_status, c2.tui_theme, c2.date_source, c2.naming, c2.relink_scope, f2.provider, f2.tracker);
    } else {
        lemma_round_trip_forge(c, key, value);
    }
}

/// The law on the document keys.
proof fn lemma_round_trip_documents(c: ConfigV, key: Seq<char>, value: Seq<char>)
    requires
        set_spec(c, key, value) is Ok,
        key == "dir"@ || key == "editor"@ || key == "format"@ || key == "layout"@ || key == "default_template"@
            || key == "default_status"@ || key == "open_on_new"@,
    ensures
        ({
            let c2 = set_spec(c, key, value)->Ok_0;
            get_spec(c2, key) matches Some(g) && set_spec(c2, key, g) == Ok::<ConfigV, Seq<char>>(c2)
        }),
{
    let c2 = set_spec(c, key, value)->Ok_0;
    let f2 = forge_base(c2);
    lemma_names_round_trip(c2.format, c2.layout, c2.default_status, c2.tui_theme, c2.date_source, c2.naming, c2.relink_scope, f2.provider, f2.tracker);
    lemma_bool_round_trip(c2.open_on_new);
}

/// The law on the forge keys: setting one creates the forge block, which a
/// second set keeps.
proof fn lemma_round_trip_forge(c: ConfigV, key: Seq<char>, value: Seq<char>)
    requires
        set_spec(c, key, value) is Ok,
        !(key == "dir"@ || key == "editor"@ || key == "format"@ || key == "layout"@ || key == "default_template"@
            || key == "default_status"@ || key == "open_on_new"@),
        !(key == "review_days"@ || key == "review_quorum"@ || key == "review_overdue_days"@),
        !(key == "tui_theme"@ || key == "date_source"@ || key == "naming"@ || key == "relink_scope"@),
    ensures
        ({
            let c2 = set_spec(c, key, value)->Ok_0;
            get_spec(c2, key) matches Some(g) && set_spec(c2, key, g) == Ok::<ConfigV, Seq<char>>(c2)
        }),
{
    let c2 = set_spec(c, key, value)->Ok_0;
    let f2 = forge_base(c2);
    assert(c2.forge is Some);
    assert(with_forge(c2, f2) == c2);
    lemma_names_round_trip(c2.format, c2.layout, c2.default_status, c2.tui_theme, c2.date_source, c2.naming, c2.relink_scope, f2.provider, f2.tracker);
}


// ---------------------------------------------------------------------------
// `.env` files
// ---------------------------------------------------------------------------

/// The first line at or after `i` that, leading whitespace aside, sets `key`
/// (`KEY=...`); `-1` when there is none.
pub open spec fn env_slot(ls: Seq<Seq<char>>, key: Seq<char>, i: int) -> int
    decreases ls.len() - i,
{
    if i < 0 || i >= ls.len() {
        -1
    } else if starts_with(crate::text::trim_start(ls[i]), key + "="@) {
        i
    } else {
        env_slot(ls, key, i + 1)
    }
}

/// A `.env` text with `KEY=value` upserted: the first active `KEY=` line is
/// replaced, or the line is appended; every other line is kept, and the
/// result ends with a newline.
pub open spec fn upsert_env_spec(existing: Seq<char>, key: Seq<char>, value: Seq<char>) -> Seq<char> {
    let ls = crate::text::lines(existing);
    let line = key + "="@ + value;
    let k = env_slot(ls, key, 0);
    let out = if k >= 0 {
        ls.update(k, line)
    } else {
        ls.push(line)
    };
    crate::text::join(out, "\n"@) + "\n"@
}

proof fn lemma_env_slot_bounds(ls: Seq<Seq<char>>, key: Seq<char>, i: int)
    requires
        0 <= i,
    ensures
        env_slot(ls, key, i) == -1 || (i <= env_slot(ls, key, i) < ls.len()),
    decreases ls.len() - i,
{
    if i < ls.len() && !starts_with(crate::text::trim_start(ls[i]), key + "="@) {
        lemma_env_slot_bounds(ls, key, i + 1);
    }
}

/// Upsert `KEY=value` into the text of a `.env`-style file: replace the first
/// active (uncommented) `KEY=` line, else append; other lines, comments
/// among them, are kept.
pub fn upsert_env_text(existing: &str, key: &str, value: &str) -> (r: String)
    ensures
        r@ == upsert_env_spec(existing@, key@, value@),
{
    proof {
        reveal_strlit("=");
        reveal_strlit("\n");
    }
    let mut ls = crate::text::lines_v(&chars_of(existing));
    let ghost lv = crate::text::views(ls@);
    let mut prefix = chars_of(key);
    append_str(&mut prefix, "=");
    let mut line = chars_of(key);
    append_str(&mut line, "=");
    append_str(&mut line, value);
    let mut i: usize = 0;
    let mut slot: Option<usize> = None;
    while i < ls.len()
        invariant_except_break
            slot is None,
        invariant
            i <= ls.len(),
            lv == crate::text::views(ls@),
            lv == crate::text::lines(existing@),
            prefix@ == key@ + "="@,
            env_slot(lv, key@, 0) == env_slot(lv, key@, i as int),
        ensures
            match slot {
                Some(k) => k < ls.len() && env_slot(lv, key@, 0) == k,
                None => env_slot(lv, key@, 0) == -1,
            },
        decreases ls.len() - i,
    {
        let t = crate::text::trim_start_v(&ls[i]);
        if crate::text::starts_with_v(&t, &prefix) {
            slot = Some(i);
            break;
        }
        i = i + 1;
    }
    proof {
        lemma_env_slot_bounds(lv, key@, 0);
    }
    match slot {
        Some(k) => {
            ls.set(k, line);
            assert(crate::text::views(ls@) =~= lv.update(k as int, key@ + "="@ + value@));
        },
        None => {
            ls.push(line);
            assert(crate::text::views(ls@) =~= lv.push(key@ + "="@ + value@));
        },
    }
    let mut out = crate::text::join_str(&ls, "\n");
    append_str(&mut out, "\n");
    string_of(&out)
}

} // verus!
