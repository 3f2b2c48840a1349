//! The values the desktop commands exchange with the interface.
//!
//! These are the plain shapes; the interface layer gives them their wire
//! format.
use vstd::prelude::*;
use crate::model::node::NodeId;
use crate::text::{eq_ic, eq_ignore_ascii_case};

verus! {

pub type TabId = u64;

pub type ChangeSetId = u64;

/// One open document as the tab bar shows it.
#[derive(Debug)]
pub struct TabInfo {
    pub id: TabId,
    pub title: String,
    pub path: Option<String>,
    pub dirty: bool,
    pub stats: DocStats,
}

/// Counts of a document's nodes by kind.
#[derive(Debug, Clone, Copy)]
pub struct DocStats {
    pub bookmark_count: u64,
    pub folder_count: u64,
    pub separator_count: u64,
}

/// The whole folder tree.
#[derive(Debug)]
pub struct TreeView {
    pub root: TreeNode,
}

/// A folder and its sub-folders.
#[derive(Debug)]
pub struct TreeNode {
    pub id: NodeId,
    pub name: String,
    pub children: Vec<TreeNode>,
}

/// A folder whose sub-folders are loaded on demand.
#[derive(Debug)]
pub struct TreeNodeLazy {
    pub id: NodeId,
    pub name: String,
    pub has_children: bool,
}

/// One page of a folder's items.
#[derive(Debug)]
pub struct ItemPage {
    pub items: Vec<FolderItem>,
    pub total: usize,
}

/// One row of the item list.
#[derive(Debug, Clone)]
pub struct FolderItem {
    pub id: NodeId,
    pub kind: ItemKind,
    pub title: String,
    pub url: Option<String>,
    /// The URL's host with a leading `www.` removed.
    pub domain: Option<String>,
    /// Unix seconds.
    pub add_date: Option<i64>,
    /// Unix seconds.
    pub last_modified: Option<i64>,
}

/// What a listed item shows.
pub struct FolderItemV {
    pub id: NodeId,
    pub kind: ItemKind,
    pub title: Seq<char>,
    pub url: Option<Seq<char>>,
    pub domain: Option<Seq<char>>,
    pub add_date: Option<i64>,
    pub last_modified: Option<i64>,
}

impl View for FolderItem {
    type V = FolderItemV;

    open spec fn view(&self) -> FolderItemV {
        FolderItemV {
            id: self.id,
            kind: self.kind,
            title: self.title@,
            url: crate::urls::opt_view(self.url),
            domain: crate::urls::opt_view(self.domain),
            add_date: self.add_date,
            last_modified: self.last_modified,
        }
    }
}

/// The kind of a listed item.
#[derive(Debug, Clone, Copy, PartialEq, Eq, Structural)]
pub enum ItemKind {
    Bookmark,
    Folder,
    Separator,
}

/// How to sort a list.
#[derive(Debug, Clone, Copy)]
pub struct SortSpec {
    pub column: SortColumn,
    pub descending: bool,
}

/// The column a list is sorted by.
#[derive(Debug, Clone, Copy, PartialEq, Eq, Structural)]
pub enum SortColumn {
    Title,
    Url,
    Domain,
    AddDate,
    LastModified,
}

/// How a search query is read.
#[derive(Debug, Clone, Copy, PartialEq, Eq, Structural)]
pub enum SearchMode {
    Substring,
    Glob,
    Regex,
}

impl Default for SearchMode {
    fn default() -> (r: Self)
        ensures
            r == SearchMode::Substring,
    {
        SearchMode::Substring
    }
}

/// A search request.
#[derive(Debug)]
pub struct SearchSpec {
    pub query: String,
    pub search_titles: bool,
    pub search_urls: bool,
    pub mode: SearchMode,
    pub filter: FilterSpec,
}

/// Structured filter shared by list browsing and search.  Every axis is
/// optional; an allowlist axis that is present but empty is inactive.
#[derive(Debug)]
pub struct FilterSpec {
    pub kinds: Option<Vec<ItemKind>>,
    pub date_range: Option<DateRange>,
    pub domains: Option<Vec<String>>,
    pub tlds: Option<Vec<String>>,
    pub schemes: Option<Vec<String>>,
    pub depth: Option<DepthFilter>,
}

impl Default for FilterSpec {
    fn default() -> (r: Self)
        ensures
            r.kinds is None,
            r.date_range is None,
            r.domains is None,
            r.tlds is None,
            r.schemes is None,
            r.depth is None,
    {
        FilterSpec { kinds: None, date_range: None, domains: None, tlds: None, schemes: None, depth: None }
    }
}

/// Inclusive bounds on a bookmark's add date (Unix seconds).
#[derive(Debug, Clone, Copy)]
pub struct DateRange {
    pub since: Option<i64>,
    pub until: Option<i64>,
}

impl Default for DateRange {
    fn default() -> (r: Self)
        ensures
            r.since is None,
            r.until is None,
    {
        DateRange { since: None, until: None }
    }
}

/// Inclusive bounds on an item's depth below the document root.
#[derive(Debug, Clone, Copy)]
pub struct DepthFilter {
    pub min: Option<u32>,
    pub max: Option<u32>,
}

impl Default for DepthFilter {
    fn default() -> (r: Self)
        ensures
            r.min is None,
            r.max is None,
    {
        DepthFilter { min: None, max: None }
    }
}

/// The items a search found.
#[derive(Debug)]
pub struct SearchResults {
    pub items: Vec<FolderItem>,
    pub total: usize,
}

/// Files a previous session left open.
#[derive(Debug)]
pub struct RecoveryState {
    pub paths: Vec<String>,
}

/// What restoring a previous session did.
#[derive(Debug)]
pub struct RecoveryRestoreReport {
    pub restored_tab_ids: Vec<TabId>,
    pub restored_paths: Vec<String>,
    pub failed_paths: Vec<String>,
}

/// One run of a character diff as the preview shows it.
#[derive(Debug, Clone)]
pub struct DiffSpan {
    pub tag: DiffTag,
    pub text: String,
}

/// Tag of a run of a character diff.
#[derive(Debug, Clone, Copy, PartialEq, Eq, Structural)]
pub enum DiffTag {
    Equal,
    Removed,
    Added,
}

/// The preview's tag for a diff tag.
pub open spec fn preview_tag(tag: crate::sanitize::diff::DiffTag) -> DiffTag {
    match tag {
        crate::sanitize::diff::DiffTag::Equal => DiffTag::Equal,
        crate::sanitize::diff::DiffTag::Removed => DiffTag::Removed,
        crate::sanitize::diff::DiffTag::Added => DiffTag::Added,
    }
}

impl From<crate::sanitize::diff::DiffTag> for DiffTag {
    fn from(tag: crate::sanitize::diff::DiffTag) -> (r: Self) {
        match tag {
            crate::sanitize::diff::DiffTag::Equal => DiffTag::Equal,
            crate::sanitize::diff::DiffTag::Removed => DiffTag::Removed,
            crate::sanitize::diff::DiffTag::Added => DiffTag::Added,
        }
    }
}

impl vstd::std_specs::convert::FromSpecImpl<crate::sanitize::diff::DiffTag> for DiffTag {
    open spec fn obeys_from_spec() -> bool {
        true
    }

    open spec fn from_spec(tag: crate::sanitize::diff::DiffTag) -> DiffTag {
        preview_tag(tag)
    }
}

impl From<crate::sanitize::diff::DiffSpan> for DiffSpan {
    fn from(span: crate::sanitize::diff::DiffSpan) -> (r: Self) {
        DiffSpan { tag: DiffTag::from(span.tag), text: span.text }
    }
}

impl vstd::std_specs::convert::FromSpecImpl<crate::sanitize::diff::DiffSpan> for DiffSpan {
    open spec fn obeys_from_spec() -> bool {
        true
    }

    open spec fn from_spec(span: crate::sanitize::diff::DiffSpan) -> DiffSpan {
        DiffSpan { tag: preview_tag(span.tag), text: span.text }
    }
}

/// One proposed change as the preview shows it.
#[derive(Debug)]
pub struct ChangeEntry {
    pub index: usize,
    pub node_id: NodeId,
    pub field: String,
    pub before: String,
    pub after: String,
    pub before_spans: Vec<DiffSpan>,
    pub after_spans: Vec<DiffSpan>,
    pub treatment_id: String,
    pub rationale: String,
    pub destructive: bool,
    pub approved: bool,
    pub node_title: String,
    pub node_url: Option<String>,
    /// Names of the folders from the root down to the node's parent.
    pub location: Vec<String>,
}

/// A pending change set awaiting approval.
#[derive(Debug)]
pub struct ChangeSetPreview {
    pub changeset_id: ChangeSetId,
    pub rule_set_name: String,
    pub changes: Vec<ChangeEntry>,
}

/// What applying a change set did.
#[derive(Debug, Clone, Copy)]
pub struct ApplyReport {
    pub applied_count: usize,
    pub skipped_count: usize,
}

/// The user's settings.
#[derive(Debug, Clone)]
pub struct AppSettings {
    pub theme: ThemeSetting,
    pub dead_link_checker_opt_in: bool,
    pub recent_files_max: u32,
    pub crash_recovery_enabled: bool,
    pub list_density: ListDensitySetting,
    pub settings_path: String,
    pub rules_dir: String,
}

/// Row spacing of the item list.
#[derive(Debug, Clone, Copy, PartialEq, Eq, Structural)]
pub enum ListDensitySetting {
    Compact,
    Comfortable,
}

/// Colour theme.
#[derive(Debug, Clone, Copy, PartialEq, Eq, Structural)]
pub enum ThemeSetting {
    System,
    Light,
    Dark,
}

/// A rule set as the picker lists it.
#[derive(Debug, Clone)]
pub struct RuleSetSummary {
    pub name: String,
    pub treatment_count: u32,
    pub is_builtin: bool,
    pub path: String,
}

/// A treatment as the picker lists it.
#[derive(Debug, Clone)]
pub struct TreatmentInfo {
    pub id: String,
    pub name: String,
    pub category: String,
    pub destructive: bool,
}

/// What an export writes.
#[derive(Debug, Clone, Copy, PartialEq, Eq, Structural)]
pub enum ExportScope {
    WholeDocument,
    Subtree { root_id: NodeId },
}

/// What an export wrote.
#[derive(Debug)]
pub struct ExportReport {
    pub path: String,
    pub bytes_written: usize,
}

/// The outcome of checking one link.
#[derive(Debug, Clone)]
pub struct LinkCheckEntry {
    pub node_id: NodeId,
    pub url: String,
    pub title: String,
    pub status: LinkStatusView,
    pub elapsed_ms: u64,
}

/// How a link answered.
#[derive(Debug, Clone)]
pub enum LinkStatusView {
    Okay { code: u16 },
    Redirect { code: u16 },
    ClientError { code: u16 },
    ServerError { code: u16 },
    Timeout,
    NetworkError { detail: String },
    Skipped { reason: SkipReasonView },
}

/// Why a link was not probed.
#[derive(Debug, Clone, Copy, PartialEq, Eq, Structural)]
pub enum SkipReasonView {
    InvalidUrl,
    UnsupportedScheme,
    Empty,
}

/// The outcome of checking every link of a document.
#[derive(Debug, Clone)]
pub struct LinkCheckReport {
    pub entries: Vec<LinkCheckEntry>,
    pub total_bookmarks: usize,
    pub probed: usize,
}

/// A bookmark as a document comparison shows it.
#[derive(Debug, Clone)]
pub struct BookmarkSnapshotView {
    pub url: String,
    pub title: String,
}

/// A bookmark whose title differs between two documents.
#[derive(Debug, Clone)]
pub struct ModifiedBookmarkView {
    pub before: BookmarkSnapshotView,
    pub after: BookmarkSnapshotView,
}

/// The comparison of two documents.
#[derive(Debug, Clone)]
pub struct DocDiffReport {
    pub left_title: String,
    pub right_title: String,
    pub added: Vec<BookmarkSnapshotView>,
    pub removed: Vec<BookmarkSnapshotView>,
    pub modified: Vec<ModifiedBookmarkView>,
}

/// One subtree picked for a merge.
#[derive(Debug, Clone, Copy)]
pub struct MergePickRequest {
    pub source_tab_id: TabId,
    pub root_node_id: NodeId,
}

/// How a merge resolves bookmarks with the same URL.
#[derive(Debug, Clone, Copy, PartialEq, Eq, Structural)]
pub enum ConflictStrategyView {
    KeepFirst,
    KeepNewest,
    KeepBoth,
}

/// One keyboard shortcut.
#[derive(Debug)]
pub struct ShortcutBinding {
    pub action_id: String,
    pub label: String,
    pub key_combo: String,
    pub category: String,
}

/// One line of the log viewer.
#[derive(Debug)]
pub struct LogEntry {
    pub timestamp: String,
    pub level: LogLevel,
    pub message: String,
}

/// Severity of a log line.
#[derive(Debug, Clone, Copy, PartialEq, Eq, Structural)]
pub enum LogLevel {
    Info,
    Warn,
    Error,
}

/// What the about box shows.
#[derive(Debug)]
pub struct BuildInfo {
    pub version: String,
    pub build_flavor: String,
    pub rust_version: String,
    pub git_commit: Option<String>,
    pub license: String,
    pub adr_index_path: String,
    pub signed: bool,
}

} // verus!

verus! {

impl LogLevel {
    /// The level a log line's level token names: `WARN` or `WARNING` give
    /// `Warn`, `ERROR` or `ERR` give `Error` (ASCII case ignored), anything
    /// else `Info`.
    pub fn from_token(s: &str) -> (r: Self)
        ensures
            r == (if eq_ic(s@, "WARN"@) || eq_ic(s@, "WARNING"@) {
                LogLevel::Warn
            } else if eq_ic(s@, "ERROR"@) || eq_ic(s@, "ERR"@) {
                LogLevel::Error
            } else {
                LogLevel::Info
            }),
    {
        if eq_ignore_ascii_case(s, "WARN") || eq_ignore_ascii_case(s, "WARNING") {
            LogLevel::Warn
        } else if eq_ignore_ascii_case(s, "ERROR") || eq_ignore_ascii_case(s, "ERR") {
            LogLevel::Error
        } else {
            LogLevel::Info
        }
    }
}

} // verus!
