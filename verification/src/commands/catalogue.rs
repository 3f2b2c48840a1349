//! The fixed catalogues the interface lists: the built-in treatments and
//! the keyboard shortcuts.
use vstd::prelude::*;
use crate::commands::types::{ShortcutBinding, TreatmentInfo};
use crate::sanitize::pass::BuiltinTreatment;
use crate::sanitize::treatment::TreatmentCategory;
use crate::sanitize::treatments::cross::EmptyFoldersTreatment;
use crate::sanitize::treatments::duplicates::{ExactUrlDuplicatesTreatment, NearUrlDuplicatesTreatment};
use crate::sanitize::treatments::folder_name::{FolderHtmlEntitiesTreatment, FolderWhitespaceTreatment, RegexFolderTreatment};
use crate::sanitize::treatments::title::{
    AuthorSuffixTreatment, EmailTreatment, HandleTreatment, HtmlEntitiesTreatment, RegexTitleTreatment, WhitespaceTreatment,
};
use crate::sanitize::treatments::url_misc::{
    DemobilizeTreatment, FragmentTrackingTreatment, HttpsUpgradeTreatment, StripFragmentTreatment,
    UnshortenOfflineTreatment, UserSegmentTreatment,
};
use crate::sanitize::treatments::url_qp::{
    AffiliateTreatment, ClickIdsTreatment, CustomQpTreatment, SearchTokensTreatment, SessionTreatment, UtmTreatment,
};

verus! {

/// The stable text of a treatment category.
pub open spec fn category_id_v(c: TreatmentCategory) -> Seq<char> {
    match c {
        TreatmentCategory::UrlQueryParam => "url_query_param"@,
        TreatmentCategory::UrlPath => "url_path"@,
        TreatmentCategory::UrlFragment => "url_fragment"@,
        TreatmentCategory::UrlHost => "url_host"@,
        TreatmentCategory::Title => "title"@,
        TreatmentCategory::FolderName => "folder_name"@,
        TreatmentCategory::CrossField => "cross_field"@,
    }
}

pub fn category_id(c: TreatmentCategory) -> (r: &'static str)
    ensures
        r@ == category_id_v(c),
{
    match c {
        TreatmentCategory::UrlQueryParam => "url_query_param",
        TreatmentCategory::UrlPath => "url_path",
        TreatmentCategory::UrlFragment => "url_fragment",
        TreatmentCategory::UrlHost => "url_host",
        TreatmentCategory::Title => "title",
        TreatmentCategory::FolderName => "folder_name",
        TreatmentCategory::CrossField => "cross_field",
    }
}

/// The picker's entries: id, name, category and whether destructive.
pub open spec fn catalogue_v() -> Seq<(Seq<char>, Seq<char>, Seq<char>, bool)> {
    seq![
        ("url.qp.utm"@, "Strip UTM params"@, "url_query_param"@, false),
        ("url.qp.click_ids"@, "Strip click IDs"@, "url_query_param"@, false),
        ("url.qp.session"@, "Strip generic session params"@, "url_query_param"@, false),
        ("url.qp.affiliate"@, "Strip affiliate params"@, "url_query_param"@, false),
        ("url.qp.search_tokens"@, "Strip search-engine noise"@, "url_query_param"@, false),
        ("url.qp.custom"@, "Strip custom query params"@, "url_query_param"@, false),
        ("url.path.user_segment"@, "Strip user path segment"@, "url_path"@, true),
        ("url.strip_fragment"@, "Strip URL fragment"@, "url_fragment"@, false),
        ("url.fragment.tracking"@, "Strip tracking from fragment"@, "url_fragment"@, false),
        ("url.https_upgrade"@, "Upgrade HTTP → HTTPS"@, "url_host"@, true),
        ("url.host.demobilize"@, "Demobilize host"@, "url_host"@, true),
        ("url.host.unshorten.offline"@, "Flag URL-shortener hosts"@, "url_host"@, false),
        ("title.whitespace"@, "Normalize whitespace"@, "title"@, false),
        ("title.html_entities"@, "Decode HTML entities"@, "title"@, false),
        ("title.email"@, "Strip email addresses"@, "title"@, false),
        ("title.handle"@, "Strip social handles"@, "title"@, false),
        ("title.author_suffix"@, "Strip author suffix"@, "title"@, true),
        ("title.regex"@, "Apply regex to title"@, "title"@, true),
        ("folder.whitespace"@, "Normalize folder-name whitespace"@, "folder_name"@, false),
        ("folder.html_entities"@, "Decode HTML entities in folder names"@, "folder_name"@, false),
        ("folder.regex"@, "Apply regex to folder names"@, "folder_name"@, true),
        ("cross.empty_folders"@, "Remove empty folders"@, "cross_field"@, true),
        ("structure.duplicates.exact_url"@, "Find exact-URL duplicate bookmarks"@, "cross_field"@, true),
        ("structure.duplicates.near_url"@, "Find near-duplicate bookmarks"@, "cross_field"@, true)
    ]
}

pub open spec fn info_of(t: BuiltinTreatment) -> (Seq<char>, Seq<char>, Seq<char>, bool) {
    (t.id_v(), t.name_v(), category_id_v(t.category_v()), t.destructive_v())
}

/// Every built-in treatment, in the order the picker lists them, each
/// unconfigured.
pub fn builtin_treatments() -> (v: Vec<BuiltinTreatment>)
    ensures
        v@.map_values(|t: BuiltinTreatment| info_of(t)) == catalogue_v(),
{
    let mut v: Vec<BuiltinTreatment> = Vec::new();
    v.push(BuiltinTreatment::Utm(UtmTreatment));
    v.push(BuiltinTreatment::ClickIds(ClickIdsTreatment));
    v.push(BuiltinTreatment::Session(SessionTreatment));
    v.push(BuiltinTreatment::Affiliate(AffiliateTreatment));
    v.push(BuiltinTreatment::SearchTokens(SearchTokensTreatment));
    v.push(BuiltinTreatment::CustomQp(CustomQpTreatment::empty()));
    v.push(BuiltinTreatment::UserSegment(UserSegmentTreatment));
    v.push(BuiltinTreatment::StripFragment(StripFragmentTreatment));
    v.push(BuiltinTreatment::FragmentTracking(FragmentTrackingTreatment));
    v.push(BuiltinTreatment::HttpsUpgrade(HttpsUpgradeTreatment));
    v.push(BuiltinTreatment::Demobilize(DemobilizeTreatment));
    v.push(BuiltinTreatment::UnshortenOffline(UnshortenOfflineTreatment));
    v.push(BuiltinTreatment::TitleWhitespace(WhitespaceTreatment));
    v.push(BuiltinTreatment::TitleHtmlEntities(HtmlEntitiesTreatment));
    v.push(BuiltinTreatment::TitleEmail(EmailTreatment));
    v.push(BuiltinTreatment::TitleHandle(HandleTreatment));
    v.push(BuiltinTreatment::TitleAuthorSuffix(AuthorSuffixTreatment));
    v.push(BuiltinTreatment::TitleRegex(RegexTitleTreatment::empty()));
    v.push(BuiltinTreatment::FolderWhitespace(FolderWhitespaceTreatment));
    v.push(BuiltinTreatment::FolderHtmlEntities(FolderHtmlEntitiesTreatment));
    v.push(BuiltinTreatment::FolderRegex(RegexFolderTreatment::empty()));
    v.push(BuiltinTreatment::EmptyFolders(EmptyFoldersTreatment));
    v.push(BuiltinTreatment::ExactUrlDuplicates(ExactUrlDuplicatesTreatment));
    v.push(BuiltinTreatment::NearUrlDuplicates(NearUrlDuplicatesTreatment));
    proof {
        assert(v@.map_values(|t: BuiltinTreatment| info_of(t)) =~= catalogue_v());
    }
    v
}

pub open spec fn infos_v(v: Seq<TreatmentInfo>) -> Seq<(Seq<char>, Seq<char>, Seq<char>, bool)> {
    v.map_values(|t: TreatmentInfo| (t.id@, t.name@, t.category@, t.destructive))
}

/// The picker's entry for each built-in treatment, in order.
pub fn list_treatments() -> (r: Vec<TreatmentInfo>)
    ensures
        infos_v(r@) == catalogue_v(),
{
    let ts = builtin_treatments();
    let ghost want = ts@.map_values(|t: BuiltinTreatment| info_of(t));
    let mut out: Vec<TreatmentInfo> = Vec::new();
    let mut i: usize = 0;
    while i < ts.len()
        invariant
            want == ts@.map_values(|t: BuiltinTreatment| info_of(t)),
            i <= ts.len(),
            out@.len() == i,
            infos_v(out@) == want.take(i as int),
        decreases ts.len() - i,
    {
        let t = &ts[i];
        let info = TreatmentInfo {
            id: t.id().to_owned(),
            name: t.name().to_owned(),
            category: category_id(t.category()).to_owned(),
            destructive: t.is_destructive(),
        };
        let ghost before = out@;
        out.push(info);
        proof {
            assert(out@ == before.push(info));
            assert(infos_v(out@)[i as int] == info_of(ts@[i as int]));
            assert(infos_v(out@) =~= want.take(i + 1));
        }
        i += 1;
    }
    proof {
        assert(want.take(ts.len() as int) =~= want);
    }
    out
}

fn binding(action_id: &str, label: &str, key_combo: &str, category: &str) -> (r: ShortcutBinding)
    ensures
        r.action_id@ == action_id@,
        r.label@ == label@,
        r.key_combo@ == key_combo@,
        r.category@ == category@,
{
    ShortcutBinding {
        action_id: action_id.to_owned(),
        label: label.to_owned(),
        key_combo: key_combo.to_owned(),
        category: category.to_owned(),
    }
}

/// The shortcut table: action id, label, key combination, category.
pub open spec fn shortcuts_v() -> Seq<(Seq<char>, Seq<char>, Seq<char>, Seq<char>)> {
    seq![
        ("open_file"@, "Open files"@, "Ctrl+O"@, "File"@),
        ("save_copy"@, "Save a clean copy"@, "Ctrl+S"@, "File"@),
        ("save_copy_as"@, "Save copy as…"@, "Ctrl+Shift+S"@, "File"@),
        ("close_tab"@, "Close tab"@, "Ctrl+W"@, "File"@),
        ("close_all_tabs"@, "Close all tabs"@, "Ctrl+Shift+W"@, "File"@),
        ("next_tab"@, "Next / previous tab"@, "Ctrl+Tab / Ctrl+Shift+Tab"@, "View"@),
        ("library"@, "Library"@, "Ctrl+Shift+L"@, "View"@),
        ("search"@, "Search this document"@, "Ctrl+F"@, "View"@),
        ("undo"@, "Undo"@, "Ctrl+Z"@, "Edit"@),
        ("redo"@, "Redo"@, "Ctrl+Y / Ctrl+Shift+Z"@, "Edit"@),
        ("rename"@, "Rename"@, "F2"@, "Edit"@),
        ("delete"@, "Delete"@, "Delete"@, "Edit"@),
        ("run_pass"@, "Run the selected rule set"@, "Ctrl+R"@, "Tools"@),
        ("apply_review"@, "Apply reviewed changes"@, "Ctrl+Enter"@, "Tools"@),
        ("command_palette"@, "Command palette"@, "Ctrl+K / ⌘K"@, "Tools"@),
        ("compare_tabs"@, "Compare tabs"@, "Ctrl+Shift+D"@, "Tools"@),
        ("merge_documents"@, "Merge documents"@, "Ctrl+M"@, "Tools"@),
        ("settings"@, "Settings"@, "Ctrl+,"@, "Tools"@)
    ]
}

pub open spec fn bindings_v(v: Seq<ShortcutBinding>) -> Seq<(Seq<char>, Seq<char>, Seq<char>, Seq<char>)> {
    v.map_values(|b: ShortcutBinding| (b.action_id@, b.label@, b.key_combo@, b.category@))
}

/// The keyboard shortcuts, in the order the help lists them.
pub fn list_shortcuts() -> (r: Vec<ShortcutBinding>)
    ensures
        bindings_v(r@) == shortcuts_v(),
{
    let mut v: Vec<ShortcutBinding> = Vec::new();
    v.push(binding("open_file", "Open files", "Ctrl+O", "File"));
    v.push(binding("save_copy", "Save a clean copy", "Ctrl+S", "File"));
    v.push(binding("save_copy_as", "Save copy as…", "Ctrl+Shift+S", "File"));
    v.push(binding("close_tab", "Close tab", "Ctrl+W", "File"));
    v.push(binding("close_all_tabs", "Close all tabs", "Ctrl+Shift+W", "File"));
    v.push(binding("next_tab", "Next / previous tab", "Ctrl+Tab / Ctrl+Shift+Tab", "View"));
    v.push(binding("library", "Library", "Ctrl+Shift+L", "View"));
    v.push(binding("search", "Search this document", "Ctrl+F", "View"));
    v.push(binding("undo", "Undo", "Ctrl+Z", "Edit"));
    v.push(binding("redo", "Redo", "Ctrl+Y / Ctrl+Shift+Z", "Edit"));
    v.push(binding("rename", "Rename", "F2", "Edit"));
    v.push(binding("delete", "Delete", "Delete", "Edit"));
    v.push(binding("run_pass", "Run the selected rule set", "Ctrl+R", "Tools"));
    v.push(binding("apply_review", "Apply reviewed changes", "Ctrl+Enter", "Tools"));
    v.push(binding("command_palette", "Command palette", "Ctrl+K / ⌘K", "Tools"));
    v.push(binding("compare_tabs", "Compare tabs", "Ctrl+Shift+D", "Tools"));
    v.push(binding("merge_documents", "Merge documents", "Ctrl+M", "Tools"));
    v.push(binding("settings", "Settings", "Ctrl+,", "Tools"));
    proof {
        assert(bindings_v(v@) =~= shortcuts_v());
    }
    v
}

} // verus!
