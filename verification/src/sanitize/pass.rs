//! Pass executor: runs a [`RuleSet`] over a [`Document`] and produces a
//! [`ChangeSet`].  The executor is read-only; the user reviews and approves
//! individual changes before calling `Document::apply`.
use vstd::prelude::*;
use std::collections::HashSet;
use crate::model::document::Document;
use crate::model::edit::node_with_id;
use crate::model::node::{lemma_folder_v, lemma_nodes_v, node_v, Folder, FolderV, Node, NodeId, NodeV};
use crate::sanitize::apply::find_node;
use crate::sanitize::treatment::{changes_v, Change, ChangeSet, ChangeV, PassContext, TreatmentCategory};
use crate::sanitize::treatments::cross::{empty_folder_deletes, EmptyFoldersTreatment};
use crate::sanitize::treatments::duplicates::{duplicate_deletes, ExactUrlDuplicatesTreatment, NearUrlDuplicatesTreatment};
use crate::sanitize::treatments::folder_name::{
    folder_name_change, FolderHtmlEntitiesTreatment, FolderWhitespaceTreatment, RegexFolderTreatment,
};
use crate::sanitize::treatments::text::decode_v;
use crate::sanitize::treatments::title::{
    author_stripped, email_stripped, handle_stripped, normalized, regex_applied, title_change,
    AuthorSuffixTreatment, EmailTreatment, HandleTreatment, HtmlEntitiesTreatment, RegexTitleTreatment,
    WhitespaceTreatment,
};
use crate::sanitize::treatments::url_misc::{
    demobilize_treatment_v, fragment_tracking_v, https_upgrade_v, strip_fragment_v, unshorten_v,
    user_segment_v, DemobilizeTreatment, FragmentTrackingTreatment, HttpsUpgradeTreatment,
    StripFragmentTreatment, UnshortenOfflineTreatment, UserSegmentTreatment,
};
use crate::sanitize::treatments::url_qp::{
    strip_v, AffiliateTreatment, ClickIdsTreatment, CustomQpTreatment, QpRule, SearchTokensTreatment,
    SessionTreatment, UtmTreatment,
};

verus! {

broadcast use {lemma_nodes_v, lemma_folder_v, vstd::std_specs::hash::group_hash_axioms};

/// One of the built-in treatments, as a rule set holds it.
#[derive(Debug)]
pub enum BuiltinTreatment {
    Utm(UtmTreatment),
    ClickIds(ClickIdsTreatment),
    Session(SessionTreatment),
    Affiliate(AffiliateTreatment),
    SearchTokens(SearchTokensTreatment),
    CustomQp(CustomQpTreatment),
    HttpsUpgrade(HttpsUpgradeTreatment),
    StripFragment(StripFragmentTreatment),
    FragmentTracking(FragmentTrackingTreatment),
    UserSegment(UserSegmentTreatment),
    Demobilize(DemobilizeTreatment),
    UnshortenOffline(UnshortenOfflineTreatment),
    TitleWhitespace(WhitespaceTreatment),
    TitleHtmlEntities(HtmlEntitiesTreatment),
    TitleEmail(EmailTreatment),
    TitleHandle(HandleTreatment),
    TitleAuthorSuffix(AuthorSuffixTreatment),
    TitleRegex(RegexTitleTreatment),
    FolderWhitespace(FolderWhitespaceTreatment),
    FolderHtmlEntities(FolderHtmlEntitiesTreatment),
    FolderRegex(RegexFolderTreatment),
    EmptyFolders(EmptyFoldersTreatment),
    ExactUrlDuplicates(ExactUrlDuplicatesTreatment),
    NearUrlDuplicates(NearUrlDuplicatesTreatment),
}

impl BuiltinTreatment {
    /// The treatment's stable id.
    pub open spec fn id_v(self) -> Seq<char> {
        match self {
            BuiltinTreatment::Utm(_) => "url.qp.utm"@,
            BuiltinTreatment::ClickIds(_) => "url.qp.click_ids"@,
            BuiltinTreatment::Session(_) => "url.qp.session"@,
            BuiltinTreatment::Affiliate(_) => "url.qp.affiliate"@,
            BuiltinTreatment::SearchTokens(_) => "url.qp.search_tokens"@,
            BuiltinTreatment::CustomQp(_) => "url.qp.custom"@,
            BuiltinTreatment::HttpsUpgrade(_) => "url.https_upgrade"@,
            BuiltinTreatment::StripFragment(_) => "url.strip_fragment"@,
            BuiltinTreatment::FragmentTracking(_) => "url.fragment.tracking"@,
            BuiltinTreatment::UserSegment(_) => "url.path.user_segment"@,
            BuiltinTreatment::Demobilize(_) => "url.host.demobilize"@,
            BuiltinTreatment::UnshortenOffline(_) => "url.host.unshorten.offline"@,
            BuiltinTreatment::TitleWhitespace(_) => "title.whitespace"@,
            BuiltinTreatment::TitleHtmlEntities(_) => "title.html_entities"@,
            BuiltinTreatment::TitleEmail(_) => "title.email"@,
            BuiltinTreatment::TitleHandle(_) => "title.handle"@,
            BuiltinTreatment::TitleAuthorSuffix(_) => "title.author_suffix"@,
            BuiltinTreatment::TitleRegex(_) => "title.regex"@,
            BuiltinTreatment::FolderWhitespace(_) => "folder.whitespace"@,
            BuiltinTreatment::FolderHtmlEntities(_) => "folder.html_entities"@,
            BuiltinTreatment::FolderRegex(_) => "folder.regex"@,
            BuiltinTreatment::EmptyFolders(_) => "cross.empty_folders"@,
            BuiltinTreatment::ExactUrlDuplicates(_) => "structure.duplicates.exact_url"@,
            BuiltinTreatment::NearUrlDuplicates(_) => "structure.duplicates.near_url"@,
        }
    }

    /// The treatment's display name.
    pub open spec fn name_v(self) -> Seq<char> {
        match self {
            BuiltinTreatment::Utm(_) => "Strip UTM params"@,
            BuiltinTreatment::ClickIds(_) => "Strip click IDs"@,
            BuiltinTreatment::Session(_) => "Strip generic session params"@,
            BuiltinTreatment::Affiliate(_) => "Strip affiliate params"@,
            BuiltinTreatment::SearchTokens(_) => "Strip search-engine noise"@,
            BuiltinTreatment::CustomQp(_) => "Strip custom query params"@,
            BuiltinTreatment::HttpsUpgrade(_) => "Upgrade HTTP → HTTPS"@,
            BuiltinTreatment::StripFragment(_) => "Strip URL fragment"@,
            BuiltinTreatment::FragmentTracking(_) => "Strip tracking from fragment"@,
            BuiltinTreatment::UserSegment(_) => "Strip user path segment"@,
            BuiltinTreatment::Demobilize(_) => "Demobilize host"@,
            BuiltinTreatment::UnshortenOffline(_) => "Flag URL-shortener hosts"@,
            BuiltinTreatment::TitleWhitespace(_) => "Normalize whitespace"@,
            BuiltinTreatment::TitleHtmlEntities(_) => "Decode HTML entities"@,
            BuiltinTreatment::TitleEmail(_) => "Strip email addresses"@,
            BuiltinTreatment::TitleHandle(_) => "Strip social handles"@,
            BuiltinTreatment::TitleAuthorSuffix(_) => "Strip author suffix"@,
            BuiltinTreatment::TitleRegex(_) => "Apply regex to title"@,
            BuiltinTreatment::FolderWhitespace(_) => "Normalize folder-name whitespace"@,
            BuiltinTreatment::FolderHtmlEntities(_) => "Decode HTML entities in folder names"@,
            BuiltinTreatment::FolderRegex(_) => "Apply regex to folder names"@,
            BuiltinTreatment::EmptyFolders(_) => "Remove empty folders"@,
            BuiltinTreatment::ExactUrlDuplicates(_) => "Find exact-URL duplicate bookmarks"@,
            BuiltinTreatment::NearUrlDuplicates(_) => "Find near-duplicate bookmarks"@,
        }
    }

    /// The treatment's category.
    pub open spec fn category_v(self) -> TreatmentCategory {
        match self {
            BuiltinTreatment::Utm(_) => TreatmentCategory::UrlQueryParam,
            BuiltinTreatment::ClickIds(_) => TreatmentCategory::UrlQueryParam,
            BuiltinTreatment::Session(_) => TreatmentCategory::UrlQueryParam,
            BuiltinTreatment::Affiliate(_) => TreatmentCategory::UrlQueryParam,
            BuiltinTreatment::SearchTokens(_) => TreatmentCategory::UrlQueryParam,
            BuiltinTreatment::CustomQp(_) => TreatmentCategory::UrlQueryParam,
            BuiltinTreatment::HttpsUpgrade(_) => TreatmentCategory::UrlHost,
            BuiltinTreatment::StripFragment(_) => TreatmentCategory::UrlFragment,
            BuiltinTreatment::FragmentTracking(_) => TreatmentCategory::UrlFragment,
            BuiltinTreatment::UserSegment(_) => TreatmentCategory::UrlPath,
            BuiltinTreatment::Demobilize(_) => TreatmentCategory::UrlHost,
            BuiltinTreatment::UnshortenOffline(_) => TreatmentCategory::UrlHost,
            BuiltinTreatment::TitleWhitespace(_) => TreatmentCategory::Title,
            BuiltinTreatment::TitleHtmlEntities(_) => TreatmentCategory::Title,
            BuiltinTreatment::TitleEmail(_) => TreatmentCategory::Title,
            BuiltinTreatment::TitleHandle(_) => TreatmentCategory::Title,
            BuiltinTreatment::TitleAuthorSuffix(_) => TreatmentCategory::Title,
            BuiltinTreatment::TitleRegex(_) => TreatmentCategory::Title,
            BuiltinTreatment::FolderWhitespace(_) => TreatmentCategory::FolderName,
            BuiltinTreatment::FolderHtmlEntities(_) => TreatmentCategory::FolderName,
            BuiltinTreatment::FolderRegex(_) => TreatmentCategory::FolderName,
            BuiltinTreatment::EmptyFolders(_) => TreatmentCategory::CrossField,
            BuiltinTreatment::ExactUrlDuplicates(_) => TreatmentCategory::CrossField,
            BuiltinTreatment::NearUrlDuplicates(_) => TreatmentCategory::CrossField,
        }
    }

    /// Whether the treatment's changes may alter a destination or lose
    /// information.
    pub open spec fn destructive_v(self) -> bool {
        match self {
            BuiltinTreatment::Utm(_) => false,
            BuiltinTreatment::ClickIds(_) => false,
            BuiltinTreatment::Session(_) => false,
            BuiltinTreatment::Affiliate(_) => false,
            BuiltinTreatment::SearchTokens(_) => false,
            BuiltinTreatment::CustomQp(_) => false,
            BuiltinTreatment::HttpsUpgrade(_) => true,
            BuiltinTreatment::StripFragment(_) => false,
            BuiltinTreatment::FragmentTracking(_) => false,
            BuiltinTreatment::UserSegment(_) => true,
            BuiltinTreatment::Demobilize(_) => true,
            BuiltinTreatment::UnshortenOffline(_) => false,
            BuiltinTreatment::TitleWhitespace(_) => false,
            BuiltinTreatment::TitleHtmlEntities(_) => false,
            BuiltinTreatment::TitleEmail(_) => false,
            BuiltinTreatment::TitleHandle(_) => false,
            BuiltinTreatment::TitleAuthorSuffix(_) => true,
            BuiltinTreatment::TitleRegex(_) => true,
            BuiltinTreatment::FolderWhitespace(_) => false,
            BuiltinTreatment::FolderHtmlEntities(_) => false,
            BuiltinTreatment::FolderRegex(_) => true,
            BuiltinTreatment::EmptyFolders(_) => true,
            BuiltinTreatment::ExactUrlDuplicates(_) => true,
            BuiltinTreatment::NearUrlDuplicates(_) => true,
        }
    }

    /// What the treatment proposes for one node.
    pub open spec fn node_proposals(self, n: NodeV) -> Seq<ChangeV> {
        match self {
            BuiltinTreatment::Utm(_) => strip_v(n, QpRule::Utm, Seq::empty(), "url.qp.utm"@,
                "Stripped UTM tracking parameters"@),
            BuiltinTreatment::ClickIds(_) => strip_v(n, QpRule::ClickIds, Seq::empty(), "url.qp.click_ids"@,
                "Stripped ad-network click-ID parameter"@),
            BuiltinTreatment::Session(_) => strip_v(n, QpRule::Session, Seq::empty(), "url.qp.session"@,
                "Stripped session identifier parameter"@),
            BuiltinTreatment::Affiliate(_) => strip_v(n, QpRule::Affiliate, Seq::empty(), "url.qp.affiliate"@,
                "Stripped affiliate-network tracking parameter"@),
            BuiltinTreatment::SearchTokens(_) => strip_v(n, QpRule::SearchTokens, Seq::empty(),
                "url.qp.search_tokens"@, "Stripped search-engine result-tracking parameter"@),
            BuiltinTreatment::CustomQp(t) => if t.names_v().len() == 0 {
                Seq::empty()
            } else {
                strip_v(n, QpRule::Custom, t.names_v(), "url.qp.custom"@, t.rationale_v())
            },
            BuiltinTreatment::HttpsUpgrade(_) => https_upgrade_v(n),
            BuiltinTreatment::StripFragment(_) => strip_fragment_v(n),
            BuiltinTreatment::FragmentTracking(_) => fragment_tracking_v(n),
            BuiltinTreatment::UserSegment(_) => user_segment_v(n),
            BuiltinTreatment::Demobilize(_) => demobilize_treatment_v(n),
            BuiltinTreatment::UnshortenOffline(_) => unshorten_v(n),
            BuiltinTreatment::TitleWhitespace(_) => title_change(n, |t: Seq<char>| normalized(t),
                "title.whitespace"@, "Collapsed whitespace in title"@, false),
            BuiltinTreatment::TitleHtmlEntities(_) => title_change(n, |t: Seq<char>| decode_v(t),
                "title.html_entities"@, "Decoded HTML entities in title"@, false),
            BuiltinTreatment::TitleEmail(_) => title_change(n, |t: Seq<char>| email_stripped(t), "title.email"@,
                "Removed email address from title"@, false),
            BuiltinTreatment::TitleHandle(_) => title_change(n, |t: Seq<char>| handle_stripped(t), "title.handle"@,
                "Removed social handle from title"@, false),
            BuiltinTreatment::TitleAuthorSuffix(_) => title_change(n, |t: Seq<char>| author_stripped(t),
                "title.author_suffix"@, "Removed trailing author byline from title"@, true),
            BuiltinTreatment::TitleRegex(t) => match t.rule_v() {
                Some((p, x)) => title_change(n, |s: Seq<char>| regex_applied(p, x, s), "title.regex"@,
                    "Applied user-configured regex to title"@, true),
                None => Seq::empty(),
            },
            BuiltinTreatment::FolderWhitespace(_) => folder_name_change(n, |t: Seq<char>| normalized(t),
                "folder.whitespace"@, "Collapsed whitespace in folder name"@, false),
            BuiltinTreatment::FolderHtmlEntities(_) => folder_name_change(n, |t: Seq<char>| decode_v(t),
                "folder.html_entities"@, "Decoded HTML entities in folder name"@, false),
            BuiltinTreatment::FolderRegex(t) => match t.rule_v() {
                Some((p, x)) => folder_name_change(n, |s: Seq<char>| regex_applied(p, x, s), "folder.regex"@,
                    "Applied user-configured regex to folder name"@, true),
                None => Seq::empty(),
            },
            BuiltinTreatment::EmptyFolders(_) => Seq::empty(),
            BuiltinTreatment::ExactUrlDuplicates(_) => Seq::empty(),
            BuiltinTreatment::NearUrlDuplicates(_) => Seq::empty(),
        }
    }

    /// What the treatment proposes after looking at the whole tree.
    pub open spec fn document_proposals(self, root: FolderV) -> Seq<ChangeV> {
        match self {
            BuiltinTreatment::EmptyFolders(_) => empty_folder_deletes(root.children),
            BuiltinTreatment::ExactUrlDuplicates(_) => duplicate_deletes(root, false, "structure.duplicates.exact_url"@),
            BuiltinTreatment::NearUrlDuplicates(_) => duplicate_deletes(root, true, "structure.duplicates.near_url"@),
            _ => Seq::empty(),
        }
    }

    /// Propose zero or more changes for a single node.
    pub fn propose(&self, node: &Node, ctx: &PassContext) -> (r: Vec<Change>)
        ensures
            changes_v(r@) == self.node_proposals(node@),
    {
        match self {
            BuiltinTreatment::Utm(t) => t.propose(node, ctx),
            BuiltinTreatment::ClickIds(t) => t.propose(node, ctx),
            BuiltinTreatment::Session(t) => t.propose(node, ctx),
            BuiltinTreatment::Affiliate(t) => t.propose(node, ctx),
            BuiltinTreatment::SearchTokens(t) => t.propose(node, ctx),
            BuiltinTreatment::CustomQp(t) => t.propose(node, ctx),
            BuiltinTreatment::HttpsUpgrade(t) => t.propose(node, ctx),
            BuiltinTreatment::StripFragment(t) => t.propose(node, ctx),
            BuiltinTreatment::FragmentTracking(t) => t.propose(node, ctx),
            BuiltinTreatment::UserSegment(t) => t.propose(node, ctx),
            BuiltinTreatment::Demobilize(t) => t.propose(node, ctx),
            BuiltinTreatment::UnshortenOffline(t) => t.propose(node, ctx),
            BuiltinTreatment::TitleWhitespace(t) => t.propose(node, ctx),
            BuiltinTreatment::TitleHtmlEntities(t) => t.propose(node, ctx),
            BuiltinTreatment::TitleEmail(t) => t.propose(node, ctx),
            BuiltinTreatment::TitleHandle(t) => t.propose(node, ctx),
            BuiltinTreatment::TitleAuthorSuffix(t) => t.propose(node, ctx),
            BuiltinTreatment::TitleRegex(t) => t.propose(node, ctx),
            BuiltinTreatment::FolderWhitespace(t) => t.propose(node, ctx),
            BuiltinTreatment::FolderHtmlEntities(t) => t.propose(node, ctx),
            BuiltinTreatment::FolderRegex(t) => t.propose(node, ctx),
            BuiltinTreatment::EmptyFolders(t) => t.propose(node, ctx),
            BuiltinTreatment::ExactUrlDuplicates(t) => t.propose(node, ctx),
            BuiltinTreatment::NearUrlDuplicates(t) => t.propose(node, ctx),
        }
    }

    /// Propose changes that need the whole document (only the cross-field
    /// treatments have any).
    pub fn propose_document(&self, doc: &Document, ctx: &PassContext) -> (r: Vec<Change>)
        ensures
            changes_v(r@) == self.document_proposals(doc.root@),
    {
        match self {
            BuiltinTreatment::EmptyFolders(t) => t.propose_document(doc, ctx),
            BuiltinTreatment::ExactUrlDuplicates(t) => t.propose_document(doc, ctx),
            BuiltinTreatment::NearUrlDuplicates(t) => t.propose_document(doc, ctx),
            _ => Vec::new(),
        }
    }

    /// The treatment's stable id.
    pub fn id(&self) -> (r: &'static str)
        ensures
            r@ == self.id_v(),
    {
        match self {
            BuiltinTreatment::Utm(t) => t.id(),
            BuiltinTreatment::ClickIds(t) => t.id(),
            BuiltinTreatment::Session(t) => t.id(),
            BuiltinTreatment::Affiliate(t) => t.id(),
            BuiltinTreatment::SearchTokens(t) => t.id(),
            BuiltinTreatment::CustomQp(t) => t.id(),
            BuiltinTreatment::HttpsUpgrade(t) => t.id(),
            BuiltinTreatment::StripFragment(t) => t.id(),
            BuiltinTreatment::FragmentTracking(t) => t.id(),
            BuiltinTreatment::UserSegment(t) => t.id(),
            BuiltinTreatment::Demobilize(t) => t.id(),
            BuiltinTreatment::UnshortenOffline(t) => t.id(),
            BuiltinTreatment::TitleWhitespace(t) => t.id(),
            BuiltinTreatment::TitleHtmlEntities(t) => t.id(),
            BuiltinTreatment::TitleEmail(t) => t.id(),
            BuiltinTreatment::TitleHandle(t) => t.id(),
            BuiltinTreatment::TitleAuthorSuffix(t) => t.id(),
            BuiltinTreatment::TitleRegex(t) => t.id(),
            BuiltinTreatment::FolderWhitespace(t) => t.id(),
            BuiltinTreatment::FolderHtmlEntities(t) => t.id(),
            BuiltinTreatment::FolderRegex(t) => t.id(),
            BuiltinTreatment::EmptyFolders(t) => t.id(),
            BuiltinTreatment::ExactUrlDuplicates(t) => t.id(),
            BuiltinTreatment::NearUrlDuplicates(t) => t.id(),
        }
    }
    /// The treatment's display name.
    pub fn name(&self) -> (r: &'static str)
        ensures
            r@ == self.name_v(),
    {
        match self {
            BuiltinTreatment::Utm(t) => t.name(),
            BuiltinTreatment::ClickIds(t) => t.name(),
            BuiltinTreatment::Session(t) => t.name(),
            BuiltinTreatment::Affiliate(t) => t.name(),
            BuiltinTreatment::SearchTokens(t) => t.name(),
            BuiltinTreatment::CustomQp(t) => t.name(),
            BuiltinTreatment::HttpsUpgrade(t) => t.name(),
            BuiltinTreatment::StripFragment(t) => t.name(),
            BuiltinTreatment::FragmentTracking(t) => t.name(),
            BuiltinTreatment::UserSegment(t) => t.name(),
            BuiltinTreatment::Demobilize(t) => t.name(),
            BuiltinTreatment::UnshortenOffline(t) => t.name(),
            BuiltinTreatment::TitleWhitespace(t) => t.name(),
            BuiltinTreatment::TitleHtmlEntities(t) => t.name(),
            BuiltinTreatment::TitleEmail(t) => t.name(),
            BuiltinTreatment::TitleHandle(t) => t.name(),
            BuiltinTreatment::TitleAuthorSuffix(t) => t.name(),
            BuiltinTreatment::TitleRegex(t) => t.name(),
            BuiltinTreatment::FolderWhitespace(t) => t.name(),
            BuiltinTreatment::FolderHtmlEntities(t) => t.name(),
            BuiltinTreatment::FolderRegex(t) => t.name(),
            BuiltinTreatment::EmptyFolders(t) => t.name(),
            BuiltinTreatment::ExactUrlDuplicates(t) => t.name(),
            BuiltinTreatment::NearUrlDuplicates(t) => t.name(),
        }
    }

    /// The treatment's category.
    pub fn category(&self) -> (r: TreatmentCategory)
        ensures
            r == self.category_v(),
    {
        match self {
            BuiltinTreatment::Utm(t) => t.category(),
            BuiltinTreatment::ClickIds(t) => t.category(),
            BuiltinTreatment::Session(t) => t.category(),
            BuiltinTreatment::Affiliate(t) => t.category(),
            BuiltinTreatment::SearchTokens(t) => t.category(),
            BuiltinTreatment::CustomQp(t) => t.category(),
            BuiltinTreatment::HttpsUpgrade(t) => t.category(),
            BuiltinTreatment::StripFragment(t) => t.category(),
            BuiltinTreatment::FragmentTracking(t) => t.category(),
            BuiltinTreatment::UserSegment(t) => t.category(),
            BuiltinTreatment::Demobilize(t) => t.category(),
            BuiltinTreatment::UnshortenOffline(t) => t.category(),
            BuiltinTreatment::TitleWhitespace(t) => t.category(),
            BuiltinTreatment::TitleHtmlEntities(t) => t.category(),
            BuiltinTreatment::TitleEmail(t) => t.category(),
            BuiltinTreatment::TitleHandle(t) => t.category(),
            BuiltinTreatment::TitleAuthorSuffix(t) => t.category(),
            BuiltinTreatment::TitleRegex(t) => t.category(),
            BuiltinTreatment::FolderWhitespace(t) => t.category(),
            BuiltinTreatment::FolderHtmlEntities(t) => t.category(),
            BuiltinTreatment::FolderRegex(t) => t.category(),
            BuiltinTreatment::EmptyFolders(t) => t.category(),
            BuiltinTreatment::ExactUrlDuplicates(t) => t.category(),
            BuiltinTreatment::NearUrlDuplicates(t) => t.category(),
        }
    }

    /// Whether the treatment's changes may alter a destination or lose
    /// information.
    pub fn is_destructive(&self) -> (r: bool)
        ensures
            r == self.destructive_v(),
    {
        match self {
            BuiltinTreatment::Utm(t) => t.is_destructive(),
            BuiltinTreatment::ClickIds(t) => t.is_destructive(),
            BuiltinTreatment::Session(t) => t.is_destructive(),
            BuiltinTreatment::Affiliate(t) => t.is_destructive(),
            BuiltinTreatment::SearchTokens(t) => t.is_destructive(),
            BuiltinTreatment::CustomQp(t) => t.is_destructive(),
            BuiltinTreatment::HttpsUpgrade(t) => t.is_destructive(),
            BuiltinTreatment::StripFragment(t) => t.is_destructive(),
            BuiltinTreatment::FragmentTracking(t) => t.is_destructive(),
            BuiltinTreatment::UserSegment(t) => t.is_destructive(),
            BuiltinTreatment::Demobilize(t) => t.is_destructive(),
            BuiltinTreatment::UnshortenOffline(t) => t.is_destructive(),
            BuiltinTreatment::TitleWhitespace(t) => t.is_destructive(),
            BuiltinTreatment::TitleHtmlEntities(t) => t.is_destructive(),
            BuiltinTreatment::TitleEmail(t) => t.is_destructive(),
            BuiltinTreatment::TitleHandle(t) => t.is_destructive(),
            BuiltinTreatment::TitleAuthorSuffix(t) => t.is_destructive(),
            BuiltinTreatment::TitleRegex(t) => t.is_destructive(),
            BuiltinTreatment::FolderWhitespace(t) => t.is_destructive(),
            BuiltinTreatment::FolderHtmlEntities(t) => t.is_destructive(),
            BuiltinTreatment::FolderRegex(t) => t.is_destructive(),
            BuiltinTreatment::EmptyFolders(t) => t.is_destructive(),
            BuiltinTreatment::ExactUrlDuplicates(t) => t.is_destructive(),
            BuiltinTreatment::NearUrlDuplicates(t) => t.is_destructive(),
        }
    }
}

/// An ordered collection of treatments applied as a single pass.
#[derive(Debug)]
pub struct RuleSet {
    pub id: String,
    pub name: String,
    pub treatments: Vec<BuiltinTreatment>,
}

/// Which nodes in the document the pass examines.
#[derive(Debug, Clone)]
pub enum PassTarget {
    /// Every node below the document root.
    AllNodes,
    /// Only the listed nodes.
    Selection(Vec<NodeId>),
    /// A folder and everything below it.  The document root's id is the
    /// same as `AllNodes`; an id that names no folder proposes nothing.
    Subtree(NodeId),
}

/// What every treatment of `ts` proposes for `n`, treatment by treatment.
pub open spec fn rule_props(ts: Seq<BuiltinTreatment>, n: NodeV) -> Seq<ChangeV>
    decreases ts.len(),
{
    if ts.len() == 0 {
        Seq::empty()
    } else {
        rule_props(ts.drop_last(), n) + ts.last().node_proposals(n)
    }
}

/// The proposals for every node among `ns` and below them, in document
/// order (a node before its children).
pub open spec fn tree_props(ns: Seq<NodeV>, ts: Seq<BuiltinTreatment>) -> Seq<ChangeV>
    decreases ns,
{
    if ns.len() == 0 {
        Seq::empty()
    } else {
        let rest = tree_props(ns.subrange(0, ns.len() - 1), ts);
        let c = ns[ns.len() - 1];
        let sub = match c {
            NodeV::Folder(f) => tree_props(f.children, ts),
            _ => Seq::empty(),
        };
        rest + rule_props(ts, c) + sub
    }
}

/// The proposals for the nodes among `ns` and below them whose id is in
/// `ids`, in document order.
pub open spec fn sel_props(ns: Seq<NodeV>, ts: Seq<BuiltinTreatment>, ids: Seq<NodeId>) -> Seq<ChangeV>
    decreases ns,
{
    if ns.len() == 0 {
        Seq::empty()
    } else {
        let rest = sel_props(ns.subrange(0, ns.len() - 1), ts, ids);
        let c = ns[ns.len() - 1];
        let own = if ids.contains(c.id()) { rule_props(ts, c) } else { Seq::empty() };
        let sub = match c {
            NodeV::Folder(f) => sel_props(f.children, ts, ids),
            _ => Seq::empty(),
        };
        rest + own + sub
    }
}

/// The ids of the nodes among `ns` and below them, in document order.
pub open spec fn ids_under(ns: Seq<NodeV>) -> Seq<NodeId>
    decreases ns,
{
    if ns.len() == 0 {
        Seq::empty()
    } else {
        let rest = ids_under(ns.subrange(0, ns.len() - 1));
        let c = ns[ns.len() - 1];
        let sub = match c {
            NodeV::Folder(f) => ids_under(f.children),
            _ => Seq::empty(),
        };
        rest.push(c.id()) + sub
    }
}

/// What the treatments of `ts` propose over the whole tree, treatment by
/// treatment.
pub open spec fn doc_props(ts: Seq<BuiltinTreatment>, root: FolderV) -> Seq<ChangeV>
    decreases ts.len(),
{
    if ts.len() == 0 {
        Seq::empty()
    } else {
        doc_props(ts.drop_last(), root) + ts.last().document_proposals(root)
    }
}

/// The changes whose node is in `scope`, in order.
pub open spec fn in_scope(cs: Seq<ChangeV>, scope: Set<NodeId>) -> Seq<ChangeV>
    decreases cs.len(),
{
    if cs.len() == 0 {
        Seq::empty()
    } else {
        let rest = in_scope(cs.drop_last(), scope);
        if scope.contains(cs.last().node_id) { rest.push(cs.last()) } else { rest }
    }
}

/// All the changes a pass proposes: the node proposals of the nodes in
/// scope, then the whole-document proposals that touch a node in scope.
pub open spec fn pass_v(root: FolderV, ts: Seq<BuiltinTreatment>, target: PassTarget) -> Seq<ChangeV> {
    match target {
        PassTarget::AllNodes => tree_props(root.children, ts) + doc_props(ts, root),
        PassTarget::Selection(ids) => sel_props(root.children, ts, ids@) + in_scope(doc_props(ts, root), ids@.to_set()),
        PassTarget::Subtree(id) => if id == root.id {
            tree_props(root.children, ts) + doc_props(ts, root)
        } else {
            match node_with_id(root, id) {
                Some(NodeV::Folder(f)) => rule_props(ts, NodeV::Folder(f)) + tree_props(f.children, ts)
                    + in_scope(doc_props(ts, root), (seq![id] + ids_under(f.children)).to_set()),
                _ => Seq::empty(),
            }
        },
    }
}

/// Ask every treatment in the rule set to propose changes for `node`,
/// appending to `changes`.
fn propose_for_node(node: &Node, rule_set: &RuleSet, ctx: &PassContext, changes: &mut Vec<Change>)
    ensures
        changes_v(final(changes)@) == changes_v(old(changes)@) + rule_props(rule_set.treatments@, node@),
{
    let ghost ts = rule_set.treatments@;
    let ghost start = changes_v(changes@);
    let mut k: usize = 0;
    proof {
        assert(ts.take(0) =~= Seq::<BuiltinTreatment>::empty());
        assert(start + Seq::<ChangeV>::empty() =~= start);
    }
    while k < rule_set.treatments.len()
        invariant
            ts == rule_set.treatments@,
            k <= ts.len(),
            changes_v(changes@) == start + rule_props(ts.take(k as int), node@),
        decreases ts.len() - k,
    {
        let mut proposed = rule_set.treatments[k].propose(node, ctx);
        let ghost before = changes_v(changes@);
        let ghost p = changes_v(proposed@);
        changes.append(&mut proposed);
        proof {
            assert(ts.take(k + 1).drop_last() =~= ts.take(k as int));
            assert(ts.take(k + 1).last() == ts[k as int]);
            assert(changes_v(changes@) =~= before + p);
        }
        k += 1;
    }
    proof {
        assert(ts.take(ts.len() as int) =~= ts);
    }
}

fn collect_changes_in_folder(folder: &Folder, rule_set: &RuleSet, ctx: &PassContext, changes: &mut Vec<Change>)
    ensures
        changes_v(final(changes)@) == changes_v(old(changes)@) + tree_props(folder@.children, rule_set.treatments@),
    decreases folder,
{
    let ghost cs = folder@.children;
    let ghost ts = rule_set.treatments@;
    let ghost start = changes_v(changes@);
    let mut i: usize = 0;
    proof {
        assert(start + Seq::<ChangeV>::empty() =~= start);
    }
    while i < folder.children.len()
        invariant
            cs == folder@.children,
            ts == rule_set.treatments@,
            i <= folder.children.len(),
            changes_v(changes@) == start + tree_props(cs.subrange(0, i as int), ts),
        decreases folder.children.len() - i,
    {
        proof {
            assert(cs.subrange(0, i + 1).subrange(0, i as int) =~= cs.subrange(0, i as int));
            assert(cs[i as int] == node_v(folder.children@[i as int]));
        }
        let child = &folder.children[i];
        let ghost before = changes_v(changes@);
        propose_for_node(child, rule_set, ctx, changes);
        if let Node::Folder(f) = child {
            proof {
                assert(decreases_to!(folder => folder.children));
                assert(decreases_to!(folder.children => folder.children@));
                assert(decreases_to!(folder.children@ => folder.children@[i as int]));
            }
            collect_changes_in_folder(f, rule_set, ctx, changes);
        }
        proof {
            assert(changes_v(changes@) =~= start + tree_props(cs.subrange(0, i + 1), ts));
        }
        i += 1;
    }
    proof {
        assert(cs.subrange(0, cs.len() as int) =~= cs);
    }
}

fn contains_id(ids: &Vec<NodeId>, id: NodeId) -> (r: bool)
    ensures
        r == ids@.contains(id),
{
    let mut k: usize = 0;
    while k < ids.len()
        invariant
            k <= ids.len(),
            forall|x: int| 0 <= x < k ==> ids@[x] != id,
        decreases ids.len() - k,
    {
        if ids[k] == id {
            proof {
                assert(ids@[k as int] == id);
            }
            return true;
        }
        k += 1;
    }
    false
}

fn collect_changes_for_selection(
    folder: &Folder,
    rule_set: &RuleSet,
    ctx: &PassContext,
    ids: &Vec<NodeId>,
    changes: &mut Vec<Change>,
)
    ensures
        changes_v(final(changes)@) == changes_v(old(changes)@) + sel_props(folder@.children, rule_set.treatments@, ids@),
    decreases folder,
{
    let ghost cs = folder@.children;
    let ghost ts = rule_set.treatments@;
    let ghost start = changes_v(changes@);
    let mut i: usize = 0;
    proof {
        assert(start + Seq::<ChangeV>::empty() =~= start);
    }
    while i < folder.children.len()
        invariant
            cs == folder@.children,
            ts == rule_set.treatments@,
            i <= folder.children.len(),
            changes_v(changes@) == start + sel_props(cs.subrange(0, i as int), ts, ids@),
        decreases folder.children.len() - i,
    {
        proof {
            assert(cs.subrange(0, i + 1).subrange(0, i as int) =~= cs.subrange(0, i as int));
            assert(cs[i as int] == node_v(folder.children@[i as int]));
        }
        let child = &folder.children[i];
        if contains_id(ids, child.id()) {
            propose_for_node(child, rule_set, ctx, changes);
        }
        if let Node::Folder(f) = child {
            proof {
                assert(decreases_to!(folder => folder.children));
                assert(decreases_to!(folder.children => folder.children@));
                assert(decreases_to!(folder.children@ => folder.children@[i as int]));
            }
            collect_changes_for_selection(f, rule_set, ctx, ids, changes);
        }
        proof {
            assert(changes_v(changes@) =~= start + sel_props(cs.subrange(0, i + 1), ts, ids@));
        }
        i += 1;
    }
    proof {
        assert(cs.subrange(0, cs.len() as int) =~= cs);
    }
}

/// The set of the ids of `a`, then `x`, then `b`.
proof fn lemma_to_set_push_concat(a: Seq<NodeId>, x: NodeId, b: Seq<NodeId>)
    ensures
        (a.push(x) + b).to_set() == a.to_set().insert(x).union(b.to_set()),
{
    let s = a.push(x) + b;
    assert forall|y: NodeId| s.contains(y) == (a.contains(y) || y == x || b.contains(y)) by {
        if s.contains(y) {
            let k = choose|k: int| 0 <= k < s.len() && s[k] == y;
            if k < a.len() {
                assert(a[k] == y);
            } else if k > a.len() {
                assert(b[k - a.len() - 1] == y);
            }
        }
        if a.contains(y) {
            let k = choose|k: int| 0 <= k < a.len() && a[k] == y;
            assert(s[k] == y);
        }
        if y == x {
            assert(s[a.len() as int] == y);
        }
        if b.contains(y) {
            let k = choose|k: int| 0 <= k < b.len() && b[k] == y;
            assert(s[k + a.len() + 1] == y);
        }
    }
    assert(s.to_set() =~= a.to_set().insert(x).union(b.to_set()));
}

/// Every node id below `folder` (not including `folder` itself), added to
/// `ids`.
fn collect_ids(folder: &Folder, ids: &mut HashSet<NodeId>)
    ensures
        final(ids)@ == old(ids)@.union(ids_under(folder@.children).to_set()),
    decreases folder,
{
    let ghost cs = folder@.children;
    let ghost start = ids@;
    let mut i: usize = 0;
    proof {
        assert(start.union(Seq::<NodeId>::empty().to_set()) =~= start);
        assert(cs.subrange(0, 0) =~= Seq::<NodeV>::empty());
    }
    while i < folder.children.len()
        invariant
            cs == folder@.children,
            i <= folder.children.len(),
            ids@ == start.union(ids_under(cs.subrange(0, i as int)).to_set()),
        decreases folder.children.len() - i,
    {
        proof {
            assert(cs.subrange(0, i + 1).subrange(0, i as int) =~= cs.subrange(0, i as int));
            assert(cs[i as int] == node_v(folder.children@[i as int]));
        }
        let child = &folder.children[i];
        ids.insert(child.id());
        if let Node::Folder(f) = child {
            proof {
                assert(decreases_to!(folder => folder.children));
                assert(decreases_to!(folder.children => folder.children@));
                assert(decreases_to!(folder.children@ => folder.children@[i as int]));
            }
            collect_ids(f, ids);
        }
        proof {
            let a = ids_under(cs.subrange(0, i as int));
            let c = cs[i as int];
            let sub = match c {
                NodeV::Folder(g) => ids_under(g.children),
                _ => Seq::empty(),
            };
            assert(ids_under(cs.subrange(0, i + 1)) == a.push(c.id()) + sub);
            lemma_to_set_push_concat(a, c.id(), sub);
            if !(c is Folder) {
                assert(sub.to_set() =~= Set::<NodeId>::empty());
            }
            assert(ids@ =~= start.union(ids_under(cs.subrange(0, i + 1)).to_set()));
        }
        i += 1;
    }
    proof {
        assert(cs.subrange(0, cs.len() as int) =~= cs);
    }
}

/// The whole-document proposals of every treatment, kept only for nodes in
/// `scope` when there is one.
fn document_changes(doc: &Document, rule_set: &RuleSet, ctx: &PassContext, scope: Option<&HashSet<NodeId>>, changes: &mut Vec<Change>)
    ensures
        changes_v(final(changes)@) == changes_v(old(changes)@) + match scope {
            None => doc_props(rule_set.treatments@, doc.root@),
            Some(s) => in_scope(doc_props(rule_set.treatments@, doc.root@), s@),
        },
{
    let ghost ts = rule_set.treatments@;
    let ghost start = changes_v(changes@);
    let mut all: Vec<Change> = Vec::new();
    let mut k: usize = 0;
    proof {
        assert(ts.take(0) =~= Seq::<BuiltinTreatment>::empty());
    }
    while k < rule_set.treatments.len()
        invariant
            ts == rule_set.treatments@,
            k <= ts.len(),
            changes_v(all@) == doc_props(ts.take(k as int), doc.root@),
        decreases ts.len() - k,
    {
        let mut proposed = rule_set.treatments[k].propose_document(doc, ctx);
        let ghost before = changes_v(all@);
        let ghost p = changes_v(proposed@);
        all.append(&mut proposed);
        proof {
            assert(ts.take(k + 1).drop_last() =~= ts.take(k as int));
            assert(ts.take(k + 1).last() == ts[k as int]);
            assert(changes_v(all@) =~= before + p);
        }
        k += 1;
    }
    proof {
        assert(ts.take(ts.len() as int) =~= ts);
    }
    match scope {
        None => {
            changes.append(&mut all);
            proof {
                assert(changes_v(changes@) =~= start + doc_props(ts, doc.root@));
            }
        },
        Some(ids) => {
            let ghost dp = changes_v(all@);
            let mut k: usize = 0;
            proof {
                assert(dp.take(0) =~= Seq::<ChangeV>::empty());
                assert(start + Seq::<ChangeV>::empty() =~= start);
            }
            while k < all.len()
                invariant
                    dp == changes_v(all@),
                    k <= all.len(),
                    changes_v(changes@) == start + in_scope(dp.take(k as int), ids@),
                decreases all.len() - k,
            {
                proof {
                    assert(dp.take(k + 1).drop_last() =~= dp.take(k as int));
                    assert(dp.take(k + 1).last() == all@[k as int]@);
                }
                if ids.contains(&all[k].node_id) {
                    let ghost before = changes_v(changes@);
                    changes.push(all[k].duplicate());
                    proof {
                        assert(changes_v(changes@) =~= before.push(all@[k as int]@));
                    }
                }
                k += 1;
            }
            proof {
                assert(dp.take(all.len() as int) =~= dp);
            }
        },
    }
}

/// Execute `rule_set` over `doc` according to `target` and return all
/// proposed changes.  The document is not modified.
///
/// Document-level treatments see the whole document, but only changes to
/// nodes in scope are kept: a folder pass never proposes deleting a
/// bookmark somewhere else.
pub fn run_pass(doc: &Document, rule_set: &RuleSet, target: PassTarget) -> (r: ChangeSet)
    ensures
        r.rule_set_name@ == rule_set.name@,
        changes_v(r.changes@) == pass_v(doc.root@, rule_set.treatments@, target),
{
    let ctx = PassContext { document_id: doc.id };
    let mut changes: Vec<Change> = Vec::new();
    let ghost ts = rule_set.treatments@;
    let ghost root = doc.root@;
    match &target {
        PassTarget::AllNodes => {
            collect_changes_in_folder(&doc.root, rule_set, &ctx, &mut changes);
            document_changes(doc, rule_set, &ctx, None, &mut changes);
        },
        PassTarget::Selection(ids) => {
            collect_changes_for_selection(&doc.root, rule_set, &ctx, ids, &mut changes);
            let mut scope: HashSet<NodeId> = HashSet::new();
            let mut k: usize = 0;
            proof {
                assert(ids@.subrange(0, 0).to_set() =~= Set::<NodeId>::empty());
            }
            while k < ids.len()
                invariant
                    k <= ids.len(),
                    scope@ == ids@.subrange(0, k as int).to_set(),
                decreases ids.len() - k,
            {
                scope.insert(ids[k]);
                proof {
                    let a = ids@.subrange(0, k as int);
                    lemma_to_set_push_concat(a, ids@[k as int], Seq::empty());
                    assert(a.push(ids@[k as int]) + Seq::<NodeId>::empty() =~= ids@.subrange(0, k + 1));
                    assert(Seq::<NodeId>::empty().to_set() =~= Set::<NodeId>::empty());
                    assert(scope@ =~= ids@.subrange(0, k + 1).to_set());
                }
                k += 1;
            }
            proof {
                assert(ids@.subrange(0, ids@.len() as int) =~= ids@);
            }
            document_changes(doc, rule_set, &ctx, Some(&scope), &mut changes);
        },
        PassTarget::Subtree(root_id) => {
            if *root_id == doc.root.id {
                collect_changes_in_folder(&doc.root, rule_set, &ctx, &mut changes);
                document_changes(doc, rule_set, &ctx, None, &mut changes);
            } else {
                match find_node(&doc.root, *root_id) {
                    Some(node) => {
                        if let Node::Folder(folder) = node {
                            propose_for_node(node, rule_set, &ctx, &mut changes);
                            collect_changes_in_folder(folder, rule_set, &ctx, &mut changes);
                            let mut scope: HashSet<NodeId> = HashSet::new();
                            scope.insert(*root_id);
                            collect_ids(folder, &mut scope);
                            proof {
                                let b = ids_under(folder@.children);
                                lemma_to_set_push_concat(Seq::empty(), *root_id, b);
                                assert(Seq::<NodeId>::empty().push(*root_id) == seq![*root_id]);
                                assert(Seq::<NodeId>::empty().to_set() =~= Set::<NodeId>::empty());
                                assert(scope@ =~= (seq![*root_id] + b).to_set());
                            }
                            document_changes(doc, rule_set, &ctx, Some(&scope), &mut changes);
                        }
                    },
                    None => {},
                }
            }
        },
    }
    proof {
        assert(changes_v(changes@) =~= pass_v(root, ts, target));
    }
    ChangeSet { rule_set_name: rule_set.name.clone(), changes }
}

} // verus!
