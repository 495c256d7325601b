//! The parsed-document model.
//!
//! Markup parsing is left to the caller: a fetched page arrives here already
//! reduced to the plain values the extraction rules read. Each timeline entry
//! carries the text of its label node, the links, timestamps and nested
//! repository groups found under it, in document order; a repository group
//! carries the two candidate label nodes, and its own links, status icons and
//! timestamps. Absent nodes and absent attributes stay absent (`None`): the
//! extractors decide whether that is an error.

use vstd::prelude::*;

verus! {

/// A link element: its text and its `href` attribute, if present.
#[derive(Debug, PartialEq, Clone)]
pub struct Link {
    pub text: String,
    pub href: Option<String>,
}

/// A status icon element: its `class` attribute, if present.
#[derive(Debug, PartialEq, Clone)]
pub struct StatusIcon {
    pub class: Option<String>,
}

/// A nested repository group of a pull-request, review or issue entry.
#[derive(Debug, PartialEq, Clone)]
pub struct RepositoryGroup {
    /// Text of the group's label node as pull-request entries render it.
    pub opened_label: Option<String>,
    /// Text of the group's label node as review entries render it.
    pub reviewed_label: Option<String>,
    pub links: Vec<Link>,
    pub statuses: Vec<StatusIcon>,
    pub times: Vec<String>,
}

/// One timeline entry: its label node's raw text, and the elements the
/// extractors read, each in document order.
#[derive(Debug, PartialEq, Clone)]
pub struct TimelineEntry {
    pub label: Option<String>,
    pub links: Vec<Link>,
    pub times: Vec<String>,
    pub groups: Vec<RepositoryGroup>,
}

/// A parsed page: its timeline entries in document order.
#[derive(Debug, PartialEq, Clone)]
pub struct Document {
    pub entries: Vec<TimelineEntry>,
}

/// The mathematical shape of a link.
#[verifier::ext_equal]
pub struct LinkView {
    pub text: Seq<char>,
    pub href: Option<Seq<char>>,
}

/// The mathematical shape of a status icon.
#[verifier::ext_equal]
pub struct StatusIconView {
    pub class: Option<Seq<char>>,
}

/// The mathematical shape of a repository group.
#[verifier::ext_equal]
pub struct RepositoryGroupView {
    pub opened_label: Option<Seq<char>>,
    pub reviewed_label: Option<Seq<char>>,
    pub links: Seq<LinkView>,
    pub statuses: Seq<StatusIconView>,
    pub times: Seq<Seq<char>>,
}

/// The mathematical shape of a timeline entry.
#[verifier::ext_equal]
pub struct TimelineEntryView {
    pub label: Option<Seq<char>>,
    pub links: Seq<LinkView>,
    pub times: Seq<Seq<char>>,
    pub groups: Seq<RepositoryGroupView>,
}

impl DeepView for Link {
    type V = LinkView;

    open spec fn deep_view(&self) -> LinkView {
        LinkView { text: self.text@, href: self.href.deep_view() }
    }
}

impl DeepView for StatusIcon {
    type V = StatusIconView;

    open spec fn deep_view(&self) -> StatusIconView {
        StatusIconView { class: self.class.deep_view() }
    }
}

impl DeepView for RepositoryGroup {
    type V = RepositoryGroupView;

    open spec fn deep_view(&self) -> RepositoryGroupView {
        RepositoryGroupView {
            opened_label: self.opened_label.deep_view(),
            reviewed_label: self.reviewed_label.deep_view(),
            links: self.links.deep_view(),
            statuses: self.statuses.deep_view(),
            times: self.times.deep_view(),
        }
    }
}

impl DeepView for TimelineEntry {
    type V = TimelineEntryView;

    open spec fn deep_view(&self) -> TimelineEntryView {
        TimelineEntryView {
            label: self.label.deep_view(),
            links: self.links.deep_view(),
            times: self.times.deep_view(),
            groups: self.groups.deep_view(),
        }
    }
}

impl DeepView for Document {
    type V = Seq<TimelineEntryView>;

    open spec fn deep_view(&self) -> Seq<TimelineEntryView> {
        self.entries.deep_view()
    }
}

} // verus!
