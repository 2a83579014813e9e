//! The data that crosses the wire: the release publication payload and the
//! category and application listings.
//!
//! Listing fields hold the raw bytes that came over the wire; the store serves
//! UTF-8, but nothing here depends on that, and callers may decode as they
//! see fit.

use vstd::prelude::*;

verus! {

/// The payload of a release publication: a download URL for the tarball, a
/// detached signature over it, and the channel flag.
#[derive(Debug, Clone)]
pub struct NewRelease<'a> {
    pub download: &'a str,
    pub signature: &'a str,
    pub nightly: bool,
}

/// One store category, as the listing endpoint serves it.
#[derive(Debug, Clone, PartialEq, Eq)]
pub struct Category {
    pub id: Vec<u8>,
    pub name: Vec<u8>,
}

/// One release of an application, as the platform listing serves it.
#[derive(Debug, Clone, PartialEq, Eq)]
pub struct AppRelease {
    pub version: Vec<u8>,
    pub download: Vec<u8>,
}

/// One application with its releases, as the platform listing serves it.
#[derive(Debug, Clone, PartialEq, Eq)]
pub struct App {
    pub id: Vec<u8>,
    pub name: Vec<u8>,
    pub releases: Vec<AppRelease>,
}

/// The mathematical value of a `Category`.
pub ghost struct CategoryView {
    pub id: Seq<u8>,
    pub name: Seq<u8>,
}

/// The mathematical value of an `AppRelease`.
pub ghost struct AppReleaseView {
    pub version: Seq<u8>,
    pub download: Seq<u8>,
}

/// The mathematical value of an `App`.
pub ghost struct AppView {
    pub id: Seq<u8>,
    pub name: Seq<u8>,
    pub releases: Seq<AppReleaseView>,
}

impl View for Category {
    type V = CategoryView;

    open spec fn view(&self) -> CategoryView {
        CategoryView { id: self.id@, name: self.name@ }
    }
}

impl View for AppRelease {
    type V = AppReleaseView;

    open spec fn view(&self) -> AppReleaseView {
        AppReleaseView { version: self.version@, download: self.download@ }
    }
}

/// The views of a sequence of releases.
pub open spec fn rel_views(rs: Seq<AppRelease>) -> Seq<AppReleaseView> {
    rs.map_values(|r: AppRelease| r@)
}

impl View for App {
    type V = AppView;

    open spec fn view(&self) -> AppView {
        AppView { id: self.id@, name: self.name@, releases: rel_views(self.releases@) }
    }
}

/// Text that the wire format can carry without numeric escapes: no control
/// bytes. Everything the canonical listing grammar produces satisfies this.
pub open spec fn text_wf(s: Seq<u8>) -> bool {
    forall|i: int| 0 <= i < s.len() ==> s[i] >= 0x20
}

impl CategoryView {
    /// Both fields are free of control bytes.
    pub open spec fn wf(self) -> bool {
        text_wf(self.id) && text_wf(self.name)
    }
}

impl AppReleaseView {
    /// Both fields are free of control bytes.
    pub open spec fn wf(self) -> bool {
        text_wf(self.version) && text_wf(self.download)
    }
}

impl AppView {
    /// All fields, of the app and of each release, are free of control bytes.
    pub open spec fn wf(self) -> bool {
        text_wf(self.id) && text_wf(self.name) && forall|i: int|
            0 <= i < self.releases.len() ==> (#[trigger] self.releases[i]).wf()
    }
}

} // verus!
