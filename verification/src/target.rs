//! The data that flows through the pipeline: the links found on a page and
//! the download targets made from them.

use vstd::prelude::*;
use crate::path::is_plain_name;

verus! {

/// How the on-disk name of a target is chosen. One mode is selected for a
/// whole run.
#[derive(Clone, Copy, Debug, PartialEq, Eq, Structural)]
pub enum NamingMode {
    /// The name is the last path component of the link itself.
    Derived,
    /// The name is the human-readable title of the link, or, where the link
    /// has none, the text that it shows.
    Original,
}

impl NamingMode {
    /// The mode that a boolean "keep the original name" switch selects.
    pub fn from_flag(use_original: bool) -> (mode: NamingMode)
        ensures
            mode == Self::spec_from_flag(use_original),
    {
        if use_original {
            NamingMode::Original
        } else {
            NamingMode::Derived
        }
    }

    pub open spec fn spec_from_flag(use_original: bool) -> NamingMode {
        if use_original {
            NamingMode::Original
        } else {
            NamingMode::Derived
        }
    }
}

/// What the extractor reads of one attachment link of a page.
#[derive(Debug, PartialEq, Eq)]
pub struct LinkElement {
    /// The value of the link's target attribute, if the link has one.
    pub href: Option<String>,
    /// The value of the link's title attribute, if the link has one.
    pub title: Option<String>,
    /// The text that the link shows: the text nodes below it, joined in
    /// document order, with character references resolved and tags left
    /// out.
    pub inner_text: String,
}

/// The mathematical value of a [`LinkElement`].
pub ghost struct LinkElementView {
    pub href: Option<Seq<char>>,
    pub title: Option<Seq<char>>,
    pub inner_text: Seq<char>,
}

impl View for LinkElement {
    type V = LinkElementView;

    open spec fn view(&self) -> LinkElementView {
        LinkElementView {
            href: match self.href {
                Some(h) => Some(h@),
                None => None,
            },
            title: match self.title {
                Some(t) => Some(t@),
                None => None,
            },
            inner_text: self.inner_text@,
        }
    }
}

impl DeepView for LinkElement {
    type V = LinkElementView;

    open spec fn deep_view(&self) -> LinkElementView {
        self@
    }
}

/// One file to fetch and the name to store it under.
#[derive(Debug, PartialEq, Eq)]
pub struct DownloadTarget {
    /// The absolute address of the resource.
    pub url: String,
    /// The path, relative to the destination directory, under which the
    /// resource is stored and by which its presence is tested.
    pub filename: String,
}

/// The mathematical value of a [`DownloadTarget`].
pub ghost struct DownloadTargetView {
    pub url: Seq<char>,
    pub filename: Seq<char>,
}

impl DownloadTargetView {
    /// What a target must meet to be downloaded: an address that is not
    /// empty, and a plain name, so that the file lands in the destination
    /// directory and nowhere else.
    pub open spec fn well_formed(self) -> bool {
        self.url.len() > 0 && is_plain_name(self.filename)
    }
}

impl View for DownloadTarget {
    type V = DownloadTargetView;

    open spec fn view(&self) -> DownloadTargetView {
        DownloadTargetView { url: self.url@, filename: self.filename@ }
    }
}

impl DeepView for DownloadTarget {
    type V = DownloadTargetView;

    open spec fn deep_view(&self) -> DownloadTargetView {
        self@
    }
}

impl Clone for DownloadTarget {
    fn clone(&self) -> (copy: Self)
        ensures
            copy@ == self@,
    {
        DownloadTarget { url: self.url.clone(), filename: self.filename.clone() }
    }
}

} // verus!
