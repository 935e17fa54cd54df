//! Zone layout content: notes and diagram images per area, each carrying
//! its audit status.

use vstd::prelude::*;

use crate::text::{append_str, chars_of, string_of};

verus! {

#[derive(Debug, Clone, Copy, PartialEq, Eq, Structural)]
pub enum AuditStatus {
    Unaudited,
    Verified,
    Outdated,
    Corrected,
}

#[derive(Debug, Clone, PartialEq)]
pub struct Audit {
    pub status: AuditStatus,
    pub verified_patch: Option<String>,
    pub correction: Option<String>,
}

pub struct AuditView {
    pub status: AuditStatus,
    pub verified_patch: Option<Seq<char>>,
    pub correction: Option<Seq<char>>,
}

impl DeepView for Audit {
    type V = AuditView;

    open spec fn deep_view(&self) -> AuditView {
        AuditView {
            status: self.status,
            verified_patch: self.verified_patch.deep_view(),
            correction: self.correction.deep_view(),
        }
    }
}

/// A description or note line with its audit.
#[derive(Debug, Clone, PartialEq)]
pub struct LayoutItem {
    pub text: String,
    pub audit: Audit,
}

pub struct LayoutItemView {
    pub text: Seq<char>,
    pub audit: AuditView,
}

impl DeepView for LayoutItem {
    type V = LayoutItemView;

    open spec fn deep_view(&self) -> LayoutItemView {
        LayoutItemView { text: self.text@, audit: self.audit.deep_view() }
    }
}

/// A layout diagram, by file name, with its audit.
#[derive(Debug, Clone, PartialEq)]
pub struct LayoutImage {
    pub file: String,
    pub audit: Audit,
}

pub struct LayoutImageView {
    pub file: Seq<char>,
    pub audit: AuditView,
}

impl DeepView for LayoutImage {
    type V = LayoutImageView;

    open spec fn deep_view(&self) -> LayoutImageView {
        LayoutImageView { file: self.file@, audit: self.audit.deep_view() }
    }
}

#[derive(Debug, Clone, PartialEq)]
pub struct LayoutSource {
    pub document: String,
    pub images_author: String,
    pub notes_author: String,
}

#[derive(Debug, Clone, PartialEq)]
pub struct LayoutEntry {
    pub area_id: String,
    pub act: u8,
    pub display_name: String,
    pub docx_headings: Vec<String>,
    pub descriptions: Vec<LayoutItem>,
    pub notes: Vec<LayoutItem>,
    pub images: Vec<LayoutImage>,
    pub source: LayoutSource,
    pub audit: Audit,
}

pub struct LayoutEntryView {
    pub area_id: Seq<char>,
    pub act: u8,
    pub display_name: Seq<char>,
    pub descriptions: Seq<LayoutItemView>,
    pub notes: Seq<LayoutItemView>,
    pub images: Seq<LayoutImageView>,
}

impl DeepView for LayoutEntry {
    type V = LayoutEntryView;

    open spec fn deep_view(&self) -> LayoutEntryView {
        LayoutEntryView {
            area_id: self.area_id@,
            act: self.act,
            display_name: self.display_name@,
            descriptions: self.descriptions.deep_view(),
            notes: self.notes.deep_view(),
            images: self.images.deep_view(),
        }
    }
}

/// `base` joined with the relative path `part` (a `/` between them unless
/// `base` is empty or already ends with one).
pub open spec fn join_path(base: Seq<char>, part: Seq<char>) -> Seq<char> {
    if base.len() == 0 || base.last() == '/' {
        base + part
    } else {
        base + "/"@ + part
    }
}

/// `base` joined with `part`.
pub fn join(base: &str, part: &str) -> (r: String)
    ensures
        r@ == join_path(base@, part@),
{
    let mut v = chars_of(base);
    if v.len() > 0 && v[v.len() - 1] == '/' {
        append_str(&mut v, part);
    } else if v.len() == 0 {
        append_str(&mut v, part);
    } else {
        append_str(&mut v, "/");
        append_str(&mut v, part);
    }
    string_of(&v)
}

/// Where the layout content lives under the project `root`.
pub fn layouts_dir(root: &str) -> (r: String)
    ensures
        r@ == join_path(join_path(root@, "content"@), "layouts"@),
{
    let c = join(root, "content");
    join(c.as_str(), "layouts")
}

} // verus!
