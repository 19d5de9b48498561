//! What previews read off a hit.

use vstd::prelude::*;

use crate::model;
use crate::model::{Action, Hit};
use crate::paths;
use crate::text;

verus! {

/// How the preview window is to be sized.
#[derive(Clone, Copy, Debug, PartialEq, Eq, Structural)]
pub enum SizingPreference {
    /// As large as allowed.
    FixedCap,
    /// As large as the content.
    FitToContent,
    /// As large as allowed; the content scrolls by itself.
    OwnsScroll,
}

/// The path that an action is about.
pub open spec fn action_path(action: Action) -> Option<Seq<char>> {
    match action {
        Action::OpenFile { path } => Some(path@),
        Action::ShowInFileManager { path } => Some(path@),
        _ => None,
    }
}

/// The path that a hit is about.
pub fn file_path(hit: &Hit) -> (r: Option<&String>)
    ensures
        match r {
            Some(p) => action_path(hit.action) == Some(p@),
            None => action_path(hit.action) is None,
        },
{
    match &hit.action {
        Action::OpenFile { path } => Some(path),
        Action::ShowInFileManager { path } => Some(path),
        _ => None,
    }
}

/// Whether the hit is labelled as a folder.
pub open spec fn labelled_folder(hit: Hit) -> bool {
    hit.kind_label matches Some(k) && k@ == "Folder"@
}

/// Whether the hit is labelled as a folder.
pub fn is_folder(hit: &Hit) -> (r: bool)
    ensures
        r == labelled_folder(*hit),
{
    match &hit.kind_label {
        Some(k) => text::text_eq(k.as_str(), "Folder"),
        None => false,
    }
}

/// Whether the hit's label begins with `prefix`.
pub open spec fn label_begins(hit: Hit, prefix: Seq<char>) -> bool {
    hit.kind_label matches Some(k) && prefix.is_prefix_of(k@)
}

/// Whether the hit's label begins with `prefix`.
pub fn label_starts_with(hit: &Hit, prefix: &str) -> (r: bool)
    ensures
        r == label_begins(*hit, prefix@),
{
    match &hit.kind_label {
        Some(k) => text::text_starts_with(k.as_str(), prefix),
        None => false,
    }
}

/// The last component of a path, or `otherwise`.
pub open spec fn name_or(path: Seq<char>, otherwise: Seq<char>) -> Seq<char> {
    match paths::file_name_of(path) {
        Some(n) => n,
        None => otherwise,
    }
}

/// The last component of a path, or `otherwise`.
pub fn file_name_or(path: &str, otherwise: &str) -> (r: String)
    ensures
        r@ == name_or(path@, otherwise@),
{
    match paths::file_name(path) {
        Some(n) => n,
        None => otherwise.to_string(),
    }
}

/// A row of a listing.
#[derive(Clone, Debug, PartialEq, Eq)]
pub enum Row {
    /// A message.
    Status(String),
    Entry { icon: String, name: String, size: Option<String> },
}

/// A row as plain values.
pub enum RowView {
    Status(Seq<char>),
    Entry { icon: Seq<char>, name: Seq<char>, size: Option<Seq<char>> },
}

impl View for Row {
    type V = RowView;

    open spec fn view(&self) -> RowView {
        match self {
            Row::Status(s) => RowView::Status(s@),
            Row::Entry { icon, name, size } => RowView::Entry {
                icon: icon@,
                name: name@,
                size: model::opt_view(*size),
            },
        }
    }
}

/// Rows as plain values.
pub open spec fn row_views(rows: Seq<Row>) -> Seq<RowView> {
    Seq::new(rows.len(), |i: int| rows[i]@)
}

/// Law: the path of a hit is the one that it opens or shows; hits that do
/// neither have none.
pub proof fn law_a_hit_is_about_the_path_it_opens(action: Action)
    ensures
        action matches Action::OpenFile { path } ==> action_path(action) == Some(path@),
        action matches Action::ShowInFileManager { path } ==> action_path(action) == Some(path@),
        !(action is OpenFile) && !(action is ShowInFileManager) ==> action_path(action) is None,
{
}

/// Law: a label begins with each of its beginnings, and a hit without a
/// label with nothing; folders are labelled as such. A file is called by its
/// name, and by something else only where it has none.
pub proof fn law_labels_and_names(hit: Hit, prefix: Seq<char>, rest: Seq<char>, path: Seq<char>)
    ensures
        hit.kind_label matches Some(k) ==> k@ == prefix + rest ==> label_begins(hit, prefix),
        hit.kind_label is None ==> !label_begins(hit, prefix) && !labelled_folder(hit),
        hit.kind_label matches Some(k) ==> (labelled_folder(hit) <==> k@ == "Folder"@),
        paths::file_name_of(path) matches Some(n) ==> name_or(path, rest) == n,
        paths::file_name_of(path) is None ==> name_or(path, rest) == rest,
{
    assert((prefix + rest).subrange(0, prefix.len() as int) =~= prefix);
}

} // verus!
