//! What the index holds of a file or a directory.

use vstd::prelude::*;

use crate::model;
use crate::model::{Action, Category, DocId, Document};
use crate::paths;

verus! {

/// The source instance that files and directories belong to.
pub const FS_INSTANCE: &'static str = "builtin:fs";

/// What the file system says of a path. `doc_id` is the id of the path's
/// document.
#[derive(Clone, Debug, PartialEq, Eq)]
pub struct FileFacts {
    pub path: String,
    pub doc_id: String,
    pub is_dir: bool,
    /// Seconds since the epoch; 0 where the time is unknown or before it.
    pub mtime: i64,
    pub size: u64,
}

/// How the extraction of a file's text ended.
#[derive(Clone, Debug, PartialEq, Eq)]
pub enum Extracted {
    Text(String),
    /// There is no text to be had now.
    Nothing,
    Failed,
}

/// How a file is presented.
#[derive(Clone, Debug, PartialEq, Eq)]
pub struct FileKind {
    pub icon_name: String,
    pub kind_label: String,
    pub mime: String,
}

/// Whether a file's text is to be extracted: it is no directory, and its
/// size is at most `max_file_size_mb` mebibytes.
pub open spec fn extracts(facts: FileFacts, max_file_size_mb: u64) -> bool {
    !facts.is_dir && facts.size <= max_file_size_mb * 1048576
}

/// Whether to extract the text of a file.
pub fn wants_extraction(facts: &FileFacts, max_file_size_mb: u64) -> (r: bool)
    requires
        max_file_size_mb * 1048576 <= u64::MAX,
    ensures
        r == extracts(*facts, max_file_size_mb),
{
    !facts.is_dir && facts.size <= max_file_size_mb * 1048576
}

/// The body of a path's document. Where there is no text to be had now, a
/// body that the index already holds is kept.
pub open spec fn body_of(
    extracts: bool,
    extracted: Extracted,
    held: Option<String>,
) -> Option<Seq<char>> {
    if !extracts {
        None
    } else {
        match extracted {
            Extracted::Text(t) => Some(t@),
            Extracted::Nothing => model::opt_view(held),
            Extracted::Failed => None,
        }
    }
}

/// The last component of a path, or nothing.
pub open spec fn title_of(path: Seq<char>) -> Seq<char> {
    match paths::file_name_of(path) {
        Some(n) => n,
        None => Seq::empty(),
    }
}

/// Whether `doc` describes the path: `extracted` is how its extraction
/// ended, where it was wanted, `held` the body that the index holds for it.
pub open spec fn describes(
    doc: Document,
    facts: FileFacts,
    max_file_size_mb: u64,
    extracted: Extracted,
    held: Option<String>,
    kind: FileKind,
) -> bool {
    &&& doc.id.0@ == facts.doc_id@
    &&& doc.category == Category::File
    &&& doc.title@ == title_of(facts.path@)
    &&& doc.subtitle@ == facts.path@
    &&& doc.path@ == facts.path@
    &&& model::opt_view(doc.icon_name) == Some(
        if facts.is_dir {
            "folder"@
        } else {
            kind.icon_name@
        },
    )
    &&& model::opt_view(doc.kind_label) == Some(
        if facts.is_dir {
            "Folder"@
        } else {
            kind.kind_label@
        },
    )
    &&& model::opt_view(doc.mime) == (if facts.is_dir {
        None
    } else {
        Some(kind.mime@)
    })
    &&& model::opt_view(doc.body) == body_of(extracts(facts, max_file_size_mb), extracted, held)
    &&& doc.extract_fail == (extracts(facts, max_file_size_mb) && extracted is Failed)
    &&& doc.mtime == facts.mtime
    &&& doc.size == facts.size
    &&& doc.action matches Action::OpenFile { path } && path@ == facts.path@
    &&& doc.secondary_action matches Some(Action::ShowInFileManager { path }) && path@
        == facts.path@
    &&& doc.sender is None
    &&& doc.recipients is None
    &&& doc.source_instance@ == FS_INSTANCE@
    &&& doc.extra@.len() == 0
}

/// The document of a path. `extracted` counts only where
/// [`wants_extraction`] says so.
pub fn index_file(
    facts: FileFacts,
    max_file_size_mb: u64,
    extracted: Extracted,
    held: Option<String>,
    kind: FileKind,
) -> (doc: Document)
    requires
        max_file_size_mb * 1048576 <= u64::MAX,
    ensures
        describes(doc, facts, max_file_size_mb, extracted, held, kind),
        doc.id.0@ == facts.doc_id@,
        doc.category == Category::File,
        doc.action matches Action::OpenFile { path } && path@ == facts.path@,
        doc.secondary_action matches Some(Action::ShowInFileManager { path }) && path@
            == facts.path@,
        doc.path@ == facts.path@,
        doc.subtitle@ == facts.path@,
        doc.title@ == (match paths::file_name_of(facts.path@) {
            Some(n) => n,
            None => Seq::empty(),
        }),
        doc.mtime == facts.mtime,
        doc.size == facts.size,
        doc.source_instance@ == "builtin:fs"@,
{
    let extract = wants_extraction(&facts, max_file_size_mb);
    let title = match paths::file_name(facts.path.as_str()) {
        Some(n) => n,
        None => String::new(),
    };
    let (body, extract_fail): (Option<String>, bool) = if !extract {
        (None, false)
    } else {
        match extracted {
            Extracted::Text(t) => (Some(t), false),
            Extracted::Nothing => (held, false),
            Extracted::Failed => (None, true),
        }
    };
    let (icon_name, kind_label, mime): (String, String, Option<String>) = if facts.is_dir {
        ("folder".to_string(), "Folder".to_string(), None)
    } else {
        (kind.icon_name, kind.kind_label, Some(kind.mime))
    };
    Document {
        id: DocId(facts.doc_id),
        category: Category::File,
        title,
        subtitle: facts.path.clone(),
        icon_name: Some(icon_name),
        kind_label: Some(kind_label),
        body,
        path: facts.path.clone(),
        mtime: facts.mtime,
        size: facts.size,
        action: Action::OpenFile { path: facts.path.clone() },
        extract_fail,
        sender: None,
        recipients: None,
        mime,
        source_instance: FS_INSTANCE.to_string(),
        secondary_action: Some(Action::ShowInFileManager { path: facts.path }),
        extra: Vec::new(),
    }
}

/// Law: a body that was recovered once outlives a later pass that finds no
/// text.
pub proof fn law_recovered_body_is_kept(
    doc: Document,
    facts: FileFacts,
    max_file_size_mb: u64,
    held: String,
    kind: FileKind,
)
    requires
        describes(doc, facts, max_file_size_mb, Extracted::Nothing, Some(held), kind),
        extracts(facts, max_file_size_mb),
    ensures
        model::opt_view(doc.body) == Some(held@),
        !doc.extract_fail,
{
}

/// Law: a file that is too large is indexed by its name alone, whatever an
/// extraction or the index would give.
pub proof fn law_large_files_go_by_name(
    doc: Document,
    facts: FileFacts,
    max_file_size_mb: u64,
    extracted: Extracted,
    held: Option<String>,
    kind: FileKind,
)
    requires
        describes(doc, facts, max_file_size_mb, extracted, held, kind),
        facts.size > max_file_size_mb * 1048576,
    ensures
        doc.body is None,
        !doc.extract_fail,
        doc.title@ == title_of(facts.path@),
{
}

/// Law: a file is opened by what was found. The document of a path opens
/// that path and shows it in the file manager, is listed under it with the
/// time and size that the file system gave, and belongs to the files.
pub proof fn law_a_found_file_opens_itself(
    doc: Document,
    facts: FileFacts,
    max_file_size_mb: u64,
    extracted: Extracted,
    held: Option<String>,
    kind: FileKind,
)
    requires
        describes(doc, facts, max_file_size_mb, extracted, held, kind),
    ensures
        doc.id.0@ == facts.doc_id@,
        doc.category == Category::File,
        doc.action matches Action::OpenFile { path } && path@ == facts.path@,
        doc.secondary_action matches Some(Action::ShowInFileManager { path }) && path@
            == facts.path@,
        doc.path@ == facts.path@,
        doc.subtitle@ == facts.path@,
        doc.mtime == facts.mtime,
        doc.size == facts.size,
        doc.source_instance@ == "builtin:fs"@,
        doc.sender is None,
        doc.recipients is None,
        doc.extra@.len() == 0,
{
}

/// Law: the document of an entry of a directory is titled by the entry's
/// name.
pub proof fn law_a_file_is_titled_by_its_name(
    doc: Document,
    facts: FileFacts,
    max_file_size_mb: u64,
    extracted: Extracted,
    held: Option<String>,
    kind: FileKind,
    dir: Seq<char>,
    name: Seq<char>,
)
    requires
        describes(doc, facts, max_file_size_mb, extracted, held, kind),
        paths::slashless(name),
        name.len() > 0,
        name != seq!['.'],
        name != seq!['.', '.'],
        dir.len() > 0,
        facts.path@ == dir.push('/') + name,
    ensures
        doc.title@ == name,
{
    paths::law_an_entry_lies_in_its_directory(dir, name);
}

/// Law: a file of a size that is read has the text that was extracted as its
/// body; where the extraction failed it has none and is marked; where there
/// is no text now, the body that the index holds stays. A directory has no
/// body and looks like a folder; a file looks as its kind does.
pub proof fn law_a_file_is_found_by_its_text(
    doc: Document,
    facts: FileFacts,
    max_file_size_mb: u64,
    extracted: Extracted,
    held: Option<String>,
    kind: FileKind,
)
    requires
        describes(doc, facts, max_file_size_mb, extracted, held, kind),
    ensures
        !facts.is_dir && facts.size <= max_file_size_mb * 1048576 ==> match extracted {
            Extracted::Text(t) => doc.body matches Some(b) && b@ == t@ && !doc.extract_fail,
            Extracted::Nothing => model::opt_view(doc.body) == model::opt_view(held)
                && !doc.extract_fail,
            Extracted::Failed => doc.body is None && doc.extract_fail,
        },
        facts.is_dir || facts.size > max_file_size_mb * 1048576 ==> doc.body is None
            && !doc.extract_fail,
        facts.is_dir ==> doc.mime is None && (doc.icon_name matches Some(i) && i@ == "folder"@) && (
        doc.kind_label matches Some(k) && k@ == "Folder"@),
        !facts.is_dir ==> (doc.icon_name matches Some(i) && i@ == kind.icon_name@) && (
        doc.kind_label matches Some(k) && k@ == kind.kind_label@) && (doc.mime matches Some(m) && m@
            == kind.mime@),
{
}

} // verus!
