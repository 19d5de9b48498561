//! The plain data that the library's parts exchange: documents, hits,
//! actions and the fields that plugins declare.

use vstd::prelude::*;

use crate::text;

verus! {

/// The stable identity of a document.
#[derive(Clone, Debug, PartialEq, Eq)]
pub struct DocId(pub String);

/// What kind of thing a document stands for.
#[derive(Clone, Copy, Debug, PartialEq, Eq, Structural)]
pub enum Category {
    App,
    File,
    Mail,
    Attachment,
    Calculator,
    Shell,
}

/// What happens when the user opens a hit.
#[derive(Clone, Debug, PartialEq, Eq)]
pub enum Action {
    Launch {
        command: String,
        terminal: bool,
        desktop_id: Option<String>,
        desktop_file: Option<String>,
        working_dir: Option<String>,
    },
    OpenFile { path: String },
    ShowInFileManager { path: String },
    OpenMail { message_id: String },
    CopyText { text: String },
    ReplaceQuery { q: String },
}

/// The value of a plugin field.
#[derive(Clone, Debug, PartialEq, Eq)]
pub enum PluginValue {
    Text(String),
    I64(i64),
    U64(u64),
    Bool(bool),
}

/// A plugin field of one document.
#[derive(Clone, Debug, PartialEq, Eq)]
pub struct ExtraFieldValue {
    pub field: String,
    pub value: PluginValue,
}

/// One indexed thing.
#[derive(Clone, Debug, PartialEq, Eq)]
pub struct Document {
    pub id: DocId,
    pub category: Category,
    pub title: String,
    pub subtitle: String,
    pub icon_name: Option<String>,
    pub kind_label: Option<String>,
    pub body: Option<String>,
    pub path: String,
    pub mtime: i64,
    pub size: u64,
    pub action: Action,
    pub extract_fail: bool,
    pub sender: Option<String>,
    pub recipients: Option<String>,
    pub mime: Option<String>,
    pub source_instance: String,
    pub secondary_action: Option<Action>,
    pub extra: Vec<ExtraFieldValue>,
}

/// One search result as a preview plugin sees it. Its score, a floating
/// point number, travels beside it.
#[derive(Clone, Debug, PartialEq, Eq)]
pub struct Hit {
    pub id: DocId,
    pub category: Category,
    pub title: String,
    pub subtitle: String,
    pub icon_name: Option<String>,
    pub kind_label: Option<String>,
    pub action: Action,
    pub extract_fail: bool,
    pub sender: Option<String>,
    pub recipients: Option<String>,
    pub body: Option<String>,
    pub secondary_action: Option<Action>,
    pub source_instance: String,
    pub mime: Option<String>,
}

/// The view of an optional text.
pub open spec fn opt_view(o: Option<String>) -> Option<Seq<char>> {
    match o {
        Some(s) => Some(s@),
        None => None,
    }
}

/// A copy of an optional text.
pub fn clone_opt(o: &Option<String>) -> (r: Option<String>)
    ensures
        r == *o,
{
    match o {
        Some(s) => Some(s.clone()),
        None => None,
    }
}

impl Category {
    /// The name under which a category is stored.
    pub open spec fn name(self) -> Seq<char> {
        match self {
            Category::App => "app"@,
            Category::File => "file"@,
            Category::Mail => "mail"@,
            Category::Attachment => "attachment"@,
            Category::Calculator => "calculator"@,
            Category::Shell => "shell"@,
        }
    }

    /// The category that a stored name stands for; an unknown name stands
    /// for a file.
    pub open spec fn of_name(name: Seq<char>) -> Category {
        if name == "app"@ {
            Category::App
        } else if name == "mail"@ {
            Category::Mail
        } else if name == "attachment"@ {
            Category::Attachment
        } else if name == "calculator"@ {
            Category::Calculator
        } else if name == "shell"@ {
            Category::Shell
        } else {
            Category::File
        }
    }

    /// The name under which the category is stored.
    pub fn as_str(&self) -> (r: &'static str)
        ensures
            r@ == self.name(),
    {
        match self {
            Category::App => "app",
            Category::File => "file",
            Category::Mail => "mail",
            Category::Attachment => "attachment",
            Category::Calculator => "calculator",
            Category::Shell => "shell",
        }
    }

    /// Reads a stored category name.
    pub fn from_name(name: &str) -> (r: Category)
        ensures
            r == Category::of_name(name@),
    {
        if text::text_eq(name, "app") {
            Category::App
        } else if text::text_eq(name, "mail") {
            Category::Mail
        } else if text::text_eq(name, "attachment") {
            Category::Attachment
        } else if text::text_eq(name, "calculator") {
            Category::Calculator
        } else if text::text_eq(name, "shell") {
            Category::Shell
        } else {
            Category::File
        }
    }
}

/// Law: reading a stored category name gives back the category.
pub proof fn law_category_round_trip(c: Category)
    ensures
        Category::of_name(c.name()) == c,
{
    reveal_strlit("app");
    reveal_strlit("file");
    reveal_strlit("mail");
    reveal_strlit("attachment");
    reveal_strlit("calculator");
    reveal_strlit("shell");
    assert("app"@.len() == 3);
    assert("mail"@[0] == 'm' && "file"@[0] == 'f');
    assert("attachment"@[1] == 't' && "calculator"@[1] == 'a');
    assert("attachment"@.len() == 10 && "calculator"@.len() == 10);
    assert("shell"@.len() == 5 && "mail"@.len() == 4 && "file"@.len() == 4);
}

} // verus!
