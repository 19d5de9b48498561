//! The index: its schema and the layout of its fields.

use tantivy::schema::Schema;
use vstd::prelude::*;

use crate::fields;
use crate::fields::{FieldDef, FieldKind};
use crate::name_map::NameMap;
use crate::order;
use crate::plugin_schema;
use crate::plugin_schema::{CompiledPluginSchema, PluginFieldSpec, SchemaError};

verus! {

/// Version of the on-disk layout. An index of another version is rebuilt.
pub const INDEX_VERSION: u32 = 9;

/// File that holds the version of an index directory.
pub const INDEX_VERSION_FILE: &'static str = "index_version.txt";

/// The schema and the numbers of its built-in fields.
pub struct LixunSchema {
    pub schema: Schema,
    pub id: u32,
    pub category: u32,
    pub title: u32,
    pub title_terms: u32,
    pub title_initials: u32,
    pub title_prefixes: u32,
    pub subtitle: u32,
    pub icon_name: u32,
    pub kind_label: u32,
    pub body: u32,
    pub path: u32,
    pub mtime: u32,
    pub size: u32,
    pub action: u32,
    pub secondary_action: u32,
    pub extract_fail: u32,
    pub sender: u32,
    pub recipients: u32,
    pub source_instance: u32,
}

/// The definition of a text field that the unstemmed analyzer indexes.
pub open spec fn spotlight_def(name: Seq<char>, stored: bool) -> FieldDef {
    fields::text_def(name, Some("spotlight"@), true, stored)
}

/// The definition of a text field that is only stored.
pub open spec fn stored_def(name: Seq<char>) -> FieldDef {
    fields::text_def(name, None, false, true)
}

/// The built-in fields, in the order of their numbers.
pub open spec fn base_fields() -> Seq<FieldDef> {
    seq![
        fields::text_def("id"@, Some("raw"@), false, true),
        fields::text_def("category"@, Some("default"@), true, true),
        spotlight_def("title"@, true),
        spotlight_def("title_terms"@, false),
        spotlight_def("title_initials"@, false),
        spotlight_def("title_prefixes"@, false),
        stored_def("subtitle"@),
        stored_def("icon_name"@),
        stored_def("kind_label"@),
        fields::text_def("body"@, Some("spotlight_stem"@), true, true),
        spotlight_def("path"@, true),
        fields::numeric_def("mtime"@, FieldKind::I64, false, false, true),
        fields::numeric_def("size"@, FieldKind::U64, false, false, true),
        stored_def("action"@),
        stored_def("secondary_action"@),
        fields::numeric_def("extract_fail"@, FieldKind::Bool, false, false, true),
        spotlight_def("sender"@, true),
        spotlight_def("recipients"@, true),
        fields::text_def("source_instance"@, Some("raw"@), false, true),
    ]
}

/// A number that tells the built-in field names apart.
spec fn signature(s: Seq<char>) -> nat {
    s.len() * 0x20_0000 + (if s.len() == 14 {
        s[6] as nat
    } else {
        s[0] as nat
    })
}

spec fn signatures() -> Seq<nat> {
    seq![
        2 * 0x20_0000 + 105,
        8 * 0x20_0000 + 99,
        5 * 0x20_0000 + 116,
        11 * 0x20_0000 + 116,
        14 * 0x20_0000 + 105,
        14 * 0x20_0000 + 112,
        8 * 0x20_0000 + 115,
        9 * 0x20_0000 + 105,
        10 * 0x20_0000 + 107,
        4 * 0x20_0000 + 98,
        4 * 0x20_0000 + 112,
        5 * 0x20_0000 + 109,
        4 * 0x20_0000 + 115,
        6 * 0x20_0000 + 97,
        16 * 0x20_0000 + 115,
        12 * 0x20_0000 + 101,
        6 * 0x20_0000 + 115,
        10 * 0x20_0000 + 114,
        15 * 0x20_0000 + 115,
    ]
}

proof fn lemma_signatures()
    ensures
        base_fields().len() == 19,
        forall|i: int|
            0 <= i < 19 ==> signature((#[trigger] base_fields()[i]).name) == signatures()[i],
        forall|i: int| 0 <= i < 19 ==> (#[trigger] base_fields()[i]).name.len() > 0,
        forall|i: int| 0 <= i < 19 ==> (#[trigger] base_fields()[i]).name[0] != '-',
{
    reveal_strlit("id");
    reveal_strlit("category");
    reveal_strlit("title");
    reveal_strlit("title_terms");
    reveal_strlit("title_initials");
    reveal_strlit("title_prefixes");
    reveal_strlit("subtitle");
    reveal_strlit("icon_name");
    reveal_strlit("kind_label");
    reveal_strlit("body");
    reveal_strlit("path");
    reveal_strlit("mtime");
    reveal_strlit("size");
    reveal_strlit("action");
    reveal_strlit("secondary_action");
    reveal_strlit("extract_fail");
    reveal_strlit("sender");
    reveal_strlit("recipients");
    reveal_strlit("source_instance");
}

proof fn lemma_base_names_differ()
    ensures
        base_fields().len() == 19,
        forall|i: int, j: int|
            0 <= i < j < 19 ==> (#[trigger] base_fields()[i]).name != (
            #[trigger] base_fields()[j]).name,
        forall|i: int| 0 <= i < 19 ==> (#[trigger] base_fields()[i]).name.len() > 0,
        forall|i: int| 0 <= i < 19 ==> (#[trigger] base_fields()[i]).name[0] != '-',
{
    lemma_signatures();
    assert forall|i: int, j: int| 0 <= i < j < 19 implies (#[trigger] base_fields()[i]).name != (
    #[trigger] base_fields()[j]).name by {
        assert(signatures()[i] != signatures()[j]);
        assert(signature(base_fields()[i].name) == signatures()[i]);
        assert(signature(base_fields()[j].name) == signatures()[j]);
    }
}

impl LixunSchema {
    /// Whether the fields have the numbers of the built-in layout, and the
    /// schema starts with it.
    pub open spec fn wf(&self) -> bool {
        &&& self.id == 0
        &&& self.category == 1
        &&& self.title == 2
        &&& self.title_terms == 3
        &&& self.title_initials == 4
        &&& self.title_prefixes == 5
        &&& self.subtitle == 6
        &&& self.icon_name == 7
        &&& self.kind_label == 8
        &&& self.body == 9
        &&& self.path == 10
        &&& self.mtime == 11
        &&& self.size == 12
        &&& self.action == 13
        &&& self.secondary_action == 14
        &&& self.extract_fail == 15
        &&& self.sender == 16
        &&& self.recipients == 17
        &&& self.source_instance == 18
        &&& base_fields().is_prefix_of(fields::schema_fields(self.schema))
    }
}

/// Adds the built-in fields to an empty schema.
fn base_builder() -> (b: tantivy::schema::SchemaBuilder)
    ensures
        fields::builder_fields(b) == base_fields(),
{
    let mut b = fields::new_builder();
    let ghost base = base_fields();
    proof {
        lemma_base_names_differ();
        assert(base.take(0) =~= Seq::<FieldDef>::empty());
    }
    let _ = fields::add_text_field(&mut b, "id", Some("raw"), false, true);
    proof {
        assert(fields::builder_fields(b) =~= base.take(1));
    }
    let _ = fields::add_text_field(&mut b, "category", Some("default"), true, true);
    proof {
        assert(fields::builder_fields(b) =~= base.take(2));
    }
    let _ = fields::add_text_field(&mut b, "title", Some("spotlight"), true, true);
    proof {
        assert(fields::builder_fields(b) =~= base.take(3));
    }
    let _ = fields::add_text_field(&mut b, "title_terms", Some("spotlight"), true, false);
    proof {
        assert(fields::builder_fields(b) =~= base.take(4));
    }
    let _ = fields::add_text_field(&mut b, "title_initials", Some("spotlight"), true, false);
    proof {
        assert(fields::builder_fields(b) =~= base.take(5));
    }
    let _ = fields::add_text_field(&mut b, "title_prefixes", Some("spotlight"), true, false);
    proof {
        assert(fields::builder_fields(b) =~= base.take(6));
    }
    let _ = fields::add_text_field(&mut b, "subtitle", None, false, true);
    proof {
        assert(fields::builder_fields(b) =~= base.take(7));
    }
    let _ = fields::add_text_field(&mut b, "icon_name", None, false, true);
    proof {
        assert(fields::builder_fields(b) =~= base.take(8));
    }
    let _ = fields::add_text_field(&mut b, "kind_label", None, false, true);
    proof {
        assert(fields::builder_fields(b) =~= base.take(9));
    }
    let _ = fields::add_text_field(&mut b, "body", Some("spotlight_stem"), true, true);
    proof {
        assert(fields::builder_fields(b) =~= base.take(10));
    }
    let _ = fields::add_text_field(&mut b, "path", Some("spotlight"), true, true);
    proof {
        assert(fields::builder_fields(b) =~= base.take(11));
    }
    let _ = fields::add_i64_field(&mut b, "mtime", false, false, true);
    proof {
        assert(fields::builder_fields(b) =~= base.take(12));
    }
    let _ = fields::add_u64_field(&mut b, "size", false, false, true);
    proof {
        assert(fields::builder_fields(b) =~= base.take(13));
    }
    let _ = fields::add_text_field(&mut b, "action", None, false, true);
    proof {
        assert(fields::builder_fields(b) =~= base.take(14));
    }
    let _ = fields::add_text_field(&mut b, "secondary_action", None, false, true);
    proof {
        assert(fields::builder_fields(b) =~= base.take(15));
    }
    let _ = fields::add_bool_field(&mut b, "extract_fail", false, false, true);
    proof {
        assert(fields::builder_fields(b) =~= base.take(16));
    }
    let _ = fields::add_text_field(&mut b, "sender", Some("spotlight"), true, true);
    proof {
        assert(fields::builder_fields(b) =~= base.take(17));
    }
    let _ = fields::add_text_field(&mut b, "recipients", Some("spotlight"), true, true);
    proof {
        assert(fields::builder_fields(b) =~= base.take(18));
    }
    let _ = fields::add_text_field(&mut b, "source_instance", Some("raw"), false, true);
    proof {
        assert(fields::builder_fields(b) =~= base);
    }
    b
}

/// The index's schema and its plugin fields.
pub struct LixunIndex {
    pub schema: LixunSchema,
    pub plugins: CompiledPluginSchema,
}

/// `index` is the layout with the built-in fields and the plugin fields
/// `all`, the latter in the order of their names.
pub open spec fn layout_of(
    all: Seq<(Seq<char>, PluginFieldSpec)>,
    schema: LixunSchema,
    plugins: CompiledPluginSchema,
) -> bool {
    exists|p: Seq<usize>| #[trigger]
        order::sorts(plugin_schema::name_keys(all), p) && plugin_schema::compiled(
            plugin_schema::arranged(all, p),
            base_fields().len(),
            p.len() as int,
            plugins,
        ) && fields::schema_fields(schema.schema) == base_fields() + Seq::new(
            p.len(),
            |i: int| plugin_schema::def_of(plugin_schema::arranged(all, p)[i]),
        )
}

impl LixunSchema {
    /// The schema without plugin fields.
    pub fn build() -> (r: LixunSchema)
        ensures
            r.wf(),
            fields::schema_fields(r.schema) == base_fields(),
    {
        let b = base_builder();
        let schema = fields::build_schema(b);
        let r = LixunSchema::numbered(schema);
        proof {
            assert(base_fields() =~= base_fields().subrange(0, base_fields().len() as int));
        }
        r
    }

    fn numbered(schema: Schema) -> (r: LixunSchema)
        ensures
            r.schema == schema,
            base_fields().is_prefix_of(fields::schema_fields(schema)) ==> r.wf(),
    {
        LixunSchema {
            schema,
            id: 0,
            category: 1,
            title: 2,
            title_terms: 3,
            title_initials: 4,
            title_prefixes: 5,
            subtitle: 6,
            icon_name: 7,
            kind_label: 8,
            body: 9,
            path: 10,
            mtime: 11,
            size: 12,
            action: 13,
            secondary_action: 14,
            extract_fail: 15,
            sender: 16,
            recipients: 17,
            source_instance: 18,
        }
    }

    /// The schema with the fields that plugins declare.
    pub fn build_with_plugins(by_kind: &NameMap<Vec<PluginFieldSpec>>) -> (r: Result<
        (LixunSchema, CompiledPluginSchema),
        SchemaError,
    >)
        requires
            by_kind.wf(),
            plugin_schema::distinct(
                plugin_schema::flat(by_kind@),
                plugin_schema::flat(by_kind@).len() as int,
            ) ==> plugin_schema::takes_all(base_fields(), plugin_schema::flat(by_kind@)),
        ensures
            match r {
                Ok((schema, plugins)) => {
                    &&& schema.wf()
                    &&& plugins.wf()
                    &&& plugin_schema::distinct(
                        plugin_schema::flat(by_kind@),
                        plugin_schema::flat(by_kind@).len() as int,
                    )
                    &&& layout_of(plugin_schema::flat(by_kind@), schema, plugins)
                },
                Err(e) => plugin_schema::first_collision(plugin_schema::flat(by_kind@), e),
            },
    {
        let mut b = base_builder();
        match plugin_schema::add_plugin_fields_to_schema(&mut b, by_kind) {
            Err(e) => Err(e),
            Ok(plugins) => {
                let schema = fields::build_schema(b);
                proof {
                    let all = fields::schema_fields(schema);
                    assert(base_fields() =~= all.subrange(0, base_fields().len() as int));
                }
                Ok((LixunSchema::numbered(schema), plugins))
            },
        }
    }
}

/// Whether the schema has a text field of this name under this number,
/// indexed by this analyzer, with positions, and kept or not.
pub open spec fn searched(
    defs: Seq<FieldDef>,
    n: u32,
    name: Seq<char>,
    analyzer: Seq<char>,
    kept: bool,
) -> bool {
    let d = defs[n as int];
    d.name == name && d.kind == FieldKind::Str && d.tokenizer == Some(analyzer) && d.positions
        && d.stored == kept
}

/// Whether the schema has a text field of this name under this number that
/// is kept and not searched.
pub open spec fn only_kept(defs: Seq<FieldDef>, n: u32, name: Seq<char>) -> bool {
    let d = defs[n as int];
    d.name == name && d.kind == FieldKind::Str && d.tokenizer is None && d.stored
}

/// Whether the schema has a text field of this name under this number that
/// is matched as a whole and kept.
pub open spec fn whole(defs: Seq<FieldDef>, n: u32, name: Seq<char>) -> bool {
    let d = defs[n as int];
    d.name == name && d.kind == FieldKind::Str && d.tokenizer == Some("raw"@) && d.stored
}

/// Whether the schema has a number or flag of this name under this number
/// that is kept.
pub open spec fn number(defs: Seq<FieldDef>, n: u32, name: Seq<char>, kind: FieldKind) -> bool {
    let d = defs[n as int];
    d.name == name && d.kind == kind && d.stored
}

/// Law: what each built-in field is for. Documents are told apart by their
/// whole id and source. Titles, what is derived from them, paths and people
/// are searched word by word, bodies by the stems of their words. What a hit
/// shows and what it opens is kept; what is derived from a title is not.
pub proof fn law_fields_serve_their_purpose(s: LixunSchema)
    requires
        s.wf(),
    ensures
        ({
            let defs = fields::schema_fields(s.schema);
            &&& whole(defs, s.id, "id"@)
            &&& whole(defs, s.source_instance, "source_instance"@)
            &&& searched(defs, s.category, "category"@, "default"@, true)
            &&& searched(defs, s.title, "title"@, "spotlight"@, true)
            &&& searched(defs, s.title_terms, "title_terms"@, "spotlight"@, false)
            &&& searched(defs, s.title_initials, "title_initials"@, "spotlight"@, false)
            &&& searched(defs, s.title_prefixes, "title_prefixes"@, "spotlight"@, false)
            &&& searched(defs, s.body, "body"@, "spotlight_stem"@, true)
            &&& searched(defs, s.path, "path"@, "spotlight"@, true)
            &&& searched(defs, s.sender, "sender"@, "spotlight"@, true)
            &&& searched(defs, s.recipients, "recipients"@, "spotlight"@, true)
            &&& only_kept(defs, s.subtitle, "subtitle"@)
            &&& only_kept(defs, s.icon_name, "icon_name"@)
            &&& only_kept(defs, s.kind_label, "kind_label"@)
            &&& only_kept(defs, s.action, "action"@)
            &&& only_kept(defs, s.secondary_action, "secondary_action"@)
            &&& number(defs, s.mtime, "mtime"@, FieldKind::I64)
            &&& number(defs, s.size, "size"@, FieldKind::U64)
            &&& number(defs, s.extract_fail, "extract_fail"@, FieldKind::Bool)
        }),
{
    let defs = fields::schema_fields(s.schema);
    let base = base_fields();
    assert(base.len() == 19);
    assert forall|i: int| 0 <= i < 19 implies #[trigger] defs[i] == base[i] by {
        assert(base[i] == defs.subrange(0, 19)[i]);
    }
}

} // verus!
