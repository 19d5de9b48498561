//! Plugin fields, the layout of an index and its fingerprint, fast fields.

use lixun::fingerprint::{compute_fingerprint, simple_hash};
use lixun::index::{LixunSchema, INDEX_VERSION};
use lixun::layout::{index_version_text, needs_rebuild, read_index_version, read_trimmed};
use lixun::name_map::NameMap;
use lixun::plugin_schema::{
    add_plugin_fields_to_schema, CompiledPluginSchema, PluginFieldSpec, PluginFieldType,
    TextTokenizer,
};
use lixun::warmer::{FastFieldKind, FastFieldWarmer};
use tantivy::schema::{NumericOptions, Schema, SchemaBuilder, STORED, TEXT};

fn keyword(schema_name: &str, alias: &str) -> PluginFieldSpec {
    PluginFieldSpec {
        schema_name: schema_name.to_string(),
        query_alias: Some(alias.to_string()),
        ty: PluginFieldType::Keyword,
        stored: true,
        default_search: false,
        boost: "0".to_string(),
    }
}

fn folder() -> PluginFieldSpec {
    keyword("maildir_folder", "folder")
}

fn flags() -> PluginFieldSpec {
    keyword("maildir_flags", "flags")
}

fn body_extra() -> PluginFieldSpec {
    PluginFieldSpec {
        schema_name: "maildir_hint".to_string(),
        query_alias: None,
        ty: PluginFieldType::Text { tokenizer: TextTokenizer::Spotlight },
        stored: false,
        default_search: true,
        boost: "2".to_string(),
    }
}

fn by_kind(kinds: Vec<(&str, Vec<PluginFieldSpec>)>) -> NameMap<Vec<PluginFieldSpec>> {
    let mut map = NameMap::new();
    for (kind, specs) in kinds {
        map.insert(kind.to_string(), specs);
    }
    map
}

#[test]
fn test_compile_rejects_duplicate_schema_name() {
    let map = by_kind(vec![
        ("maildir", vec![folder()]),
        ("other", vec![keyword("maildir_folder", "dup")]),
    ]);
    let mut b = SchemaBuilder::new();
    let err = add_plugin_fields_to_schema(&mut b, &map).unwrap_err();
    assert!(
        err.to_text().contains("schema field name collision"),
        "unexpected error: {}",
        err.to_text()
    );
}

#[test]
fn test_compile_rejects_duplicate_alias() {
    let map = by_kind(vec![
        ("maildir", vec![folder()]),
        ("other", vec![keyword("other_folder", "folder")]),
    ]);
    let mut b = SchemaBuilder::new();
    let err = add_plugin_fields_to_schema(&mut b, &map).unwrap_err();
    assert!(
        err.to_text().contains("query alias collision"),
        "unexpected error: {}",
        err.to_text()
    );
}

#[test]
fn test_compile_default_query_fields_includes_only_default_search() {
    let map = by_kind(vec![("maildir", vec![folder(), flags(), body_extra()])]);
    let mut b = SchemaBuilder::new();
    let cs = add_plugin_fields_to_schema(&mut b, &map).unwrap();
    assert_eq!(cs.default_query_fields.len(), 1);
    let boost: f32 = cs.default_query_fields[0].1.parse().unwrap();
    assert!((boost - 2.0).abs() < f32::EPSILON);
}

#[test]
fn plugin_fields_reach_the_schema() {
    let map = by_kind(vec![("maildir", vec![folder(), body_extra()])]);
    let (schema, plugins) = LixunSchema::build_with_plugins(&map).unwrap();
    let folder_field = plugins.extras.get("maildir_folder").unwrap().field;
    assert_eq!(schema.schema.get_field("maildir_folder").unwrap().field_id(), folder_field);
    let hint = schema.schema.get_field("maildir_hint").unwrap();
    assert!(!schema.schema.get_field_entry(hint).is_stored());
    assert_eq!(plugins.query_aliases.get("folder").unwrap(), "maildir_folder");
    assert!(plugins.query_aliases.get("hint").is_none());

    let empty = CompiledPluginSchema::empty();
    assert!(empty.extras.is_empty());
    assert!(empty.query_aliases.is_empty());
    assert!(empty.default_query_fields.is_empty());
}

#[test]
fn base_schema_fields_have_their_names_and_analyzers() {
    let s = LixunSchema::build();
    for (field, name) in [
        (s.id, "id"),
        (s.title, "title"),
        (s.title_prefixes, "title_prefixes"),
        (s.body, "body"),
        (s.source_instance, "source_instance"),
    ] {
        assert_eq!(s.schema.get_field(name).unwrap().field_id(), field);
    }
    let body = format!("{:?}", s.schema.get_field_entry(s.schema.get_field("body").unwrap()));
    assert!(body.contains("spotlight_stem"), "{body}");
    let title = format!("{:?}", s.schema.get_field_entry(s.schema.get_field("title").unwrap()));
    assert!(!title.contains("spotlight_stem") && title.contains("spotlight"), "{title}");
    let terms = s.schema.get_field("title_terms").unwrap();
    assert!(!s.schema.get_field_entry(terms).is_stored());
}

#[test]
fn test_fingerprint_changes_when_fields_change() {
    let a = by_kind(vec![("maildir", vec![folder()])]);
    let b = by_kind(vec![("maildir", vec![folder(), flags()])]);

    let fa = compute_fingerprint(5, &a);
    let fb = compute_fingerprint(5, &b);
    assert_ne!(fa, fb);
}

#[test]
fn test_fingerprint_stable_under_identical_input() {
    let a = by_kind(vec![("maildir", vec![folder(), flags()])]);
    assert_eq!(compute_fingerprint(5, &a), compute_fingerprint(5, &a));
}

#[test]
fn field_order_does_not_count_in_a_fingerprint() {
    let a = by_kind(vec![("maildir", vec![folder(), flags()])]);
    let b = by_kind(vec![("maildir", vec![flags(), folder()])]);
    assert_eq!(compute_fingerprint(5, &a), compute_fingerprint(5, &b));
    assert_ne!(compute_fingerprint(5, &a), compute_fingerprint(6, &a));
    let hex = compute_fingerprint(5, &a);
    assert_eq!(hex.len(), 32);
    assert!(hex.chars().all(|c| c.is_ascii_digit() || ('a'..='f').contains(&c)), "{hex}");

    assert_eq!(simple_hash(""), "cbf29ce48422232500000100000001b3");
    assert_eq!(simple_hash("a"), "af63dc4c8601ec8c25fc52de211c8000");
    assert_eq!(simple_hash("foobar"), "85944171f73967e81f7af7a9ae9e71d4");
    assert_eq!(simple_hash("é"), "0ac21707b7181e0199b14b2c5cb6ef91");
}

#[test]
fn an_index_is_kept_only_when_everything_matches() {
    let current = index_version_text();
    assert_eq!(current, "9");
    assert_eq!(INDEX_VERSION, 9);
    assert!(!needs_rebuild(Some("9\n"), Some("abc\n"), "abc", true));
    assert!(needs_rebuild(Some("8"), Some("abc"), "abc", true));
    assert!(needs_rebuild(None, Some("abc"), "abc", true));
    assert!(needs_rebuild(Some("9"), Some("abd"), "abc", true));
    assert!(needs_rebuild(Some("9"), None, "abc", true));
    assert!(needs_rebuild(Some("9"), Some("abc"), "abc", false));
}

#[test]
fn version_files_are_read_leniently() {
    assert_eq!(read_index_version(" 9 \n"), Some(9));
    assert_eq!(read_index_version("+9"), Some(9));
    assert_eq!(read_index_version("-9"), None);
    assert_eq!(read_index_version("4294967296"), None);
    assert_eq!(read_index_version(""), None);
    assert_eq!(read_trimmed("  v \n"), Some("v".to_string()));
    assert_eq!(read_trimmed(" \n"), None);
}

#[test]
fn picks_up_fast_fields_only() {
    let mut builder = Schema::builder();
    builder.add_text_field("title", TEXT | STORED);
    builder.add_i64_field("mtime", STORED);
    builder.add_u64_field("rank", NumericOptions::default().set_indexed().set_fast());
    builder.add_i64_field("score", NumericOptions::default().set_indexed().set_fast());
    let schema = builder.build();

    let warmer = FastFieldWarmer::from_schema(&schema);
    assert_eq!(warmer.field_count(), 2, "only fast fields should be picked");
    assert_eq!(warmer.entry(0).name, "rank");
    assert_eq!(warmer.entry(0).kind, FastFieldKind::U64);
    assert_eq!(warmer.entry(1).name, "score");
    assert_eq!(warmer.entry(1).kind, FastFieldKind::I64);
}

#[test]
fn empty_schema_has_no_fast_fields() {
    let mut builder = Schema::builder();
    builder.add_text_field("title", TEXT | STORED);
    let schema = builder.build();

    let warmer = FastFieldWarmer::from_schema(&schema);
    assert_eq!(warmer.field_count(), 0);
}

#[test]
fn names_come_back_in_order() {
    let mut map = NameMap::new();
    assert!(map.is_empty());
    map.insert("b".to_string(), 1u8);
    map.insert("a".to_string(), 2u8);
    map.insert_if_absent("a".to_string(), 9u8);
    map.insert_if_absent("c".to_string(), 3u8);
    assert_eq!(map.len(), 3);
    assert_eq!(map.name_at(0), "a");
    assert_eq!(*map.value_at(0), 2);
    assert_eq!(map.get("c"), Some(&3));
    assert_eq!(map.get("d"), None);
}
