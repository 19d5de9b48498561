//! Documents through a real index in memory.

use lixun::documents::{IndexError, SearchHit};
use lixun::index::{LixunIndex, LixunSchema};
use lixun::model::{Action, Category, DocId, Document, ExtraFieldValue, PluginValue};
use lixun::name_map::NameMap;
use lixun::normalize::normalize_for_match;
use lixun::plugin_schema::{PluginFieldSpec, PluginFieldType};
use lixun::tokenizer::{analyzer_chain, AnalyzerStep, MAX_TOKEN_BYTES};
use std::collections::HashSet;
use tantivy::collector::TopDocs;
use tantivy::query::{BooleanQuery, Query, QueryParser, TermQuery};
use tantivy::schema::{Field, IndexRecordOption, TantivyDocument};
use tantivy::tokenizer::{
    AsciiFoldingFilter, LowerCaser, RemoveLongFilter, SimpleTokenizer, Stemmer, TextAnalyzer,
};
use tantivy::{DocAddress, Index, IndexWriter, Term};

/// The weights of the categories, and no others.
struct Ranking {
    apps: f32,
    files: f32,
    prefix_boost: f32,
    acronym_boost: f32,
    recency_weight: f32,
}

impl Ranking {
    fn default() -> Ranking {
        Ranking {
            apps: 1.3,
            files: 1.2,
            prefix_boost: 1.4,
            acronym_boost: 1.25,
            recency_weight: 0.2,
        }
    }
}

/// An index in memory, with the library deciding what goes in and out.
struct Store {
    tantivy: Index,
    index: LixunIndex,
    writer: IndexWriter<TantivyDocument>,
    ranking: Ranking,
}

struct Scored {
    score: f32,
    hit: SearchHit,
}

fn analyzer(name: &str) -> TextAnalyzer {
    let steps = analyzer_chain(name).unwrap();
    let base = TextAnalyzer::builder(SimpleTokenizer::default())
        .filter(RemoveLongFilter::limit(MAX_TOKEN_BYTES))
        .filter(LowerCaser)
        .filter(AsciiFoldingFilter);
    if steps.last() == Some(&AnalyzerStep::Stem) {
        base.filter(Stemmer::default()).build()
    } else {
        base.build()
    }
}

fn action_text(action: &Action) -> String {
    match action {
        Action::OpenFile { path } => format!("{{\"OpenFile\":{{\"path\":\"{path}\"}}}}"),
        _ => String::new(),
    }
}

impl Store {
    fn new(plugins: &NameMap<Vec<PluginFieldSpec>>, ranking: Ranking) -> Store {
        let (schema, plugins) = LixunSchema::build_with_plugins(plugins).unwrap();
        let tantivy = Index::create_in_ram(schema.schema.clone());
        for name in ["spotlight", "spotlight_stem"] {
            tantivy.tokenizers().register(name, analyzer(name));
        }
        let writer = tantivy.writer(20_000_000).unwrap();
        Store { tantivy, index: LixunIndex { schema, plugins }, writer, ranking }
    }

    fn with_docs(docs: &[Document]) -> Store {
        Store::with_ranking(docs, Ranking::default())
    }

    fn with_ranking(docs: &[Document], ranking: Ranking) -> Store {
        let mut store = Store::new(&NameMap::new(), ranking);
        for doc in docs {
            store.upsert(doc);
        }
        store.commit();
        store
    }

    fn upsert(&mut self, doc: &Document) {
        let second = doc.secondary_action.as_ref().map(action_text).unwrap_or_default();
        let prepared =
            self.index.upsert(doc, &action_text(&doc.action), &second).unwrap().unwrap();
        self.delete(&doc.id.0);
        self.writer.add_document(prepared).unwrap();
    }

    fn delete(&mut self, id: &str) {
        let field = Field::from_field_id(self.index.schema.id);
        self.writer.delete_term(Term::from_field_text(field, id));
    }

    fn commit(&mut self) {
        self.writer.commit().unwrap();
    }

    fn query(&self, text: &str) -> Box<dyn Query> {
        let Some(text) = self.index.search_text(text) else {
            return Box::new(BooleanQuery::new(vec![]));
        };
        let fields = self
            .index
            .default_search_fields()
            .into_iter()
            .map(Field::from_field_id)
            .collect();
        let mut parser = QueryParser::for_index(&self.tantivy, fields);
        parser.set_conjunction_by_default();
        for boost in self.index.field_boosts() {
            parser.set_field_boost(Field::from_field_id(boost.field), boost.tenths as f32 / 10.0);
        }
        for field in self.index.fuzzy_fields() {
            parser.set_field_fuzzy(Field::from_field_id(field), false, 1, true);
        }
        for (field, boost) in &self.index.plugins.default_query_fields {
            parser.set_field_boost(Field::from_field_id(*field), boost.parse().unwrap());
        }
        parser.parse_query_lenient(&text).0
    }

    fn search_at(&self, text: &str, limit: usize, now_secs: i64) -> Vec<Scored> {
        let searcher = self.tantivy.reader().unwrap().searcher();
        let q_norm = normalize_for_match(text);
        let found = searcher.search(&self.query(text), &TopDocs::with_limit(limit)).unwrap();
        found
            .into_iter()
            .map(|(score, address)| {
                let doc: TantivyDocument = searcher.doc(address).unwrap();
                let hit = self.index.hit_from_tantivy(&doc, &q_norm, now_secs);
                Scored { score: score * self.multiplier(&hit), hit }
            })
            .collect()
    }

    fn multiplier(&self, hit: &SearchHit) -> f32 {
        let mut m = match hit.category {
            Category::App => self.ranking.apps,
            Category::File => self.ranking.files,
            _ => 1.0,
        };
        if hit.prefix_match {
            m *= self.ranking.prefix_boost;
        }
        if hit.acronym_match {
            m *= self.ranking.acronym_boost;
        }
        if let Some(age) = hit.age_secs {
            let days = age as f32 / 86_400.0;
            m *= 1.0 + self.ranking.recency_weight * (-days / 30.0).exp();
        }
        m
    }

    fn search(&self, text: &str) -> Vec<SearchHit> {
        self.search_at(text, 10, 1_700_000_000).into_iter().map(|s| s.hit).collect()
    }

    fn find(&self, id: &str) -> Option<TantivyDocument> {
        let searcher = self.tantivy.reader().unwrap().searcher();
        let field = Field::from_field_id(self.index.schema.id);
        let query = TermQuery::new(Term::from_field_text(field, id), IndexRecordOption::Basic);
        let found = searcher.search(&query, &TopDocs::with_limit(1)).unwrap();
        found.first().map(|(_, address)| searcher.doc(*address).unwrap())
    }

    fn all_doc_ids(&self) -> HashSet<String> {
        let searcher = self.tantivy.reader().unwrap().searcher();
        let mut out = HashSet::new();
        for (ord, segment) in searcher.segment_readers().iter().enumerate() {
            for doc_id in 0..segment.max_doc() {
                if segment.alive_bitset().map_or(true, |b| b.is_alive(doc_id)) {
                    let doc: TantivyDocument =
                        searcher.doc(DocAddress::new(ord as u32, doc_id)).unwrap();
                    out.extend(self.index.doc_id(&doc));
                }
            }
        }
        out
    }
}

fn sample_document(id: &str, title: &str, body: &str) -> Document {
    let path = id.trim_start_matches("fs:").to_string();
    Document {
        id: DocId(id.to_string()),
        category: Category::File,
        title: title.to_string(),
        subtitle: id.to_string(),
        icon_name: None,
        kind_label: None,
        body: Some(body.to_string()),
        path: path.clone(),
        mtime: 0,
        size: 100,
        action: Action::OpenFile { path },
        extract_fail: false,
        sender: None,
        recipients: None,
        mime: None,
        source_instance: "test".to_string(),
        secondary_action: None,
        extra: Vec::new(),
    }
}

#[test]
fn test_create_and_search() {
    let doc = sample_document("fs:/tmp/test.txt", "test.txt", "hello world this is test content");
    let store = Store::with_docs(&[doc]);
    let results = store.search("hello");

    assert_eq!(results.len(), 1);
    assert_eq!(results[0].title, "test.txt");
    assert_eq!(results[0].icon_name, None);
    assert_eq!(results[0].kind_label, None);
}

#[test]
fn test_search_by_sender_and_recipients() {
    let mut doc = sample_document("mail:1", "Weekly sync notes", "body text that must not match");
    doc.category = Category::Mail;
    doc.sender = Some("alice@example.com".to_string());
    doc.recipients = Some("bob@example.com, carol@example.com".to_string());

    let store = Store::with_docs(&[doc]);

    let by_sender = store.search("alice@example.com");
    assert_eq!(by_sender.len(), 1, "sender field must be searchable by email address");
    assert_eq!(by_sender[0].title, "Weekly sync notes");

    let by_recipient = store.search("carol@example.com");
    assert_eq!(by_recipient.len(), 1, "recipients field must be searchable by email address");
    assert_eq!(by_recipient[0].title, "Weekly sync notes");
}

#[test]
fn test_delete_by_id() {
    let mut store = Store::with_docs(&[sample_document(
        "fs:/tmp/delete_me.txt",
        "delete_me.txt",
        "this will be deleted",
    )]);
    store.delete("fs:/tmp/delete_me.txt");
    store.delete("fs:/nonexistent.txt");
    store.commit();
    assert_eq!(store.search("deleted").len(), 0);
}

#[test]
fn test_all_doc_ids_lists_live_docs_and_excludes_deleted() {
    let docs: Vec<Document> = (0..3)
        .map(|i| sample_document(&format!("fs:/tmp/a{i}.txt"), &format!("a{i}.txt"), "body"))
        .collect();
    let mut store = Store::with_docs(&docs);
    let ids = store.all_doc_ids();
    assert_eq!(ids.len(), 3);
    assert!(ids.contains("fs:/tmp/a0.txt"));
    assert!(ids.contains("fs:/tmp/a1.txt"));
    assert!(ids.contains("fs:/tmp/a2.txt"));

    store.delete("fs:/tmp/a1.txt");
    store.commit();

    let ids = store.all_doc_ids();
    assert_eq!(ids.len(), 2);
    assert!(!ids.contains("fs:/tmp/a1.txt"));
}

#[test]
fn test_upsert_replaces_existing() {
    let store = Store::with_docs(&[
        sample_document("fs:/tmp/same.txt", "old_title.txt", "old content"),
        sample_document("fs:/tmp/same.txt", "new_title.txt", "new content"),
    ]);
    let results = store.search("new");
    assert_eq!(results.len(), 1);
    assert_eq!(results[0].title, "new_title.txt");
}

#[test]
fn test_empty_search_returns_no_results() {
    let store = Store::with_docs(&[]);
    assert_eq!(store.search("").len(), 0);
}

#[test]
fn test_multiple_documents_search() {
    let docs: Vec<Document> = (0..5)
        .map(|i| {
            sample_document(
                &format!("fs:/tmp/doc{i}.txt"),
                &format!("doc{i}.txt"),
                &format!("content number {i}"),
            )
        })
        .collect();
    let store = Store::with_docs(&docs);
    assert_eq!(store.search("content").len(), 5);
}

#[test]
fn test_search_limit() {
    let docs: Vec<Document> = (0..10)
        .map(|i| {
            sample_document(
                &format!("fs:/tmp/lim{i}.txt"),
                &format!("lim{i}.txt"),
                &format!("limit test {i}"),
            )
        })
        .collect();
    let store = Store::with_docs(&docs);
    assert!(store.search_at("limit", 3, 0).len() <= 3);
}

#[test]
fn test_upsert_and_search_round_trips_icon_and_kind() {
    let mut doc = sample_document("fs:/tmp/roundtrip.pdf", "roundtrip.pdf", "pdf body");
    doc.icon_name = Some("application-pdf".to_string());
    doc.kind_label = Some("PDF Document".to_string());

    let store = Store::with_docs(&[doc]);
    let results = store.search("pdf");

    assert_eq!(results.len(), 1);
    assert_eq!(results[0].icon_name.as_deref(), Some("application-pdf"));
    assert_eq!(results[0].kind_label.as_deref(), Some("PDF Document"));
}

#[test]
fn test_search_diacritic_insensitive() {
    let resume = Store::with_docs(&[sample_document("fs:/tmp/resume1.txt", "résumé", "")]);
    assert_eq!(resume.search("resume").len(), 1);

    let accented = Store::with_docs(&[sample_document("fs:/tmp/resume2.txt", "resume", "")]);
    assert_eq!(accented.search("résumé").len(), 1);
}

#[test]
fn test_search_case_insensitive() {
    let store = Store::with_docs(&[sample_document("fs:/tmp/firefox.txt", "Firefox", "")]);

    assert_eq!(store.search("firefox").len(), 1);
    assert_eq!(store.search("FIREFOX").len(), 1);
}

#[test]
fn test_search_camelcase_split() {
    let store = Store::with_docs(&[sample_document("fs:/tmp/my-file.txt", "MyFileName.txt", "")]);

    assert_eq!(store.search("file").len(), 1);
    assert_eq!(store.search("name").len(), 1);
}

#[test]
fn test_search_snake_case_split() {
    let store =
        Store::with_docs(&[sample_document("fs:/tmp/report.pdf", "my_report_final.pdf", "")]);

    assert_eq!(store.search("report").len(), 1);
}

#[test]
fn test_search_fuzzy_typo() {
    let store = Store::with_docs(&[sample_document("fs:/tmp/firefox.txt", "Firefox", "")]);

    assert_eq!(store.search("firfox").len(), 1);
    assert!(store.search("chrom").is_empty());
}

#[test]
fn test_search_and_default() {
    let store = Store::with_docs(&[
        sample_document("fs:/tmp/foo-bar.txt", "foo bar", ""),
        sample_document("fs:/tmp/foo-baz.txt", "foo baz", ""),
    ]);

    let both_terms = store.search("foo bar");
    assert_eq!(both_terms[0].title, "foo bar");

    let single_term = store.search("foo");
    assert_eq!(single_term.len(), 2);
}

#[test]
fn test_search_not_operator() {
    let store = Store::with_docs(&[
        sample_document("fs:/tmp/report-2024.txt", "report 2024", ""),
        sample_document("fs:/tmp/draft.txt", "draft report", ""),
    ]);

    let results = store.search("report -draft");
    assert_eq!(results.len(), 1);
    assert_eq!(results[0].title, "report 2024");
}

#[test]
fn test_search_or_operator() {
    let store = Store::with_docs(&[
        sample_document("fs:/tmp/foo.txt", "foo", ""),
        sample_document("fs:/tmp/bar.txt", "bar", ""),
    ]);

    let results = store.search("foo | bar");
    assert_eq!(results.len(), 2);
    assert!(results.iter().any(|hit| hit.title == "foo"));
    assert!(results.iter().any(|hit| hit.title == "bar"));
}

#[test]
fn test_title_boost_outranks_body() {
    let store = Store::with_docs(&[
        sample_document("fs:/tmp/title-urgent.txt", "urgent", "background"),
        sample_document("fs:/tmp/body-urgent.txt", "background", "urgent"),
    ]);

    let results = store.search_at("urgent", 10, 0);
    assert_eq!(results.len(), 2);
    assert_eq!(results[0].hit.id, "fs:/tmp/title-urgent.txt");
    assert!(results[0].score > results[1].score);
}

#[test]
fn test_acronym_retrieval_jsonparser() {
    let store = Store::with_docs(&[sample_document(
        "fs:/tmp/JSONParser.java",
        "JSONParser",
        "class JSONParser parses JSON input",
    )]);

    let results = store.search("jp");
    assert_eq!(results.len(), 1, "query `jp` must retrieve JSONParser via title_initials");
    assert_eq!(results[0].id, "fs:/tmp/JSONParser.java");
    assert!(results[0].acronym_match);
}

#[test]
fn test_prefix_retrieval_firefox() {
    let mut firefox = sample_document("app:firefox.desktop", "Firefox", "Web browser by Mozilla");
    firefox.category = Category::App;
    let store = Store::with_docs(&[firefox]);

    let results = store.search("fire");
    assert_eq!(results.len(), 1, "query `fire` must retrieve Firefox via title_prefixes");
    assert_eq!(results[0].id, "app:firefox.desktop");
    assert!(results[0].prefix_match);
}

#[test]
fn test_prefix_ranks_above_body_match() {
    let mut firefox = sample_document("app:firefox.desktop", "Firefox", "browser application");
    firefox.category = Category::App;
    let notes = sample_document("fs:/tmp/notes.txt", "Notes", "thoughts about fire safety");
    let store = Store::with_docs(&[firefox, notes]);

    let results = store.search_at("fire", 10, 0);
    assert!(
        results.len() >= 2,
        "both docs must match: title-prefix for Firefox, body for Notes"
    );
    assert_eq!(
        results[0].hit.id, "app:firefox.desktop",
        "title_prefixes + title boosts must outrank body-only match"
    );
    assert!(results[0].score > results[1].score);
}

#[test]
fn test_get_doc_by_id_roundtrip() {
    let store = Store::with_docs(&[sample_document(
        "fs:/tmp/fetchme.txt",
        "fetchme.txt",
        "the body we want back",
    )]);

    let found = store.find("fs:/tmp/fetchme.txt");
    let got = store
        .index
        .doc_from_tantivy(&found.expect("document must be found after upsert+commit"));

    assert_eq!(got.id, "fs:/tmp/fetchme.txt");
    assert_eq!(got.title, "fetchme.txt");
    assert_eq!(got.body.as_deref(), Some("the body we want back"));
    assert_eq!(got.category, Category::File);
}

#[test]
fn test_get_doc_by_id_missing_returns_none() {
    let store = Store::with_docs(&[]);
    assert!(store.find("fs:/nope").is_none());
}

#[test]
fn test_get_body_by_id_returns_body_when_present() {
    let store = Store::with_docs(&[sample_document(
        "fs:/tmp/withbody.txt",
        "withbody.txt",
        "the recovered body from a prior ocr pass",
    )]);

    let found = store.find("fs:/tmp/withbody.txt").unwrap();
    let body = store.index.body_of(&found).expect("body must be present");
    assert_eq!(body, "the recovered body from a prior ocr pass");
}

#[test]
fn test_get_body_by_id_returns_none_when_empty_or_missing() {
    let empty = sample_document("fs:/tmp/empty.txt", "empty.txt", "");
    let whitespace = sample_document("fs:/tmp/ws.txt", "ws.txt", "   \t\n  ");
    let store = Store::with_docs(&[empty, whitespace]);

    let body = |id: &str| store.find(id).and_then(|d| store.index.body_of(&d));
    assert!(body("fs:/tmp/empty.txt").is_none(), "empty body must surface as None");
    assert!(body("fs:/tmp/ws.txt").is_none(), "whitespace-only body must surface as None");
    assert!(body("fs:/nope").is_none(), "missing doc must surface as None");
}

#[test]
fn test_ranking_config_category_multiplier() {
    let mut app_doc = sample_document("app:zzz.desktop", "zzz", "");
    app_doc.category = Category::App;
    let file_doc = sample_document("fs:/tmp/zzz.txt", "zzz", "");

    let ranking = Ranking { apps: 99.0, files: 1.0, ..Ranking::default() };
    let store = Store::with_ranking(&[app_doc, file_doc], ranking);

    let mut hits = store.search_at("zzz", 10, 1_700_000_000);
    hits.sort_by(|a, b| b.score.partial_cmp(&a.score).unwrap());

    assert_eq!(hits.len(), 2, "both docs should match");
    assert_eq!(hits[0].hit.category, Category::App);
    assert_eq!(hits[1].hit.category, Category::File);
    assert!(
        hits[0].score > hits[1].score * 90.0,
        "apps=99 vs files=1 must amplify top score by >90x: got {} vs {}",
        hits[0].score,
        hits[1].score,
    );
}

#[test]
fn recency_orders_ties() {
    let day: i64 = 86_400;
    let now: i64 = 1_700_000_000;
    let dated = |id: &str, category: Category, mtime: i64| {
        let mut doc = sample_document(id, "report", "report");
        doc.category = category;
        doc.mtime = mtime;
        doc.path = id.to_string();
        doc
    };
    let ranking = || Ranking {
        apps: 1.0,
        files: 1.0,
        prefix_boost: 1.0,
        acronym_boost: 1.0,
        recency_weight: 0.2,
    };

    let files = Store::with_ranking(
        &[
            dated("fs:/tmp/report-new.txt", Category::File, now),
            dated("fs:/tmp/report-old.txt", Category::File, now - 60 * day),
        ],
        ranking(),
    )
    .search_at("report", 10, now);
    assert_eq!(files.len(), 2);
    let newer = files.iter().find(|s| s.hit.id == "fs:/tmp/report-new.txt").unwrap();
    let older = files.iter().find(|s| s.hit.id == "fs:/tmp/report-old.txt").unwrap();
    assert!(newer.score > older.score);

    let app_order = |new: i64, old: i64| {
        Store::with_ranking(
            &[dated("app:new", Category::App, new), dated("app:old", Category::App, old)],
            ranking(),
        )
        .search_at("report", 10, now)
        .into_iter()
        .map(|s| s.hit.id)
        .collect::<Vec<_>>()
    };
    assert_eq!(app_order(now, now - 60 * day), app_order(now - 60 * day, now));
}

fn plugin_fields() -> NameMap<Vec<PluginFieldSpec>> {
    let field = |name: &str, ty: PluginFieldType, stored: bool, searched: bool| PluginFieldSpec {
        schema_name: name.to_string(),
        query_alias: Some(format!("q_{name}")),
        ty,
        stored,
        default_search: searched,
        boost: "2".to_string(),
    };
    let mut map = NameMap::new();
    map.insert(
        "maildir".to_string(),
        vec![
            field("folder", PluginFieldType::Keyword, true, true),
            field("unread", PluginFieldType::Bool, true, false),
            field("count", PluginFieldType::U64, true, false),
            field("delta", PluginFieldType::I64, true, false),
            field("hidden", PluginFieldType::Keyword, false, false),
        ],
    );
    map
}

fn extra(field: &str, value: PluginValue) -> ExtraFieldValue {
    ExtraFieldValue { field: field.to_string(), value }
}

#[test]
fn a_document_comes_back_as_it_was_written() {
    let mut store = Store::new(&plugin_fields(), Ranking::default());
    let mut doc = sample_document("mail:7", "Invoice", "see attachment");
    doc.category = Category::Mail;
    doc.icon_name = Some("mail".to_string());
    doc.sender = Some("a@b.c".to_string());
    doc.mtime = -5;
    doc.size = u64::MAX;
    doc.extract_fail = true;
    doc.secondary_action = Some(Action::OpenFile { path: "/x".to_string() });
    doc.extra = vec![
        extra("unread", PluginValue::Bool(true)),
        extra("folder", PluginValue::Text("INBOX".to_string())),
        extra("count", PluginValue::U64(3)),
        extra("delta", PluginValue::I64(-3)),
        extra("hidden", PluginValue::Text("gone".to_string())),
    ];
    store.upsert(&doc);
    store.commit();

    let got = store.index.doc_from_tantivy(&store.find("mail:7").unwrap());
    assert_eq!(got.category, Category::Mail);
    assert_eq!(got.icon_name.as_deref(), Some("mail"));
    assert_eq!(got.kind_label, None);
    assert_eq!(got.sender.as_deref(), Some("a@b.c"));
    assert_eq!(got.mtime, -5);
    assert_eq!(got.size, u64::MAX);
    assert!(got.extract_fail);
    assert_eq!(got.action, action_text(&doc.action));
    assert_eq!(got.secondary_action.as_deref(), Some("{\"OpenFile\":{\"path\":\"/x\"}}"));
    assert_eq!(got.source_instance, "test");
    assert_eq!(got.extra.len(), 4);
    for (field, value) in [
        ("folder", PluginValue::Text("INBOX".to_string())),
        ("unread", PluginValue::Bool(true)),
        ("count", PluginValue::U64(3)),
        ("delta", PluginValue::I64(-3)),
    ] {
        assert!(got.extra.contains(&extra(field, value)), "{field}");
    }

    assert_eq!(store.search("INBOX").len(), 1);
    assert_eq!(store.search("q_folder:INBOX").len(), 1);
}

#[test]
fn undeclared_and_mistyped_plugin_fields_are_refused() {
    let store = Store::new(&plugin_fields(), Ranking::default());
    let mut doc = sample_document("mail:8", "t", "b");
    doc.extra = vec![extra("nobody", PluginValue::Bool(true))];
    assert_eq!(
        store.index.values_of(&doc, "", "").unwrap_err(),
        IndexError::UnknownField { field: "nobody".to_string() }
    );
    doc.extra = vec![extra("count", PluginValue::I64(1))];
    assert!(matches!(
        store.index.upsert(&doc, "", "").unwrap_err(),
        IndexError::TypeMismatch { ty: PluginFieldType::U64, value: PluginValue::I64(1), .. }
    ));
}

#[test]
fn calculator_and_shell_hits_are_shown_as_files() {
    let mut doc = sample_document("calc:1", "sum", "");
    doc.category = Category::Calculator;
    let store = Store::with_docs(&[doc]);
    assert_eq!(store.search("sum")[0].category, Category::File);
    let stored = store.index.doc_from_tantivy(&store.find("calc:1").unwrap());
    assert_eq!(stored.category, Category::Calculator);
}

#[test]
fn bodies_are_stemmed_and_titles_are_not() {
    let store = Store::with_docs(&[
        sample_document("fs:/1", "alpha", "running along"),
        sample_document("fs:/2", "parsing", "beta"),
    ]);
    assert_eq!(store.search("body:runs").len(), 1);
    assert_eq!(store.search("title:pars").len(), 0);
}
