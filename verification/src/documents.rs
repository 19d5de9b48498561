//! Documents on their way into the index and out of it.
//!
//! Actions are serialized by the caller: they travel through the index as
//! text.

use tantivy::schema::TantivyDocument;
use vstd::prelude::*;

use crate::fields;
use crate::fields::{StoredValue, ValueView};
use crate::index::LixunIndex;
use crate::model;
use crate::model::{Category, Document, ExtraFieldValue, PluginValue};
use crate::name_map;
use crate::plugin_schema::{CompiledField, PluginFieldType};
use crate::scoring;
use crate::text;
use crate::tokenizer;

verus! {

/// Why a document cannot be indexed.
#[derive(Clone, Debug, PartialEq, Eq)]
pub enum IndexError {
    /// The document has a field that no plugin declares.
    UnknownField { field: String },
    /// A field's value is not of the field's type.
    TypeMismatch { field: String, ty: PluginFieldType, value: PluginValue },
}

/// A document as it comes out of the index.
#[derive(Clone, Debug, PartialEq, Eq)]
pub struct StoredDocument {
    pub id: String,
    pub category: Category,
    pub title: String,
    pub subtitle: String,
    pub icon_name: Option<String>,
    pub kind_label: Option<String>,
    pub body: Option<String>,
    pub path: String,
    pub mtime: i64,
    pub size: u64,
    /// The serialized action.
    pub action: String,
    /// The serialized secondary action.
    pub secondary_action: Option<String>,
    pub extract_fail: bool,
    pub sender: Option<String>,
    pub recipients: Option<String>,
    pub source_instance: String,
    pub extra: Vec<ExtraFieldValue>,
}

/// The model of a document that comes out of the index.
pub struct StoredView {
    pub id: Seq<char>,
    pub category: Category,
    pub title: Seq<char>,
    pub subtitle: Seq<char>,
    pub icon_name: Option<Seq<char>>,
    pub kind_label: Option<Seq<char>>,
    pub body: Option<Seq<char>>,
    pub path: Seq<char>,
    pub mtime: i64,
    pub size: u64,
    pub action: Seq<char>,
    pub secondary_action: Option<Seq<char>>,
    pub extract_fail: bool,
    pub sender: Option<Seq<char>>,
    pub recipients: Option<Seq<char>>,
    pub source_instance: Seq<char>,
    pub extra: Seq<(Seq<char>, ValueView)>,
}

/// The model of a plugin value.
pub open spec fn plugin_value_view(v: PluginValue) -> ValueView {
    match v {
        PluginValue::Text(s) => ValueView::Text(s@),
        PluginValue::I64(n) => ValueView::I64(n),
        PluginValue::U64(n) => ValueView::U64(n),
        PluginValue::Bool(b) => ValueView::Bool(b),
    }
}

/// The models of plugin fields.
pub open spec fn extra_views(extra: Seq<ExtraFieldValue>) -> Seq<(Seq<char>, ValueView)> {
    Seq::new(extra.len(), |i: int| (extra[i].field@, plugin_value_view(extra[i].value)))
}

impl View for StoredDocument {
    type V = StoredView;

    open spec fn view(&self) -> StoredView {
        StoredView {
            id: self.id@,
            category: self.category,
            title: self.title@,
            subtitle: self.subtitle@,
            icon_name: model::opt_view(self.icon_name),
            kind_label: model::opt_view(self.kind_label),
            body: model::opt_view(self.body),
            path: self.path@,
            mtime: self.mtime,
            size: self.size,
            action: self.action@,
            secondary_action: model::opt_view(self.secondary_action),
            extract_fail: self.extract_fail,
            sender: model::opt_view(self.sender),
            recipients: model::opt_view(self.recipients),
            source_instance: self.source_instance@,
            extra: extra_views(self.extra@),
        }
    }
}

// ---------------------------------------------------------------------
// Into the index
// ---------------------------------------------------------------------

/// Whether a value is of a field's type.
pub open spec fn fits(ty: PluginFieldType, v: PluginValue) -> bool {
    match v {
        PluginValue::Text(_) => ty is Text || ty is Keyword,
        PluginValue::I64(_) => ty is I64,
        PluginValue::U64(_) => ty is U64,
        PluginValue::Bool(_) => ty is Bool,
    }
}

/// What is wrong with a document's plugin field, if anything.
pub open spec fn extra_error(
    extras: Seq<(Seq<char>, CompiledField)>,
    x: ExtraFieldValue,
    e: IndexError,
) -> bool {
    match name_map::value_of(extras, x.field@) {
        None => e matches IndexError::UnknownField { field } && field@ == x.field@,
        Some(cf) => e matches IndexError::TypeMismatch { field, ty, value } && field@ == x.field@
            && ty == cf.spec.ty && plugin_value_view(value) == plugin_value_view(x.value) && !fits(
            cf.spec.ty,
            x.value,
        ),
    }
}

/// Whether a document's plugin field can be indexed.
pub open spec fn extra_ok(
    extras: Seq<(Seq<char>, CompiledField)>,
    x: ExtraFieldValue,
) -> bool {
    match name_map::value_of(extras, x.field@) {
        None => false,
        Some(cf) => fits(cf.spec.ty, x.value),
    }
}

/// The indexed values of plugin fields, in their order.
pub open spec fn extra_values(
    extras: Seq<(Seq<char>, CompiledField)>,
    extra: Seq<ExtraFieldValue>,
) -> Seq<(u32, ValueView)> {
    Seq::new(
        extra.len(),
        |i: int|
            (
                (name_map::value_of(extras, extra[i].field@)->0).field,
                plugin_value_view(extra[i].value),
            ),
    )
}

/// The text, or an empty one.
pub open spec fn or_empty(o: Option<String>) -> Seq<char> {
    match o {
        Some(s) => s@,
        None => Seq::empty(),
    }
}

/// The indexed values of a document's built-in fields.
pub open spec fn base_values(
    doc: Document,
    action: Seq<char>,
    secondary: Seq<char>,
) -> Seq<(u32, ValueView)> {
    seq![
        (0u32, ValueView::Text(doc.id.0@)),
        (1u32, ValueView::Text(doc.category.name())),
        (2u32, ValueView::Text(doc.title@)),
        (3u32, ValueView::Text(tokenizer::split_of(doc.title@))),
        (
            4u32,
            ValueView::Text(
                scoring::initials_tokens(tokenizer::split_of(doc.title@), doc.title@),
            ),
        ),
        (5u32, ValueView::Text(scoring::prefix_tokens(tokenizer::split_of(doc.title@)))),
        (6u32, ValueView::Text(doc.subtitle@)),
        (7u32, ValueView::Text(or_empty(doc.icon_name))),
        (8u32, ValueView::Text(or_empty(doc.kind_label))),
        (9u32, ValueView::Text(or_empty(doc.body))),
        (10u32, ValueView::Text(doc.path@)),
        (11u32, ValueView::I64(doc.mtime)),
        (12u32, ValueView::U64(doc.size)),
        (13u32, ValueView::Text(action)),
        (14u32, ValueView::Text(secondary)),
        (15u32, ValueView::Bool(doc.extract_fail)),
        (16u32, ValueView::Text(or_empty(doc.sender))),
        (17u32, ValueView::Text(or_empty(doc.recipients))),
        (18u32, ValueView::Text(doc.source_instance@)),
    ]
}

/// The indexed values of a document.
pub open spec fn indexed_values(
    extras: Seq<(Seq<char>, CompiledField)>,
    doc: Document,
    action: Seq<char>,
    secondary: Seq<char>,
) -> Seq<(u32, ValueView)> {
    base_values(doc, action, secondary) + extra_values(extras, doc.extra@)
}

fn text_value(s: &str) -> (r: StoredValue)
    ensures
        r@ == ValueView::Text(s@),
{
    StoredValue::Text(text::from_chars(&text::to_chars(s)))
}

fn opt_value(o: &Option<String>) -> (r: StoredValue)
    ensures
        r@ == ValueView::Text(or_empty(*o)),
{
    match o {
        Some(s) => StoredValue::Text(s.clone()),
        None => StoredValue::Text(String::new()),
    }
}

fn stored_of(v: &PluginValue) -> (r: StoredValue)
    ensures
        r@ == plugin_value_view(*v),
{
    match v {
        PluginValue::Text(s) => StoredValue::Text(s.clone()),
        PluginValue::I64(n) => StoredValue::I64(*n),
        PluginValue::U64(n) => StoredValue::U64(*n),
        PluginValue::Bool(b) => StoredValue::Bool(*b),
    }
}

fn clone_value(v: &PluginValue) -> (r: PluginValue)
    ensures
        plugin_value_view(r) == plugin_value_view(*v),
{
    match v {
        PluginValue::Text(s) => PluginValue::Text(s.clone()),
        PluginValue::I64(n) => PluginValue::I64(*n),
        PluginValue::U64(n) => PluginValue::U64(*n),
        PluginValue::Bool(b) => PluginValue::Bool(*b),
    }
}

fn value_fits(ty: &PluginFieldType, v: &PluginValue) -> (r: bool)
    ensures
        r == fits(*ty, *v),
{
    match v {
        PluginValue::Text(_) => match ty {
            PluginFieldType::Text { .. } => true,
            PluginFieldType::Keyword => true,
            _ => false,
        },
        PluginValue::I64(_) => match ty {
            PluginFieldType::I64 => true,
            _ => false,
        },
        PluginValue::U64(_) => match ty {
            PluginFieldType::U64 => true,
            _ => false,
        },
        PluginValue::Bool(_) => match ty {
            PluginFieldType::Bool => true,
            _ => false,
        },
    }
}

/// The built-in field values of a document.
fn base_value_list(doc: &Document, action: &str, secondary: &str) -> (r: Vec<(u32, StoredValue)>)
    ensures
        fields::value_views(r@) == base_values(*doc, action@, secondary@),
{
    let split = tokenizer::split_identifiers(doc.title.as_str());
    let initials = scoring::acronym_initials_indexed(doc.title.as_str());
    let prefixes = scoring::compute_title_prefixes(doc.title.as_str());
    let mut v: Vec<(u32, StoredValue)> = Vec::new();
    v.push((0, StoredValue::Text(doc.id.0.clone())));
    v.push((1, text_value(doc.category.as_str())));
    v.push((2, StoredValue::Text(doc.title.clone())));
    v.push((3, StoredValue::Text(split)));
    v.push((4, StoredValue::Text(initials)));
    v.push((5, StoredValue::Text(prefixes)));
    v.push((6, StoredValue::Text(doc.subtitle.clone())));
    v.push((7, opt_value(&doc.icon_name)));
    v.push((8, opt_value(&doc.kind_label)));
    v.push((9, opt_value(&doc.body)));
    v.push((10, StoredValue::Text(doc.path.clone())));
    v.push((11, StoredValue::I64(doc.mtime)));
    v.push((12, StoredValue::U64(doc.size)));
    v.push((13, text_value(action)));
    v.push((14, text_value(secondary)));
    v.push((15, StoredValue::Bool(doc.extract_fail)));
    v.push((16, opt_value(&doc.sender)));
    v.push((17, opt_value(&doc.recipients)));
    v.push((18, StoredValue::Text(doc.source_instance.clone())));
    proof {
        assert(fields::value_views(v@) =~= base_values(*doc, action@, secondary@));
    }
    v
}

impl LixunIndex {
    /// Whether the index holds together: the built-in layout, and plugin
    /// fields behind it.
    pub open spec fn wf(&self) -> bool {
        self.schema.wf() && self.plugins.wf()
    }

    /// The values that a document is indexed with. `action` and
    /// `secondary_action` are its serialized actions; a missing secondary
    /// action is an empty text.
    ///
    /// A plugin field that no plugin declares, or whose value is of another
    /// type, is refused: the error tells of the first such field.
    pub fn values_of(
        &self,
        doc: &Document,
        action: &str,
        secondary_action: &str,
    ) -> (r: Result<Vec<(u32, StoredValue)>, IndexError>)
        requires
            self.wf(),
        ensures
            match r {
                Ok(v) => {
                    &&& forall|i: int|
                        0 <= i < doc.extra@.len() ==> extra_ok(
                            self.plugins.extras@,
                            #[trigger] doc.extra@[i],
                        )
                    &&& fields::value_views(v@) == indexed_values(
                        self.plugins.extras@,
                        *doc,
                        action@,
                        secondary_action@,
                    )
                },
                Err(e) => exists|i: int|
                    0 <= i < doc.extra@.len() && #[trigger] extra_error(
                        self.plugins.extras@,
                        doc.extra@[i],
                        e,
                    ) && forall|j: int|
                        0 <= j < i ==> extra_ok(self.plugins.extras@, #[trigger] doc.extra@[j]),
            },
    {
        let mut v = base_value_list(doc, action, secondary_action);
        let ghost base = base_values(*doc, action@, secondary_action@);
        let ghost extras = self.plugins.extras@;
        let ghost more = extra_values(extras, doc.extra@);
        let mut i: usize = 0;
        proof {
            assert(base + more.take(0) =~= base);
        }
        while i < doc.extra.len()
            invariant
                self.wf(),
                extras == self.plugins.extras@,
                i <= doc.extra@.len(),
                more == extra_values(extras, doc.extra@),
                fields::value_views(v@) == base + more.take(i as int),
                forall|j: int| 0 <= j < i ==> extra_ok(extras, #[trigger] doc.extra@[j]),
            decreases doc.extra@.len() - i,
        {
            let x = &doc.extra[i];
            let ghost before = fields::value_views(v@);
            match self.plugins.extras.get(x.field.as_str()) {
                None => {
                    let e = IndexError::UnknownField { field: x.field.clone() };
                    proof {
                        assert(extra_error(extras, doc.extra@[i as int], e));
                    }
                    return Err(e);
                },
                Some(cf) => {
                    if !value_fits(&cf.spec.ty, &x.value) {
                        let e = IndexError::TypeMismatch {
                            field: x.field.clone(),
                            ty: cf.spec.ty,
                            value: clone_value(&x.value),
                        };
                        proof {
                            assert(extra_error(extras, doc.extra@[i as int], e));
                        }
                        return Err(e);
                    }
                    v.push((cf.field, stored_of(&x.value)));
                    proof {
                        assert(fields::value_views(v@) =~= before.push(more[i as int]));
                        assert(base + more.take(i + 1) =~= (base + more.take(i as int)).push(
                            more[i as int],
                        ));
                    }
                },
            }
            i = i + 1;
        }
        proof {
            assert(more.take(more.len() as int) =~= more);
        }
        Ok(v)
    }

    /// The document to put into the index in place of the one with the same
    /// id; `None` where its values exceed what an index document can hold.
    pub fn upsert(
        &self,
        doc: &Document,
        action: &str,
        secondary_action: &str,
    ) -> (r: Result<Option<TantivyDocument>, IndexError>)
        requires
            self.wf(),
        ensures
            match r {
                Ok(Some(d)) => {
                    &&& forall|i: int|
                        0 <= i < doc.extra@.len() ==> extra_ok(
                            self.plugins.extras@,
                            #[trigger] doc.extra@[i],
                        )
                    &&& storable(
                        indexed_values(self.plugins.extras@, *doc, action@, secondary_action@),
                    )
                    &&& fields::doc_values(d) == indexed_values(
                        self.plugins.extras@,
                        *doc,
                        action@,
                        secondary_action@,
                    )
                },
                Ok(None) => {
                    &&& forall|i: int|
                        0 <= i < doc.extra@.len() ==> extra_ok(
                            self.plugins.extras@,
                            #[trigger] doc.extra@[i],
                        )
                    &&& !storable(
                        indexed_values(self.plugins.extras@, *doc, action@, secondary_action@),
                    )
                },
                Err(e) => exists|i: int|
                    0 <= i < doc.extra@.len() && #[trigger] extra_error(
                        self.plugins.extras@,
                        doc.extra@[i],
                        e,
                    ) && forall|j: int|
                        0 <= j < i ==> extra_ok(self.plugins.extras@, #[trigger] doc.extra@[j]),
            },
    {
        match self.values_of(doc, action, secondary_action) {
            Err(e) => Err(e),
            Ok(v) => {
                if is_storable(&v) {
                    Ok(Some(fields::document_of(&v)))
                } else {
                    Ok(None)
                }
            },
        }
    }
}

/// Whether an index document can hold the values: their places and lengths
/// are within its addressing and the field numbers within its numbering.
pub open spec fn storable(values: Seq<(u32, ValueView)>) -> bool {
    fields::takes_values(values)
}

/// The number of bytes of a stored value, or nothing where its length has
/// no number.
fn stored_size(v: &StoredValue) -> (r: Option<u64>)
    ensures
        match r {
            Some(n) => fields::has_length(v@) && n == fields::value_weight(v@) && n <= 0x1_0000_0005,
            None => !fields::has_length(v@),
        },
{
    match v {
        StoredValue::Text(t) => {
            let n: u64 = t.as_str().as_bytes().len() as u64;
            if n > u32::MAX as u64 {
                None
            } else if n < 128 {
                Some(n + 1)
            } else if n < 16384 {
                Some(n + 2)
            } else if n < 2097152 {
                Some(n + 3)
            } else if n < 268435456 {
                Some(n + 4)
            } else {
                Some(n + 5)
            }
        },
        StoredValue::I64(_) => Some(8),
        StoredValue::U64(_) => Some(8),
        StoredValue::Bool(_) => Some(0),
        StoredValue::Other => None,
    }
}

fn is_storable(v: &Vec<(u32, StoredValue)>) -> (r: bool)
    ensures
        r == storable(fields::value_views(v@)),
{
    let ghost all = fields::value_views(v@);
    let mut total: u64 = 0;
    let mut i: usize = 0;
    proof {
        assert(all.take(0) =~= Seq::<(u32, ValueView)>::empty());
    }
    while i < v.len()
        invariant
            i <= v@.len(),
            all == fields::value_views(v@),
            total == fields::weight(all.take(i as int)),
            total <= 0x2_0000_0005,
            forall|k: int|
                0 <= k < i ==> fields::takes_value(
                    all.take(k),
                    (#[trigger] all[k]).0,
                    all[k].1,
                ),
        decreases v@.len() - i,
    {
        proof {
            let next = all.take(i + 1);
            assert(next.drop_last() =~= all.take(i as int));
            assert(next.last() == all[i as int]);
        }
        let size = stored_size(&v[i].1);
        match size {
            Some(more) if v[i].0 <= u16::MAX as u32 && total <= u32::MAX as u64 => {
                total = total + more;
            },
            _ => {
                proof {
                    assert(!fields::takes_value(
                        all.take(i as int),
                        all[i as int].0,
                        all[i as int].1,
                    ));
                }
                return false;
            },
        }
        i = i + 1;
    }
    true
}

// ---------------------------------------------------------------------
// Out of the index
// ---------------------------------------------------------------------

/// The category of a document with these values; a file where it has none.
pub open spec fn category_of(values: Seq<(u32, ValueView)>) -> Category {
    match fields::text_value(values, 1) {
        Some(name) => Category::of_name(name),
        None => Category::File,
    }
}

/// The serialized action of a document with these values.
pub open spec fn action_of(values: Seq<(u32, ValueView)>) -> Seq<char> {
    match fields::text_value(values, 13) {
        Some(t) => t,
        None => "{}"@,
    }
}

/// The modification time of a document with these values; 0 where it has
/// none.
pub open spec fn mtime_of(values: Seq<(u32, ValueView)>) -> i64 {
    match fields::first_value(values, 11) {
        Some(ValueView::I64(n)) => n,
        _ => 0,
    }
}

/// The size of a document with these values; 0 where it has none.
pub open spec fn size_of(values: Seq<(u32, ValueView)>) -> u64 {
    match fields::first_value(values, 12) {
        Some(ValueView::U64(n)) => n,
        _ => 0,
    }
}

/// Whether a document with these values could not be read in full.
pub open spec fn extract_fail_of(values: Seq<(u32, ValueView)>) -> bool {
    match fields::first_value(values, 15) {
        Some(ValueView::Bool(b)) => b,
        _ => false,
    }
}

/// Whether a stored value is of a field's type.
pub open spec fn view_fits(ty: PluginFieldType, v: ValueView) -> bool {
    match v {
        ValueView::Text(_) => ty is Text || ty is Keyword,
        ValueView::I64(_) => ty is I64,
        ValueView::U64(_) => ty is U64,
        ValueView::Bool(_) => ty is Bool,
        ValueView::Other => false,
    }
}

/// The value of a plugin field, where the field is stored and has one of
/// its type.
pub open spec fn extra_of(cf: CompiledField, values: Seq<(u32, ValueView)>) -> Option<ValueView> {
    if !cf.spec.stored {
        None
    } else {
        match fields::first_value(values, cf.field) {
            Some(v) => if view_fits(cf.spec.ty, v) {
                Some(v)
            } else {
                None
            },
            None => None,
        }
    }
}

/// The plugin fields of a document with these values, in the order of their
/// names.
pub open spec fn extras_of(
    extras: Seq<(Seq<char>, CompiledField)>,
    values: Seq<(u32, ValueView)>,
) -> Seq<(Seq<char>, ValueView)>
    decreases extras.len(),
{
    if extras.len() == 0 {
        Seq::empty()
    } else {
        let before = extras_of(extras.drop_last(), values);
        match extra_of(extras.last().1, values) {
            Some(v) => before.push((extras.last().0, v)),
            None => before,
        }
    }
}

/// The document with these values.
pub open spec fn stored_of_values(
    extras: Seq<(Seq<char>, CompiledField)>,
    values: Seq<(u32, ValueView)>,
) -> StoredView {
    StoredView {
        id: fields::text_or_empty(values, 0),
        category: category_of(values),
        title: fields::text_or_empty(values, 2),
        subtitle: fields::text_or_empty(values, 6),
        icon_name: fields::optional_text(values, 7),
        kind_label: fields::optional_text(values, 8),
        body: fields::optional_text(values, 9),
        path: fields::text_or_empty(values, 10),
        mtime: mtime_of(values),
        size: size_of(values),
        action: action_of(values),
        secondary_action: fields::optional_text(values, 14),
        extract_fail: extract_fail_of(values),
        sender: fields::optional_text(values, 16),
        recipients: fields::optional_text(values, 17),
        source_instance: fields::text_or_empty(values, 18),
        extra: extras_of(extras, values),
    }
}

fn read_mtime(d: &TantivyDocument) -> (r: i64)
    ensures
        r == mtime_of(fields::doc_values(*d)),
{
    match fields::get_first(d, 11) {
        Some(StoredValue::I64(n)) => n,
        _ => 0,
    }
}

fn read_size(d: &TantivyDocument) -> (r: u64)
    ensures
        r == size_of(fields::doc_values(*d)),
{
    match fields::get_first(d, 12) {
        Some(StoredValue::U64(n)) => n,
        _ => 0,
    }
}

fn read_extract_fail(d: &TantivyDocument) -> (r: bool)
    ensures
        r == extract_fail_of(fields::doc_values(*d)),
{
    match fields::get_first(d, 15) {
        Some(StoredValue::Bool(b)) => b,
        _ => false,
    }
}

fn read_action(d: &TantivyDocument) -> (r: String)
    ensures
        r@ == action_of(fields::doc_values(*d)),
{
    match fields::read_text(d, 13) {
        Some(t) => t,
        None => text::from_chars(&text::to_chars("{}")),
    }
}

fn read_extra(d: &TantivyDocument, cf: &CompiledField) -> (r: Option<PluginValue>)
    ensures
        match r {
            Some(v) => extra_of(*cf, fields::doc_values(*d)) == Some(plugin_value_view(v)),
            None => extra_of(*cf, fields::doc_values(*d)) is None,
        },
{
    if !cf.spec.stored {
        return None;
    }
    match fields::get_first(d, cf.field) {
        None => None,
        Some(v) => match v {
            StoredValue::Text(s) => match cf.spec.ty {
                PluginFieldType::Text { .. } => Some(PluginValue::Text(s)),
                PluginFieldType::Keyword => Some(PluginValue::Text(s)),
                _ => None,
            },
            StoredValue::I64(n) => match cf.spec.ty {
                PluginFieldType::I64 => Some(PluginValue::I64(n)),
                _ => None,
            },
            StoredValue::U64(n) => match cf.spec.ty {
                PluginFieldType::U64 => Some(PluginValue::U64(n)),
                _ => None,
            },
            StoredValue::Bool(b) => match cf.spec.ty {
                PluginFieldType::Bool => Some(PluginValue::Bool(b)),
                _ => None,
            },
            StoredValue::Other => None,
        },
    }
}

impl LixunIndex {
    fn read_extras(&self, d: &TantivyDocument) -> (r: Vec<ExtraFieldValue>)
        requires
            self.wf(),
        ensures
            extra_views(r@) == extras_of(self.plugins.extras@, fields::doc_values(*d)),
    {
        let ghost values = fields::doc_values(*d);
        let ghost extras = self.plugins.extras@;
        let mut out: Vec<ExtraFieldValue> = Vec::new();
        let mut i: usize = 0;
        proof {
            assert(extra_views(out@) =~= extras_of(extras.take(0), values));
        }
        while i < self.plugins.extras.len()
            invariant
                self.wf(),
                extras == self.plugins.extras@,
                values == fields::doc_values(*d),
                i <= extras.len(),
                extra_views(out@) == extras_of(extras.take(i as int), values),
            decreases extras.len() - i,
        {
            let ghost before = extra_views(out@);
            proof {
                assert(extras.take(i + 1).drop_last() =~= extras.take(i as int));
                assert(extras.take(i + 1).last() == extras[i as int]);
            }
            match read_extra(d, self.plugins.extras.value_at(i)) {
                Some(value) => {
                    let ghost vv = plugin_value_view(value);
                    out.push(
                        ExtraFieldValue { field: self.plugins.extras.name_at(i).clone(), value },
                    );
                    proof {
                        assert(extra_views(out@) =~= before.push((extras[i as int].0, vv)));
                    }
                },
                None => {},
            }
            i = i + 1;
        }
        proof {
            assert(extras.take(extras.len() as int) =~= extras);
        }
        out
    }

    /// Reconstructs a document from its stored fields. Plugin fields that
    /// are not stored are missing from it.
    pub fn doc_from_tantivy(&self, d: &TantivyDocument) -> (r: StoredDocument)
        requires
            self.wf(),
        ensures
            r@ == stored_of_values(self.plugins.extras@, fields::doc_values(*d)),
    {
        let category = match fields::read_text(d, self.schema.category) {
            Some(name) => Category::from_name(name.as_str()),
            None => Category::File,
        };
        StoredDocument {
            id: fields::read_text_or_empty(d, self.schema.id),
            category,
            title: fields::read_text_or_empty(d, self.schema.title),
            subtitle: fields::read_text_or_empty(d, self.schema.subtitle),
            icon_name: fields::stored_optional_text(d, self.schema.icon_name),
            kind_label: fields::stored_optional_text(d, self.schema.kind_label),
            body: fields::stored_optional_text(d, self.schema.body),
            path: fields::read_text_or_empty(d, self.schema.path),
            mtime: read_mtime(d),
            size: read_size(d),
            action: read_action(d),
            secondary_action: fields::stored_optional_text(d, self.schema.secondary_action),
            extract_fail: read_extract_fail(d),
            sender: fields::stored_optional_text(d, self.schema.sender),
            recipients: fields::stored_optional_text(d, self.schema.recipients),
            source_instance: fields::read_text_or_empty(d, self.schema.source_instance),
            extra: self.read_extras(d),
        }
    }

    /// The id of a document, where it has one.
    pub fn doc_id(&self, d: &TantivyDocument) -> (r: Option<String>)
        requires
            self.wf(),
        ensures
            match r {
                Some(id) => fields::text_value(fields::doc_values(*d), 0) == Some(id@),
                None => fields::text_value(fields::doc_values(*d), 0) is None,
            },
    {
        fields::read_text(d, self.schema.id)
    }

    /// The stored body of a document, unless it is empty or blank.
    pub fn body_of(&self, d: &TantivyDocument) -> (r: Option<String>)
        requires
            self.wf(),
        ensures
            match r {
                Some(b) => fields::optional_text(fields::doc_values(*d), 9) == Some(b@)
                    && text::trimmed(b@).len() > 0,
                None => match fields::optional_text(fields::doc_values(*d), 9) {
                    Some(b) => text::trimmed(b).len() == 0,
                    None => true,
                },
            },
    {
        match fields::stored_optional_text(d, self.schema.body) {
            Some(b) => {
                let t = text::trim(&text::to_chars(b.as_str()));
                if t.len() > 0 {
                    Some(b)
                } else {
                    None
                }
            },
            None => None,
        }
    }
}

/// A search result on its way out of the index: the document, and the
/// signals that its score is weighted by.
#[derive(Clone, Debug, PartialEq, Eq)]
pub struct SearchHit {
    pub id: String,
    pub category: Category,
    pub title: String,
    pub subtitle: String,
    pub icon_name: Option<String>,
    pub kind_label: Option<String>,
    /// The serialized action.
    pub action: String,
    /// The serialized secondary action.
    pub secondary_action: Option<String>,
    pub extract_fail: bool,
    pub sender: Option<String>,
    pub recipients: Option<String>,
    pub body: Option<String>,
    /// The query leads the title.
    pub prefix_match: bool,
    /// The query leads the title's initials.
    pub acronym_match: bool,
    /// The age that the recency weight decays with.
    pub age_secs: Option<u64>,
}

/// The category that a search result shows. Results that only sources
/// outside the index produce have none here and count as files.
pub open spec fn hit_category_of(name: Seq<char>) -> Category {
    if name == "app"@ {
        Category::App
    } else if name == "mail"@ {
        Category::Mail
    } else if name == "attachment"@ {
        Category::Attachment
    } else {
        Category::File
    }
}

/// The category of a search result with these values.
pub open spec fn hit_category(values: Seq<(u32, ValueView)>) -> Category {
    match fields::text_value(values, 1) {
        Some(name) => hit_category_of(name),
        None => Category::File,
    }
}

/// `hit` is the search result with these values for the normalized query.
pub open spec fn hit_of(
    values: Seq<(u32, ValueView)>,
    q_norm: Seq<char>,
    now_secs: i64,
    hit: SearchHit,
) -> bool {
    let title = fields::text_or_empty(values, 2);
    &&& hit.id@ == match fields::text_value(values, 0) {
        Some(id) => id,
        None => "?"@,
    }
    &&& hit.category == hit_category(values)
    &&& hit.title@ == title
    &&& hit.subtitle@ == fields::text_or_empty(values, 6)
    &&& model::opt_view(hit.icon_name) == fields::optional_text(values, 7)
    &&& model::opt_view(hit.kind_label) == fields::optional_text(values, 8)
    &&& hit.action@ == action_of(values)
    &&& model::opt_view(hit.secondary_action) == fields::optional_text(values, 14)
    &&& hit.extract_fail == extract_fail_of(values)
    &&& model::opt_view(hit.sender) == fields::optional_text(values, 16)
    &&& model::opt_view(hit.recipients) == fields::optional_text(values, 17)
    &&& model::opt_view(hit.body) == fields::optional_text(values, 9)
    &&& hit.prefix_match == (q_norm.len() > 0 && q_norm.is_prefix_of(
        crate::normalize::normalized(title),
    ))
    &&& hit.acronym_match == (q_norm.len() > 0 && q_norm.is_prefix_of(
        crate::normalize::normalized(scoring::initials_of(title)),
    ))
    &&& hit.age_secs == scoring::recency_age(hit_category(values), mtime_of(values), now_secs)
}

fn hit_category_from(name: &str) -> (r: Category)
    ensures
        r == hit_category_of(name@),
{
    if text::text_eq(name, "app") {
        Category::App
    } else if text::text_eq(name, "mail") {
        Category::Mail
    } else if text::text_eq(name, "attachment") {
        Category::Attachment
    } else {
        Category::File
    }
}

impl LixunIndex {
    /// Turns a found document into a search result for the normalized
    /// query.
    pub fn hit_from_tantivy(&self, d: &TantivyDocument, q_norm: &str, now_secs: i64) -> (r:
        SearchHit)
        requires
            self.wf(),
        ensures
            hit_of(fields::doc_values(*d), q_norm@, now_secs, r),
    {
        let id = match fields::read_text(d, self.schema.id) {
            Some(id) => id,
            None => text::from_chars(&text::to_chars("?")),
        };
        let category = match fields::read_text(d, self.schema.category) {
            Some(name) => hit_category_from(name.as_str()),
            None => Category::File,
        };
        let title = fields::read_text_or_empty(d, self.schema.title);
        let title_norm = crate::normalize::normalize_for_match(title.as_str());
        let prefix_match = scoring::prefix_match(title_norm.as_str(), q_norm);
        let acronym_match = scoring::acronym_match(title.as_str(), q_norm);
        let age_secs = scoring::recency_age_secs(category, read_mtime(d), now_secs);
        SearchHit {
            id,
            category,
            title,
            subtitle: fields::read_text_or_empty(d, self.schema.subtitle),
            icon_name: fields::stored_optional_text(d, self.schema.icon_name),
            kind_label: fields::stored_optional_text(d, self.schema.kind_label),
            action: read_action(d),
            secondary_action: fields::stored_optional_text(d, self.schema.secondary_action),
            extract_fail: read_extract_fail(d),
            sender: fields::stored_optional_text(d, self.schema.sender),
            recipients: fields::stored_optional_text(d, self.schema.recipients),
            body: fields::stored_optional_text(d, self.schema.body),
            prefix_match,
            acronym_match,
            age_secs,
        }
    }
}

/// Law: a plugin field takes the values of its own type: texts go into text
/// and keyword fields, numbers and truth values into fields of theirs. A
/// document with any other value, or with a field that nobody declares, is
/// refused, and the refusal names the field.
pub proof fn law_wrong_plugin_values_are_refused(
    extras: Seq<(Seq<char>, CompiledField)>,
    x: ExtraFieldValue,
    e: IndexError,
    ty: PluginFieldType,
    s: String,
    i: i64,
    u: u64,
    b: bool,
)
    ensures
        fits(ty, PluginValue::Text(s)) <==> ty is Text || ty is Keyword,
        fits(ty, PluginValue::I64(i)) <==> ty is I64,
        fits(ty, PluginValue::U64(u)) <==> ty is U64,
        fits(ty, PluginValue::Bool(b)) <==> ty is Bool,
        extra_ok(extras, x) ==> (name_map::value_of(extras, x.field@) matches Some(cf) && fits(
            cf.spec.ty,
            x.value,
        )),
        extra_error(extras, x, e) ==> !extra_ok(extras, x) && match e {
            IndexError::UnknownField { field } => field@ == x.field@ && name_map::value_of(
                extras,
                x.field@,
            ) is None,
            IndexError::TypeMismatch { field, ty: t, value } => field@ == x.field@
                && name_map::value_of(extras, x.field@) is Some && !fits(t, x.value),
        },
{
}

} // verus!
