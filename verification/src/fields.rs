//! Index schemas and index documents: what the library builds and reads of
//! the search engine's data structures.
//!
//! A schema is modelled as the sequence of its field definitions, whose
//! positions are the field numbers, and a document as the sequence of its
//! field values.

use tantivy::schema::document::{ReferenceValue, ReferenceValueLeaf};
use tantivy::schema::{
    Field, FieldType, IndexRecordOption, NumericOptions, Schema, SchemaBuilder, TantivyDocument,
    TextFieldIndexing, TextOptions, Value,
};
use vstd::prelude::*;

verus! {

/// A schema under construction.
#[verifier::external_type_specification]
#[verifier::external_body]
pub struct ExSchemaBuilder(SchemaBuilder);

/// A finished schema.
#[verifier::external_type_specification]
#[verifier::external_body]
pub struct ExSchema(Schema);

/// A document as the index takes and returns it.
#[verifier::external_type_specification]
#[verifier::external_body]
pub struct ExTantivyDocument(TantivyDocument);

/// The type of a field's values.
#[derive(Clone, Copy, Debug, PartialEq, Eq, Structural)]
pub enum FieldKind {
    Str,
    U64,
    I64,
    F64,
    Bool,
    Date,
    Facet,
    Bytes,
    JsonObject,
    IpAddr,
}

/// What a schema says of one field.
pub struct FieldDef {
    pub name: Seq<char>,
    pub kind: FieldKind,
    /// The analyzer of an indexed text field.
    pub tokenizer: Option<Seq<char>>,
    /// Whether an indexed text field records frequencies and positions.
    pub positions: bool,
    /// Whether a number or flag is indexed.
    pub indexed: bool,
    pub fast: bool,
    pub stored: bool,
}

/// A field of a schema as it is read back.
#[derive(Clone, Debug, PartialEq, Eq)]
pub struct FieldInfo {
    pub name: String,
    pub kind: FieldKind,
    pub fast: bool,
}

/// A field value.
#[derive(Clone, Debug, PartialEq, Eq)]
pub enum StoredValue {
    Text(String),
    I64(i64),
    U64(u64),
    Bool(bool),
    /// A value of a type that no field here has.
    Other,
}

/// The model of a field value.
pub enum ValueView {
    Text(Seq<char>),
    I64(i64),
    U64(u64),
    Bool(bool),
    Other,
}

impl View for StoredValue {
    type V = ValueView;

    open spec fn view(&self) -> ValueView {
        match *self {
            StoredValue::Text(s) => ValueView::Text(s@),
            StoredValue::I64(v) => ValueView::I64(v),
            StoredValue::U64(v) => ValueView::U64(v),
            StoredValue::Bool(v) => ValueView::Bool(v),
            StoredValue::Other => ValueView::Other,
        }
    }
}

/// The fields of a schema under construction, in the order of their
/// numbers.
pub uninterp spec fn builder_fields(b: SchemaBuilder) -> Seq<FieldDef>;

/// The fields of a schema, in the order of their numbers.
pub uninterp spec fn schema_fields(s: Schema) -> Seq<FieldDef>;

/// The field values of a document, in order.
pub uninterp spec fn doc_values(d: TantivyDocument) -> Seq<(u32, ValueView)>;

/// Whether a schema can take one more field with this name: the name is
/// valid and new, and the field numbers do not run out.
pub open spec fn takes_field(fields: Seq<FieldDef>, name: Seq<char>) -> bool {
    &&& name.len() > 0
    &&& name[0] != '-'
    &&& fields.len() < u32::MAX
    &&& forall|i: int| 0 <= i < fields.len() ==> (#[trigger] fields[i]).name != name
}

/// The definition of a text field.
pub open spec fn text_def(
    name: Seq<char>,
    tokenizer: Option<Seq<char>>,
    positions: bool,
    stored: bool,
) -> FieldDef {
    FieldDef {
        name,
        kind: FieldKind::Str,
        tokenizer,
        positions: positions && tokenizer is Some,
        indexed: tokenizer is Some,
        fast: false,
        stored,
    }
}

/// The definition of a field of numbers or flags.
pub open spec fn numeric_def(
    name: Seq<char>,
    kind: FieldKind,
    indexed: bool,
    fast: bool,
    stored: bool,
) -> FieldDef {
    FieldDef { name, kind, tokenizer: None, positions: false, indexed, fast, stored }
}

/// `SchemaBuilder::new`: a schema without fields.
#[verifier::external_body]
pub(crate) fn new_builder() -> (b: SchemaBuilder)
    ensures
        builder_fields(b) == Seq::<FieldDef>::empty(),
{
    SchemaBuilder::new()
}

/// `SchemaBuilder::add_text_field`, given options made of the parameters:
/// appends a text field and returns its number, which is its position. The
/// field is indexed where it has an analyzer; it records positions and
/// frequencies with `positions`, and only the documents without.
#[verifier::external_body]
pub(crate) fn add_text_field(
    b: &mut SchemaBuilder,
    name: &str,
    tokenizer: Option<&str>,
    positions: bool,
    stored: bool,
) -> (field: u32)
    requires
        takes_field(builder_fields(*old(b)), name@),
    ensures
        field == builder_fields(*old(b)).len(),
        builder_fields(*final(b)) == builder_fields(*old(b)).push(
            text_def(
                name@,
                match tokenizer {
                    Some(t) => Some(t@),
                    None => None,
                },
                positions,
                stored,
            ),
        ),
{
    let record = if positions { IndexRecordOption::WithFreqsAndPositions } else { IndexRecordOption::Basic };
    let mut options = TextOptions::default();
    if let Some(t) = tokenizer {
        options = options.set_indexing_options(TextFieldIndexing::default().set_tokenizer(t).set_index_option(record));
    }
    if stored {
        options = options.set_stored();
    }
    b.add_text_field(name, options).field_id()
}

/// `SchemaBuilder::add_i64_field`, given options made of the parameters: appends
/// a field of signed numbers and returns its number, which is its position.
#[verifier::external_body]
pub(crate) fn add_i64_field(
    b: &mut SchemaBuilder,
    name: &str,
    indexed: bool,
    fast: bool,
    stored: bool,
) -> (field: u32)
    requires
        takes_field(builder_fields(*old(b)), name@),
    ensures
        field == builder_fields(*old(b)).len(),
        builder_fields(*final(b)) == builder_fields(*old(b)).push(
            numeric_def(name@, FieldKind::I64, indexed, fast, stored),
        ),
{
    let mut options = NumericOptions::default();
    if indexed {
        options = options.set_indexed();
    }
    if fast {
        options = options.set_fast();
    }
    if stored {
        options = options.set_stored();
    }
    b.add_i64_field(name, options).field_id()
}

/// `SchemaBuilder::add_u64_field`, given options made of the parameters: appends
/// a field of unsigned numbers and returns its number, which is its position.
#[verifier::external_body]
pub(crate) fn add_u64_field(
    b: &mut SchemaBuilder,
    name: &str,
    indexed: bool,
    fast: bool,
    stored: bool,
) -> (field: u32)
    requires
        takes_field(builder_fields(*old(b)), name@),
    ensures
        field == builder_fields(*old(b)).len(),
        builder_fields(*final(b)) == builder_fields(*old(b)).push(
            numeric_def(name@, FieldKind::U64, indexed, fast, stored),
        ),
{
    let mut options = NumericOptions::default();
    if indexed {
        options = options.set_indexed();
    }
    if fast {
        options = options.set_fast();
    }
    if stored {
        options = options.set_stored();
    }
    b.add_u64_field(name, options).field_id()
}

/// `SchemaBuilder::add_bool_field`, given options made of the parameters: appends
/// a field of flags and returns its number, which is its position.
#[verifier::external_body]
pub(crate) fn add_bool_field(
    b: &mut SchemaBuilder,
    name: &str,
    indexed: bool,
    fast: bool,
    stored: bool,
) -> (field: u32)
    requires
        takes_field(builder_fields(*old(b)), name@),
    ensures
        field == builder_fields(*old(b)).len(),
        builder_fields(*final(b)) == builder_fields(*old(b)).push(
            numeric_def(name@, FieldKind::Bool, indexed, fast, stored),
        ),
{
    let mut options = NumericOptions::default();
    if indexed {
        options = options.set_indexed();
    }
    if fast {
        options = options.set_fast();
    }
    if stored {
        options = options.set_stored();
    }
    b.add_bool_field(name, options).field_id()
}

/// `SchemaBuilder::build`: the finished schema has the builder's fields.
#[verifier::external_body]
pub(crate) fn build_schema(b: SchemaBuilder) -> (s: Schema)
    ensures
        schema_fields(s) == builder_fields(b),
{
    b.build()
}

/// `Schema::num_fields`: the number of fields.
#[verifier::external_body]
pub(crate) fn field_count(s: &Schema) -> (n: usize)
    ensures
        n == schema_fields(*s).len(),
{
    s.num_fields()
}

/// `Schema::get_field_entry`, read out: the name, type and fastness of the
/// field with the number `field`.
#[verifier::external_body]
pub(crate) fn field_info(s: &Schema, field: u32) -> (r: FieldInfo)
    requires
        field < schema_fields(*s).len(),
    ensures
        r.name@ == schema_fields(*s)[field as int].name,
        r.kind == schema_fields(*s)[field as int].kind,
        r.fast == schema_fields(*s)[field as int].fast,
{
    let entry = s.get_field_entry(Field::from_field_id(field));
    let kind = match entry.field_type() {
        FieldType::Str(_) => FieldKind::Str,
        FieldType::U64(_) => FieldKind::U64,
        FieldType::I64(_) => FieldKind::I64,
        FieldType::F64(_) => FieldKind::F64,
        FieldType::Bool(_) => FieldKind::Bool,
        FieldType::Date(_) => FieldKind::Date,
        FieldType::Facet(_) => FieldKind::Facet,
        FieldType::Bytes(_) => FieldKind::Bytes,
        FieldType::JsonObject(_) => FieldKind::JsonObject,
        FieldType::IpAddr(_) => FieldKind::IpAddr,
    };
    FieldInfo { name: entry.name().to_string(), kind, fast: entry.is_fast() }
}

/// The number of bytes that a length takes up: seven bits in each.
pub open spec fn length_size(n: nat) -> nat {
    if n < 128 {
        1
    } else if n < 16384 {
        2
    } else if n < 2097152 {
        3
    } else if n < 268435456 {
        4
    } else {
        5
    }
}

/// The bytes that a value takes up in a document: a text its UTF-8 bytes
/// and their number, a number eight, a flag none.
pub open spec fn value_weight(v: ValueView) -> nat {
    match v {
        ValueView::Text(t) => {
            let n = vstd::utf8::encode_utf8(t).len();
            length_size(n) + n
        },
        ValueView::I64(_) => 8,
        ValueView::U64(_) => 8,
        ValueView::Bool(_) => 0,
        ValueView::Other => 0,
    }
}

/// The bytes that values take up in a document.
pub open spec fn weight(values: Seq<(u32, ValueView)>) -> nat
    decreases values.len(),
{
    if values.len() == 0 {
        0
    } else {
        weight(values.drop_last()) + value_weight(values.last().1)
    }
}

/// Whether the length of a value has a number in a document.
pub open spec fn has_length(v: ValueView) -> bool {
    match v {
        ValueView::Text(t) => vstd::utf8::encode_utf8(t).len() <= u32::MAX,
        ValueView::Other => false,
        _ => true,
    }
}

/// Whether a document can take a value for this field: the number fits the
/// document's own numbering, and the place and the length of the value its
/// own addressing.
pub open spec fn takes_value(values: Seq<(u32, ValueView)>, field: u32, v: ValueView) -> bool {
    field <= u16::MAX && weight(values) <= u32::MAX && has_length(v)
}

/// Whether a document can take the values one after the other.
pub open spec fn takes_values(values: Seq<(u32, ValueView)>) -> bool {
    forall|i: int|
        0 <= i < values.len() ==> takes_value(
            values.take(i),
            (#[trigger] values[i]).0,
            values[i].1,
        )
}

/// The first value of the field, if it has one.
pub open spec fn first_value(values: Seq<(u32, ValueView)>, field: u32) -> Option<ValueView>
    decreases values.len(),
{
    if values.len() == 0 {
        None
    } else if values[0].0 == field {
        Some(values[0].1)
    } else {
        first_value(values.drop_first(), field)
    }
}

/// `TantivyDocument::new`: a document without values.
#[verifier::external_body]
pub(crate) fn new_document() -> (d: TantivyDocument)
    ensures
        doc_values(d) == Seq::<(u32, ValueView)>::empty(),
{
    TantivyDocument::new()
}

/// `TantivyDocument::add_text`: appends a text for the field.
#[verifier::external_body]
pub(crate) fn add_text(d: &mut TantivyDocument, field: u32, text: &str)
    requires
        takes_value(doc_values(*old(d)), field, ValueView::Text(text@)),
    ensures
        doc_values(*final(d)) == doc_values(*old(d)).push((field, ValueView::Text(text@))),
{
    d.add_text(Field::from_field_id(field), text)
}

/// `TantivyDocument::add_i64`: appends a signed number for the field.
#[verifier::external_body]
pub(crate) fn add_i64(d: &mut TantivyDocument, field: u32, v: i64)
    requires
        takes_value(doc_values(*old(d)), field, ValueView::I64(v)),
    ensures
        doc_values(*final(d)) == doc_values(*old(d)).push((field, ValueView::I64(v))),
{
    d.add_i64(Field::from_field_id(field), v)
}

/// `TantivyDocument::add_u64`: appends an unsigned number for the field.
#[verifier::external_body]
pub(crate) fn add_u64(d: &mut TantivyDocument, field: u32, v: u64)
    requires
        takes_value(doc_values(*old(d)), field, ValueView::U64(v)),
    ensures
        doc_values(*final(d)) == doc_values(*old(d)).push((field, ValueView::U64(v))),
{
    d.add_u64(Field::from_field_id(field), v)
}

/// `TantivyDocument::add_bool`: appends a flag for the field.
#[verifier::external_body]
pub(crate) fn add_bool(d: &mut TantivyDocument, field: u32, v: bool)
    requires
        takes_value(doc_values(*old(d)), field, ValueView::Bool(v)),
    ensures
        doc_values(*final(d)) == doc_values(*old(d)).push((field, ValueView::Bool(v))),
{
    d.add_bool(Field::from_field_id(field), v)
}

/// `TantivyDocument::get_first`, read out: the first value that the
/// document has for the field. A value that is neither text nor a 64-bit
/// integer nor a flag is `Other`.
#[verifier::external_body]
pub(crate) fn get_first(d: &TantivyDocument, field: u32) -> (r: Option<StoredValue>)
    ensures
        match r {
            Some(v) => first_value(doc_values(*d), field) == Some(v@),
            None => first_value(doc_values(*d), field) is None,
        },
{
    d.get_first(Field::from_field_id(field)).map(|v| match v.as_value() {
        ReferenceValue::Leaf(ReferenceValueLeaf::Str(s)) => StoredValue::Text(s.to_string()),
        ReferenceValue::Leaf(ReferenceValueLeaf::I64(n)) => StoredValue::I64(n),
        ReferenceValue::Leaf(ReferenceValueLeaf::U64(n)) => StoredValue::U64(n),
        ReferenceValue::Leaf(ReferenceValueLeaf::Bool(b)) => StoredValue::Bool(b),
        _ => StoredValue::Other,
    })
}

// ---------------------------------------------------------------------
// Reading and building documents
// ---------------------------------------------------------------------

/// The field's first value, where it is a text.
pub open spec fn text_value(values: Seq<(u32, ValueView)>, field: u32) -> Option<Seq<char>> {
    match first_value(values, field) {
        Some(ValueView::Text(t)) => Some(t),
        _ => None,
    }
}

/// The text of the field; empty where it has none.
pub open spec fn text_or_empty(values: Seq<(u32, ValueView)>, field: u32) -> Seq<char> {
    match text_value(values, field) {
        Some(t) => t,
        None => Seq::empty(),
    }
}

/// The text of the field, unless it is missing or empty.
pub open spec fn optional_text(values: Seq<(u32, ValueView)>, field: u32) -> Option<Seq<char>> {
    match text_value(values, field) {
        Some(t) => if t.len() == 0 {
            None
        } else {
            Some(t)
        },
        None => None,
    }
}

/// Reads the field's first value, where it is a text.
pub fn read_text(d: &TantivyDocument, field: u32) -> (r: Option<String>)
    ensures
        match r {
            Some(t) => text_value(doc_values(*d), field) == Some(t@),
            None => text_value(doc_values(*d), field) is None,
        },
{
    match get_first(d, field) {
        Some(StoredValue::Text(t)) => Some(t),
        _ => None,
    }
}

/// Reads the field's text; empty where it has none.
pub fn read_text_or_empty(d: &TantivyDocument, field: u32) -> (r: String)
    ensures
        r@ == text_or_empty(doc_values(*d), field),
{
    match read_text(d, field) {
        Some(t) => t,
        None => String::new(),
    }
}

/// Reads the field's text, unless it is missing or empty.
pub fn stored_optional_text(d: &TantivyDocument, field: u32) -> (r: Option<String>)
    ensures
        match r {
            Some(t) => optional_text(doc_values(*d), field) == Some(t@),
            None => optional_text(doc_values(*d), field) is None,
        },
{
    match read_text(d, field) {
        Some(t) => if t.as_str().is_empty() {
            None
        } else {
            Some(t)
        },
        None => None,
    }
}

/// The models of a list of field values.
pub open spec fn value_views(values: Seq<(u32, StoredValue)>) -> Seq<(u32, ValueView)> {
    Seq::new(values.len(), |i: int| (values[i].0, values[i].1@))
}

/// A document with the given values.
pub fn document_of(values: &Vec<(u32, StoredValue)>) -> (d: TantivyDocument)
    requires
        takes_values(value_views(values@)),
    ensures
        doc_values(d) == value_views(values@),
{
    let mut d = new_document();
    let ghost all = value_views(values@);
    let mut i: usize = 0;
    proof {
        assert(all.take(0) =~= Seq::<(u32, ValueView)>::empty());
    }
    while i < values.len()
        invariant
            i <= values@.len(),
            all == value_views(values@),
            takes_values(all),
            doc_values(d) == all.take(i as int),
        decreases values@.len() - i,
    {
        let field: u32 = values[i].0;
        proof {
            assert(all.take(i + 1) =~= all.take(i as int).push(all[i as int]));
            assert(takes_value(all.take(i as int), all[i as int].0, all[i as int].1));
        }
        match &values[i].1 {
            StoredValue::Text(t) => add_text(&mut d, field, t.as_str()),
            StoredValue::I64(v) => add_i64(&mut d, field, *v),
            StoredValue::U64(v) => add_u64(&mut d, field, *v),
            StoredValue::Bool(v) => add_bool(&mut d, field, *v),
            StoredValue::Other => {},
        }
        i = i + 1;
    }
    proof {
        assert(all.take(all.len() as int) =~= all);
    }
    d
}

/// The weight of values that are not too large.
proof fn lemma_weight(values: Seq<(u32, ValueView)>)
    requires
        forall|i: int|
            0 <= i < values.len() ==> ((#[trigger] values[i]).1 matches ValueView::Text(t)
                ==> vstd::utf8::encode_utf8(t).len() <= 4000000),
    ensures
        weight(values) <= 4000005 * values.len(),
    decreases values.len(),
{
    if values.len() > 0 {
        lemma_weight(values.drop_last());
        let last = values[values.len() - 1];
        assert(value_weight(last.1) <= 4000005);
    }
}

/// Law: a document of up to a thousand values, no text of which is longer
/// than four million bytes, can always be stored.
pub proof fn law_ordinary_documents_can_be_stored(values: Seq<(u32, ValueView)>)
    requires
        values.len() <= 1000,
        forall|i: int|
            0 <= i < values.len() ==> (#[trigger] values[i]).0 <= u16::MAX && !(values[i].1
                is Other) && (values[i].1 matches ValueView::Text(t) ==> vstd::utf8::encode_utf8(
                t,
            ).len() <= 4000000),
    ensures
        takes_values(values),
{
    assert forall|i: int| 0 <= i < values.len() implies takes_value(
        values.take(i),
        (#[trigger] values[i]).0,
        values[i].1,
    ) by {
        let lead = values.take(i);
        assert forall|j: int| 0 <= j < lead.len() implies ((
        #[trigger] lead[j]).1 matches ValueView::Text(t) ==> vstd::utf8::encode_utf8(t).len()
            <= 4000000) by {
            assert(lead[j] == values[j]);
        }
        lemma_weight(lead);
    }
}

} // verus!
