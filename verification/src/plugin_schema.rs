//! Schema fields that plugins declare, the fingerprint of a schema layout,
//! and the query aliases that stand for plugin fields.

use tantivy::schema::SchemaBuilder;
use vstd::prelude::*;

use crate::fields;
use crate::fields::{FieldDef, FieldKind};
use crate::name_map;
use crate::name_map::NameMap;
use crate::order;
use crate::text;

verus! {

/// File that holds the fingerprint of an index directory.
pub const FINGERPRINT_FILE: &'static str = "layout.fingerprint";

/// The analyzer of a plugin's text field.
#[derive(Clone, Copy, Debug, PartialEq, Eq, Structural)]
pub enum TextTokenizer {
    Default,
    Raw,
    Spotlight,
}

/// The type of a plugin's field.
#[derive(Clone, Copy, Debug, PartialEq, Eq, Structural)]
pub enum PluginFieldType {
    Text { tokenizer: TextTokenizer },
    Keyword,
    I64,
    U64,
    Bool,
}

/// A field that a plugin declares.
#[derive(Clone, Debug, PartialEq, Eq)]
pub struct PluginFieldSpec {
    pub schema_name: String,
    /// The name under which queries address the field.
    pub query_alias: Option<String>,
    pub ty: PluginFieldType,
    pub stored: bool,
    /// Whether queries without a field name search the field.
    pub default_search: bool,
    /// The weight of the field in such a search, as a decimal numeral.
    pub boost: String,
}

/// A plugin field and its number in the schema.
#[derive(Clone, Debug, PartialEq, Eq)]
pub struct CompiledField {
    pub field: u32,
    pub spec: PluginFieldSpec,
}

/// The plugin fields of a schema.
#[derive(Clone, Debug)]
pub struct CompiledPluginSchema {
    pub extras: NameMap<CompiledField>,
    pub query_aliases: NameMap<String>,
    /// Fields that every query searches, each with its boost.
    pub default_query_fields: Vec<(u32, String)>,
}

/// Why plugin fields do not make up a schema.
#[derive(Clone, Debug, PartialEq, Eq)]
pub enum SchemaError {
    /// Two fields have the same name.
    FieldCollision { name: String, first: String, second: String },
    /// Two fields have the same query alias.
    AliasCollision { alias: String, first: String, second: String },
}

impl TextTokenizer {
    /// The name of the analyzer.
    pub open spec fn name(self) -> Seq<char> {
        match self {
            TextTokenizer::Default => "default"@,
            TextTokenizer::Raw => "raw"@,
            TextTokenizer::Spotlight => "spotlight"@,
        }
    }

    fn as_str(self) -> (r: &'static str)
        ensures
            r@ == self.name(),
    {
        match self {
            TextTokenizer::Default => "default",
            TextTokenizer::Raw => "raw",
            TextTokenizer::Spotlight => "spotlight",
        }
    }
}

/// The text `'a' declared by both 'b' and 'c'` behind `lead`.
pub open spec fn collision_text(
    lead: Seq<char>,
    what: Seq<char>,
    first: Seq<char>,
    second: Seq<char>,
) -> Seq<char> {
    lead + what + "' declared by both '"@ + first + "' and '"@ + second + "'"@
}

impl SchemaError {
    /// The message of the error.
    pub open spec fn message(self) -> Seq<char> {
        match self {
            SchemaError::FieldCollision { name, first, second } => collision_text(
                "Plugin schema field name collision: '"@,
                name@,
                first@,
                second@,
            ),
            SchemaError::AliasCollision { alias, first, second } => collision_text(
                "Plugin query alias collision: '"@,
                alias@,
                first@,
                second@,
            ),
        }
    }

    /// The message of the error.
    pub fn to_text(&self) -> (r: String)
        ensures
            r@ == self.message(),
    {
        let mut out = String::new();
        match self {
            SchemaError::FieldCollision { name, first, second } => {
                out.push_str("Plugin schema field name collision: '");
                out.push_str(name.as_str());
                out.push_str("' declared by both '");
                out.push_str(first.as_str());
                out.push_str("' and '");
                out.push_str(second.as_str());
                out.push_str("'");
            },
            SchemaError::AliasCollision { alias, first, second } => {
                out.push_str("Plugin query alias collision: '");
                out.push_str(alias.as_str());
                out.push_str("' declared by both '");
                out.push_str(first.as_str());
                out.push_str("' and '");
                out.push_str(second.as_str());
                out.push_str("'");
            },
        }
        proof {
            assert(out@ =~= self.message());
        }
        out
    }
}

impl CompiledPluginSchema {
    /// Whether the maps are in order.
    pub open spec fn wf(&self) -> bool {
        self.extras.wf() && self.query_aliases.wf()
    }

    /// No plugin fields.
    pub fn empty() -> (r: CompiledPluginSchema)
        ensures
            r.wf(),
            r.extras@.len() == 0,
            r.query_aliases@.len() == 0,
            r.default_query_fields@.len() == 0,
    {
        CompiledPluginSchema {
            extras: NameMap::new(),
            query_aliases: NameMap::new(),
            default_query_fields: Vec::new(),
        }
    }
}

// ---------------------------------------------------------------------
// Flattening
// ---------------------------------------------------------------------

/// The declared fields, each with the kind of plugin that declares it: kind
/// by kind in the order of the kinds, and in the plugin's own order.
pub open spec fn flat(by_kind: Seq<(Seq<char>, Vec<PluginFieldSpec>)>) -> Seq<
    (Seq<char>, PluginFieldSpec),
>
    decreases by_kind.len(),
{
    if by_kind.len() == 0 {
        Seq::empty()
    } else {
        let (kind, specs) = by_kind.last();
        flat(by_kind.drop_last()) + Seq::new(specs@.len(), |i: int| (kind, specs@[i]))
    }
}

/// The query alias of a field.
pub open spec fn alias_of(spec: PluginFieldSpec) -> Option<Seq<char>> {
    match spec.query_alias {
        Some(a) => Some(a@),
        None => None,
    }
}

/// Whether an earlier field has the name of the one at `i`.
pub open spec fn name_taken(all: Seq<(Seq<char>, PluginFieldSpec)>, i: int) -> bool {
    exists|j: int| 0 <= j < i && (#[trigger] all[j]).1.schema_name@ == all[i].1.schema_name@
}

/// Whether an earlier field has the query alias of the one at `i`.
pub open spec fn alias_taken(all: Seq<(Seq<char>, PluginFieldSpec)>, i: int) -> bool {
    alias_of(all[i].1) is Some && exists|j: int|
        0 <= j < i && alias_of((#[trigger] all[j]).1) == alias_of(all[i].1)
}

/// Whether the first `n` fields have different names and aliases.
pub open spec fn distinct(all: Seq<(Seq<char>, PluginFieldSpec)>, n: int) -> bool {
    forall|i: int| 0 <= i < n ==> !(#[trigger] name_taken(all, i)) && !alias_taken(all, i)
}

/// Whether `e` tells of the first collision among the fields.
pub open spec fn first_collision(all: Seq<(Seq<char>, PluginFieldSpec)>, e: SchemaError) -> bool {
    exists|i: int, j: int|
        0 <= j < i < all.len() && #[trigger] collides(all, j, i, e) && distinct(all, i)
}

/// Whether `e` tells of a collision of the field at `i` with the one at `j`.
pub open spec fn collides(
    all: Seq<(Seq<char>, PluginFieldSpec)>,
    j: int,
    i: int,
    e: SchemaError,
) -> bool {
    match e {
        SchemaError::FieldCollision { name, first, second } => {
            &&& name@ == all[i].1.schema_name@
            &&& all[j].1.schema_name@ == all[i].1.schema_name@
            &&& first@ == all[j].0
            &&& second@ == all[i].0
        },
        SchemaError::AliasCollision { alias, first, second } => {
            &&& !name_taken(all, i)
            &&& alias_of(all[i].1) == Some(alias@)
            &&& alias_of(all[j].1) == Some(alias@)
            &&& first@ == all[j].0
            &&& second@ == all[i].0
        },
    }
}

/// The schema entry of a plugin field.
pub open spec fn def_of(spec: PluginFieldSpec) -> FieldDef {
    match spec.ty {
        PluginFieldType::Text { tokenizer } => fields::text_def(
            spec.schema_name@,
            Some(tokenizer.name()),
            true,
            spec.stored,
        ),
        PluginFieldType::Keyword => fields::text_def(
            spec.schema_name@,
            Some("raw"@),
            false,
            spec.stored,
        ),
        PluginFieldType::I64 => fields::numeric_def(
            spec.schema_name@,
            FieldKind::I64,
            true,
            true,
            spec.stored,
        ),
        PluginFieldType::U64 => fields::numeric_def(
            spec.schema_name@,
            FieldKind::U64,
            true,
            true,
            spec.stored,
        ),
        PluginFieldType::Bool => fields::numeric_def(
            spec.schema_name@,
            FieldKind::Bool,
            false,
            false,
            spec.stored,
        ),
    }
}

/// The sort keys of the fields: their names.
pub open spec fn name_keys(all: Seq<(Seq<char>, PluginFieldSpec)>) -> Seq<Seq<u64>> {
    Seq::new(all.len(), |i: int| order::text_key(all[i].1.schema_name@))
}

/// The fields in the order `p`.
pub open spec fn arranged(all: Seq<(Seq<char>, PluginFieldSpec)>, p: Seq<usize>) -> Seq<
    PluginFieldSpec,
> {
    Seq::new(p.len(), |i: int| all[p[i] as int].1)
}

/// The default search fields among the first `n` of `specs`, numbered from
/// `base`.
pub open spec fn defaults_of(specs: Seq<PluginFieldSpec>, base: nat, n: nat) -> Seq<
    (u32, String),
>
    decreases n,
{
    if n == 0 {
        Seq::empty()
    } else {
        let before = defaults_of(specs, base, (n - 1) as nat);
        if specs[n - 1].default_search {
            before.push(((base + n - 1) as u32, specs[n - 1].boost))
        } else {
            before
        }
    }
}

/// Whether one of the first `n` of `specs` is called `name`.
pub open spec fn declares(specs: Seq<PluginFieldSpec>, n: int, name: Seq<char>) -> bool {
    exists|i: int| 0 <= i < n && (#[trigger] specs[i]).schema_name@ == name
}

/// Whether one of the first `n` of `specs` has the query alias `alias`.
pub open spec fn declares_alias(specs: Seq<PluginFieldSpec>, n: int, alias: Seq<char>) -> bool {
    exists|i: int| 0 <= i < n && alias_of(#[trigger] specs[i]) == Some(alias)
}

/// `out` holds the first `n` of `specs`, numbered from `base`.
pub open spec fn compiled(
    specs: Seq<PluginFieldSpec>,
    base: nat,
    n: int,
    out: CompiledPluginSchema,
) -> bool {
    &&& out.wf()
    &&& forall|i: int|
        0 <= i < n ==> name_map::value_of(out.extras@, (#[trigger] specs[i]).schema_name@) == Some(
            CompiledField { field: (base + i) as u32, spec: specs[i] },
        )
    &&& forall|name: Seq<char>| #[trigger]
        name_map::value_of(out.extras@, name) is Some <==> declares(specs, n, name)
    &&& forall|i: int|
        0 <= i < n && alias_of(#[trigger] specs[i]) is Some ==> name_map::value_of(
            out.query_aliases@,
            alias_of(specs[i])->0,
        ) == Some(specs[i].schema_name)
    &&& forall|alias: Seq<char>| #[trigger]
        name_map::value_of(out.query_aliases@, alias) is Some <==> declares_alias(specs, n, alias)
    &&& out.default_query_fields@ == defaults_of(specs, base, n as nat)
}

// ---------------------------------------------------------------------
// Building
// ---------------------------------------------------------------------

/// A field and the kind of plugin that declares it.
struct Declared {
    kind: String,
    spec: PluginFieldSpec,
}

spec fn declared_views(v: Seq<Declared>) -> Seq<(Seq<char>, PluginFieldSpec)> {
    Seq::new(v.len(), |i: int| (v[i].kind@, v[i].spec))
}

/// A copy of a field specification.
pub fn clone_spec(spec: &PluginFieldSpec) -> (r: PluginFieldSpec)
    ensures
        r == *spec,
{
    PluginFieldSpec {
        schema_name: spec.schema_name.clone(),
        query_alias: crate::model::clone_opt(&spec.query_alias),
        ty: spec.ty,
        stored: spec.stored,
        default_search: spec.default_search,
        boost: spec.boost.clone(),
    }
}

fn flatten(by_kind: &NameMap<Vec<PluginFieldSpec>>) -> (r: Vec<Declared>)
    requires
        by_kind.wf(),
    ensures
        declared_views(r@) == flat(by_kind@),
{
    let mut out: Vec<Declared> = Vec::new();
    let mut k: usize = 0;
    proof {
        assert(declared_views(out@) =~= flat(by_kind@.take(0)));
    }
    while k < by_kind.len()
        invariant
            by_kind.wf(),
            k <= by_kind@.len(),
            declared_views(out@) == flat(by_kind@.take(k as int)),
        decreases by_kind@.len() - k,
    {
        let kind = by_kind.name_at(k);
        let specs = by_kind.value_at(k);
        let ghost before = flat(by_kind@.take(k as int));
        let ghost more = Seq::new(specs@.len(), |i: int| (kind@, specs@[i]));
        let mut i: usize = 0;
        while i < specs.len()
            invariant
                i <= specs@.len(),
                more == Seq::new(specs@.len(), |i: int| (kind@, specs@[i])),
                declared_views(out@) == before + more.take(i as int),
            decreases specs@.len() - i,
        {
            let ghost was = declared_views(out@);
            out.push(Declared { kind: kind.clone(), spec: clone_spec(&specs[i]) });
            proof {
                assert(declared_views(out@) =~= was.push(more[i as int]));
                assert(before + more.take(i + 1) =~= (before + more.take(i as int)).push(
                    more[i as int],
                ));
            }
            i = i + 1;
        }
        proof {
            let next = by_kind@.take(k + 1);
            assert(next.drop_last() =~= by_kind@.take(k as int));
            assert(next.last() == (kind@, *specs));
            assert(more.take(more.len() as int) =~= more);
            assert(flat(next) =~= before + more);
        }
        k = k + 1;
    }
    proof {
        assert(by_kind@.take(by_kind@.len() as int) =~= by_kind@);
    }
    out
}

fn same_alias(a: &Option<String>, b: &Option<String>) -> (r: bool)
    ensures
        r == (a matches Some(x) && b matches Some(y) && x@ == y@),
{
    match (a, b) {
        (Some(x), Some(y)) => text::text_eq(x.as_str(), y.as_str()),
        _ => false,
    }
}

fn find_collision(all: &Vec<Declared>) -> (r: Option<SchemaError>)
    ensures
        match r {
            Some(e) => first_collision(declared_views(all@), e),
            None => distinct(declared_views(all@), all@.len() as int),
        },
{
    let ghost views = declared_views(all@);
    let mut i: usize = 0;
    while i < all.len()
        invariant
            i <= all@.len(),
            views == declared_views(all@),
            distinct(views, i as int),
        decreases all@.len() - i,
    {
        let mut j: usize = 0;
        while j < i
            invariant
                j <= i < all@.len(),
                views == declared_views(all@),
                distinct(views, i as int),
                forall|k: int|
                    0 <= k < j ==> (#[trigger] views[k]).1.schema_name@
                        != views[i as int].1.schema_name@,
            decreases i - j,
        {
            if text::text_eq(
                all[j].spec.schema_name.as_str(),
                all[i].spec.schema_name.as_str(),
            ) {
                let e = SchemaError::FieldCollision {
                    name: all[i].spec.schema_name.clone(),
                    first: all[j].kind.clone(),
                    second: all[i].kind.clone(),
                };
                proof {
                    assert(collides(views, j as int, i as int, e));
                }
                return Some(e);
            }
            j = j + 1;
        }
        proof {
            assert(!name_taken(views, i as int));
        }
        let mut k: usize = 0;
        while k < i
            invariant
                k <= i < all@.len(),
                views == declared_views(all@),
                distinct(views, i as int),
                !name_taken(views, i as int),
                forall|m: int|
                    0 <= m < k ==> alias_of(views[i as int].1) is None || alias_of(
                        (#[trigger] views[m]).1,
                    ) != alias_of(views[i as int].1),
            decreases i - k,
        {
            if same_alias(&all[k].spec.query_alias, &all[i].spec.query_alias) {
                let alias = match &all[i].spec.query_alias {
                    Some(a) => a.clone(),
                    None => String::new(),
                };
                let e = SchemaError::AliasCollision {
                    alias,
                    first: all[k].kind.clone(),
                    second: all[i].kind.clone(),
                };
                proof {
                    assert(collides(views, k as int, i as int, e));
                }
                return Some(e);
            }
            proof {
                assert(views[k as int].1 == all@[k as int].spec);
                assert(views[i as int].1 == all@[i as int].spec);
            }
            k = k + 1;
        }
        proof {
            assert(!alias_taken(views, i as int));
            assert forall|k: int| 0 <= k < i + 1 implies !(#[trigger] name_taken(views, k))
                && !alias_taken(views, k) by {
                if k < i {
                    assert(!name_taken(views, k));
                }
            }
        }
        i = i + 1;
    }
    None
}

/// Adds one plugin field to the schema.
fn add_field(builder: &mut SchemaBuilder, spec: &PluginFieldSpec) -> (field: u32)
    requires
        fields::takes_field(fields::builder_fields(*old(builder)), spec.schema_name@),
    ensures
        field == fields::builder_fields(*old(builder)).len(),
        fields::builder_fields(*final(builder)) == fields::builder_fields(*old(builder)).push(
            def_of(*spec),
        ),
{
    let name = spec.schema_name.as_str();
    match spec.ty {
        PluginFieldType::Text { tokenizer } => fields::add_text_field(
            builder,
            name,
            Some(tokenizer.as_str()),
            true,
            spec.stored,
        ),
        PluginFieldType::Keyword => fields::add_text_field(
            builder,
            name,
            Some("raw"),
            false,
            spec.stored,
        ),
        PluginFieldType::I64 => fields::add_i64_field(builder, name, true, true, spec.stored),
        PluginFieldType::U64 => fields::add_u64_field(builder, name, true, true, spec.stored),
        PluginFieldType::Bool => fields::add_bool_field(builder, name, false, false, spec.stored),
    }
}

/// Enters a field with its number.
fn note_field(out: &mut CompiledPluginSchema, spec: &PluginFieldSpec, field: u32)
    requires
        old(out).wf(),
    ensures
        final(out).wf(),
        name_map::value_of(final(out).extras@, spec.schema_name@) == Some(
            CompiledField { field, spec: *spec },
        ),
        forall|other: Seq<char>|
            other != spec.schema_name@ ==> #[trigger] name_map::value_of(
                final(out).extras@,
                other,
            ) == name_map::value_of(old(out).extras@, other),
        match alias_of(*spec) {
            Some(a) => {
                &&& name_map::value_of(final(out).query_aliases@, a) == Some(spec.schema_name)
                &&& forall|other: Seq<char>|
                    other != a ==> #[trigger] name_map::value_of(final(out).query_aliases@, other)
                        == name_map::value_of(old(out).query_aliases@, other)
            },
            None => final(out).query_aliases@ == old(out).query_aliases@,
        },
        final(out).default_query_fields@ == if spec.default_search {
            old(out).default_query_fields@.push((field, spec.boost))
        } else {
            old(out).default_query_fields@
        },
{
    match &spec.query_alias {
        Some(alias) => {
            out.query_aliases.insert(alias.clone(), spec.schema_name.clone());
        },
        None => {},
    }
    if spec.default_search {
        out.default_query_fields.push((field, spec.boost.clone()));
    }
    out.extras.insert(spec.schema_name.clone(), CompiledField { field, spec: clone_spec(spec) });
}

/// Whether the schema can take all of the fields.
pub open spec fn takes_all(
    fields_before: Seq<FieldDef>,
    all: Seq<(Seq<char>, PluginFieldSpec)>,
) -> bool {
    &&& fields_before.len() + all.len() <= u32::MAX
    &&& forall|i: int|
        0 <= i < all.len() ==> (#[trigger] all[i]).1.schema_name@.len() > 0
            && all[i].1.schema_name@[0] != '-'
    &&& forall|i: int, k: int|
        0 <= i < all.len() && 0 <= k < fields_before.len() ==> (
        #[trigger] fields_before[k]).name != (#[trigger] all[i]).1.schema_name@
}

/// Adds the fields that plugins declare to a schema under construction.
///
/// Fields that share a name or a query alias are refused: the error tells
/// of the first collision, a shared name ahead of a shared alias. Otherwise
/// the fields are added in the order of their names.
pub fn add_plugin_fields_to_schema(
    builder: &mut SchemaBuilder,
    by_kind: &NameMap<Vec<PluginFieldSpec>>,
) -> (r: Result<CompiledPluginSchema, SchemaError>)
    requires
        by_kind.wf(),
        distinct(flat(by_kind@), flat(by_kind@).len() as int) ==> takes_all(
            fields::builder_fields(*old(builder)),
            flat(by_kind@),
        ),
    ensures
        match r {
            Err(e) => first_collision(flat(by_kind@), e) && *final(builder) == *old(builder),
            Ok(out) => {
                &&& distinct(flat(by_kind@), flat(by_kind@).len() as int)
                &&& exists|p: Seq<usize>| #[trigger]
                    order::sorts(name_keys(flat(by_kind@)), p) && compiled(
                        arranged(flat(by_kind@), p),
                        fields::builder_fields(*old(builder)).len(),
                        p.len() as int,
                        out,
                    ) && fields::builder_fields(*final(builder)) == fields::builder_fields(
                        *old(builder),
                    ) + Seq::new(p.len(), |i: int| def_of(arranged(flat(by_kind@), p)[i]))
            },
        },
{
    let all = flatten(by_kind);
    let ghost views = flat(by_kind@);
    match find_collision(&all) {
        Some(e) => {
            return Err(e);
        },
        None => {},
    }
    proof {
        assert(views.len() == all@.len());
    }
    let mut keys: Vec<Vec<u64>> = Vec::new();
    let mut k: usize = 0;
    while k < all.len()
        invariant
            k <= all@.len(),
            views == declared_views(all@),
            keys@.len() == k,
            forall|m: int|
                0 <= m < k ==> (#[trigger] keys@[m])@ == order::text_key(
                    views[m].1.schema_name@,
                ),
        decreases all@.len() - k,
    {
        keys.push(order::key_of_text(&text::to_chars(all[k].spec.schema_name.as_str())));
        k = k + 1;
    }
    let p = order::stable_order(&keys);
    proof {
        assert(order::key_views(keys@) =~= name_keys(views));
    }
    let ghost specs = arranged(views, p@);
    let ghost start = fields::builder_fields(*builder);
    let ghost base = start.len();
    let ghost defs = Seq::new(p@.len(), |i: int| def_of(specs[i]));
    let mut out = CompiledPluginSchema::empty();
    let mut n: usize = 0;
    proof {
        assert(start + defs.take(0) =~= start);
        assert forall|name: Seq<char>| #[trigger]
            name_map::value_of(out.extras@, name) is Some <==> declares(specs, 0, name) by {}
        assert forall|alias: Seq<char>| #[trigger]
            name_map::value_of(out.query_aliases@, alias) is Some <==> declares_alias(
                specs,
                0,
                alias,
            ) by {}
        assert(out.default_query_fields@ =~= defaults_of(specs, base, 0));
        lemma_arranged_distinct(views, p@);
    }
    while n < p.len()
        invariant
            n <= p@.len(),
            views == declared_views(all@),
            views.len() == all@.len(),
            order::sorts(name_keys(views), p@),
            specs == arranged(views, p@),
            takes_all(start, views),
            base == start.len(),
            base + p@.len() <= u32::MAX,
            defs == Seq::new(p@.len(), |i: int| def_of(specs[i])),
            fields::builder_fields(*builder) == start + defs.take(n as int),
            compiled(specs, base, n as int, out),
            forall|i: int, j: int|
                0 <= i < j < specs.len() ==> (#[trigger] specs[i]).schema_name@ != (
                #[trigger] specs[j]).schema_name@,
            forall|i: int, j: int|
                0 <= i < j < specs.len() && alias_of(#[trigger] specs[i]) is Some ==> alias_of(
                    specs[i],
                ) != alias_of(#[trigger] specs[j]),
        decreases p@.len() - n,
    {
        let at: usize = p[n];
        let spec = &all[at].spec;
        let ghost before = out;
        proof {
            assert(*spec == views[at as int].1);
            assert(*spec == specs[n as int]);
            assert forall|i: int| 0 <= i < (start + defs.take(n as int)).len() implies (
            #[trigger] (start + defs.take(n as int))[i]).name != spec.schema_name@ by {
                if i >= start.len() {
                    assert((start + defs.take(n as int))[i] == def_of(specs[i - start.len()]));
                    assert(specs[i - start.len()].schema_name@ != specs[n as int].schema_name@);
                } else {
                    assert((start + defs.take(n as int))[i] == start[i]);
                }
            }
        }
        let field: u32 = add_field(builder, spec);
        proof {
            assert((start + defs.take(n as int)).push(defs[n as int]) =~= start + defs.take(
                n + 1,
            ));
            assert(field == base + n);
        }
        note_field(&mut out, spec, field);
        proof {
            lemma_compiled_step(specs, base, n as int, before, out);
        }
        n = n + 1;
    }
    proof {
        assert(defs.take(defs.len() as int) =~= defs);
        assert(order::sorts(name_keys(views), p@));
    }
    Ok(out)
}

proof fn lemma_arranged_distinct(all: Seq<(Seq<char>, PluginFieldSpec)>, p: Seq<usize>)
    requires
        distinct(all, all.len() as int),
        order::sorts(name_keys(all), p),
    ensures
        forall|i: int, j: int|
            0 <= i < j < p.len() ==> (#[trigger] arranged(all, p)[i]).schema_name@ != (
            #[trigger] arranged(all, p)[j]).schema_name@,
        forall|i: int, j: int|
            0 <= i < j < p.len() && alias_of(#[trigger] arranged(all, p)[i]) is Some
                ==> alias_of(arranged(all, p)[i]) != alias_of(#[trigger] arranged(all, p)[j]),
{
    let specs = arranged(all, p);
    assert forall|i: int, j: int| 0 <= i < j < p.len() implies (
    #[trigger] specs[i]).schema_name@ != (#[trigger] specs[j]).schema_name@ && (alias_of(
        specs[i],
    ) is Some ==> alias_of(specs[i]) != alias_of(specs[j])) by {
        let a = p[i] as int;
        let b = p[j] as int;
        assert(order::precedes(name_keys(all), a, b));
        order::lemma_lex_irreflexive(name_keys(all)[a]);
        assert(a != b);
        let (lo, hi) = if a < b {
            (a, b)
        } else {
            (b, a)
        };
        assert(!name_taken(all, hi));
        assert(!alias_taken(all, hi));
        assert(all[lo].1.schema_name@ != all[hi].1.schema_name@);
        if alias_of(all[hi].1) is Some {
            assert(alias_of(all[lo].1) != alias_of(all[hi].1));
        }
    }
}

/// What one more field adds to the compiled schema.
proof fn lemma_compiled_step(
    specs: Seq<PluginFieldSpec>,
    base: nat,
    n: int,
    before: CompiledPluginSchema,
    after: CompiledPluginSchema,
)
    requires
        0 <= n < specs.len(),
        base + specs.len() <= u32::MAX,
        compiled(specs, base, n, before),
        after.wf(),
        forall|i: int, j: int|
            0 <= i < j < specs.len() ==> (#[trigger] specs[i]).schema_name@ != (
            #[trigger] specs[j]).schema_name@,
        forall|i: int, j: int|
            0 <= i < j < specs.len() && alias_of(#[trigger] specs[i]) is Some ==> alias_of(
                specs[i],
            ) != alias_of(#[trigger] specs[j]),
        name_map::value_of(after.extras@, specs[n].schema_name@) == Some(
            CompiledField { field: (base + n) as u32, spec: specs[n] },
        ),
        forall|other: Seq<char>|
            other != specs[n].schema_name@ ==> #[trigger] name_map::value_of(after.extras@, other)
                == name_map::value_of(before.extras@, other),
        match alias_of(specs[n]) {
            Some(a) => {
                &&& name_map::value_of(after.query_aliases@, a) == Some(specs[n].schema_name)
                &&& forall|other: Seq<char>|
                    other != a ==> #[trigger] name_map::value_of(after.query_aliases@, other)
                        == name_map::value_of(before.query_aliases@, other)
            },
            None => after.query_aliases@ == before.query_aliases@,
        },
        after.default_query_fields@ == if specs[n].default_search {
            before.default_query_fields@.push(((base + n) as u32, specs[n].boost))
        } else {
            before.default_query_fields@
        },
    ensures
        compiled(specs, base, n + 1, after),
{
    assert forall|i: int| 0 <= i < n + 1 implies name_map::value_of(
        after.extras@,
        (#[trigger] specs[i]).schema_name@,
    ) == Some(CompiledField { field: (base + i) as u32, spec: specs[i] }) by {
        if i < n {
            assert(specs[i].schema_name@ != specs[n].schema_name@);
        }
    }
    assert forall|name: Seq<char>| #[trigger]
        name_map::value_of(after.extras@, name) is Some <==> declares(specs, n + 1, name) by {
        if name == specs[n].schema_name@ {
            assert(declares(specs, n + 1, name));
        } else {
            assert(name_map::value_of(before.extras@, name) is Some <==> declares(
                specs,
                n,
                name,
            ));
            if declares(specs, n + 1, name) {
                let i = choose|i: int|
                    0 <= i < n + 1 && (#[trigger] specs[i]).schema_name@ == name;
                assert(i < n);
            }
        }
    }
    assert forall|i: int| 0 <= i < n + 1 && alias_of(#[trigger] specs[i]) is Some implies
        name_map::value_of(after.query_aliases@, alias_of(specs[i])->0) == Some(
        specs[i].schema_name,
    ) by {
        if i < n {
            assert(alias_of(specs[i]) != alias_of(specs[n]));
        }
    }
    assert forall|alias: Seq<char>| #[trigger]
        name_map::value_of(after.query_aliases@, alias) is Some <==> declares_alias(
            specs,
            n + 1,
            alias,
        ) by {
        assert(name_map::value_of(before.query_aliases@, alias) is Some <==> declares_alias(
            specs,
            n,
            alias,
        ));
        if alias_of(specs[n]) == Some(alias) {
            assert(declares_alias(specs, n + 1, alias));
        } else {
            if declares_alias(specs, n + 1, alias) {
                let i = choose|i: int|
                    0 <= i < n + 1 && alias_of(#[trigger] specs[i]) == Some(alias);
                assert(i < n);
            }
        }
    }
}

/// Law: a plugin's field is in the schema under its name and with its type:
/// texts are searched by the analyzer that they ask for, keywords as a whole,
/// numbers can be looked up and sorted by, and a field is kept exactly where
/// it asks for it.
pub proof fn law_a_plugin_field_is_what_it_declares(spec: PluginFieldSpec)
    ensures
        def_of(spec).name == spec.schema_name@,
        def_of(spec).stored == spec.stored,
        spec.ty matches PluginFieldType::Text { tokenizer } ==> def_of(spec).kind == FieldKind::Str
            && def_of(spec).positions && def_of(spec).tokenizer == Some(
            match tokenizer {
                TextTokenizer::Default => "default"@,
                TextTokenizer::Raw => "raw"@,
                TextTokenizer::Spotlight => "spotlight"@,
            },
        ),
        spec.ty is Keyword ==> def_of(spec).kind == FieldKind::Str && def_of(spec).tokenizer
            == Some("raw"@) && !def_of(spec).positions,
        spec.ty is I64 ==> def_of(spec).kind == FieldKind::I64 && def_of(spec).indexed && def_of(
            spec,
        ).fast,
        spec.ty is U64 ==> def_of(spec).kind == FieldKind::U64 && def_of(spec).indexed && def_of(
            spec,
        ).fast,
        spec.ty is Bool ==> def_of(spec).kind == FieldKind::Bool && !def_of(spec).indexed
            && !def_of(spec).fast,
{
}

proof fn lemma_defaults(specs: Seq<PluginFieldSpec>, base: nat, n: nat, i: int)
    requires
        0 <= i < n <= specs.len(),
        specs[i].default_search,
    ensures
        defaults_of(specs, base, n).contains(((base + i) as u32, specs[i].boost)),
    decreases n,
{
    let before = defaults_of(specs, base, (n - 1) as nat);
    let all = defaults_of(specs, base, n);
    let want = ((base + i) as u32, specs[i].boost);
    if i == n - 1 {
        assert(all[before.len() as int] == want);
    } else {
        lemma_defaults(specs, base, (n - 1) as nat, i);
        let k = choose|k: int| 0 <= k < before.len() && before[k] == want;
        assert(all[k] == want);
    }
}

proof fn lemma_defaults_from(specs: Seq<PluginFieldSpec>, base: nat, n: nat, k: int)
    requires
        n <= specs.len(),
        0 <= k < defaults_of(specs, base, n).len(),
    ensures
        exists|i: int|
            0 <= i < n && (#[trigger] specs[i]).default_search && defaults_of(specs, base, n)[k] == (
                (base + i) as u32,
                specs[i].boost,
            ),
    decreases n,
{
    if n > 0 {
        let before = defaults_of(specs, base, (n - 1) as nat);
        if k < before.len() {
            lemma_defaults_from(specs, base, (n - 1) as nat, k);
        } else {
            assert(specs[n - 1].default_search);
        }
    }
}

/// Whether one of the fields asks to be searched with this weight.
pub open spec fn asks_to_be_searched(
    all: Seq<(Seq<char>, PluginFieldSpec)>,
    boost: String,
) -> bool {
    exists|j: int|
        0 <= j < all.len() && (#[trigger] all[j]).1.default_search && all[j].1.boost == boost
}

/// Law: every field that a plugin declares can be written and searched. It is
/// found under its name with its own declaration; its alias leads to it; and
/// a query without a field name searches it, with its weight, exactly where
/// it asks for that. Each has a number of its own, behind those there were.
pub proof fn law_every_declared_field_is_known(
    all: Seq<(Seq<char>, PluginFieldSpec)>,
    p: Seq<usize>,
    base: nat,
    out: CompiledPluginSchema,
    i: int,
)
    requires
        order::sorts(name_keys(all), p),
        compiled(arranged(all, p), base, p.len() as int, out),
        base + all.len() <= u32::MAX,
        all.len() <= usize::MAX,
        0 <= i < all.len(),
    ensures
        name_map::value_of(out.extras@, all[i].1.schema_name@) matches Some(cf) && {
            &&& cf.spec == all[i].1
            &&& base <= cf.field < base + all.len()
            &&& all[i].1.default_search ==> out.default_query_fields@.contains(
                (cf.field, all[i].1.boost),
            )
        },
        all[i].1.query_alias matches Some(a) ==> (name_map::value_of(
            out.query_aliases@,
            a@,
        ) matches Some(target) && target@ == all[i].1.schema_name@),
        forall|k: int|
            0 <= k < out.default_query_fields@.len() ==> asks_to_be_searched(
                all,
                (#[trigger] out.default_query_fields@[k]).1,
            ),
{
    let specs = arranged(all, p);
    assert(p.contains(i as usize));
    let w = choose|w: int| 0 <= w < p.len() && p[w] == i as usize;
    assert(specs[w] == all[i].1);
    assert(name_map::value_of(out.extras@, specs[w].schema_name@) == Some(
        CompiledField { field: (base + w) as u32, spec: specs[w] },
    ));
    if all[i].1.default_search {
        lemma_defaults(specs, base, p.len(), w);
    }
    if all[i].1.query_alias is Some {
        assert(alias_of(specs[w]) is Some);
    }
    assert forall|k: int| 0 <= k < out.default_query_fields@.len() implies asks_to_be_searched(
        all,
        (#[trigger] out.default_query_fields@[k]).1,
    ) by {
        lemma_defaults_from(specs, base, p.len(), k);
        let x = choose|x: int|
            0 <= x < p.len() && (#[trigger] specs[x]).default_search && out.default_query_fields@[k]
                == ((base + x) as u32, specs[x].boost);
        assert(all[p[x] as int].1.default_search);
    }
}

/// Law: two fields with one name, or with one query alias, cannot both be
/// declared.
pub proof fn law_declarations_may_not_collide(
    all: Seq<(Seq<char>, PluginFieldSpec)>,
    i: int,
    j: int,
)
    requires
        0 <= i < j < all.len(),
        all[i].1.schema_name@ == all[j].1.schema_name@ || (all[i].1.query_alias matches Some(a)
            && (all[j].1.query_alias matches Some(b) && a@ == b@)),
    ensures
        !distinct(all, all.len() as int),
{
    if all[i].1.schema_name@ == all[j].1.schema_name@ {
        assert(name_taken(all, j));
    } else {
        assert(alias_of(all[i].1) == alias_of(all[j].1));
        assert(alias_taken(all, j));
    }
    if distinct(all, all.len() as int) {
        assert(!name_taken(all, j) && !alias_taken(all, j));
    }
}

/// Law: a field is declared by the plugin that lists it: the fields of a
/// kind stand together, in the order in which the plugin lists them.
pub proof fn law_fields_are_declared_by_their_plugin(
    by_kind: Seq<(Seq<char>, Vec<PluginFieldSpec>)>,
    k: int,
    i: int,
)
    requires
        0 <= k < by_kind.len(),
        0 <= i < by_kind[k].1@.len(),
    ensures
        flat(by_kind).contains((by_kind[k].0, by_kind[k].1@[i])),
    decreases by_kind.len(),
{
    let lead = flat(by_kind.drop_last());
    let (kind, specs) = by_kind.last();
    let more = Seq::new(specs@.len(), |i: int| (kind, specs@[i]));
    let want = (by_kind[k].0, by_kind[k].1@[i]);
    if k == by_kind.len() - 1 {
        assert((lead + more)[lead.len() + i] == want);
    } else {
        law_fields_are_declared_by_their_plugin(by_kind.drop_last(), k, i);
        let j = choose|j: int| 0 <= j < lead.len() && lead[j] == want;
        assert((lead + more)[j] == want);
    }
}

/// Law: the message of a collision names what collides and both plugins.
pub proof fn law_collisions_are_named(e: SchemaError)
    ensures
        e matches SchemaError::FieldCollision { name, first, second } ==> e.message()
            == "Plugin schema field name collision: '"@ + name@ + "' declared by both '"@ + first@
            + "' and '"@ + second@ + "'"@,
        e matches SchemaError::AliasCollision { alias, first, second } ==> e.message()
            == "Plugin query alias collision: '"@ + alias@ + "' declared by both '"@ + first@
            + "' and '"@ + second@ + "'"@,
{
}

/// Law: only fields that a plugin declares are known, and only aliases that
/// one declares lead to a field.
pub proof fn law_only_declared_fields_are_known(
    all: Seq<(Seq<char>, PluginFieldSpec)>,
    p: Seq<usize>,
    base: nat,
    out: CompiledPluginSchema,
    name: Seq<char>,
)
    requires
        order::sorts(name_keys(all), p),
        compiled(arranged(all, p), base, p.len() as int, out),
    ensures
        name_map::value_of(out.extras@, name) is Some ==> exists|i: int|
            0 <= i < all.len() && (#[trigger] all[i]).1.schema_name@ == name,
        name_map::value_of(out.query_aliases@, name) is Some ==> exists|i: int|
            0 <= i < all.len() && ((#[trigger] all[i]).1.query_alias matches Some(a) && a@ == name),
{
    let specs = arranged(all, p);
    if name_map::value_of(out.extras@, name) is Some {
        assert(declares(specs, p.len() as int, name));
        let x = choose|x: int| 0 <= x < p.len() && (#[trigger] specs[x]).schema_name@ == name;
        assert(all[p[x] as int].1.schema_name@ == name);
    }
    if name_map::value_of(out.query_aliases@, name) is Some {
        assert(declares_alias(specs, p.len() as int, name));
        let x = choose|x: int| 0 <= x < p.len() && alias_of(#[trigger] specs[x]) == Some(name);
        assert(alias_of(all[p[x] as int].1) == Some(name));
    }
}

} // verus!
