//! What the index gives back of a document that was put into it.

use vstd::prelude::*;

use crate::documents;
use crate::documents::SearchHit;
use crate::fields;
use crate::fields::{FieldDef, ValueView};
use crate::index;
use crate::index::LixunIndex;
use crate::model;
use crate::model::{Category, Document, ExtraFieldValue};
use crate::name_map;
use crate::normalize;
use crate::order;
use crate::plugin_schema;
use crate::plugin_schema::{CompiledField, PluginFieldSpec};
use crate::scoring;
use crate::text;
use crate::tokenizer;

verus! {

/// The values that the index keeps: those of stored fields.
pub open spec fn kept(values: Seq<(u32, ValueView)>, defs: Seq<FieldDef>) -> Seq<(u32, ValueView)>
    decreases values.len(),
{
    if values.len() == 0 {
        Seq::empty()
    } else if defs[values.last().0 as int].stored {
        kept(values.drop_last(), defs).push(values.last())
    } else {
        kept(values.drop_last(), defs)
    }
}

/// The text, unless it is missing or empty.
pub open spec fn non_empty(o: Option<String>) -> Option<Seq<char>> {
    match o {
        Some(s) => if s@.len() == 0 {
            None
        } else {
            Some(s@)
        },
        None => None,
    }
}

/// The first value that a document gives to the plugin field `name`.
pub open spec fn first_extra(extra: Seq<ExtraFieldValue>, name: Seq<char>) -> Option<ValueView>
    decreases extra.len(),
{
    if extra.len() == 0 {
        None
    } else if extra[0].field@ == name {
        Some(documents::plugin_value_view(extra[0].value))
    } else {
        first_extra(extra.drop_first(), name)
    }
}

/// The plugin fields of a document that are stored, in the order of their
/// names, each with the first value that the document gives to it.
pub open spec fn stored_extras(
    extras: Seq<(Seq<char>, CompiledField)>,
    extra: Seq<ExtraFieldValue>,
) -> Seq<(Seq<char>, ValueView)>
    decreases extras.len(),
{
    if extras.len() == 0 {
        Seq::empty()
    } else {
        let before = stored_extras(extras.drop_last(), extra);
        if !extras.last().1.spec.stored {
            before
        } else {
            match first_extra(extra, extras.last().0) {
                Some(v) => before.push((extras.last().0, v)),
                None => before,
            }
        }
    }
}

proof fn lemma_first_concat(a: Seq<(u32, ValueView)>, b: Seq<(u32, ValueView)>, f: u32)
    ensures
        fields::first_value(a + b, f) == (if fields::first_value(a, f) is Some {
            fields::first_value(a, f)
        } else {
            fields::first_value(b, f)
        }),
    decreases a.len(),
{
    if a.len() == 0 {
        assert(a + b =~= b);
    } else {
        assert((a + b).drop_first() =~= a.drop_first() + b);
        lemma_first_concat(a.drop_first(), b, f);
    }
}

proof fn lemma_first_kept(values: Seq<(u32, ValueView)>, defs: Seq<FieldDef>, f: u32)
    requires
        defs[f as int].stored,
    ensures
        fields::first_value(kept(values, defs), f) == fields::first_value(values, f),
    decreases values.len(),
{
    if values.len() > 0 {
        let front = values.drop_last();
        let last = seq![values.last()];
        lemma_first_kept(front, defs, f);
        assert(values =~= front + last);
        lemma_first_concat(front, last, f);
        assert(last.drop_first() =~= Seq::<(u32, ValueView)>::empty());
        if defs[values.last().0 as int].stored {
            assert(kept(values, defs) =~= kept(front, defs) + last);
            lemma_first_concat(kept(front, defs), last, f);
        } else {
            assert(values.last().0 != f);
            assert(fields::first_value(last.drop_first(), f) is None);
            assert(fields::first_value(last, f) is None);
        }
    }
}

proof fn lemma_first_at(values: Seq<(u32, ValueView)>, k: int, f: u32)
    requires
        0 <= k < values.len(),
        values[k].0 == f,
        forall|j: int| 0 <= j < k ==> (#[trigger] values[j]).0 != f,
    ensures
        fields::first_value(values, f) == Some(values[k].1),
    decreases k,
{
    if k > 0 {
        assert(values[0].0 != f);
        let rest = values.drop_first();
        assert forall|j: int| 0 <= j < k - 1 implies (#[trigger] rest[j]).0 != f by {
            assert(rest[j] == values[j + 1]);
        }
        assert(rest[k - 1] == values[k]);
        lemma_first_at(rest, k - 1, f);
    }
}

proof fn lemma_first_none(values: Seq<(u32, ValueView)>, f: u32)
    requires
        forall|j: int| 0 <= j < values.len() ==> (#[trigger] values[j]).0 != f,
    ensures
        fields::first_value(values, f) is None,
    decreases values.len(),
{
    if values.len() > 0 {
        assert(values[0].0 != f);
        let rest = values.drop_first();
        assert forall|j: int| 0 <= j < rest.len() implies (#[trigger] rest[j]).0 != f by {
            assert(rest[j] == values[j + 1]);
        }
        lemma_first_none(rest, f);
    }
}

/// What the built-in fields give back.
proof fn lemma_base_value(
    extras: Seq<(Seq<char>, CompiledField)>,
    doc: Document,
    action: Seq<char>,
    secondary: Seq<char>,
    defs: Seq<FieldDef>,
    f: u32,
)
    requires
        f < 19,
        index::base_fields().is_prefix_of(defs),
        defs[f as int].stored,
    ensures
        fields::first_value(
            kept(documents::indexed_values(extras, doc, action, secondary), defs),
            f,
        ) == Some(documents::base_values(doc, action, secondary)[f as int].1),
{
    let base = documents::base_values(doc, action, secondary);
    let values = documents::indexed_values(extras, doc, action, secondary);
    lemma_first_kept(values, defs, f);
    assert(values[f as int] == base[f as int]);
    assert(base[f as int].0 == f);
    assert forall|j: int| 0 <= j < f implies (#[trigger] values[j]).0 != f by {
        assert(values[j] == base[j]);
        assert(base[j].0 == j);
    }
    lemma_first_at(values, f as int, f);
}

proof fn lemma_extra_value(
    extras: Seq<(Seq<char>, CompiledField)>,
    extra: Seq<ExtraFieldValue>,
    name: Seq<char>,
    f: u32,
)
    requires
        forall|k: int|
            0 <= k < extra.len() ==> ((name_map::value_of(
                extras,
                (#[trigger] extra[k]).field@,
            )->0).field == f <==> extra[k].field@ == name),
    ensures
        fields::first_value(documents::extra_values(extras, extra), f) == first_extra(extra, name),
    decreases extra.len(),
{
    if extra.len() > 0 {
        let rest = extra.drop_first();
        assert(documents::extra_values(extras, extra).drop_first() =~= documents::extra_values(
            extras,
            rest,
        ));
        assert forall|k: int| 0 <= k < rest.len() implies ((name_map::value_of(
            extras,
            (#[trigger] rest[k]).field@,
        )->0).field == f <==> rest[k].field@ == name) by {
            assert(rest[k] == extra[k + 1]);
        }
        lemma_extra_value(extras, rest, name, f);
        assert(extra[0].field@ == extra[0].field@);
    }
}

/// Plugin fields have numbers of their own, behind the built-in ones.
proof fn lemma_numbers(
    specs: Seq<PluginFieldSpec>,
    plugins: plugin_schema::CompiledPluginSchema,
    a: Seq<char>,
    b: Seq<char>,
)
    requires
        plugin_schema::compiled(specs, 19, specs.len() as int, plugins),
        19 + specs.len() <= u32::MAX,
        name_map::value_of(plugins.extras@, a) is Some,
        name_map::value_of(plugins.extras@, b) is Some,
    ensures
        19 <= (name_map::value_of(plugins.extras@, a)->0).field < 19 + specs.len(),
        specs[(name_map::value_of(plugins.extras@, a)->0).field - 19] == (name_map::value_of(
            plugins.extras@,
            a,
        )->0).spec,
        (name_map::value_of(plugins.extras@, a)->0).field == (name_map::value_of(
            plugins.extras@,
            b,
        )->0).field ==> a == b,
{
    assert(plugin_schema::declares(specs, specs.len() as int, a));
    assert(plugin_schema::declares(specs, specs.len() as int, b));
    let i = choose|i: int| 0 <= i < specs.len() && (#[trigger] specs[i]).schema_name@ == a;
    let j = choose|j: int| 0 <= j < specs.len() && (#[trigger] specs[j]).schema_name@ == b;
    assert(name_map::value_of(plugins.extras@, specs[i].schema_name@) == Some(
        CompiledField { field: (19 + i) as u32, spec: specs[i] },
    ));
    assert(name_map::value_of(plugins.extras@, specs[j].schema_name@) == Some(
        CompiledField { field: (19 + j) as u32, spec: specs[j] },
    ));
}

proof fn lemma_extras(
    index: LixunIndex,
    specs: Seq<PluginFieldSpec>,
    defs: Seq<FieldDef>,
    doc: Document,
    action: Seq<char>,
    secondary: Seq<char>,
    n: nat,
)
    requires
        index.wf(),
        plugin_schema::compiled(specs, 19, specs.len() as int, index.plugins),
        19 + specs.len() <= u32::MAX,
        defs == index::base_fields() + Seq::new(
            specs.len(),
            |i: int| plugin_schema::def_of(specs[i]),
        ),
        index::base_fields().len() == 19,
        forall|i: int|
            0 <= i < doc.extra@.len() ==> documents::extra_ok(
                index.plugins.extras@,
                #[trigger] doc.extra@[i],
            ),
        n <= index.plugins.extras@.len(),
    ensures
        documents::extras_of(
            index.plugins.extras@.take(n as int),
            kept(
                documents::indexed_values(index.plugins.extras@, doc, action, secondary),
                defs,
            ),
        ) == stored_extras(index.plugins.extras@.take(n as int), doc.extra@),
    decreases n,
{
    let extras = index.plugins.extras@;
    let values = documents::indexed_values(extras, doc, action, secondary);
    let back = kept(values, defs);
    if n > 0 {
        lemma_extras(index, specs, defs, doc, action, secondary, (n - 1) as nat);
        let now = extras.take(n as int);
        assert(now.drop_last() =~= extras.take(n - 1));
        let (name, cf) = extras[n - 1];
        assert(now.last() == (name, cf));
        index.plugins.extras.lemma_wf();
        name_map::lemma_value_at(extras, n - 1);
        lemma_numbers(specs, index.plugins, name, name);
        if cf.spec.stored {
            let f = cf.field;
            assert(defs[f as int] == plugin_schema::def_of(specs[f - 19]));
            assert(defs[f as int].stored);
            lemma_first_kept(values, defs, f);
            let base = documents::base_values(doc, action, secondary);
            let more = documents::extra_values(extras, doc.extra@);
            assert forall|j: int| 0 <= j < base.len() implies (#[trigger] base[j]).0 != f by {
                assert(base[j].0 == j);
            }
            lemma_first_none(base, f);
            lemma_first_concat(base, more, f);
            assert forall|k: int| 0 <= k < doc.extra@.len() implies ((name_map::value_of(
                extras,
                (#[trigger] doc.extra@[k]).field@,
            )->0).field == f <==> doc.extra@[k].field@ == name) by {
                assert(documents::extra_ok(extras, doc.extra@[k]));
                lemma_numbers(specs, index.plugins, doc.extra@[k].field@, name);
            }
            lemma_extra_value(extras, doc.extra@, name, f);
            lemma_first_extra_fits(extras, doc.extra@, name);
        }
    } else {
        assert(extras.take(0) =~= Seq::<(Seq<char>, CompiledField)>::empty());
    }
}

proof fn lemma_first_extra_fits(
    extras: Seq<(Seq<char>, CompiledField)>,
    extra: Seq<ExtraFieldValue>,
    name: Seq<char>,
)
    requires
        forall|i: int| 0 <= i < extra.len() ==> documents::extra_ok(extras, #[trigger] extra[i]),
    ensures
        first_extra(extra, name) matches Some(v) ==> name_map::value_of(extras, name) is Some
            && documents::view_fits((name_map::value_of(extras, name)->0).spec.ty, v),
    decreases extra.len(),
{
    if extra.len() > 0 {
        assert(documents::extra_ok(extras, extra[0]));
        let rest = extra.drop_first();
        assert forall|i: int| 0 <= i < rest.len() implies documents::extra_ok(
            extras,
            #[trigger] rest[i],
        ) by {
            assert(rest[i] == extra[i + 1]);
        }
        lemma_first_extra_fits(extras, rest, name);
    }
}

/// Law: a read gives back what a write wrote.
///
/// Every built-in field of a document comes back as it was put in; a
/// missing text and an empty one both come back as missing. Of the plugin
/// fields exactly the stored ones come back.
pub proof fn law_a_read_gives_back_what_was_written(
    index: LixunIndex,
    all: Seq<(Seq<char>, PluginFieldSpec)>,
    doc: Document,
    action: Seq<char>,
    secondary: Seq<char>,
)
    requires
        index.wf(),
        index::layout_of(all, index.schema, index.plugins),
        19 + all.len() <= u32::MAX,
        forall|i: int|
            0 <= i < doc.extra@.len() ==> documents::extra_ok(
                index.plugins.extras@,
                #[trigger] doc.extra@[i],
            ),
    ensures
        ({
            let back = documents::stored_of_values(
                index.plugins.extras@,
                kept(
                    documents::indexed_values(index.plugins.extras@, doc, action, secondary),
                    fields::schema_fields(index.schema.schema),
                ),
            );
            &&& back.id == doc.id.0@
            &&& back.category == doc.category
            &&& back.title == doc.title@
            &&& back.subtitle == doc.subtitle@
            &&& back.icon_name == non_empty(doc.icon_name)
            &&& back.kind_label == non_empty(doc.kind_label)
            &&& back.body == non_empty(doc.body)
            &&& back.path == doc.path@
            &&& back.mtime == doc.mtime
            &&& back.size == doc.size
            &&& back.action == action
            &&& back.secondary_action == (if secondary.len() == 0 {
                None
            } else {
                Some(secondary)
            })
            &&& back.extract_fail == doc.extract_fail
            &&& back.sender == non_empty(doc.sender)
            &&& back.recipients == non_empty(doc.recipients)
            &&& back.source_instance == doc.source_instance@
            &&& back.extra == stored_extras(index.plugins.extras@, doc.extra@)
        }),
{
    let extras = index.plugins.extras@;
    let defs = fields::schema_fields(index.schema.schema);
    let base = index::base_fields();
    assert(base.len() == 19);
    assert forall|f: u32| f < 19 implies #[trigger] defs[f as int] == base[f as int] by {
        assert(base[f as int] == defs.subrange(0, 19)[f as int]);
    }
    assert(forall|f: u32|
        f < 19 && f != 3 && f != 4 && f != 5 ==> #[trigger] base[f as int].stored);
    lemma_base_value(extras, doc, action, secondary, defs, 0);
    lemma_base_value(extras, doc, action, secondary, defs, 1);
    lemma_base_value(extras, doc, action, secondary, defs, 2);
    lemma_base_value(extras, doc, action, secondary, defs, 6);
    lemma_base_value(extras, doc, action, secondary, defs, 7);
    lemma_base_value(extras, doc, action, secondary, defs, 8);
    lemma_base_value(extras, doc, action, secondary, defs, 9);
    lemma_base_value(extras, doc, action, secondary, defs, 10);
    lemma_base_value(extras, doc, action, secondary, defs, 11);
    lemma_base_value(extras, doc, action, secondary, defs, 12);
    lemma_base_value(extras, doc, action, secondary, defs, 13);
    lemma_base_value(extras, doc, action, secondary, defs, 14);
    lemma_base_value(extras, doc, action, secondary, defs, 15);
    lemma_base_value(extras, doc, action, secondary, defs, 16);
    lemma_base_value(extras, doc, action, secondary, defs, 17);
    lemma_base_value(extras, doc, action, secondary, defs, 18);
    model::law_category_round_trip(doc.category);
    let p = choose|p: Seq<usize>| #[trigger]
        order::sorts(plugin_schema::name_keys(all), p) && plugin_schema::compiled(
            plugin_schema::arranged(all, p),
            base.len(),
            p.len() as int,
            index.plugins,
        ) && defs == base + Seq::new(
            p.len(),
            |i: int| plugin_schema::def_of(plugin_schema::arranged(all, p)[i]),
        );
    let specs = plugin_schema::arranged(all, p);
    assert(p.len() == all.len());
    assert(defs =~= base + Seq::new(specs.len(), |i: int| plugin_schema::def_of(specs[i])));
    lemma_extras(index, specs, defs, doc, action, secondary, extras.len());
    assert(extras.take(extras.len() as int) =~= extras);
}

/// Law: a search result shows and opens what was put into the index.
///
/// Whatever the query, the hit of a document has its id, title, subtitle,
/// actions, sender, recipients and body; a missing text and an empty one
/// both come back as missing. It has the document's category, but for
/// those that only sources outside the index produce, which count as files.
/// It leads the ranking by its title where the query leads the normal form
/// of the title, by its initials where it leads that of the initials, and
/// files and mails age from their time on.
pub proof fn law_a_hit_shows_what_was_written(
    index: LixunIndex,
    all: Seq<(Seq<char>, PluginFieldSpec)>,
    doc: Document,
    action: Seq<char>,
    secondary: Seq<char>,
    q_norm: Seq<char>,
    now_secs: i64,
    hit: SearchHit,
)
    requires
        index.wf(),
        index::layout_of(all, index.schema, index.plugins),
        documents::hit_of(
            kept(
                documents::indexed_values(index.plugins.extras@, doc, action, secondary),
                fields::schema_fields(index.schema.schema),
            ),
            q_norm,
            now_secs,
            hit,
        ),
    ensures
        hit.id@ == doc.id.0@,
        hit.title@ == doc.title@,
        hit.subtitle@ == doc.subtitle@,
        model::opt_view(hit.icon_name) == non_empty(doc.icon_name),
        model::opt_view(hit.kind_label) == non_empty(doc.kind_label),
        hit.action@ == action,
        model::opt_view(hit.secondary_action) == (if secondary.len() == 0 {
            None
        } else {
            Some(secondary)
        }),
        hit.extract_fail == doc.extract_fail,
        model::opt_view(hit.sender) == non_empty(doc.sender),
        model::opt_view(hit.recipients) == non_empty(doc.recipients),
        model::opt_view(hit.body) == non_empty(doc.body),
        doc.category == Category::App ==> hit.category == Category::App,
        doc.category == Category::File ==> hit.category == Category::File,
        doc.category == Category::Mail ==> hit.category == Category::Mail,
        doc.category == Category::Attachment ==> hit.category == Category::Attachment,
        doc.category == Category::Calculator ==> hit.category == Category::File,
        doc.category == Category::Shell ==> hit.category == Category::File,
        hit.prefix_match <==> q_norm.len() > 0 && q_norm.is_prefix_of(
            normalize::normalized(doc.title@),
        ),
        hit.acronym_match <==> q_norm.len() > 0 && q_norm.is_prefix_of(
            normalize::normalized(scoring::initials_of(doc.title@)),
        ),
        hit.age_secs is None <==> doc.category == Category::App || doc.category
            == Category::Attachment,
        hit.age_secs matches Some(age) ==> (if doc.mtime < now_secs {
            age == now_secs - doc.mtime
        } else {
            age == 0
        }),
{
    let extras = index.plugins.extras@;
    let defs = fields::schema_fields(index.schema.schema);
    let base = index::base_fields();
    assert(base.len() == 19);
    assert forall|f: u32| f < 19 implies #[trigger] defs[f as int] == base[f as int] by {
        assert(base[f as int] == defs.subrange(0, 19)[f as int]);
    }
    assert(forall|f: u32|
        f < 19 && f != 3 && f != 4 && f != 5 ==> #[trigger] base[f as int].stored);
    lemma_base_value(extras, doc, action, secondary, defs, 0);
    lemma_base_value(extras, doc, action, secondary, defs, 1);
    lemma_base_value(extras, doc, action, secondary, defs, 2);
    lemma_base_value(extras, doc, action, secondary, defs, 6);
    lemma_base_value(extras, doc, action, secondary, defs, 7);
    lemma_base_value(extras, doc, action, secondary, defs, 8);
    lemma_base_value(extras, doc, action, secondary, defs, 9);
    lemma_base_value(extras, doc, action, secondary, defs, 11);
    lemma_base_value(extras, doc, action, secondary, defs, 13);
    lemma_base_value(extras, doc, action, secondary, defs, 14);
    lemma_base_value(extras, doc, action, secondary, defs, 15);
    lemma_base_value(extras, doc, action, secondary, defs, 16);
    lemma_base_value(extras, doc, action, secondary, defs, 17);
    reveal_strlit("app");
    reveal_strlit("file");
    reveal_strlit("mail");
    reveal_strlit("attachment");
    reveal_strlit("calculator");
    reveal_strlit("shell");
    assert("app"@.len() == 3 && "shell"@.len() == 5 && "mail"@.len() == 4 && "file"@.len() == 4);
    assert("mail"@[0] == 'm' && "file"@[0] == 'f');
    assert("attachment"@[1] == 't' && "calculator"@[1] == 'a');
    assert("attachment"@.len() == 10 && "calculator"@.len() == 10);
}

/// Law: what searches look a document up by. Its title is indexed as it is
/// and as its words, its initials and the beginnings of its words; its body,
/// path, sender and recipients are indexed as they are, and it is deleted by
/// its id and by its source.
pub proof fn law_a_document_is_found_by_its_texts(
    index: LixunIndex,
    doc: Document,
    action: Seq<char>,
    secondary: Seq<char>,
)
    requires
        index.wf(),
    ensures
        ({
            let values = documents::indexed_values(index.plugins.extras@, doc, action, secondary);
            let words = text::words(tokenizer::split_of(doc.title@));
            let s = index.schema;
            &&& fields::first_value(values, s.id) == Some(ValueView::Text(doc.id.0@))
            &&& fields::first_value(values, s.title) == Some(ValueView::Text(doc.title@))
            &&& fields::first_value(values, s.title_terms) == Some(
                ValueView::Text(tokenizer::split_of(doc.title@)),
            )
            &&& (fields::first_value(values, s.title_prefixes) matches Some(ValueView::Text(t))
                && forall|k: int, n: int|
                0 <= k < words.len() && 2 <= n <= 12 && n <= words[k].len() ==> text::words(
                    t,
                ).contains(#[trigger] words[k].take(n)))
            &&& (fields::first_value(values, s.title_initials) matches Some(ValueView::Text(t))
                && (scoring::initials_of(doc.title@).len() > 0 && (forall|k: int|
                0 <= k < words.len() ==> scoring::unbroken(
                    scoring::initials_of(#[trigger] words[k]),
                )) && scoring::unbroken(scoring::initials_of(doc.title@)) ==> text::words(
                t,
            ).contains(scoring::initials_of(doc.title@))))
            &&& fields::first_value(values, s.path) == Some(ValueView::Text(doc.path@))
            &&& fields::first_value(values, s.source_instance) == Some(
                ValueView::Text(doc.source_instance@),
            )
            &&& fields::first_value(values, s.mtime) == Some(ValueView::I64(doc.mtime))
            &&& fields::first_value(values, s.size) == Some(ValueView::U64(doc.size))
            &&& doc.body matches Some(t) ==> fields::first_value(values, s.body) == Some(
                ValueView::Text(t@),
            )
            &&& doc.sender matches Some(t) ==> fields::first_value(values, s.sender) == Some(
                ValueView::Text(t@),
            )
            &&& doc.recipients matches Some(t) ==> fields::first_value(values, s.recipients)
                == Some(ValueView::Text(t@))
        }),
{
    let extras = index.plugins.extras@;
    let base = documents::base_values(doc, action, secondary);
    let values = documents::indexed_values(extras, doc, action, secondary);
    let split = tokenizer::split_of(doc.title@);
    assert forall|f: u32| f < 19 implies #[trigger] fields::first_value(values, f) == Some(
        base[f as int].1,
    ) by {
        assert(values[f as int] == base[f as int]);
        assert(base[f as int].0 == f);
        assert forall|j: int| 0 <= j < f implies (#[trigger] values[j]).0 != f by {
            assert(values[j] == base[j]);
            assert(base[j].0 == j);
        }
        lemma_first_at(values, f as int, f);
    }
    let words = text::words(split);
    assert forall|k: int, n: int|
        0 <= k < words.len() && 2 <= n <= 12 && n <= words[k].len() implies text::words(
        scoring::prefix_tokens(split),
    ).contains(#[trigger] words[k].take(n)) by {
        scoring::law_a_word_is_found_by_its_beginnings(split, k, n);
    }
    if (forall|k: int|
        0 <= k < words.len() ==> scoring::unbroken(scoring::initials_of(#[trigger] words[k])))
        && scoring::unbroken(scoring::initials_of(doc.title@)) {
        scoring::law_initials_tokens(split, doc.title@);
    }
}

} // verus!
