//! Which columns to open ahead of the first query after a commit.

use tantivy::schema::Schema;
use vstd::prelude::*;

use crate::fields;
use crate::fields::{FieldDef, FieldKind};

verus! {

/// The kind of column that a fast field has.
#[derive(Clone, Copy, Debug, PartialEq, Eq, Structural)]
pub enum FastFieldKind {
    U64,
    I64,
    F64,
    Bool,
    Date,
    Str,
    Bytes,
    IpAddr,
}

/// A fast field and its kind of column.
#[derive(Clone, Debug, PartialEq, Eq)]
pub struct FastFieldEntry {
    pub name: String,
    pub kind: FastFieldKind,
}

/// The columns to open on each new searcher generation.
#[derive(Clone, Debug, PartialEq, Eq)]
pub struct FastFieldWarmer {
    fields: Vec<FastFieldEntry>,
}

/// The column of a field; facets and JSON objects have none that is opened.
pub open spec fn column_of(kind: FieldKind) -> Option<FastFieldKind> {
    match kind {
        FieldKind::U64 => Some(FastFieldKind::U64),
        FieldKind::I64 => Some(FastFieldKind::I64),
        FieldKind::F64 => Some(FastFieldKind::F64),
        FieldKind::Bool => Some(FastFieldKind::Bool),
        FieldKind::Date => Some(FastFieldKind::Date),
        FieldKind::Str => Some(FastFieldKind::Str),
        FieldKind::Bytes => Some(FastFieldKind::Bytes),
        FieldKind::IpAddr => Some(FastFieldKind::IpAddr),
        FieldKind::JsonObject => None,
        FieldKind::Facet => None,
    }
}

/// The fast fields among the first `n`, each with its column.
pub open spec fn fast_of(defs: Seq<FieldDef>, n: nat) -> Seq<(Seq<char>, FastFieldKind)>
    decreases n,
{
    if n == 0 {
        Seq::empty()
    } else {
        let before = fast_of(defs, (n - 1) as nat);
        let def = defs[n - 1];
        match column_of(def.kind) {
            Some(kind) => if def.fast {
                before.push((def.name, kind))
            } else {
                before
            },
            None => before,
        }
    }
}

fn column(kind: FieldKind) -> (r: Option<FastFieldKind>)
    ensures
        r == column_of(kind),
{
    match kind {
        FieldKind::U64 => Some(FastFieldKind::U64),
        FieldKind::I64 => Some(FastFieldKind::I64),
        FieldKind::F64 => Some(FastFieldKind::F64),
        FieldKind::Bool => Some(FastFieldKind::Bool),
        FieldKind::Date => Some(FastFieldKind::Date),
        FieldKind::Str => Some(FastFieldKind::Str),
        FieldKind::Bytes => Some(FastFieldKind::Bytes),
        FieldKind::IpAddr => Some(FastFieldKind::IpAddr),
        FieldKind::JsonObject => None,
        FieldKind::Facet => None,
    }
}

impl FastFieldWarmer {
    /// The fields to warm, each with its column.
    pub closed spec fn entries(&self) -> Seq<(Seq<char>, FastFieldKind)> {
        Seq::new(self.fields@.len(), |i: int| (self.fields@[i].name@, self.fields@[i].kind))
    }

    /// A warmer for every fast field of a schema.
    pub fn from_schema(schema: &Schema) -> (r: FastFieldWarmer)
        requires
            fields::schema_fields(*schema).len() <= u32::MAX,
        ensures
            r.entries() == fast_of(
                fields::schema_fields(*schema),
                fields::schema_fields(*schema).len(),
            ),
    {
        let ghost defs = fields::schema_fields(*schema);
        let count: usize = fields::field_count(schema);
        let mut r = FastFieldWarmer { fields: Vec::new() };
        let mut i: usize = 0;
        proof {
            assert(r.entries() =~= fast_of(defs, 0));
        }
        while i < count
            invariant
                i <= count,
                count == defs.len(),
                count <= u32::MAX,
                defs == fields::schema_fields(*schema),
                r.entries() == fast_of(defs, i as nat),
            decreases count - i,
        {
            let info = fields::field_info(schema, i as u32);
            let ghost before = r.entries();
            if info.fast {
                match column(info.kind) {
                    Some(kind) => {
                        r.fields.push(FastFieldEntry { name: info.name, kind });
                        proof {
                            assert(r.entries() =~= before.push((defs[i as int].name, kind)));
                        }
                    },
                    None => {},
                }
            }
            i = i + 1;
        }
        r
    }

    /// Number of fast fields the warmer will touch per segment.
    pub fn field_count(&self) -> (r: usize)
        ensures
            r == self.entries().len(),
    {
        self.fields.len()
    }

    /// The field to warm at `i`.
    pub fn entry(&self, i: usize) -> (r: &FastFieldEntry)
        requires
            i < self.entries().len(),
        ensures
            (r.name@, r.kind) == self.entries()[i as int],
    {
        &self.fields[i]
    }
}

proof fn lemma_fast_of(defs: Seq<FieldDef>, n: nat, k: int, kind: FastFieldKind)
    requires
        0 <= k < n <= defs.len(),
        defs[k].fast,
        column_of(defs[k].kind) == Some(kind),
    ensures
        fast_of(defs, n).contains((defs[k].name, kind)),
    decreases n,
{
    let lead = fast_of(defs, (n - 1) as nat);
    let all = fast_of(defs, n);
    if k == n - 1 {
        assert(all[lead.len() as int] == (defs[k].name, kind));
    } else {
        lemma_fast_of(defs, (n - 1) as nat, k, kind);
        let j = choose|j: int| 0 <= j < lead.len() && lead[j] == (defs[k].name, kind);
        assert(all[j] == (defs[k].name, kind));
    }
}

proof fn lemma_fast_from(defs: Seq<FieldDef>, n: nat, j: int)
    requires
        n <= defs.len(),
        0 <= j < fast_of(defs, n).len(),
    ensures
        exists|k: int|
            0 <= k < n && (#[trigger] defs[k]).fast && defs[k].name == fast_of(defs, n)[j].0,
    decreases n,
{
    if n > 0 {
        let lead = fast_of(defs, (n - 1) as nat);
        if j < lead.len() {
            lemma_fast_from(defs, (n - 1) as nat, j);
        } else {
            assert(defs[n - 1].fast);
        }
    }
}

/// Law: exactly the fast fields are warmed, each by the column that its
/// values are kept in.
pub proof fn law_every_fast_field_is_warmed(defs: Seq<FieldDef>, k: int)
    requires
        0 <= k < defs.len(),
        defs[k].fast,
    ensures
        defs[k].kind == FieldKind::U64 ==> fast_of(defs, defs.len()).contains(
            (defs[k].name, FastFieldKind::U64),
        ),
        defs[k].kind == FieldKind::I64 ==> fast_of(defs, defs.len()).contains(
            (defs[k].name, FastFieldKind::I64),
        ),
        defs[k].kind == FieldKind::F64 ==> fast_of(defs, defs.len()).contains(
            (defs[k].name, FastFieldKind::F64),
        ),
        defs[k].kind == FieldKind::Bool ==> fast_of(defs, defs.len()).contains(
            (defs[k].name, FastFieldKind::Bool),
        ),
        defs[k].kind == FieldKind::Date ==> fast_of(defs, defs.len()).contains(
            (defs[k].name, FastFieldKind::Date),
        ),
        defs[k].kind == FieldKind::Str ==> fast_of(defs, defs.len()).contains(
            (defs[k].name, FastFieldKind::Str),
        ),
        defs[k].kind == FieldKind::Bytes ==> fast_of(defs, defs.len()).contains(
            (defs[k].name, FastFieldKind::Bytes),
        ),
        defs[k].kind == FieldKind::IpAddr ==> fast_of(defs, defs.len()).contains(
            (defs[k].name, FastFieldKind::IpAddr),
        ),
        forall|j: int|
            0 <= j < fast_of(defs, defs.len()).len() ==> exists|i: int|
                0 <= i < defs.len() && (#[trigger] defs[i]).fast && defs[i].name == (
                #[trigger] fast_of(defs, defs.len())[j]).0,
{
    if let Some(kind) = column_of(defs[k].kind) {
        lemma_fast_of(defs, defs.len(), k, kind);
    }
    assert forall|j: int| 0 <= j < fast_of(defs, defs.len()).len() implies exists|i: int|
        0 <= i < defs.len() && (#[trigger] defs[i]).fast && defs[i].name == (#[trigger] fast_of(
            defs,
            defs.len(),
        )[j]).0 by {
        lemma_fast_from(defs, defs.len(), j);
    }
}

} // verus!
