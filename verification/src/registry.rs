//! The registered source instances, and which of them answers for what.

use vstd::prelude::*;

use crate::index_service;
use crate::name_map;
use crate::name_map::NameMap;
use crate::paths;
use crate::plugin_schema::PluginFieldSpec;
use crate::text;

verus! {

/// A registered source.
#[derive(Clone, Debug, PartialEq, Eq)]
pub struct SourceInstance {
    pub instance_id: String,
    pub kind: String,
    /// Where the instance keeps its state.
    pub state_dir: String,
}

/// The registered sources, in order of registration.
pub struct SourceRegistry {
    pub instances: Vec<SourceInstance>,
    /// The fields that each kind of source declares.
    pub plugin_fields_by_kind: NameMap<Vec<PluginFieldSpec>>,
}

/// Why a verb reaches no source.
#[derive(Clone, Debug, PartialEq, Eq)]
pub enum VerbError {
    EmptyPath,
    Unknown { verb: String },
}

impl VerbError {
    /// The message of the error.
    pub open spec fn message(self) -> Seq<char> {
        match self {
            VerbError::EmptyPath => "empty verb path"@,
            VerbError::Unknown { verb } => "unknown verb: "@ + verb@,
        }
    }

    /// The message of the error.
    pub fn to_text(&self) -> (r: String)
        ensures
            r@ == self.message(),
    {
        match self {
            VerbError::EmptyPath => "empty verb path".to_string(),
            VerbError::Unknown { verb } => {
                let mut s = "unknown verb: ".to_string();
                s.push_str(verb.as_str());
                s
            },
        }
    }
}

/// The first instance with this id is at `k`.
pub open spec fn first_with_id(instances: Seq<SourceInstance>, id: Seq<char>, k: int) -> bool {
    &&& 0 <= k < instances.len()
    &&& instances[k].instance_id@ == id
    &&& forall|j: int| 0 <= j < k ==> (#[trigger] instances[j]).instance_id@ != id
}

/// Whether a manifest declares the verb.
pub open spec fn declares(manifest: Option<Vec<String>>, verb: Seq<char>) -> bool {
    match manifest {
        Some(verbs) => index_service::lists(verbs@, verb),
        None => false,
    }
}

/// The items that are there, in order.
pub open spec fn present<T>(items: Seq<Option<T>>) -> Seq<T>
    decreases items.len(),
{
    if items.len() == 0 {
        Seq::empty()
    } else {
        match items.last() {
            Some(x) => present(items.drop_last()).push(x),
            None => present(items.drop_last()),
        }
    }
}

/// The items of all lists, one list behind the other.
pub open spec fn flattened<T>(lists: Seq<Option<Vec<T>>>) -> Seq<T>
    decreases lists.len(),
{
    if lists.len() == 0 {
        Seq::empty()
    } else {
        match lists.last() {
            Some(x) => flattened(lists.drop_last()) + x@,
            None => flattened(lists.drop_last()),
        }
    }
}

impl SourceRegistry {
    /// Whether the registry is in order.
    pub open spec fn wf(&self) -> bool {
        self.plugin_fields_by_kind.wf()
    }

    /// No sources.
    pub fn new() -> (r: SourceRegistry)
        ensures
            r.wf(),
            r.instances@.len() == 0,
            r.plugin_fields_by_kind@ == Seq::<(Seq<char>, Vec<PluginFieldSpec>)>::empty(),
    {
        SourceRegistry { instances: Vec::new(), plugin_fields_by_kind: NameMap::new() }
    }

    /// Registers a source. Of several sources of one kind the first that
    /// declares fields counts.
    pub fn register(
        &mut self,
        instance_id: String,
        state_dir_root: &str,
        kind: String,
        fields: Vec<PluginFieldSpec>,
    )
        requires
            old(self).wf(),
        ensures
            final(self).wf(),
            final(self).instances@.len() == old(self).instances@.len() + 1,
            final(self).instances@.drop_last() == old(self).instances@,
            final(self).instances@.last().instance_id@ == instance_id@,
            final(self).instances@.last().kind@ == kind@,
            final(self).instances@.last().state_dir@ == paths::join_of(
                paths::join_of(state_dir_root@, kind@),
                instance_id@,
            ),
            fields@.len() == 0 || name_map::has_name(old(self).plugin_fields_by_kind@, kind@)
                ==> final(self).plugin_fields_by_kind@ == old(self).plugin_fields_by_kind@,
            fields@.len() > 0 && !name_map::has_name(old(self).plugin_fields_by_kind@, kind@)
                ==> name_map::value_of(final(self).plugin_fields_by_kind@, kind@) == Some(fields),
            forall|other: Seq<char>|
                other != kind@ ==> #[trigger] name_map::value_of(
                    final(self).plugin_fields_by_kind@,
                    other,
                ) == name_map::value_of(old(self).plugin_fields_by_kind@, other),
    {
        let ghost before = self.instances@;
        if fields.len() > 0 {
            self.plugin_fields_by_kind.insert_if_absent(kind.clone(), fields);
        }
        let state_dir = paths::join(
            paths::join(state_dir_root, kind.as_str()).as_str(),
            instance_id.as_str(),
        );
        self.instances.push(SourceInstance { instance_id, kind, state_dir });
        proof {
            assert(self.instances@.drop_last() =~= before);
        }
    }

    /// The place of the instance whose row menu belongs to `instance_id`.
    pub fn row_menu_for(&self, instance_id: &str) -> (r: Option<usize>)
        ensures
            match r {
                Some(k) => first_with_id(self.instances@, instance_id@, k as int),
                None => forall|j: int|
                    0 <= j < self.instances@.len() ==> (
                    #[trigger] self.instances@[j]).instance_id@ != instance_id@,
            },
    {
        let mut k: usize = 0;
        while k < self.instances.len()
            invariant
                k <= self.instances@.len(),
                forall|j: int|
                    0 <= j < k ==> (#[trigger] self.instances@[j]).instance_id@ != instance_id@,
            decreases self.instances@.len() - k,
        {
            if text::text_eq(self.instances[k].instance_id.as_str(), instance_id) {
                return Some(k);
            }
            k = k + 1;
        }
        None
    }
}

/// The broadcasters that the sources contribute.
pub fn broadcasters<T>(contributed: Vec<Option<T>>) -> (r: Vec<T>)
    ensures
        r@ == present(contributed@),
{
    let ghost all = contributed@;
    let mut out: Vec<T> = Vec::new();
    for x in it: contributed.into_iter()
        invariant
            it.seq() == all,
            out@ == present(all.take(it.index() as int)),
    {
        proof {
            let i = it.index() as int;
            assert(all.take(i + 1).drop_last() =~= all.take(i));
            assert(all.take(i + 1).last() == x);
        }
        match x {
            Some(y) => {
                out.push(y);
            },
            None => {},
        }
    }
    proof {
        assert(all.take(all.len() as int) =~= all);
    }
    out
}

/// The first vector search handle that a source contributes.
pub fn ann_handle<T>(contributed: Vec<Option<T>>) -> (r: Option<T>)
    ensures
        match r {
            Some(x) => exists|k: int|
                0 <= k < contributed@.len() && contributed@[k] == Some(x) && forall|j: int|
                    0 <= j < k ==> #[trigger] contributed@[j] is None,
            None => forall|j: int|
                0 <= j < contributed@.len() ==> #[trigger] contributed@[j] is None,
        },
{
    let ghost all = contributed@;
    for x in it: contributed.into_iter()
        invariant
            it.seq() == all,
            all == contributed@,
            forall|j: int| 0 <= j < it.index() ==> #[trigger] all[j] is None,
    {
        match x {
            Some(y) => {
                proof {
                    assert(all[it.index() as int] == Some(y));
                }
                return Some(y);
            },
            None => {},
        }
    }
    None
}

/// The verbs of all sources, in order of registration.
pub fn cli_manifest<T>(manifests: Vec<Option<Vec<T>>>) -> (r: Vec<T>)
    ensures
        r@ == flattened(manifests@),
{
    let ghost all = manifests@;
    let mut out: Vec<T> = Vec::new();
    for x in it: manifests.into_iter()
        invariant
            it.seq() == all,
            out@ == flattened(all.take(it.index() as int)),
    {
        proof {
            let i = it.index() as int;
            assert(all.take(i + 1).drop_last() =~= all.take(i));
            assert(all.take(i + 1).last() == x);
        }
        match x {
            Some(y) => {
                let mut verbs = y;
                out.append(&mut verbs);
            },
            None => {},
        }
    }
    proof {
        assert(all.take(all.len() as int) =~= all);
    }
    out
}

/// The place of the source that a verb goes to: the first whose manifest
/// declares the leading name. `manifests` holds the names that each source
/// declares.
pub fn cli_invoke(verb_path: &Vec<String>, manifests: &Vec<Option<Vec<String>>>) -> (r: Result<
    usize,
    VerbError,
>)
    ensures
        match r {
            Ok(k) => {
                &&& verb_path@.len() > 0
                &&& k < manifests@.len()
                &&& declares(manifests@[k as int], verb_path@[0]@)
                &&& forall|j: int|
                    0 <= j < k ==> !declares(#[trigger] manifests@[j], verb_path@[0]@)
            },
            Err(VerbError::EmptyPath) => verb_path@.len() == 0,
            Err(VerbError::Unknown { verb }) => {
                &&& verb_path@.len() > 0
                &&& verb@ == verb_path@[0]@
                &&& forall|j: int|
                    0 <= j < manifests@.len() ==> !declares(
                        #[trigger] manifests@[j],
                        verb_path@[0]@,
                    )
            },
        },
{
    if verb_path.len() == 0 {
        return Err(VerbError::EmptyPath);
    }
    let mut k: usize = 0;
    while k < manifests.len()
        invariant
            k <= manifests@.len(),
            verb_path@.len() > 0,
            forall|j: int| 0 <= j < k ==> !declares(#[trigger] manifests@[j], verb_path@[0]@),
        decreases manifests@.len() - k,
    {
        match &manifests[k] {
            Some(verbs) => {
                let mut i: usize = 0;
                while i < verbs.len()
                    invariant
                        i <= verbs@.len(),
                        k < manifests@.len(),
                        manifests@[k as int] == Some(*verbs),
                        verb_path@.len() > 0,
                        forall|j: int|
                            0 <= j < k ==> !declares(#[trigger] manifests@[j], verb_path@[0]@),
                        forall|j: int|
                            0 <= j < i ==> (#[trigger] verbs@[j])@ != verb_path@[0]@,
                    decreases verbs@.len() - i,
                {
                    if text::text_eq(verbs[i].as_str(), verb_path[0].as_str()) {
                        proof {
                            assert(verbs@[i as int]@ == verb_path@[0]@);
                            assert(index_service::lists(verbs@, verb_path@[0]@));
                        }
                        return Ok(k);
                    }
                    i = i + 1;
                }
            },
            None => {},
        }
        k = k + 1;
    }
    Err(VerbError::Unknown { verb: verb_path[0].clone() })
}

proof fn lemma_present<T>(items: Seq<Option<T>>, k: int, x: T)
    requires
        0 <= k < items.len(),
        items[k] == Some(x),
    ensures
        present(items).contains(x),
    decreases items.len(),
{
    let lead = present(items.drop_last());
    let all = present(items);
    if k == items.len() - 1 {
        assert(all[lead.len() as int] == x);
    } else {
        lemma_present(items.drop_last(), k, x);
        let j = choose|j: int| 0 <= j < lead.len() && lead[j] == x;
        assert(all[j] == x);
    }
}

proof fn lemma_present_count<T>(items: Seq<Option<T>>)
    ensures
        present(items).len() <= items.len(),
        (forall|k: int| 0 <= k < items.len() ==> #[trigger] items[k] is Some) ==> present(
            items,
        ).len() == items.len(),
        (forall|k: int| 0 <= k < items.len() ==> #[trigger] items[k] is None) ==> present(
            items,
        ).len() == 0,
    decreases items.len(),
{
    if items.len() > 0 {
        lemma_present_count(items.drop_last());
        let front = items.drop_last();
        assert(forall|k: int| 0 <= k < front.len() ==> #[trigger] front[k] == items[k]);
        assert(items[items.len() - 1] == items.last());
    }
}

/// Law: what a source contributes is gathered, whatever the others do, and
/// nothing is made up.
pub proof fn law_every_contribution_is_gathered<T>(items: Seq<Option<T>>, k: int)
    requires
        0 <= k < items.len(),
    ensures
        items[k] matches Some(x) ==> present(items).contains(x),
        present(items).len() <= items.len(),
        (forall|j: int| 0 <= j < items.len() ==> #[trigger] items[j] is Some) ==> present(
            items,
        ).len() == items.len(),
{
    lemma_present_count(items);
    if let Some(x) = items[k] {
        lemma_present(items, k, x);
    }
}

/// Law: the verbs of a source stand together and in their order among those
/// of all sources: those of the sources before it come ahead of them and
/// those of the sources behind it after them.
pub proof fn law_verbs_are_listed_in_order<T>(
    before: Seq<Option<Vec<T>>>,
    verbs: Vec<T>,
    behind: Seq<Option<Vec<T>>>,
)
    ensures
        flattened(before.push(Some(verbs)) + behind) == flattened(before) + verbs@ + flattened(
            behind,
        ),
    decreases behind.len(),
{
    let all = before.push(Some(verbs)) + behind;
    if behind.len() == 0 {
        assert(all =~= before.push(Some(verbs)));
        assert(all.drop_last() =~= before);
        assert(flattened(before) + verbs@ + flattened(behind) =~= flattened(before) + verbs@);
    } else {
        law_verbs_are_listed_in_order(before, verbs, behind.drop_last());
        assert(all.drop_last() =~= before.push(Some(verbs)) + behind.drop_last());
        assert(all.last() == behind.last());
        if let Some(x) = behind.last() {
            assert((flattened(before) + verbs@ + flattened(behind.drop_last())) + x@ =~= flattened(
                before,
            ) + verbs@ + (flattened(behind.drop_last()) + x@));
        }
    }
}

/// Law: a source declares the verbs that it lists and no others, and one
/// without a list declares none; the first instance with an id is the one
/// that the id means.
pub proof fn law_sources_declare_their_verbs(
    verbs: Vec<String>,
    verb: Seq<char>,
    instances: Seq<SourceInstance>,
    i: int,
    j: int,
)
    ensures
        declares(Some(verbs), verb) <==> exists|k: int|
            0 <= k < verbs@.len() && (#[trigger] verbs@[k])@ == verb,
        !declares(None, verb),
        first_with_id(instances, verb, i) ==> 0 <= i < instances.len() && instances[i].instance_id@
            == verb,
        first_with_id(instances, verb, i) && 0 <= j < instances.len() && instances[j].instance_id@
            == verb ==> i <= j,
{
}

/// Law: contributions are gathered in order; who contributes nothing is
/// passed over.
pub proof fn law_contributions_are_gathered_in_order<T>(
    before: Seq<Option<T>>,
    x: Option<T>,
    behind: Seq<Option<T>>,
)
    ensures
        x matches Some(v) ==> present(before.push(x) + behind) == present(before).push(v) + present(
            behind,
        ),
        x is None ==> present(before.push(x) + behind) == present(before) + present(behind),
    decreases behind.len(),
{
    let all = before.push(x) + behind;
    if behind.len() == 0 {
        assert(all =~= before.push(x));
        assert(all.drop_last() =~= before);
        assert(present(behind) =~= Seq::empty());
        if let Some(v) = x {
            assert(present(before).push(v) + present(behind) =~= present(before).push(v));
        } else {
            assert(present(before) + present(behind) =~= present(before));
        }
    } else {
        law_contributions_are_gathered_in_order(before, x, behind.drop_last());
        assert(all.drop_last() =~= before.push(x) + behind.drop_last());
        assert(all.last() == behind.last());
        if let Some(v) = x {
            assert(present(all) =~= present(before).push(v) + present(behind));
        } else {
            assert(present(all) =~= present(before) + present(behind));
        }
    }
}

} // verus!
