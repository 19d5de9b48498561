//! The fingerprint of a schema layout.
//!
//! An index directory is rebuilt when the fingerprint that it was written
//! with differs from that of the fields in use.

use vstd::prelude::*;

use crate::name_map::NameMap;
use crate::order;
use crate::plugin_schema;
use crate::plugin_schema::{PluginFieldSpec, PluginFieldType, TextTokenizer};
use crate::text;

verus! {

/// The text that `{:?}` writes for a text: quoted, with escapes.
pub uninterp spec fn quoted(s: Seq<char>) -> Seq<char>;

/// Whether `c` is an ASCII letter, a digit or an underscore.
pub open spec fn plain_char(c: char) -> bool {
    'a' <= c <= 'z' || 'A' <= c <= 'Z' || '0' <= c <= '9' || c == '_'
}

/// `{:?}` on a `str`: the text in double quotes, with the escapes of the
/// standard library. Letters, digits and underscores of ASCII stand for
/// themselves.
#[verifier::external_body]
fn quote(s: &str) -> (r: String)
    ensures
        r@ == quoted(s@),
        (forall|i: int| 0 <= i < s@.len() ==> plain_char(#[trigger] s@[i])) ==> r@ == seq!['"']
            + s@ + seq!['"'],
{
    format!("{:?}", s)
}

// ---------------------------------------------------------------------
// The hash
// ---------------------------------------------------------------------

/// `x` rotated to the left by 13 bits.
pub open spec fn rotated(x: u64) -> u64 {
    (x << 13) | (x >> 51)
}

/// The two running hashes after the bytes `b`.
pub open spec fn hash_state(b: Seq<u8>) -> (u64, u64)
    decreases b.len(),
{
    if b.len() == 0 {
        (0xcbf2_9ce4_8422_2325, 0x100_0000_01b3)
    } else {
        let (h1, h2) = hash_state(b.drop_last());
        (
            (h1 ^ (b.last() as u64)).wrapping_mul(0x100_0000_01b3),
            rotated(h2.wrapping_add(b.last() as u64)).wrapping_mul(0xcbf2_9ce4_8422_2325),
        )
    }
}

/// The last `n` hexadecimal digits of `x`.
pub open spec fn hex_digits(x: u64, n: nat) -> Seq<char>
    decreases n,
{
    if n == 0 {
        Seq::empty()
    } else {
        hex_digits(x / 16, (n - 1) as nat).push(text::hex_digit((x % 16) as int))
    }
}

/// The hash of a text: both running hashes over its UTF-8 bytes, in
/// hexadecimal.
pub open spec fn hash_of(s: Seq<char>) -> Seq<char> {
    let (h1, h2) = hash_state(vstd::utf8::encode_utf8(s));
    hex_digits(h1, 16) + hex_digits(h2, 16)
}

fn push_hex(out: &mut String, x: u64, n: usize)
    ensures
        final(out)@ == old(out)@ + hex_digits(x, n as nat),
    decreases n,
{
    if n > 0 {
        push_hex(out, x / 16, n - 1);
        let ghost before = out@;
        out.push(text::hex_char((x % 16) as u8));
        proof {
            assert(out@ =~= old(out)@ + hex_digits(x, n as nat));
        }
    } else {
        proof {
            assert(out@ =~= old(out)@ + hex_digits(x, 0));
        }
    }
}

/// Whether a text is 32 hexadecimal digits, in small letters.
pub open spec fn is_hash(s: Seq<char>) -> bool {
    &&& s.len() == 32
    &&& forall|i: int|
        0 <= i < s.len() ==> '0' <= (#[trigger] s[i]) <= '9' || 'a' <= s[i] <= 'f'
}

/// Law: every hash is 32 hexadecimal digits, in small letters.
pub proof fn law_hash_is_hexadecimal(s: Seq<char>)
    ensures
        is_hash(hash_of(s)),
{
    let (h1, h2) = hash_state(vstd::utf8::encode_utf8(s));
    lemma_hex_digits(h1, 16);
    lemma_hex_digits(h2, 16);
}

proof fn lemma_hex_digits(x: u64, n: nat)
    ensures
        hex_digits(x, n).len() == n,
        forall|i: int|
            0 <= i < n ==> '0' <= (#[trigger] hex_digits(x, n)[i]) <= '9' || 'a' <= hex_digits(
                x,
                n,
            )[i] <= 'f',
    decreases n,
{
    if n > 0 {
        lemma_hex_digits(x / 16, (n - 1) as nat);
    }
}

/// Hashes a text.
pub fn simple_hash(input: &str) -> (r: String)
    ensures
        r@ == hash_of(input@),
        is_hash(r@),
{
    let bytes = input.as_bytes();
    let mut h1: u64 = 0xcbf2_9ce4_8422_2325;
    let mut h2: u64 = 0x100_0000_01b3;
    let mut i: usize = 0;
    proof {
        assert(bytes@.take(0) =~= Seq::<u8>::empty());
    }
    while i < bytes.len()
        invariant
            i <= bytes@.len(),
            (h1, h2) == hash_state(bytes@.take(i as int)),
        decreases bytes@.len() - i,
    {
        let b: u64 = bytes[i] as u64;
        proof {
            assert(bytes@.take(i + 1).drop_last() =~= bytes@.take(i as int));
            assert(bytes@.take(i + 1).last() == bytes@[i as int]);
        }
        h1 = (h1 ^ b).wrapping_mul(0x100_0000_01b3);
        h2 = h2.wrapping_add(b);
        h2 = ((h2 << 13) | (h2 >> 51)).wrapping_mul(0xcbf2_9ce4_8422_2325);
        i = i + 1;
    }
    proof {
        assert(bytes@.take(bytes@.len() as int) =~= bytes@);
    }
    let mut out = String::new();
    push_hex(&mut out, h1, 16);
    push_hex(&mut out, h2, 16);
    proof {
        assert(out@ =~= hash_of(input@));
        law_hash_is_hexadecimal(input@);
    }
    out
}

// ---------------------------------------------------------------------
// The layout
// ---------------------------------------------------------------------

/// The name of a flag.
pub open spec fn flag_text(b: bool) -> Seq<char> {
    if b {
        "true"@
    } else {
        "false"@
    }
}

/// The name of a field type.
pub open spec fn type_text(ty: PluginFieldType) -> Seq<char> {
    match ty {
        PluginFieldType::Text { tokenizer: TextTokenizer::Default } =>
            "Text { tokenizer: Default }"@,
        PluginFieldType::Text { tokenizer: TextTokenizer::Raw } => "Text { tokenizer: Raw }"@,
        PluginFieldType::Text { tokenizer: TextTokenizer::Spotlight } =>
            "Text { tokenizer: Spotlight }"@,
        PluginFieldType::Keyword => "Keyword"@,
        PluginFieldType::I64 => "I64"@,
        PluginFieldType::U64 => "U64"@,
        PluginFieldType::Bool => "Bool"@,
    }
}

/// The text of an optional alias.
pub open spec fn alias_text(alias: Option<Seq<char>>) -> Seq<char> {
    match alias {
        Some(a) => "Some("@ + quoted(a) + ")"@,
        None => "None"@,
    }
}

/// The line of one field.
pub open spec fn field_line(spec: PluginFieldSpec) -> Seq<char> {
    "  "@ + spec.schema_name@ + "|alias="@ + alias_text(plugin_schema::alias_of(spec)) + "|ty="@
        + type_text(spec.ty) + "|stored="@ + flag_text(spec.stored) + "|default="@ + flag_text(
        spec.default_search,
    ) + "|boost="@ + spec.boost@ + "\n"@
}

/// The lines of fields, one after the other.
pub open spec fn field_lines(specs: Seq<PluginFieldSpec>) -> Seq<char>
    decreases specs.len(),
{
    if specs.len() == 0 {
        Seq::empty()
    } else {
        field_lines(specs.drop_last()) + field_line(specs.last())
    }
}

/// The sort keys of fields: their names.
pub open spec fn spec_keys(specs: Seq<PluginFieldSpec>) -> Seq<Seq<u64>> {
    Seq::new(specs.len(), |i: int| order::text_key(specs[i].schema_name@))
}

/// The order of a stable sort of `specs` by name.
pub open spec fn name_order(specs: Seq<PluginFieldSpec>) -> Seq<usize> {
    choose|p: Seq<usize>| order::sorts(spec_keys(specs), p)
}

/// `specs` in the order of their names; fields with the same name keep
/// their order.
pub open spec fn by_name(specs: Seq<PluginFieldSpec>) -> Seq<PluginFieldSpec> {
    Seq::new(name_order(specs).len(), |i: int| specs[name_order(specs)[i] as int])
}

/// The lines of the fields of each kind of plugin.
pub open spec fn kind_lines(by_kind: Seq<(Seq<char>, Vec<PluginFieldSpec>)>) -> Seq<char>
    decreases by_kind.len(),
{
    if by_kind.len() == 0 {
        Seq::empty()
    } else {
        let (kind, specs) = by_kind.last();
        kind_lines(by_kind.drop_last()) + "kind="@ + kind + "\n"@ + field_lines(by_name(specs@))
    }
}

/// The canonical description of a layout.
pub open spec fn canonical(
    index_version: u32,
    by_kind: Seq<(Seq<char>, Vec<PluginFieldSpec>)>,
) -> Seq<char> {
    "v="@ + text::decimal(index_version as nat) + "\n"@ + kind_lines(by_kind)
}

fn flag_str(b: bool) -> (r: &'static str)
    ensures
        r@ == flag_text(b),
{
    if b {
        "true"
    } else {
        "false"
    }
}

fn type_str(ty: PluginFieldType) -> (r: &'static str)
    ensures
        r@ == type_text(ty),
{
    match ty {
        PluginFieldType::Text { tokenizer } => match tokenizer {
            TextTokenizer::Default => "Text { tokenizer: Default }",
            TextTokenizer::Raw => "Text { tokenizer: Raw }",
            TextTokenizer::Spotlight => "Text { tokenizer: Spotlight }",
        },
        PluginFieldType::Keyword => "Keyword",
        PluginFieldType::I64 => "I64",
        PluginFieldType::U64 => "U64",
        PluginFieldType::Bool => "Bool",
    }
}

fn push_alias(out: &mut String, alias: &Option<String>)
    ensures
        final(out)@ == old(out)@ + alias_text(
            match *alias {
                Some(a) => Some(a@),
                None => None,
            },
        ),
{
    match alias {
        Some(a) => {
            out.push_str("Some(");
            let q = quote(a.as_str());
            out.push_str(q.as_str());
            out.push_str(")");
            proof {
                assert(out@ =~= old(out)@ + ("Some("@ + quoted(a@) + ")"@));
            }
        },
        None => {
            out.push_str("None");
        },
    }
}

fn push_field_line(out: &mut String, spec: &PluginFieldSpec)
    ensures
        final(out)@ == old(out)@ + field_line(*spec),
{
    out.push_str("  ");
    out.push_str(spec.schema_name.as_str());
    out.push_str("|alias=");
    push_alias(out, &spec.query_alias);
    out.push_str("|ty=");
    out.push_str(type_str(spec.ty));
    out.push_str("|stored=");
    out.push_str(flag_str(spec.stored));
    out.push_str("|default=");
    out.push_str(flag_str(spec.default_search));
    out.push_str("|boost=");
    out.push_str(spec.boost.as_str());
    out.push_str("\n");
    proof {
        assert(out@ =~= old(out)@ + field_line(*spec));
    }
}

fn push_kind(out: &mut String, kind: &str, specs: &Vec<PluginFieldSpec>)
    ensures
        final(out)@ == old(out)@ + ("kind="@ + kind@ + "\n"@ + field_lines(by_name(specs@))),
{
    out.push_str("kind=");
    out.push_str(kind);
    out.push_str("\n");
    let ghost head = out@;
    let mut keys: Vec<Vec<u64>> = Vec::new();
    let mut k: usize = 0;
    while k < specs.len()
        invariant
            k <= specs@.len(),
            keys@.len() == k,
            forall|m: int|
                0 <= m < k ==> (#[trigger] keys@[m])@ == order::text_key(specs@[m].schema_name@),
        decreases specs@.len() - k,
    {
        keys.push(order::key_of_text(&text::to_chars(specs[k].schema_name.as_str())));
        k = k + 1;
    }
    let p = order::stable_order(&keys);
    let ghost sorted = by_name(specs@);
    proof {
        assert(order::key_views(keys@) =~= spec_keys(specs@));
        order::law_stable_order_unique(spec_keys(specs@), p@, name_order(specs@));
    }
    let mut n: usize = 0;
    proof {
        assert(sorted.take(0) =~= Seq::<PluginFieldSpec>::empty());
        assert(head + field_lines(sorted.take(0)) =~= head);
    }
    while n < p.len()
        invariant
            n <= p@.len(),
            p@.len() == specs@.len(),
            p@ == name_order(specs@),
            forall|m: int| 0 <= m < p@.len() ==> (#[trigger] p@[m]) < specs@.len(),
            sorted == by_name(specs@),
            out@ == head + field_lines(sorted.take(n as int)),
        decreases p@.len() - n,
    {
        proof {
            let next = sorted.take(n + 1);
            assert(next.drop_last() =~= sorted.take(n as int));
            assert(next.last() == specs@[p@[n as int] as int]);
        }
        push_field_line(out, &specs[p[n]]);
        proof {
            assert(out@ =~= head + field_lines(sorted.take(n + 1)));
        }
        n = n + 1;
    }
    proof {
        assert(sorted.take(sorted.len() as int) =~= sorted);
        assert(out@ =~= old(out)@ + ("kind="@ + kind@ + "\n"@ + field_lines(sorted)));
    }
}

/// The fingerprint of a layout: the hash of its canonical description.
pub fn compute_fingerprint(
    index_version: u32,
    by_kind: &NameMap<Vec<PluginFieldSpec>>,
) -> (r: String)
    requires
        by_kind.wf(),
    ensures
        r@ == hash_of(canonical(index_version, by_kind@)),
        is_hash(r@),
{
    let mut out = String::new();
    out.push_str("v=");
    let version = text::decimal_u64(index_version as u64);
    out.push_str(version.as_str());
    out.push_str("\n");
    let ghost head = out@;
    let mut k: usize = 0;
    proof {
        assert(by_kind@.take(0) =~= Seq::<(Seq<char>, Vec<PluginFieldSpec>)>::empty());
        assert(head + kind_lines(by_kind@.take(0)) =~= head);
    }
    while k < by_kind.len()
        invariant
            by_kind.wf(),
            k <= by_kind@.len(),
            out@ == head + kind_lines(by_kind@.take(k as int)),
        decreases by_kind@.len() - k,
    {
        proof {
            let next = by_kind@.take(k + 1);
            assert(next.drop_last() =~= by_kind@.take(k as int));
            assert(next.last() == by_kind@[k as int]);
        }
        push_kind(&mut out, by_kind.name_at(k).as_str(), by_kind.value_at(k));
        proof {
            assert(out@ =~= head + kind_lines(by_kind@.take(k + 1)));
        }
        k = k + 1;
    }
    proof {
        assert(by_kind@.take(by_kind@.len() as int) =~= by_kind@);
        assert(head =~= "v="@ + text::decimal(index_version as nat) + "\n"@);
        assert(out@ =~= canonical(index_version, by_kind@));
    }
    simple_hash(out.as_str())
}

/// Whether no two fields have the same name.
pub open spec fn names_differ(specs: Seq<PluginFieldSpec>) -> bool {
    forall|i: int, j: int|
        0 <= i < j < specs.len() ==> (#[trigger] specs[i]).schema_name@ != (
        #[trigger] specs[j]).schema_name@
}

/// Whether two lists hold the same fields, each once, in whatever order.
pub open spec fn same_fields(a: Seq<PluginFieldSpec>, b: Seq<PluginFieldSpec>) -> bool {
    &&& names_differ(a)
    &&& names_differ(b)
    &&& forall|s: PluginFieldSpec| a.contains(s) <==> b.contains(s)
}

/// Law: the order in which a plugin lists its fields does not count for
/// their lines, as long as their names differ.
pub proof fn law_field_order_does_not_count(a: Seq<PluginFieldSpec>, b: Seq<PluginFieldSpec>)
    requires
        same_fields(a, b),
        a.len() <= usize::MAX,
        b.len() <= usize::MAX,
    ensures
        field_lines(by_name(a)) == field_lines(by_name(b)),
{
    order::law_stable_order_exists(spec_keys(a));
    order::law_stable_order_exists(spec_keys(b));
    let x = by_name(a);
    let y = by_name(b);
    lemma_by_name(a, name_order(a));
    lemma_by_name(b, name_order(b));
    assert forall|s: PluginFieldSpec| x.contains(s) <==> y.contains(s) by {
        assert(x.contains(s) <==> a.contains(s));
        assert(y.contains(s) <==> b.contains(s));
    }
    lemma_same_ascent(x, y);
}

/// Law: two layouts with the same kinds of plugin, whose fields are the same
/// but for the order in which they are listed, have the same fingerprint in
/// every version.
pub proof fn law_fingerprint_ignores_field_order(
    index_version: u32,
    a: Seq<(Seq<char>, Vec<PluginFieldSpec>)>,
    b: Seq<(Seq<char>, Vec<PluginFieldSpec>)>,
)
    requires
        a.len() == b.len(),
        forall|k: int|
            0 <= k < a.len() ==> (#[trigger] a[k]).0 == b[k].0 && same_fields(a[k].1@, b[k].1@),
    ensures
        hash_of(canonical(index_version, a)) == hash_of(canonical(index_version, b)),
{
    lemma_same_kind_lines(a, b);
}

proof fn lemma_same_kind_lines(
    a: Seq<(Seq<char>, Vec<PluginFieldSpec>)>,
    b: Seq<(Seq<char>, Vec<PluginFieldSpec>)>,
)
    requires
        a.len() == b.len(),
        forall|k: int|
            0 <= k < a.len() ==> (#[trigger] a[k]).0 == b[k].0 && same_fields(a[k].1@, b[k].1@),
    ensures
        kind_lines(a) == kind_lines(b),
    decreases a.len(),
{
    if a.len() > 0 {
        let (fa, fb) = (a.drop_last(), b.drop_last());
        assert forall|k: int| 0 <= k < fa.len() implies (#[trigger] fa[k]).0 == fb[k].0
            && same_fields(fa[k].1@, fb[k].1@) by {
            assert(a[k].0 == b[k].0);
        }
        lemma_same_kind_lines(fa, fb);
        let (x, y) = (a[a.len() - 1].1, b[b.len() - 1].1);
        assert(a[a.len() - 1].0 == b[b.len() - 1].0);
        assert(x@.len() == x.len() && y@.len() == y.len());
        law_field_order_does_not_count(x@, y@);
    }
}

proof fn lemma_by_name(a: Seq<PluginFieldSpec>, p: Seq<usize>)
    requires
        order::sorts(spec_keys(a), p),
        p == name_order(a),
        a.len() <= usize::MAX,
        names_differ(a),
    ensures
        forall|i: int, j: int|
            0 <= i < j < by_name(a).len() ==> order::text_before(
                (#[trigger] by_name(a)[i]).schema_name@,
                (#[trigger] by_name(a)[j]).schema_name@,
            ),
        forall|s: PluginFieldSpec| #[trigger] by_name(a).contains(s) <==> a.contains(s),
{
    let x = by_name(a);
    assert forall|i: int, j: int| 0 <= i < j < x.len() implies order::text_before(
        (#[trigger] x[i]).schema_name@,
        (#[trigger] x[j]).schema_name@,
    ) by {
        let (m, n) = (p[i] as int, p[j] as int);
        assert(order::precedes(spec_keys(a), m, n));
        if spec_keys(a)[m] == spec_keys(a)[n] {
            order::lemma_lex_irreflexive(spec_keys(a)[m]);
            order::lemma_text_key_injective(a[m].schema_name@, a[n].schema_name@);
            assert(m < n);
            assert(a[m].schema_name@ != a[n].schema_name@);
        }
    }
    assert forall|s: PluginFieldSpec| #[trigger] x.contains(s) <==> a.contains(s) by {
        if x.contains(s) {
            let i = choose|i: int| 0 <= i < x.len() && x[i] == s;
            assert(p[i] < spec_keys(a).len());
            assert(a[p[i] as int] == s);
        }
        if a.contains(s) {
            let k = choose|k: int| 0 <= k < a.len() && a[k] == s;
            assert(p.contains(k as usize));
            let i = choose|i: int| 0 <= i < p.len() && p[i] == k as usize;
            assert(x[i] == s);
        }
    }
}

proof fn lemma_same_ascent(x: Seq<PluginFieldSpec>, y: Seq<PluginFieldSpec>)
    requires
        forall|i: int, j: int|
            0 <= i < j < x.len() ==> order::text_before(
                (#[trigger] x[i]).schema_name@,
                (#[trigger] x[j]).schema_name@,
            ),
        forall|i: int, j: int|
            0 <= i < j < y.len() ==> order::text_before(
                (#[trigger] y[i]).schema_name@,
                (#[trigger] y[j]).schema_name@,
            ),
        forall|s: PluginFieldSpec| x.contains(s) <==> y.contains(s),
    ensures
        x == y,
    decreases x.len(),
{
    if x.len() == 0 {
        if y.len() > 0 {
            assert(y.contains(y[0]));
        }
        assert(x =~= y);
    } else if y.len() == 0 {
        assert(x.contains(x[0]));
        assert(false);
    } else {
        let (u, v) = (x.last(), y.last());
        assert(x[x.len() - 1] == u);
        assert(y[y.len() - 1] == v);
        assert(x.contains(u));
        assert(y.contains(v));
        let i = choose|i: int| 0 <= i < y.len() && y[i] == u;
        let j = choose|j: int| 0 <= j < x.len() && x[j] == v;
        order::lemma_lex_irreflexive(order::text_key(u.schema_name@));
        if i < y.len() - 1 {
            assert(order::text_before(y[i].schema_name@, y[y.len() - 1].schema_name@));
            if j < x.len() - 1 {
                assert(order::text_before(x[j].schema_name@, x[x.len() - 1].schema_name@));
                order::lemma_lex_transitive(
                    order::text_key(u.schema_name@),
                    order::text_key(v.schema_name@),
                    order::text_key(u.schema_name@),
                );
            }
            assert(false);
        }
        assert(u == v);
        let (fx, fy) = (x.drop_last(), y.drop_last());
        assert forall|s: PluginFieldSpec| fx.contains(s) <==> fy.contains(s) by {
            order::lemma_lex_irreflexive(order::text_key(u.schema_name@));
            if fx.contains(s) {
                let k = choose|k: int| 0 <= k < fx.len() && fx[k] == s;
                assert(x[k] == s);
                assert(order::text_before(x[k].schema_name@, x[x.len() - 1].schema_name@));
                assert(x.contains(s));
                let m = choose|m: int| 0 <= m < y.len() && y[m] == s;
                assert(m < fy.len());
                assert(fy[m] == s);
            }
            if fy.contains(s) {
                let k = choose|k: int| 0 <= k < fy.len() && fy[k] == s;
                assert(y[k] == s);
                assert(order::text_before(y[k].schema_name@, y[y.len() - 1].schema_name@));
                assert(y.contains(s));
                let m = choose|m: int| 0 <= m < x.len() && x[m] == s;
                assert(m < fx.len());
                assert(fx[m] == s);
            }
        }
        lemma_same_ascent(fx, fy);
        assert(x =~= fx.push(u));
        assert(y =~= fy.push(u));
    }
}

/// Law: the line of a field names everything that the index keeps it by: its
/// name, alias, type, whether it is kept, whether it is searched by default,
/// and its weight.
pub proof fn law_a_line_names_every_setting(spec: PluginFieldSpec)
    ensures
        field_line(spec) == "  "@ + spec.schema_name@ + "|alias="@ + (match spec.query_alias {
            Some(a) => "Some("@ + quoted(a@) + ")"@,
            None => "None"@,
        }) + "|ty="@ + (match spec.ty {
            PluginFieldType::Text { tokenizer } => match tokenizer {
                TextTokenizer::Default => "Text { tokenizer: Default }"@,
                TextTokenizer::Raw => "Text { tokenizer: Raw }"@,
                TextTokenizer::Spotlight => "Text { tokenizer: Spotlight }"@,
            },
            PluginFieldType::Keyword => "Keyword"@,
            PluginFieldType::I64 => "I64"@,
            PluginFieldType::U64 => "U64"@,
            PluginFieldType::Bool => "Bool"@,
        }) + "|stored="@ + (if spec.stored {
            "true"@
        } else {
            "false"@
        }) + "|default="@ + (if spec.default_search {
            "true"@
        } else {
            "false"@
        }) + "|boost="@ + spec.boost@ + "\n"@,
{
}

/// Law: the description of a layout begins with its version, and every kind
/// of plugin and each of its fields has its line in it.
pub proof fn law_a_layout_is_described_in_full(
    index_version: u32,
    by_kind: Seq<(Seq<char>, Vec<PluginFieldSpec>)>,
    kind: Seq<char>,
    specs: Vec<PluginFieldSpec>,
)
    ensures
        canonical(index_version, Seq::empty()) == "v="@ + text::decimal(index_version as nat)
            + "\n"@,
        canonical(index_version, by_kind.push((kind, specs))) == canonical(index_version, by_kind)
            + "kind="@ + kind + "\n"@ + field_lines(by_name(specs@)),
{
    let all = by_kind.push((kind, specs));
    assert(all.drop_last() =~= by_kind);
    let head = "v="@ + text::decimal(index_version as nat) + "\n"@;
    assert(head + Seq::<char>::empty() =~= head);
    assert(head + (kind_lines(by_kind) + "kind="@ + kind + "\n"@ + field_lines(by_name(specs@)))
        =~= (head + kind_lines(by_kind)) + "kind="@ + kind + "\n"@ + field_lines(by_name(specs@)));
}

/// Multiplication by the odd factor of the first hash can be undone.
proof fn lemma_factor_tells_apart(x: u64, y: u64)
    requires
        x.wrapping_mul(0x100_0000_01b3) == y.wrapping_mul(0x100_0000_01b3),
    ensures
        x == y,
{
    let m: int = 0x1_0000_0000_0000_0000;
    let p: int = 0x100_0000_01b3;
    let q: int = 0xce96_5057_aff6_957b;
    assert(p * q == 1 + m * 887285111055);
    lemma_undone(x as int, p, q, m);
    lemma_undone(y as int, p, q, m);
    assert(x.wrapping_mul(0x100_0000_01b3) == (x * p) % m);
    assert(y.wrapping_mul(0x100_0000_01b3) == (y * p) % m);
}

proof fn lemma_undone(x: int, p: int, q: int, m: int)
    requires
        0 <= x < m,
        p * q == 1 + m * 887285111055,
    ensures
        (((x * p) % m) * q) % m == x,
{
    vstd::arithmetic::div_mod::lemma_mul_mod_noop_left(x * p, q, m);
    assert((x * p) * q == x + m * (x * 887285111055)) by (nonlinear_arith)
        requires
            p * q == 1 + m * 887285111055,
    ;
    vstd::arithmetic::div_mod::lemma_mod_multiples_vanish(x * 887285111055, x, m);
    assert(m * (x * 887285111055) + x == (x * p) * q);
    vstd::arithmetic::div_mod::lemma_small_mod(x as nat, m as nat);
}

/// The first hashes of bytes that differ in one place differ.
proof fn lemma_one_byte_counts(a: Seq<u8>, b: Seq<u8>, k: int)
    requires
        a.len() == b.len(),
        0 <= k < a.len(),
        a[k] != b[k],
        forall|i: int| 0 <= i < a.len() && i != k ==> #[trigger] a[i] == b[i],
    ensures
        hash_state(a).0 != hash_state(b).0,
    decreases a.len(),
{
    let x = hash_state(a.drop_last()).0;
    let y = hash_state(b.drop_last()).0;
    let c = a.last() as u64;
    let d = b.last() as u64;
    if k == a.len() - 1 {
        assert(a.drop_last() =~= b.drop_last());
        assert((x ^ c) == (x ^ d) ==> c == d) by (bit_vector);
    } else {
        lemma_one_byte_counts(a.drop_last(), b.drop_last(), k);
        assert(c == d);
        assert((x ^ c) == (y ^ c) ==> x == y) by (bit_vector);
    }
    if hash_state(a).0 == hash_state(b).0 {
        lemma_factor_tells_apart(x ^ c, y ^ d);
    }
}

/// 16 to the power of `n`.
spec fn pow16(n: nat) -> nat
    decreases n,
{
    if n == 0 {
        1
    } else {
        16 * pow16((n - 1) as nat)
    }
}

/// The digits of a number tell it.
proof fn lemma_hex_digits_tell(x: u64, y: u64, n: nat)
    requires
        hex_digits(x, n) == hex_digits(y, n),
        x < pow16(n),
        y < pow16(n),
    ensures
        x == y,
    decreases n,
{
    if n > 0 {
        let a = hex_digits(x / 16, (n - 1) as nat);
        let b = hex_digits(y / 16, (n - 1) as nat);
        assert(hex_digits(x, n).drop_last() =~= a);
        assert(hex_digits(y, n).drop_last() =~= b);
        let c = (x % 16) as int;
        let d = (y % 16) as int;
        assert(hex_digits(x, n).last() == text::hex_digit(c));
        assert(hex_digits(y, n).last() == text::hex_digit(d));
        assert(text::hex_digit(c) as int == if c < 10 {
            48 + c
        } else {
            87 + c
        });
        assert(text::hex_digit(d) as int == if d < 10 {
            48 + d
        } else {
            87 + d
        });
        lemma_hex_digits_tell(x / 16, y / 16, (n - 1) as nat);
    }
}

proof fn lemma_hex_digits_len(x: u64, n: nat)
    ensures
        hex_digits(x, n).len() == n,
    decreases n,
{
    if n > 0 {
        lemma_hex_digits_len(x / 16, (n - 1) as nat);
    }
}

/// Law: every byte of a text counts in its hash: texts of the same length
/// that differ in one byte, wherever it stands, have different hashes.
pub proof fn law_every_byte_counts_in_a_hash(s: Seq<char>, t: Seq<char>, k: int)
    requires
        ({
            let a = vstd::utf8::encode_utf8(s);
            let b = vstd::utf8::encode_utf8(t);
            &&& a.len() == b.len()
            &&& 0 <= k < a.len()
            &&& a[k] != b[k]
            &&& forall|i: int| 0 <= i < a.len() && i != k ==> #[trigger] a[i] == b[i]
        }),
    ensures
        hash_of(s) != hash_of(t),
{
    let a = vstd::utf8::encode_utf8(s);
    let b = vstd::utf8::encode_utf8(t);
    lemma_one_byte_counts(a, b, k);
    let x = hash_state(a).0;
    let y = hash_state(b).0;
    lemma_hex_digits_len(x, 16);
    lemma_hex_digits_len(y, 16);
    if hash_of(s) == hash_of(t) {
        assert(hash_of(s).take(16) =~= hex_digits(x, 16));
        assert(hash_of(t).take(16) =~= hex_digits(y, 16));
        reveal_with_fuel(pow16, 17);
        lemma_hex_digits_tell(x, y, 16);
    }
}

} // verus!
