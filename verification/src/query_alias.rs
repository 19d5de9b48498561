//! Query aliases: short names that queries use for plugin fields.

use vstd::prelude::*;

use crate::name_map;
use crate::name_map::NameMap;
use crate::text;

verus! {

/// Whether an identifier can start with this byte.
pub open spec fn ident_start(b: u8) -> bool {
    65 <= b <= 90 || 97 <= b <= 122 || b == 95
}

/// Whether an identifier can go on with this byte.
pub open spec fn ident_part(b: u8) -> bool {
    ident_start(b) || 48 <= b <= 57
}

/// The end of the run of identifier bytes from `i` on.
pub open spec fn ident_end(b: Seq<u8>, i: int) -> int
    decreases b.len() - i,
{
    if 0 <= i < b.len() && ident_part(b[i]) {
        ident_end(b, i + 1)
    } else {
        i
    }
}

/// Each byte as the character with that code.
pub open spec fn byte_chars(b: Seq<u8>) -> Seq<char> {
    Seq::new(b.len(), |i: int| b[i] as char)
}

/// Whether an identifier starts at `i`: it does not continue a run.
pub open spec fn ident_at(b: Seq<u8>, i: int) -> bool {
    ident_start(b[i]) && (i == 0 || !ident_part(b[i - 1]))
}

/// The bytes from `i` on, with every identifier ahead of a colon that is an
/// alias replaced by what it stands for. Bytes outside identifiers stand
/// for the character with that code.
pub open spec fn rewritten(b: Seq<u8>, i: int, aliases: Seq<(Seq<char>, String)>) -> Seq<char>
    decreases b.len() - i,
{
    if i < 0 || i >= b.len() {
        Seq::empty()
    } else if ident_at(b, i) {
        let e = ident_end(b, i);
        if e <= i || e > b.len() {
            Seq::empty()
        } else {
            let ident = byte_chars(b.subrange(i, e));
            if e < b.len() && b[e] == 58 && name_map::value_of(aliases, ident) is Some {
                (name_map::value_of(aliases, ident)->0)@.push(':') + rewritten(b, e + 1, aliases)
            } else {
                ident + rewritten(b, e, aliases)
            }
        }
    } else {
        seq![b[i] as char] + rewritten(b, i + 1, aliases)
    }
}

/// The query `text` with its aliases replaced. Without aliases it is kept
/// as it is.
pub open spec fn alias_rewrite(text: Seq<char>, aliases: Seq<(Seq<char>, String)>) -> Seq<char> {
    if aliases.len() == 0 {
        text
    } else {
        rewritten(vstd::utf8::encode_utf8(text), 0, aliases)
    }
}

proof fn lemma_ident_end(b: Seq<u8>, i: int)
    requires
        0 <= i <= b.len(),
    ensures
        i <= ident_end(b, i) <= b.len(),
        i < b.len() && ident_part(b[i]) ==> i < ident_end(b, i),
    decreases b.len() - i,
{
    if i < b.len() && ident_part(b[i]) {
        lemma_ident_end(b, i + 1);
    }
}

fn is_ident_start(c: u8) -> (r: bool)
    ensures
        r == ident_start(c),
{
    (65 <= c && c <= 90) || (97 <= c && c <= 122) || c == 95
}

fn is_ident_part(c: u8) -> (r: bool)
    ensures
        r == ident_part(c),
{
    is_ident_start(c) || (48 <= c && c <= 57)
}

/// Replaces the aliases of a query by the fields that they stand for.
///
/// An alias is an identifier at a word boundary that a colon follows.
pub fn rewrite_query_aliases(text: &str, aliases: &NameMap<String>) -> (r: String)
    requires
        aliases.wf(),
    ensures
        r@ == alias_rewrite(text@, aliases@),
{
    if aliases.is_empty() {
        return text::from_chars(&text::to_chars(text));
    }
    let bytes = text.as_bytes();
    let ghost b = bytes@;
    let mut out: Vec<char> = Vec::new();
    let mut i: usize = 0;
    proof {
        assert(out@ + rewritten(b, 0, aliases@) =~= rewritten(b, 0, aliases@));
    }
    while i < bytes.len()
        invariant
            b == bytes@,
            i <= b.len(),
            aliases.wf(),
            out@ + rewritten(b, i as int, aliases@) == rewritten(b, 0, aliases@),
        decreases b.len() - i,
    {
        let c: u8 = bytes[i];
        let ghost done = out@;
        let ghost start = i as int;
        if is_ident_start(c) && (i == 0 || !is_ident_part(bytes[i - 1])) {
            let mut ident: Vec<char> = Vec::new();
            proof {
                lemma_ident_end(b, start);
                assert(byte_chars(b.subrange(start, start)) =~= Seq::<char>::empty());
                assert(ident@ =~= byte_chars(b.subrange(start, start)));
            }
            while i < bytes.len() && is_ident_part(bytes[i])
                invariant
                    b == bytes@,
                    0 <= start <= i <= b.len(),
                    ident_end(b, start) == ident_end(b, i as int),
                    ident@ == byte_chars(b.subrange(start, i as int)),
                decreases b.len() - i,
            {
                ident.push(bytes[i] as char);
                proof {
                    assert(byte_chars(b.subrange(start, i + 1)) =~= byte_chars(
                        b.subrange(start, i as int),
                    ).push(b[i as int] as char));
                }
                i = i + 1;
            }
            proof {
                assert(ident_end(b, start) == i);
            }
            let name = text::from_chars(&ident);
            if i < bytes.len() && bytes[i] == 58 {
                match aliases.get(name.as_str()) {
                    Some(target) => {
                        text::append_chars(&mut out, &text::to_chars(target.as_str()));
                        out.push(':');
                        i = i + 1;
                        proof {
                            assert(out@ + rewritten(b, i as int, aliases@) =~= done + (
                            target@.push(':') + rewritten(b, i as int, aliases@)));
                        }
                        continue ;
                    },
                    None => {},
                }
            }
            text::append_chars(&mut out, &ident);
            proof {
                assert(out@ + rewritten(b, i as int, aliases@) =~= done + (ident@ + rewritten(
                    b,
                    i as int,
                    aliases@,
                )));
            }
        } else {
            out.push(c as char);
            i = i + 1;
            proof {
                assert(out@ + rewritten(b, i as int, aliases@) =~= done + (seq![c as char]
                    + rewritten(b, i as int, aliases@)));
            }
        }
    }
    proof {
        assert(out@ + rewritten(b, i as int, aliases@) =~= out@);
    }
    text::from_chars(&out)
}

/// Law: a query of ASCII characters in which no alias stands ahead of a
/// colon is kept as it is.
pub proof fn law_other_text_is_kept(text: Seq<char>, aliases: Seq<(Seq<char>, String)>)
    requires
        vstd::utf8::is_ascii_chars(text),
        ({
            let b = vstd::utf8::encode_utf8(text);
            forall|i: int|
                0 <= i < b.len() && #[trigger] ident_at(b, i) && ident_end(b, i) < b.len()
                    && b[ident_end(b, i)] == 58 ==> name_map::value_of(
                    aliases,
                    byte_chars(b.subrange(i, ident_end(b, i))),
                ) is None
        }),
    ensures
        alias_rewrite(text, aliases) == text,
{
    let b = vstd::utf8::encode_utf8(text);
    vstd::utf8::is_ascii_chars_encode_utf8(text);
    lemma_kept(b, 0, aliases);
    assert(byte_chars(b.skip(0)) =~= text);
}

proof fn lemma_kept(b: Seq<u8>, i: int, aliases: Seq<(Seq<char>, String)>)
    requires
        0 <= i <= b.len(),
        forall|j: int|
            0 <= j < b.len() && #[trigger] ident_at(b, j) && ident_end(b, j) < b.len()
                && b[ident_end(b, j)] == 58 ==> name_map::value_of(
                aliases,
                byte_chars(b.subrange(j, ident_end(b, j))),
            ) is None,
    ensures
        rewritten(b, i, aliases) == byte_chars(b.skip(i)),
    decreases b.len() - i,
{
    if i < b.len() {
        if ident_at(b, i) {
            lemma_ident_end(b, i);
            let e = ident_end(b, i);
            lemma_kept(b, e, aliases);
            assert(byte_chars(b.skip(i)) =~= byte_chars(b.subrange(i, e)) + byte_chars(b.skip(e)));
        } else {
            lemma_kept(b, i + 1, aliases);
            assert(byte_chars(b.skip(i)) =~= seq![b[i] as char] + byte_chars(b.skip(i + 1)));
        }
    } else {
        assert(byte_chars(b.skip(i)) =~= Seq::<char>::empty());
    }
}

proof fn lemma_ident_end_shift(b: Seq<u8>, k: int, j: int)
    requires
        0 <= k <= b.len(),
        0 <= j <= b.len() - k,
    ensures
        ident_end(b, k + j) == k + ident_end(b.skip(k), j),
    decreases b.len() - k - j,
{
    if j < b.len() - k {
        assert(b.skip(k)[j] == b[k + j]);
        if ident_part(b[k + j]) {
            lemma_ident_end_shift(b, k, j + 1);
        }
    }
}

proof fn lemma_rewritten_shift(b: Seq<u8>, k: int, j: int, aliases: Seq<(Seq<char>, String)>)
    requires
        0 < k <= b.len(),
        0 <= j <= b.len() - k,
        !ident_part(b[k - 1]),
    ensures
        rewritten(b, k + j, aliases) == rewritten(b.skip(k), j, aliases),
    decreases b.len() - k - j,
{
    let t = b.skip(k);
    if j < t.len() {
        assert(t[j] == b[k + j]);
        if j > 0 {
            assert(t[j - 1] == b[k + j - 1]);
        }
        assert(ident_at(b, k + j) == ident_at(t, j));
        if ident_at(t, j) {
            lemma_ident_end(t, j);
            lemma_ident_end_shift(b, k, j);
            let e = ident_end(t, j);
            assert(b.subrange(k + j, k + e) =~= t.subrange(j, e));
            if e < t.len() {
                assert(t[e] == b[k + e]);
                lemma_rewritten_shift(b, k, e + 1, aliases);
            }
            lemma_rewritten_shift(b, k, e, aliases);
        } else {
            lemma_rewritten_shift(b, k, j + 1, aliases);
        }
    }
}

proof fn lemma_ident_end_at(b: Seq<u8>, i: int, e: int)
    requires
        0 <= i <= e < b.len(),
        forall|j: int| i <= j < e ==> ident_part(#[trigger] b[j]),
        !ident_part(b[e]),
    ensures
        ident_end(b, i) == e,
    decreases e - i,
{
    if i < e {
        lemma_ident_end_at(b, i + 1, e);
    }
}

/// Law: an alias that leads a query and is followed by a colon is replaced
/// by the field that it stands for; the colon stays, and the rest of the
/// query is rewritten by itself.
pub proof fn law_an_alias_stands_for_its_field(
    name: Seq<char>,
    rest: Seq<char>,
    aliases: Seq<(Seq<char>, String)>,
)
    requires
        name.len() > 0,
        vstd::utf8::is_ascii_chars(name.push(':') + rest),
        ident_start(name[0] as u8),
        forall|i: int| 0 <= i < name.len() ==> ident_part(#[trigger] name[i] as u8),
        name_map::value_of(aliases, name) is Some,
    ensures
        alias_rewrite(name.push(':') + rest, aliases) == (name_map::value_of(aliases, name)->0)@
            + seq![':'] + alias_rewrite(rest, aliases),
{
    let all = name.push(':') + rest;
    let b = vstd::utf8::encode_utf8(all);
    let e = name.len() as int;
    assert forall|i: int| 0 <= i < rest.len() implies rest[i] == all[e + 1 + i] by {}
    assert(vstd::utf8::is_ascii_chars(rest)) by {
        assert forall|i: int| 0 <= i < rest.len() implies '\0' <= #[trigger] rest[i] <= '\u{7f}' by {
            assert(rest[i] == all[e + 1 + i]);
        }
    }
    vstd::utf8::is_ascii_chars_encode_utf8(all);
    vstd::utf8::is_ascii_chars_encode_utf8(rest);
    assert(b.len() == all.len());
    assert forall|i: int| 0 <= i < b.len() implies #[trigger] b[i] == all[i] as u8 by {}
    assert(b[e] == 58);
    assert forall|j: int| 0 <= j < e implies ident_part(#[trigger] b[j]) by {
        assert(all[j] == name[j]);
    }
    assert(ident_at(b, 0)) by {
        assert(all[0] == name[0]);
    }
    lemma_ident_end_at(b, 0, e);
    assert(byte_chars(b.subrange(0, e)) =~= name) by {
        assert forall|i: int| 0 <= i < e implies byte_chars(b.subrange(0, e))[i] == name[i] by {
            assert(all[i] == name[i]);
            assert(b[i] == all[i] as u8);
        }
    }
    assert(b.skip(e + 1) =~= vstd::utf8::encode_utf8(rest));
    lemma_rewritten_shift(b, e + 1, 0, aliases);
    let target = (name_map::value_of(aliases, name)->0)@;
    assert(target.push(':') + rewritten(b, e + 1, aliases) =~= target + seq![':'] + rewritten(
        b,
        e + 1,
        aliases,
    ));
}

/// An identifier ends where it ends in the front part.
proof fn lemma_ident_end_front(x: Seq<u8>, y: Seq<u8>, i: int)
    requires
        0 <= i <= x.len(),
    ensures
        ident_end(x + seq![32u8] + y, i) == ident_end(x, i),
        i <= ident_end(x, i) <= x.len(),
    decreases x.len() - i,
{
    let s = x + seq![32u8] + y;
    if i < x.len() {
        assert(s[i] == x[i]);
        if ident_part(x[i]) {
            lemma_ident_end_front(x, y, i + 1);
        }
    } else {
        assert(s[i] == 32);
    }
}

/// The part ahead of a space is rewritten by itself.
proof fn lemma_rewritten_front(
    x: Seq<u8>,
    y: Seq<u8>,
    i: int,
    aliases: Seq<(Seq<char>, String)>,
)
    requires
        0 <= i <= x.len(),
    ensures
        rewritten(x + seq![32u8] + y, i, aliases) == rewritten(x, i, aliases) + rewritten(
            x + seq![32u8] + y,
            x.len() as int,
            aliases,
        ),
    decreases x.len() - i,
{
    let s = x + seq![32u8] + y;
    let tail = rewritten(s, x.len() as int, aliases);
    if i == x.len() {
        assert(rewritten(x, i, aliases) + tail =~= tail);
    } else {
        assert(s[i] == x[i]);
        if i > 0 {
            assert(s[i - 1] == x[i - 1]);
        }
        assert(ident_at(s, i) == ident_at(x, i));
        if ident_at(x, i) {
            let e = ident_end(x, i);
            lemma_ident_end_front(x, y, i);
            lemma_ident_end(x, i);
            let ident = byte_chars(x.subrange(i, e));
            assert(s.subrange(i, e) =~= x.subrange(i, e));
            if e < x.len() {
                assert(s[e] == x[e]);
                lemma_rewritten_front(x, y, e + 1, aliases);
            } else {
                assert(s[e] == 32);
            }
            lemma_rewritten_front(x, y, e, aliases);
            if e < x.len() && x[e] == 58 && name_map::value_of(aliases, ident) is Some {
                let target = (name_map::value_of(aliases, ident)->0)@.push(':');
                assert(rewritten(s, i, aliases) =~= target + (rewritten(x, e + 1, aliases) + tail));
                assert(rewritten(s, i, aliases) =~= rewritten(x, i, aliases) + tail);
            } else {
                assert(rewritten(s, i, aliases) =~= ident + (rewritten(x, e, aliases) + tail));
                assert(rewritten(s, i, aliases) =~= rewritten(x, i, aliases) + tail);
            }
        } else {
            lemma_rewritten_front(x, y, i + 1, aliases);
            assert(rewritten(s, i, aliases) =~= rewritten(x, i, aliases) + tail);
        }
    }
}

/// Law: the terms of a query are rewritten each by itself: a space parts
/// them, wherever in the query it stands.
pub proof fn law_every_term_is_rewritten(
    a: Seq<char>,
    b: Seq<char>,
    aliases: Seq<(Seq<char>, String)>,
)
    requires
        vstd::utf8::is_ascii_chars(a),
        vstd::utf8::is_ascii_chars(b),
    ensures
        alias_rewrite(a.push(' ') + b, aliases) == alias_rewrite(a, aliases).push(' ')
            + alias_rewrite(b, aliases),
{
    if aliases.len() > 0 {
        let all = a.push(' ') + b;
        assert(vstd::utf8::is_ascii_chars(all)) by {
            assert forall|i: int| 0 <= i < all.len() implies '\0' <= #[trigger] all[i]
                <= '\u{7f}' by {
                if i < a.len() {
                    assert(all[i] == a[i]);
                } else if i > a.len() {
                    assert(all[i] == b[i - a.len() - 1]);
                }
            }
        }
        vstd::utf8::is_ascii_chars_encode_utf8(all);
        vstd::utf8::is_ascii_chars_encode_utf8(a);
        vstd::utf8::is_ascii_chars_encode_utf8(b);
        let x = vstd::utf8::encode_utf8(a);
        let y = vstd::utf8::encode_utf8(b);
        let s = vstd::utf8::encode_utf8(all);
        assert(s =~= x + seq![32u8] + y) by {
            assert forall|i: int| 0 <= i < s.len() implies s[i] == (x + seq![32u8] + y)[i] by {
                assert(s[i] == all[i] as u8);
                if i < a.len() {
                    assert(x[i] == a[i] as u8);
                } else if i > a.len() {
                    assert(y[i - a.len() - 1] == b[i - a.len() - 1] as u8);
                }
            }
        }
        let n = x.len() as int;
        lemma_rewritten_front(x, y, 0, aliases);
        assert(s[n] == 32);
        assert(!ident_at(s, n));
        lemma_rewritten_shift(s, n + 1, 0, aliases);
        assert(s.skip(n + 1) =~= y);
        assert(rewritten(s, n, aliases) == seq![32u8 as char] + rewritten(s, n + 1, aliases));
        assert(alias_rewrite(all, aliases) =~= alias_rewrite(a, aliases).push(' ')
            + alias_rewrite(b, aliases));
    }
}

} // verus!
