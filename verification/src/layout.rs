//! When an index directory is opened as it is, and when it is built anew.

use vstd::prelude::*;

use crate::index;
use crate::text;

verus! {

/// Whether every character is a decimal digit.
pub open spec fn digits(s: Seq<char>) -> bool {
    forall|i: int| 0 <= i < s.len() ==> '0' <= #[trigger] s[i] <= '9'
}

/// The number that digits stand for.
pub open spec fn numeral(s: Seq<char>) -> nat
    decreases s.len(),
{
    if s.len() == 0 {
        0
    } else {
        numeral(s.drop_last()) * 10 + (s.last() as nat - 48) as nat
    }
}

/// `s` without a leading plus sign.
pub open spec fn unsigned(s: Seq<char>) -> Seq<char> {
    if s.len() > 0 && s[0] == '+' {
        s.drop_first()
    } else {
        s
    }
}

/// The 32-bit number that a text stands for: digits, with at most a plus
/// sign ahead of them.
pub open spec fn parsed_u32(s: Seq<char>) -> Option<u32> {
    let d = unsigned(s);
    if d.len() == 0 || !digits(d) || numeral(d) > u32::MAX {
        None
    } else {
        Some(numeral(d) as u32)
    }
}

proof fn lemma_numeral_grows(s: Seq<char>, n: int)
    requires
        digits(s),
        0 <= n <= s.len(),
    ensures
        numeral(s.take(n)) <= numeral(s),
    decreases s.len(),
{
    if n < s.len() {
        assert(digits(s.drop_last()));
        lemma_numeral_grows(s.drop_last(), n);
        assert(s.drop_last().take(n) =~= s.take(n));
    } else {
        assert(s.take(n) =~= s);
    }
}

/// Reads a 32-bit number.
pub fn parse_u32(s: &[char]) -> (r: Option<u32>)
    ensures
        r == parsed_u32(s@),
{
    let start: usize = if s.len() > 0 && s[0] == '+' {
        1
    } else {
        0
    };
    let ghost d = unsigned(s@);
    proof {
        assert(d =~= s@.skip(start as int));
    }
    if s.len() == start {
        return None;
    }
    let mut value: u64 = 0;
    let mut i: usize = start;
    proof {
        assert(d.take(0) =~= Seq::<char>::empty());
    }
    while i < s.len()
        invariant
            start <= i <= s@.len(),
            d == s@.skip(start as int),
            d == unsigned(s@),
            digits(d.take(i - start)),
            value == numeral(d.take(i - start)),
            value <= u32::MAX,
        decreases s@.len() - i,
    {
        let c: char = s[i];
        proof {
            assert(d[i - start] == c);
        }
        if !('0' <= c && c <= '9') {
            proof {
                assert(!digits(d));
            }
            return None;
        }
        proof {
            let next = d.take(i + 1 - start);
            assert(next.drop_last() =~= d.take(i - start));
            assert(next.last() == c);
            assert(digits(next)) by {
                assert forall|k: int| 0 <= k < next.len() implies '0' <= #[trigger] next[k]
                    <= '9' by {
                    if k < i - start {
                        assert(next[k] == d.take(i - start)[k]);
                    }
                }
            }
        }
        value = value * 10 + (c as u64 - 48);
        if value > u32::MAX as u64 {
            proof {
                if digits(d) {
                    lemma_numeral_grows(d, i + 1 - start);
                }
            }
            return None;
        }
        i = i + 1;
    }
    proof {
        assert(d.take(d.len() as int) =~= d);
    }
    Some(value as u32)
}

/// The version that a version file's contents state.
pub open spec fn version_of(contents: Seq<char>) -> Option<u32> {
    parsed_u32(text::trimmed(contents))
}

/// Reads the contents of a version file.
pub fn read_index_version(contents: &str) -> (r: Option<u32>)
    ensures
        r == version_of(contents@),
{
    parse_u32(&text::trim(&text::to_chars(contents)))
}

/// Reads the contents of a file that holds one trimmed text; `None` where
/// it is blank.
pub fn read_trimmed(contents: &str) -> (r: Option<String>)
    ensures
        match r {
            Some(t) => t@ == text::trimmed(contents@) && t@.len() > 0,
            None => text::trimmed(contents@).len() == 0,
        },
{
    let t = text::trim(&text::to_chars(contents));
    if t.len() > 0 {
        Some(text::from_chars(&t))
    } else {
        None
    }
}

/// Whether an index directory can be opened as it is: its version and its
/// fingerprint are those in use, and it has been written.
pub open spec fn usable(
    version_file: Option<Seq<char>>,
    fingerprint_file: Option<Seq<char>>,
    fingerprint: Seq<char>,
    has_meta: bool,
) -> bool {
    &&& version_file matches Some(v) && version_of(v) == Some(index::INDEX_VERSION)
    &&& fingerprint_file matches Some(f) && text::trimmed(f).len() > 0 && text::trimmed(f)
        == fingerprint
    &&& has_meta
}

/// Whether an index directory has to be built anew. The files' contents are
/// `None` where they cannot be read.
pub fn needs_rebuild(
    version_file: Option<&str>,
    fingerprint_file: Option<&str>,
    fingerprint: &str,
    has_meta: bool,
) -> (r: bool)
    ensures
        r == !usable(
            match version_file {
                Some(v) => Some(v@),
                None => None,
            },
            match fingerprint_file {
                Some(f) => Some(f@),
                None => None,
            },
            fingerprint@,
            has_meta,
        ),
{
    let version_matches = match version_file {
        Some(v) => match read_index_version(v) {
            Some(n) => n == index::INDEX_VERSION,
            None => false,
        },
        None => false,
    };
    let fingerprint_matches = match fingerprint_file {
        Some(f) => match read_trimmed(f) {
            Some(t) => text::text_eq(t.as_str(), fingerprint),
            None => false,
        },
        None => false,
    };
    !version_matches || !fingerprint_matches || !has_meta
}

/// The contents of the version file of an index of this version.
pub fn index_version_text() -> (r: String)
    ensures
        r@ == text::decimal(index::INDEX_VERSION as nat),
{
    text::decimal_u64(index::INDEX_VERSION as u64)
}

proof fn lemma_decimal_numeral(n: nat)
    ensures
        digits(text::decimal(n)),
        numeral(text::decimal(n)) == n,
        text::decimal(n).len() > 0,
        forall|i: int|
            0 <= i < text::decimal(n).len() ==> !text::whitespace(#[trigger] text::decimal(n)[i]),
    decreases n,
{
    let s = text::decimal(n);
    if n < 10 {
        assert(s =~= seq![text::digit(n)]);
        assert(s.drop_last() =~= Seq::<char>::empty());
        assert(numeral(s.drop_last()) == 0);
        assert(s.last() as nat == 48 + n);
    } else {
        lemma_decimal_numeral(n / 10);
        let front = text::decimal(n / 10);
        assert(s =~= front.push(text::digit(n % 10)));
        assert(s.drop_last() =~= front);
        assert(s.last() as nat == 48 + n % 10);
        assert forall|i: int| 0 <= i < s.len() implies '0' <= #[trigger] s[i] <= '9' by {
            if i < front.len() {
                assert(s[i] == front[i]);
            }
        }
        assert forall|i: int| 0 <= i < s.len() implies !text::whitespace(#[trigger] s[i]) by {
            if i < front.len() {
                assert(s[i] == front[i]);
            }
        }
    }
}

/// Law: a directory whose version file was written by this version, and
/// whose fingerprint file holds the fingerprint in use, is opened as it is;
/// one with another version is not.
pub proof fn law_version_decides_rebuild(version: u32, fingerprint: Seq<char>)
    requires
        fingerprint.len() > 0,
        text::trimmed(fingerprint) == fingerprint,
    ensures
        usable(
            Some(text::decimal(version as nat)),
            Some(fingerprint),
            fingerprint,
            true,
        ) <==> version == index::INDEX_VERSION,
{
    let s = text::decimal(version as nat);
    lemma_decimal_numeral(version as nat);
    assert(!text::whitespace(s[0]));
    assert(!text::whitespace(s[s.len() - 1]));
    assert(text::trimmed(s) == s);
    assert('0' <= s[0] <= '9');
    assert(unsigned(s) == s);
}

/// Law: an index is opened as it is only where its version file states the
/// version in use, its fingerprint file holds the fingerprint in use, and it
/// has been written; where any of these is missing or differs, it is rebuilt.
pub proof fn law_any_difference_asks_for_a_rebuild(
    version_file: Option<Seq<char>>,
    fingerprint_file: Option<Seq<char>>,
    fingerprint: Seq<char>,
    has_meta: bool,
)
    ensures
        version_file is None || fingerprint_file is None || !has_meta ==> !usable(
            version_file,
            fingerprint_file,
            fingerprint,
            has_meta,
        ),
        fingerprint_file matches Some(f) ==> text::trimmed(f) != fingerprint ==> !usable(
            version_file,
            fingerprint_file,
            fingerprint,
            has_meta,
        ),
        version_file matches Some(v) ==> version_of(v) != Some(9u32) ==> !usable(
            version_file,
            fingerprint_file,
            fingerprint,
            has_meta,
        ),
        (version_file matches Some(v) && version_of(v) == Some(9u32)) && (
        fingerprint_file matches Some(f) && text::trimmed(f) == fingerprint) && fingerprint.len()
            > 0 && has_meta ==> usable(version_file, fingerprint_file, fingerprint, has_meta),
{
}

} // verus!
