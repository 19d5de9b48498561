//! Lists the entries of an archive.

use std::io::Cursor;

use vstd::prelude::*;

use crate::hits;
use crate::hits::{Row, SizingPreference};
use crate::model::Hit;
use crate::sizes;
use crate::text;

verus! {

/// Greatest number of entries that are shown.
pub const ENTRY_CAP: usize = 5000;

/// One entry of an archive.
#[derive(Clone, Debug, PartialEq, Eq)]
pub struct Entry {
    pub name: String,
    pub size: u64,
    pub is_dir: bool,
}

/// The entries of an archive.
#[derive(Clone, Debug, PartialEq, Eq)]
pub struct ArchiveListing {
    pub entries: Vec<Entry>,
    /// Whether there are more entries than were asked for.
    pub truncated: bool,
}

/// Why an archive could not be listed.
#[derive(Clone, Debug, PartialEq, Eq)]
pub enum ArchiveError {
    /// The path does not look like an archive.
    Unsupported,
    /// A password is needed.
    Encrypted,
    /// The archive could not be understood.
    Malformed(String),
    /// The archive could not be read.
    Io(String),
}

impl ArchiveError {
    /// The message of the error.
    pub open spec fn message(self) -> Seq<char> {
        match self {
            ArchiveError::Unsupported => "unsupported archive format"@,
            ArchiveError::Encrypted => "encrypted archive: cannot list without a password"@,
            ArchiveError::Malformed(why) => "malformed archive: "@ + why@,
            ArchiveError::Io(why) => "cannot read archive: "@ + why@,
        }
    }

    /// The message of the error.
    pub fn to_text(&self) -> (r: String)
        ensures
            r@ == self.message(),
    {
        match self {
            ArchiveError::Unsupported => "unsupported archive format".to_string(),
            ArchiveError::Encrypted => {
                "encrypted archive: cannot list without a password".to_string()
            },
            ArchiveError::Malformed(why) => {
                let mut s = "malformed archive: ".to_string();
                s.push_str(why.as_str());
                s
            },
            ArchiveError::Io(why) => {
                let mut s = "cannot read archive: ".to_string();
                s.push_str(why.as_str());
                s
            },
        }
    }
}

/// The kinds of archives.
#[derive(Clone, Copy, Debug, PartialEq, Eq, Structural)]
pub enum Format {
    Zip,
    Tar,
    TarGz,
    TarZst,
    TarBz2,
    SevenZ,
}

/// The kind of archive that a lowercase path ends like. The compressed
/// tarballs come first.
pub open spec fn format_of_lower(lower: Seq<char>) -> Option<Format> {
    if ".tar.gz"@.is_suffix_of(lower) || ".tgz"@.is_suffix_of(lower) {
        Some(Format::TarGz)
    } else if ".tar.zst"@.is_suffix_of(lower) || ".tzst"@.is_suffix_of(lower) {
        Some(Format::TarZst)
    } else if ".tar.bz2"@.is_suffix_of(lower) || ".tbz2"@.is_suffix_of(lower)
        || ".tbz"@.is_suffix_of(lower) {
        Some(Format::TarBz2)
    } else if ".tar"@.is_suffix_of(lower) {
        Some(Format::Tar)
    } else if ".zip"@.is_suffix_of(lower) {
        Some(Format::Zip)
    } else if ".7z"@.is_suffix_of(lower) {
        Some(Format::SevenZ)
    } else {
        None
    }
}

/// The kind of archive that a path ends like, whatever the case of its
/// letters.
pub open spec fn format_of(path: Seq<char>) -> Option<Format> {
    format_of_lower(text::ascii_lowered(path))
}

fn ends(lower: &Vec<char>, suffix: &str) -> (r: bool)
    ensures
        r == suffix@.is_suffix_of(lower@),
{
    text::chars_end_with(lower, &text::to_chars(suffix))
}

/// The kind of archive that a path ends like.
pub fn detect_format(path: &str) -> (r: Option<Format>)
    ensures
        r == format_of(path@),
{
    let lower = text::to_ascii_lower(&text::to_chars(path));
    if ends(&lower, ".tar.gz") || ends(&lower, ".tgz") {
        return Some(Format::TarGz);
    }
    if ends(&lower, ".tar.zst") || ends(&lower, ".tzst") {
        return Some(Format::TarZst);
    }
    if ends(&lower, ".tar.bz2") || ends(&lower, ".tbz2") || ends(&lower, ".tbz") {
        return Some(Format::TarBz2);
    }
    if ends(&lower, ".tar") {
        return Some(Format::Tar);
    }
    if ends(&lower, ".zip") {
        return Some(Format::Zip);
    }
    if ends(&lower, ".7z") {
        return Some(Format::SevenZ);
    }
    None
}

/// An entry as plain values.
pub struct EntryView {
    pub name: Seq<char>,
    pub size: u64,
    pub is_dir: bool,
}

impl View for Entry {
    type V = EntryView;

    open spec fn view(&self) -> EntryView {
        EntryView { name: self.name@, size: self.size, is_dir: self.is_dir }
    }
}

/// The entries of a list as plain values.
pub open spec fn entry_views(v: Seq<Entry>) -> Seq<EntryView> {
    Seq::new(v.len(), |i: int| v[i]@)
}

/// An error as plain values.
pub enum ErrorView {
    Unsupported,
    Encrypted,
    Malformed(Seq<char>),
    Io(Seq<char>),
}

impl View for ArchiveError {
    type V = ErrorView;

    open spec fn view(&self) -> ErrorView {
        match self {
            ArchiveError::Unsupported => ErrorView::Unsupported,
            ArchiveError::Encrypted => ErrorView::Encrypted,
            ArchiveError::Malformed(why) => ErrorView::Malformed(why@),
            ArchiveError::Io(why) => ErrorView::Io(why@),
        }
    }
}

/// A listing as plain values.
pub struct ListingView {
    pub entries: Seq<EntryView>,
    pub truncated: bool,
}

/// A result as plain values.
pub open spec fn outcome(r: Result<ArchiveListing, ArchiveError>) -> Result<
    ListingView,
    ErrorView,
> {
    match r {
        Ok(l) => Ok(ListingView { entries: entry_views(l.entries@), truncated: l.truncated }),
        Err(e) => Err(e@),
    }
}

// ---------------------------------------------------------------------
// zip
// ---------------------------------------------------------------------

/// A seekable reader over bytes in memory.
#[verifier::external_type_specification]
#[verifier::external_body]
#[verifier::reject_recursive_types(T)]
pub struct ExCursor<T>(std::io::Cursor<T>);

/// An open zip archive.
#[verifier::external_type_specification]
#[verifier::external_body]
#[verifier::reject_recursive_types(R)]
pub struct ExZipArchive<R>(zip::ZipArchive<R>);

/// What is wrong with a zip archive.
#[derive(Clone, Debug, PartialEq, Eq)]
pub enum ZipFault {
    Io(String),
    InvalidArchive(String),
    UnsupportedArchive(String),
    FileNotFound,
    /// Any other fault, with its message.
    Other(String),
}

/// A fault of a zip archive as plain values.
pub enum ZipFaultView {
    Io(Seq<char>),
    InvalidArchive(Seq<char>),
    UnsupportedArchive(Seq<char>),
    FileNotFound,
    Other(Seq<char>),
}

impl View for ZipFault {
    type V = ZipFaultView;

    open spec fn view(&self) -> ZipFaultView {
        match self {
            ZipFault::Io(s) => ZipFaultView::Io(s@),
            ZipFault::InvalidArchive(s) => ZipFaultView::InvalidArchive(s@),
            ZipFault::UnsupportedArchive(s) => ZipFaultView::UnsupportedArchive(s@),
            ZipFault::FileNotFound => ZipFaultView::FileNotFound,
            ZipFault::Other(s) => ZipFaultView::Other(s@),
        }
    }
}

/// What a zip archive has at one place.
pub type MemberView = Result<EntryView, ZipFaultView>;

/// An entry or a fault as plain values.
pub open spec fn member_view(m: Result<Entry, ZipFault>) -> MemberView {
    match m {
        Ok(e) => Ok(e@),
        Err(f) => Err(f@),
    }
}

/// What an open zip archive has at each of its places.
pub uninterp spec fn zip_members(archive: zip::ZipArchive<Cursor<Vec<u8>>>) -> Seq<MemberView>;

/// What `zip::ZipArchive::new` makes of bytes: what the archive has at each
/// of its places, or a fault.
pub uninterp spec fn zip_opened(bytes: Seq<u8>) -> Result<Seq<MemberView>, ZipFaultView>;

/// `zip::ZipArchive::new`: reads the directory of an archive in memory. The
/// variants of its error that are not told apart give their message.
#[verifier::external_body]
fn open_zip(bytes: Vec<u8>) -> (r: Result<zip::ZipArchive<Cursor<Vec<u8>>>, ZipFault>)
    ensures
        match r {
            Ok(a) => zip_opened(bytes@) == Ok::<Seq<MemberView>, ZipFaultView>(zip_members(a)),
            Err(f) => zip_opened(bytes@) == Err::<Seq<MemberView>, ZipFaultView>(f@),
        },
{
    zip::ZipArchive::new(Cursor::new(bytes)).map_err(
        |e|
            match e {
                zip::result::ZipError::Io(e) => ZipFault::Io(e.to_string()),
                zip::result::ZipError::InvalidArchive(s) => ZipFault::InvalidArchive(s.to_string()),
                zip::result::ZipError::UnsupportedArchive(s) => ZipFault::UnsupportedArchive(
                    s.to_string(),
                ),
                zip::result::ZipError::FileNotFound => ZipFault::FileNotFound,
                other => ZipFault::Other(other.to_string()),
            },
    )
}

/// `zip::ZipArchive::len`: the number of places.
#[verifier::external_body]
fn zip_len(archive: &zip::ZipArchive<Cursor<Vec<u8>>>) -> (n: usize)
    ensures
        n == zip_members(*archive).len(),
{
    archive.len()
}

/// `zip::ZipArchive::by_index_raw`: the entry at a place, as the central
/// directory describes it, whether or not its content is encrypted. Reading
/// leaves the archive as it is.
#[verifier::external_body]
fn zip_member(archive: &mut zip::ZipArchive<Cursor<Vec<u8>>>, i: usize) -> (r: Result<
    Entry,
    ZipFault,
>)
    requires
        i < zip_members(*old(archive)).len(),
    ensures
        member_view(r) == zip_members(*old(archive))[i as int],
        zip_members(*final(archive)) == zip_members(*old(archive)),
{
    match archive.by_index_raw(i) {
        Ok(e) => Ok(Entry { name: e.name().to_string(), size: e.size(), is_dir: e.is_dir() }),
        Err(zip::result::ZipError::Io(e)) => Err(ZipFault::Io(e.to_string())),
        Err(zip::result::ZipError::InvalidArchive(s)) => Err(ZipFault::InvalidArchive(s.to_string())),
        Err(zip::result::ZipError::UnsupportedArchive(s)) => Err(ZipFault::UnsupportedArchive(s.to_string())),
        Err(zip::result::ZipError::FileNotFound) => Err(ZipFault::FileNotFound),
        Err(other) => Err(ZipFault::Other(other.to_string())),
    }
}

/// What a fault of a zip archive means. A missing password is reported as
/// an unsupported archive.
pub open spec fn zip_error(f: ZipFaultView) -> ErrorView {
    match f {
        ZipFaultView::Io(s) => ErrorView::Io(s),
        ZipFaultView::InvalidArchive(s) => ErrorView::Malformed(s),
        ZipFaultView::UnsupportedArchive(s) => if text::ascii_lowered(s) == text::ascii_lowered(
            "Password required to decrypt file"@,
        ) {
            ErrorView::Encrypted
        } else {
            ErrorView::Malformed(s)
        },
        ZipFaultView::FileNotFound => ErrorView::Malformed("entry not found"@),
        ZipFaultView::Other(s) => ErrorView::Malformed(s),
    }
}

/// What a fault of a zip archive means.
pub fn map_zip_err(fault: ZipFault) -> (r: ArchiveError)
    ensures
        r@ == zip_error(fault@),
{
    match fault {
        ZipFault::Io(s) => ArchiveError::Io(s),
        ZipFault::InvalidArchive(s) => ArchiveError::Malformed(s),
        ZipFault::UnsupportedArchive(s) => {
            let said = text::to_ascii_lower(&text::to_chars(s.as_str()));
            let wanted = text::to_ascii_lower(
                &text::to_chars("Password required to decrypt file"),
            );
            if text::chars_eq(&said, &wanted) {
                ArchiveError::Encrypted
            } else {
                ArchiveError::Malformed(s)
            }
        },
        ZipFault::FileNotFound => ArchiveError::Malformed("entry not found".to_string()),
        ZipFault::Other(s) => ArchiveError::Malformed(s),
    }
}

/// The lesser of two numbers.
pub open spec fn least(a: int, b: int) -> int {
    if a < b {
        a
    } else {
        b
    }
}

/// The entries of the first places, up to a fault.
pub open spec fn good_members(members: Seq<MemberView>, n: int) -> Result<
    Seq<EntryView>,
    ZipFaultView,
>
    decreases n,
{
    if n <= 0 {
        Ok(Seq::empty())
    } else {
        match good_members(members, n - 1) {
            Err(f) => Err(f),
            Ok(before) => match members[n - 1] {
                Ok(e) => Ok(before.push(e)),
                Err(f) => Err(f),
            },
        }
    }
}

/// The listing of a zip archive: its first `cap` entries; a fault at one of
/// them takes its place.
pub open spec fn zip_listing(opened: Result<Seq<MemberView>, ZipFaultView>, cap: usize) -> Result<
    ListingView,
    ErrorView,
> {
    match opened {
        Err(f) => Err(zip_error(f)),
        Ok(members) => match good_members(members, least(members.len() as int, cap as int)) {
            Err(f) => Err(zip_error(f)),
            Ok(entries) => Ok(ListingView { entries, truncated: members.len() > cap }),
        },
    }
}

/// Adds what a zip archive has at one place.
pub fn add_member(entries: &mut Vec<Entry>, member: Result<Entry, ZipFault>) -> (r: Option<
    ArchiveError,
>)
    ensures
        match member {
            Ok(e) => r is None && entry_views(final(entries)@) == entry_views(old(entries)@).push(
                e@,
            ),
            Err(f) => r matches Some(e) && e@ == zip_error(f@) && final(entries)@ == old(
                entries,
            )@,
        },
{
    match member {
        Ok(e) => {
            let ghost before = entries@;
            entries.push(e);
            proof {
                assert(entry_views(entries@) =~= entry_views(before).push(e@));
            }
            None
        },
        Err(f) => Some(map_zip_err(f)),
    }
}

proof fn lemma_fault_stays(members: Seq<MemberView>, i: int, n: int)
    requires
        0 <= i <= n,
        good_members(members, i) is Err,
    ensures
        good_members(members, n) == good_members(members, i),
    decreases n,
{
    if i < n {
        lemma_fault_stays(members, i, n - 1);
    }
}

/// Lists a zip archive.
pub fn list_zip(bytes: Vec<u8>, cap: usize) -> (r: Result<ArchiveListing, ArchiveError>)
    ensures
        outcome(r) == zip_listing(zip_opened(bytes@), cap),
{
    let mut archive = match open_zip(bytes) {
        Ok(a) => a,
        Err(f) => {
            return Err(map_zip_err(f));
        },
    };
    let ghost members = zip_members(archive);
    let total: usize = zip_len(&archive);
    let take: usize = if total < cap {
        total
    } else {
        cap
    };
    let mut entries: Vec<Entry> = Vec::new();
    let mut i: usize = 0;
    proof {
        assert(entry_views(entries@) =~= Seq::<EntryView>::empty());
    }
    while i < take
        invariant
            i <= take,
            take == least(members.len() as int, cap as int),
            members == zip_members(archive),
            zip_opened(bytes@) == Ok::<Seq<MemberView>, ZipFaultView>(members),
            good_members(members, i as int) == Ok::<Seq<EntryView>, ZipFaultView>(
                entry_views(entries@),
            ),
        decreases take - i,
    {
        let member = zip_member(&mut archive, i);
        let ghost place = member_view(member);
        match add_member(&mut entries, member) {
            Some(e) => {
                proof {
                    assert(good_members(members, i + 1) is Err);
                    lemma_fault_stays(members, i + 1, take as int);
                }
                return Err(e);
            },
            None => {},
        }
        i = i + 1;
    }
    Ok(ArchiveListing { entries, truncated: total > take })
}

// ---------------------------------------------------------------------
// tar
// ---------------------------------------------------------------------

/// What a tarball has at one place. `name` is `None` where the path is no
/// path, `size` where it cannot be read.
#[derive(Clone, Debug, PartialEq, Eq)]
pub enum TarItem {
    Member { name: Option<String>, size: Option<u64>, is_dir: bool },
    Fault { why: String },
}

/// What a tarball has at one place, as plain values.
pub enum TarView {
    Member { name: Option<Seq<char>>, size: Option<u64>, is_dir: bool },
    Fault { why: Seq<char> },
}

impl View for TarItem {
    type V = TarView;

    open spec fn view(&self) -> TarView {
        match self {
            TarItem::Member { name, size, is_dir } => TarView::Member {
                name: match name {
                    Some(n) => Some(n@),
                    None => None,
                },
                size: *size,
                is_dir: *is_dir,
            },
            TarItem::Fault { why } => TarView::Fault { why: why@ },
        }
    }
}

/// The items of a list as plain values.
pub open spec fn tar_views(v: Seq<TarItem>) -> Seq<TarView> {
    Seq::new(v.len(), |i: int| v[i]@)
}

/// The first items of a list.
pub open spec fn first_of(all: Seq<TarView>, limit: int) -> Seq<TarView> {
    all.take(least(all.len() as int, limit))
}

/// What reading a tarball gave, as plain values.
pub open spec fn read_view(read: Result<Vec<TarItem>, String>) -> Result<
    Seq<TarView>,
    Seq<char>,
> {
    match read {
        Ok(v) => Ok(tar_views(v@)),
        Err(e) => Err(e@),
    }
}

/// Items that could be read.
pub open spec fn readable(items: Seq<TarView>) -> Result<Seq<TarView>, Seq<char>> {
    Ok(items)
}

/// What a tarball has at each of its places; a fault comes last.
pub uninterp spec fn tar_items(bytes: Seq<u8>) -> Seq<TarView>;

/// What a tarball under gzip has at each of its places; a fault comes last.
pub uninterp spec fn tar_gz_items(bytes: Seq<u8>) -> Seq<TarView>;

/// What a tarball under bzip2 has at each of its places; a fault comes
/// last.
pub uninterp spec fn tar_bz2_items(bytes: Seq<u8>) -> Seq<TarView>;

/// What a tarball under zstd has at each of its places; a fault comes last.
/// The message where decompression cannot begin.
pub uninterp spec fn tar_zst_items(bytes: Seq<u8>) -> Result<Seq<TarView>, Seq<char>>;

/// The bytes that `flate2::read::GzDecoder` yields, up to their end or a
/// fault.
pub uninterp spec fn gunzipped(bytes: Seq<u8>) -> Seq<u8>;

/// The bytes that `bzip2::read::BzDecoder` yields, up to their end or a
/// fault.
pub uninterp spec fn bunzipped(bytes: Seq<u8>) -> Seq<u8>;

/// The bytes that `zstd::stream::read::Decoder` yields, up to their end or a
/// fault.
pub uninterp spec fn unzstd(bytes: Seq<u8>) -> Seq<u8>;

/// `flate2::read::GzDecoder`, read byte by byte up to the end or a fault.
#[verifier::external_body]
fn gunzip(bytes: &[u8]) -> (r: Vec<u8>)
    ensures
        r@ == gunzipped(bytes@),
{
    std::io::Read::bytes(flate2::read::GzDecoder::new(bytes)).map_while(Result::ok).collect()
}

/// `bzip2::read::BzDecoder`, read byte by byte up to the end or a fault.
#[verifier::external_body]
fn bunzip2(bytes: &[u8]) -> (r: Vec<u8>)
    ensures
        r@ == bunzipped(bytes@),
{
    std::io::Read::bytes(bzip2::read::BzDecoder::new(bytes)).map_while(Result::ok).collect()
}

/// `zstd::stream::read::Decoder`, read byte by byte up to the end or a
/// fault; nothing where it cannot begin.
#[verifier::external_body]
fn unpack_zstd(bytes: &[u8]) -> (r: Vec<u8>)
    ensures
        r@ == unzstd(bytes@),
{
    zstd::stream::read::Decoder::new(bytes).map(
        |d| std::io::Read::bytes(d).map_while(Result::ok).collect(),
    ).unwrap_or_default()
}

/// Whether the block `k` of a tarball, of 512 bytes, is where a header can
/// be, of a sparse member whose map goes on in further blocks.
pub open spec fn long_sparse(b: Seq<u8>, k: int) -> bool {
    &&& 0 <= k
    &&& 512 * k + 512 <= b.len()
    &&& b[512 * k + 156] == 83
    &&& b[512 * k + 482] == 1
}

/// Whether the size in the block `k` is written in binary and at least half
/// of what 64 bits hold.
pub open spec fn vast_size(b: Seq<u8>, k: int) -> bool {
    b[512 * k + 124] >= 128 && b[512 * k + 128] >= 128
}

/// The start of a record that gives a size in decimal.
pub open spec fn size_key() -> Seq<u8> {
    seq![32u8, 115u8, 105u8, 122u8, 101u8, 61u8]
}

/// Whether there are nineteen digits at `j`.
pub open spec fn many_digits(b: Seq<u8>, j: int) -> bool {
    j + 19 <= b.len() && forall|t: int| j <= t < j + 19 ==> 48 <= #[trigger] b[t] <= 57
}

/// Whether a record at `i` gives a size of nineteen digits or more.
pub open spec fn vast_record(b: Seq<u8>, i: int) -> bool {
    &&& 0 <= i
    &&& i + 6 <= b.len()
    &&& b.subrange(i, i + 6) == size_key()
    &&& (many_digits(b, i + 6) || (i + 6 < b.len() && b[i + 6] == 43 && many_digits(b, i + 7)))
}

/// Whether the places of a tarball can be counted in 64 bits: no sparse
/// member with a long map has a vast size, by its header or by a record.
pub open spec fn countable(b: Seq<u8>) -> bool {
    forall|k: int|
        #[trigger] long_sparse(b, k) ==> !vast_size(b, k) && forall|i: int|
            !#[trigger] vast_record(b, i)
}

fn digits_at(b: &[u8], j: usize) -> (r: bool)
    requires
        j <= b@.len(),
    ensures
        r == many_digits(b@, j as int),
{
    let n: usize = b.len();
    if n - j < 19 {
        return false;
    }
    let mut t: usize = j;
    while t < j + 19
        invariant
            j <= t <= j + 19,
            j + 19 <= n,
            n == b@.len(),
            forall|u: int| j <= u < t ==> 48 <= #[trigger] b@[u] <= 57,
        decreases j + 19 - t,
    {
        if b[t] < 48 || b[t] > 57 {
            return false;
        }
        t = t + 1;
    }
    true
}

fn record_at(b: &[u8], i: usize) -> (r: bool)
    requires
        i <= b@.len(),
    ensures
        r == vast_record(b@, i as int),
{
    let n: usize = b.len();
    if n - i < 6 {
        return false;
    }
    if !(b[i] == 32 && b[i + 1] == 115 && b[i + 2] == 105 && b[i + 3] == 122 && b[i + 4] == 101
        && b[i + 5] == 61) {
        proof {
            let key = b@.subrange(i as int, i + 6);
            assert(key[0] == b@[i as int] && key[1] == b@[i + 1] && key[2] == b@[i + 2] && key[3]
                == b@[i + 3] && key[4] == b@[i + 4] && key[5] == b@[i + 5]);
            assert(key != size_key());
        }
        return false;
    }
    proof {
        assert(b@.subrange(i as int, i + 6) =~= size_key());
    }
    digits_at(b, i + 6) || (i + 6 < n && b[i + 6] == 43 && digits_at(b, i + 7))
}

/// Whether the places of a tarball can be counted in 64 bits.
fn is_countable(b: &[u8]) -> (r: bool)
    ensures
        r == countable(b@),
{
    let n: usize = b.len();
    let mut sparse = false;
    let ghost mut found: int = 0;
    let mut k: usize = 0;
    while k < n / 512
        invariant
            n == b@.len(),
            k <= n / 512,
            sparse ==> long_sparse(b@, found),
            !sparse ==> forall|j: int| 0 <= j < k ==> !#[trigger] long_sparse(b@, j),
            forall|j: int| 0 <= j < k && #[trigger] long_sparse(b@, j) ==> !vast_size(b@, j),
        decreases n / 512 - k,
    {
        let at: usize = k * 512;
        if b[at + 156] == 83 && b[at + 482] == 1 {
            proof {
                assert(long_sparse(b@, k as int));
                found = k as int;
            }
            if b[at + 124] >= 128 && b[at + 128] >= 128 {
                proof {
                    assert(vast_size(b@, k as int));
                }
                return false;
            }
            sparse = true;
        }
        k = k + 1;
    }
    if !sparse {
        return true;
    }
    let mut i: usize = 0;
    while i < n
        invariant
            n == b@.len(),
            i <= n,
            long_sparse(b@, found),
            forall|j: int| 0 <= j < i ==> !#[trigger] vast_record(b@, j),
        decreases n - i,
    {
        if record_at(b, i) {
            proof {
                assert(vast_record(b@, i as int));
            }
            return false;
        }
        i = i + 1;
    }
    true
}

/// `tar::Archive::entries`: the first `limit` entries of a tarball, read
/// one by one. It adds up places without looking at overflow where the map
/// of a sparse member is long. No list holds as many as `usize::MAX` items, whose bytes
/// would be more than `isize::MAX`.
#[verifier::external_body]
fn read_tar(bytes: &[u8], limit: usize) -> (r: Result<Vec<TarItem>, String>)
    requires
        countable(bytes@),
    ensures
        read_view(r) == readable(first_of(tar_items(bytes@), limit as int)),
        r matches Ok(v) ==> v@.len() < usize::MAX,
{
    let mut archive = tar::Archive::new(bytes);
    let entries = archive.entries().map_err(|e| e.to_string())?;
    Ok(entries.take(limit).map(|item| match item {
        Ok(e) => TarItem::Member {
            name: e.path().ok().map(|p| p.to_string_lossy().into_owned()),
            size: e.header().size().ok(),
            is_dir: e.header().entry_type().is_dir(),
        },
        Err(e) => TarItem::Fault { why: e.to_string() },
    }).collect())
}

/// `tar::Archive::entries` over `flate2::read::GzDecoder`: the first
/// `limit` entries of a tarball, decompressed as they are read, fewer than
/// `usize::MAX`.
#[verifier::external_body]
fn read_tar_gz(bytes: &[u8], limit: usize) -> (r: Result<Vec<TarItem>, String>)
    requires
        countable(gunzipped(bytes@)),
    ensures
        read_view(r) == readable(first_of(tar_gz_items(bytes@), limit as int)),
        r matches Ok(v) ==> v@.len() < usize::MAX,
{
    let mut archive = tar::Archive::new(flate2::read::GzDecoder::new(bytes));
    let entries = archive.entries().map_err(|e| e.to_string())?;
    Ok(entries.take(limit).map(|item| match item {
        Ok(e) => TarItem::Member {
            name: e.path().ok().map(|p| p.to_string_lossy().into_owned()),
            size: e.header().size().ok(),
            is_dir: e.header().entry_type().is_dir(),
        },
        Err(e) => TarItem::Fault { why: e.to_string() },
    }).collect())
}

/// `tar::Archive::entries` over `bzip2::read::BzDecoder`: the first `limit`
/// entries of a tarball, decompressed as they are read, fewer than
/// `usize::MAX`.
#[verifier::external_body]
fn read_tar_bz2(bytes: &[u8], limit: usize) -> (r: Result<Vec<TarItem>, String>)
    requires
        countable(bunzipped(bytes@)),
    ensures
        read_view(r) == readable(first_of(tar_bz2_items(bytes@), limit as int)),
        r matches Ok(v) ==> v@.len() < usize::MAX,
{
    let mut archive = tar::Archive::new(bzip2::read::BzDecoder::new(bytes));
    let entries = archive.entries().map_err(|e| e.to_string())?;
    Ok(entries.take(limit).map(|item| match item {
        Ok(e) => TarItem::Member {
            name: e.path().ok().map(|p| p.to_string_lossy().into_owned()),
            size: e.header().size().ok(),
            is_dir: e.header().entry_type().is_dir(),
        },
        Err(e) => TarItem::Fault { why: e.to_string() },
    }).collect())
}

/// `tar::Archive::entries` over `zstd::stream::read::Decoder`: the first
/// `limit` entries of a tarball, decompressed as they are read, fewer than
/// `usize::MAX`.
#[verifier::external_body]
fn read_tar_zst(bytes: &[u8], limit: usize) -> (r: Result<Vec<TarItem>, String>)
    requires
        countable(unzstd(bytes@)),
    ensures
        read_view(r) == (match tar_zst_items(bytes@) {
            Ok(all) => Ok(first_of(all, limit as int)),
            Err(why) => Err(why),
        }),
        r matches Ok(v) ==> v@.len() < usize::MAX,
{
    let decoder = zstd::stream::read::Decoder::new(bytes).map_err(|e| e.to_string())?;
    let mut archive = tar::Archive::new(decoder);
    let entries = archive.entries().map_err(|e| e.to_string())?;
    Ok(entries.take(limit).map(|item| match item {
        Ok(e) => TarItem::Member {
            name: e.path().ok().map(|p| p.to_string_lossy().into_owned()),
            size: e.header().size().ok(),
            is_dir: e.header().entry_type().is_dir(),
        },
        Err(e) => TarItem::Fault { why: e.to_string() },
    }).collect())
}

/// The entry that stands for an item of a tarball.
pub open spec fn tar_entry(name: Option<Seq<char>>, size: Option<u64>, is_dir: bool) -> EntryView {
    EntryView {
        name: match name {
            Some(n) => n,
            None => "<invalid path>"@,
        },
        size: match size {
            Some(n) => n,
            None => 0,
        },
        is_dir,
    }
}

/// The entries of the first items, up to a fault.
pub open spec fn good_items(items: Seq<TarView>, n: int) -> Result<Seq<EntryView>, Seq<char>>
    decreases n,
{
    if n <= 0 {
        Ok(Seq::empty())
    } else {
        match good_items(items, n - 1) {
            Err(why) => Err(why),
            Ok(before) => match items[n - 1] {
                TarView::Member { name, size, is_dir } => Ok(
                    before.push(tar_entry(name, size, is_dir)),
                ),
                TarView::Fault { why } => Err(why),
            },
        }
    }
}

/// The listing of a tarball: its first `cap` entries. A fault among them,
/// or right behind them, takes its place.
pub open spec fn tar_listing(items: Seq<TarView>, cap: usize) -> Result<ListingView, ErrorView> {
    match good_items(items, least(items.len() as int, cap + 1)) {
        Err(why) => Err(ErrorView::Malformed(why)),
        Ok(entries) => Ok(
            ListingView {
                entries: entries.take(least(entries.len() as int, cap as int)),
                truncated: items.len() > cap,
            },
        ),
    }
}

proof fn lemma_tar_fault_stays(items: Seq<TarView>, i: int, n: int)
    requires
        0 <= i <= n,
        good_items(items, i) is Err,
    ensures
        good_items(items, n) == good_items(items, i),
    decreases n,
{
    if i < n {
        lemma_tar_fault_stays(items, i, n - 1);
    }
}

proof fn lemma_tar_good_len(items: Seq<TarView>, n: int)
    requires
        0 <= n,
    ensures
        good_items(items, n) matches Ok(v) ==> v.len() == n,
    decreases n,
{
    if n > 0 {
        lemma_tar_good_len(items, n - 1);
    }
}

proof fn lemma_good_prefix(items: Seq<TarView>, k: int, n: int)
    requires
        0 <= k <= n <= items.len(),
    ensures
        good_items(items.take(k), k) == good_items(items, k),
    decreases k,
{
    if k > 0 {
        lemma_good_prefix(items, k - 1, n);
        assert(items.take(k).take(k - 1) =~= items.take(k - 1));
        lemma_good_prefix(items.take(k), k - 1, k);
    }
}

/// Lists the first items of a tarball; one more than `cap`, if there is
/// one, tells that the listing is cut short.
pub fn take_tar(items: Vec<TarItem>, cap: usize) -> (r: Result<ArchiveListing, ArchiveError>)
    ensures
        outcome(r) == tar_listing(tar_views(items@), cap),
{
    let ghost views = tar_views(items@);
    let ghost all = items@;
    let limit: usize = if items.len() <= cap {
        items.len()
    } else {
        cap + 1
    };
    let total: usize = items.len();
    let mut entries: Vec<Entry> = Vec::new();
    let mut truncated = false;
    let mut i: usize = 0;
    proof {
        assert(entry_views(entries@) =~= Seq::<EntryView>::empty());
    }
    while i < limit
        invariant
            i <= limit,
            limit == least(all.len() as int, cap + 1),
            total == all.len(),
            items@ == all,
            views == tar_views(all),
            entries@.len() == least(i as int, cap as int),
            truncated == (i > cap),
            good_items(views, i as int) matches Ok(v) && v.len() == i && entry_views(entries@)
                == v.take(entries@.len() as int),
        decreases limit - i,
    {
        let ghost before = entries@;
        proof {
            assert(views[i as int] == items@[i as int]@);
            lemma_tar_good_len(views, i + 1);
        }
        match &items[i] {
            TarItem::Fault { why } => {
                proof {
                    assert(good_items(views, i + 1) is Err);
                    lemma_tar_fault_stays(views, i + 1, limit as int);
                }
                return Err(ArchiveError::Malformed(why.clone()));
            },
            TarItem::Member { name, size, is_dir } => {
                if entries.len() >= cap {
                    truncated = true;
                } else {
                    let name = match name {
                        Some(n) => n.clone(),
                        None => "<invalid path>".to_string(),
                    };
                    let size: u64 = match size {
                        Some(n) => *n,
                        None => 0,
                    };
                    let entry = Entry { name, size, is_dir: *is_dir };
                    entries.push(entry);
                    proof {
                        assert(entry_views(entries@) =~= entry_views(before).push(entry@));
                    }
                }
                proof {
                    let v0 = good_items(views, i as int)->Ok_0;
                    let v1 = good_items(views, i + 1)->Ok_0;
                    assert(v1.drop_last() =~= v0);
                    assert(entry_views(entries@) =~= v1.take(entries@.len() as int));
                }
            },
        }
        i = i + 1;
    }
    Ok(ArchiveListing { entries, truncated })
}

/// The listing of what reading a tarball gave.
pub open spec fn tar_outcome(read: Result<Seq<TarView>, Seq<char>>, cap: usize) -> Result<
    ListingView,
    ErrorView,
> {
    match read {
        Ok(items) => tar_listing(items, cap),
        Err(why) => Err(ErrorView::Malformed(why)),
    }
}

/// The listing of what reading a tarball gave.
pub fn list_tar(read: Result<Vec<TarItem>, String>, cap: usize) -> (r: Result<
    ArchiveListing,
    ArchiveError,
>)
    ensures
        outcome(r) == tar_outcome(read_view(read), cap),
{
    match read {
        Ok(items) => take_tar(items, cap),
        Err(why) => Err(ArchiveError::Malformed(why)),
    }
}

/// Reading no more items than the listing looks at makes no difference.
proof fn lemma_enough(all: Seq<TarView>, limit: int, cap: usize)
    requires
        limit >= least(all.len() as int, cap + 1),
        limit >= 0,
    ensures
        tar_listing(first_of(all, limit), cap) == tar_listing(all, cap),
{
    let n = least(all.len() as int, limit);
    let part = all.take(n);
    let m = least(all.len() as int, cap + 1);
    assert(least(part.len() as int, cap + 1) == m);
    lemma_good_prefix(all, m, all.len() as int);
    assert(part.take(m) =~= all.take(m));
    lemma_good_prefix(part, m, part.len() as int);
}

// ---------------------------------------------------------------------
// 7z
// ---------------------------------------------------------------------

/// What is wrong with a 7z archive.
#[derive(Clone, Debug, PartialEq, Eq)]
pub enum SevenZFault {
    PasswordRequired,
    MaybeBadPassword,
    Io(String),
    /// Any other fault, with its message.
    Other(String),
}

/// A fault of a 7z archive as plain values.
pub enum SevenZFaultView {
    PasswordRequired,
    MaybeBadPassword,
    Io(Seq<char>),
    Other(Seq<char>),
}

impl View for SevenZFault {
    type V = SevenZFaultView;

    open spec fn view(&self) -> SevenZFaultView {
        match self {
            SevenZFault::PasswordRequired => SevenZFaultView::PasswordRequired,
            SevenZFault::MaybeBadPassword => SevenZFaultView::MaybeBadPassword,
            SevenZFault::Io(s) => SevenZFaultView::Io(s@),
            SevenZFault::Other(s) => SevenZFaultView::Other(s@),
        }
    }
}

/// What `sevenz_rust2::Archive::read` makes of bytes, without a password:
/// the entries, or a fault.
pub uninterp spec fn seven_z_entries(bytes: Seq<u8>) -> Result<Seq<EntryView>, SevenZFaultView>;

/// What reading a 7z archive gave, as plain values.
pub open spec fn seven_z_view(read: Result<Vec<Entry>, SevenZFault>) -> Result<
    Seq<EntryView>,
    SevenZFaultView,
> {
    match read {
        Ok(v) => Ok(entry_views(v@)),
        Err(f) => Err(f@),
    }
}

/// `sevenz_rust2::Archive::read`: the entries of a 7z archive, without a
/// password. The variants of its error that are not told apart give their
/// message.
#[verifier::external_body]
fn read_7z(bytes: Vec<u8>) -> (r: Result<Vec<Entry>, SevenZFault>)
    ensures
        seven_z_view(r) == seven_z_entries(bytes@),
{
    match sevenz_rust2::Archive::read(&mut Cursor::new(bytes), &sevenz_rust2::Password::empty()) {
        Ok(a) => Ok(a.files.iter().map(|e| Entry {
            name: e.name().to_string(),
            size: e.size(),
            is_dir: e.is_directory(),
        }).collect()),
        Err(sevenz_rust2::Error::PasswordRequired) => Err(SevenZFault::PasswordRequired),
        Err(sevenz_rust2::Error::MaybeBadPassword(_)) => Err(SevenZFault::MaybeBadPassword),
        Err(sevenz_rust2::Error::Io(e, _)) => Err(SevenZFault::Io(e.to_string())),
        Err(other) => Err(SevenZFault::Other(other.to_string())),
    }
}

/// What a fault of a 7z archive means.
pub open spec fn seven_z_error(f: SevenZFaultView) -> ErrorView {
    match f {
        SevenZFaultView::PasswordRequired => ErrorView::Encrypted,
        SevenZFaultView::MaybeBadPassword => ErrorView::Encrypted,
        SevenZFaultView::Io(s) => ErrorView::Io(s),
        SevenZFaultView::Other(s) => ErrorView::Malformed(s),
    }
}

/// What a fault of a 7z archive means.
pub fn map_7z_err(fault: SevenZFault) -> (r: ArchiveError)
    ensures
        r@ == seven_z_error(fault@),
{
    match fault {
        SevenZFault::PasswordRequired => ArchiveError::Encrypted,
        SevenZFault::MaybeBadPassword => ArchiveError::Encrypted,
        SevenZFault::Io(s) => ArchiveError::Io(s),
        SevenZFault::Other(s) => ArchiveError::Malformed(s),
    }
}

/// The listing of what reading a 7z archive gave: its first `cap` entries.
pub open spec fn seven_z_listing(
    read: Result<Seq<EntryView>, SevenZFaultView>,
    cap: usize,
) -> Result<ListingView, ErrorView> {
    match read {
        Err(f) => Err(seven_z_error(f)),
        Ok(all) => Ok(
            ListingView {
                entries: all.take(least(all.len() as int, cap as int)),
                truncated: all.len() > cap,
            },
        ),
    }
}

/// The listing of what reading a 7z archive gave.
pub fn list_7z(read: Result<Vec<Entry>, SevenZFault>, cap: usize) -> (r: Result<
    ArchiveListing,
    ArchiveError,
>)
    ensures
        outcome(r) == seven_z_listing(seven_z_view(read), cap),
{
    match read {
        Err(f) => Err(map_7z_err(f)),
        Ok(all) => {
            let ghost whole = all@;
            let total: usize = all.len();
            let mut entries = all;
            if total > cap {
                entries.truncate(cap);
            }
            proof {
                assert(entry_views(entries@) =~= entry_views(whole).take(
                    least(whole.len() as int, cap as int),
                ));
            }
            Ok(ArchiveListing { entries, truncated: total > cap })
        },
    }
}

// ---------------------------------------------------------------------
// All kinds
// ---------------------------------------------------------------------

/// The content of a file, or the message why it cannot be read.
pub open spec fn file_view(file: Result<Vec<u8>, String>) -> Result<Seq<u8>, Seq<char>> {
    match file {
        Ok(b) => Ok(b@),
        Err(e) => Err(e@),
    }
}

/// The listing of a tarball of these bytes, unless its places cannot be
/// counted.
pub open spec fn counted(
    tarball: Seq<u8>,
    listing: Result<ListingView, ErrorView>,
) -> Result<ListingView, ErrorView> {
    if countable(tarball) {
        listing
    } else {
        Err(ErrorView::Malformed("size overflow"@))
    }
}

fn uncountable() -> (r: Result<ArchiveListing, ArchiveError>)
    ensures
        outcome(r) == Err::<ListingView, ErrorView>(ErrorView::Malformed("size overflow"@)),
{
    Err(ArchiveError::Malformed("size overflow".to_string()))
}

/// The listing of an archive.
pub open spec fn listing_of(
    path: Seq<char>,
    file: Result<Seq<u8>, Seq<char>>,
    cap: usize,
) -> Result<ListingView, ErrorView> {
    match (format_of(path), file) {
        (None, _) => Err(ErrorView::Unsupported),
        (Some(_), Err(why)) => Err(ErrorView::Io(why)),
        (Some(Format::Zip), Ok(b)) => zip_listing(zip_opened(b), cap),
        (Some(Format::Tar), Ok(b)) => counted(b, tar_listing(tar_items(b), cap)),
        (Some(Format::TarGz), Ok(b)) => counted(gunzipped(b), tar_listing(tar_gz_items(b), cap)),
        (Some(Format::TarZst), Ok(b)) => counted(unzstd(b), tar_outcome(tar_zst_items(b), cap)),
        (Some(Format::TarBz2), Ok(b)) => counted(bunzipped(b), tar_listing(tar_bz2_items(b), cap)),
        (Some(Format::SevenZ), Ok(b)) => seven_z_listing(seven_z_entries(b), cap),
    }
}

/// Lists at most `cap` entries of the archive at `path`, whose content is
/// `file`.
pub fn list_entries(path: &str, file: Result<Vec<u8>, String>, cap: usize) -> (r: Result<
    ArchiveListing,
    ArchiveError,
>)
    ensures
        outcome(r) == listing_of(path@, file_view(file), cap),
{
    let format = match detect_format(path) {
        Some(f) => f,
        None => {
            return Err(ArchiveError::Unsupported);
        },
    };
    let bytes = match file {
        Ok(b) => b,
        Err(why) => {
            return Err(ArchiveError::Io(why));
        },
    };
    let limit: usize = if cap < usize::MAX {
        cap + 1
    } else {
        cap
    };
    match format {
        Format::Zip => list_zip(bytes, cap),
        Format::Tar => {
            if !is_countable(&bytes) {
                return uncountable();
            }
            let read = read_tar(&bytes, limit);
            proof {
                lemma_limit(tar_items(bytes@), read_view(read), limit, cap);
            }
            list_tar(read, cap)
        },
        Format::TarGz => {
            if !is_countable(&gunzip(&bytes)) {
                return uncountable();
            }
            let read = read_tar_gz(&bytes, limit);
            proof {
                lemma_limit(tar_gz_items(bytes@), read_view(read), limit, cap);
            }
            list_tar(read, cap)
        },
        Format::TarZst => {
            if !is_countable(&unpack_zstd(&bytes)) {
                return uncountable();
            }
            let read = read_tar_zst(&bytes, limit);
            proof {
                match tar_zst_items(bytes@) {
                    Ok(all) => lemma_limit(all, read_view(read), limit, cap),
                    Err(_) => {},
                }
            }
            list_tar(read, cap)
        },
        Format::TarBz2 => {
            if !is_countable(&bunzip2(&bytes)) {
                return uncountable();
            }
            let read = read_tar_bz2(&bytes, limit);
            proof {
                lemma_limit(tar_bz2_items(bytes@), read_view(read), limit, cap);
            }
            list_tar(read, cap)
        },
        Format::SevenZ => list_7z(read_7z(bytes), cap),
    }
}

proof fn lemma_limit(
    all: Seq<TarView>,
    read: Result<Seq<TarView>, Seq<char>>,
    limit: usize,
    cap: usize,
)
    requires
        read == Ok::<Seq<TarView>, Seq<char>>(first_of(all, limit as int)),
        limit == cap + 1 || (limit == cap && cap == usize::MAX && first_of(all, limit as int).len()
            < usize::MAX),
    ensures
        tar_outcome(read, cap) == tar_listing(all, cap),
{
    lemma_enough(all, limit as int, cap);
}

// ---------------------------------------------------------------------
// The preview
// ---------------------------------------------------------------------

/// Shows the entries of archives.
pub struct ArchivePreview;

/// How well archives suit a hit: folders do not, whatever their names.
pub open spec fn score(hit: Hit) -> u32 {
    if hits::labelled_folder(hit) {
        0
    } else {
        match hits::action_path(hit.action) {
            Some(p) if format_of(p) is Some => 80,
            _ => 0,
        }
    }
}

impl ArchivePreview {
    /// The name of the preview.
    pub fn id(&self) -> (r: &'static str)
        ensures
            r@ == "archive"@,
    {
        "archive"
    }

    /// How well the preview suits a hit.
    pub fn match_score(&self, hit: &Hit) -> (r: u32)
        ensures
            r == score(*hit),
    {
        if hits::is_folder(hit) {
            return 0;
        }
        match hits::file_path(hit) {
            Some(path) => match detect_format(path.as_str()) {
                Some(_) => 80,
                None => 0,
            },
            None => 0,
        }
    }

    /// How the window is sized.
    pub fn sizing(&self) -> (r: SizingPreference)
        ensures
            r == SizingPreference::OwnsScroll,
    {
        SizingPreference::OwnsScroll
    }
}

/// The largest archive that is listed, in bytes; zero means any.
pub fn preview_limit(max_file_size_mb: u64) -> (r: u64)
    ensures
        r == (if max_file_size_mb * 1048576 > u64::MAX {
            u64::MAX as int
        } else {
            max_file_size_mb * 1048576
        }),
{
    match max_file_size_mb.checked_mul(1048576) {
        Some(n) => n,
        None => u64::MAX,
    }
}

/// Whether an archive is too large to be listed.
pub open spec fn over_limit(max_bytes: u64, size: Option<u64>) -> bool {
    max_bytes > 0 && (size matches Some(n) && n > max_bytes)
}

/// The message for an archive that is too large.
pub open spec fn over_limit_text(max_bytes: u64) -> Seq<char> {
    "archive exceeds the "@ + text::decimal((max_bytes / 1048576) as nat) + " MiB preview limit"@
}

/// The error for an archive that is too large. `size` is its size, where it
/// is known.
pub fn check_size(max_bytes: u64, size: Option<u64>) -> (r: Option<ArchiveError>)
    ensures
        match r {
            Some(e) => over_limit(max_bytes, size) && e@ == ErrorView::Io(
                over_limit_text(max_bytes),
            ),
            None => !over_limit(max_bytes, size),
        },
{
    match size {
        Some(n) => {
            if max_bytes > 0 && n > max_bytes {
                let mut s = "archive exceeds the ".to_string();
                s.push_str(text::decimal_u64(max_bytes / 1048576).as_str());
                s.push_str(" MiB preview limit");
                Some(ArchiveError::Io(s))
            } else {
                None
            }
        },
        None => None,
    }
}

/// Lists the archive at `path`, unless it is too large.
pub fn enumerate(
    path: &str,
    max_bytes: u64,
    size: Option<u64>,
    file: Result<Vec<u8>, String>,
) -> (r: Result<ArchiveListing, ArchiveError>)
    ensures
        outcome(r) == (if over_limit(max_bytes, size) {
            Err::<ListingView, ErrorView>(ErrorView::Io(over_limit_text(max_bytes)))
        } else {
            listing_of(path@, file_view(file), ENTRY_CAP)
        }),
{
    match check_size(max_bytes, size) {
        Some(e) => Err(e),
        None => list_entries(path, file, ENTRY_CAP),
    }
}

/// The row for an entry.
pub open spec fn entry_row(e: EntryView) -> hits::RowView {
    hits::RowView::Entry {
        icon: if e.is_dir {
            "folder"@
        } else {
            "text-x-generic"@
        },
        name: e.name,
        size: if e.is_dir {
            None
        } else {
            Some(sizes::binary_size(e.size as nat))
        },
    }
}

/// The rows for the first `n` entries.
pub open spec fn entry_rows(entries: Seq<EntryView>, n: int) -> Seq<hits::RowView> {
    Seq::new(n as nat, |i: int| entry_row(entries[i]))
}

/// The rows for a listing.
pub open spec fn listing_rows(r: Result<ListingView, ErrorView>) -> Seq<hits::RowView> {
    match r {
        Err(e) => seq![hits::RowView::Status(error_text(e))],
        Ok(l) => if l.entries.len() == 0 {
            seq![hits::RowView::Status("Archive is empty"@)]
        } else if l.truncated {
            entry_rows(l.entries, l.entries.len() as int).push(
                hits::RowView::Status(
                    "… listing truncated at "@ + text::decimal(ENTRY_CAP as nat) + " entries"@,
                ),
            )
        } else {
            entry_rows(l.entries, l.entries.len() as int)
        },
    }
}

/// The message of an error.
pub open spec fn error_text(e: ErrorView) -> Seq<char> {
    match e {
        ErrorView::Unsupported => "unsupported archive format"@,
        ErrorView::Encrypted => "encrypted archive: cannot list without a password"@,
        ErrorView::Malformed(why) => "malformed archive: "@ + why,
        ErrorView::Io(why) => "cannot read archive: "@ + why,
    }
}

/// The rows for a listing.
pub fn populate(result: Result<ArchiveListing, ArchiveError>) -> (r: Vec<Row>)
    ensures
        hits::row_views(r@) == listing_rows(outcome(result)),
{
    let mut rows: Vec<Row> = Vec::new();
    match result {
        Err(e) => {
            rows.push(Row::Status(e.to_text()));
            proof {
                assert(hits::row_views(rows@) =~= seq![hits::RowView::Status(error_text(e@))]);
            }
        },
        Ok(listing) => {
            if listing.entries.len() == 0 {
                rows.push(Row::Status("Archive is empty".to_string()));
                proof {
                    assert(hits::row_views(rows@) =~= seq![hits::RowView::Status("Archive is empty"@)]);
                }
                return rows;
            }
            let ghost all = entry_views(listing.entries@);
            let mut i: usize = 0;
            proof {
                assert(hits::row_views(rows@) =~= entry_rows(all, 0));
            }
            while i < listing.entries.len()
                invariant
                    i <= listing.entries@.len(),
                    all == entry_views(listing.entries@),
                    hits::row_views(rows@) == entry_rows(all, i as int),
                decreases listing.entries@.len() - i,
            {
                let e = &listing.entries[i];
                let ghost before = rows@;
                let icon = if e.is_dir {
                    "folder".to_string()
                } else {
                    "text-x-generic".to_string()
                };
                let size = if e.is_dir {
                    None
                } else {
                    Some(sizes::human_bytes(e.size))
                };
                let row = Row::Entry { icon, name: e.name.clone(), size };
                rows.push(row);
                proof {
                    assert(all[i as int] == e@);
                    assert(row@ == entry_row(e@));
                    assert(hits::row_views(rows@) =~= hits::row_views(before).push(row@));
                    assert(hits::row_views(rows@) =~= entry_rows(all, i + 1));
                }
                i = i + 1;
            }
            if listing.truncated {
                let ghost before = rows@;
                let mut s = "… listing truncated at ".to_string();
                s.push_str(text::decimal_u64(ENTRY_CAP as u64).as_str());
                s.push_str(" entries");
                rows.push(Row::Status(s));
                proof {
                    assert(hits::row_views(rows@) =~= hits::row_views(before).push(
                        hits::RowView::Status(s@),
                    ));
                }
            }
        },
    }
    rows
}

/// Law: a listing never has more entries than were asked for, and says so
/// when there are more.
pub proof fn law_cap_is_kept(path: Seq<char>, file: Result<Seq<u8>, Seq<char>>, cap: usize)
    ensures
        listing_of(path, file, cap) matches Ok(l) ==> {
            &&& l.entries.len() <= cap
            &&& l.truncated ==> l.entries.len() == cap
        },
{
    match (format_of(path), file) {
        (Some(Format::Zip), Ok(b)) => {
            match zip_opened(b) {
                Ok(m) => lemma_good_len(m, least(m.len() as int, cap as int)),
                Err(_) => {},
            }
        },
        (Some(Format::Tar), Ok(b)) => lemma_tar_cap(tar_items(b), cap),
        (Some(Format::TarGz), Ok(b)) => lemma_tar_cap(tar_gz_items(b), cap),
        (Some(Format::TarZst), Ok(b)) => {
            match tar_zst_items(b) {
                Ok(items) => lemma_tar_cap(items, cap),
                Err(_) => {},
            }
        },
        (Some(Format::TarBz2), Ok(b)) => lemma_tar_cap(tar_bz2_items(b), cap),
        _ => {},
    }
}

proof fn lemma_good_len(members: Seq<MemberView>, n: int)
    requires
        0 <= n,
    ensures
        good_members(members, n) matches Ok(v) ==> v.len() == n,
    decreases n,
{
    if n > 0 {
        lemma_good_len(members, n - 1);
    }
}

proof fn lemma_tar_cap(items: Seq<TarView>, cap: usize)
    ensures
        tar_listing(items, cap) matches Ok(l) ==> l.entries.len() == least(
            items.len() as int,
            cap as int,
        ),
{
    lemma_tar_good_len(items, least(items.len() as int, cap + 1));
}

/// Law: the archives that are previewed are those that can be listed.
pub proof fn law_scored_archives_are_supported(hit: Hit)
    ensures
        score(hit) > 0 ==> hits::action_path(hit.action) is Some && format_of(
            hits::action_path(hit.action)->0,
        ) is Some,
{
}

/// The entries of the first places are those that stand there; a fault is
/// that of the first place that has one.
proof fn lemma_good_members(members: Seq<MemberView>, n: int)
    requires
        0 <= n <= members.len(),
    ensures
        good_members(members, n) matches Ok(entries) ==> entries.len() == n && forall|i: int|
            0 <= i < n ==> members[i] == Ok::<EntryView, ZipFaultView>(#[trigger] entries[i]),
        good_members(members, n) matches Err(f) ==> exists|k: int|
            0 <= k < n && #[trigger] members[k] == Err::<EntryView, ZipFaultView>(f),
    decreases n,
{
    if n > 0 {
        lemma_good_members(members, n - 1);
        if let Err(f) = members[n - 1] {
            assert(members[n - 1] == Err::<EntryView, ZipFaultView>(f));
        }
    }
}

/// Law: a zip archive is listed by what stands in it: each of its first
/// `cap` places gives its entry, more of them are told of, and only a fault
/// at one of them is reported in their stead.
pub proof fn law_a_zip_is_listed_by_its_members(members: Seq<MemberView>, cap: usize)
    ensures
        zip_listing(Ok(members), cap) matches Ok(l) ==> {
            &&& l.truncated <==> members.len() > cap
            &&& !l.truncated ==> l.entries.len() == members.len()
            &&& l.truncated ==> l.entries.len() == cap
            &&& forall|i: int|
                0 <= i < l.entries.len() ==> members[i] == Ok::<EntryView, ZipFaultView>(
                    #[trigger] l.entries[i],
                )
        },
        (forall|i: int| 0 <= i < members.len() && i < cap ==> (#[trigger] members[i]) is Ok)
            ==> zip_listing(Ok(members), cap) is Ok,
{
    lemma_good_members(members, least(members.len() as int, cap as int));
}

/// The entries of the first items are those that stand there; a fault is
/// the first one.
proof fn lemma_good_items(items: Seq<TarView>, n: int)
    requires
        0 <= n <= items.len(),
    ensures
        good_items(items, n) matches Ok(entries) ==> entries.len() == n && forall|i: int|
            0 <= i < n ==> stands_for(#[trigger] entries[i], items[i]),
        good_items(items, n) matches Err(why) ==> exists|k: int|
            0 <= k < n && #[trigger] items[k] == (TarView::Fault { why }),
    decreases n,
{
    if n > 0 {
        lemma_good_items(items, n - 1);
        if let TarView::Fault { why } = items[n - 1] {
            assert(items[n - 1] == (TarView::Fault { why }));
        }
    }
}

/// Whether an entry stands for an item of a tarball: it has its name and
/// its size, as far as they can be read, and is a directory where it is one.
pub open spec fn stands_for(e: EntryView, item: TarView) -> bool {
    item matches TarView::Member { name, size, is_dir } && {
        &&& name matches Some(n) ==> e.name == n
        &&& size matches Some(n) ==> e.size == n
        &&& size is None ==> e.size == 0
        &&& e.is_dir == is_dir
    }
}

/// Law: a tarball is listed by what stands in it: each of its first `cap`
/// items gives its entry, more of them are told of, and only a fault among
/// them or right behind them is reported in their stead.
pub proof fn law_a_tarball_is_listed_by_its_items(items: Seq<TarView>, cap: usize)
    ensures
        tar_listing(items, cap) matches Ok(l) ==> {
            &&& l.truncated <==> items.len() > cap
            &&& !l.truncated ==> l.entries.len() == items.len()
            &&& l.truncated ==> l.entries.len() == cap
            &&& forall|i: int|
                0 <= i < l.entries.len() ==> stands_for(#[trigger] l.entries[i], items[i])
        },
        tar_listing(items, cap) matches Err(e) ==> (e matches ErrorView::Malformed(why)
            && items.contains(TarView::Fault { why })),
        (forall|i: int| 0 <= i < items.len() && i <= cap ==> (#[trigger] items[i]) is Member)
            ==> tar_listing(items, cap) is Ok,
{
    lemma_good_items(items, least(items.len() as int, cap + 1));
}

/// Law: a 7z archive is listed by its entries, of which the first `cap` are
/// shown.
pub proof fn law_a_7z_is_listed_by_its_entries(all: Seq<EntryView>, cap: usize)
    ensures
        seven_z_listing(Ok(all), cap) matches Ok(l) && {
            &&& l.truncated <==> all.len() > cap
            &&& !l.truncated ==> l.entries.len() == all.len()
            &&& l.truncated ==> l.entries.len() == cap
            &&& forall|i: int| 0 <= i < l.entries.len() ==> #[trigger] l.entries[i] == all[i]
        },
{
}

/// Law: a missing password is told apart from other faults, and those are
/// reported with their own words.
pub proof fn law_faults_are_told_apart(why: Seq<char>)
    ensures
        zip_error(ZipFaultView::UnsupportedArchive("Password required to decrypt file"@))
            is Encrypted,
        zip_error(ZipFaultView::Io(why)) == ErrorView::Io(why),
        zip_error(ZipFaultView::InvalidArchive(why)) == ErrorView::Malformed(why),
        zip_error(ZipFaultView::Other(why)) == ErrorView::Malformed(why),
        zip_error(ZipFaultView::FileNotFound) is Malformed,
        text::ascii_lowered(why) != text::ascii_lowered("Password required to decrypt file"@)
            ==> zip_error(ZipFaultView::UnsupportedArchive(why)) == ErrorView::Malformed(why),
        seven_z_error(SevenZFaultView::PasswordRequired) is Encrypted,
        seven_z_error(SevenZFaultView::MaybeBadPassword) is Encrypted,
        seven_z_error(SevenZFaultView::Io(why)) == ErrorView::Io(why),
        seven_z_error(SevenZFaultView::Other(why)) == ErrorView::Malformed(why),
        forall|e: ErrorView|
            e == ErrorView::Io(why) || e == ErrorView::Malformed(why) ==> why.is_suffix_of(
                #[trigger] error_text(e),
            ),
{
    assert forall|e: ErrorView|
        e == ErrorView::Io(why) || e == ErrorView::Malformed(why) implies why.is_suffix_of(
        #[trigger] error_text(e),
    ) by {
        let t = error_text(e);
        assert(t.subrange(t.len() - why.len(), t.len() as int) =~= why);
    }
}

/// Law: an archive is read by the method of its format and not by another:
/// what another format would make of the bytes does not matter, and a path
/// that is no archive is refused whatever the file holds.
pub proof fn law_an_archive_is_read_by_its_format(
    path: Seq<char>,
    bytes: Seq<u8>,
    why: Seq<char>,
    cap: usize,
)
    ensures
        format_of(path) is None ==> listing_of(path, Ok(bytes), cap) == Err::<
            ListingView,
            ErrorView,
        >(ErrorView::Unsupported),
        format_of(path) is Some ==> listing_of(path, Err(why), cap) == Err::<
            ListingView,
            ErrorView,
        >(ErrorView::Io(why)),
        format_of(path) == Some(Format::Zip) ==> (listing_of(path, Ok(bytes), cap) is Ok
            ==> zip_opened(bytes) is Ok),
        format_of(path) == Some(Format::SevenZ) ==> (listing_of(path, Ok(bytes), cap) is Ok
            <==> seven_z_entries(bytes) is Ok),
        format_of(path) == Some(Format::Tar) ==> (listing_of(path, Ok(bytes), cap) matches Ok(l)
            ==> countable(bytes) && forall|i: int|
            0 <= i < l.entries.len() ==> stands_for(#[trigger] l.entries[i], tar_items(bytes)[i])),
        format_of(path) == Some(Format::TarGz) ==> (listing_of(path, Ok(bytes), cap) matches Ok(l)
            ==> countable(gunzipped(bytes)) && forall|i: int|
            0 <= i < l.entries.len() ==> stands_for(
                #[trigger] l.entries[i],
                tar_gz_items(bytes)[i],
            )),
        format_of(path) == Some(Format::TarBz2) ==> (listing_of(path, Ok(bytes), cap) matches Ok(l)
            ==> countable(bunzipped(bytes)) && forall|i: int|
            0 <= i < l.entries.len() ==> stands_for(
                #[trigger] l.entries[i],
                tar_bz2_items(bytes)[i],
            )),
        format_of(path) == Some(Format::TarZst) ==> (listing_of(path, Ok(bytes), cap) matches Ok(l)
            ==> tar_zst_items(bytes) is Ok && countable(unzstd(bytes)) && forall|i: int|
            0 <= i < l.entries.len() ==> stands_for(
                #[trigger] l.entries[i],
                tar_zst_items(bytes)->Ok_0[i],
            )),
{
    law_a_tarball_is_listed_by_its_items(tar_items(bytes), cap);
    law_a_tarball_is_listed_by_its_items(tar_gz_items(bytes), cap);
    law_a_tarball_is_listed_by_its_items(tar_bz2_items(bytes), cap);
    if let Ok(items) = tar_zst_items(bytes) {
        law_a_tarball_is_listed_by_its_items(items, cap);
    }
}

/// Law: every entry of a listing has its row, with its name, and with its
/// size unless it is a directory; one row more tells that there are others.
/// What could not be listed has one row that says why.
pub proof fn law_every_entry_has_its_row(l: ListingView, e: ErrorView)
    ensures
        ({
            let rows = listing_rows(Ok(l));
            &&& l.entries.len() == 0 ==> rows.len() == 1 && rows[0] is Status
            &&& l.entries.len() > 0 ==> rows.len() == l.entries.len() + (if l.truncated {
                1int
            } else {
                0
            })
            &&& l.entries.len() > 0 && l.truncated ==> rows.last() is Status
            &&& forall|i: int|
                0 <= i < l.entries.len() ==> (#[trigger] rows[i] matches hits::RowView::Entry {
                    icon,
                    name,
                    size,
                } && {
                    &&& name == l.entries[i].name
                    &&& l.entries[i].is_dir ==> size is None && icon == "folder"@
                    &&& !l.entries[i].is_dir ==> size == Some(
                        sizes::binary_size(l.entries[i].size as nat),
                    ) && icon == "text-x-generic"@
                })
        }),
        listing_rows(Err(e)).len() == 1,
        listing_rows(Err(e))[0] == hits::RowView::Status(error_text(e)),
{
}

/// Law: an archive is shown by what its name ends in, folders never; a
/// limit of zero is none, and nothing but a known larger size exceeds one.
pub proof fn law_archives_are_shown(hit: Hit, max_bytes: u64, size: u64)
    ensures
        score(hit) > 0 <==> !hits::labelled_folder(hit) && (hits::action_path(
            hit.action,
        ) matches Some(p) && format_of(p) is Some),
        !over_limit(0, Some(size)),
        !over_limit(max_bytes, None),
        max_bytes > 0 ==> (over_limit(max_bytes, Some(size)) <==> size > max_bytes),
{
}

proof fn lemma_tail(stem: Seq<char>, tail: Seq<char>)
    requires
        text::ascii_lowered(tail) == tail,
    ensures
        tail.is_suffix_of(text::ascii_lowered(stem + tail)),
        tail.len() > 0 ==> text::ascii_lowered(stem + tail).last() == tail.last(),
        tail.len() > 1 ==> text::ascii_lowered(stem + tail)[stem.len() + tail.len() - 2]
            == tail[tail.len() - 2],
{
    let all = text::ascii_lowered(stem + tail);
    assert forall|i: int| 0 <= i < tail.len() implies #[trigger] all[stem.len() + i]
        == tail[i] by {
        assert(text::ascii_lowered(tail)[i] == tail[i]);
    }
    assert(all.subrange(stem.len() as int, all.len() as int) =~= tail) by {
        assert forall|i: int| 0 <= i < tail.len() implies all.subrange(
            stem.len() as int,
            all.len() as int,
        )[i] == tail[i] by {
            assert(all[stem.len() + i] == tail[i]);
        }
    }
    if tail.len() > 0 {
        assert(all[stem.len() + (tail.len() - 1)] == tail[tail.len() - 1]);
    }
    if tail.len() > 1 {
        assert(all[stem.len() + (tail.len() - 2)] == tail[tail.len() - 2]);
    }
}

proof fn lemma_other_end(tail: Seq<char>, s: Seq<char>)
    requires
        tail.len() > 1,
        s.len() > 1,
        tail.last() != s.last() || tail[tail.len() - 2] != s[s.len() - 2],
    ensures
        !tail.is_suffix_of(s),
{
    if tail.is_suffix_of(s) {
        let cut = s.subrange(s.len() - tail.len(), s.len() as int);
        assert(cut[tail.len() - 1] == tail[tail.len() - 1]);
        assert(cut[tail.len() - 2] == tail[tail.len() - 2]);
    }
}

/// Law: the end of a name tells the format of an archive, whatever stands
/// before it.
pub proof fn law_the_end_of_a_name_tells_the_format(stem: Seq<char>)
    ensures
        format_of(stem + ".zip"@) == Some(Format::Zip),
        format_of(stem + ".7z"@) == Some(Format::SevenZ),
        format_of(stem + ".tar"@) == Some(Format::Tar),
        format_of(stem + ".tar.gz"@) == Some(Format::TarGz),
        format_of(stem + ".tgz"@) == Some(Format::TarGz),
        format_of(stem + ".tar.zst"@) == Some(Format::TarZst),
        format_of(stem + ".tzst"@) == Some(Format::TarZst),
        format_of(stem + ".tar.bz2"@) == Some(Format::TarBz2),
        format_of(stem + ".tbz2"@) == Some(Format::TarBz2),
        format_of(stem + ".tbz"@) == Some(Format::TarBz2),
{
    reveal_strlit(".zip");
    reveal_strlit(".7z");
    reveal_strlit(".tar");
    reveal_strlit(".tar.gz");
    reveal_strlit(".tgz");
    reveal_strlit(".tar.zst");
    reveal_strlit(".tzst");
    reveal_strlit(".tar.bz2");
    reveal_strlit(".tbz2");
    reveal_strlit(".tbz");
    let ends = seq![
        ".zip"@,
        ".7z"@,
        ".tar"@,
        ".tar.gz"@,
        ".tgz"@,
        ".tar.zst"@,
        ".tzst"@,
        ".tar.bz2"@,
        ".tbz2"@,
        ".tbz"@,
    ];
    assert forall|i: int| 0 <= i < ends.len() implies text::ascii_lowered(#[trigger] ends[i])
        == ends[i] by {
        assert(text::ascii_lowered(ends[i]) =~= ends[i]);
    }
    assert forall|i: int, j: int|
        0 <= i < ends.len() && 0 <= j < ends.len() && (ends[i].last() != ends[j].last()
            || ends[i][ends[i].len() - 2] != ends[j][ends[j].len() - 2]) implies !(
    #[trigger] ends[j]).is_suffix_of(text::ascii_lowered(stem + #[trigger] ends[i])) by {
        lemma_tail(stem, ends[i]);
        lemma_other_end(ends[j], text::ascii_lowered(stem + ends[i]));
    }
    assert forall|i: int| 0 <= i < ends.len() implies (#[trigger] ends[i]).is_suffix_of(
        text::ascii_lowered(stem + ends[i]),
    ) by {
        lemma_tail(stem, ends[i]);
    }
    assert(ends[0] == ".zip"@ && ends[1] == ".7z"@ && ends[2] == ".tar"@);
    assert(ends[3] == ".tar.gz"@ && ends[4] == ".tgz"@ && ends[5] == ".tar.zst"@);
    assert(ends[6] == ".tzst"@ && ends[7] == ".tar.bz2"@ && ends[8] == ".tbz2"@);
    assert(ends[9] == ".tbz"@);
}

/// Law: a preview lists five thousand entries at most, and tells where there
/// are more; a tarball that could not be read at all is malformed.
pub proof fn law_a_preview_lists_so_many_entries(
    path: Seq<char>,
    file: Result<Seq<u8>, Seq<char>>,
    why: Seq<char>,
    items: Seq<TarView>,
    cap: usize,
)
    ensures
        listing_of(path, file, ENTRY_CAP) matches Ok(l) ==> l.entries.len() <= 5000 && (l.truncated
            ==> l.entries.len() == 5000),
        tar_outcome(Err(why), cap) == Err::<ListingView, ErrorView>(ErrorView::Malformed(why)),
        tar_outcome(Ok(items), cap) == tar_listing(items, cap),
{
    law_cap_is_kept(path, file, ENTRY_CAP);
}

} // verus!
