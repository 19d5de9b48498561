//! Office documents, converted to PDF and kept.

use sha2::Digest;
use vstd::prelude::*;

use crate::hits;
use crate::hits::SizingPreference;
use crate::model::Hit;
use crate::paths;
use crate::text;

verus! {

/// How long a conversion may take.
pub const CONVERSION_TIMEOUT_SECS: u64 = 30;

/// What is shown where no converter is found.
pub const NOT_INSTALLED: &'static str =
    "libreoffice not installed — install libreoffice-still or libreoffice-fresh and retry.";

/// Whether a lowercase extension is that of an office document.
pub open spec fn office_extension(e: Seq<char>) -> bool {
    e == "docx"@ || e == "xlsx"@ || e == "pptx"@ || e == "odt"@ || e == "ods"@ || e == "odp"@ || e
        == "doc"@ || e == "xls"@ || e == "ppt"@ || e == "rtf"@
}

/// Whether a lowercase extension is that of an office document.
pub fn is_office_extension(e: &str) -> (r: bool)
    ensures
        r == office_extension(e@),
{
    text::text_eq(e, "docx") || text::text_eq(e, "xlsx") || text::text_eq(e, "pptx")
        || text::text_eq(e, "odt") || text::text_eq(e, "ods") || text::text_eq(e, "odp")
        || text::text_eq(e, "doc") || text::text_eq(e, "xls") || text::text_eq(e, "ppt")
        || text::text_eq(e, "rtf")
}

/// What a preview can do.
#[derive(Clone, Copy, Debug, PartialEq, Eq, Structural)]
pub struct PreviewCapabilities {
    pub text_selection: bool,
    pub text_search: bool,
    pub paginated: bool,
    pub zoomable: bool,
}

/// Shows office documents.
pub struct OfficePreview;

/// How well office documents suit a hit.
pub open spec fn score(hit: Hit) -> u32 {
    match hits::action_path(hit.action) {
        Some(p) => match paths::lower_extension_of(p) {
            Some(e) if office_extension(e) => 75,
            _ => 0,
        },
        None => 0,
    }
}

impl OfficePreview {
    /// The name of the preview.
    pub fn id(&self) -> (r: &'static str)
        ensures
            r@ == "office"@,
    {
        "office"
    }

    /// How well the preview suits a hit.
    pub fn match_score(&self, hit: &Hit) -> (r: u32)
        ensures
            r == score(*hit),
    {
        match hits::file_path(hit) {
            Some(path) => match paths::lower_extension(path.as_str()) {
                Some(e) => {
                    if is_office_extension(e.as_str()) {
                        75
                    } else {
                        0
                    }
                },
                None => 0,
            },
            None => 0,
        }
    }

    /// How the window is sized.
    pub fn sizing(&self) -> (r: SizingPreference)
        ensures
            r == SizingPreference::OwnsScroll,
    {
        SizingPreference::OwnsScroll
    }

    /// What the preview can do.
    pub fn capabilities(&self) -> (r: PreviewCapabilities)
        ensures
            r == (PreviewCapabilities {
                text_selection: true,
                text_search: true,
                paginated: true,
                zoomable: true,
            }),
    {
        PreviewCapabilities {
            text_selection: true,
            text_search: true,
            paginated: true,
            zoomable: true,
        }
    }
}

// ---------------------------------------------------------------------
// The cache
// ---------------------------------------------------------------------

/// The SHA-256 digest of bytes.
pub uninterp spec fn sha256_of(bytes: Seq<u8>) -> Seq<u8>;

/// `sha2::Sha256::digest`: the SHA-256 digest, 32 bytes.
#[verifier::external_body]
fn sha256(bytes: &[u8]) -> (r: Vec<u8>)
    ensures
        r@ == sha256_of(bytes@),
        r@.len() == 32,
{
    sha2::Sha256::digest(bytes).to_vec()
}

/// The lowest `n` bytes of a number, most significant first.
pub open spec fn be_bytes(v: nat, n: nat) -> Seq<u8>
    decreases n,
{
    if n == 0 {
        Seq::empty()
    } else {
        be_bytes(v / 256, (n - 1) as nat).push((v % 256) as u8)
    }
}

/// Bytes as hexadecimal digits.
pub open spec fn hex_text(bytes: Seq<u8>) -> Seq<char>
    decreases bytes.len(),
{
    if bytes.len() == 0 {
        Seq::empty()
    } else {
        hex_text(bytes.drop_last()) + seq![
            text::hex_digit((bytes.last() / 16) as int),
            text::hex_digit((bytes.last() % 16) as int),
        ]
    }
}

/// What the key of a document is computed from: its path, a zero, and the
/// time of its last change in nanoseconds.
pub open spec fn key_source(path: Seq<u8>, mtime_ns: u128) -> Seq<u8> {
    path + seq![0u8] + be_bytes(mtime_ns as nat, 16)
}

/// The key of a document.
pub open spec fn key_of(path: Seq<u8>, mtime_ns: u128) -> Seq<char> {
    hex_text(sha256_of(key_source(path, mtime_ns)))
}

/// Bytes as hexadecimal digits.
pub fn hex_encode(bytes: &[u8]) -> (r: String)
    ensures
        r@ == hex_text(bytes@),
{
    let mut s = String::new();
    let mut i: usize = 0;
    proof {
        assert(s@ =~= hex_text(bytes@.take(0)));
    }
    while i < bytes.len()
        invariant
            i <= bytes@.len(),
            s@ == hex_text(bytes@.take(i as int)),
        decreases bytes@.len() - i,
    {
        let b: u8 = bytes[i];
        let ghost before = s@;
        proof {
            assert(bytes@.take(i + 1).drop_last() =~= bytes@.take(i as int));
            assert(bytes@.take(i + 1).last() == b);
        }
        s.push(text::hex_char(b / 16));
        s.push(text::hex_char(b % 16));
        proof {
            assert(s@ =~= before + seq![
                text::hex_digit((b / 16) as int),
                text::hex_digit((b % 16) as int),
            ]);
        }
        i = i + 1;
    }
    proof {
        assert(bytes@.take(bytes@.len() as int) =~= bytes@);
    }
    s
}

fn push_be(out: &mut Vec<u8>, v: u128, n: usize)
    ensures
        final(out)@ == old(out)@ + be_bytes(v as nat, n as nat),
    decreases n,
{
    let ghost before = out@;
    if n > 0 {
        push_be(out, v / 256, n - 1);
        out.push((v % 256) as u8);
    }
    proof {
        assert(out@ =~= before + be_bytes(v as nat, n as nat));
    }
}

/// The key of a document, from its path and the time of its last change.
pub fn compute_cache_key_raw(path_bytes: &[u8], mtime_ns: u128) -> (r: String)
    ensures
        r@ == key_of(path_bytes@, mtime_ns),
        r@.len() == 64,
{
    let mut source: Vec<u8> = Vec::new();
    let mut i: usize = 0;
    while i < path_bytes.len()
        invariant
            i <= path_bytes@.len(),
            source@ =~= path_bytes@.take(i as int),
        decreases path_bytes@.len() - i,
    {
        source.push(path_bytes[i]);
        i = i + 1;
    }
    source.push(0);
    push_be(&mut source, mtime_ns, 16);
    proof {
        assert(source@ =~= key_source(path_bytes@, mtime_ns));
    }
    let digest = sha256(&source);
    proof {
        lemma_hex_len(digest@);
    }
    hex_encode(&digest)
}

/// The key of a document. `mtime_ns` is the time of its last change, where
/// it is known.
pub fn compute_cache_key(path: &str, mtime_ns: Option<u128>) -> (r: String)
    ensures
        r@ == key_of(
            vstd::utf8::encode_utf8(path@),
            match mtime_ns {
                Some(n) => n,
                None => 0,
            },
        ),
{
    let n: u128 = match mtime_ns {
        Some(n) => n,
        None => 0,
    };
    compute_cache_key_raw(path.as_bytes(), n)
}

proof fn lemma_hex_len(bytes: Seq<u8>)
    ensures
        hex_text(bytes).len() == 2 * bytes.len(),
    decreases bytes.len(),
{
    if bytes.len() > 0 {
        lemma_hex_len(bytes.drop_last());
    }
}

/// Where the result for a key is kept.
pub fn cache_file_path(cache_dir: &str, key: &str, ext: &str) -> (r: String)
    ensures
        r@ == paths::join_of(cache_dir@, key@ + "."@ + ext@),
{
    let mut file = key.to_string();
    file.push_str(".");
    file.push_str(ext);
    paths::join(cache_dir, file.as_str())
}

/// Where results are kept: below the user's cache directory, or else below
/// the home directory.
pub open spec fn cache_dir_of(cache_dir: Option<Seq<char>>, home: Option<Seq<char>>) -> Seq<char> {
    let base = match (cache_dir, home) {
        (Some(d), _) => d,
        (None, Some(h)) => paths::join_of(h, ".cache"@),
        (None, None) => paths::join_of(Seq::empty(), ".cache"@),
    };
    paths::join_of(base, "lixun/preview/office"@)
}

/// Where results are kept.
pub fn office_cache_dir(cache_dir: Option<&str>, home: Option<&str>) -> (r: String)
    ensures
        r@ == cache_dir_of(
            match cache_dir {
                Some(d) => Some(d@),
                None => None,
            },
            match home {
                Some(h) => Some(h@),
                None => None,
            },
        ),
{
    let base = match cache_dir {
        Some(d) => d.to_string(),
        None => match home {
            Some(h) => paths::join(h, ".cache"),
            None => {
                let empty = String::new();
                paths::join(empty.as_str(), ".cache")
            },
        },
    };
    paths::join(base.as_str(), "lixun/preview/office")
}

/// Law: what the key of a document is computed from tells its path and the
/// time of its last change.
pub proof fn law_key_source_tells_apart(a: Seq<u8>, m: u128, b: Seq<u8>, n: u128)
    requires
        key_source(a, m) == key_source(b, n),
    ensures
        a == b,
        m == n,
{
    lemma_be_len(m as nat, 16);
    lemma_be_len(n as nat, 16);
    let x = key_source(a, m);
    let y = key_source(b, n);
    assert(x.len() == a.len() + 17);
    assert(y.len() == b.len() + 17);
    assert(x.take(a.len() as int) =~= a);
    assert(y.take(b.len() as int) =~= b);
    assert(x.skip((a.len() + 1) as int) =~= be_bytes(m as nat, 16));
    assert(y.skip((b.len() + 1) as int) =~= be_bytes(n as nat, 16));
    reveal_with_fuel(pow256, 17);
    lemma_be_injective(m as nat, n as nat, 16);
}

proof fn lemma_be_len(v: nat, n: nat)
    ensures
        be_bytes(v, n).len() == n,
    decreases n,
{
    if n > 0 {
        lemma_be_len(v / 256, (n - 1) as nat);
    }
}

/// 256 to the power of `n`.
spec fn pow256(n: nat) -> nat
    decreases n,
{
    if n == 0 {
        1
    } else {
        256 * pow256((n - 1) as nat)
    }
}

proof fn lemma_be_injective(v: nat, w: nat, n: nat)
    requires
        v < pow256(n),
        w < pow256(n),
        be_bytes(v, n) == be_bytes(w, n),
    ensures
        v == w,
    decreases n,
{
    if n > 0 {
        let a = be_bytes(v, n);
        let b = be_bytes(w, n);
        assert(a.drop_last() =~= be_bytes(v / 256, (n - 1) as nat));
        assert(b.drop_last() =~= be_bytes(w / 256, (n - 1) as nat));
        assert(a.last() == (v % 256) as u8);
        assert(b.last() == (w % 256) as u8);
        lemma_be_injective(v / 256, w / 256, (n - 1) as nat);
    }
}

// ---------------------------------------------------------------------
// The conversion
// ---------------------------------------------------------------------

/// The texts of a list.
pub open spec fn views(v: Seq<String>) -> Seq<Seq<char>> {
    Seq::new(v.len(), |i: int| v[i]@)
}

/// The arguments of the converter.
pub open spec fn argv_of(format: Seq<char>, outdir: Seq<char>, src: Seq<char>) -> Seq<Seq<char>> {
    seq![
        "--headless"@,
        "--nologo"@,
        "--nolockcheck"@,
        "--norestore"@,
        "--convert-to"@,
        format,
        "--outdir"@,
        outdir,
        src,
    ]
}

/// The arguments of the converter.
pub fn build_soffice_argv(format: &str, outdir: &str, src: &str) -> (r: Vec<String>)
    ensures
        views(r@) == argv_of(format@, outdir@, src@),
{
    let mut v: Vec<String> = Vec::new();
    v.push("--headless".to_string());
    v.push("--nologo".to_string());
    v.push("--nolockcheck".to_string());
    v.push("--norestore".to_string());
    v.push("--convert-to".to_string());
    v.push(format.to_string());
    v.push("--outdir".to_string());
    v.push(outdir.to_string());
    v.push(src.to_string());
    proof {
        assert(views(v@) =~= argv_of(format@, outdir@, src@));
    }
    v
}

/// Whether a path has the extension, whatever the case of its letters.
pub open spec fn has_extension(path: Seq<char>, ext: Seq<char>) -> bool {
    paths::lower_extension_of(path) == Some(text::ascii_lowered(ext))
}

/// The first of the paths that has the extension.
pub fn find_output_in(listed: &Vec<String>, expected_ext: &str) -> (r: Option<String>)
    ensures
        match r {
            Some(p) => exists|k: int|
                0 <= k < listed@.len() && #[trigger] listed@[k] == p && has_extension(
                    p@,
                    expected_ext@,
                ) && forall|j: int|
                    0 <= j < k ==> !has_extension((#[trigger] listed@[j])@, expected_ext@),
            None => forall|j: int|
                0 <= j < listed@.len() ==> !has_extension(
                    (#[trigger] listed@[j])@,
                    expected_ext@,
                ),
        },
{
    let wanted = text::to_ascii_lower(&text::to_chars(expected_ext));
    let mut i: usize = 0;
    while i < listed.len()
        invariant
            i <= listed@.len(),
            wanted@ == text::ascii_lowered(expected_ext@),
            forall|j: int|
                0 <= j < i ==> !has_extension((#[trigger] listed@[j])@, expected_ext@),
        decreases listed@.len() - i,
    {
        match paths::lower_extension(listed[i].as_str()) {
            Some(e) => {
                if text::chars_eq(&text::to_chars(e.as_str()), &wanted) {
                    let found = listed[i].clone();
                    proof {
                        assert(listed@[i as int] == found);
                    }
                    return Some(found);
                }
            },
            None => {},
        }
        i = i + 1;
    }
    None
}

/// Where the converter may be: each name in each directory of the search
/// path.
pub open spec fn candidates_of(dirs: Seq<String>) -> Seq<Seq<char>> {
    Seq::new(dirs.len(), |i: int| paths::join_of(dirs[i]@, "libreoffice"@)) + Seq::new(
        dirs.len(),
        |i: int| paths::join_of(dirs[i]@, "soffice"@),
    )
}

fn push_candidates(out: &mut Vec<String>, dirs: &Vec<String>, name: &str)
    ensures
        views(final(out)@) == views(old(out)@) + Seq::new(
            dirs@.len(),
            |i: int| paths::join_of(dirs@[i]@, name@),
        ),
{
    let ghost before = views(out@);
    let mut i: usize = 0;
    while i < dirs.len()
        invariant
            i <= dirs@.len(),
            views(out@) =~= before + Seq::new(
                i as nat,
                |i: int| paths::join_of(dirs@[i]@, name@),
            ),
        decreases dirs@.len() - i,
    {
        let ghost held = out@;
        let p = paths::join(dirs[i].as_str(), name);
        out.push(p);
        proof {
            assert(views(out@) =~= views(held).push(p@));
        }
        i = i + 1;
    }
}

/// Where the converter may be, in the order in which it is looked for.
pub fn find_soffice(dirs: &Vec<String>) -> (r: Vec<String>)
    ensures
        views(r@) == candidates_of(dirs@),
{
    let mut out: Vec<String> = Vec::new();
    push_candidates(&mut out, dirs, "libreoffice");
    push_candidates(&mut out, dirs, "soffice");
    proof {
        assert(views(out@) =~= candidates_of(dirs@));
    }
    out
}

/// The name of the directory that a conversion works in.
pub fn work_dir_name(pid: u32, nanos: u128) -> (r: String)
    ensures
        r@ == "work-"@ + text::decimal(pid as nat) + "-"@ + text::decimal(nanos as nat),
{
    let mut s = "work-".to_string();
    s.push_str(text::decimal_u64(pid as u64).as_str());
    s.push_str("-");
    s.push_str(text::decimal_u128(nanos).as_str());
    s
}

/// How the converter ended.
#[derive(Clone, Debug, PartialEq, Eq)]
pub enum Wait {
    /// It ended with success.
    Success,
    /// It ended without success; `code` is how its exit code is shown.
    Failure { code: String },
    /// It could not be waited for.
    Error { why: String },
    /// It did not end in time.
    TimedOut { pid: u32 },
}

/// How a conversion goes on. Texts of paths are as they are shown.
#[derive(Clone, Debug, PartialEq, Eq)]
pub enum ConvertEvent {
    /// The start; `parent` is the directory that the result goes to.
    Start { parent: Option<String> },
    /// The directory could, or could not, be made.
    DirMade { failed: Option<String>, shown: String },
    /// The work directory could, or could not, be made.
    WorkDirMade { outdir: Option<String>, why: String },
    /// The converter could, or could not, be started.
    Spawned { failed: Option<String> },
    Waited(Wait),
    /// What the work directory holds.
    Listed { paths: Vec<String>, shown: String },
    /// The result could, or could not, be moved to its place.
    Moved { failed: Option<String>, from_shown: String, to_shown: String },
}

/// What a conversion does next.
#[derive(Clone, Debug, PartialEq, Eq)]
pub enum ConvertAction {
    MakeDir { dir: String },
    MakeWorkDir,
    /// Start the converter, with the arguments for this work directory.
    Spawn { outdir: String },
    /// Wait for the converter, for so long at most.
    Wait { timeout_secs: u64 },
    /// List the work directory.
    List,
    /// Move the result to its place.
    Move { from: String },
    /// Remove the work directory; the conversion has succeeded.
    Finish,
    /// Stop the converter, where `kill` says so; the conversion has failed.
    Fail { reason: String, kill: Option<u32> },
}

/// The failure with this message.
pub open spec fn fails(a: ConvertAction, reason: Seq<char>, kill: Option<u32>) -> bool {
    a matches ConvertAction::Fail { reason: r, kill: k } && r@ == reason && k == kill
}

/// What a conversion does about an event.
pub open spec fn converts(event: ConvertEvent, action: ConvertAction) -> bool {
    match event {
        ConvertEvent::Start { parent: None } => fails(action, "cache path has no parent"@, None),
        ConvertEvent::Start { parent: Some(dir) } => action == ConvertAction::MakeDir { dir },
        ConvertEvent::DirMade { failed: Some(why), shown } => fails(
            action,
            "create cache dir "@ + shown@ + ": "@ + why@,
            None,
        ),
        ConvertEvent::DirMade { failed: None, shown } => action is MakeWorkDir,
        ConvertEvent::WorkDirMade { outdir: None, why } => fails(action, "tempdir: "@ + why@, None),
        ConvertEvent::WorkDirMade { outdir: Some(outdir), why } => action == ConvertAction::Spawn {
            outdir,
        },
        ConvertEvent::Spawned { failed: Some(why) } => fails(
            action,
            "spawn soffice: "@ + why@,
            None,
        ),
        ConvertEvent::Spawned { failed: None } => action == ConvertAction::Wait {
            timeout_secs: CONVERSION_TIMEOUT_SECS,
        },
        ConvertEvent::Waited(Wait::Error { why }) => fails(action, "wait soffice: "@ + why@, None),
        ConvertEvent::Waited(Wait::TimedOut { pid }) => fails(
            action,
            "soffice exceeded "@ + text::decimal(CONVERSION_TIMEOUT_SECS as nat)
                + "s timeout — killed pid="@ + text::decimal(pid as nat),
            Some(pid),
        ),
        ConvertEvent::Waited(Wait::Failure { code }) => fails(
            action,
            "soffice exited "@ + code@,
            None,
        ),
        ConvertEvent::Waited(Wait::Success) => action is List,
        ConvertEvent::Listed { paths, shown } => match action {
            ConvertAction::Move { from } => exists|k: int|
                0 <= k < paths@.len() && #[trigger] paths@[k] == from && has_extension(
                    from@,
                    "pdf"@,
                ) && forall|j: int|
                    0 <= j < k ==> !has_extension((#[trigger] paths@[j])@, "pdf"@),
            _ => {
                &&& fails(
                    action,
                    "soffice succeeded but produced no .pdf in "@ + shown@,
                    None,
                )
                &&& forall|j: int|
                    0 <= j < paths@.len() ==> !has_extension((#[trigger] paths@[j])@, "pdf"@)
            },
        },
        ConvertEvent::Moved { failed: Some(why), from_shown, to_shown } => fails(
            action,
            "moving "@ + from_shown@ + " -> "@ + to_shown@ + ": "@ + why@,
            None,
        ),
        ConvertEvent::Moved { failed: None, from_shown, to_shown } => action is Finish,
    }
}

fn fail(reason: String) -> (a: ConvertAction)
    ensures
        fails(a, reason@, None),
{
    ConvertAction::Fail { reason, kill: None }
}

/// The next action of a conversion.
pub fn run_soffice_convert(event: ConvertEvent) -> (action: ConvertAction)
    ensures
        converts(event, action),
{
    match event {
        ConvertEvent::Start { parent } => match parent {
            None => fail("cache path has no parent".to_string()),
            Some(dir) => ConvertAction::MakeDir { dir },
        },
        ConvertEvent::DirMade { failed, shown } => match failed {
            Some(why) => {
                let mut s = "create cache dir ".to_string();
                s.push_str(shown.as_str());
                s.push_str(": ");
                s.push_str(why.as_str());
                fail(s)
            },
            None => ConvertAction::MakeWorkDir,
        },
        ConvertEvent::WorkDirMade { outdir, why } => match outdir {
            None => {
                let mut s = "tempdir: ".to_string();
                s.push_str(why.as_str());
                fail(s)
            },
            Some(outdir) => ConvertAction::Spawn { outdir },
        },
        ConvertEvent::Spawned { failed } => match failed {
            Some(why) => {
                let mut s = "spawn soffice: ".to_string();
                s.push_str(why.as_str());
                fail(s)
            },
            None => ConvertAction::Wait { timeout_secs: CONVERSION_TIMEOUT_SECS },
        },
        ConvertEvent::Waited(wait) => match wait {
            Wait::Error { why } => {
                let mut s = "wait soffice: ".to_string();
                s.push_str(why.as_str());
                fail(s)
            },
            Wait::TimedOut { pid } => {
                let mut s = "soffice exceeded ".to_string();
                s.push_str(text::decimal_u64(CONVERSION_TIMEOUT_SECS).as_str());
                s.push_str("s timeout — killed pid=");
                s.push_str(text::decimal_u64(pid as u64).as_str());
                ConvertAction::Fail { reason: s, kill: Some(pid) }
            },
            Wait::Failure { code } => {
                let mut s = "soffice exited ".to_string();
                s.push_str(code.as_str());
                fail(s)
            },
            Wait::Success => ConvertAction::List,
        },
        ConvertEvent::Listed { paths, shown } => match find_output_in(&paths, "pdf") {
            Some(from) => ConvertAction::Move { from },
            None => {
                let mut s = "soffice succeeded but produced no .pdf in ".to_string();
                s.push_str(shown.as_str());
                fail(s)
            },
        },
        ConvertEvent::Moved { failed, from_shown, to_shown } => match failed {
            Some(why) => {
                let mut s = "moving ".to_string();
                s.push_str(from_shown.as_str());
                s.push_str(" -> ");
                s.push_str(to_shown.as_str());
                s.push_str(": ");
                s.push_str(why.as_str());
                fail(s)
            },
            None => ConvertAction::Finish,
        },
    }
}

/// How a document comes to be shown.
#[derive(Clone, Copy, Debug, PartialEq, Eq, Structural)]
pub enum OfficeStep {
    /// Say that there is no converter.
    NotInstalled,
    /// Show the result that is kept.
    ShowCached,
    /// Show a placeholder and convert.
    Convert,
}

/// How a document comes to be shown.
pub fn build_step(installed: bool, cached: bool) -> (r: OfficeStep)
    ensures
        r == (if !installed {
            OfficeStep::NotInstalled
        } else if cached {
            OfficeStep::ShowCached
        } else {
            OfficeStep::Convert
        }),
{
    if !installed {
        OfficeStep::NotInstalled
    } else if cached {
        OfficeStep::ShowCached
    } else {
        OfficeStep::Convert
    }
}

/// What is shown where a conversion failed.
pub fn failure_text(reason: &str) -> (r: String)
    ensures
        r@ == "conversion failed: "@ + reason@,
{
    let mut s = "conversion failed: ".to_string();
    s.push_str(reason);
    s
}

/// The value of a hexadecimal digit.
pub open spec fn hex_value(c: char) -> int {
    if c <= '9' {
        c as int - '0' as int
    } else {
        c as int - 'a' as int + 10
    }
}

/// Law: bytes are written as two hexadecimal digits each, in order, which
/// stand for them.
pub proof fn law_digits_stand_for_bytes(bytes: Seq<u8>, k: int)
    requires
        0 <= k < bytes.len(),
    ensures
        hex_text(bytes).len() == 2 * bytes.len(),
        16 * hex_value(hex_text(bytes)[2 * k]) + hex_value(hex_text(bytes)[2 * k + 1]) == bytes[k],
    decreases bytes.len(),
{
    if bytes.len() > 1 {
        law_digits_stand_for_bytes(bytes.drop_last(), if k < bytes.len() - 1 {
            k
        } else {
            0
        });
    } else {
        assert(bytes.drop_last() =~= Seq::empty());
        assert(hex_text(bytes.drop_last()).len() == 0);
    }
}

/// Law: the time in a key is written with its highest byte first.
pub proof fn law_the_lowest_byte_comes_last(v: nat, n: nat)
    requires
        n > 0,
    ensures
        be_bytes(v, n).len() == n,
        be_bytes(v, n).last() == v % 256,
        be_bytes(v, n).drop_last() == be_bytes(v / 256, (n - 1) as nat),
    decreases n,
{
    if n > 1 {
        law_the_lowest_byte_comes_last(v / 256, (n - 1) as nat);
    }
    assert(be_bytes(v, n).drop_last() =~= be_bytes(v / 256, (n - 1) as nat));
}

/// Law: the converter is told, each behind its flag, what to make and where
/// to put it, and last what to read; it runs without a window.
pub proof fn law_the_converter_is_told_what_to_do(
    format: Seq<char>,
    outdir: Seq<char>,
    src: Seq<char>,
)
    ensures
        ({
            let argv = argv_of(format, outdir, src);
            &&& argv.contains("--headless"@)
            &&& argv.last() == src
            &&& exists|k: int|
                0 <= k < argv.len() - 2 && #[trigger] argv[k] == "--convert-to"@ && argv[k + 1]
                    == format
            &&& exists|k: int|
                0 <= k < argv.len() - 2 && #[trigger] argv[k] == "--outdir"@ && argv[k + 1]
                    == outdir
        }),
{
    let argv = argv_of(format, outdir, src);
    assert(argv[0] == "--headless"@);
    assert(argv[4] == "--convert-to"@ && argv[5] == format);
    assert(argv[6] == "--outdir"@ && argv[7] == outdir);
}

/// Law: the converter is looked for in every directory, under either name;
/// the first name is tried everywhere ahead of the second.
pub proof fn law_the_converter_is_looked_for_everywhere(dirs: Seq<String>, k: int)
    requires
        0 <= k < dirs.len(),
    ensures
        candidates_of(dirs).len() == 2 * dirs.len(),
        candidates_of(dirs)[k] == paths::join_of(dirs[k]@, "libreoffice"@),
        candidates_of(dirs)[dirs.len() + k] == paths::join_of(dirs[k]@, "soffice"@),
{
}

/// Law: results are kept below the cache directory, and below the home
/// directory only where there is none.
pub proof fn law_results_are_kept_in_the_cache(
    dir: Seq<char>,
    home: Option<Seq<char>>,
    h: Seq<char>,
)
    requires
        dir.len() > 0,
        dir.last() != '/',
        h.len() > 0,
        h.last() != '/',
    ensures
        cache_dir_of(Some(dir), home) == dir.push('/') + "lixun/preview/office"@,
        cache_dir_of(None, Some(h)) == h.push('/') + ".cache/lixun/preview/office"@,
{
    reveal_strlit("lixun/preview/office");
    reveal_strlit(".cache");
    reveal_strlit(".cache/lixun/preview/office");
    assert(cache_dir_of(Some(dir), home) =~= dir.push('/') + "lixun/preview/office"@);
    let base = paths::join_of(h, ".cache"@);
    assert(base =~= h.push('/') + ".cache"@);
    assert(base.last() == 'e');
    assert(cache_dir_of(None, Some(h)) =~= h.push('/') + ".cache/lixun/preview/office"@);
}

/// Law: a conversion goes on while nothing fails, and ends when its result
/// is in its place. What fails ends it, with a reason that ends in the cause
/// or names it; the converter is stopped where it took too long, and only
/// then.
pub proof fn law_a_conversion_goes_on_while_nothing_fails(event: ConvertEvent, action: ConvertAction)
    requires
        converts(event, action),
    ensures
        event matches ConvertEvent::Start { parent } ==> match parent {
            Some(dir) => action == (ConvertAction::MakeDir { dir }),
            None => action is Fail,
        },
        event matches ConvertEvent::DirMade { failed, shown } ==> (action is MakeWorkDir
            <==> failed is None) && (action is Fail <==> failed is Some),
        event matches ConvertEvent::WorkDirMade { outdir, why } ==> match outdir {
            Some(dir) => action == (ConvertAction::Spawn { outdir: dir }),
            None => action is Fail,
        },
        event matches ConvertEvent::Spawned { failed } ==> (action == (ConvertAction::Wait {
            timeout_secs: 30,
        }) <==> failed is None) && (action is Fail <==> failed is Some),
        event matches ConvertEvent::Waited(w) ==> (action is List <==> w is Success) && (action
            is Fail <==> !(w is Success)),
        event matches ConvertEvent::Moved { failed, from_shown, to_shown } ==> (action is Finish
            <==> failed is None) && (action is Fail <==> failed is Some),
        event matches ConvertEvent::Listed { paths, shown } ==> {
            &&& action is Move || action is Fail
            &&& action matches ConvertAction::Move { from } ==> paths@.contains(from)
                && has_extension(from@, "pdf"@)
            &&& (exists|j: int| 0 <= j < paths@.len() && has_extension((#[trigger] paths@[j])@, "pdf"@))
                ==> action is Move
        },
        action is Finish ==> event is Moved,
        action matches ConvertAction::Fail { reason, kill } ==> match kill {
            Some(p) => event == ConvertEvent::Waited(Wait::TimedOut { pid: p }),
            None => !(event matches ConvertEvent::Waited(w) && w is TimedOut),
        },
{
}

/// Law: office documents are shown by the end of their name.
pub proof fn law_office_documents_are_shown(hit: Hit)
    ensures
        score(hit) > 0 <==> (hits::action_path(hit.action) matches Some(p) && (
        paths::lower_extension_of(p) matches Some(e) && office_extension(e))),
{
}

/// Law: office documents are told by these extensions and no others.
pub proof fn law_office_files_are_known(e: Seq<char>)
    ensures
        office_extension(e) <==> seq![
            "docx"@, "xlsx"@, "pptx"@, "odt"@, "ods"@, "odp"@,
            "doc"@, "xls"@, "ppt"@, "rtf"@,
        ].contains(e),
{
    let known = seq![
        "docx"@, "xlsx"@, "pptx"@, "odt"@, "ods"@, "odp"@,
        "doc"@, "xls"@, "ppt"@, "rtf"@,
    ];
    assert(known[0] == "docx"@ && known[1] == "xlsx"@ && known[2] == "pptx"@);
    assert(known[3] == "odt"@ && known[4] == "ods"@ && known[5] == "odp"@);
    assert(known[6] == "doc"@ && known[7] == "xls"@ && known[8] == "ppt"@);
    assert(known[9] == "rtf"@);
    if office_extension(e) {
        assert(known.contains(e));
    }
    if known.contains(e) {
        let k = choose|k: int| 0 <= k < known.len() && known[k] == e;
        assert(office_extension(known[k]));
    }
}

/// Digits tell the bytes.
proof fn lemma_digits_tell_bytes(a: Seq<u8>, b: Seq<u8>)
    requires
        hex_text(a) == hex_text(b),
    ensures
        a == b,
{
    lemma_hex_length(a);
    lemma_hex_length(b);
    assert forall|k: int| 0 <= k < a.len() implies a[k] == b[k] by {
        law_digits_stand_for_bytes(a, k);
        law_digits_stand_for_bytes(b, k);
    }
    assert(a =~= b);
}

proof fn lemma_hex_length(a: Seq<u8>)
    ensures
        hex_text(a).len() == 2 * a.len(),
    decreases a.len(),
{
    if a.len() > 0 {
        lemma_hex_length(a.drop_last());
    }
}

/// Law: two documents, or two versions of one, share a key only where the
/// digests of path and time are the same.
pub proof fn law_keys_go_by_path_and_time(a: Seq<u8>, m: u128, b: Seq<u8>, n: u128)
    ensures
        key_of(a, m) == key_of(b, n) <==> sha256_of(key_source(a, m)) == sha256_of(
            key_source(b, n),
        ),
        a.is_prefix_of(key_source(a, m)),
        key_source(a, m).len() == a.len() + 17,
{
    if key_of(a, m) == key_of(b, n) {
        lemma_digits_tell_bytes(sha256_of(key_source(a, m)), sha256_of(key_source(b, n)));
    }
    law_the_lowest_byte_comes_last(m as nat, 16);
    assert(key_source(a, m).subrange(0, a.len() as int) =~= a);
}

} // verus!
