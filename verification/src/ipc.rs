//! The protocol between the daemon and its clients.

use bytes::BytesMut;
use vstd::prelude::*;

use crate::frames;
use crate::frames::{DecodeState, FrameError, Versions};
use crate::layout;
use crate::paths;
use crate::text;

verus! {

/// The version that is written.
pub const PROTOCOL_VERSION: u16 = 4;

/// The oldest version that is understood.
pub const MIN_PROTOCOL_VERSION: u16 = 4;

/// What the watcher counts.
#[derive(Clone, Copy, Debug, PartialEq, Eq, Structural)]
pub struct WatcherStats {
    pub directories: u64,
    pub excluded: u64,
    pub errors: u64,
    pub overflow_events: u64,
}

/// What the index writer counts.
#[derive(Clone, Copy, Debug, PartialEq, Eq, Structural)]
pub struct WriterStats {
    pub commits: u64,
    pub last_commit_latency_ms: u32,
    pub generation: u64,
}

/// The memory that the daemon uses.
#[derive(Clone, Copy, Debug, PartialEq, Eq, Structural)]
pub struct MemoryStats {
    pub rss_bytes: u64,
    pub vm_peak_bytes: u64,
    pub vm_size_bytes: u64,
    pub vm_swap_bytes: u64,
}

/// The state of the queue for text recognition. `last_drain_at` is in
/// seconds since the epoch; `None` means that nothing was drained since the
/// start.
#[derive(Clone, Copy, Debug, PartialEq, Eq, Structural)]
pub struct OcrStats {
    pub queue_total: u64,
    pub queue_pending: u64,
    pub queue_failed: u64,
    pub drained_total: u64,
    pub last_drain_at: Option<i64>,
}

impl Default for WatcherStats {
    fn default() -> (r: Self)
        ensures
            r == (WatcherStats { directories: 0, excluded: 0, errors: 0, overflow_events: 0 }),
    {
        WatcherStats { directories: 0, excluded: 0, errors: 0, overflow_events: 0 }
    }
}

impl Default for WriterStats {
    fn default() -> (r: Self)
        ensures
            r == (WriterStats { commits: 0, last_commit_latency_ms: 0, generation: 0 }),
    {
        WriterStats { commits: 0, last_commit_latency_ms: 0, generation: 0 }
    }
}

impl Default for MemoryStats {
    fn default() -> (r: Self)
        ensures
            r == (MemoryStats {
                rss_bytes: 0,
                vm_peak_bytes: 0,
                vm_size_bytes: 0,
                vm_swap_bytes: 0,
            }),
    {
        MemoryStats { rss_bytes: 0, vm_peak_bytes: 0, vm_size_bytes: 0, vm_swap_bytes: 0 }
    }
}

impl Default for OcrStats {
    fn default() -> (r: Self)
        ensures
            r == (OcrStats {
                queue_total: 0,
                queue_pending: 0,
                queue_failed: 0,
                drained_total: 0,
                last_drain_at: None,
            }),
            r.balanced(),
    {
        OcrStats {
            queue_total: 0,
            queue_pending: 0,
            queue_failed: 0,
            drained_total: 0,
            last_drain_at: None,
        }
    }
}

impl OcrStats {
    /// Whether every queued job is pending or has failed.
    pub open spec fn balanced(&self) -> bool {
        self.queue_total == self.queue_pending + self.queue_failed
    }

    /// The state of a queue with these jobs.
    pub fn new(pending: u64, failed: u64, drained_total: u64, last_drain_at: Option<i64>) -> (r:
        OcrStats)
        requires
            pending + failed <= u64::MAX,
        ensures
            r.balanced(),
            r.queue_pending == pending,
            r.queue_failed == failed,
            r.drained_total == drained_total,
            r.last_drain_at == last_drain_at,
    {
        OcrStats {
            queue_total: pending + failed,
            queue_pending: pending,
            queue_failed: failed,
            drained_total,
            last_drain_at,
        }
    }
}

/// Which of the replies to a search a chunk is.
#[derive(Clone, Copy, Debug, PartialEq, Eq, Structural)]
pub enum Phase {
    /// Provisional: lexical hits only.
    Initial,
    /// Authoritative.
    Final,
}

/// The presets of how much of the machine the daemon uses.
#[derive(Clone, Copy, Debug, PartialEq, Eq, Structural)]
pub enum SystemImpact {
    Unlimited,
    High,
    Medium,
    Low,
}

/// What a preset comes to. The interval is given by its whole seconds and
/// the nanoseconds beyond them.
#[derive(Clone, Copy, Debug, PartialEq, Eq, Structural)]
pub struct ImpactProfile {
    pub level: SystemImpact,
    pub tokio_worker_threads: usize,
    pub onnx_intra_threads: usize,
    pub onnx_inter_threads: usize,
    pub rayon_threads: usize,
    pub tantivy_heap_bytes: usize,
    pub tantivy_num_threads: usize,
    pub embed_batch_hint: usize,
    pub embed_concurrency_hint: Option<usize>,
    pub ocr_jobs_per_tick: usize,
    pub ocr_adaptive_throttle: bool,
    pub ocr_nice_level: i32,
    pub ocr_io_class_idle: bool,
    pub ocr_worker_interval_secs: u64,
    pub ocr_worker_interval_nanos: u32,
    pub extract_cache_max_bytes: usize,
    pub max_file_size_bytes: u64,
    pub gloda_batch_size: usize,
    pub daemon_nice: i32,
    pub daemon_sched_idle: bool,
}

/// A preset as it is sent: the interval in whole seconds.
#[derive(Clone, Copy, Debug, PartialEq, Eq, Structural)]
pub struct ImpactProfileWire {
    pub level: SystemImpact,
    pub tokio_worker_threads: usize,
    pub onnx_intra_threads: usize,
    pub onnx_inter_threads: usize,
    pub rayon_threads: usize,
    pub tantivy_heap_bytes: usize,
    pub tantivy_num_threads: usize,
    pub embed_batch_hint: usize,
    pub embed_concurrency_hint: Option<usize>,
    pub ocr_jobs_per_tick: usize,
    pub ocr_adaptive_throttle: bool,
    pub ocr_nice_level: i32,
    pub ocr_io_class_idle: bool,
    pub ocr_worker_interval_secs: u64,
    pub extract_cache_max_bytes: usize,
    pub max_file_size_bytes: u64,
    pub gloda_batch_size: usize,
    pub daemon_nice: i32,
    pub daemon_sched_idle: bool,
}

impl ImpactProfileWire {
    /// Whether `wire` says what `p` says, but for the part of the interval
    /// below a second.
    pub open spec fn mirrors(self, p: ImpactProfile) -> bool {
        &&& self.level == p.level
        &&& self.tokio_worker_threads == p.tokio_worker_threads
        &&& self.onnx_intra_threads == p.onnx_intra_threads
        &&& self.onnx_inter_threads == p.onnx_inter_threads
        &&& self.rayon_threads == p.rayon_threads
        &&& self.tantivy_heap_bytes == p.tantivy_heap_bytes
        &&& self.tantivy_num_threads == p.tantivy_num_threads
        &&& self.embed_batch_hint == p.embed_batch_hint
        &&& self.embed_concurrency_hint == p.embed_concurrency_hint
        &&& self.ocr_jobs_per_tick == p.ocr_jobs_per_tick
        &&& self.ocr_adaptive_throttle == p.ocr_adaptive_throttle
        &&& self.ocr_nice_level == p.ocr_nice_level
        &&& self.ocr_io_class_idle == p.ocr_io_class_idle
        &&& self.ocr_worker_interval_secs == p.ocr_worker_interval_secs
        &&& self.extract_cache_max_bytes == p.extract_cache_max_bytes
        &&& self.max_file_size_bytes == p.max_file_size_bytes
        &&& self.gloda_batch_size == p.gloda_batch_size
        &&& self.daemon_nice == p.daemon_nice
        &&& self.daemon_sched_idle == p.daemon_sched_idle
    }

    /// A preset as it is sent.
    pub fn of(p: &ImpactProfile) -> (r: ImpactProfileWire)
        ensures
            r.mirrors(*p),
            r == (ImpactProfileWire {
                level: p.level,
                tokio_worker_threads: p.tokio_worker_threads,
                onnx_intra_threads: p.onnx_intra_threads,
                onnx_inter_threads: p.onnx_inter_threads,
                rayon_threads: p.rayon_threads,
                tantivy_heap_bytes: p.tantivy_heap_bytes,
                tantivy_num_threads: p.tantivy_num_threads,
                embed_batch_hint: p.embed_batch_hint,
                embed_concurrency_hint: p.embed_concurrency_hint,
                ocr_jobs_per_tick: p.ocr_jobs_per_tick,
                ocr_adaptive_throttle: p.ocr_adaptive_throttle,
                ocr_nice_level: p.ocr_nice_level,
                ocr_io_class_idle: p.ocr_io_class_idle,
                ocr_worker_interval_secs: p.ocr_worker_interval_secs,
                extract_cache_max_bytes: p.extract_cache_max_bytes,
                max_file_size_bytes: p.max_file_size_bytes,
                gloda_batch_size: p.gloda_batch_size,
                daemon_nice: p.daemon_nice,
                daemon_sched_idle: p.daemon_sched_idle,
            }),
    {
        ImpactProfileWire {
            level: p.level,
            tokio_worker_threads: p.tokio_worker_threads,
            onnx_intra_threads: p.onnx_intra_threads,
            onnx_inter_threads: p.onnx_inter_threads,
            rayon_threads: p.rayon_threads,
            tantivy_heap_bytes: p.tantivy_heap_bytes,
            tantivy_num_threads: p.tantivy_num_threads,
            embed_batch_hint: p.embed_batch_hint,
            embed_concurrency_hint: p.embed_concurrency_hint,
            ocr_jobs_per_tick: p.ocr_jobs_per_tick,
            ocr_adaptive_throttle: p.ocr_adaptive_throttle,
            ocr_nice_level: p.ocr_nice_level,
            ocr_io_class_idle: p.ocr_io_class_idle,
            ocr_worker_interval_secs: p.ocr_worker_interval_secs,
            extract_cache_max_bytes: p.extract_cache_max_bytes,
            max_file_size_bytes: p.max_file_size_bytes,
            gloda_batch_size: p.gloda_batch_size,
            daemon_nice: p.daemon_nice,
            daemon_sched_idle: p.daemon_sched_idle,
        }
    }
}

/// The versions that the channel supports.
pub open spec fn versions() -> Versions {
    Versions { min: MIN_PROTOCOL_VERSION, max: PROTOCOL_VERSION }
}

/// Frames the messages of the channel.
#[derive(Clone, Copy, Debug, PartialEq, Eq, Structural)]
pub struct FrameCodec {
    pub state: DecodeState,
}

impl Default for FrameCodec {
    fn default() -> (r: Self)
        ensures
            r.state == DecodeState::Header,
    {
        FrameCodec { state: DecodeState::Header }
    }
}

impl FrameCodec {
    /// Appends the frame of a serialised message.
    pub fn encode(&mut self, payload: &[u8], dst: &mut BytesMut)
        requires
            frames::buffered(*old(dst)).len() + 6 + payload@.len() <= isize::MAX,
        ensures
            *final(self) == *old(self),
            frames::buffered(*final(dst)) == frames::buffered(*old(dst)) + frames::frame(
                PROTOCOL_VERSION,
                payload@,
            ),
    {
        frames::append_frame(dst, PROTOCOL_VERSION, payload);
    }

    /// Takes the next payload off the front of the buffer; nothing where
    /// bytes are missing. [`FrameCodec::accept`] follows once the payload
    /// has been understood.
    pub fn decode(&mut self, src: &mut BytesMut) -> (r: Result<Option<Vec<u8>>, FrameError>)
        requires
            frames::sound(old(self).state),
        ensures
            frames::sound(final(self).state),
            ({
                let s = frames::scan(
                    old(self).state,
                    frames::buffered(*old(src)),
                    versions(),
                );
                &&& final(self).state == s.state
                &&& frames::buffered(*final(src)) == s.rest
                &&& frames::result_view(r) == s.result
            }),
    {
        let mut state = self.state;
        let r = frames::decode(
            &mut state,
            src,
            Versions { min: MIN_PROTOCOL_VERSION, max: PROTOCOL_VERSION },
        );
        self.state = state;
        r
    }

    /// Turns to the next frame.
    pub fn accept(&mut self)
        ensures
            final(self).state == DecodeState::Header,
    {
        self.state = DecodeState::Header;
    }
}

/// The text `a..=b`.
pub open spec fn range_text(min: u16, max: u16) -> Seq<char> {
    text::decimal(min as nat) + "..="@ + text::decimal(max as nat)
}

/// The message of a fault.
pub open spec fn error_message(e: FrameError) -> Seq<char> {
    match e {
        FrameError::TooShort => "frame too short for version"@,
        FrameError::Version(v) => "version "@ + text::decimal(v as nat) + " outside supported "@
            + range_text(MIN_PROTOCOL_VERSION, PROTOCOL_VERSION),
        FrameError::TooLarge => "frame too large"@,
        FrameError::Truncated => "failed to fill whole buffer"@,
    }
}

/// The text `a..=b`.
pub fn supported_range(min: u16, max: u16) -> (r: String)
    ensures
        r@ == range_text(min, max),
{
    let mut s = text::decimal_u64(min as u64);
    s.push_str("..=");
    s.push_str(text::decimal_u64(max as u64).as_str());
    s
}

/// The message of a fault.
pub fn error_text(e: FrameError) -> (r: String)
    ensures
        r@ == error_message(e),
{
    match e {
        FrameError::TooShort => "frame too short for version".to_string(),
        FrameError::Version(v) => {
            let mut s = "version ".to_string();
            s.push_str(text::decimal_u64(v as u64).as_str());
            s.push_str(" outside supported ");
            s.push_str(supported_range(MIN_PROTOCOL_VERSION, PROTOCOL_VERSION).as_str());
            s
        },
        FrameError::TooLarge => "frame too large".to_string(),
        FrameError::Truncated => "failed to fill whole buffer".to_string(),
    }
}

// ---------------------------------------------------------------------
// Where the sockets are
// ---------------------------------------------------------------------

/// The user id that a line of a process status gives.
pub open spec fn line_uid(line: Seq<char>) -> Option<u32> {
    if "Uid:"@.is_prefix_of(line) {
        let words = text::words(line.skip("Uid:"@.len() as int));
        if words.len() == 0 {
            Some(0)
        } else {
            layout::parsed_u32(words[0])
        }
    } else {
        None
    }
}

/// The user id that the first line to have one gives.
pub open spec fn first_uid(lines: Seq<Seq<char>>) -> Option<u32>
    decreases lines.len(),
{
    if lines.len() == 0 {
        None
    } else if line_uid(lines[0]) is Some {
        line_uid(lines[0])
    } else {
        first_uid(lines.drop_first())
    }
}

/// The user id: what the environment says, or else what the process status
/// says, or else 1000.
pub open spec fn uid_of(env: Option<Seq<char>>, status: Option<Seq<char>>) -> u32 {
    let from_env = match env {
        Some(e) => layout::parsed_u32(e),
        None => None,
    };
    let from_status = match status {
        Some(s) => first_uid(text::lines(s)),
        None => None,
    };
    match (from_env, from_status) {
        (Some(u), _) => u,
        (None, Some(u)) => u,
        (None, None) => 1000,
    }
}

/// An optional text.
pub open spec fn opt_text(o: Option<&str>) -> Option<Seq<char>> {
    match o {
        Some(s) => Some(s@),
        None => None,
    }
}

fn uid_in_line(line: &Vec<char>) -> (r: Option<u32>)
    ensures
        r == line_uid(line@),
{
    let key: Vec<char> = text::to_chars("Uid:");
    if !text::chars_start_with(line, &key) {
        return None;
    }
    let rest = text::cut(line, key.len(), line.len());
    proof {
        assert(rest@ =~= line@.skip("Uid:"@.len() as int));
    }
    let words = text::split_words(&rest);
    if words.len() == 0 {
        Some(0)
    } else {
        proof {
            assert(text::texts(words@)[0] == words@[0]@);
        }
        layout::parse_u32(&words[0])
    }
}

/// The user id. `env` is what the environment says, `status` the status of
/// the process, where they can be read.
pub fn get_uid_fallback(env: Option<&str>, status: Option<&str>) -> (r: u32)
    ensures
        r == uid_of(opt_text(env), opt_text(status)),
{
    match env {
        Some(e) => {
            match layout::parse_u32(&text::to_chars(e)) {
                Some(u) => {
                    return u;
                },
                None => {},
            }
        },
        None => {},
    }
    match status {
        Some(s) => {
            let lines = text::split_lines(&text::to_chars(s));
            let ghost all = text::lines(s@);
            let mut i: usize = 0;
            proof {
                assert(all.skip(0) =~= all);
            }
            while i < lines.len()
                invariant
                    i <= lines@.len(),
                    text::texts(lines@) == all,
                    first_uid(all) == first_uid(all.skip(i as int)),
                    all == text::lines(s@),
                    status == Some(s),
                    match env {
                        Some(e) => layout::parsed_u32(e@) is None,
                        None => true,
                    },
                decreases lines@.len() - i,
            {
                proof {
                    assert(all.skip(i as int)[0] == lines@[i as int]@);
                    assert(all.skip(i as int).drop_first() =~= all.skip(i + 1));
                }
                match uid_in_line(&lines[i]) {
                    Some(u) => {
                        return u;
                    },
                    None => {},
                }
                i = i + 1;
            }
            1000
        },
        None => 1000,
    }
}

/// Where a socket is: in the runtime directory, or in the temporary
/// directory under a name that holds the user id.
pub open spec fn socket_place(
    runtime_dir: Option<Seq<char>>,
    uid: u32,
    name: Seq<char>,
) -> Seq<char> {
    match runtime_dir {
        Some(d) => paths::join_of(d, name + ".sock"@),
        None => "/tmp/"@ + name + "-"@ + text::decimal(uid as nat) + ".sock"@,
    }
}

/// Where a socket is.
pub fn socket_in(runtime_dir: Option<&str>, uid: u32, name: &str) -> (r: String)
    ensures
        r@ == socket_place(opt_text(runtime_dir), uid, name@),
{
    match runtime_dir {
        Some(d) => {
            let mut file = name.to_string();
            file.push_str(".sock");
            paths::join(d, file.as_str())
        },
        None => {
            let mut s = "/tmp/".to_string();
            s.push_str(name);
            s.push_str("-");
            s.push_str(text::decimal_u64(uid as u64).as_str());
            s.push_str(".sock");
            s
        },
    }
}

/// Where the daemon's socket is.
pub fn socket_path(runtime_dir: Option<&str>, uid: u32) -> (r: String)
    ensures
        r@ == socket_place(opt_text(runtime_dir), uid, "lixun"@),
{
    socket_in(runtime_dir, uid, "lixun")
}

/// Law: what one side writes the other reads back.
pub proof fn law_round_trip(payload: Seq<u8>, rest: Seq<u8>)
    requires
        2 + payload.len() <= u32::MAX,
    ensures
        ({
            let s = frames::scan(
                DecodeState::Header,
                frames::frame(PROTOCOL_VERSION, payload) + rest,
                versions(),
            );
            s.result == Ok::<Option<Seq<u8>>, FrameError>(Some(payload)) && s.rest == rest
        }),
{
    frames::law_round_trip(PROTOCOL_VERSION, payload, rest, versions());
}

/// Law: users do not share a socket: where there is no runtime directory,
/// the place of a socket tells whose it is.
pub proof fn law_users_do_not_share_sockets(a: u32, b: u32, name: Seq<char>)
    requires
        socket_place(None, a, name) == socket_place(None, b, name),
    ensures
        a == b,
{
    let head = "/tmp/"@ + name + "-"@;
    let tail = ".sock"@;
    let x = text::decimal(a as nat);
    let y = text::decimal(b as nat);
    assert(head + x + tail == head + y + tail);
    assert((head + x + tail).len() == head.len() + x.len() + tail.len());
    assert((head + y + tail).len() == head.len() + y.len() + tail.len());
    assert(x =~= (head + x + tail).subrange(head.len() as int, (head.len() + x.len()) as int));
    assert(y =~= (head + y + tail).subrange(head.len() as int, (head.len() + y.len()) as int));
    text::law_numerals_stand_for_numbers(a as nat);
    text::law_numerals_stand_for_numbers(b as nat);
}

/// Law: a socket in a runtime directory is there under its name.
pub proof fn law_sockets_are_in_the_runtime_directory(
    dir: Seq<char>,
    uid: u32,
    name: Seq<char>,
)
    requires
        dir.len() > 0,
        dir.last() != '/',
        name.len() > 0,
        name[0] != '/',
    ensures
        socket_place(Some(dir), uid, name) == dir.push('/') + name + ".sock"@,
{
    assert((name + ".sock"@)[0] == name[0]);
    assert(socket_place(Some(dir), uid, name) =~= dir.push('/') + name + ".sock"@);
}

/// Law: the environment says who the user is, where it says so at all, and
/// else the process status, by the first number of its line.
pub proof fn law_the_environment_names_the_user(
    env: Seq<char>,
    status: Option<Seq<char>>,
    k: int,
)
    requires
        0 <= k,
    ensures
        layout::parsed_u32(env) matches Some(u) ==> uid_of(Some(env), status) == u,
        status matches Some(s) ==> k < text::lines(s).len() && "Uid:"@.is_prefix_of(
            text::lines(s)[k],
        ) && (forall|j: int|
            0 <= j < k ==> !"Uid:"@.is_prefix_of(#[trigger] text::lines(s)[j])) && text::words(
            text::lines(s)[k].skip("Uid:"@.len() as int),
        ).len() > 0 ==> (layout::parsed_u32(
            text::words(text::lines(s)[k].skip("Uid:"@.len() as int))[0],
        ) matches Some(u) ==> uid_of(None, status) == u),
        uid_of(None, None) == 1000,
{
    if let Some(s) = status {
        let ls = text::lines(s);
        if k < ls.len() && "Uid:"@.is_prefix_of(ls[k]) && (forall|j: int|
            0 <= j < k ==> !"Uid:"@.is_prefix_of(#[trigger] ls[j])) && line_uid(ls[k]) is Some {
            lemma_first_uid(ls, k);
        }
    }
}

proof fn lemma_first_uid(lines: Seq<Seq<char>>, k: int)
    requires
        0 <= k < lines.len(),
        line_uid(lines[k]) is Some,
        forall|j: int| 0 <= j < k ==> !"Uid:"@.is_prefix_of(#[trigger] lines[j]),
    ensures
        first_uid(lines) == line_uid(lines[k]),
    decreases k,
{
    if k > 0 {
        assert(!"Uid:"@.is_prefix_of(lines[0]));
        assert forall|j: int| 0 <= j < k - 1 implies !"Uid:"@.is_prefix_of(
            #[trigger] lines.drop_first()[j],
        ) by {
            assert(lines.drop_first()[j] == lines[j + 1]);
        }
        lemma_first_uid(lines.drop_first(), k - 1);
    }
}

/// Law: the message about a version out of range names it, ahead of the
/// versions that are understood.
pub proof fn law_another_version_is_named(v: u16)
    ensures
        ("version "@ + text::decimal(v as nat) + " "@).is_prefix_of(
            error_message(FrameError::Version(v)),
        ),
        text::decimal(PROTOCOL_VERSION as nat).is_suffix_of(error_message(FrameError::Version(v))),
{
    reveal_strlit(" outside supported ");
    reveal_strlit(" ");
    let s = error_message(FrameError::Version(v));
    let head = "version "@ + text::decimal(v as nat) + " "@;
    let tail = text::decimal(PROTOCOL_VERSION as nat);
    assert(s.subrange(0, head.len() as int) =~= head);
    assert(s.subrange(s.len() - tail.len(), s.len() as int) =~= tail);
}

} // verus!
