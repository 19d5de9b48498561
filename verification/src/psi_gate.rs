//! Idle probes: CPU pressure, and the conjunction of several probes.

use std::sync::Arc;

use vstd::prelude::*;

use crate::ocr_tick::IdleGate;
use crate::text;

verus! {

/// Where the kernel reports CPU pressure.
pub const DEFAULT_PSI_CPU_PATH: &'static str = "/proc/pressure/cpu";

/// The value of the first word with the key `avg10`, if any.
pub open spec fn first_avg10(words: Seq<Seq<char>>) -> Option<Seq<char>>
    decreases words.len(),
{
    if words.len() == 0 {
        None
    } else if "avg10="@.is_prefix_of(words[0]) {
        Some(words[0].skip("avg10="@.len() as int))
    } else {
        first_avg10(words.drop_first())
    }
}

/// The value that one line of a pressure report gives.
pub open spec fn line_avg10(line: Seq<char>) -> Option<Seq<char>> {
    if "some "@.is_prefix_of(line) {
        first_avg10(text::words(line.skip("some "@.len() as int)))
    } else {
        None
    }
}

/// The value that the first line to have one gives.
pub open spec fn lines_avg10(all: Seq<Seq<char>>) -> Option<Seq<char>>
    decreases all.len(),
{
    if all.len() == 0 {
        None
    } else if line_avg10(all[0]) is Some {
        line_avg10(all[0])
    } else {
        lines_avg10(all.drop_first())
    }
}

/// The numeral of `some avg10` in a pressure report.
pub open spec fn some_avg10_of(report: Seq<char>) -> Option<Seq<char>> {
    lines_avg10(text::lines(report))
}

fn avg10_of_line(line: &Vec<char>) -> (r: Option<Vec<char>>)
    ensures
        match r {
            Some(v) => line_avg10(line@) == Some(v@),
            None => line_avg10(line@) is None,
        },
{
    let head = text::to_chars("some ");
    if !text::chars_start_with(line, &head) {
        return None;
    }
    let rest = text::cut(line, head.len(), line.len());
    let pieces = text::split_words(&rest);
    let ghost ws = text::texts(pieces@);
    proof {
        assert(rest@ =~= line@.skip("some "@.len() as int));
        assert(ws.skip(0) =~= ws);
    }
    let key = text::to_chars("avg10=");
    let mut i: usize = 0;
    while i < pieces.len()
        invariant
            i <= pieces@.len(),
            ws == text::texts(pieces@),
            key@ == "avg10="@,
            line_avg10(line@) == first_avg10(ws),
            first_avg10(ws) == first_avg10(ws.skip(i as int)),
        decreases pieces@.len() - i,
    {
        proof {
            assert(ws.skip(i as int)[0] == pieces@[i as int]@);
            assert(ws.skip(i as int).drop_first() =~= ws.skip(i + 1));
        }
        if text::chars_start_with(&pieces[i], &key) {
            let v = text::cut(&pieces[i], key.len(), pieces[i].len());
            proof {
                assert(v@ =~= pieces@[i as int]@.skip("avg10="@.len() as int));
            }
            return Some(v);
        }
        i = i + 1;
    }
    None
}

/// Reads the numeral of `some avg10` from a pressure report; `None` where
/// the report holds none.
pub fn read_some_avg10(report: &str) -> (r: Option<String>)
    ensures
        match r {
            Some(v) => some_avg10_of(report@) == Some(v@),
            None => some_avg10_of(report@) is None,
        },
{
    let all = text::split_lines(&text::to_chars(report));
    let ghost ls = text::texts(all@);
    proof {
        assert(ls.skip(0) =~= ls);
    }
    let mut i: usize = 0;
    while i < all.len()
        invariant
            i <= all@.len(),
            ls == text::texts(all@),
            ls == text::lines(report@),
            lines_avg10(ls) == lines_avg10(ls.skip(i as int)),
        decreases all@.len() - i,
    {
        proof {
            assert(ls.skip(i as int)[0] == all@[i as int]@);
            assert(ls.skip(i as int).drop_first() =~= ls.skip(i + 1));
        }
        match avg10_of_line(&all[i]) {
            Some(v) => {
                return Some(text::from_chars(&v));
            },
            None => {},
        }
        i = i + 1;
    }
    None
}

/// What a look at the pressure report showed.
#[derive(Debug, Clone, Copy, PartialEq, Eq, Structural)]
pub enum PressureReading {
    /// The pressure is at or below the threshold.
    AtMostThreshold,
    AboveThreshold,
    /// The report is missing, unreadable or does not parse.
    Unavailable,
}

/// Whether a gate, live or not, calls the machine idle on a reading.
pub open spec fn idle_for(live: bool, reading: PressureReading) -> bool {
    !live || reading != PressureReading::AboveThreshold
}

/// Whether a gate is live after a reading.
pub open spec fn live_after(live: bool, reading: PressureReading) -> bool {
    live && reading != PressureReading::Unavailable
}

/// Whether a gate is live after some readings.
pub open spec fn live_after_all(live: bool, readings: Seq<PressureReading>) -> bool
    decreases readings.len(),
{
    if readings.len() == 0 {
        live
    } else {
        live_after(live_after_all(live, readings.drop_last()), readings.last())
    }
}

/// The numeral of `some avg10` in a report that may be missing.
pub open spec fn numeral_in(report: Option<&str>) -> Option<Seq<char>> {
    match report {
        Some(t) => some_avg10_of(t@),
        None => None,
    }
}

/// What an answer to whether the pressure is at most the threshold shows;
/// there is none where the numeral is no number.
pub open spec fn reading_for(answer: Option<bool>) -> PressureReading {
    match answer {
        Some(true) => PressureReading::AtMostThreshold,
        Some(false) => PressureReading::AboveThreshold,
        None => PressureReading::Unavailable,
    }
}

/// Idle probe driven by the kernel's CPU pressure report.
///
/// Fails open: once a reading is unavailable the probe disables itself and
/// reports idle from then on.
#[derive(Debug, Clone, PartialEq, Eq)]
pub struct CpuPsiGate {
    enabled: bool,
    path: String,
}

impl CpuPsiGate {
    /// Whether the probe has not disabled itself.
    pub closed spec fn live(&self) -> bool {
        self.enabled
    }

    /// Where the probe looks.
    pub closed spec fn source(&self) -> Seq<char> {
        self.path@
    }

    /// A probe that looks at the kernel's own report.
    pub fn new() -> (r: CpuPsiGate)
        ensures
            r.live(),
            r.source() == DEFAULT_PSI_CPU_PATH@,
    {
        CpuPsiGate {
            enabled: true,
            path: text::from_chars(&text::to_chars(DEFAULT_PSI_CPU_PATH)),
        }
    }

    /// A probe that looks at any file.
    pub fn with_path(path: String) -> (r: CpuPsiGate)
        ensures
            r.live(),
            r.source() == path@,
    {
        CpuPsiGate { enabled: true, path }
    }

    /// A probe for a machine whose kernel reports no pressure: disabled from
    /// the start.
    pub fn disabled() -> (r: CpuPsiGate)
        ensures
            !r.live(),
            r.source() == DEFAULT_PSI_CPU_PATH@,
    {
        CpuPsiGate {
            enabled: false,
            path: text::from_chars(&text::to_chars(DEFAULT_PSI_CPU_PATH)),
        }
    }

    /// Whether the probe is currently live (has not disabled itself).
    pub fn is_enabled(&self) -> (r: bool)
        ensures
            r == self.live(),
    {
        self.enabled
    }

    /// The file to look at ahead of [`Self::observe`]; none once the probe
    /// has disabled itself.
    pub fn next_reading(&self) -> (r: Option<&str>)
        ensures
            match r {
                Some(p) => self.live() && p@ == self.source(),
                None => !self.live(),
            },
    {
        if self.enabled {
            Some(self.path.as_str())
        } else {
            None
        }
    }

    /// Whether the system counts as idle after `reading`.
    pub fn observe(&mut self, reading: PressureReading) -> (r: bool)
        ensures
            r == idle_for(old(self).live(), reading),
            final(self).live() == live_after(old(self).live(), reading),
            final(self).source() == old(self).source(),
    {
        if !self.enabled {
            return true;
        }
        match reading {
            PressureReading::AtMostThreshold => true,
            PressureReading::AboveThreshold => false,
            PressureReading::Unavailable => {
                self.enabled = false;
                true
            },
        }
    }

    /// Whether the system counts as idle, given the report at the probe's
    /// file, or nothing where it could not be read. `at_most` says of a
    /// numeral whether it is at most the threshold, or nothing where it is
    /// no number.
    ///
    /// A live probe answers as `at_most` does on the numeral of
    /// `some avg10`. Where the report is missing or has none, or it is no
    /// number, the probe disables itself and answers idle, and it does so on
    /// every later call.
    pub fn is_idle<F: Fn(String) -> Option<bool>>(
        &mut self,
        report: Option<&str>,
        at_most: F,
    ) -> (r: bool)
        requires
            forall|s: String| #[trigger] call_requires(at_most, (s,)),
        ensures
            final(self).source() == old(self).source(),
            !old(self).live() ==> r && !final(self).live(),
            old(self).live() && numeral_in(report) is None ==> r && !final(self).live(),
            old(self).live() ==> match numeral_in(report) {
                None => true,
                Some(t) => exists|s: String, answer: Option<bool>|
                    s@ == t && #[trigger] call_ensures(at_most, (s,), answer) && r == idle_for(
                        true,
                        reading_for(answer),
                    ) && final(self).live() == live_after(true, reading_for(answer)),
            },
    {
        if !self.enabled {
            return true;
        }
        let numeral = match report {
            Some(t) => read_some_avg10(t),
            None => None,
        };
        match numeral {
            None => self.observe(PressureReading::Unavailable),
            Some(n) => {
                let ghost handed = n;
                let answer = at_most(n);
                proof {
                    assert(call_ensures(at_most, (handed,), answer));
                }
                match answer {
                    Some(true) => self.observe(PressureReading::AtMostThreshold),
                    Some(false) => self.observe(PressureReading::AboveThreshold),
                    None => self.observe(PressureReading::Unavailable),
                }
            },
        }
    }
}

/// Composite probe: idle iff every sub-probe reports idle. Stops at the first
/// busy probe.
pub struct CompositeIdleGate {
    pub gates: Vec<Arc<dyn IdleGate>>,
}

impl IdleGate for CompositeIdleGate {
    /// Idle where every probe answers so, in turn; busy where one does not,
    /// and those ahead of it do.
    open spec fn may_answer(&self, idle: bool) -> bool {
        if idle {
            forall|k: int|
                0 <= k < self.gates@.len() ==> (#[trigger] self.gates@[k]).may_answer(true)
        } else {
            exists|k: int|
                0 <= k < self.gates@.len() && (#[trigger] self.gates@[k]).may_answer(false)
                    && forall|j: int| 0 <= j < k ==> (#[trigger] self.gates@[j]).may_answer(true)
        }
    }

    fn is_idle(&self) -> (r: bool) {
        let mut i: usize = 0;
        while i < self.gates.len()
            invariant
                i <= self.gates@.len(),
                forall|k: int| 0 <= k < i ==> (#[trigger] self.gates@[k]).may_answer(true),
            decreases self.gates@.len() - i,
        {
            if !self.gates[i].is_idle() {
                return false;
            }
            i = i + 1;
        }
        true
    }
}

/// Whether probes that gave these answers are idle together.
pub fn all_idle(answers: &Vec<bool>) -> (r: bool)
    ensures
        r == !answers@.contains(false),
{
    let mut i: usize = 0;
    while i < answers.len()
        invariant
            i <= answers@.len(),
            forall|k: int| 0 <= k < i ==> answers@[k],
        decreases answers@.len() - i,
    {
        if !answers[i] {
            proof {
                assert(answers@[i as int] == false);
            }
            return false;
        }
        i = i + 1;
    }
    true
}

/// Law: a gate fails open for good. Once a reading could not be had, it
/// calls the machine idle on every later one, whatever came between.
pub proof fn law_gate_fails_open(
    live: bool,
    readings: Seq<PressureReading>,
    next: PressureReading,
)
    requires
        readings.contains(PressureReading::Unavailable),
    ensures
        !live_after_all(live, readings),
        idle_for(live_after_all(live, readings), next),
    decreases readings.len(),
{
    let k = choose|k: int|
        0 <= k < readings.len() && readings[k] == PressureReading::Unavailable;
    if readings.last() != PressureReading::Unavailable {
        assert(readings.drop_last()[k] == PressureReading::Unavailable);
        law_gate_fails_open(live, readings.drop_last(), next);
    }
}

/// Law: a machine under more pressure than the threshold is busy, where the
/// pressure can be read; on any other reading it is idle. Once a reading
/// could not be had, no other is taken.
pub proof fn law_pressure_decides(reading: PressureReading)
    ensures
        idle_for(true, reading) <==> reading != PressureReading::AboveThreshold,
        idle_for(false, reading),
        live_after(true, reading) <==> reading != PressureReading::Unavailable,
        !live_after(false, reading),
        reading_for(Some(true)) == PressureReading::AtMostThreshold,
        reading_for(Some(false)) == PressureReading::AboveThreshold,
        reading_for(None) == PressureReading::Unavailable,
{
}

proof fn lemma_first_avg10(words: Seq<Seq<char>>, k: int)
    requires
        0 <= k < words.len(),
        "avg10="@.is_prefix_of(words[k]),
        forall|j: int| 0 <= j < k ==> !("avg10="@.is_prefix_of(#[trigger] words[j])),
    ensures
        first_avg10(words) == Some(words[k].skip("avg10="@.len() as int)),
    decreases k,
{
    if k > 0 {
        assert(!("avg10="@.is_prefix_of(words[0])));
        let rest = words.drop_first();
        assert forall|j: int| 0 <= j < k - 1 implies !("avg10="@.is_prefix_of(
            #[trigger] rest[j],
        )) by {
            assert(rest[j] == words[j + 1]);
        }
        assert(rest[k - 1] == words[k]);
        lemma_first_avg10(rest, k - 1);
    }
}

/// Law: the pressure is what follows `avg10=` in the report's first line
/// that begins with `some`, in whatever place of the line it stands.
pub proof fn law_the_pressure_is_read_off_the_report(
    lead: Seq<Seq<char>>,
    line: Seq<char>,
    behind: Seq<Seq<char>>,
    k: int,
    numeral: Seq<char>,
)
    requires
        forall|i: int| 0 <= i < lead.len() ==> !("some "@.is_prefix_of(#[trigger] lead[i])),
        "some "@.is_prefix_of(line),
        0 <= k < text::words(line.skip("some "@.len() as int)).len(),
        text::words(line.skip("some "@.len() as int))[k] == "avg10="@ + numeral,
        forall|j: int|
            0 <= j < k ==> !("avg10="@.is_prefix_of(
                #[trigger] text::words(line.skip("some "@.len() as int))[j],
            )),
    ensures
        lines_avg10(lead.push(line) + behind) == Some(numeral),
    decreases lead.len(),
{
    let all = lead.push(line) + behind;
    let words = text::words(line.skip("some "@.len() as int));
    let n = "avg10="@.len() as int;
    assert(("avg10="@ + numeral).subrange(0, n) =~= "avg10="@);
    assert(("avg10="@ + numeral).skip(n) =~= numeral);
    lemma_first_avg10(words, k);
    if lead.len() == 0 {
        assert(all[0] == line);
    } else {
        assert(all[0] == lead[0]);
        assert(!("some "@.is_prefix_of(lead[0])));
        let rest = lead.drop_first();
        assert(all.drop_first() =~= rest.push(line) + behind);
        assert forall|i: int| 0 <= i < rest.len() implies !("some "@.is_prefix_of(
            #[trigger] rest[i],
        )) by {
            assert(rest[i] == lead[i + 1]);
        }
        law_the_pressure_is_read_off_the_report(rest, line, behind, k, numeral);
    }
}

/// Law: the pressure of a report is the number behind `avg10=` in its line
/// of tasks that are kept waiting.
pub proof fn law_a_report_gives_the_pressure(
    report: Seq<char>,
    lead: Seq<Seq<char>>,
    line: Seq<char>,
    behind: Seq<Seq<char>>,
    numeral: Seq<char>,
)
    requires
        text::lines(report) == lead.push(line) + behind,
        forall|i: int| 0 <= i < lead.len() ==> !("some "@.is_prefix_of(#[trigger] lead[i])),
        "some "@.is_prefix_of(line),
        text::words(line.skip("some "@.len() as int)).len() > 0,
        text::words(line.skip("some "@.len() as int))[0] == "avg10="@ + numeral,
    ensures
        some_avg10_of(report) == Some(numeral),
{
    law_the_pressure_is_read_off_the_report(lead, line, behind, 0, numeral);
}

} // verus!
