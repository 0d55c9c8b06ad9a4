//! Setting the radio up anew.

use vstd::prelude::*;
use crate::httpd::lines;
use crate::httpd::lines::{numbered, push_line, surrounded};
use crate::text::{append_decimal, parse_unsigned, same_text};

verus! {

/// How the radio sets its gain.
#[derive(Debug, Clone, Copy, PartialEq, Eq, Structural)]
pub enum GainMode {
    Manual,
    FastAttack,
    SlowAttack,
    Hybrid,
}

/// The settings that the radio was started with. Frequencies are in hertz.
#[derive(Debug, Clone, Copy, PartialEq, Eq, Structural)]
pub struct RadioSettings {
    pub rx_lo: u64,
    pub control_freq: u64,
    pub sample_rate: u32,
    pub rf_bandwidth: u32,
}

/// The settings of one request, as they were given.
pub struct ReinitRequest<'a> {
    pub rx_lo: Option<&'a str>,
    pub control_freq: Option<&'a str>,
    pub sample_rate: Option<&'a str>,
    pub rf_bandwidth: Option<&'a str>,
    pub gain_mode: Option<&'a str>,
}

/// One setting to make.
#[derive(Debug, Clone, Copy, PartialEq, Eq, Structural)]
pub enum ReinitStep {
    RxLo(u64),
    SamplingFrequency(u32),
    RfBandwidth(u32),
    GainControlMode(GainMode),
    HardwareGain,
    DdcOffset { control_freq: u64 },
}

/// What is set, step by step.
#[derive(Debug)]
pub struct ReinitPlan {
    pub settings: RadioSettings,
    pub gain_mode: GainMode,
    pub steps: Vec<ReinitStep>,
}

/// The mode of a name.
pub open spec fn gain_mode_of(name: Seq<char>) -> Option<GainMode> {
    if name == "manual"@ {
        Some(GainMode::Manual)
    } else if name == "fast_attack"@ {
        Some(GainMode::FastAttack)
    } else if name == "slow_attack"@ {
        Some(GainMode::SlowAttack)
    } else if name == "hybrid"@ {
        Some(GainMode::Hybrid)
    } else {
        None
    }
}

/// The name of a mode.
pub open spec fn gain_mode_name(mode: GainMode) -> Seq<char> {
    match mode {
        GainMode::Manual => "manual"@,
        GainMode::FastAttack => "fast_attack"@,
        GainMode::SlowAttack => "slow_attack"@,
        GainMode::Hybrid => "hybrid"@,
    }
}

impl GainMode {
    /// The name of the mode.
    pub fn as_str(&self) -> (name: &'static str)
        ensures
            name@ == gain_mode_name(*self),
    {
        match self {
            GainMode::Manual => "manual",
            GainMode::FastAttack => "fast_attack",
            GainMode::SlowAttack => "slow_attack",
            GainMode::Hybrid => "hybrid",
        }
    }

    /// The mode of a name.
    pub fn from_name(name: &str) -> (mode: Option<GainMode>)
        ensures
            mode == gain_mode_of(name@),
    {
        if same_text(name, "manual") {
            Some(GainMode::Manual)
        } else if same_text(name, "fast_attack") {
            Some(GainMode::FastAttack)
        } else if same_text(name, "slow_attack") {
            Some(GainMode::SlowAttack)
        } else if same_text(name, "hybrid") {
            Some(GainMode::Hybrid)
        } else {
            None
        }
    }
}

/// The number that was given, or the one to take where none was that fits.
pub open spec fn number_or(given: Option<&str>, max: int, otherwise: int) -> int {
    match given {
        Some(v) => match crate::text::unsigned_value(v@, max) {
            Some(n) => n,
            None => otherwise,
        },
        None => otherwise,
    }
}

fn read_number(given: Option<&str>, max: u64, otherwise: u64) -> (n: u64)
    requires
        otherwise <= max,
    ensures
        n == number_or(given, max as int, otherwise as int),
        n <= max,
{
    match given {
        Some(v) => match parse_unsigned(v, max) {
            Some(n) => n,
            None => otherwise,
        },
        None => otherwise,
    }
}

/// The settings that a request asks for.
pub open spec fn settings_asked(r: ReinitRequest, boot: RadioSettings) -> RadioSettings {
    RadioSettings {
        rx_lo: number_or(r.rx_lo, u64::MAX as int, boot.rx_lo as int) as u64,
        control_freq: number_or(r.control_freq, u64::MAX as int, boot.control_freq as int) as u64,
        sample_rate: number_or(r.sample_rate, u32::MAX as int, boot.sample_rate as int) as u32,
        rf_bandwidth: number_or(r.rf_bandwidth, u32::MAX as int, boot.rf_bandwidth as int) as u32,
    }
}

/// The name of the gain mode that a request asks for.
pub open spec fn gain_mode_asked(r: ReinitRequest) -> Seq<char> {
    match r.gain_mode {
        Some(name) => name@,
        None => "manual"@,
    }
}

/// The steps of a plan: the gain itself is set in manual mode only.
pub open spec fn steps_of(s: RadioSettings, mode: GainMode) -> Seq<ReinitStep> {
    seq![
        ReinitStep::RxLo(s.rx_lo),
        ReinitStep::SamplingFrequency(s.sample_rate),
        ReinitStep::RfBandwidth(s.rf_bandwidth),
        ReinitStep::GainControlMode(mode),
    ] + (if mode == GainMode::Manual {
        seq![ReinitStep::HardwareGain]
    } else {
        Seq::<ReinitStep>::empty()
    }) + seq![ReinitStep::DdcOffset { control_freq: s.control_freq }]
}

/// Read a request. It is refused if it names no known gain mode.
pub fn plan_reinit(r: &ReinitRequest, boot: &RadioSettings) -> (plan: Result<ReinitPlan, String>)
    ensures
        match gain_mode_of(gain_mode_asked(*r)) {
            Some(mode) => {
                &&& plan is Ok
                &&& plan->Ok_0.settings == settings_asked(*r, *boot)
                &&& plan->Ok_0.gain_mode == mode
                &&& plan->Ok_0.steps@ == steps_of(settings_asked(*r, *boot), mode)
            },
            None => {
                &&& plan is Err
                &&& plan->Err_0@ == "unknown gain_mode: '"@ + gain_mode_asked(*r)
                    + "'; expected manual|fast_attack|slow_attack|hybrid"@
            },
        },
{
    let name: &str = match r.gain_mode {
        Some(name) => name,
        None => "manual",
    };
    let gain_mode: GainMode = match GainMode::from_name(name) {
        Some(mode) => mode,
        None => {
            return Err(
                surrounded(
                    "unknown gain_mode: '",
                    name,
                    "'; expected manual|fast_attack|slow_attack|hybrid",
                ),
            );
        },
    };
    let settings = RadioSettings {
        rx_lo: read_number(r.rx_lo, u64::MAX, boot.rx_lo),
        control_freq: read_number(r.control_freq, u64::MAX, boot.control_freq),
        sample_rate: read_number(r.sample_rate, u32::MAX as u64, boot.sample_rate as u64) as u32,
        rf_bandwidth: read_number(r.rf_bandwidth, u32::MAX as u64, boot.rf_bandwidth as u64) as u32,
    };
    let mut steps: Vec<ReinitStep> = Vec::new();
    steps.push(ReinitStep::RxLo(settings.rx_lo));
    steps.push(ReinitStep::SamplingFrequency(settings.sample_rate));
    steps.push(ReinitStep::RfBandwidth(settings.rf_bandwidth));
    steps.push(ReinitStep::GainControlMode(gain_mode));
    if gain_mode == GainMode::Manual {
        steps.push(ReinitStep::HardwareGain);
    }
    steps.push(ReinitStep::DdcOffset { control_freq: settings.control_freq });
    assert(steps@ =~= steps_of(settings, gain_mode));
    Ok(ReinitPlan { settings, gain_mode, steps })
}

/// What the steps did, and what failed.
pub struct ReinitReport {
    pub ok: bool,
    pub applied: Vec<String>,
    pub errors: Vec<String>,
}

/// The texts of numbers that are floating-point: the gain, and the offset of the
/// down-converter without decimals.
pub struct ShownNumbers<'a> {
    pub gain_db: &'a str,
    pub ddc_offset: &'a str,
}

/// The name of a step.
pub open spec fn step_name(step: ReinitStep) -> Seq<char> {
    match step {
        ReinitStep::RxLo(_) => "rx_lo"@,
        ReinitStep::SamplingFrequency(_) => "sampling_frequency"@,
        ReinitStep::RfBandwidth(_) => "rf_bandwidth"@,
        ReinitStep::GainControlMode(_) => "gain_control_mode"@,
        ReinitStep::HardwareGain => "hardwaregain"@,
        ReinitStep::DdcOffset { .. } => "ddc_nco_offset"@,
    }
}

/// What is said of a step that was done.
pub open spec fn done_line(step: ReinitStep, shown: ShownNumbers) -> Seq<char> {
    match step {
        ReinitStep::RxLo(hz) => "rx_lo="@ + crate::text::decimal(hz as nat),
        ReinitStep::SamplingFrequency(hz) => "sampling_frequency="@ + crate::text::decimal(
            hz as nat,
        ),
        ReinitStep::RfBandwidth(hz) => "rf_bandwidth="@ + crate::text::decimal(hz as nat),
        ReinitStep::GainControlMode(mode) => "gain_control_mode="@ + gain_mode_name(mode),
        ReinitStep::HardwareGain => "hardwaregain="@ + shown.gain_db@ + " dB"@,
        ReinitStep::DdcOffset { control_freq } => "ddc_nco_offset="@ + shown.ddc_offset@
            + " (control_freq="@ + crate::text::decimal(control_freq as nat) + ")"@,
    }
}

/// What is said of the first `n` steps: those that were done.
pub open spec fn done_lines(
    steps: Seq<ReinitStep>,
    failures: Seq<Option<String>>,
    shown: ShownNumbers,
    n: nat,
) -> Seq<Seq<char>>
    decreases n,
{
    if n == 0 {
        Seq::empty()
    } else {
        let before = done_lines(steps, failures, shown, (n - 1) as nat);
        match failures[n - 1] {
            None => before + seq![done_line(steps[n - 1], shown)],
            Some(_) => before,
        }
    }
}

/// What is said of the first `n` steps: those that failed.
pub open spec fn failed_lines(
    steps: Seq<ReinitStep>,
    failures: Seq<Option<String>>,
    n: nat,
) -> Seq<Seq<char>>
    decreases n,
{
    if n == 0 {
        Seq::empty()
    } else {
        let before = failed_lines(steps, failures, (n - 1) as nat);
        match failures[n - 1] {
            None => before,
            Some(e) => before + seq![step_name(steps[n - 1]) + ": "@ + e@],
        }
    }
}

fn name_of_step(step: &ReinitStep) -> (name: &'static str)
    ensures
        name@ == step_name(*step),
{
    match step {
        ReinitStep::RxLo(_) => "rx_lo",
        ReinitStep::SamplingFrequency(_) => "sampling_frequency",
        ReinitStep::RfBandwidth(_) => "rf_bandwidth",
        ReinitStep::GainControlMode(_) => "gain_control_mode",
        ReinitStep::HardwareGain => "hardwaregain",
        ReinitStep::DdcOffset { .. } => "ddc_nco_offset",
    }
}

fn line_of_step(step: &ReinitStep, shown: &ShownNumbers) -> (s: String)
    ensures
        s@ == done_line(*step, *shown),
{
    match step {
        ReinitStep::RxLo(hz) => numbered("rx_lo=", *hz),
        ReinitStep::SamplingFrequency(hz) => numbered("sampling_frequency=", *hz as u64),
        ReinitStep::RfBandwidth(hz) => numbered("rf_bandwidth=", *hz as u64),
        ReinitStep::GainControlMode(mode) => {
            let mut s = "gain_control_mode=".to_owned();
            s.append(mode.as_str());
            s
        },
        ReinitStep::HardwareGain => surrounded("hardwaregain=", shown.gain_db, " dB"),
        ReinitStep::DdcOffset { control_freq } => {
            let mut s = surrounded("ddc_nco_offset=", shown.ddc_offset, " (control_freq=");
            append_decimal(&mut s, *control_freq);
            s.append(")");
            s
        },
    }
}

/// Report on the steps of a plan, with what each failed with, if it did.
pub fn report_reinit(
    steps: &Vec<ReinitStep>,
    failures: &Vec<Option<String>>,
    shown: &ShownNumbers,
) -> (report: ReinitReport)
    requires
        failures@.len() == steps@.len(),
    ensures
        lines::texts(report.applied@) == done_lines(steps@, failures@, *shown, steps@.len()),
        lines::texts(report.errors@) == failed_lines(steps@, failures@, steps@.len()),
        report.ok == (forall|i: int| 0 <= i < failures@.len() ==> #[trigger] failures@[i] is None),
{
    let mut applied: Vec<String> = Vec::new();
    let mut errors: Vec<String> = Vec::new();
    proof {
        assert(lines::texts(applied@) =~= Seq::<Seq<char>>::empty());
        assert(lines::texts(errors@) =~= Seq::<Seq<char>>::empty());
    }
    let mut i: usize = 0;
    while i < steps.len()
        invariant
            i <= steps@.len(),
            failures@.len() == steps@.len(),
            lines::texts(applied@) == done_lines(steps@, failures@, *shown, i as nat),
            lines::texts(errors@) == failed_lines(steps@, failures@, i as nat),
            errors@.len() == 0 <==> (forall|k: int|
                0 <= k < i ==> #[trigger] failures@[k] is None),
        decreases steps@.len() - i,
    {
        match &failures[i] {
            None => push_line(&mut applied, line_of_step(&steps[i], shown)),
            Some(e) => {
                let ghost before = errors@.len();
                push_line(&mut errors, surrounded(name_of_step(&steps[i]), ": ", e.as_str()));
                assert(lines::texts(errors@).len() == before + 1);
                assert(failures@[i as int] is Some);
            },
        }
        i = i + 1;
    }
    ReinitReport { ok: errors.len() == 0, applied, errors }
}

/// The name of a gain mode reads back as that mode.
pub proof fn gain_mode_names_read_back(mode: GainMode)
    ensures
        gain_mode_of(gain_mode_name(mode)) == Some(mode),
{
    reveal_strlit("manual");
    reveal_strlit("fast_attack");
    reveal_strlit("slow_attack");
    reveal_strlit("hybrid");
    assert("manual"@.len() == 6);
    assert("fast_attack"@.len() == 11 && "fast_attack"@[0] == 'f');
    assert("slow_attack"@.len() == 11 && "slow_attack"@[0] == 's');
    assert("hybrid"@.len() == 6 && "hybrid"@[0] == 'h');
    assert("manual"@[0] == 'm');
}

/// Every step is reported once, as done or as failed.
pub proof fn every_step_is_reported_once(
    steps: Seq<ReinitStep>,
    failures: Seq<Option<String>>,
    shown: ShownNumbers,
    n: nat,
)
    ensures
        done_lines(steps, failures, shown, n).len() + failed_lines(steps, failures, n).len() == n,
    decreases n,
{
    if n > 0 {
        every_step_is_reported_once(steps, failures, shown, (n - 1) as nat);
    }
}

/// The text of a number, as large as fits, reads as that number.
proof fn lemma_number_given(given: Option<&str>, n: nat, max: int, otherwise: int)
    requires
        given matches Some(v) && v@ == crate::text::decimal(n),
        n <= max,
    ensures
        number_or(given, max, otherwise) == n,
{
    crate::text::parsing_undoes_rendering(n, max);
}

/// The receiver goes to the control channel that is asked for: the frequency
/// given is the one that is set, and tuning to it is the last step.
pub proof fn control_frequency_is_obeyed(
    r: ReinitRequest,
    boot: RadioSettings,
    mode: GainMode,
    n: u64,
)
    requires
        r.control_freq matches Some(v) && v@ == crate::text::decimal(n as nat),
    ensures
        settings_asked(r, boot).control_freq == n,
        steps_of(settings_asked(r, boot), mode).last() == (ReinitStep::DdcOffset {
            control_freq: n,
        }),
{
    lemma_number_given(r.control_freq, n as nat, u64::MAX as int, boot.control_freq as int);
}

/// The oscillator frequency given is the one that is set, in the first step.
pub proof fn rx_lo_is_obeyed(r: ReinitRequest, boot: RadioSettings, mode: GainMode, n: u64)
    requires
        r.rx_lo matches Some(v) && v@ == crate::text::decimal(n as nat),
    ensures
        settings_asked(r, boot).rx_lo == n,
        steps_of(settings_asked(r, boot), mode)[0] == ReinitStep::RxLo(n),
{
    lemma_number_given(r.rx_lo, n as nat, u64::MAX as int, boot.rx_lo as int);
}

/// The sample rate given is the one that is set, in the second step.
pub proof fn sample_rate_is_obeyed(r: ReinitRequest, boot: RadioSettings, mode: GainMode, n: u32)
    requires
        r.sample_rate matches Some(v) && v@ == crate::text::decimal(n as nat),
    ensures
        settings_asked(r, boot).sample_rate == n,
        steps_of(settings_asked(r, boot), mode)[1] == ReinitStep::SamplingFrequency(n),
{
    lemma_number_given(r.sample_rate, n as nat, u32::MAX as int, boot.sample_rate as int);
}

/// The bandwidth given is the one that is set, in the third step.
pub proof fn rf_bandwidth_is_obeyed(r: ReinitRequest, boot: RadioSettings, mode: GainMode, n: u32)
    requires
        r.rf_bandwidth matches Some(v) && v@ == crate::text::decimal(n as nat),
    ensures
        settings_asked(r, boot).rf_bandwidth == n,
        steps_of(settings_asked(r, boot), mode)[2] == ReinitStep::RfBandwidth(n),
{
    lemma_number_given(r.rf_bandwidth, n as nat, u32::MAX as int, boot.rf_bandwidth as int);
}

/// A setting that is not given, or that does not read as a number in its range,
/// stays what the radio was started with.
pub proof fn other_settings_are_kept(r: ReinitRequest, boot: RadioSettings)
    ensures
        r.rx_lo is None || crate::text::unsigned_value(r.rx_lo->0@, u64::MAX as int) is None
            ==> settings_asked(r, boot).rx_lo == boot.rx_lo,
        r.control_freq is None || crate::text::unsigned_value(
            r.control_freq->0@,
            u64::MAX as int,
        ) is None ==> settings_asked(r, boot).control_freq == boot.control_freq,
        r.sample_rate is None || crate::text::unsigned_value(
            r.sample_rate->0@,
            u32::MAX as int,
        ) is None ==> settings_asked(r, boot).sample_rate == boot.sample_rate,
        r.rf_bandwidth is None || crate::text::unsigned_value(
            r.rf_bandwidth->0@,
            u32::MAX as int,
        ) is None ==> settings_asked(r, boot).rf_bandwidth == boot.rf_bandwidth,
{
}

/// Each setting has its own say: what is given for one changes no other.
pub proof fn settings_are_independent(a: ReinitRequest, b: ReinitRequest, boot: RadioSettings)
    ensures
        a.rx_lo == b.rx_lo ==> settings_asked(a, boot).rx_lo == settings_asked(b, boot).rx_lo,
        a.control_freq == b.control_freq ==> settings_asked(a, boot).control_freq
            == settings_asked(b, boot).control_freq,
        a.sample_rate == b.sample_rate ==> settings_asked(a, boot).sample_rate == settings_asked(
            b,
            boot,
        ).sample_rate,
        a.rf_bandwidth == b.rf_bandwidth ==> settings_asked(a, boot).rf_bandwidth
            == settings_asked(b, boot).rf_bandwidth,
{
}

/// The gain mode that is named is the one that is set, manual where none is
/// named, and a name that is none of the four is refused.
pub proof fn gain_mode_is_obeyed(r: ReinitRequest, boot: RadioSettings, mode: GainMode)
    ensures
        r.gain_mode matches Some(name) && name@ == gain_mode_name(mode) ==> gain_mode_of(
            gain_mode_asked(r),
        ) == Some(mode),
        r.gain_mode is None ==> gain_mode_of(gain_mode_asked(r)) == Some(GainMode::Manual),
        r.gain_mode matches Some(name) && name@ != "manual"@ && name@ != "fast_attack"@ && name@
            != "slow_attack"@ && name@ != "hybrid"@ ==> gain_mode_of(gain_mode_asked(r)) is None,
        steps_of(settings_asked(r, boot), mode)[3] == ReinitStep::GainControlMode(mode),
{
    gain_mode_names_read_back(mode);
}

/// The gain itself is set in manual mode and in no other, right after the mode.
pub proof fn gain_is_set_in_manual_mode_only(s: RadioSettings, mode: GainMode)
    ensures
        steps_of(s, mode).contains(ReinitStep::HardwareGain) <==> mode == GainMode::Manual,
        mode == GainMode::Manual ==> steps_of(s, mode).len() == 6 && steps_of(s, mode)[4]
            == ReinitStep::HardwareGain,
        mode != GainMode::Manual ==> steps_of(s, mode).len() == 5,
{
    if mode == GainMode::Manual {
        assert(steps_of(s, mode)[4] == ReinitStep::HardwareGain);
    }
}

/// A step that succeeded is reported as done with what it set, and one that
/// failed as failed with its reason; the reports keep the order of the steps.
pub proof fn outcome_of_the_last_step_is_reported(
    steps: Seq<ReinitStep>,
    failures: Seq<Option<String>>,
    shown: ShownNumbers,
    n: nat,
)
    requires
        0 < n <= steps.len(),
        failures.len() == steps.len(),
    ensures
        ({
            let done = done_lines(steps, failures, shown, n);
            let failed = failed_lines(steps, failures, n);
            let k = (n - 1) as nat;
            &&& failures[n - 1] is None ==> done.len() > 0 && done.drop_last() == done_lines(
                steps,
                failures,
                shown,
                k,
            ) && failed == failed_lines(steps, failures, k)
            &&& failures[n - 1] is None ==> (steps[n - 1] matches ReinitStep::RxLo(hz) ==> done.last()
                == "rx_lo="@ + crate::text::decimal(hz as nat))
            &&& failures[n - 1] is None ==> (steps[n - 1] matches ReinitStep::SamplingFrequency(hz) ==> done.last()
                == "sampling_frequency="@ + crate::text::decimal(hz as nat))
            &&& failures[n - 1] is None ==> (steps[n - 1] matches ReinitStep::RfBandwidth(hz) ==> done.last()
                == "rf_bandwidth="@ + crate::text::decimal(hz as nat))
            &&& failures[n - 1] matches Some(e) ==> failed.len() > 0 && failed.drop_last()
                == failed_lines(steps, failures, k) && done == done_lines(steps, failures, shown, k)
                && failed.last() == step_name(steps[n - 1]) + ": "@ + e@
        }),
{
    let done = done_lines(steps, failures, shown, n);
    let failed = failed_lines(steps, failures, n);
    let k = (n - 1) as nat;
    if failures[n - 1] is None {
        assert(done.drop_last() =~= done_lines(steps, failures, shown, k));
    } else {
        assert(failed.drop_last() =~= failed_lines(steps, failures, k));
    }
}

/// What is said of a step that was done begins with the step's name, and the
/// last number that it set stands behind it.
pub proof fn done_lines_begin_with_the_name(step: ReinitStep, shown: ShownNumbers)
    ensures
        (step_name(step) + "="@).is_prefix_of(done_line(step, shown)),
        ({
            let value = done_line(step, shown).skip(step_name(step).len() as int + 1);
            &&& step matches ReinitStep::RxLo(hz) ==> value == crate::text::decimal(hz as nat)
            &&& step matches ReinitStep::SamplingFrequency(hz) ==> value == crate::text::decimal(
                hz as nat,
            )
            &&& step matches ReinitStep::RfBandwidth(hz) ==> value == crate::text::decimal(
                hz as nat,
            )
            &&& step matches ReinitStep::GainControlMode(mode) ==> gain_mode_of(value) == Some(mode)
        }),
{
    reveal_strlit("=");
    reveal_strlit("rx_lo");
    reveal_strlit("rx_lo=");
    reveal_strlit("sampling_frequency");
    reveal_strlit("sampling_frequency=");
    reveal_strlit("rf_bandwidth");
    reveal_strlit("rf_bandwidth=");
    reveal_strlit("gain_control_mode");
    reveal_strlit("gain_control_mode=");
    reveal_strlit("hardwaregain");
    reveal_strlit("hardwaregain=");
    reveal_strlit("ddc_nco_offset");
    reveal_strlit("ddc_nco_offset=");
    let line = done_line(step, shown);
    let n = step_name(step).len() as int + 1;
    assert(line.take(n) =~= step_name(step) + "="@);
    match step {
        ReinitStep::RxLo(hz) => {
            assert(line.skip(n) =~= crate::text::decimal(hz as nat));
        },
        ReinitStep::SamplingFrequency(hz) => {
            assert(line.skip(n) =~= crate::text::decimal(hz as nat));
        },
        ReinitStep::RfBandwidth(hz) => {
            assert(line.skip(n) =~= crate::text::decimal(hz as nat));
        },
        ReinitStep::GainControlMode(mode) => {
            assert(line.skip(n) =~= gain_mode_name(mode));
            gain_mode_names_read_back(mode);
        },
        _ => {},
    }
}

} // verus!
