//! The stress-test engine: validation of targets and configurations
//! under hard safety limits, single-flight scheduling with a cooldown
//! per target, live metric publication, a dead-man's switch, and the
//! per-tick decisions of the paced test loop.
//!
//! The engine is a deterministic state machine over explicit clock
//! readings: callers pass the current monotonic and unix times in
//! milliseconds, so every operation is a function of state and inputs.

use vstd::prelude::*;
use crate::ip::{Ipv4Address, parse_ipv4, spec_parse_ipv4, is_private_ip, spec_is_private};
use crate::metrics::{TestMetrics, metrics_wf, update_metrics, mean_of, variance_of, is_isqrt};
use crate::text::dec_chars;
use crate::text::dec_string;

verus! {

/// The kind of traffic pattern a test drives.  The variants are
/// behaviourally alike in this version but stay distinct in the API.
#[derive(Clone, Copy, Debug, PartialEq, Eq, Structural)]
pub enum TestType {
    PingFlood,
    BandwidthTest,
    LatencyTest,
    PacketLoss,
}

/// Requested traffic intensity.
#[derive(Clone, Copy, Debug, PartialEq, Eq, Structural)]
pub enum Intensity {
    Low,
    Medium,
    High,
}

/// The packet rate each intensity stands for.
pub open spec fn pps_of(i: Intensity) -> int {
    match i {
        Intensity::Low => 10,
        Intensity::Medium => 50,
        Intensity::High => 100,
    }
}

impl Intensity {
    /// The packets-per-second rate of this intensity:
    /// `Low` is 10, `Medium` 50, `High` 100.
    pub fn to_packets_per_second(&self) -> (r: u32)
        ensures
            r as int == pps_of(*self),
    {
        match self {
            Intensity::Low => 10,
            Intensity::Medium => 50,
            Intensity::High => 100,
        }
    }
}

/// Lifecycle state of a test.  `Paused` is reserved: no transition
/// currently leads to it.
#[derive(Clone, Copy, Debug, PartialEq, Eq, Structural)]
pub enum TestStatus {
    Idle,
    Running,
    Paused,
    Completed,
    Failed,
}

/// A user-supplied test request.
#[derive(Clone, Debug)]
pub struct StressTestConfig {
    pub target_ip: String,
    pub test_type: TestType,
    pub intensity: Intensity,
    pub duration_seconds: u32,
}

/// Why a stress operation was refused or aborted.
#[derive(Clone, Debug)]
pub enum StressError {
    InvalidTargetIp,
    TestAlreadyRunning,
    RateLimitExceeded,
    DurationTooLong,
    CooldownActive(u64),
    ResourceLimitExceeded(String),
    NetworkError(String),
    DeadMansSwitchTriggered,
    UserCancelled,
    InternalError(String),
}

/// The user-visible message of each error.
pub open spec fn spec_message(e: StressError) -> Seq<char> {
    match e {
        StressError::InvalidTargetIp => "Target IP is not in a private network range"@,
        StressError::TestAlreadyRunning => "Test already running. Only one test allowed at a time"@,
        StressError::RateLimitExceeded => "Rate limit exceeded. Maximum 1000 pps allowed"@,
        StressError::DurationTooLong => "Test duration too long. Maximum 300 seconds allowed"@,
        StressError::CooldownActive(s) => "Cooldown period active. Wait "@ + dec_chars(s as int)
            + " seconds before testing this target again"@,
        StressError::ResourceLimitExceeded(d) => "System resource limit exceeded: "@ + d@,
        StressError::NetworkError(d) => "Network error: "@ + d@,
        StressError::DeadMansSwitchTriggered =>
            "Dead man's switch triggered - UI confirmation required"@,
        StressError::UserCancelled => "Test cancelled by user"@,
        StressError::InternalError(d) => "Internal error: "@ + d@,
    }
}

impl StressError {
    /// Renders the user-visible message of this error.
    pub fn message(&self) -> (r: String)
        ensures
            r@ == spec_message(*self),
    {
        match self {
            StressError::InvalidTargetIp => "Target IP is not in a private network range"
                .to_owned(),
            StressError::TestAlreadyRunning =>
                "Test already running. Only one test allowed at a time".to_owned(),
            StressError::RateLimitExceeded => "Rate limit exceeded. Maximum 1000 pps allowed"
                .to_owned(),
            StressError::DurationTooLong => "Test duration too long. Maximum 300 seconds allowed"
                .to_owned(),
            StressError::CooldownActive(s) => {
                let mut m = "Cooldown period active. Wait ".to_owned();
                m.append(dec_string(*s).as_str());
                m.append(" seconds before testing this target again");
                m
            },
            StressError::ResourceLimitExceeded(d) => {
                let mut m = "System resource limit exceeded: ".to_owned();
                m.append(d.as_str());
                m
            },
            StressError::NetworkError(d) => {
                let mut m = "Network error: ".to_owned();
                m.append(d.as_str());
                m
            },
            StressError::DeadMansSwitchTriggered =>
                "Dead man's switch triggered - UI confirmation required".to_owned(),
            StressError::UserCancelled => "Test cancelled by user".to_owned(),
            StressError::InternalError(d) => {
                let mut m = "Internal error: ".to_owned();
                m.append(d.as_str());
                m
            },
        }
    }
}

/// Hard safety limits a test must respect.  The CPU and memory
/// ceilings are whole percentages, held for the resource-check hook.
#[derive(Clone, Copy, Debug, PartialEq, Eq, Structural)]
pub struct SafetyLimits {
    pub max_packets_per_second: u32,
    pub max_duration_seconds: u32,
    pub min_cooldown_seconds: u64,
    pub max_cpu_percent: u32,
    pub max_memory_percent: u32,
    pub dead_mans_switch_interval_seconds: u32,
}

/// The stock limits.
pub open spec fn spec_default_limits() -> SafetyLimits {
    SafetyLimits {
        max_packets_per_second: 1000,
        max_duration_seconds: 300,
        min_cooldown_seconds: 5,
        max_cpu_percent: 80,
        max_memory_percent: 70,
        dead_mans_switch_interval_seconds: 30,
    }
}

impl Default for SafetyLimits {
    /// The stock limits: 1000 pps, 300 s, 5 s cooldown, 80% CPU,
    /// 70% memory, 30 s dead-man's interval.
    fn default() -> (r: Self)
        ensures
            r == spec_default_limits(),
    {
        SafetyLimits {
            max_packets_per_second: 1000,
            max_duration_seconds: 300,
            min_cooldown_seconds: 5,
            max_cpu_percent: 80,
            max_memory_percent: 70,
            dead_mans_switch_interval_seconds: 30,
        }
    }
}

/// Record of one test, live or terminal.
#[derive(Clone, Debug)]
pub struct TestResult {
    pub test_id: String,
    pub target_ip: String,
    pub test_type: TestType,
    pub intensity: Intensity,
    pub duration_seconds: u32,
    /// Unix milliseconds at start.
    pub start_time: u64,
    /// Unix milliseconds at termination; absent while running.
    pub end_time: Option<u64>,
    /// Last metrics snapshot; absent until terminal.
    pub final_metrics: Option<TestMetrics>,
    pub status: TestStatus,
    pub error_message: Option<String>,
}

/// Engine-internal state.  Instants are monotonic milliseconds.
/// `cooldown_targets` is append-only: the latest entry for a target's
/// numeric address is its last start instant.
pub struct TestState {
    pub current_test: Option<TestResult>,
    pub metrics: TestMetrics,
    pub last_update: u64,
    pub last_confirmation: u64,
    pub cooldown_targets: Vec<(u32, u64)>,
}

/// The last start instant recorded for a target, reading the
/// append-only list from its newest entry.
pub open spec fn cd_lookup(s: Seq<(u32, u64)>, key: u32) -> Option<u64>
    decreases s.len(),
{
    if s.len() == 0 {
        None
    } else if s.last().0 == key {
        Some(s.last().1)
    } else {
        cd_lookup(s.drop_last(), key)
    }
}

/// Milliseconds from `then` to `now` on a monotonic clock, zero if
/// `now` reads earlier.
pub open spec fn elapsed_ms(now: u64, then: u64) -> int {
    if now >= then {
        now - then
    } else {
        0
    }
}

/// The engine: at most one test in flight, guarded by the safety
/// limits, with a raisable cancellation flag the loop polls.
pub struct StressTestEngine {
    pub state: TestState,
    pub cancel_requested: bool,
    pub safety_limits: SafetyLimits,
}

/// Whether a running test currently occupies the engine.
pub open spec fn is_running(st: TestState) -> bool {
    match st.current_test {
        Some(t) => t.status is Running,
        None => false,
    }
}

/// How many running test records the engine holds.
pub open spec fn running_count(st: TestState) -> nat {
    if is_running(st) {
        1
    } else {
        0
    }
}

/// Well-formedness of the engine: no metrics snapshot shows more
/// packets received than sent, and a terminal test record carries its
/// end time and final metrics.
pub open spec fn engine_wf(e: StressTestEngine) -> bool {
    &&& metrics_wf(e.state.metrics)
    &&& match e.state.current_test {
        Some(t) => {
            &&& ((t.status is Completed || t.status is Failed) ==> {
                &&& t.end_time is Some
                &&& t.final_metrics is Some
            })
            &&& match t.final_metrics {
                Some(m) => metrics_wf(m),
                None => true,
            }
        },
        None => true,
    }
}

/// The validation verdict for a configuration: the first failing gate
/// in the engine's order, or nothing when the test may start.
pub open spec fn spec_validate(e: StressTestEngine, cfg: StressTestConfig, now_mono_ms: u64)
    -> Option<StressError> {
    match spec_parse_ipv4(cfg.target_ip@) {
        None => Some(StressError::InvalidTargetIp),
        Some(a) => if !spec_is_private(a) {
            Some(StressError::InvalidTargetIp)
        } else if pps_of(cfg.intensity) > e.safety_limits.max_packets_per_second as int {
            Some(StressError::RateLimitExceeded)
        } else if cfg.duration_seconds > e.safety_limits.max_duration_seconds {
            Some(StressError::DurationTooLong)
        } else if is_running(e.state) {
            Some(StressError::TestAlreadyRunning)
        } else {
            match cd_lookup(e.state.cooldown_targets@, a.spec_value() as u32) {
                Some(last) => if elapsed_ms(now_mono_ms, last)
                    < e.safety_limits.min_cooldown_seconds * 1000 {
                    Some(StressError::CooldownActive(
                        (e.safety_limits.min_cooldown_seconds
                            - elapsed_ms(now_mono_ms, last) / 1000) as u64,
                    ))
                } else {
                    None
                },
                None => None,
            }
        },
    }
}

/// The characters of the identifier minted for a test started at the
/// given unix time.
pub open spec fn test_id_chars(now_unix_ms: u64) -> Seq<char> {
    "test_"@ + dec_chars(now_unix_ms as int)
}

/// Mints the identifier of a test started now: `test_` followed by
/// the unix milliseconds.
pub fn generate_test_id(now_unix_ms: u64) -> (r: String)
    ensures
        r@ == test_id_chars(now_unix_ms),
{
    let mut s = "test_".to_owned();
    s.append(dec_string(now_unix_ms).as_str());
    s
}

/// The engine after `stop_current_test` at the given unix time: the
/// cancellation flag raised and the current test, if any and not yet
/// terminal, marked `Completed` with its end time and final metrics
/// filled in.  A record already terminal is left as it stands, so a
/// repeated stop changes nothing observable.
pub open spec fn spec_stopped(e: StressTestEngine, now_unix_ms: u64) -> StressTestEngine {
    StressTestEngine {
        cancel_requested: true,
        state: TestState {
            current_test: match e.state.current_test {
                Some(t) => if t.status is Completed || t.status is Failed {
                    Some(t)
                } else {
                    Some(TestResult {
                        status: TestStatus::Completed,
                        end_time: Some(now_unix_ms),
                        final_metrics: Some(e.state.metrics),
                        ..t
                    })
                },
                None => None,
            },
            ..e.state
        },
        ..e
    }
}

/// The engine after `confirm_alive` at the given monotonic time.
pub open spec fn spec_confirmed(e: StressTestEngine, now_mono_ms: u64) -> StressTestEngine {
    StressTestEngine { state: TestState { last_confirmation: now_mono_ms, ..e.state }, ..e }
}

/// Whether the dead-man's switch has expired at the given monotonic
/// time.
pub open spec fn dead_mans_expired(e: StressTestEngine, now_mono_ms: u64) -> bool {
    elapsed_ms(now_mono_ms, e.state.last_confirmation)
        > e.safety_limits.dead_mans_switch_interval_seconds * 1000
}

impl StressTestEngine {
    /// A fresh idle engine under the stock limits, with both clock
    /// readings taken at construction.
    pub fn new(now_mono_ms: u64, now_unix_ms: u64) -> (r: Self)
        ensures
            r.state.current_test is None,
            r.state.metrics == TestMetrics::fresh_spec(now_unix_ms),
            r.state.last_update == now_mono_ms,
            r.state.last_confirmation == now_mono_ms,
            r.state.cooldown_targets@ =~= Seq::<(u32, u64)>::empty(),
            r.cancel_requested == false,
            r.safety_limits == spec_default_limits(),
            engine_wf(r),
    {
        StressTestEngine {
            state: TestState {
                current_test: None,
                metrics: TestMetrics::fresh(now_unix_ms),
                last_update: now_mono_ms,
                last_confirmation: now_mono_ms,
                cooldown_targets: Vec::new(),
            },
            cancel_requested: false,
            safety_limits: SafetyLimits::default(),
        }
    }

    /// Accepts exactly the dotted-decimal literals of RFC 1918 private
    /// addresses; everything else is `InvalidTargetIp`.
    pub fn validate_target_ip(&self, ip: &str) -> (r: Result<(), StressError>)
        ensures
            r == (match spec_parse_ipv4(ip@) {
                Some(a) => if spec_is_private(a) {
                    Result::<(), StressError>::Ok(())
                } else {
                    Result::<(), StressError>::Err(StressError::InvalidTargetIp)
                },
                None => Result::<(), StressError>::Err(StressError::InvalidTargetIp),
            }),
    {
        match parse_ipv4(ip) {
            Some(a) => if is_private_ip(&a) {
                Ok(())
            } else {
                Err(StressError::InvalidTargetIp)
            },
            None => Err(StressError::InvalidTargetIp),
        }
    }

    /// Looks up the last start instant recorded for a target value.
    fn cooldown_of(&self, key: u32) -> (r: Option<u64>)
        ensures
            r == cd_lookup(self.state.cooldown_targets@, key),
    {
        let ghost s = self.state.cooldown_targets@;
        let mut i = self.state.cooldown_targets.len();
        proof {
            assert(s.subrange(0, s.len() as int) =~= s);
        }
        while i > 0
            invariant
                0 <= i <= s.len(),
                s == self.state.cooldown_targets@,
                cd_lookup(s, key) == cd_lookup(s.subrange(0, i as int), key),
            decreases i,
        {
            i = i - 1;
            let entry = self.state.cooldown_targets[i];
            proof {
                assert(s.subrange(0, i + 1).drop_last() =~= s.subrange(0, i as int));
                assert(s.subrange(0, i + 1).last() == s[i as int]);
            }
            if entry.0 == key {
                return Some(entry.1);
            }
        }
        proof {
            assert(s.subrange(0, 0) =~= Seq::<(u32, u64)>::empty());
        }
        None
    }

    /// Runs every gate in order: target validity, rate limit, duration
    /// limit, single-flight, and the per-target cooldown; reports the
    /// first that fails, exactly as `spec_validate` describes.
    pub fn validate_test_config(&self, config: &StressTestConfig, now_mono_ms: u64) -> (r:
        Result<(), StressError>)
        ensures
            r == (match spec_validate(*self, *config, now_mono_ms) {
                Some(e) => Result::<(), StressError>::Err(e),
                None => Result::<(), StressError>::Ok(()),
            }),
    {
        let target = match parse_ipv4(config.target_ip.as_str()) {
            Some(a) => a,
            None => {
                return Err(StressError::InvalidTargetIp);
            },
        };
        if !is_private_ip(&target) {
            return Err(StressError::InvalidTargetIp);
        }
        if config.intensity.to_packets_per_second() > self.safety_limits.max_packets_per_second {
            return Err(StressError::RateLimitExceeded);
        }
        if config.duration_seconds > self.safety_limits.max_duration_seconds {
            return Err(StressError::DurationTooLong);
        }
        match &self.state.current_test {
            Some(t) => if t.status == TestStatus::Running {
                return Err(StressError::TestAlreadyRunning);
            },
            None => {},
        }
        match self.cooldown_of(target.value()) {
            Some(last) => {
                let elapsed: u64 = if now_mono_ms >= last {
                    now_mono_ms - last
                } else {
                    0
                };
                let cooldown_ms = self.safety_limits.min_cooldown_seconds.checked_mul(1000);
                match cooldown_ms {
                    Some(cd) => if elapsed < cd {
                        let remaining = self.safety_limits.min_cooldown_seconds - elapsed / 1000;
                        return Err(StressError::CooldownActive(remaining));
                    },
                    None => {
                        // min_cooldown_seconds * 1000 exceeds u64: the
                        // elapsed time is necessarily below it.
                        let remaining = self.safety_limits.min_cooldown_seconds - elapsed / 1000;
                        return Err(StressError::CooldownActive(remaining));
                    },
                }
            },
            None => {},
        }
        Ok(())
    }

    /// The resource-check hook before a start; reserved for CPU and
    /// memory gating, currently always satisfied.
    fn check_system_resources(&self) -> (r: Result<(), StressError>)
        ensures
            r is Ok,
    {
        Ok(())
    }

    /// Starts a test if every gate passes: mints `test_<unix ms>`,
    /// installs a fresh `Running` record and zeroed metrics, resets
    /// both watchdog instants, lowers the cancellation flag, and marks
    /// the target's cooldown.  On any validation error the engine is
    /// untouched.
    pub fn start_stress_test(&mut self, config: &StressTestConfig, now_mono_ms: u64,
        now_unix_ms: u64) -> (r: Result<String, StressError>)
        requires
            engine_wf(*old(self)),
        ensures
            engine_wf(*final(self)),
            match spec_validate(*old(self), *config, now_mono_ms) {
                Some(e) => r == Result::<String, StressError>::Err(e) && *final(self)
                    == *old(self),
                None => {
                    &&& r is Ok
                    &&& (r matches Ok(id) ==> id@ == test_id_chars(now_unix_ms))
                    &&& final(self).safety_limits == old(self).safety_limits
                    &&& final(self).cancel_requested == false
                    &&& (final(self).state.current_test matches Some(t) && {
                        &&& t.test_id@ == test_id_chars(now_unix_ms)
                        &&& t.target_ip@ == config.target_ip@
                        &&& t.test_type == config.test_type
                        &&& t.intensity == config.intensity
                        &&& t.duration_seconds == config.duration_seconds
                        &&& t.start_time == now_unix_ms
                        &&& t.end_time is None
                        &&& t.final_metrics is None
                        &&& t.status is Running
                        &&& t.error_message is None
                    })
                    &&& final(self).state.metrics == TestMetrics::fresh_spec(now_unix_ms)
                    &&& final(self).state.last_update == now_mono_ms
                    &&& final(self).state.last_confirmation == now_mono_ms
                    &&& final(self).state.cooldown_targets@ == old(
                        self).state.cooldown_targets@.push((
                        (spec_parse_ipv4(config.target_ip@)->Some_0.spec_value()) as u32,
                        now_mono_ms,
                    ))
                },
            },
    {
        match self.validate_test_config(config, now_mono_ms) {
            Err(e) => {
                return Err(e);
            },
            Ok(()) => {},
        }
        match self.check_system_resources() {
            Err(e) => {
                return Err(e);
            },
            Ok(()) => {},
        }
        let target = match parse_ipv4(config.target_ip.as_str()) {
            Some(a) => a,
            None => {
                return Err(StressError::InvalidTargetIp);
            },
        };
        let test_id = generate_test_id(now_unix_ms);
        let test_result = TestResult {
            test_id: test_id.clone(),
            target_ip: config.target_ip.clone(),
            test_type: config.test_type,
            intensity: config.intensity,
            duration_seconds: config.duration_seconds,
            start_time: now_unix_ms,
            end_time: None,
            final_metrics: None,
            status: TestStatus::Running,
            error_message: None,
        };
        self.state.current_test = Some(test_result);
        self.state.metrics = TestMetrics::fresh(now_unix_ms);
        self.state.last_update = now_mono_ms;
        self.state.last_confirmation = now_mono_ms;
        self.state.cooldown_targets.push((target.value(), now_mono_ms));
        self.cancel_requested = false;
        Ok(test_id)
    }

    /// Raises the cancellation flag and marks the current test, if
    /// any and still live, `Completed` with its end time and final
    /// metrics taken from the live snapshot.  A no-op on the record
    /// when none is present or it is already terminal: a repeated
    /// stop leaves the observable result as the first one made it.
    pub fn stop_current_test(&mut self, now_unix_ms: u64) -> (r: Result<(), StressError>)
        requires
            engine_wf(*old(self)),
        ensures
            r is Ok,
            *final(self) == spec_stopped(*old(self), now_unix_ms),
            engine_wf(*final(self)),
    {
        self.cancel_requested = true;
        let m = self.state.metrics;
        match &mut self.state.current_test {
            Some(t) => {
                if !(t.status == TestStatus::Completed || t.status == TestStatus::Failed) {
                    t.status = TestStatus::Completed;
                    t.end_time = Some(now_unix_ms);
                    t.final_metrics = Some(m);
                }
            },
            None => {},
        }
        Ok(())
    }

    /// The status of the current test, or `Idle` when none exists.
    pub fn get_current_status(&self) -> (r: TestStatus)
        ensures
            r == (match self.state.current_test {
                Some(t) => t.status,
                None => TestStatus::Idle,
            }),
    {
        match &self.state.current_test {
            Some(t) => t.status,
            None => TestStatus::Idle,
        }
    }

    /// A copy of the live metrics snapshot.
    pub fn get_current_metrics(&self) -> (r: TestMetrics)
        ensures
            r == self.state.metrics,
    {
        self.state.metrics
    }

    /// A copy of the current test record, if one exists.
    pub fn get_current_test(&self) -> (r: Option<TestResult>)
        ensures
            r == self.state.current_test,
    {
        match &self.state.current_test {
            Some(t) => Some(clone_test_result(t)),
            None => None,
        }
    }

    /// Fails when the operator has not confirmed within the dead-man's
    /// interval.
    pub fn check_dead_mans_switch(&self, now_mono_ms: u64) -> (r: Result<(), StressError>)
        ensures
            r is Ok <==> !dead_mans_expired(*self, now_mono_ms),
            r is Err ==> (r matches Err(e) && e is DeadMansSwitchTriggered),
    {
        let last = self.state.last_confirmation;
        let elapsed: u64 = if now_mono_ms >= last {
            now_mono_ms - last
        } else {
            0
        };
        let interval_ms = (self.safety_limits.dead_mans_switch_interval_seconds as u64) * 1000;
        if elapsed > interval_ms {
            Err(StressError::DeadMansSwitchTriggered)
        } else {
            Ok(())
        }
    }

    /// Records an operator confirmation now.
    pub fn confirm_alive(&mut self, now_mono_ms: u64)
        ensures
            *final(self) == spec_confirmed(*old(self), now_mono_ms),
    {
        self.state.last_confirmation = now_mono_ms;
    }
}

/// Loop-local state of one running test: the cumulative counters and
/// the observed round-trip latencies in microseconds.
pub struct TestRun {
    pub target: Ipv4Address,
    pub pps: u32,
    pub duration_ms: u64,
    pub started_mono_ms: u64,
    pub packets_sent: u32,
    pub packets_received: u32,
    pub latencies_micros: Vec<u32>,
}

/// Packets only come back in answer to packets sent, one latency per
/// answer, and the pace is at least one packet per second.
pub open spec fn run_wf(r: TestRun) -> bool {
    &&& r.packets_received <= r.packets_sent
    &&& r.latencies_micros@.len() == r.packets_received
    &&& 1 <= r.pps
}

/// What the loop does on one tick, in the engine's priority order.
#[derive(Clone, Copy, Debug, PartialEq, Eq, Structural)]
pub enum TickAction {
    /// The duration has elapsed: finish normally.
    Finish,
    /// The cancellation flag is raised: abort as cancelled by the user.
    Cancelled,
    /// The dead-man's switch has expired: abort.
    DeadMans,
    /// Send one probe.
    Probe,
}

/// The decision of one tick: finish once the duration has elapsed,
/// otherwise honour cancellation, then the dead-man's switch, and
/// only then probe.
pub open spec fn spec_tick_decision(r: TestRun, now_mono_ms: u64, cancel_requested: bool,
    last_confirmation_mono_ms: u64, dead_mans_interval_s: u32) -> TickAction {
    if elapsed_ms(now_mono_ms, r.started_mono_ms) >= r.duration_ms {
        TickAction::Finish
    } else if cancel_requested {
        TickAction::Cancelled
    } else if elapsed_ms(now_mono_ms, last_confirmation_mono_ms) > dead_mans_interval_s * 1000 {
        TickAction::DeadMans
    } else {
        TickAction::Probe
    }
}

impl TestRun {
    /// Fresh loop state for a test on `target` started now.
    pub fn new(target: Ipv4Address, intensity: &Intensity, duration_seconds: u32,
        now_mono_ms: u64) -> (r: TestRun)
        ensures
            r.target == target,
            r.pps as int == pps_of(*intensity),
            r.duration_ms == duration_seconds * 1000,
            r.started_mono_ms == now_mono_ms,
            r.packets_sent == 0,
            r.packets_received == 0,
            r.latencies_micros@ =~= Seq::<u32>::empty(),
            run_wf(r),
    {
        TestRun {
            target,
            pps: intensity.to_packets_per_second(),
            duration_ms: (duration_seconds as u64) * 1000,
            started_mono_ms: now_mono_ms,
            packets_sent: 0,
            packets_received: 0,
            latencies_micros: Vec::new(),
        }
    }

    /// The pacing period of this run, milliseconds per tick.
    pub fn tick_interval_ms(&self) -> (r: u64)
        requires
            run_wf(*self),
        ensures
            r as int == 1000 as int / self.pps as int,
    {
        1000 / (self.pps as u64)
    }

    /// Decides what this tick does, exactly as `spec_tick_decision`
    /// describes.
    pub fn tick_decision(&self, now_mono_ms: u64, cancel_requested: bool,
        last_confirmation_mono_ms: u64, dead_mans_interval_s: u32) -> (r: TickAction)
        ensures
            r == spec_tick_decision(*self, now_mono_ms, cancel_requested,
                last_confirmation_mono_ms, dead_mans_interval_s),
    {
        let elapsed: u64 = if now_mono_ms >= self.started_mono_ms {
            now_mono_ms - self.started_mono_ms
        } else {
            0
        };
        if elapsed >= self.duration_ms {
            return TickAction::Finish;
        }
        if cancel_requested {
            return TickAction::Cancelled;
        }
        let conf_elapsed: u64 = if now_mono_ms >= last_confirmation_mono_ms {
            now_mono_ms - last_confirmation_mono_ms
        } else {
            0
        };
        if conf_elapsed > (dead_mans_interval_s as u64) * 1000 {
            return TickAction::DeadMans;
        }
        TickAction::Probe
    }

    /// Records the outcome of one probe: the packet counts as sent;
    /// when an answer came back, its latency is appended and the
    /// packet counts as received.
    pub fn record_probe(&mut self, latency_micros: Option<u32>)
        requires
            run_wf(*old(self)),
            old(self).packets_sent < 0xFFFF_FFFFu32,
        ensures
            run_wf(*final(self)),
            final(self).packets_sent == old(self).packets_sent + 1,
            match latency_micros {
                Some(l) => {
                    &&& final(self).packets_received == old(self).packets_received + 1
                    &&& final(self).latencies_micros@ == old(self).latencies_micros@.push(l)
                },
                None => {
                    &&& final(self).packets_received == old(self).packets_received
                    &&& final(self).latencies_micros@ == old(self).latencies_micros@
                },
            },
            final(self).target == old(self).target,
            final(self).pps == old(self).pps,
            final(self).duration_ms == old(self).duration_ms,
            final(self).started_mono_ms == old(self).started_mono_ms,
    {
        match latency_micros {
            Some(l) => {
                self.packets_received = self.packets_received + 1;
                self.latencies_micros.push(l);
            },
            None => {},
        }
        self.packets_sent = self.packets_sent + 1;
    }

    /// Whether this tick publishes metrics: every `max(1, pps / 10)`
    /// packets sent.
    pub fn should_publish(&self) -> (r: bool)
        ensures
            r == (self.packets_sent as int % (if self.pps as int / 10 >= 1 {
                self.pps as int / 10
            } else {
                1
            }) == 0),
    {
        let step = if self.pps / 10 >= 1 {
            self.pps / 10
        } else {
            1
        };
        self.packets_sent % step == 0
    }

    /// Whether the circuit breaker trips: more than 100 packets sent
    /// and fewer than a tenth of them answered.
    pub fn circuit_breaker_tripped(&self) -> (r: bool)
        ensures
            r == (self.packets_sent > 100 && (self.packets_received as int) * 10 < (
            self.packets_sent as int)),
    {
        self.packets_sent > 100 && (self.packets_received as u64) * 10 < (self.packets_sent
            as u64)
    }
}

impl StressTestEngine {
    /// Publishes a metrics snapshot recomputed from the run's
    /// counters, stamping the update instant; nothing else of the
    /// engine changes.
    pub fn publish_metrics(&mut self, run: &TestRun, now_mono_ms: u64, now_unix_ms: u64)
        requires
            engine_wf(*old(self)),
            run_wf(*run),
        ensures
            engine_wf(*final(self)),
            final(self).state.metrics.packets_sent == run.packets_sent,
            final(self).state.metrics.packets_received == run.packets_received,
            final(self).state.metrics.throughput_kbps == run.packets_received,
            final(self).state.metrics.timestamp == now_unix_ms,
            final(self).state.metrics.packet_loss_centi_percent as int == if run.packets_sent
                > 0 {
                ((run.packets_sent - run.packets_received) * 10000) / (run.packets_sent as int)
            } else {
                0
            },
            run.latencies_micros@.len() == 0 ==> final(self).state.metrics.latency_micros == 0
                && final(self).state.metrics.jitter_micros == 0,
            run.latencies_micros@.len() > 0 ==> {
                &&& final(self).state.metrics.latency_micros as int == mean_of(
                    run.latencies_micros@)
                &&& is_isqrt(final(self).state.metrics.jitter_micros as int, variance_of(
                    run.latencies_micros@))
            },
            final(self).state.last_update == now_mono_ms,
            final(self).state.current_test == old(self).state.current_test,
            final(self).state.last_confirmation == old(self).state.last_confirmation,
            final(self).state.cooldown_targets@ == old(self).state.cooldown_targets@,
            final(self).cancel_requested == old(self).cancel_requested,
            final(self).safety_limits == old(self).safety_limits,
    {
        update_metrics(&mut self.state.metrics, run.packets_sent, run.packets_received,
            &run.latencies_micros, now_unix_ms);
        self.state.last_update = now_mono_ms;
    }

    /// Normal termination of the loop: publishes a final snapshot and
    /// marks the current test `Completed` with its end time and final
    /// metrics.  A record the operator already stopped keeps the end
    /// time and final metrics the stop recorded.
    pub fn finish_current_test(&mut self, run: &TestRun, now_mono_ms: u64, now_unix_ms: u64)
        requires
            engine_wf(*old(self)),
            run_wf(*run),
        ensures
            engine_wf(*final(self)),
            *final(self) == spec_stopped(StressTestEngine {
                state: TestState {
                    metrics: final(self).state.metrics,
                    last_update: now_mono_ms,
                    ..old(self).state
                },
                ..*old(self)
            }, now_unix_ms),
            final(self).state.metrics.packets_sent == run.packets_sent,
            final(self).state.metrics.packets_received == run.packets_received,
            final(self).state.metrics.timestamp == now_unix_ms,
            run.latencies_micros@.len() > 0 ==> {
                &&& final(self).state.metrics.latency_micros as int == mean_of(
                    run.latencies_micros@)
                &&& is_isqrt(final(self).state.metrics.jitter_micros as int, variance_of(
                    run.latencies_micros@))
            },
    {
        update_metrics(&mut self.state.metrics, run.packets_sent, run.packets_received,
            &run.latencies_micros, now_unix_ms);
        self.state.last_update = now_mono_ms;
        self.cancel_requested = true;
        let m = self.state.metrics;
        match &mut self.state.current_test {
            Some(t) => {
                if !(t.status == TestStatus::Completed || t.status == TestStatus::Failed) {
                    t.status = TestStatus::Completed;
                    t.end_time = Some(now_unix_ms);
                    t.final_metrics = Some(m);
                }
            },
            None => {},
        }
    }

    /// Abnormal termination of the loop: marks the current test
    /// `Failed`, with the error's message, its end time, and the live
    /// metrics as final.  Only a `Running` test can fail: a record
    /// already terminal — the operator stopped it while the loop was
    /// mid-tick — is left as it stands.
    pub fn fail_current_test(&mut self, error: &StressError, now_unix_ms: u64)
        requires
            engine_wf(*old(self)),
        ensures
            engine_wf(*final(self)),
            match old(self).state.current_test {
                Some(t) => if t.status is Running {
                    final(self).state.current_test matches Some(u) && u == (TestResult {
                        status: TestStatus::Failed,
                        end_time: Some(now_unix_ms),
                        final_metrics: Some(old(self).state.metrics),
                        error_message: final(self).state.current_test->Some_0.error_message,
                        ..t
                    }) && (u.error_message matches Some(m) && m@ == spec_message(*error))
                } else {
                    final(self).state.current_test == old(self).state.current_test
                },
                None => final(self).state.current_test is None,
            },
            final(self).state.metrics == old(self).state.metrics,
            final(self).state.last_update == old(self).state.last_update,
            final(self).state.last_confirmation == old(self).state.last_confirmation,
            final(self).state.cooldown_targets@ == old(self).state.cooldown_targets@,
            final(self).cancel_requested == old(self).cancel_requested,
            final(self).safety_limits == old(self).safety_limits,
    {
        let msg = error.message();
        let m = self.state.metrics;
        match &mut self.state.current_test {
            Some(t) => {
                if t.status == TestStatus::Running {
                    t.status = TestStatus::Failed;
                    t.error_message = Some(msg);
                    t.end_time = Some(now_unix_ms);
                    t.final_metrics = Some(m);
                }
            },
            None => {},
        }
    }
}

/// Law: in every well-formed engine state, and in every run, no more
/// packets are received than sent — in the live snapshot, in a
/// terminal record's final metrics, and in the loop's own counters.
pub proof fn lemma_received_never_exceeds_sent(e: StressTestEngine, r: TestRun)
    requires
        engine_wf(e),
        run_wf(r),
    ensures
        e.state.metrics.packets_received <= e.state.metrics.packets_sent,
        e.state.current_test matches Some(t) ==> (t.final_metrics matches Some(m)
            ==> m.packets_received <= m.packets_sent),
        r.packets_received <= r.packets_sent,
{
}

/// Law: in every well-formed engine state, a test record in a
/// terminal status carries its end time and its final metrics.
pub proof fn lemma_terminal_test_is_finalized(e: StressTestEngine)
    requires
        engine_wf(e),
    ensures
        e.state.current_test matches Some(t) ==> ((t.status is Completed || t.status is Failed)
            ==> (t.end_time is Some && t.final_metrics is Some)),
{
}

/// Law: an engine holds at most one running test record, and while
/// one is running no configuration whatever passes validation, so no
/// second test can start.
pub proof fn lemma_single_flight(e: StressTestEngine, cfg: StressTestConfig, now_mono_ms: u64)
    ensures
        running_count(e.state) <= 1,
        is_running(e.state) ==> spec_validate(e, cfg, now_mono_ms) is Some,
{
}

/// Law: a target that was started at `t0` (and is no longer running)
/// cannot be started again within the cooldown window: any validation
/// within `min_cooldown_seconds` of `t0` yields `CooldownActive` with
/// between one and `min_cooldown_seconds` whole seconds remaining.
/// By `start_stress_test`'s contract a refused start leaves the
/// engine untouched.
pub proof fn lemma_cooldown_rejects_quick_restart(e0: StressTestEngine, e1: StressTestEngine,
    cfg: StressTestConfig, t0: u64, t1: u64)
    requires
        spec_validate(e0, cfg, t0) is None,
        e1.safety_limits == e0.safety_limits,
        !is_running(e1.state),
        e1.state.cooldown_targets@ == e0.state.cooldown_targets@.push((
            (spec_parse_ipv4(cfg.target_ip@)->Some_0.spec_value()) as u32,
            t0,
        )),
        t0 <= t1,
        elapsed_ms(t1, t0) < e0.safety_limits.min_cooldown_seconds * 1000,
        1 <= e0.safety_limits.min_cooldown_seconds,
    ensures
        spec_validate(e1, cfg, t1) matches Some(err) && err matches StressError::CooldownActive(
            rem,
        ) && 1 <= rem <= e0.safety_limits.min_cooldown_seconds,
{
    let key = (spec_parse_ipv4(cfg.target_ip@)->Some_0.spec_value()) as u32;
    assert(cd_lookup(e1.state.cooldown_targets@, key) == Some(t0));
    let cd = e0.safety_limits.min_cooldown_seconds as int;
    let el = elapsed_ms(t1, t0);
    vstd::arithmetic::div_mod::lemma_multiply_divide_lt(el, 1000, cd);
    vstd::arithmetic::div_mod::lemma_div_pos_is_pos(el, 1000);
}

/// Law: once `stop_current_test` has run for a test, any further stop
/// — at that instant or any later reading — changes nothing:
/// `stop_current_test` is idempotent.
pub proof fn lemma_stop_idempotent(e: StressTestEngine, t1: u64, t2: u64)
    ensures
        spec_stopped(spec_stopped(e, t1), t2) == spec_stopped(e, t1),
{
    match e.state.current_test {
        Some(t) => {},
        None => {},
    }
}

/// Law: a confirmation followed immediately by a dead-man's check
/// never fails: the check sees no elapsed time.
pub proof fn lemma_confirm_then_check(e: StressTestEngine, now_mono_ms: u64)
    ensures
        !dead_mans_expired(spec_confirmed(e, now_mono_ms), now_mono_ms),
{
}

/// An exact copy of a test record.
pub fn clone_test_result(t: &TestResult) -> (r: TestResult)
    ensures
        r == *t,
{
    TestResult {
        test_id: t.test_id.clone(),
        target_ip: t.target_ip.clone(),
        test_type: t.test_type,
        intensity: t.intensity,
        duration_seconds: t.duration_seconds,
        start_time: t.start_time,
        end_time: t.end_time,
        final_metrics: t.final_metrics,
        status: t.status,
        error_message: match &t.error_message {
            Some(m) => Some(m.clone()),
            None => None,
        },
    }
}

} // verus!
