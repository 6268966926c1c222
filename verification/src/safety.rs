use vstd::prelude::*;

use crate::interfaces::{
    contains_text, strings_view, FaultResetAuthorization, SafetyFaultCode, SafetyFaultRecord, SafetyLimits,
    ValidationError,
};

verus! {

/// One reading of the sensors, with the time of the last authenticated command.
#[derive(Debug, Clone, Copy, PartialEq, Eq, Structural)]
pub struct SafetyObservation {
    pub observed_at_unix_ms: u64,
    pub last_authenticated_command_unix_ms: u64,
    pub supply_millivolts: Option<u32>,
    pub current_milliamps: Option<u32>,
    pub temperature_millicelsius: Option<i32>,
}

/// What the output stage may do: the brightness ceiling, whether a fault is
/// latched, and the faults present now.
#[derive(Debug, Clone, PartialEq, Eq)]
pub struct SafetyDecision {
    pub brightness_limit: u8,
    pub fault_latched: bool,
    pub active_faults: Vec<SafetyFaultCode>,
}

/// Why a fault reset was refused.
#[derive(Debug, Clone, Copy, PartialEq, Eq, Structural)]
pub enum FaultResetError {
    InvalidAuthorization,
    ReusedAuthorization,
    UnsafeConditions,
}

/// The sentence that describes each reset error.
pub open spec fn reset_error_text(error: FaultResetError) -> Seq<char> {
    match error {
        FaultResetError::InvalidAuthorization => "fault reset authorization is invalid"@,
        FaultResetError::ReusedAuthorization => "fault reset authorization was already used"@,
        FaultResetError::UnsafeConditions =>
            "fault reset is blocked while unsafe conditions remain"@,
    }
}

impl FaultResetError {
    /// A human-readable description of the error.
    pub fn message(&self) -> (text: &'static str)
        ensures
            text@ == reset_error_text(*self),
    {
        match self {
            FaultResetError::InvalidAuthorization => "fault reset authorization is invalid",
            FaultResetError::ReusedAuthorization => "fault reset authorization was already used",
            FaultResetError::UnsafeConditions =>
                "fault reset is blocked while unsafe conditions remain",
        }
    }
}

/// How many used reset authorizations are remembered.
pub const USED_AUTHORIZATION_CAPACITY: usize = 32;

/// `a - b`, or zero when `b` exceeds `a`.
pub open spec fn saturating_difference(a: u64, b: u64) -> u64 {
    if a >= b {
        (a - b) as u64
    } else {
        0
    }
}

/// A limit is configured whose sensor gave no reading.
pub open spec fn sensor_missing(limits: SafetyLimits, o: SafetyObservation) -> bool {
    ||| (limits.minimum_supply_millivolts is Some && o.supply_millivolts is None)
    ||| (limits.maximum_current_milliamps is Some && o.current_milliamps is None)
    ||| (limits.maximum_temperature_millicelsius is Some && o.temperature_millicelsius is None)
}

/// The supply is below its configured minimum.
pub open spec fn under_voltage(limits: SafetyLimits, o: SafetyObservation) -> bool {
    match (limits.minimum_supply_millivolts, o.supply_millivolts) {
        (Some(minimum), Some(observed)) => observed < minimum,
        _ => false,
    }
}

/// The current is above its configured maximum.
pub open spec fn over_current(limits: SafetyLimits, o: SafetyObservation) -> bool {
    match (limits.maximum_current_milliamps, o.current_milliamps) {
        (Some(maximum), Some(observed)) => observed > maximum,
        _ => false,
    }
}

/// The temperature is above its configured maximum.
pub open spec fn over_temperature(limits: SafetyLimits, o: SafetyObservation) -> bool {
    match (limits.maximum_temperature_millicelsius, o.temperature_millicelsius) {
        (Some(maximum), Some(observed)) => observed > maximum,
        _ => false,
    }
}

/// No authenticated command arrived within the communication timeout.
pub open spec fn communication_lost(limits: SafetyLimits, o: SafetyObservation) -> bool {
    saturating_difference(o.observed_at_unix_ms, o.last_authenticated_command_unix_ms)
        > limits.communication_timeout_ms
}

/// The faults present in an observation, in a fixed order: sensor failure,
/// under-voltage, over-current, over-temperature, communication loss.
pub open spec fn detected_faults(limits: SafetyLimits, o: SafetyObservation) -> Seq<SafetyFaultCode> {
    let s0 = if sensor_missing(limits, o) {
        seq![SafetyFaultCode::SensorFailure]
    } else {
        Seq::empty()
    };
    let s1 = if under_voltage(limits, o) {
        s0.push(SafetyFaultCode::UnderVoltage)
    } else {
        s0
    };
    let s2 = if over_current(limits, o) {
        s1.push(SafetyFaultCode::OverCurrent)
    } else {
        s1
    };
    let s3 = if over_temperature(limits, o) {
        s2.push(SafetyFaultCode::OverTemperature)
    } else {
        s2
    };
    if communication_lost(limits, o) {
        s3.push(SafetyFaultCode::CommunicationLoss)
    } else {
        s3
    }
}

/// Position of the latest record of `code` that is still open among the first `n` records.
pub open spec fn last_open_record(h: Seq<SafetyFaultRecord>, code: SafetyFaultCode, n: nat) -> Option<
    int,
>
    decreases n,
{
    if n == 0 {
        None
    } else if h[n - 1].code == code && h[n - 1].cleared_at_unix_ms is None {
        Some(n - 1)
    } else {
        last_open_record(h, code, (n - 1) as nat)
    }
}

/// Closes, at `now`, the latest open record of `code`, if there is one.
pub open spec fn close_record(h: Seq<SafetyFaultRecord>, code: SafetyFaultCode, now: u64) -> Seq<
    SafetyFaultRecord,
> {
    match last_open_record(h, code, h.len()) {
        Some(i) => h.update(i, SafetyFaultRecord { cleared_at_unix_ms: Some(now), ..h[i] }),
        None => h,
    }
}

/// Closes, in order, the records of the `previous` faults that are not among `next`.
pub open spec fn close_cleared(
    h: Seq<SafetyFaultRecord>,
    previous: Seq<SafetyFaultCode>,
    next: Seq<SafetyFaultCode>,
    now: u64,
) -> Seq<SafetyFaultRecord>
    decreases previous.len(),
{
    if previous.len() == 0 {
        h
    } else {
        let prior = close_cleared(h, previous.drop_last(), next, now);
        if next.contains(previous.last()) {
            prior
        } else {
            close_record(prior, previous.last(), now)
        }
    }
}

/// Appends, in order, an open record for each of the `next` faults that is not among `previous`.
pub open spec fn open_started(
    h: Seq<SafetyFaultRecord>,
    next: Seq<SafetyFaultCode>,
    previous: Seq<SafetyFaultCode>,
    now: u64,
) -> Seq<SafetyFaultRecord>
    decreases next.len(),
{
    if next.len() == 0 {
        h
    } else {
        let prior = open_started(h, next.drop_last(), previous, now);
        if previous.contains(next.last()) {
            prior
        } else {
            prior.push(
                SafetyFaultRecord {
                    code: next.last(),
                    tripped_at_unix_ms: now,
                    cleared_at_unix_ms: None,
                },
            )
        }
    }
}

/// The latest `capacity` records.
pub open spec fn trimmed(h: Seq<SafetyFaultRecord>, capacity: nat) -> Seq<SafetyFaultRecord> {
    if h.len() > capacity {
        h.subrange(h.len() - capacity, h.len() as int)
    } else {
        h
    }
}

/// The history after the active faults changed from `previous` to `next` at `now`.
pub open spec fn reconciled_history(
    h: Seq<SafetyFaultRecord>,
    previous: Seq<SafetyFaultCode>,
    next: Seq<SafetyFaultCode>,
    now: u64,
    capacity: nat,
) -> Seq<SafetyFaultRecord> {
    trimmed(open_started(close_cleared(h, previous, next, now), next, previous, now), capacity)
}

/// The mathematical state of a [`SafetyController`].
pub ghost struct SafetyModel {
    pub limits: SafetyLimits,
    pub fault_latched: bool,
    pub active_faults: Seq<SafetyFaultCode>,
    pub history: Seq<SafetyFaultRecord>,
    pub used_authorizations: Seq<Seq<char>>,
    pub last_telemetry_unix_ms: Option<u64>,
}

/// The state after `observation`.
pub open spec fn observed_model(m: SafetyModel, observation: SafetyObservation) -> SafetyModel {
    let next = detected_faults(m.limits, observation);
    SafetyModel {
        history: reconciled_history(
            m.history,
            m.active_faults,
            next,
            observation.observed_at_unix_ms,
            m.limits.fault_history_capacity as nat,
        ),
        active_faults: next,
        fault_latched: m.fault_latched || next.len() > 0,
        ..m
    }
}

/// The brightness ceiling of a state: the fail-safe brightness while a fault
/// is latched, full brightness otherwise.
pub open spec fn brightness_ceiling(m: SafetyModel) -> u8 {
    if m.fault_latched {
        m.limits.fail_safe_brightness
    } else {
        255
    }
}

/// Whether a reset with `authorization` at `now` is granted, and if not, why.
pub open spec fn reset_verdict(
    m: SafetyModel,
    authorization: FaultResetAuthorization,
    now: u64,
) -> Result<(), FaultResetError> {
    if !authorization.spec_valid_at(now) {
        Err(FaultResetError::InvalidAuthorization)
    } else if m.used_authorizations.contains(authorization.authorization_id@) {
        Err(FaultResetError::ReusedAuthorization)
    } else if m.active_faults.len() > 0 {
        Err(FaultResetError::UnsafeConditions)
    } else {
        Ok(())
    }
}

/// The state after a granted reset with authorization `id`: the latch is
/// released and the authorization is remembered among the latest
/// [`USED_AUTHORIZATION_CAPACITY`].
pub open spec fn reset_model(m: SafetyModel, id: Seq<char>) -> SafetyModel {
    let used = m.used_authorizations.push(id);
    SafetyModel {
        fault_latched: false,
        used_authorizations: if used.len() > USED_AUTHORIZATION_CAPACITY {
            used.drop_first()
        } else {
            used
        },
        ..m
    }
}

/// Whether a telemetry report is due at `now`.
pub open spec fn telemetry_due(m: SafetyModel, now: u64) -> bool {
    match m.last_telemetry_unix_ms {
        None => true,
        Some(last) => saturating_difference(now, last) >= m.limits.telemetry_interval_ms,
    }
}

/// The state after asking for a telemetry slot at `now`.
pub open spec fn telemetry_model(m: SafetyModel, now: u64) -> SafetyModel {
    if telemetry_due(m, now) {
        SafetyModel { last_telemetry_unix_ms: Some(now), ..m }
    } else {
        m
    }
}

/// The state of a new controller.
pub open spec fn initial_safety_model(limits: SafetyLimits) -> SafetyModel {
    SafetyModel {
        limits,
        fault_latched: false,
        active_faults: Seq::empty(),
        history: Seq::empty(),
        used_authorizations: Seq::empty(),
        last_telemetry_unix_ms: None,
    }
}

/// Watches sensor readings, latches a fail-safe output when a limit is
/// crossed, and releases it only on an authorized reset.
#[derive(Debug, Clone)]
pub struct SafetyController {
    limits: SafetyLimits,
    fault_latched: bool,
    active_faults: Vec<SafetyFaultCode>,
    history: Vec<SafetyFaultRecord>,
    used_reset_authorizations: Vec<String>,
    last_telemetry_unix_ms: Option<u64>,
}

impl View for SafetyController {
    type V = SafetyModel;

    closed spec fn view(&self) -> SafetyModel {
        SafetyModel {
            limits: self.limits,
            fault_latched: self.fault_latched,
            active_faults: self.active_faults@,
            history: self.history@,
            used_authorizations: strings_view(self.used_reset_authorizations@),
            last_telemetry_unix_ms: self.last_telemetry_unix_ms,
        }
    }
}

/// Every record that is still open belongs to a fault in `active`.
pub open spec fn open_records_active(h: Seq<SafetyFaultRecord>, active: Seq<SafetyFaultCode>) -> bool {
    forall|i: int|
        0 <= i < h.len() && (#[trigger] h[i]).cleared_at_unix_ms is None ==> active.contains(
            h[i].code,
        )
}

/// No two open records are of the same fault.
pub open spec fn open_records_distinct(h: Seq<SafetyFaultRecord>) -> bool {
    forall|i: int, j: int|
        0 <= i < h.len() && 0 <= j < h.len() && i != j && (#[trigger] h[i]).cleared_at_unix_ms
            is None && (#[trigger] h[j]).cleared_at_unix_ms is None ==> h[i].code != h[j].code
}

/// A state that the operations can reach: valid limits, a history within
/// its capacity whose open records are one per active fault at most, active
/// faults listed once each, and at most [`USED_AUTHORIZATION_CAPACITY`]
/// remembered authorizations.
pub open spec fn safety_model_valid(m: SafetyModel) -> bool {
    &&& m.limits.spec_valid()
    &&& m.history.len() <= m.limits.fault_history_capacity
    &&& open_records_active(m.history, m.active_faults)
    &&& open_records_distinct(m.history)
    &&& m.active_faults.no_duplicates()
    &&& m.used_authorizations.len() <= USED_AUTHORIZATION_CAPACITY
}

fn contains_code(codes: &Vec<SafetyFaultCode>, code: SafetyFaultCode) -> (found: bool)
    ensures
        found == codes@.contains(code),
{
    let count = codes.len();
    let mut index: usize = 0;
    while index < count
        invariant
            count == codes@.len(),
            index <= count,
            forall|j: int| 0 <= j < index ==> codes@[j] != code,
        decreases count - index,
    {
        if codes[index] == code {
            return true;
        }
        index = index + 1;
    }
    false
}

fn copy_codes(codes: &Vec<SafetyFaultCode>) -> (copy: Vec<SafetyFaultCode>)
    ensures
        copy@ == codes@,
{
    let mut copy: Vec<SafetyFaultCode> = Vec::new();
    let count = codes.len();
    let mut index: usize = 0;
    while index < count
        invariant
            count == codes@.len(),
            index <= count,
            copy@ == codes@.take(index as int),
        decreases count - index,
    {
        copy.push(codes[index]);
        index = index + 1;
        assert(copy@ =~= codes@.take(index as int));
    }
    assert(codes@.take(count as int) =~= codes@);
    copy
}

/// What [`last_open_record`] finds is an open record of `code`, no later
/// one among the first `n` is, and when it finds nothing, none is.
proof fn lemma_last_open_record(h: Seq<SafetyFaultRecord>, code: SafetyFaultCode, n: nat)
    requires
        n <= h.len(),
    ensures
        match last_open_record(h, code, n) {
            Some(i) => {
                &&& 0 <= i < n
                &&& h[i].code == code
                &&& h[i].cleared_at_unix_ms is None
                &&& forall|j: int|
                    i < j < n ==> !(#[trigger] h[j].code == code && h[j].cleared_at_unix_ms is None)
            },
            None => forall|j: int|
                0 <= j < n ==> !(#[trigger] h[j].code == code && h[j].cleared_at_unix_ms is None),
        },
    decreases n,
{
    if n > 0 {
        lemma_last_open_record(h, code, (n - 1) as nat);
    }
}

/// The detected faults are listed once each.
pub proof fn lemma_detected_faults_distinct(limits: SafetyLimits, o: SafetyObservation)
    ensures
        detected_faults(limits, o).no_duplicates(),
{
    let s0 = if sensor_missing(limits, o) {
        seq![SafetyFaultCode::SensorFailure]
    } else {
        Seq::<SafetyFaultCode>::empty()
    };
    let s1 = if under_voltage(limits, o) {
        s0.push(SafetyFaultCode::UnderVoltage)
    } else {
        s0
    };
    let s2 = if over_current(limits, o) {
        s1.push(SafetyFaultCode::OverCurrent)
    } else {
        s1
    };
    let s3 = if over_temperature(limits, o) {
        s2.push(SafetyFaultCode::OverTemperature)
    } else {
        s2
    };
    assert(forall|i: int| 0 <= i < s0.len() ==> s0[i] == SafetyFaultCode::SensorFailure);
    assert(forall|i: int|
        0 <= i < s1.len() ==> s1[i] == SafetyFaultCode::SensorFailure || s1[i]
            == SafetyFaultCode::UnderVoltage);
    assert(forall|i: int|
        0 <= i < s2.len() ==> s2[i] == SafetyFaultCode::SensorFailure || s2[i]
            == SafetyFaultCode::UnderVoltage || s2[i] == SafetyFaultCode::OverCurrent);
    assert(forall|i: int|
        0 <= i < s3.len() ==> s3[i] == SafetyFaultCode::SensorFailure || s3[i]
            == SafetyFaultCode::UnderVoltage || s3[i] == SafetyFaultCode::OverCurrent || s3[i]
            == SafetyFaultCode::OverTemperature);
    assert(s0.no_duplicates());
    assert(s1.no_duplicates());
    assert(s2.no_duplicates());
    assert(s3.no_duplicates());
}

/// An item is in a sequence with one more item pushed exactly when it was
/// in the sequence or is the pushed item.
proof fn lemma_push_contains(s: Seq<SafetyFaultCode>, x: SafetyFaultCode, c: SafetyFaultCode)
    ensures
        s.push(x).contains(c) <==> (s.contains(c) || c == x),
{
    let p = s.push(x);
    if s.contains(c) {
        let i = choose|i: int| 0 <= i < s.len() && s[i] == c;
        assert(p[i] == c);
    }
    if c == x {
        assert(p[s.len() as int] == c);
    }
    if p.contains(c) {
        let i = choose|i: int| 0 <= i < p.len() && p[i] == c;
        if i < s.len() {
            assert(s[i] == c);
        }
    }
}

/// Which faults an observation shows, fault by fault, in terms of the limits
/// and the readings: a sensor failure exactly when a limit is configured whose
/// sensor gave no reading; under-voltage, over-current and over-temperature
/// exactly when both the limit and the reading are there and the reading is
/// beyond the limit; communication loss exactly when more than the timeout
/// has passed since the last authenticated command.
pub proof fn lemma_detected_faults_characterized(limits: SafetyLimits, o: SafetyObservation)
    ensures
        detected_faults(limits, o).contains(SafetyFaultCode::SensorFailure) <==> (
        (limits.minimum_supply_millivolts is Some && o.supply_millivolts is None) || (
        limits.maximum_current_milliamps is Some && o.current_milliamps is None) || (
        limits.maximum_temperature_millicelsius is Some && o.temperature_millicelsius is None)),
        detected_faults(limits, o).contains(SafetyFaultCode::UnderVoltage) <==> (
        limits.minimum_supply_millivolts is Some && o.supply_millivolts is Some
            && o.supply_millivolts.unwrap() < limits.minimum_supply_millivolts.unwrap()),
        detected_faults(limits, o).contains(SafetyFaultCode::OverCurrent) <==> (
        limits.maximum_current_milliamps is Some && o.current_milliamps is Some
            && o.current_milliamps.unwrap() > limits.maximum_current_milliamps.unwrap()),
        detected_faults(limits, o).contains(SafetyFaultCode::OverTemperature) <==> (
        limits.maximum_temperature_millicelsius is Some && o.temperature_millicelsius is Some
            && o.temperature_millicelsius.unwrap()
            > limits.maximum_temperature_millicelsius.unwrap()),
        detected_faults(limits, o).contains(SafetyFaultCode::CommunicationLoss) <==> (
        o.observed_at_unix_ms >= o.last_authenticated_command_unix_ms && o.observed_at_unix_ms
            - o.last_authenticated_command_unix_ms > limits.communication_timeout_ms),
{
    let s0 = if sensor_missing(limits, o) {
        seq![SafetyFaultCode::SensorFailure]
    } else {
        Seq::<SafetyFaultCode>::empty()
    };
    let s1 = if under_voltage(limits, o) {
        s0.push(SafetyFaultCode::UnderVoltage)
    } else {
        s0
    };
    let s2 = if over_current(limits, o) {
        s1.push(SafetyFaultCode::OverCurrent)
    } else {
        s1
    };
    let s3 = if over_temperature(limits, o) {
        s2.push(SafetyFaultCode::OverTemperature)
    } else {
        s2
    };
    let d = detected_faults(limits, o);
    assert forall|c: SafetyFaultCode|
        d.contains(c) <==> ((c == SafetyFaultCode::SensorFailure && sensor_missing(limits, o)) || (c
            == SafetyFaultCode::UnderVoltage && under_voltage(limits, o)) || (c
            == SafetyFaultCode::OverCurrent && over_current(limits, o)) || (c
            == SafetyFaultCode::OverTemperature && over_temperature(limits, o)) || (c
            == SafetyFaultCode::CommunicationLoss && communication_lost(limits, o))) by {
        if sensor_missing(limits, o) {
            lemma_push_contains(Seq::<SafetyFaultCode>::empty(), SafetyFaultCode::SensorFailure, c);
            assert(s0 =~= Seq::<SafetyFaultCode>::empty().push(SafetyFaultCode::SensorFailure));
        }
        lemma_push_contains(s0, SafetyFaultCode::UnderVoltage, c);
        lemma_push_contains(s1, SafetyFaultCode::OverCurrent, c);
        lemma_push_contains(s2, SafetyFaultCode::OverTemperature, c);
        lemma_push_contains(s3, SafetyFaultCode::CommunicationLoss, c);
    }
    assert(d.contains(SafetyFaultCode::SensorFailure) <==> sensor_missing(limits, o));
    assert(d.contains(SafetyFaultCode::UnderVoltage) <==> under_voltage(limits, o));
    assert(d.contains(SafetyFaultCode::OverCurrent) <==> over_current(limits, o));
    assert(d.contains(SafetyFaultCode::OverTemperature) <==> over_temperature(limits, o));
    assert(d.contains(SafetyFaultCode::CommunicationLoss) <==> communication_lost(limits, o));
}

/// An observation that lacks the reading of a sensor whose limit is configured
/// reports a sensor failure and latches the fault, which caps the output at
/// the fail-safe brightness.
pub proof fn lemma_missing_sensor_latches_fail_safe(m: SafetyModel, o: SafetyObservation)
    requires
        (m.limits.minimum_supply_millivolts is Some && o.supply_millivolts is None) || (
        m.limits.maximum_current_milliamps is Some && o.current_milliamps is None) || (
        m.limits.maximum_temperature_millicelsius is Some && o.temperature_millicelsius is None),
    ensures
        observed_model(m, o).active_faults.contains(SafetyFaultCode::SensorFailure),
        observed_model(m, o).fault_latched,
        brightness_ceiling(observed_model(m, o)) == m.limits.fail_safe_brightness,
{
    lemma_detected_faults_characterized(m.limits, o);
}

/// Closing the latest open record of `code` leaves no open record of it and
/// changes nothing else but that record's clearing time.
proof fn lemma_close_record(h: Seq<SafetyFaultRecord>, code: SafetyFaultCode, now: u64)
    requires
        open_records_distinct(h),
    ensures
        ({
            let r = close_record(h, code, now);
            &&& r.len() == h.len()
            &&& open_records_distinct(r)
            &&& forall|j: int|
                0 <= j < h.len() ==> (#[trigger] r[j]).code == h[j].code && (r[j].cleared_at_unix_ms
                    is None <==> (h[j].cleared_at_unix_ms is None && h[j].code != code))
        }),
{
    lemma_last_open_record(h, code, h.len());
    let r = close_record(h, code, now);
    match last_open_record(h, code, h.len()) {
        Some(i) => {
            assert forall|j: int| 0 <= j < h.len() implies (#[trigger] r[j]).code == h[j].code && (
            r[j].cleared_at_unix_ms is None <==> (h[j].cleared_at_unix_ms is None && h[j].code
                != code)) by {
                if j != i && h[j].cleared_at_unix_ms is None && h[j].code == code {
                    assert(h[i].cleared_at_unix_ms is None);
                    assert(h[i].code != h[j].code);
                }
            }
        },
        None => {},
    }
}

/// After closing the records of the faults of `codes` that are not among
/// `next`, the open records still belong to `active`, stay one per fault,
/// and none belongs to a closed fault.
proof fn lemma_close_cleared(
    h: Seq<SafetyFaultRecord>,
    active: Seq<SafetyFaultCode>,
    codes: Seq<SafetyFaultCode>,
    next: Seq<SafetyFaultCode>,
    now: u64,
)
    requires
        open_records_active(h, active),
        open_records_distinct(h),
    ensures
        ({
            let r = close_cleared(h, codes, next, now);
            &&& r.len() == h.len()
            &&& open_records_active(r, active)
            &&& open_records_distinct(r)
            &&& forall|j: int|
                0 <= j < r.len() && (#[trigger] r[j]).cleared_at_unix_ms is None ==> !(
                codes.contains(r[j].code) && !next.contains(r[j].code))
        }),
    decreases codes.len(),
{
    if codes.len() > 0 {
        let rest = codes.drop_last();
        lemma_close_cleared(h, active, rest, next, now);
        let prior = close_cleared(h, rest, next, now);
        let c = codes.last();
        let r = close_cleared(h, codes, next, now);
        if !next.contains(c) {
            lemma_close_record(prior, c, now);
        }
        assert forall|j: int|
            0 <= j < r.len() && (#[trigger] r[j]).cleared_at_unix_ms is None implies !(
            codes.contains(r[j].code) && !next.contains(r[j].code)) by {
            assert(prior[j].cleared_at_unix_ms is None);
            assert(r[j].code == prior[j].code);
            if codes.contains(r[j].code) && !next.contains(r[j].code) {
                let k = choose|k: int| 0 <= k < codes.len() && codes[k] == r[j].code;
                if k < codes.len() - 1 {
                    assert(rest[k] == codes[k]);
                    assert(rest.contains(r[j].code));
                }
            }
        }
    }
}

/// After opening records for the faults of `codes` that are not among
/// `previous`, every open record belongs to a fault that is in both
/// `previous` and `next`, or to one of `codes`; they stay one per fault.
proof fn lemma_open_started(
    h: Seq<SafetyFaultRecord>,
    codes: Seq<SafetyFaultCode>,
    previous: Seq<SafetyFaultCode>,
    next: Seq<SafetyFaultCode>,
    now: u64,
)
    requires
        open_records_distinct(h),
        forall|j: int|
            0 <= j < h.len() && (#[trigger] h[j]).cleared_at_unix_ms is None ==> previous.contains(
                h[j].code,
            ) && next.contains(h[j].code),
        codes.no_duplicates(),
    ensures
        ({
            let r = open_started(h, codes, previous, now);
            &&& h.len() <= r.len()
            &&& open_records_distinct(r)
            &&& forall|j: int|
                0 <= j < r.len() && (#[trigger] r[j]).cleared_at_unix_ms is None ==> (
                previous.contains(r[j].code) && next.contains(r[j].code)) || codes.contains(
                    r[j].code,
                )
        }),
    decreases codes.len(),
{
    if codes.len() > 0 {
        let rest = codes.drop_last();
        assert(rest.no_duplicates());
        lemma_open_started(h, rest, previous, next, now);
        let prior = open_started(h, rest, previous, now);
        let c = codes.last();
        let r = open_started(h, codes, previous, now);
        assert forall|x: SafetyFaultCode| rest.contains(x) implies codes.contains(x) by {
            let k = choose|k: int| 0 <= k < rest.len() && rest[k] == x;
            assert(codes[k] == x);
        }
        if !previous.contains(c) {
            assert(!rest.contains(c)) by {
                if rest.contains(c) {
                    let k = choose|k: int| 0 <= k < rest.len() && rest[k] == c;
                    assert(codes[k] == codes[codes.len() - 1]);
                }
            }
            assert(codes.contains(c)) by {
                assert(codes[codes.len() - 1] == c);
            }
            assert forall|i: int, j: int|
                0 <= i < r.len() && 0 <= j < r.len() && i != j && (#[trigger] r[i]).cleared_at_unix_ms
                    is None && (#[trigger] r[j]).cleared_at_unix_ms is None implies r[i].code
                != r[j].code by {
                if i < prior.len() && j < prior.len() {
                    assert(r[i] == prior[i] && r[j] == prior[j]);
                } else if i < prior.len() {
                    assert(r[i] == prior[i]);
                } else {
                    assert(r[j] == prior[j]);
                }
            }
        }
    }
}

/// The history after an observation keeps at most one open record per fault,
/// each for a fault that is active after the observation, and fits its capacity.
proof fn lemma_reconciled_history_valid(
    h: Seq<SafetyFaultRecord>,
    previous: Seq<SafetyFaultCode>,
    next: Seq<SafetyFaultCode>,
    now: u64,
    capacity: nat,
)
    requires
        open_records_active(h, previous),
        open_records_distinct(h),
        next.no_duplicates(),
    ensures
        ({
            let r = reconciled_history(h, previous, next, now, capacity);
            &&& r.len() <= capacity
            &&& open_records_active(r, next)
            &&& open_records_distinct(r)
        }),
{
    lemma_close_cleared(h, previous, previous, next, now);
    let closed = close_cleared(h, previous, next, now);
    assert forall|j: int|
        0 <= j < closed.len() && (#[trigger] closed[j]).cleared_at_unix_ms is None implies previous.contains(
        closed[j].code,
    ) && next.contains(closed[j].code) by {}
    lemma_open_started(closed, next, previous, next, now);
    let opened = open_started(closed, next, previous, now);
    let r = trimmed(opened, capacity);
    if opened.len() > capacity {
        let start = opened.len() - capacity;
        assert forall|j: int| 0 <= j < r.len() implies #[trigger] r[j] == opened[start + j] by {}
        assert forall|i: int, j: int|
            0 <= i < r.len() && 0 <= j < r.len() && i != j && (#[trigger] r[i]).cleared_at_unix_ms
                is None && (#[trigger] r[j]).cleared_at_unix_ms is None implies r[i].code
            != r[j].code by {
            assert(r[i] == opened[start + i] && r[j] == opened[start + j]);
        }
        assert forall|j: int|
            0 <= j < r.len() && (#[trigger] r[j]).cleared_at_unix_ms is None implies next.contains(
            r[j].code,
        ) by {
            assert(r[j] == opened[start + j]);
        }
    }
}

/// Position of the latest open record of `code`.
fn last_open_position(history: &Vec<SafetyFaultRecord>, code: SafetyFaultCode) -> (found: Option<
    usize,
>)
    ensures
        match found {
            Some(i) => i < history@.len() && last_open_record(history@, code, history@.len()) == Some(i as int),
            None => last_open_record(history@, code, history@.len()) is None,
        },
{
    proof {
        lemma_last_open_record(history@, code, history@.len());
    }
    let mut n = history.len();
    while n > 0
        invariant
            n <= history@.len(),
            last_open_record(history@, code, history@.len()) == last_open_record(
                history@,
                code,
                n as nat,
            ),
        decreases n,
    {
        let record = history[n - 1];
        if record.code == code && record.cleared_at_unix_ms.is_none() {
            return Some(n - 1);
        }
        n = n - 1;
    }
    None
}

/// The history after the active faults changed from `previous` to `next` at `now`.
fn reconcile_history(
    history: Vec<SafetyFaultRecord>,
    previous: &Vec<SafetyFaultCode>,
    next: &Vec<SafetyFaultCode>,
    now: u64,
    capacity: usize,
) -> (result: Vec<SafetyFaultRecord>)
    ensures
        result@ == reconciled_history(history@, previous@, next@, now, capacity as nat),
{
    let ghost original = history@;
    let mut history = history;
    let count = previous.len();
    let mut index: usize = 0;
    while index < count
        invariant
            count == previous@.len(),
            index <= count,
            history@ == close_cleared(original, previous@.take(index as int), next@, now),
        decreases count - index,
    {
        let code = previous[index];
        proof {
            assert(previous@.take(index + 1).drop_last() =~= previous@.take(index as int));
            assert(previous@.take(index + 1).last() == code);
        }
        if !contains_code(next, code) {
            match last_open_position(&history, code) {
                Some(position) => {
                    let record = history[position];
                    history.set(
                        position,
                        SafetyFaultRecord { cleared_at_unix_ms: Some(now), ..record },
                    );
                },
                None => {},
            }
        }
        index = index + 1;
    }
    assert(previous@.take(count as int) =~= previous@);
    let ghost closed = history@;
    let count = next.len();
    let mut index: usize = 0;
    while index < count
        invariant
            count == next@.len(),
            index <= count,
            history@ == open_started(closed, next@.take(index as int), previous@, now),
        decreases count - index,
    {
        let code = next[index];
        proof {
            assert(next@.take(index + 1).drop_last() =~= next@.take(index as int));
            assert(next@.take(index + 1).last() == code);
        }
        if !contains_code(previous, code) {
            history.push(
                SafetyFaultRecord { code, tripped_at_unix_ms: now, cleared_at_unix_ms: None },
            );
        }
        index = index + 1;
    }
    assert(next@.take(count as int) =~= next@);
    let length = history.len();
    if length <= capacity {
        return history;
    }
    let mut kept: Vec<SafetyFaultRecord> = Vec::new();
    let start = length - capacity;
    let mut index: usize = start;
    while index < length
        invariant
            length == history@.len(),
            start <= index <= length,
            kept@ == history@.subrange(start as int, index as int),
        decreases length - index,
    {
        kept.push(history[index]);
        index = index + 1;
        assert(kept@ =~= history@.subrange(start as int, index as int));
    }
    kept
}

impl SafetyController {
    /// The controller's own consistency.
    pub closed spec fn wf(&self) -> bool {
        safety_model_valid(self@)
    }

    /// The state of a controller that the operations produce is valid.
    pub proof fn lemma_wf_model_valid(&self)
        requires
            self.wf(),
        ensures
            safety_model_valid(self@),
    {
    }

    /// Creates a controller enforcing `limits`, once they are valid.
    pub fn new(limits: SafetyLimits) -> (result: Result<Self, ValidationError>)
        ensures
            result is Ok <==> limits.spec_valid(),
            result matches Err(error) ==> limits.spec_check() == Err::<(), _>(error),
            result matches Ok(controller) ==> controller.wf() && controller@
                == initial_safety_model(limits),
    {
        match limits.validate() {
            Err(error) => Err(error),
            Ok(()) => {
                let controller = SafetyController {
                    limits,
                    fault_latched: false,
                    active_faults: Vec::new(),
                    history: Vec::new(),
                    used_reset_authorizations: Vec::new(),
                    last_telemetry_unix_ms: None,
                };
                assert(strings_view(controller.used_reset_authorizations@) =~= Seq::<
                    Seq<char>,
                >::empty());
                Ok(controller)
            },
        }
    }

    /// The faults present in `observation`.
    fn detect_faults(&self, observation: SafetyObservation) -> (faults: Vec<SafetyFaultCode>)
        ensures
            faults@ == detected_faults(self.limits, observation),
    {
        let mut faults: Vec<SafetyFaultCode> = Vec::new();
        let required_sensor_missing = self.limits.minimum_supply_millivolts.is_some()
            && observation.supply_millivolts.is_none()
            || self.limits.maximum_current_milliamps.is_some()
            && observation.current_milliamps.is_none()
            || self.limits.maximum_temperature_millicelsius.is_some()
            && observation.temperature_millicelsius.is_none();
        if required_sensor_missing {
            faults.push(SafetyFaultCode::SensorFailure);
        }
        let under = match (self.limits.minimum_supply_millivolts, observation.supply_millivolts) {
            (Some(minimum), Some(observed)) => observed < minimum,
            _ => false,
        };
        if under {
            faults.push(SafetyFaultCode::UnderVoltage);
        }
        let over = match (self.limits.maximum_current_milliamps, observation.current_milliamps) {
            (Some(maximum), Some(observed)) => observed > maximum,
            _ => false,
        };
        if over {
            faults.push(SafetyFaultCode::OverCurrent);
        }
        let hot = match (
            self.limits.maximum_temperature_millicelsius,
            observation.temperature_millicelsius,
        ) {
            (Some(maximum), Some(observed)) => observed > maximum,
            _ => false,
        };
        if hot {
            faults.push(SafetyFaultCode::OverTemperature);
        }
        if observation.observed_at_unix_ms.saturating_sub(
            observation.last_authenticated_command_unix_ms,
        ) > self.limits.communication_timeout_ms as u64 {
            faults.push(SafetyFaultCode::CommunicationLoss);
        }
        assert(faults@ =~= detected_faults(self.limits, observation));
        faults
    }

    /// The decision that the current state implies.
    pub fn decision(&self) -> (decision: SafetyDecision)
        ensures
            decision.brightness_limit == brightness_ceiling(self@),
            decision.fault_latched == self@.fault_latched,
            decision.active_faults@ == self@.active_faults,
    {
        SafetyDecision {
            brightness_limit: if self.fault_latched {
                self.limits.fail_safe_brightness
            } else {
                u8::MAX
            },
            fault_latched: self.fault_latched,
            active_faults: copy_codes(&self.active_faults),
        }
    }

    /// The recorded faults, oldest first.
    pub fn recent_faults(&self) -> (records: &[SafetyFaultRecord])
        ensures
            records@ == self@.history,
    {
        self.history.as_slice()
    }

    /// Asks whether a telemetry report is due at `now_unix_ms`; when it is,
    /// the slot is taken and the next one is due one interval later.
    pub fn take_telemetry_slot(&mut self, now_unix_ms: u64) -> (due: bool)
        requires
            old(self).wf(),
        ensures
            final(self).wf(),
            due == telemetry_due(old(self)@, now_unix_ms),
            final(self)@ == telemetry_model(old(self)@, now_unix_ms),
    {
        let due = match self.last_telemetry_unix_ms {
            None => true,
            Some(last) => now_unix_ms.saturating_sub(last) >= self.limits.telemetry_interval_ms as u64,
        };
        if due {
            self.last_telemetry_unix_ms = Some(now_unix_ms);
        }
        due
    }

    /// Takes in a sensor reading: the faults it shows become the active
    /// faults, the history records the faults that tripped and cleared, and
    /// any fault latches the fail-safe output until an authorized reset.
    pub fn observe(&mut self, observation: SafetyObservation) -> (decision: SafetyDecision)
        requires
            old(self).wf(),
        ensures
            final(self).wf(),
            final(self)@ == observed_model(old(self)@, observation),
            decision.brightness_limit == brightness_ceiling(final(self)@),
            decision.fault_latched == final(self)@.fault_latched,
            decision.active_faults@ == final(self)@.active_faults,
            (old(self)@.limits.minimum_supply_millivolts is Some && observation.supply_millivolts
                is None) || (old(self)@.limits.maximum_current_milliamps is Some
                && observation.current_milliamps is None) || (
            old(self)@.limits.maximum_temperature_millicelsius is Some
                && observation.temperature_millicelsius is None) ==> {
                &&& decision.active_faults@.contains(SafetyFaultCode::SensorFailure)
                &&& decision.fault_latched
                &&& decision.brightness_limit == old(self)@.limits.fail_safe_brightness
            },
    {
        let next_faults = self.detect_faults(observation);
        proof {
            lemma_detected_faults_characterized(self@.limits, observation);
            if sensor_missing(self@.limits, observation) {
                lemma_missing_sensor_latches_fail_safe(self@, observation);
            }
            lemma_detected_faults_distinct(self.limits, observation);
            lemma_reconciled_history_valid(
                self.history@,
                self.active_faults@,
                next_faults@,
                observation.observed_at_unix_ms,
                self.limits.fault_history_capacity as nat,
            );
        }
        let mut history: Vec<SafetyFaultRecord> = Vec::new();
        std::mem::swap(&mut history, &mut self.history);
        self.history = reconcile_history(
            history,
            &self.active_faults,
            &next_faults,
            observation.observed_at_unix_ms,
            self.limits.fault_history_capacity as usize,
        );
        self.active_faults = next_faults;
        if self.active_faults.len() > 0 {
            self.fault_latched = true;
        }
        self.decision()
    }

    /// Releases the latched fail-safe output, given an authorization that is
    /// valid now and was not used before, once no fault is active.
    pub fn reset_authorized(
        &mut self,
        authorization: &FaultResetAuthorization,
        now_unix_ms: u64,
    ) -> (result: Result<SafetyDecision, FaultResetError>)
        requires
            old(self).wf(),
        ensures
            final(self).wf(),
            match result {
                Ok(decision) => {
                    &&& reset_verdict(old(self)@, *authorization, now_unix_ms) is Ok
                    &&& final(self)@ == reset_model(old(self)@, authorization.authorization_id@)
                    &&& decision.brightness_limit == brightness_ceiling(final(self)@)
                    &&& decision.fault_latched == final(self)@.fault_latched
                    &&& decision.active_faults@ == final(self)@.active_faults
                },
                Err(error) => {
                    &&& reset_verdict(old(self)@, *authorization, now_unix_ms) == Err::<(), _>(error)
                    &&& final(self)@ == old(self)@
                },
            },
    {
        match authorization.validate_at(now_unix_ms) {
            Err(_) => {
                return Err(FaultResetError::InvalidAuthorization);
            },
            Ok(()) => {},
        }
        if contains_text(&self.used_reset_authorizations, authorization.authorization_id.as_str()) {
            return Err(FaultResetError::ReusedAuthorization);
        }
        if self.active_faults.len() > 0 {
            return Err(FaultResetError::UnsafeConditions);
        }
        let ghost used = strings_view(self.used_reset_authorizations@);
        self.fault_latched = false;
        self.used_reset_authorizations.push(authorization.authorization_id.clone());
        assert(strings_view(self.used_reset_authorizations@) =~= used.push(
            authorization.authorization_id@,
        ));
        if self.used_reset_authorizations.len() > USED_AUTHORIZATION_CAPACITY {
            self.used_reset_authorizations.remove(0);
            assert(strings_view(self.used_reset_authorizations@) =~= used.push(
                authorization.authorization_id@,
            ).drop_first());
        }
        Ok(self.decision())
    }
}

/// The state after `observations`, in order.
pub open spec fn observed_all(m: SafetyModel, observations: Seq<SafetyObservation>) -> SafetyModel
    decreases observations.len(),
{
    if observations.len() == 0 {
        m
    } else {
        observed_model(observed_all(m, observations.drop_last()), observations.last())
    }
}

/// Every operation keeps a valid state valid; in particular the fault
/// history never outgrows its capacity.
pub proof fn lemma_operations_keep_state_valid(
    m: SafetyModel,
    observation: SafetyObservation,
    authorization_id: Seq<char>,
    now: u64,
)
    requires
        safety_model_valid(m),
    ensures
        safety_model_valid(observed_model(m, observation)),
        observed_model(m, observation).history.len() <= m.limits.fault_history_capacity,
        safety_model_valid(reset_model(m, authorization_id)),
        safety_model_valid(telemetry_model(m, now)),
{
    let next = detected_faults(m.limits, observation);
    lemma_detected_faults_distinct(m.limits, observation);
    lemma_reconciled_history_valid(
        m.history,
        m.active_faults,
        next,
        observation.observed_at_unix_ms,
        m.limits.fault_history_capacity as nat,
    );
}

/// A latched fault stays latched, and the output stays at the fail-safe
/// brightness, through any number of observations, healthy or not: only a
/// reset releases it.  A fault in any observation latches it.
pub proof fn lemma_latch_holds_until_reset(m: SafetyModel, observations: Seq<SafetyObservation>)
    ensures
        m.fault_latched ==> observed_all(m, observations).fault_latched,
        m.fault_latched ==> brightness_ceiling(observed_all(m, observations))
            == m.limits.fail_safe_brightness,
        observations.len() > 0 && detected_faults(m.limits, observations.last()).len() > 0
            ==> observed_all(m, observations).fault_latched,
        observed_all(m, observations).limits == m.limits,
    decreases observations.len(),
{
    if observations.len() > 0 {
        lemma_latch_holds_until_reset(m, observations.drop_last());
    }
}

/// A granted reset requires a valid authorization, no active fault and an
/// unused authorization; it releases the latch; and the same authorization
/// is refused from then on.
pub proof fn lemma_reset_authorization_single_use(
    m: SafetyModel,
    authorization: FaultResetAuthorization,
    now: u64,
    later: u64,
)
    requires
        safety_model_valid(m),
        reset_verdict(m, authorization, now) is Ok,
    ensures
        authorization.spec_valid_at(now),
        m.active_faults.len() == 0,
        !m.used_authorizations.contains(authorization.authorization_id@),
        !reset_model(m, authorization.authorization_id@).fault_latched,
        brightness_ceiling(reset_model(m, authorization.authorization_id@)) == 255,
        reset_verdict(reset_model(m, authorization.authorization_id@), authorization, later) is Err,
{
    let id = authorization.authorization_id@;
    let used = m.used_authorizations.push(id);
    let after = reset_model(m, id);
    assert(used[used.len() - 1] == id);
    if used.len() > USED_AUTHORIZATION_CAPACITY {
        assert(after.used_authorizations[after.used_authorizations.len() - 1] == id);
    }
    assert(after.used_authorizations.contains(id));
}

/// A telemetry slot taken at `now` makes the next one due exactly one
/// interval later.
pub proof fn lemma_telemetry_slots_spaced(m: SafetyModel, now: u64, later: u64)
    requires
        telemetry_due(m, now),
        now <= later,
    ensures
        telemetry_due(telemetry_model(m, now), later) <==> later - now
            >= m.limits.telemetry_interval_ms,
{
}

/// A record stays open only while its fault is active: after an observation
/// that shows no fault, every record in the history is closed.
pub proof fn lemma_quiet_observation_closes_every_record(
    m: SafetyModel,
    observation: SafetyObservation,
)
    requires
        safety_model_valid(m),
        detected_faults(m.limits, observation).len() == 0,
    ensures
        forall|i: int|
            0 <= i < observed_model(m, observation).history.len() ==> (#[trigger] observed_model(
                m,
                observation,
            ).history[i]).cleared_at_unix_ms is Some,
{
    lemma_operations_keep_state_valid(m, observation, Seq::empty(), 0);
}

} // verus!
