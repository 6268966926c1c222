use leddy_lib::interfaces::{
    FaultResetAuthorization, SafetyFaultCode, SafetyFaultRecord, SafetyLimits,
};
use leddy_lib::safety::{FaultResetError, SafetyController, SafetyObservation};

fn limits() -> SafetyLimits {
    SafetyLimits {
        minimum_supply_millivolts: Some(4_500),
        maximum_current_milliamps: Some(2_000),
        maximum_temperature_millicelsius: Some(75_000),
        fail_safe_brightness: 0,
        communication_timeout_ms: 5_000,
        telemetry_interval_ms: 1_000,
        fault_history_capacity: 3,
    }
}

fn healthy(at: u64) -> SafetyObservation {
    SafetyObservation {
        observed_at_unix_ms: at,
        last_authenticated_command_unix_ms: at,
        supply_millivolts: Some(5_000),
        current_milliamps: Some(1_000),
        temperature_millicelsius: Some(40_000),
    }
}

#[test]
fn threshold_crossing_latches_fail_safe_output_locally() {
    let mut controller = SafetyController::new(limits()).expect("valid limits");
    let mut over_current = healthy(1_000);
    over_current.current_milliamps = Some(2_001);

    let decision = controller.observe(over_current);

    assert_eq!(decision.brightness_limit, 0);
    assert!(decision.fault_latched);
    assert_eq!(decision.active_faults, vec![SafetyFaultCode::OverCurrent]);
}

#[test]
fn communication_loss_never_restores_unlimited_output() {
    let mut controller = SafetyController::new(limits()).expect("valid limits");
    let mut stale = healthy(6_001);
    stale.last_authenticated_command_unix_ms = 1_000;

    controller.observe(stale);
    let recovered = controller.observe(healthy(7_000));

    assert!(recovered.active_faults.is_empty());
    assert!(recovered.fault_latched);
    assert_eq!(recovered.brightness_limit, 0);
}

#[test]
fn reset_requires_safe_conditions_fresh_authorization_and_single_use() {
    let mut controller = SafetyController::new(limits()).expect("valid limits");
    let mut too_hot = healthy(1_000);
    too_hot.temperature_millicelsius = Some(90_000);
    controller.observe(too_hot);
    let authorization = FaultResetAuthorization {
        authorization_id: "reset-1".into(),
        issued_at_unix_ms: 900,
        expires_at_unix_ms: 2_000,
    };

    assert_eq!(
        controller.reset_authorized(&authorization, 1_000),
        Err(FaultResetError::UnsafeConditions)
    );
    controller.observe(healthy(1_100));
    assert!(
        !controller
            .reset_authorized(&authorization, 1_100)
            .expect("safe authorized reset")
            .fault_latched
    );
    assert_eq!(
        controller.reset_authorized(&authorization, 1_200),
        Err(FaultResetError::ReusedAuthorization)
    );
}

#[test]
fn fault_history_and_telemetry_are_bounded() {
    let mut controller = SafetyController::new(limits()).expect("valid limits");
    assert!(controller.take_telemetry_slot(1_000));
    assert!(!controller.take_telemetry_slot(1_999));
    assert!(controller.take_telemetry_slot(2_000));

    for index in 0..5 {
        let mut fault = healthy(3_000 + index * 2);
        fault.current_milliamps = Some(2_001);
        controller.observe(fault);
        controller.observe(healthy(3_001 + index * 2));
    }

    assert_eq!(controller.recent_faults().len(), 3);
    assert!(controller
        .recent_faults()
        .iter()
        .all(|record| record.cleared_at_unix_ms.is_some()));
}

// Further cases.

#[test]
fn invalid_limits_are_rejected() {
    let mut zero_capacity = limits();
    zero_capacity.fault_history_capacity = 0;
    assert!(SafetyController::new(zero_capacity).is_err());
    let mut zero_timeout = limits();
    zero_timeout.communication_timeout_ms = 0;
    assert!(SafetyController::new(zero_timeout).is_err());
    let mut zero_interval = limits();
    zero_interval.telemetry_interval_ms = 0;
    assert!(SafetyController::new(zero_interval).is_err());
}

#[test]
fn every_fault_kind_is_detected_in_order() {
    let mut controller = SafetyController::new(limits()).expect("valid limits");
    let observation = SafetyObservation {
        observed_at_unix_ms: 10_000,
        last_authenticated_command_unix_ms: 4_999,
        supply_millivolts: Some(4_499),
        current_milliamps: None,
        temperature_millicelsius: Some(75_001),
    };
    let decision = controller.observe(observation);
    assert_eq!(
        decision.active_faults,
        vec![
            SafetyFaultCode::SensorFailure,
            SafetyFaultCode::UnderVoltage,
            SafetyFaultCode::OverTemperature,
            SafetyFaultCode::CommunicationLoss,
        ]
    );
    let history = controller.recent_faults();
    assert_eq!(history.len(), 3);
    assert_eq!(history[0].code, SafetyFaultCode::UnderVoltage);
    assert!(history.iter().all(|record| record.tripped_at_unix_ms == 10_000));
}

#[test]
fn boundary_readings_are_not_faults() {
    let mut controller = SafetyController::new(limits()).expect("valid limits");
    let observation = SafetyObservation {
        observed_at_unix_ms: 6_000,
        last_authenticated_command_unix_ms: 1_000,
        supply_millivolts: Some(4_500),
        current_milliamps: Some(2_000),
        temperature_millicelsius: Some(75_000),
    };
    let decision = controller.observe(observation);
    assert!(decision.active_faults.is_empty());
    assert!(!decision.fault_latched);
    assert_eq!(decision.brightness_limit, u8::MAX);
    let mut future_command = healthy(1_000);
    future_command.last_authenticated_command_unix_ms = 9_000;
    assert!(controller.observe(future_command).active_faults.is_empty());
}

#[test]
fn cleared_fault_closes_its_record() {
    let mut controller = SafetyController::new(limits()).expect("valid limits");
    let mut hot = healthy(1_000);
    hot.temperature_millicelsius = Some(80_000);
    controller.observe(hot);
    let mut still_hot = healthy(1_500);
    still_hot.temperature_millicelsius = Some(80_000);
    controller.observe(still_hot);
    assert_eq!(
        controller.recent_faults(),
        &[SafetyFaultRecord {
            code: SafetyFaultCode::OverTemperature,
            tripped_at_unix_ms: 1_000,
            cleared_at_unix_ms: None,
        }]
    );
    controller.observe(healthy(2_000));
    assert_eq!(
        controller.recent_faults(),
        &[SafetyFaultRecord {
            code: SafetyFaultCode::OverTemperature,
            tripped_at_unix_ms: 1_000,
            cleared_at_unix_ms: Some(2_000),
        }]
    );
}

#[test]
fn invalid_authorizations_are_refused() {
    let mut controller = SafetyController::new(limits()).expect("valid limits");
    let expired = FaultResetAuthorization {
        authorization_id: "reset-2".into(),
        issued_at_unix_ms: 100,
        expires_at_unix_ms: 200,
    };
    assert_eq!(
        controller.reset_authorized(&expired, 200),
        Err(FaultResetError::InvalidAuthorization)
    );
    assert_eq!(
        controller.reset_authorized(&expired, 99),
        Err(FaultResetError::InvalidAuthorization)
    );
    let unnamed = FaultResetAuthorization {
        authorization_id: String::new(),
        issued_at_unix_ms: 100,
        expires_at_unix_ms: 200,
    };
    assert_eq!(
        controller.reset_authorized(&unnamed, 150),
        Err(FaultResetError::InvalidAuthorization)
    );
    let decision = controller.reset_authorized(&expired, 150).expect("valid");
    assert_eq!(decision.brightness_limit, u8::MAX);
}

#[test]
fn reset_error_messages() {
    assert_eq!(
        FaultResetError::ReusedAuthorization.message(),
        "fault reset authorization was already used"
    );
    assert_eq!(
        FaultResetError::InvalidAuthorization.message(),
        "fault reset authorization is invalid"
    );
    assert_eq!(
        FaultResetError::UnsafeConditions.message(),
        "fault reset is blocked while unsafe conditions remain"
    );
}

#[test]
fn only_the_latest_authorizations_are_remembered() {
    let mut controller = SafetyController::new(limits()).expect("valid limits");
    let authorization = |index: u64| FaultResetAuthorization {
        authorization_id: format!("reset-{index}"),
        issued_at_unix_ms: 0,
        expires_at_unix_ms: 10_000,
    };
    for index in 0..33 {
        assert!(controller.reset_authorized(&authorization(index), 1).is_ok());
    }
    assert!(controller.reset_authorized(&authorization(0), 1).is_ok());
    assert_eq!(
        controller.reset_authorized(&authorization(32), 1),
        Err(FaultResetError::ReusedAuthorization)
    );
}
