use landiag::stress::{
    StressTestEngine, StressTestConfig, StressError, TestType, TestStatus, Intensity, TestRun,
    TickAction, generate_test_id,
};
use landiag::ip::{parse_ipv4, is_private_ip};

fn config(target: &str, duration: u32) -> StressTestConfig {
    StressTestConfig {
        target_ip: target.to_string(),
        test_type: TestType::LatencyTest,
        intensity: Intensity::Low,
        duration_seconds: duration,
    }
}

#[test]
fn test_private_ip_validation() {
    assert!(is_private_ip(&parse_ipv4("10.0.0.1").unwrap()));
    assert!(is_private_ip(&parse_ipv4("192.168.1.1").unwrap()));
    assert!(is_private_ip(&parse_ipv4("172.16.0.1").unwrap()));
    assert!(is_private_ip(&parse_ipv4("172.31.255.255").unwrap()));

    assert!(!is_private_ip(&parse_ipv4("8.8.8.8").unwrap()));
    assert!(!is_private_ip(&parse_ipv4("1.1.1.1").unwrap()));
    assert!(!is_private_ip(&parse_ipv4("172.32.0.1").unwrap()));
}

#[test]
fn test_intensity_conversion() {
    assert_eq!(Intensity::Low.to_packets_per_second(), 10);
    assert_eq!(Intensity::Medium.to_packets_per_second(), 50);
    assert_eq!(Intensity::High.to_packets_per_second(), 100);
}

#[test]
fn test_engine_validation() {
    let engine = StressTestEngine::new(0, 0);

    // Valid private IP
    assert!(engine.validate_target_ip("192.168.1.1").is_ok());

    // Invalid public IP
    assert!(engine.validate_target_ip("8.8.8.8").is_err());

    // Invalid IP format
    assert!(engine.validate_target_ip("invalid").is_err());
}

#[test]
fn private_range_boundaries() {
    for ip in ["10.0.0.1", "10.255.255.255", "172.16.0.1", "172.31.255.255", "192.168.0.1"] {
        assert!(is_private_ip(&parse_ipv4(ip).unwrap()), "{ip} should be private");
    }
    for ip in ["172.15.255.255", "172.32.0.0", "11.0.0.1", "192.167.255.255", "8.8.8.8",
        "1.1.1.1"] {
        assert!(!is_private_ip(&parse_ipv4(ip).unwrap()), "{ip} should be public");
    }
}

#[test]
fn validate_public_ip_rejected() {
    let engine = StressTestEngine::new(0, 0);
    assert!(matches!(engine.validate_target_ip("8.8.8.8"), Err(StressError::InvalidTargetIp)));
}

#[test]
fn validate_malformed_ip_rejected() {
    let engine = StressTestEngine::new(0, 0);
    assert!(matches!(engine.validate_target_ip("not.an.ip"), Err(StressError::InvalidTargetIp)));
    assert!(matches!(engine.validate_target_ip(""), Err(StressError::InvalidTargetIp)));
    assert!(matches!(engine.validate_target_ip("192.168.1"), Err(StressError::InvalidTargetIp)));
    assert!(matches!(
        engine.validate_target_ip("192.168.1.1.5"),
        Err(StressError::InvalidTargetIp)
    ));
    assert!(matches!(
        engine.validate_target_ip("192.168.01.1"),
        Err(StressError::InvalidTargetIp)
    ));
}

#[test]
fn duration_limit_boundary() {
    let engine = StressTestEngine::new(0, 0);
    assert!(engine.validate_test_config(&config("192.168.1.50", 300), 0).is_ok());
    assert!(matches!(
        engine.validate_test_config(&config("192.168.1.50", 301), 0),
        Err(StressError::DurationTooLong)
    ));
}

#[test]
fn rate_limit_exceeded() {
    let mut engine = StressTestEngine::new(0, 0);
    engine.safety_limits.max_packets_per_second = 50;
    let mut cfg = config("192.168.1.50", 10);
    cfg.intensity = Intensity::High;
    assert!(matches!(
        engine.validate_test_config(&cfg, 0),
        Err(StressError::RateLimitExceeded)
    ));
    cfg.intensity = Intensity::Medium;
    assert!(engine.validate_test_config(&cfg, 0).is_ok());
}

#[test]
fn start_and_immediate_stop() {
    let mut engine = StressTestEngine::new(1_000, 1_700_000_000_000);
    let cfg = config("192.168.1.50", 10);
    let id = engine.start_stress_test(&cfg, 1_000, 1_700_000_000_000).unwrap();
    assert_eq!(id, "test_1700000000000");
    assert!(id.starts_with("test_"));
    assert!(id["test_".len()..].chars().all(|c| c.is_ascii_digit()));
    assert_eq!(engine.get_current_status(), TestStatus::Running);

    engine.stop_current_test(1_700_000_000_500).unwrap();
    assert_eq!(engine.get_current_status(), TestStatus::Completed);
    let result = engine.get_current_test().unwrap();
    assert_eq!(result.end_time, Some(1_700_000_000_500));
    let metrics = result.final_metrics.unwrap();
    assert_eq!(metrics.packets_sent, 0);
}

#[test]
fn cooldown_blocks_quick_restart() {
    let mut engine = StressTestEngine::new(10_000, 1_700_000_000_000);
    let cfg = config("192.168.1.50", 10);
    engine.start_stress_test(&cfg, 10_000, 1_700_000_000_000).unwrap();
    engine.stop_current_test(1_700_000_000_100).unwrap();

    // One second later, the same target is still cooling down.
    match engine.start_stress_test(&cfg, 11_000, 1_700_000_001_000) {
        Err(StressError::CooldownActive(n)) => assert!((1..=5).contains(&n), "remaining {n}"),
        other => panic!("expected CooldownActive, got {other:?}"),
    }
    // The refused start left the record terminal and untouched.
    assert_eq!(engine.get_current_status(), TestStatus::Completed);

    // After the five-second window, the target is accepted again.
    assert!(engine.start_stress_test(&cfg, 15_001, 1_700_000_005_001).is_ok());
}

#[test]
fn concurrent_start_rejected() {
    let mut engine = StressTestEngine::new(0, 1_700_000_000_000);
    engine.start_stress_test(&config("192.168.1.50", 10), 0, 1_700_000_000_000).unwrap();
    assert_eq!(engine.get_current_status(), TestStatus::Running);
    assert!(matches!(
        engine.start_stress_test(&config("10.0.0.7", 10), 1, 1_700_000_000_001),
        Err(StressError::TestAlreadyRunning)
    ));
}

#[test]
fn stop_is_idempotent() {
    let mut engine = StressTestEngine::new(0, 1_700_000_000_000);
    engine.start_stress_test(&config("10.1.2.3", 10), 0, 1_700_000_000_000).unwrap();
    engine.stop_current_test(1_700_000_000_400).unwrap();
    let first = engine.get_current_test().unwrap();
    // A repeated stop, even at a later clock reading, changes nothing
    // observable about the record.
    engine.stop_current_test(1_700_000_009_999).unwrap();
    let second = engine.get_current_test().unwrap();
    assert_eq!(second.status, TestStatus::Completed);
    assert_eq!(second.end_time, first.end_time);
    assert_eq!(second.end_time, Some(1_700_000_000_400));
    assert_eq!(
        second.final_metrics.as_ref().unwrap().timestamp,
        first.final_metrics.as_ref().unwrap().timestamp
    );
}

#[test]
fn loop_failure_after_stop_keeps_completed() {
    // The operator stops; the loop, mid-tick, still reports the
    // cancellation. The record stays as the stop made it.
    let mut engine = StressTestEngine::new(0, 1_700_000_000_000);
    engine.start_stress_test(&config("10.1.2.3", 10), 0, 1_700_000_000_000).unwrap();
    engine.stop_current_test(1_700_000_000_400).unwrap();
    engine.fail_current_test(&StressError::UserCancelled, 1_700_000_000_450);
    let result = engine.get_current_test().unwrap();
    assert_eq!(result.status, TestStatus::Completed);
    assert_eq!(result.end_time, Some(1_700_000_000_400));
    assert!(result.error_message.is_none());
}

#[test]
fn confirm_then_check_never_fails() {
    let mut engine = StressTestEngine::new(0, 0);
    for t in [0u64, 5_000, 31_000, 1_000_000, u64::MAX] {
        engine.confirm_alive(t);
        assert!(engine.check_dead_mans_switch(t).is_ok());
    }
}

#[test]
fn dead_mans_switch_expires() {
    let engine = StressTestEngine::new(0, 0);
    assert!(engine.check_dead_mans_switch(30_000).is_ok());
    assert!(matches!(
        engine.check_dead_mans_switch(30_001),
        Err(StressError::DeadMansSwitchTriggered)
    ));
}

#[test]
fn dead_mans_trigger_fails_running_test() {
    let mut engine = StressTestEngine::new(0, 1_700_000_000_000);
    engine.safety_limits.dead_mans_switch_interval_seconds = 1;
    let cfg = config("192.168.1.50", 60);
    engine.start_stress_test(&cfg, 0, 1_700_000_000_000).unwrap();
    let run = TestRun::new(
        parse_ipv4("192.168.1.50").unwrap(),
        &Intensity::Low,
        60,
        0,
    );

    // Two seconds pass with no confirmation: the tick aborts the test.
    let action = run.tick_decision(
        2_000,
        engine.cancel_requested,
        engine.state.last_confirmation,
        engine.safety_limits.dead_mans_switch_interval_seconds,
    );
    assert_eq!(action, TickAction::DeadMans);
    engine.fail_current_test(&StressError::DeadMansSwitchTriggered, 1_700_000_002_000);

    assert_eq!(engine.get_current_status(), TestStatus::Failed);
    let result = engine.get_current_test().unwrap();
    assert!(result.error_message.unwrap().contains("Dead man's switch"));
    assert_eq!(result.end_time, Some(1_700_000_002_000));
    assert!(result.final_metrics.is_some());
}

#[test]
fn circuit_breaker_trips_and_completes() {
    let mut engine = StressTestEngine::new(0, 1_700_000_000_000);
    let cfg = config("192.168.1.50", 300);
    engine.start_stress_test(&cfg, 0, 1_700_000_000_000).unwrap();
    let mut run = TestRun::new(parse_ipv4("192.168.1.50").unwrap(), &Intensity::Low, 300, 0);

    // Every probe fails; the breaker holds until 100 packets...
    for _ in 0..100 {
        run.record_probe(None);
        assert!(!run.circuit_breaker_tripped());
    }
    // ...and trips on the 101st.
    run.record_probe(None);
    assert!(run.circuit_breaker_tripped());
    assert_eq!(run.packets_sent, 101);

    // The breaker exits normally: the test completes, it does not fail.
    engine.finish_current_test(&run, 10_100, 1_700_000_010_100);
    assert_eq!(engine.get_current_status(), TestStatus::Completed);
    let result = engine.get_current_test().unwrap();
    assert!(result.error_message.is_none());
    let metrics = result.final_metrics.unwrap();
    assert_eq!(metrics.packets_sent, 101);
    assert_eq!(metrics.packets_received, 0);
    assert_eq!(metrics.packet_loss_centi_percent, 10_000);
}

#[test]
fn circuit_breaker_spares_responsive_targets() {
    let mut run = TestRun::new(parse_ipv4("10.0.0.1").unwrap(), &Intensity::Low, 300, 0);
    // One answer in ten: exactly a tenth is not below a tenth.
    for _ in 0..20 {
        run.record_probe(Some(1_000));
        for _ in 0..9 {
            run.record_probe(None);
        }
    }
    assert_eq!(run.packets_sent, 200);
    assert_eq!(run.packets_received, 20);
    assert!(!run.circuit_breaker_tripped());
}

#[test]
fn tick_decision_priorities() {
    let run = TestRun::new(parse_ipv4("10.0.0.1").unwrap(), &Intensity::Medium, 10, 1_000);
    assert_eq!(run.tick_interval_ms(), 20);
    // Duration elapsed wins over everything.
    assert_eq!(run.tick_decision(11_000, true, 0, 30), TickAction::Finish);
    // Then cancellation.
    assert_eq!(run.tick_decision(5_000, true, 5_000, 30), TickAction::Cancelled);
    // Then the dead-man's switch.
    assert_eq!(run.tick_decision(5_000, false, 0, 1), TickAction::DeadMans);
    // Otherwise probe.
    assert_eq!(run.tick_decision(5_000, false, 5_000, 30), TickAction::Probe);
}

#[test]
fn publish_cadence_follows_rate() {
    let mut run = TestRun::new(parse_ipv4("10.0.0.1").unwrap(), &Intensity::High, 10, 0);
    // At 100 pps, metrics publish every 10 packets.
    assert!(run.should_publish());
    for i in 1..=25u32 {
        run.record_probe(Some(500));
        assert_eq!(run.should_publish(), i % 10 == 0);
    }
}

#[test]
fn cancellation_marks_test_cancelled() {
    let mut engine = StressTestEngine::new(0, 1_700_000_000_000);
    engine.start_stress_test(&config("10.0.0.9", 30), 0, 1_700_000_000_000).unwrap();
    let run = TestRun::new(parse_ipv4("10.0.0.9").unwrap(), &Intensity::Low, 30, 0);

    // The loop notices a raised cancellation flag before probing.
    let action = run.tick_decision(1_000, true, 0, 30);
    assert_eq!(action, TickAction::Cancelled);
    engine.fail_current_test(&StressError::UserCancelled, 1_700_000_001_000);

    assert_eq!(engine.get_current_status(), TestStatus::Failed);
    let result = engine.get_current_test().unwrap();
    assert_eq!(result.error_message.as_deref(), Some("Test cancelled by user"));
}

#[test]
fn generated_test_id_form() {
    assert_eq!(generate_test_id(0), "test_0");
    assert_eq!(generate_test_id(1234567890123), "test_1234567890123");
}

#[test]
fn error_messages_are_exact() {
    assert_eq!(
        StressError::InvalidTargetIp.message(),
        "Target IP is not in a private network range"
    );
    assert_eq!(
        StressError::TestAlreadyRunning.message(),
        "Test already running. Only one test allowed at a time"
    );
    assert_eq!(
        StressError::RateLimitExceeded.message(),
        "Rate limit exceeded. Maximum 1000 pps allowed"
    );
    assert_eq!(
        StressError::DurationTooLong.message(),
        "Test duration too long. Maximum 300 seconds allowed"
    );
    assert_eq!(
        StressError::CooldownActive(3).message(),
        "Cooldown period active. Wait 3 seconds before testing this target again"
    );
    assert_eq!(
        StressError::NetworkError("Ping timeout".to_string()).message(),
        "Network error: Ping timeout"
    );
    assert_eq!(
        StressError::DeadMansSwitchTriggered.message(),
        "Dead man's switch triggered - UI confirmation required"
    );
    assert_eq!(StressError::UserCancelled.message(), "Test cancelled by user");
    assert_eq!(StressError::InternalError("x".to_string()).message(), "Internal error: x");
    assert_eq!(
        StressError::ResourceLimitExceeded("cpu".to_string()).message(),
        "System resource limit exceeded: cpu"
    );
}
