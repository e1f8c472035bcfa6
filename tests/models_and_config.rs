use fwconsole_core::config::CoreConfig;
use fwconsole_core::models::{AuthMode, AuthOptions, BiometryType};
use fwconsole_core::poller::PollScheduler;

#[test]
fn auth_mode_codes() {
    assert_eq!(AuthMode::PROMPT.code(), 0);
    assert_eq!(AuthMode::ENCRYPT.code(), 1);
    assert_eq!(AuthMode::DECRYPT.code(), 2);
    assert_eq!(AuthMode::from_code(1), Some(AuthMode::ENCRYPT));
    assert_eq!(AuthMode::from_code(3), None);
}

#[test]
fn biometry_type_codes() {
    assert_eq!(BiometryType::from_code(0), Some(BiometryType::NoBiometry));
    assert_eq!(BiometryType::from_code(2), Some(BiometryType::FaceID));
    assert_eq!(BiometryType::TouchID.code(), 1);
    assert_eq!(BiometryType::from_code(200), None);
}

#[test]
fn auth_options_default_is_empty() {
    let o = AuthOptions::default();
    assert!(!o.allow_device_credential);
    assert!(o.title.is_none() && o.mode.is_none() && o.cipher_data.is_none());
}

#[test]
fn scheduler_lifecycle() {
    let mut p = PollScheduler::new(1000);
    assert!(!p.is_running());
    let t1 = p.start(500);
    assert!(p.is_running() && p.is_current(t1));
    assert_eq!(p.interval_ms(), 500);
    let t2 = p.start(200);
    assert!(!p.is_current(t1) && p.is_current(t2));
    p.stop();
    assert!(!p.is_running() && !p.is_current(t2));
    assert_eq!(p.generation(), t2);
}

#[test]
fn config_builds_caches() {
    let cfg = CoreConfig {
        log_capacity: 5,
        traffic_window: 7,
        poll_interval_ms: 2000,
        lockout_threshold: 3,
        lockout_duration: 60,
    };
    assert_eq!(cfg.log_cache().capacity(), 5);
    assert_eq!(cfg.traffic_cache().window(), 7);
    assert!(!cfg.log_cache().is_polling());
    assert!(!cfg.secret_cache().is_set());
}
