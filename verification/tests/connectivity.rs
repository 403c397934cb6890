use mediamount_agent::connectivity::{is_network_error, IoErrorKind, NasConnectivity, NasStatus};
use mediamount_agent::nas_health::{HealthChange, NasHealth};

#[test]
fn statuses_have_numbers() {
    assert_eq!(NasStatus::from(0), NasStatus::Online);
    assert_eq!(NasStatus::from(1), NasStatus::Offline);
    assert_eq!(NasStatus::from(2), NasStatus::Reconnecting);
    assert_eq!(NasStatus::from(77), NasStatus::Offline);
}

#[test]
fn only_the_first_report_counts() {
    let mut c = NasConnectivity::new();
    assert!(c.is_online());
    assert!(c.report_network_error());
    assert_eq!(c.status(), NasStatus::Offline);
    assert!(!c.report_network_error());
    c.set_status(NasStatus::Reconnecting);
    assert!(!c.report_network_error());
    assert_eq!(c.status(), NasStatus::Reconnecting);
    assert!(!c.is_online());
    c.set_status(NasStatus::Online);
    assert!(c.is_online());
}

#[test]
fn network_errors_are_told_from_others() {
    assert!(is_network_error(IoErrorKind::TimedOut, None));
    assert!(is_network_error(IoErrorKind::BrokenPipe, Some(2)));
    for code in [53, 59, 64, 121] {
        assert!(is_network_error(IoErrorKind::Other, Some(code)));
    }
    assert!(!is_network_error(IoErrorKind::Other, Some(2)));
    assert!(!is_network_error(IoErrorKind::Other, None));
}

#[test]
fn a_share_goes_away_after_two_failed_probes() {
    let mut h = NasHealth::new("media".to_string(), "/Volumes/media".to_string());
    assert_eq!(h.probe_target(), "/Volumes/media");
    assert!(h.is_online());
    assert_eq!(h.on_probe(false), HealthChange::Unchanged);
    assert!(h.is_online());
    assert_eq!(h.on_probe(false), HealthChange::WentAway);
    assert!(!h.is_online());
    assert_eq!(h.on_probe(false), HealthChange::Unchanged);
    assert_eq!(h.on_probe(true), HealthChange::CameBack);
    assert!(h.is_online());
    assert_eq!(h.on_probe(false), HealthChange::Unchanged);
    assert_eq!(h.on_probe(true), HealthChange::Unchanged);
    assert!(h.is_online());
}
