//! Updates, their badge and their notifications.

use buzzardos_guest::updates::{
    canonical_digest, notification_body, NotificationRecord, UpdateAction, UpdatePackage,
    UpdateState, UpdateStatus, UpdateTracker,
};

fn nothing(status: UpdateStatus) -> UpdateState {
    UpdateState {
        status,
        checked_at_unix_seconds: None,
        packages: Vec::new(),
        download_size: 0,
        plan_generation: None,
        runtime_revision: None,
        runtime_ready: false,
        repair_available: false,
    }
}

fn available(generation: &str) -> UpdateState {
    let package = UpdatePackage {
        name: "example".into(),
        installed_version: "1".into(),
        candidate_version: "2".into(),
        download_size: 7,
        security_origin: None,
        action: UpdateAction::Upgrade,
    };
    UpdateState {
        status: UpdateStatus::Available,
        checked_at_unix_seconds: Some(1),
        packages: vec![package],
        download_size: 7,
        plan_generation: Some(generation.into()),
        runtime_revision: Some("runtime-1".into()),
        runtime_ready: true,
        ..nothing(UpdateStatus::Available)
    }
}

fn reload(tracker: &mut UpdateTracker, state: UpdateState, calls: &mut u32) {
    let (_, notice) = tracker.reload(state);
    if let Some(notice) = notice {
        *calls += 1;
        tracker.mark_notified(notice.generation);
    }
}

#[test]
fn one_notification_is_emitted_per_exact_plan_generation() {
    let mut tracker = UpdateTracker::new(nothing(UpdateStatus::NeverChecked), Ok(None));
    let mut calls = 0;
    reload(&mut tracker, available(&"a".repeat(64)), &mut calls);
    reload(&mut tracker, available(&"a".repeat(64)), &mut calls);
    assert_eq!(calls, 1);
    reload(&mut tracker, available(&"b".repeat(64)), &mut calls);
    assert_eq!(calls, 2);
    assert_eq!(tracker.badge_count(), Some(1));
}

#[test]
fn malformed_or_newer_notification_record_is_preserved() {
    let record = NotificationRecord {
        schema_version: 99,
        plan_generation: "x".into(),
    };
    assert!(record.validate().is_err());
    let mut tracker = UpdateTracker::new(
        nothing(UpdateStatus::NeverChecked),
        Err("unsupported".into()),
    );
    let (_, notice) = tracker.reload(available(&"a".repeat(64)));
    assert!(notice.is_none());
}

#[test]
fn badge_clears_when_plan_is_no_longer_available() {
    let mut tracker = UpdateTracker::new(nothing(UpdateStatus::NeverChecked), Ok(None));
    let mut calls = 0;
    reload(&mut tracker, available(&"a".repeat(64)), &mut calls);
    assert_eq!(tracker.badge_count(), Some(1));
    let state = UpdateState {
        checked_at_unix_seconds: Some(2),
        runtime_revision: Some("runtime-1".into()),
        runtime_ready: true,
        ..nothing(UpdateStatus::UpToDate)
    };
    reload(&mut tracker, state, &mut calls);
    assert_eq!(tracker.badge_count(), None);
}

#[test]
fn digests_and_texts_have_their_form() {
    assert!(canonical_digest(&"a".repeat(64)));
    assert!(!canonical_digest(&"A".repeat(64)));
    assert!(!canonical_digest("a"));
    assert_eq!(
        notification_body(1),
        "1 Debian package update is ready to review in Settings."
    );
    assert_eq!(
        notification_body(12),
        "12 Debian package updates are ready to review in Settings."
    );
    let record = NotificationRecord {
        schema_version: 1,
        plan_generation: "a".repeat(64),
    };
    assert!(record.validate().is_ok());
}
