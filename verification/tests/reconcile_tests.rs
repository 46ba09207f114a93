use keda_http::backoff::BackoffTracker;
use keda_http::backoff::BASE_DELAY_MS;
use keda_http::backoff::FAILURE_CEILING;
use keda_http::backoff::MAX_DELAY_MS;
use keda_http::reconcile::reconcile;
use keda_http::reconcile::schedule_next;
use keda_http::reconcile::Action;
use keda_http::reconcile::ClusterState;
use keda_http::reconcile::STEADY_REQUEUE_MS;
use keda_http::resources::AppCondition;
use keda_http::resources::AppResource;
use keda_http::resources::AppSpec;
use keda_http::resources::DeploymentResource;
use keda_http::resources::FailureKind;
use keda_http::resources::ReconcileResult;

fn live_app(image: &str, port: u32) -> AppResource {
    AppResource {
        spec: AppSpec { name: "a".to_string(), image: image.to_string(), port },
        uid: "uid-a".to_string(),
        resource_version: 1,
        deletion_timestamp: None,
        condition: None,
    }
}

#[test]
fn one_pass_creates_missing_child() {
    let mut s = ClusterState { app: Some(live_app("img:v1", 8080)), deployment: None, next_version: 10 };
    let r = reconcile(&mut s);

    let c = s.deployment.as_ref().unwrap();
    assert_eq!(c.image, "img:v1".to_string());
    assert_eq!(c.port, 8080);
    assert_eq!(c.owner_uid, "uid-a".to_string());
    assert_eq!(c.replica_count, 1);
    assert_eq!(c.resource_version, 10);
    assert_eq!(s.next_version, 11);
    assert_eq!(r, ReconcileResult::RequeueAfter(STEADY_REQUEUE_MS));
}

#[test]
fn one_pass_updates_drifted_child() {
    let mut s = ClusterState {
        app: Some(live_app("img:v1", 8080)),
        deployment: Some(DeploymentResource {
            name: "a".to_string(),
            image: "img:v0".to_string(),
            port: 8080,
            replica_count: 3,
            owner_uid: "uid-a".to_string(),
            resource_version: 4,
        }),
        next_version: 10,
    };
    let r = reconcile(&mut s);

    let c = s.deployment.as_ref().unwrap();
    assert_eq!(c.image, "img:v1".to_string());
    // The port already matched and is left as it was.
    assert_eq!(c.port, 8080);
    // Unmanaged fields are not touched.
    assert_eq!(c.replica_count, 3);
    assert_eq!(c.resource_version, 10);
    assert_eq!(r, ReconcileResult::Continue);
}

#[test]
fn second_pass_is_a_no_op() {
    let mut s = ClusterState { app: Some(live_app("img:v1", 8080)), deployment: None, next_version: 1 };
    reconcile(&mut s);

    let child_after_first = s.deployment.clone().unwrap();
    let version_after_first = s.next_version;
    let r = reconcile(&mut s);

    let c = s.deployment.as_ref().unwrap();
    assert_eq!(c.image, child_after_first.image);
    assert_eq!(c.port, child_after_first.port);
    assert_eq!(c.resource_version, child_after_first.resource_version);
    assert_eq!(s.next_version, version_after_first);
    assert_eq!(r, ReconcileResult::RequeueAfter(STEADY_REQUEUE_MS));
}

#[test]
fn deletion_cascades_to_child() {
    let mut s = ClusterState {
        app: None,
        deployment: Some(DeploymentResource {
            name: "a".to_string(),
            image: "img:v1".to_string(),
            port: 8080,
            replica_count: 1,
            owner_uid: "uid-a".to_string(),
            resource_version: 4,
        }),
        next_version: 10,
    };
    let r = reconcile(&mut s);
    assert!(s.deployment.is_none());
    assert_eq!(r, ReconcileResult::Continue);
}

#[test]
fn deleting_with_no_child_is_a_no_op_success() {
    let mut s = ClusterState { app: None, deployment: None, next_version: 10 };
    let r = reconcile(&mut s);
    assert!(s.deployment.is_none());
    assert_eq!(s.next_version, 10);
    assert_eq!(r, ReconcileResult::Continue);
}

#[test]
fn app_awaiting_deletion_is_finalized_without_writes() {
    let mut app = live_app("img:v1", 8080);
    app.deletion_timestamp = Some(12345);
    let mut s = ClusterState { app: Some(app), deployment: None, next_version: 10 };
    let r = reconcile(&mut s);
    assert!(s.deployment.is_none());
    assert_eq!(s.next_version, 10);
    assert_eq!(r, ReconcileResult::Continue);
}

#[test]
fn invalid_port_reports_terminal_condition() {
    let mut s = ClusterState { app: Some(live_app("img:v1", 0)), deployment: None, next_version: 10 };
    let r = reconcile(&mut s);

    assert_eq!(r, ReconcileResult::RequeueWithBackoff(FailureKind::Terminal));
    assert_eq!(s.app.as_ref().unwrap().condition, Some(AppCondition::InvalidSpec));
    // No child is created for a spec that cannot be reconciled.
    assert!(s.deployment.is_none());
    assert_eq!(AppCondition::InvalidSpec.message(), "port out of range".to_string());
}

#[test]
fn stale_write_is_rejected_whole_and_fresh_pass_converges() {
    let mut s = ClusterState {
        app: Some(live_app("img:v1", 8080)),
        deployment: Some(DeploymentResource {
            name: "a".to_string(),
            image: "img:v0".to_string(),
            port: 9999,
            replica_count: 1,
            owner_uid: "uid-a".to_string(),
            resource_version: 7,
        }),
        next_version: 10,
    };

    // A write carrying the version token of an earlier read, after a
    // concurrent writer moved the child to version 7.
    let stale = Action::UpdateChild {
        image: "img:v1".to_string(),
        port: 8080,
        expected_version: 6,
    };
    let r = keda_http::reconcile::apply(&mut s, stale);

    assert_eq!(r, ReconcileResult::RequeueWithBackoff(FailureKind::Transient));
    let c = s.deployment.as_ref().unwrap();
    // Nothing of the stale write reached the store.
    assert_eq!(c.image, "img:v0".to_string());
    assert_eq!(c.port, 9999);
    assert_eq!(c.resource_version, 7);
    assert_eq!(s.next_version, 10);

    // The retry reads fresh state and converges.
    let r2 = reconcile(&mut s);
    let c2 = s.deployment.as_ref().unwrap();
    assert_eq!(c2.image, "img:v1".to_string());
    assert_eq!(c2.port, 8080);
    assert_eq!(r2, ReconcileResult::Continue);
}

#[test]
fn scheduler_follows_the_result() {
    let key = "default/a".to_string();
    let mut bo = BackoffTracker::new();

    // Steady re-check: scheduled after exactly its interval, no backoff.
    let d = schedule_next(&mut bo, &key, &ReconcileResult::RequeueAfter(777));
    assert_eq!(d, Some(777));
    assert_eq!(bo.failures(&key), 0);

    // Failures: scheduled per the backoff policy.
    let transient = ReconcileResult::RequeueWithBackoff(FailureKind::Transient);
    assert_eq!(schedule_next(&mut bo, &key, &transient), Some(BASE_DELAY_MS));
    assert_eq!(schedule_next(&mut bo, &key, &transient), Some(2 * BASE_DELAY_MS));
    assert_eq!(bo.failures(&key), 2);

    // Success: nothing scheduled, the count clears.
    assert_eq!(schedule_next(&mut bo, &key, &ReconcileResult::Continue), None);
    assert_eq!(bo.failures(&key), 0);
}

#[test]
fn scheduler_never_gives_up_on_transient_failures() {
    let key = "default/a".to_string();
    let mut bo = BackoffTracker::new();
    let transient = ReconcileResult::RequeueWithBackoff(FailureKind::Transient);
    for _ in 0..(2 * FAILURE_CEILING) {
        assert!(schedule_next(&mut bo, &key, &transient).is_some());
    }
    // Far past the ceiling the key is still retried, at the capped delay.
    assert_eq!(schedule_next(&mut bo, &key, &transient), Some(MAX_DELAY_MS));
}

#[test]
fn scheduler_stops_terminal_failures_at_the_ceiling() {
    let key = "default/a".to_string();
    let mut bo = BackoffTracker::new();
    let terminal = ReconcileResult::RequeueWithBackoff(FailureKind::Terminal);
    for _ in 0..FAILURE_CEILING {
        assert!(schedule_next(&mut bo, &key, &terminal).is_some());
    }
    assert_eq!(schedule_next(&mut bo, &key, &terminal), None);
}

#[test]
fn lost_create_race_still_repairs_drift() {
    // Another reconcile created the child between this pass's read and its
    // create; the pass treats that as success and falls through to the
    // desired-vs-observed comparison.
    let mut s = ClusterState {
        app: Some(live_app("img:v1", 8080)),
        deployment: Some(DeploymentResource {
            name: "a".to_string(),
            image: "img:v0".to_string(),
            port: 8080,
            replica_count: 1,
            owner_uid: "uid-a".to_string(),
            resource_version: 3,
        }),
        next_version: 10,
    };
    let racing_create = Action::CreateChild(DeploymentResource {
        name: "a".to_string(),
        image: "img:v1".to_string(),
        port: 8080,
        replica_count: 1,
        owner_uid: "uid-a".to_string(),
        resource_version: 0,
    });
    let r = keda_http::reconcile::apply(&mut s, racing_create);

    assert_eq!(r, ReconcileResult::Continue);
    let c = s.deployment.as_ref().unwrap();
    assert_eq!(c.image, "img:v1".to_string());
    assert_eq!(c.port, 8080);
}

#[test]
fn lost_create_race_with_matching_child_changes_nothing() {
    let mut s = ClusterState {
        app: Some(live_app("img:v1", 8080)),
        deployment: Some(DeploymentResource {
            name: "a".to_string(),
            image: "img:v1".to_string(),
            port: 8080,
            replica_count: 1,
            owner_uid: "uid-a".to_string(),
            resource_version: 3,
        }),
        next_version: 10,
    };
    let racing_create = Action::CreateChild(DeploymentResource {
        name: "a".to_string(),
        image: "img:v1".to_string(),
        port: 8080,
        replica_count: 1,
        owner_uid: "uid-a".to_string(),
        resource_version: 0,
    });
    let r = keda_http::reconcile::apply(&mut s, racing_create);

    assert_eq!(r, ReconcileResult::RequeueAfter(STEADY_REQUEUE_MS));
    assert_eq!(s.deployment.as_ref().unwrap().resource_version, 3);
    assert_eq!(s.next_version, 10);
}
