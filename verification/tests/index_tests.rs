use keda_http::index::AppEvent;
use keda_http::index::DeploymentEvent;
use keda_http::index::EventType;
use keda_http::index::OwnerIndex;

#[test]
fn lookup_of_unknown_uid_asks_for_retry() {
    let idx = OwnerIndex::new();
    // A child event seen before its parent resolves to nothing; the caller
    // retries it after a short delay instead of dropping it.
    assert!(idx.lookup(&"uid-1".to_string()).is_none());
}

#[test]
fn insert_then_lookup_resolves_owner() {
    let mut idx = OwnerIndex::new();
    idx.insert(&"uid-1".to_string(), &"default/a".to_string());
    idx.insert(&"uid-2".to_string(), &"default/b".to_string());

    assert_eq!(idx.lookup(&"uid-1".to_string()).unwrap(), "default/a".to_string());
    assert_eq!(idx.lookup(&"uid-2".to_string()).unwrap(), "default/b".to_string());
}

#[test]
fn insert_replaces_earlier_binding() {
    let mut idx = OwnerIndex::new();
    idx.insert(&"uid-1".to_string(), &"default/a".to_string());
    idx.insert(&"uid-1".to_string(), &"default/renamed".to_string());

    assert_eq!(idx.lookup(&"uid-1".to_string()).unwrap(), "default/renamed".to_string());
}

#[test]
fn remove_unbinds_only_that_uid() {
    let mut idx = OwnerIndex::new();
    idx.insert(&"uid-1".to_string(), &"default/a".to_string());
    idx.insert(&"uid-2".to_string(), &"default/b".to_string());

    idx.remove(&"uid-1".to_string());
    assert!(idx.lookup(&"uid-1".to_string()).is_none());
    assert_eq!(idx.lookup(&"uid-2".to_string()).unwrap(), "default/b".to_string());

    // Removing an unknown uid changes nothing.
    idx.remove(&"uid-3".to_string());
    assert_eq!(idx.lookup(&"uid-2".to_string()).unwrap(), "default/b".to_string());
}

#[test]
fn child_events_route_to_the_owning_app() {
    let mut idx = OwnerIndex::new();

    // A child event observed before its parent asks for a retry.
    let child_ev = DeploymentEvent { owner_uid: "uid-1".to_string(), event_type: EventType::Modified };
    assert!(idx.on_deployment_event(&child_ev).is_none());

    // The parent's event arrives; its own key reconciles, and from then on
    // the child routes to it.
    let parent_ev = AppEvent {
        key: "default/a".to_string(),
        uid: "uid-1".to_string(),
        event_type: EventType::Added,
    };
    assert_eq!(idx.on_app_event(&parent_ev), "default/a".to_string());
    assert_eq!(idx.on_deployment_event(&child_ev).unwrap(), "default/a".to_string());

    // Deletion of the parent unbinds the route.
    let gone_ev = AppEvent {
        key: "default/a".to_string(),
        uid: "uid-1".to_string(),
        event_type: EventType::Deleted,
    };
    assert_eq!(idx.on_app_event(&gone_ev), "default/a".to_string());
    assert!(idx.on_deployment_event(&child_ev).is_none());
}
