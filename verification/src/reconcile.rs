//! The reconciler.
//!
//! One pass is a stateless state machine over the observed state at one
//! App key: fetch the App and its owned Deployment, decide the corrective
//! action, apply it against the store. Writes carry the version token read
//! earlier, so a concurrent writer makes the store refuse the write whole
//! rather than have stale data merged over unseen changes.

use crate::backoff::BackoffTracker;
use crate::backoff::spec_delay;
use crate::backoff::FAILURE_CEILING;
use crate::resources::AppCondition;
use crate::resources::AppResource;
use crate::resources::DeploymentResource;
use crate::resources::FailureKind;
use crate::resources::ReconcileResult;
use crate::resources::spec_valid;
use crate::resources::valid_spec;
use vstd::prelude::*;

verus! {

/// Interval, in milliseconds, after which a converged key is re-checked to
/// catch out-of-band edits that produce no reliable watch event.
pub const STEADY_REQUEUE_MS: u64 = 30000;

/// Why the resource store refused a write.
#[derive(PartialEq, Eq, Structural, Clone, Copy, Debug)]
pub enum StoreError {
    /// A create found the object already present.
    AlreadyExists,
    /// An update carried a version token older than the stored object's.
    Conflict,
    /// An update or delete found no object.
    NotFound,
}

/// The corrective action one pass decides on.
pub enum Action {
    /// Nothing to apply.
    Nothing,
    /// The App is gone; its child must go too.
    DeleteChild,
    /// The App awaits deletion; release external resources and let it go.
    Finalize,
    /// The spec fails validation; report the terminal condition on the App.
    ReportInvalid,
    /// No child exists; create the one the spec calls for.
    CreateChild(DeploymentResource),
    /// The child drifted from the spec; rewrite the managed fields, against
    /// the version token read when the drift was observed.
    UpdateChild { image: String, port: u32, expected_version: u64 },
}

/// Observed cluster state at one App key, as the resource store holds it.
pub struct ClusterState {
    /// The App at this key, if it exists.
    pub app: Option<AppResource>,
    /// The owned Deployment under this key's derived child name, if any.
    pub deployment: Option<DeploymentResource>,
    /// The version token the store assigns to its next write.
    pub next_version: u64,
}

/// The child a live App's spec calls for. The version token is a
/// placeholder; the store assigns the real one on create.
pub open spec fn spec_desired_child(a: AppResource) -> DeploymentResource {
    DeploymentResource {
        name: a.spec.name,
        image: a.spec.image,
        port: a.spec.port,
        replica_count: 1,
        owner_uid: a.uid,
        resource_version: 0,
    }
}

/// Runtime construction matching `spec_desired_child`.
pub fn desired_child(a: &AppResource) -> (d: DeploymentResource)
    ensures
        d == spec_desired_child(*a),
{
    DeploymentResource {
        name: a.spec.name.clone(),
        image: a.spec.image.clone(),
        port: a.spec.port,
        replica_count: 1,
        owner_uid: a.uid.clone(),
        resource_version: 0,
    }
}

/// The decision of one pass, from observed state alone (state machine of
/// the reconciler): a vanished App cascades to the child; an App awaiting
/// deletion is finalized; an invalid spec is reported; a missing child is
/// created; a drifted child is rewritten against the version just read;
/// otherwise nothing.
pub open spec fn spec_plan(app: Option<AppResource>, child: Option<DeploymentResource>) -> Action {
    match app {
        None => match child {
            Some(_) => Action::DeleteChild,
            None => Action::Nothing,
        },
        Some(a) => {
            if a.deletion_timestamp is Some {
                Action::Finalize
            } else if !spec_valid(a.spec) {
                Action::ReportInvalid
            } else {
                match child {
                    None => Action::CreateChild(spec_desired_child(a)),
                    Some(c) => {
                        if c.image@ != a.spec.image@ || c.port != a.spec.port {
                            Action::UpdateChild {
                                image: a.spec.image,
                                port: a.spec.port,
                                expected_version: c.resource_version,
                            }
                        } else {
                            Action::Nothing
                        }
                    },
                }
            }
        },
    }
}

/// Runtime decision matching `spec_plan`.
pub fn plan(app: &Option<AppResource>, child: &Option<DeploymentResource>) -> (a: Action)
    ensures
        a == spec_plan(*app, *child),
{
    match app {
        None => match child {
            Some(_) => Action::DeleteChild,
            None => Action::Nothing,
        },
        Some(a) => {
            if a.deletion_timestamp.is_some() {
                Action::Finalize
            } else if !valid_spec(&a.spec) {
                Action::ReportInvalid
            } else {
                match child {
                    None => Action::CreateChild(desired_child(a)),
                    Some(c) => {
                        if !c.image.eq(&a.spec.image) || c.port != a.spec.port {
                            Action::UpdateChild {
                                image: a.spec.image.clone(),
                                port: a.spec.port,
                                expected_version: c.resource_version,
                            }
                        } else {
                            Action::Nothing
                        }
                    },
                }
            }
        },
    }
}

/// Effect of a create on the store: refused whole if an object is already
/// there, else stored under a fresh version token.
pub open spec fn spec_create(s: ClusterState, d: DeploymentResource) -> (
    ClusterState,
    Result<(), StoreError>,
) {
    match s.deployment {
        Some(_) => (s, Err(StoreError::AlreadyExists)),
        None => (
            ClusterState {
                app: s.app,
                deployment: Some(
                    DeploymentResource {
                        name: d.name,
                        image: d.image,
                        port: d.port,
                        replica_count: d.replica_count,
                        owner_uid: d.owner_uid,
                        resource_version: s.next_version,
                    },
                ),
                next_version: (s.next_version + 1) as u64,
            },
            Ok(()),
        ),
    }
}

/// Effect of an update on the store: refused whole unless the carried
/// version token matches the stored object's; on a match, only the managed
/// fields change and a fresh token is assigned.
pub open spec fn spec_update(
    s: ClusterState,
    image: String,
    port: u32,
    expected_version: u64,
) -> (ClusterState, Result<(), StoreError>) {
    match s.deployment {
        None => (s, Err(StoreError::NotFound)),
        Some(c) => {
            if c.resource_version != expected_version {
                (s, Err(StoreError::Conflict))
            } else {
                (
                    ClusterState {
                        app: s.app,
                        deployment: Some(
                            DeploymentResource {
                                name: c.name,
                                image: image,
                                port: port,
                                replica_count: c.replica_count,
                                owner_uid: c.owner_uid,
                                resource_version: s.next_version,
                            },
                        ),
                        next_version: (s.next_version + 1) as u64,
                    },
                    Ok(()),
                )
            }
        },
    }
}

/// Effect of a delete on the store.
pub open spec fn spec_delete(s: ClusterState) -> (ClusterState, Result<(), StoreError>) {
    match s.deployment {
        None => (s, Err(StoreError::NotFound)),
        Some(_) => (
            ClusterState { app: s.app, deployment: None, next_version: s.next_version },
            Ok(()),
        ),
    }
}

/// The App with its terminal condition reported. Rewriting an already
/// reported condition changes nothing, so the write is idempotent.
pub open spec fn spec_set_condition(s: ClusterState) -> ClusterState {
    match s.app {
        None => s,
        Some(a) => ClusterState {
            app: Some(
                AppResource {
                    spec: a.spec,
                    uid: a.uid,
                    resource_version: a.resource_version,
                    deletion_timestamp: a.deletion_timestamp,
                    condition: Some(AppCondition::InvalidSpec),
                },
            ),
            deployment: s.deployment,
            next_version: s.next_version,
        },
    }
}

/// Effect of applying a decided action, and the result handed to the
/// scheduler. Deletion of an already absent object counts as success;
/// a create that loses a race to a concurrent creator counts as success,
/// and the freshly fetched object falls through to the drift comparison;
/// a refused update asks for a fresh-state retry as a transient failure;
/// an invalid spec is reported as a terminal failure.
pub open spec fn spec_apply(s: ClusterState, a: Action) -> (ClusterState, ReconcileResult) {
    match a {
        Action::Nothing => (
            s,
            if s.app is Some {
                ReconcileResult::RequeueAfter(STEADY_REQUEUE_MS)
            } else {
                ReconcileResult::Continue
            },
        ),
        Action::Finalize => (s, ReconcileResult::Continue),
        Action::ReportInvalid => (
            spec_set_condition(s),
            ReconcileResult::RequeueWithBackoff(FailureKind::Terminal),
        ),
        Action::DeleteChild => (spec_delete(s).0, ReconcileResult::Continue),
        Action::CreateChild(d) => match s.deployment {
            None => (spec_create(s, d).0, ReconcileResult::RequeueAfter(STEADY_REQUEUE_MS)),
            Some(c) => {
                if c.image@ != d.image@ || c.port != d.port {
                    (
                        spec_update(s, d.image, d.port, c.resource_version).0,
                        ReconcileResult::Continue,
                    )
                } else {
                    (s, ReconcileResult::RequeueAfter(STEADY_REQUEUE_MS))
                }
            },
        },
        Action::UpdateChild { image, port, expected_version } => (
            spec_update(s, image, port, expected_version).0,
            if spec_update(s, image, port, expected_version).1 is Ok {
                ReconcileResult::Continue
            } else {
                ReconcileResult::RequeueWithBackoff(FailureKind::Transient)
            },
        ),
    }
}

/// One full pass: fetch observed state, decide, apply.
pub open spec fn spec_reconcile(s: ClusterState) -> (ClusterState, ReconcileResult) {
    spec_apply(s, spec_plan(s.app, s.deployment))
}

impl ClusterState {
    /// A fresh fetch of the App at this key.
    pub fn get_app(&self) -> (r: Option<AppResource>)
        ensures
            r == self.app,
    {
        match &self.app {
            Some(a) => Some(a.clone()),
            None => None,
        }
    }

    /// A fresh fetch of the owned Deployment at this key.
    pub fn get_deployment(&self) -> (r: Option<DeploymentResource>)
        ensures
            r == self.deployment,
    {
        match &self.deployment {
            Some(d) => Some(d.clone()),
            None => None,
        }
    }

    /// Create the owned Deployment, per `spec_create`.
    pub fn create_deployment(&mut self, d: DeploymentResource) -> (r: Result<(), StoreError>)
        requires
            old(self).next_version < u64::MAX,
        ensures
            *final(self) == spec_create(*old(self), d).0,
            r == spec_create(*old(self), d).1,
    {
        if self.deployment.is_some() {
            return Err(StoreError::AlreadyExists);
        }
        let v = self.next_version;
        self.deployment = Some(
            DeploymentResource {
                name: d.name,
                image: d.image,
                port: d.port,
                replica_count: d.replica_count,
                owner_uid: d.owner_uid,
                resource_version: v,
            },
        );
        self.next_version = v + 1;
        Ok(())
    }

    /// Update the owned Deployment's managed fields, per `spec_update`.
    pub fn update_deployment(&mut self, image: String, port: u32, expected_version: u64) -> (r:
        Result<(), StoreError>)
        requires
            old(self).next_version < u64::MAX,
        ensures
            *final(self) == spec_update(*old(self), image, port, expected_version).0,
            r == spec_update(*old(self), image, port, expected_version).1,
    {
        if self.deployment.is_none() {
            return Err(StoreError::NotFound);
        }
        let c = self.deployment.as_ref().unwrap();
        if c.resource_version != expected_version {
            return Err(StoreError::Conflict);
        }
        let name = c.name.clone();
        let replica_count = c.replica_count;
        let owner_uid = c.owner_uid.clone();
        let v = self.next_version;
        self.deployment = Some(
            DeploymentResource {
                name,
                image,
                port,
                replica_count,
                owner_uid,
                resource_version: v,
            },
        );
        self.next_version = v + 1;
        Ok(())
    }

    /// Delete the owned Deployment, per `spec_delete`.
    pub fn delete_deployment(&mut self) -> (r: Result<(), StoreError>)
        ensures
            *final(self) == spec_delete(*old(self)).0,
            r == spec_delete(*old(self)).1,
    {
        if self.deployment.is_some() {
            self.deployment = None;
            Ok(())
        } else {
            Err(StoreError::NotFound)
        }
    }

    /// Report the terminal invalid-spec condition on the App.
    pub fn set_invalid_condition(&mut self)
        ensures
            *final(self) == spec_set_condition(*old(self)),
    {
        if self.app.is_some() {
            let a = self.app.as_ref().unwrap();
            let newa = AppResource {
                spec: a.spec.clone(),
                uid: a.uid.clone(),
                resource_version: a.resource_version,
                deletion_timestamp: a.deletion_timestamp,
                condition: Some(AppCondition::InvalidSpec),
            };
            self.app = Some(newa);
        }
    }
}

/// Apply a decided action against the store, per `spec_apply`.
pub fn apply(s: &mut ClusterState, a: Action) -> (r: ReconcileResult)
    requires
        old(s).next_version < u64::MAX,
    ensures
        *final(s) == spec_apply(*old(s), a).0,
        r == spec_apply(*old(s), a).1,
{
    match a {
        Action::Nothing => {
            if s.app.is_some() {
                ReconcileResult::RequeueAfter(STEADY_REQUEUE_MS)
            } else {
                ReconcileResult::Continue
            }
        },
        Action::Finalize => ReconcileResult::Continue,
        Action::ReportInvalid => {
            s.set_invalid_condition();
            ReconcileResult::RequeueWithBackoff(FailureKind::Terminal)
        },
        Action::DeleteChild => {
            let _ = s.delete_deployment();
            ReconcileResult::Continue
        },
        Action::CreateChild(d) => {
            if s.deployment.is_none() {
                let _ = s.create_deployment(d);
                ReconcileResult::RequeueAfter(STEADY_REQUEUE_MS)
            } else {
                // The create lost a race to a concurrent creator: that is
                // success, and the freshly fetched object falls through to
                // the drift comparison.
                let c = s.get_deployment().unwrap();
                if !c.image.eq(&d.image) || c.port != d.port {
                    let _ = s.update_deployment(d.image, d.port, c.resource_version);
                    ReconcileResult::Continue
                } else {
                    ReconcileResult::RequeueAfter(STEADY_REQUEUE_MS)
                }
            }
        },
        Action::UpdateChild { image, port, expected_version } => {
            match s.update_deployment(image, port, expected_version) {
                Ok(_) => ReconcileResult::Continue,
                Err(_) => ReconcileResult::RequeueWithBackoff(FailureKind::Transient),
            }
        },
    }
}

/// One full reconcile pass over the observed state at one key, per
/// `spec_reconcile`: fetch fresh state, decide, apply.
pub fn reconcile(s: &mut ClusterState) -> (r: ReconcileResult)
    requires
        old(s).next_version < u64::MAX,
    ensures
        *final(s) == spec_reconcile(*old(s)).0,
        r == spec_reconcile(*old(s)).1,
{
    let app = s.get_app();
    let child = s.get_deployment();
    let a = plan(&app, &child);
    apply(s, a)
}

/// Decide when the key re-enters the queue, from one pass's result:
/// success clears the failure count; a steady re-check is scheduled after
/// exactly its interval, bypassing backoff; a transient failure is always
/// scheduled per the backoff policy, never given up; a terminal failure
/// is scheduled the same way only up to the ceiling, then dropped and
/// left to the next external edit.
pub fn schedule_next(bo: &mut BackoffTracker, key: &String, r: &ReconcileResult) -> (delay: Option<
    u64,
>)
    requires
        old(bo).wf(),
    ensures
        final(bo).wf(),
        (match *r {
            ReconcileResult::Continue => delay is None && final(bo).failures_of(key@) == 0,
            ReconcileResult::RequeueAfter(d) => delay == Some(d) && final(bo).failures_of(key@)
                == 0,
            ReconcileResult::RequeueWithBackoff(kind) => {
                if kind is Transient || old(bo).failures_of(key@) < FAILURE_CEILING {
                    &&& delay == Some(spec_delay(old(bo).failures_of(key@)) as u64)
                    &&& final(bo).failures_of(key@) == (if old(bo).failures_of(key@)
                        < FAILURE_CEILING {
                        old(bo).failures_of(key@) + 1
                    } else {
                        old(bo).failures_of(key@)
                    })
                } else {
                    &&& delay is None
                    &&& final(bo).failures_of(key@) == old(bo).failures_of(key@)
                }
            },
        }),
        forall|j: Seq<char>| j != key@ ==> final(bo).failures_of(j) == old(bo).failures_of(j),
{
    match r {
        ReconcileResult::Continue => {
            bo.forget(key);
            None
        },
        ReconcileResult::RequeueAfter(d) => {
            bo.forget(key);
            Some(*d)
        },
        ReconcileResult::RequeueWithBackoff(kind) => {
            match kind {
                FailureKind::Transient => Some(bo.record_failure(key)),
                FailureKind::Terminal => {
                    if bo.should_retry(key) {
                        Some(bo.record_failure(key))
                    } else {
                        None
                    }
                },
            }
        },
    }
}

/// Whether the App exists, is not awaiting deletion, and declares a valid
/// spec — the states in which the controller owes a matching child.
pub open spec fn app_live(app: Option<AppResource>) -> bool {
    match app {
        Some(a) => a.deletion_timestamp is None && spec_valid(a.spec),
        None => false,
    }
}

/// Whether the child, if present, carries the App's owner reference.
pub open spec fn child_owned(s: ClusterState) -> bool {
    match (s.app, s.deployment) {
        (Some(a), Some(c)) => c.owner_uid@ == a.uid@,
        _ => true,
    }
}

/// Whether desired and observed state agree: the child exists, matches the
/// spec's managed fields, and carries the owner reference.
pub open spec fn converged(s: ClusterState) -> bool {
    match (s.app, s.deployment) {
        (Some(a), Some(c)) => c.image@ == a.spec.image@ && c.port == a.spec.port && c.owner_uid@
            == a.uid@,
        _ => false,
    }
}

/// Law (idempotence): a second pass over the state the first pass left,
/// with no intervening external change, changes nothing.
pub proof fn lemma_reconcile_idempotent(s: ClusterState)
    requires
        s.next_version < u64::MAX,
    ensures
        spec_reconcile(spec_reconcile(s).0).0 == spec_reconcile(s).0,
{
    match s.app {
        None => {},
        Some(a) => {
            if a.deletion_timestamp is Some {
            } else if !spec_valid(a.spec) {
            } else {
                match s.deployment {
                    None => {},
                    Some(c) => {},
                }
            }
        },
    }
}

/// Law (convergence): one pass on a live App leaves its owned Deployment
/// existing and matching the spec's image and port, whatever the starting
/// child state, and leaves the App itself untouched.
pub proof fn lemma_reconcile_converges(s: ClusterState)
    requires
        s.next_version < u64::MAX,
        app_live(s.app),
        child_owned(s),
    ensures
        converged(spec_reconcile(s).0),
        spec_reconcile(s).0.app == s.app,
{
}

/// Law (deletion cascade): once the App is gone, one pass deletes the
/// child if one exists and reports plain success; with no child the pass
/// changes nothing.
pub proof fn lemma_deletion_cascade(s: ClusterState)
    requires
        s.app is None,
    ensures
        spec_reconcile(s).0.deployment is None,
        spec_reconcile(s).0.app is None,
        spec_reconcile(s).1 == ReconcileResult::Continue,
        s.deployment is None ==> spec_reconcile(s).0 == s,
{
}

/// Law (conflict safety): a write prepared against a stale read is refused
/// whole — no field of it reaches the store — and the pass asks for a
/// backoff retry; a later pass from fresh state converges.
pub proof fn lemma_conflict_safety(s: ClusterState, image: String, port: u32, stale: u64)
    requires
        s.next_version < u64::MAX,
        (match s.deployment {
            Some(c) => c.resource_version != stale,
            None => false,
        }),
    ensures
        spec_apply(s, (Action::UpdateChild { image, port, expected_version: stale })).0 == s,
        spec_apply(s, (Action::UpdateChild { image, port, expected_version: stale })).1
            == ReconcileResult::RequeueWithBackoff(FailureKind::Transient),
        app_live(s.app) && child_owned(s) ==> converged(spec_reconcile(s).0),
{
    if app_live(s.app) && child_owned(s) {
        lemma_reconcile_converges(s);
    }
}

} // verus!
