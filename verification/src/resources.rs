//! The resource model: desired state (`AppSpec`), the cluster-held App and
//! its owned Deployment, and the result of one reconcile pass.

use vstd::prelude::*;

verus! {

/// Smallest port number an App may declare.
pub const MIN_PORT: u32 = 1;

/// Largest port number an App may declare.
pub const MAX_PORT: u32 = 65535;

/// Desired state for one deployable unit, as declared by the user.
pub struct AppSpec {
    /// Identity, unique per namespace.
    pub name: String,
    /// Container image reference.
    pub image: String,
    /// Port the container serves on.
    pub port: u32,
}

/// An App as held by the cluster: the declared spec plus cluster-assigned
/// metadata.
pub struct AppResource {
    /// The declared desired state.
    pub spec: AppSpec,
    /// Stable identity across renames; owner references point at this.
    pub uid: String,
    /// Monotonic per-object token for optimistic concurrency.
    pub resource_version: u64,
    /// Set when deletion has been requested but finalization is pending;
    /// carries the request time in milliseconds.
    pub deletion_timestamp: Option<u64>,
    /// Terminal condition reported on the App, if any.
    pub condition: Option<AppCondition>,
}

/// A persistent condition the controller reports on an App.
#[derive(PartialEq, Eq, Structural, Clone, Copy, Debug)]
pub enum AppCondition {
    /// The declared spec fails domain validation and cannot be reconciled
    /// until an external actor corrects it.
    InvalidSpec,
}

/// The owned child of an App.
pub struct DeploymentResource {
    /// Derived deterministically from the owning App's name.
    pub name: String,
    /// Observed container image.
    pub image: String,
    /// Observed port.
    pub port: u32,
    /// Observed replica count; created at one, then left to other actors.
    pub replica_count: u32,
    /// Owner reference: the uid of the owning App.
    pub owner_uid: String,
    /// Monotonic per-object token for optimistic concurrency.
    pub resource_version: u64,
}

/// How a failed pass is classified, which decides its retry policy.
#[derive(PartialEq, Eq, Structural, Clone, Copy, Debug)]
pub enum FailureKind {
    /// Expected churn: a timeout, an unavailable store, a lost
    /// optimistic-concurrency race. Always retried under backoff, never
    /// given up.
    Transient,
    /// The declared spec itself cannot be reconciled; retrying cannot fix
    /// it. Retried under capped backoff only up to a ceiling, then left
    /// for an external edit to re-trigger work.
    Terminal,
}

/// Outcome of one reconcile pass, as handed to the scheduler.
#[derive(PartialEq, Eq, Structural, Clone, Copy, Debug)]
pub enum ReconcileResult {
    /// Success; nothing further to do.
    Continue,
    /// Success, but re-check after the given number of milliseconds to
    /// catch external drift that produces no reliable watch event.
    RequeueAfter(u64),
    /// Failure of the given kind; re-enter the queue per the backoff
    /// policy for that kind.
    RequeueWithBackoff(FailureKind),
}

impl AppCondition {
    /// Human-readable form, for surfacing on the App's status.
    pub fn message(&self) -> (r: String)
        ensures
            r@ == "port out of range"@,
    {
        "port out of range".to_owned()
    }
}

/// Whether a declared port is within the domain this layer accepts.
pub open spec fn spec_port_valid(port: u32) -> bool {
    MIN_PORT <= port <= MAX_PORT
}

/// Whether a declared spec passes domain validation.
pub open spec fn spec_valid(spec: AppSpec) -> bool {
    spec_port_valid(spec.port)
}

/// Runtime check matching `spec_valid`.
pub fn valid_spec(spec: &AppSpec) -> (r: bool)
    ensures
        r == spec_valid(*spec),
{
    MIN_PORT <= spec.port && spec.port <= MAX_PORT
}

impl Clone for AppSpec {
    /// An exact copy, field for field.
    fn clone(&self) -> (r: Self)
        ensures
            r == *self,
    {
        AppSpec { name: self.name.clone(), image: self.image.clone(), port: self.port }
    }
}

impl Clone for AppResource {
    /// An exact copy, field for field.
    fn clone(&self) -> (r: Self)
        ensures
            r == *self,
    {
        AppResource {
            spec: self.spec.clone(),
            uid: self.uid.clone(),
            resource_version: self.resource_version,
            deletion_timestamp: self.deletion_timestamp,
            condition: self.condition,
        }
    }
}

impl Clone for DeploymentResource {
    /// An exact copy, field for field.
    fn clone(&self) -> (r: Self)
        ensures
            r == *self,
    {
        DeploymentResource {
            name: self.name.clone(),
            image: self.image.clone(),
            port: self.port,
            replica_count: self.replica_count,
            owner_uid: self.owner_uid.clone(),
            resource_version: self.resource_version,
        }
    }
}

} // verus!
