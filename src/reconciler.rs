use vstd::prelude::*;
use crate::object_ref::{ObjectKey, ObjectRef};

verus! {

/// Declares kube::Error, the cluster client's error, carried opaquely as
/// the cause of a failed reconciliation.
#[verifier::external_type_specification]
#[verifier::external_body]
pub struct ExKubeError(kube::Error);

/// Declares kube::Client, held opaquely in the shared context.
#[verifier::external_type_specification]
#[verifier::external_body]
pub struct ExClient(kube::Client);

/// Seconds between periodic re-verifications of a healthy object.
pub const RECONCILE_INTERVAL_SECS: u64 = 10;

/// Seconds to wait before retrying after a failed reconciliation.
pub const ERROR_BACKOFF_SECS: u64 = 5;

/// Errors a reconciliation attempt can end in.
#[derive(Debug)]
pub enum ExampleError {
    /// A failure reported by the cluster client.
    KubeError { source: kube::Error },
}

impl From<kube::Error> for ExampleError {
    fn from(source: kube::Error) -> (r: ExampleError) {
        ExampleError::KubeError { source }
    }
}

impl vstd::std_specs::convert::FromSpecImpl<kube::Error> for ExampleError {
    open spec fn obeys_from_spec() -> bool {
        true
    }

    open spec fn from_spec(source: kube::Error) -> ExampleError {
        ExampleError::KubeError { source }
    }
}

/// What the loop should do with an object after a reconciliation attempt.
#[derive(Debug, Clone, Copy, PartialEq, Eq, Structural)]
pub enum Action {
    /// Reconcile the object again once this many seconds have passed.
    RequeueAfter { secs: u64 },
    /// Nothing further until the object changes.
    NoRequeue,
}

/// The part of a fetched pod that reconciliation reads.
#[derive(Debug, Clone)]
pub struct ObservedPod {
    pub name: String,
    pub phase: Option<String>,
}

/// The observed state as mathematical values.
pub type PodSnapshot = (Seq<char>, Option<Seq<char>>);

impl View for ObservedPod {
    type V = PodSnapshot;

    open spec fn view(&self) -> PodSnapshot {
        (
            self.name@,
            match self.phase {
                Some(p) => Some(p@),
                None => None,
            },
        )
    }
}

/// Shared, read-only context handed to every reconciliation.
pub struct ContextData {
    /// Client for requests to the cluster API.
    pub client: kube::Client,
}

impl ContextData {
    pub fn new(client: kube::Client) -> (r: ContextData)
        ensures
            r.client == client,
    {
        ContextData { client }
    }
}

/// The outcome the reconciler owes for an object in a given observed state:
/// a periodic re-verification, whatever the state.
pub open spec fn reconcile_spec(obj: ObjectKey, observed: PodSnapshot) -> Action {
    Action::RequeueAfter { secs: RECONCILE_INTERVAL_SECS }
}

/// The directive after a failed reconciliation: a fixed backoff.
pub open spec fn error_action_spec() -> Action {
    Action::RequeueAfter { secs: ERROR_BACKOFF_SECS }
}

/// Reconciles one object against its freshly observed state. It only reads
/// its arguments, so it has no side effects to repeat.
pub fn reconcile(obj: &ObjectRef, observed: &ObservedPod) -> (r: Result<Action, ExampleError>)
    ensures
        r matches Ok(a) && a == reconcile_spec(obj@, observed@),
{
    Ok(Action::RequeueAfter { secs: RECONCILE_INTERVAL_SECS })
}

/// The directive after a failed reconciliation, whatever the error.
pub fn on_error(obj: &ObjectRef, error: &ExampleError) -> (r: Action)
    ensures
        r == error_action_spec(),
{
    Action::RequeueAfter { secs: ERROR_BACKOFF_SECS }
}

/// Reconciling twice with identical observed state yields identical
/// directives.
pub proof fn lemma_reconcile_idempotent(
    obj1: ObjectKey,
    obj2: ObjectKey,
    observed1: PodSnapshot,
    observed2: PodSnapshot,
)
    requires
        obj1 == obj2,
        observed1 == observed2,
    ensures
        reconcile_spec(obj1, observed1) == reconcile_spec(obj2, observed2),
{
}

} // verus!
