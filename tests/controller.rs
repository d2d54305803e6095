use pod_reconciler::controller::{deadline, finish, process, StepReport};
use pod_reconciler::object_ref::ObjectRef;
use pod_reconciler::reconciler::{
    on_error, reconcile, Action, ExampleError, ObservedPod, ERROR_BACKOFF_SECS,
    RECONCILE_INTERVAL_SECS,
};
use pod_reconciler::work_queue::WorkQueue;

fn pod_a() -> ObjectRef {
    ObjectRef::new("default".to_string(), "pod-a".to_string(), "Pod".to_string())
}

fn running(name: &str) -> ObservedPod {
    ObservedPod { name: name.to_string(), phase: Some("Running".to_string()) }
}

fn api_error() -> ExampleError {
    ExampleError::from(kube::Error::Api(kube::error::ErrorResponse {
        status: "Failure".to_string(),
        message: "pods \"pod-a\" is forbidden".to_string(),
        reason: "Forbidden".to_string(),
        code: 403,
    }))
}

#[test]
fn end_to_end_requeue_after_ten_seconds() {
    let mut q = WorkQueue::new();
    q.add(pod_a(), 0);
    let obj = q.get(0).unwrap();
    let report = process(&mut q, &obj, &Some(running("pod-a")), 0);
    assert_eq!(report, StepReport::Reconciled(Action::RequeueAfter { secs: 10 }));
    assert_eq!(q.pending_len(), 1);
    assert_eq!(q.ready_time(&pod_a()), Some(10));
    assert!(!q.is_processing(&pod_a()));
    assert!(q.get(9).is_none());
    assert!(q.get(10).unwrap().same_object(&pod_a()));
}

#[test]
fn deleted_object_is_not_requeued() {
    let mut q = WorkQueue::new();
    q.add(pod_a(), 0);
    let obj = q.get(0).unwrap();
    let report = process(&mut q, &obj, &None, 0);
    assert_eq!(report, StepReport::Deleted);
    assert_eq!(q.pending_len(), 0);
    assert!(!q.is_processing(&pod_a()));
    assert!(q.get(u64::MAX).is_none());
}

#[test]
fn success_schedules_exactly_one_follow_up() {
    let mut q = WorkQueue::new();
    q.add(pod_a(), 100);
    let obj = q.get(100).unwrap();
    let applied = finish(&mut q, &obj, &Ok(Action::RequeueAfter { secs: RECONCILE_INTERVAL_SECS }), 100);
    assert_eq!(applied, Action::RequeueAfter { secs: 10 });
    assert_eq!(q.pending_len(), 1);
    assert_eq!(q.ready_time(&pod_a()), Some(110));
    assert!(q.get(109).is_none());
    let again = q.get(110).unwrap();
    assert!(again.same_object(&pod_a()));
    assert!(q.get(u64::MAX).is_none());
}

#[test]
fn failure_backs_off_five_seconds() {
    let mut q = WorkQueue::new();
    q.add(pod_a(), 7);
    let obj = q.get(7).unwrap();
    let applied = finish(&mut q, &obj, &Err(api_error()), 7);
    assert_eq!(applied, Action::RequeueAfter { secs: ERROR_BACKOFF_SECS });
    assert_eq!(q.ready_time(&pod_a()), Some(12));
    assert!(q.get(11).is_none());
    assert!(q.get(12).is_some());
}

#[test]
fn failure_backoff_ignores_error_content() {
    let e1 = api_error();
    let e2 = ExampleError::from(kube::Error::LinesCodecMaxLineLengthExceeded);
    let e3 = ExampleError::from(kube::Error::TlsRequired);
    let obj = pod_a();
    assert_eq!(on_error(&obj, &e1), Action::RequeueAfter { secs: 5 });
    assert_eq!(on_error(&obj, &e2), on_error(&obj, &e1));
    assert_eq!(on_error(&obj, &e3), on_error(&obj, &e1));
}

#[test]
fn no_requeue_only_marks_done() {
    let mut q = WorkQueue::new();
    q.add(pod_a(), 0);
    let obj = q.get(0).unwrap();
    let applied = finish(&mut q, &obj, &Ok(Action::NoRequeue), 0);
    assert_eq!(applied, Action::NoRequeue);
    assert_eq!(q.pending_len(), 0);
    assert!(!q.is_processing(&pod_a()));
}

#[test]
fn add_during_processing_keeps_earlier_follow_up() {
    let mut q = WorkQueue::new();
    q.add(pod_a(), 0);
    let obj = q.get(0).unwrap();
    q.add(pod_a(), 3);
    process(&mut q, &obj, &Some(running("pod-a")), 4);
    assert_eq!(q.pending_len(), 1);
    assert_eq!(q.ready_time(&pod_a()), Some(3));
}

#[test]
fn reconcile_is_idempotent() {
    let obj = pod_a();
    let observed = running("pod-a");
    let first = reconcile(&obj, &observed).unwrap();
    let second = reconcile(&obj, &observed).unwrap();
    assert_eq!(first, Action::RequeueAfter { secs: 10 });
    assert_eq!(first, second);
    let pending = ObservedPod { name: "pod-a".to_string(), phase: None };
    assert_eq!(reconcile(&obj, &pending).unwrap(), first);
}

#[test]
fn deadline_adds_and_saturates() {
    assert_eq!(deadline(0, 10), 10);
    assert_eq!(deadline(1_000, 5), 1_005);
    assert_eq!(deadline(u64::MAX - 3, 10), u64::MAX);
    assert_eq!(deadline(u64::MAX - 10, 10), u64::MAX);
}

#[test]
fn kube_error_converts_into_example_error() {
    match ExampleError::from(kube::Error::TlsRequired) {
        ExampleError::KubeError { source } => assert!(matches!(source, kube::Error::TlsRequired)),
    }
}
