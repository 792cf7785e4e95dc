use fenestra_ui_testkit::headless::platform::{
    HeadlessCallbackReportV1, HeadlessPlatformErrorKindV1, HeadlessPointerTargetV1,
    capture_pointer, ensure_callback_order, pointer_target,
};
use fenestra_ui_testkit::headless::renderer::{
    HEADLESS_RESOURCE_BYTES, HeadlessRendererErrorKindV1, headless_frame_resource_v1,
};
use fenestra_ui_testkit::headless::runner::HeadlessRunErrorV1;
use fenestra_ui_testkit::headless::trace::HeadlessFailureCauseV1;
use fenestra_ui_testkit::identity::{IdentityIndexV1, NodeId};
use fenestra_ui_testkit::scheduler::{
    FakeCallbackReportV1, SchedulerErrorKind, SyntheticResourceIdV1,
};
use fenestra_ui_testkit::semantic::NodePathV1;

fn identities() -> IdentityIndexV1 {
    let mut index = IdentityIndexV1::new();
    assert!(index.record_node(NodePathV1::root(), NodeId(1)));
    assert!(index.record_node(NodePathV1::root().static_child(0), NodeId(2)));
    assert!(index.record_node(NodePathV1::root().static_child(0).static_child(0), NodeId(3)));
    assert!(index.record_node(NodePathV1::root().static_child(0).member(1, 42), NodeId(4)));
    index
}

#[test]
fn fixed_paths_classify_into_the_closed_target_vocabulary() {
    let control = NodePathV1::root().static_child(0).static_child(0);
    assert_eq!(pointer_target(&control), Ok(HeadlessPointerTargetV1::StaticControl));
    let item = NodePathV1::root().static_child(0).member(1, 42);
    assert_eq!(pointer_target(&item), Ok(HeadlessPointerTargetV1::Key(42)));
    for path in [
        NodePathV1::root(),
        NodePathV1::root().static_child(0),
        NodePathV1::root().static_child(0).static_child(1),
        NodePathV1::root().static_child(0).member(2, 42),
        NodePathV1::root().static_child(1).static_child(0),
    ] {
        let error = pointer_target(&path).unwrap_err();
        assert_eq!(error.kind(), HeadlessPlatformErrorKindV1::IdentityMismatch);
        assert_eq!(error.operation_index(), None);
    }
}

#[test]
fn captures_follow_the_committed_projection() {
    let index = Some(identities());
    let capture = capture_pointer(5, Some(5), Some(NodeId(4)), &index).unwrap();
    assert_eq!(capture.generation(), 5);
    assert_eq!(capture.target(), HeadlessPointerTargetV1::Key(42));

    let miss = capture_pointer(5, Some(5), None, &None).unwrap();
    assert_eq!(miss.target(), HeadlessPointerTargetV1::Absent);

    let error = capture_pointer(5, None, Some(NodeId(4)), &index).unwrap_err();
    assert_eq!(error.kind(), HeadlessPlatformErrorKindV1::HeadlessUnavailable);
    let error = capture_pointer(5, Some(4), Some(NodeId(4)), &index).unwrap_err();
    assert_eq!(error.kind(), HeadlessPlatformErrorKindV1::IdentityMismatch);
    let error = capture_pointer(5, Some(5), Some(NodeId(2)), &index).unwrap_err();
    assert_eq!(error.kind(), HeadlessPlatformErrorKindV1::IdentityMismatch);
    let error = capture_pointer(5, Some(5), Some(NodeId(9)), &index).unwrap_err();
    assert_eq!(error.kind(), HeadlessPlatformErrorKindV1::IdentityMismatch);
}

#[test]
fn pending_frame_ready_orders_callbacks_out() {
    assert_eq!(ensure_callback_order(false), Ok(()));
    let error = ensure_callback_order(true).unwrap_err();
    assert_eq!(
        error.kind(),
        HeadlessPlatformErrorKindV1::Scheduler(SchedulerErrorKind::InputOutOfOrder)
    );
}

#[test]
fn callback_reports_expose_their_parts() {
    let report = HeadlessCallbackReportV1::new(
        FakeCallbackReportV1 {
            captured_generation: 3,
            deepest_depth: 2,
            shares_entry_snapshot: true,
        },
        HeadlessPointerTargetV1::StaticControl,
    );
    assert_eq!(report.captured_generation(), 3);
    assert_eq!(report.deepest_depth(), 2);
    assert!(report.shares_entry_snapshot());
    assert_eq!(report.target(), HeadlessPointerTargetV1::StaticControl);
}

#[test]
fn frame_resources_are_named_by_their_generation() {
    let resource = headless_frame_resource_v1(7, Some(7)).unwrap();
    assert_eq!(resource.id, SyntheticResourceIdV1(7));
    assert_eq!(resource.bytes, HEADLESS_RESOURCE_BYTES);
    assert_eq!(resource.bytes, 64);
    let error = headless_frame_resource_v1(7, None).unwrap_err();
    assert_eq!(error.kind(), HeadlessRendererErrorKindV1::HeadlessUnavailable);
    let error = headless_frame_resource_v1(7, Some(6)).unwrap_err();
    assert_eq!(error.kind(), HeadlessRendererErrorKindV1::IdentityMismatch);
}

#[test]
fn run_errors_keep_their_cause() {
    let error = HeadlessRunErrorV1::new(HeadlessFailureCauseV1::Oracle);
    assert_eq!(error.kind(), HeadlessFailureCauseV1::Oracle);
}
