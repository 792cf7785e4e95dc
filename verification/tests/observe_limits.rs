use fenestra_ui_testkit::error::{HarnessErrorKind, HarnessLimitKind};
use fenestra_ui_testkit::fixture::HarnessLimitsV1;
use fenestra_ui_testkit::observe::{
    ObservationLimitCrossingsV1, checked_increment, ensure_next_count, ensure_path_depth,
    first_observation_limit_v1,
};
use fenestra_ui_testkit::semantic::NodePathV1;

#[test]
fn observation_limit_selection_follows_the_closed_harness_order() {
    let cases = [
        (
            ObservationLimitCrossingsV1::new(true, true, true, true, true),
            Some(HarnessLimitKind::LiveMemberships),
        ),
        (
            ObservationLimitCrossingsV1::new(false, true, true, true, true),
            Some(HarnessLimitKind::PathDepth),
        ),
        (
            ObservationLimitCrossingsV1::new(false, false, true, true, true),
            Some(HarnessLimitKind::NormalizedNodes),
        ),
        (
            ObservationLimitCrossingsV1::new(false, false, false, true, true),
            Some(HarnessLimitKind::NormalizedFragments),
        ),
        (
            ObservationLimitCrossingsV1::new(false, false, false, false, true),
            Some(HarnessLimitKind::NormalizedProperties),
        ),
        (
            ObservationLimitCrossingsV1::new(false, false, false, false, false),
            None,
        ),
    ];

    for (crossings, expected) in cases {
        assert_eq!(first_observation_limit_v1(crossings), expected);
    }
}

#[test]
fn recording_a_crossing_reports_it() {
    let mut crossings = ObservationLimitCrossingsV1::new(false, false, false, false, false);
    crossings.record(HarnessLimitKind::TraceBytes);
    assert_eq!(first_observation_limit_v1(crossings), None);
    crossings.record(HarnessLimitKind::NormalizedProperties);
    assert_eq!(
        first_observation_limit_v1(crossings),
        Some(HarnessLimitKind::NormalizedProperties)
    );
    crossings.record(HarnessLimitKind::PathDepth);
    assert_eq!(first_observation_limit_v1(crossings), Some(HarnessLimitKind::PathDepth));
}

#[test]
fn counts_are_checked_against_inclusive_limits() {
    assert_eq!(checked_increment(2, 3, HarnessLimitKind::NormalizedNodes), Ok(3));
    let error = checked_increment(3, 3, HarnessLimitKind::NormalizedNodes).unwrap_err();
    assert_eq!(error.kind(), HarnessErrorKind::LimitExceeded(HarnessLimitKind::NormalizedNodes));
    let error = checked_increment(usize::MAX, usize::MAX, HarnessLimitKind::NormalizedNodes)
        .unwrap_err();
    assert_eq!(error.kind(), HarnessErrorKind::ArithmeticExhausted);
    assert_eq!(ensure_next_count(0, 1, HarnessLimitKind::LiveMemberships), Ok(()));
}

#[test]
fn path_depth_is_inclusive() {
    let limits = HarnessLimitsV1 {
        transactions: 8,
        operations_per_transaction: 8,
        operations: 64,
        live_memberships: 16,
        path_depth: 2,
        normalized_nodes: 64,
        normalized_fragments: 16,
        normalized_properties: 256,
        applicable_actions: 64,
        trace_bytes: 4096,
    };
    let path = NodePathV1::root().static_child(0).static_child(1);
    assert_eq!(ensure_path_depth(&path, limits), Ok(()));
    let error = ensure_path_depth(&path.static_child(2), limits).unwrap_err();
    assert_eq!(error.kind(), HarnessErrorKind::LimitExceeded(HarnessLimitKind::PathDepth));
}
