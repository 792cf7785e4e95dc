use fenestra_ui_testkit::headless::geometry::HeadlessSurface;
use fenestra_ui_testkit::headless::trace::{
    HEADLESS_EVENT_ACCOUNTED_BYTES, HeadlessInputKindV1, HeadlessOutcomeV1,
    HeadlessTraceCapacityV1, HeadlessTraceErrorKind, HeadlessTraceObservationV1,
    HeadlessTraceProjectionCountsV1, HeadlessTraceQueueStatsV1, HeadlessTraceRendererStatsV1,
    HeadlessTraceStageV1, HeadlessTraceStep, HeadlessTraceV1, TraceProjectionStateV1,
};
use fenestra_ui_testkit::scheduler::{FakeClockDomainV1, FakeClockV1};

const DOMAIN: u64 = 91;

fn observation() -> HeadlessTraceObservationV1 {
    HeadlessTraceObservationV1 {
        committed_generation: 0,
        projection: Some(TraceProjectionStateV1 {
            generation: 0,
            surface: HeadlessSurface::new(64, 48),
            counts: HeadlessTraceProjectionCountsV1::new(3, 3, 1, 2, 3),
        }),
        deferred: HeadlessTraceQueueStatsV1::new(0, 0),
        controls: HeadlessTraceQueueStatsV1::new(0, 0),
        visual: HeadlessTraceQueueStatsV1::new(0, 0),
        in_flight: HeadlessTraceQueueStatsV1::new(0, 0),
        renderer: HeadlessTraceRendererStatsV1::new(0, 0),
    }
}

fn clock(now: u64) -> FakeClockV1 {
    FakeClockV1::new(FakeClockDomainV1::new(DOMAIN), now)
}

fn observed_step() -> HeadlessTraceStep {
    HeadlessTraceStep::new(
        HeadlessTraceStageV1::Build,
        HeadlessInputKindV1::Absent,
        HeadlessOutcomeV1::Observed,
    )
}

#[test]
fn inclusive_event_and_byte_limits_accept_the_exact_boundary() {
    let mut trace = HeadlessTraceV1::new(
        FakeClockDomainV1::new(DOMAIN),
        HeadlessTraceCapacityV1::new(1, HEADLESS_EVENT_ACCOUNTED_BYTES),
    );

    trace
        .record(clock(0), observed_step(), observation())
        .expect("the exact event and byte boundary should be inclusive");

    assert_eq!(trace.len(), 1);
    assert_eq!(trace.accounted_bytes(), HEADLESS_EVENT_ACCOUNTED_BYTES);
}

#[test]
fn event_limit_has_priority_and_preserves_the_accepted_prefix() {
    let mut trace = HeadlessTraceV1::new(
        FakeClockDomainV1::new(DOMAIN),
        HeadlessTraceCapacityV1::new(1, HEADLESS_EVENT_ACCOUNTED_BYTES),
    );
    trace
        .record(clock(0), observed_step(), observation())
        .expect("the first event should fit");
    let prefix = trace.events().to_vec();

    let error = trace
        .record(clock(0), observed_step(), observation())
        .expect_err("the second event exceeds both dimensions");

    assert_eq!(error.kind(), HeadlessTraceErrorKind::EventLimitExceeded);
    assert_eq!(trace.events(), prefix);
    assert_eq!(trace.next_sequence(), Some(1));
    assert_eq!(trace.last_tick(), Some(0));
}

#[test]
fn byte_limit_preserves_sequence_after_one_accepted_event() {
    let mut trace = HeadlessTraceV1::new(
        FakeClockDomainV1::new(DOMAIN),
        HeadlessTraceCapacityV1::new(2, HEADLESS_EVENT_ACCOUNTED_BYTES),
    );
    trace
        .record(clock(0), observed_step(), observation())
        .expect("the first event should fit");

    let error = trace
        .record(clock(0), observed_step(), observation())
        .expect_err("only the byte dimension should reject the second event");

    assert_eq!(error.kind(), HeadlessTraceErrorKind::ByteLimitExceeded);
    assert_eq!(trace.len(), 1);
    assert_eq!(trace.next_sequence(), Some(1));
}

#[test]
fn events_carry_dense_sequences_and_fixed_accounting() {
    let mut trace = HeadlessTraceV1::new(
        FakeClockDomainV1::new(DOMAIN),
        HeadlessTraceCapacityV1::new(8, 8 * HEADLESS_EVENT_ACCOUNTED_BYTES),
    );
    let mut step = observed_step();
    step.records_publication = true;
    for tick in [0, 0, 3] {
        trace.record(clock(tick), step, observation()).unwrap();
    }
    assert_eq!(trace.accounted_bytes(), 3 * 160);
    for (index, event) in trace.events().iter().enumerate() {
        assert_eq!(event.sequence(), index as u64);
        assert_eq!(event.schema_revision(), 1);
        assert_eq!(event.published_generation(), Some(0));
        assert_eq!(event.surface(), HeadlessSurface::new(64, 48));
    }
    assert_eq!(trace.events()[2].tick(), 3);
}

#[test]
fn clock_failures_precede_capacity_and_leave_the_trace() {
    let mut trace = HeadlessTraceV1::new(
        FakeClockDomainV1::new(DOMAIN),
        HeadlessTraceCapacityV1::new(1, HEADLESS_EVENT_ACCOUNTED_BYTES),
    );
    trace.record(clock(5), observed_step(), observation()).unwrap();

    let foreign = FakeClockV1::new(FakeClockDomainV1::new(DOMAIN + 1), 9);
    let error = trace.record(foreign, observed_step(), observation()).unwrap_err();
    assert_eq!(error.kind(), HeadlessTraceErrorKind::ClockDomainMismatch);

    let error = trace.record(clock(4), observed_step(), observation()).unwrap_err();
    assert_eq!(error.kind(), HeadlessTraceErrorKind::TickRegression);
    assert_eq!(trace.len(), 1);
    assert_eq!(trace.last_tick(), Some(5));
}

#[test]
fn unavailable_or_stale_projections_are_refused() {
    let mut trace = HeadlessTraceV1::new(
        FakeClockDomainV1::new(DOMAIN),
        HeadlessTraceCapacityV1::new(4, 4 * HEADLESS_EVENT_ACCOUNTED_BYTES),
    );
    let mut missing = observation();
    missing.projection = None;
    let error = trace.record(clock(0), observed_step(), missing).unwrap_err();
    assert_eq!(error.kind(), HeadlessTraceErrorKind::ProjectionUnavailable);

    let mut stale = observation();
    stale.committed_generation = 1;
    let error = trace.record(clock(0), observed_step(), stale).unwrap_err();
    assert_eq!(error.kind(), HeadlessTraceErrorKind::IdentityMismatch);
    assert!(trace.is_empty());
    assert_eq!(trace.next_sequence(), Some(0));
}
