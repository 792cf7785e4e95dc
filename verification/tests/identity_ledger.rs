use fenestra_ui_testkit::error::HarnessError;
use fenestra_ui_testkit::fingerprint::{
    FailureFingerprintKindV1, FailureFingerprintV1, FingerprintFieldV1, FingerprintLocationV1,
    FingerprintSummaryV1,
};
use fenestra_ui_testkit::identity::{
    FragmentId, IdentityIndexV1, IdentityLedgerV1, IdentitySummaryV1, IncarnationTokensV1,
    LiveHandlesV1, NodeId,
};
use fenestra_ui_testkit::semantic::{FragmentPathV1, NodePathV1};

fn primary_fragment() -> FragmentPathV1 {
    FragmentPathV1::new(NodePathV1::root(), 1)
}

fn retired_member() -> NodePathV1 {
    NodePathV1::root().member(1, 7)
}

fn surviving_member() -> NodePathV1 {
    NodePathV1::root().member(1, 8)
}

fn retired_nested_fragment() -> FragmentPathV1 {
    FragmentPathV1::new(retired_member(), 1)
}

fn surviving_nested_fragment() -> FragmentPathV1 {
    FragmentPathV1::new(surviving_member(), 1)
}

fn build_index(nodes: Vec<(NodePathV1, NodeId)>, fragments: Vec<(FragmentPathV1, FragmentId)>) -> IdentityIndexV1 {
    let mut index = IdentityIndexV1::new();
    for (path, id) in nodes {
        assert!(index.record_node(path, id));
    }
    for (path, id) in fragments {
        assert!(index.record_fragment(path, id));
    }
    index
}

fn node_entries(offset: u64) -> Vec<(NodePathV1, NodeId)> {
    vec![
        (NodePathV1::root(), NodeId(offset + 1)),
        (retired_member(), NodeId(offset + 2)),
        (surviving_member(), NodeId(offset + 3)),
    ]
}

fn fragment_entries(offset: u64) -> Vec<(FragmentPathV1, FragmentId)> {
    vec![
        (primary_fragment(), FragmentId(offset + 10)),
        (retired_nested_fragment(), FragmentId(offset + 11)),
        (surviving_nested_fragment(), FragmentId(offset + 12)),
    ]
}

fn initial_index() -> IdentityIndexV1 {
    build_index(node_entries(0), fragment_entries(0))
}

fn foreign_index() -> IdentityIndexV1 {
    build_index(node_entries(100), fragment_entries(100))
}

fn after_removal() -> IdentityIndexV1 {
    build_index(
        node_entries(0).into_iter().filter(|(path, _)| path.segments() != retired_member().segments()).collect(),
        fragment_entries(0)
            .into_iter()
            .filter(|(path, _)| path.owner().segments() != retired_member().segments())
            .collect(),
    )
}

fn tokens(retired: bool, reintroduced: bool) -> IncarnationTokensV1 {
    let mut entries = vec![(NodePathV1::root(), 0), (surviving_member(), 0)];
    if !retired {
        entries.push((retired_member(), 0));
    }
    if reintroduced {
        entries.push((retired_member(), 1));
    }
    IncarnationTokensV1::new(entries)
}

fn live(index: &IdentityIndexV1) -> LiveHandlesV1 {
    LiveHandlesV1::new(
        index.nodes_in_authored_order().iter().map(|(_, id)| *id).collect(),
        index.fragments_in_authored_order().iter().map(|(_, id)| *id).collect(),
    )
}

fn replace_node(source: &IdentityIndexV1, target: &NodePathV1, replacement: NodeId) -> IdentityIndexV1 {
    build_index(
        source
            .nodes_in_authored_order()
            .iter()
            .map(|(path, id)| {
                (path.clone(), if path.segments() == target.segments() { replacement } else { *id })
            })
            .collect(),
        source.fragments_in_authored_order().iter().map(|(path, id)| (path.clone(), *id)).collect(),
    )
}

fn replace_fragment(source: &IdentityIndexV1, target: &FragmentPathV1, replacement: FragmentId) -> IdentityIndexV1 {
    build_index(
        source.nodes_in_authored_order().iter().map(|(path, id)| (path.clone(), *id)).collect(),
        source
            .fragments_in_authored_order()
            .iter()
            .map(|(path, id)| (path.clone(), if path.same(target) { replacement } else { *id }))
            .collect(),
    )
}

fn same_location(found: &FingerprintLocationV1, expected: &FingerprintLocationV1) -> bool {
    match (found, expected) {
        (FingerprintLocationV1::Global, FingerprintLocationV1::Global) => true,
        (FingerprintLocationV1::Node(a), FingerprintLocationV1::Node(b)) => a.same(b),
        (FingerprintLocationV1::Fragment(a), FingerprintLocationV1::Fragment(b)) => a.same(b),
        _ => false,
    }
}

fn expect_mismatch(
    result: Result<Option<FailureFingerprintV1>, HarnessError>,
    location: FingerprintLocationV1,
    expected: FingerprintSummaryV1,
    observed: FingerprintSummaryV1,
) {
    let fingerprint = result
        .expect("identity verification should remain operational")
        .expect("identity mismatch should be fingerprinted");
    assert_eq!(fingerprint.kind(), FailureFingerprintKindV1::IdentityMismatch);
    assert!(same_location(fingerprint.location(), &location));
    assert_eq!(fingerprint.field(), FingerprintFieldV1::IdentityLifecycle);
    assert_eq!(fingerprint.expected(), &expected);
    assert_eq!(fingerprint.observed(), &observed);
}

#[test]
fn clean_initial_snapshot_records_one_alias_free_snapshot() {
    let identities = initial_index();
    let mut ledger = IdentityLedgerV1::new();

    assert_eq!(ledger.summary(), IdentitySummaryV1::new());
    assert!(
        ledger
            .verify_initial_aliases(&identities)
            .expect("clean initial identities should verify")
            .is_none()
    );
    assert_eq!(ledger.summary().alias_free_snapshots(), 1);
    assert_eq!(ledger.summary().preserved(), 0);
    assert_eq!(ledger.summary().retired(), 0);
    assert_eq!(ledger.summary().fresh(), 0);
}

#[test]
fn initial_node_alias_is_atomic_and_a_clean_retry_succeeds() {
    let clean = initial_index();
    let authored = clean.nodes_in_authored_order();
    let source = authored[0].1;
    let target = authored[1].0.clone();
    let aliased = replace_node(&clean, &target, source);
    let mut ledger = IdentityLedgerV1::new();

    expect_mismatch(
        ledger.verify_initial_aliases(&aliased),
        FingerprintLocationV1::Node(target),
        FingerprintSummaryV1::LifecycleDistinct,
        FingerprintSummaryV1::LifecycleAliased,
    );
    assert_eq!(ledger.summary(), IdentitySummaryV1::new());

    assert!(ledger.verify_initial_aliases(&clean).expect("clean retry should verify").is_none());
    assert_eq!(ledger.summary().alias_free_snapshots(), 1);
}

#[test]
fn initial_fragment_alias_is_atomic_and_a_clean_retry_succeeds() {
    let clean = initial_index();
    let authored = clean.fragments_in_authored_order();
    let source = authored[0].1;
    let target = authored[1].0.clone();
    let aliased = replace_fragment(&clean, &target, source);
    let mut ledger = IdentityLedgerV1::new();

    expect_mismatch(
        ledger.verify_initial_aliases(&aliased),
        FingerprintLocationV1::Fragment(target),
        FingerprintSummaryV1::LifecycleDistinct,
        FingerprintSummaryV1::LifecycleAliased,
    );
    assert_eq!(ledger.summary(), IdentitySummaryV1::new());

    assert!(ledger.verify_initial_aliases(&clean).expect("clean retry should verify").is_none());
    assert_eq!(ledger.summary().alias_free_snapshots(), 1);
}

#[test]
fn node_alias_reports_the_second_authored_path() {
    let before = initial_index();
    let authored = before.nodes_in_authored_order();
    let first = authored[0].1;
    let second_path = authored[1].0.clone();
    let after = replace_node(&before, &second_path, first);

    expect_mismatch(
        IdentityLedgerV1::new().verify_transition(&before, &tokens(false, false), &after, &tokens(false, false), &live(&before)),
        FingerprintLocationV1::Node(second_path),
        FingerprintSummaryV1::LifecycleDistinct,
        FingerprintSummaryV1::LifecycleAliased,
    );
}

#[test]
fn fragment_alias_reports_the_second_authored_path() {
    let before = initial_index();
    let authored = before.fragments_in_authored_order();
    let first = authored[0].1;
    let second_path = authored[1].0.clone();
    let after = replace_fragment(&before, &second_path, first);

    expect_mismatch(
        IdentityLedgerV1::new().verify_transition(&before, &tokens(false, false), &after, &tokens(false, false), &live(&before)),
        FingerprintLocationV1::Fragment(second_path),
        FingerprintSummaryV1::LifecycleDistinct,
        FingerprintSummaryV1::LifecycleAliased,
    );
}

#[test]
fn preserved_node_with_a_new_handle_reports_fresh() {
    let before = initial_index();
    let foreign = foreign_index();
    let path = NodePathV1::root();
    let replacement = foreign.node(&path).expect("foreign root should exist");
    let after = replace_node(&before, &path, replacement);

    expect_mismatch(
        IdentityLedgerV1::new().verify_transition(&before, &tokens(false, false), &after, &tokens(false, false), &live(&before)),
        FingerprintLocationV1::Node(path),
        FingerprintSummaryV1::LifecyclePreserved,
        FingerprintSummaryV1::LifecycleFresh,
    );
}

#[test]
fn preserved_fragment_with_a_new_handle_reports_fresh() {
    let before = initial_index();
    let foreign = foreign_index();
    let path = primary_fragment();
    let replacement = foreign.fragment(&path).expect("foreign primary fragment should exist");
    let after = replace_fragment(&before, &path, replacement);

    expect_mismatch(
        IdentityLedgerV1::new().verify_transition(&before, &tokens(false, false), &after, &tokens(false, false), &live(&before)),
        FingerprintLocationV1::Fragment(path),
        FingerprintSummaryV1::LifecyclePreserved,
        FingerprintSummaryV1::LifecycleFresh,
    );
}

#[test]
fn live_retired_node_reports_preserved() {
    let before = initial_index();
    let after = after_removal();

    expect_mismatch(
        IdentityLedgerV1::new().verify_transition(&before, &tokens(false, false), &after, &tokens(true, false), &live(&before)),
        FingerprintLocationV1::Node(retired_member()),
        FingerprintSummaryV1::LifecycleRetired,
        FingerprintSummaryV1::LifecyclePreserved,
    );
}

#[test]
fn live_retired_fragment_reports_preserved() {
    let before = build_index(Vec::new(), fragment_entries(0));
    let after = build_index(
        Vec::new(),
        fragment_entries(0)
            .into_iter()
            .filter(|(path, _)| !path.same(&retired_nested_fragment()))
            .collect(),
    );

    expect_mismatch(
        IdentityLedgerV1::new().verify_transition(&before, &tokens(false, false), &after, &tokens(true, false), &live(&initial_index())),
        FingerprintLocationV1::Fragment(retired_nested_fragment()),
        FingerprintSummaryV1::LifecycleRetired,
        FingerprintSummaryV1::LifecyclePreserved,
    );
}

#[test]
fn reused_retired_node_reports_preserved_instead_of_fresh() {
    let before = initial_index();
    let after = after_removal();
    let mut ledger = IdentityLedgerV1::new();
    assert!(
        ledger
            .verify_transition(&before, &tokens(false, false), &after, &tokens(true, false), &live(&after))
            .expect("valid retirement should verify")
            .is_none()
    );
    let path = retired_member();
    let old = before.node(&path).expect("retired member should have an old handle");
    let mut reintroduced = build_index(Vec::new(), Vec::new());
    for (node, id) in after.nodes_in_authored_order() {
        assert!(reintroduced.record_node(node.clone(), *id));
    }
    assert!(reintroduced.record_node(path.clone(), old));
    for (fragment, id) in after.fragments_in_authored_order() {
        assert!(reintroduced.record_fragment(fragment.clone(), *id));
    }

    expect_mismatch(
        ledger.verify_transition(&after, &tokens(true, false), &reintroduced, &tokens(true, true), &live(&before)),
        FingerprintLocationV1::Node(path),
        FingerprintSummaryV1::LifecycleFresh,
        FingerprintSummaryV1::LifecyclePreserved,
    );
}

#[test]
fn reused_retired_fragment_reports_preserved_instead_of_fresh() {
    let before = initial_index();
    let after = after_removal();
    let mut ledger = IdentityLedgerV1::new();
    assert!(
        ledger
            .verify_transition(&before, &tokens(false, false), &after, &tokens(true, false), &live(&after))
            .expect("valid retirement should verify")
            .is_none()
    );
    let path = retired_nested_fragment();
    let old = before.fragment(&path).expect("retired fragment should have an old handle");
    let mut reintroduced = build_index(Vec::new(), Vec::new());
    for (node, id) in after.nodes_in_authored_order() {
        assert!(reintroduced.record_node(node.clone(), *id));
    }
    for (fragment, id) in after.fragments_in_authored_order() {
        assert!(reintroduced.record_fragment(fragment.clone(), *id));
    }
    assert!(reintroduced.record_fragment(path.clone(), old));

    expect_mismatch(
        ledger.verify_transition(&after, &tokens(true, false), &reintroduced, &tokens(true, true), &live(&before)),
        FingerprintLocationV1::Fragment(path),
        FingerprintSummaryV1::LifecycleFresh,
        FingerprintSummaryV1::LifecyclePreserved,
    );
}

#[test]
fn node_mismatch_precedes_fragment_mismatch() {
    let before = initial_index();
    let foreign = foreign_index();
    let node_path = NodePathV1::root();
    let fragment_path = primary_fragment();
    let after = replace_node(
        &replace_fragment(
            &before,
            &fragment_path,
            foreign.fragment(&fragment_path).expect("foreign fragment should exist"),
        ),
        &node_path,
        foreign.node(&node_path).expect("foreign root should exist"),
    );

    expect_mismatch(
        IdentityLedgerV1::new().verify_transition(&before, &tokens(false, false), &after, &tokens(false, false), &live(&before)),
        FingerprintLocationV1::Node(node_path),
        FingerprintSummaryV1::LifecyclePreserved,
        FingerprintSummaryV1::LifecycleFresh,
    );
}

#[test]
fn failed_transition_is_atomic_and_the_next_valid_transition_works() {
    let before = initial_index();
    let after = after_removal();
    let foreign = foreign_index();
    let target = after
        .fragments_in_authored_order()
        .last()
        .map(|(path, _)| path.clone())
        .expect("a surviving fragment should exist");
    let replacement = foreign.fragment(&target).expect("matching foreign fragment should exist");
    let faulty_after = replace_fragment(&after, &target, replacement);
    let mut ledger = IdentityLedgerV1::new();
    let summary_before = ledger.summary();

    expect_mismatch(
        ledger.verify_transition(&before, &tokens(false, false), &faulty_after, &tokens(true, false), &live(&after)),
        FingerprintLocationV1::Fragment(target),
        FingerprintSummaryV1::LifecyclePreserved,
        FingerprintSummaryV1::LifecycleFresh,
    );

    assert_eq!(ledger.summary(), summary_before);
    assert!(ledger.retired_node(&retired_member()).is_none());
    assert!(ledger.retired_fragment(&retired_nested_fragment()).is_none());

    let valid = ledger
        .verify_transition(&before, &tokens(false, false), &after, &tokens(true, false), &live(&after))
        .expect("valid transition should remain operational");
    assert!(valid.is_none());
    assert_ne!(ledger.summary(), IdentitySummaryV1::new());
    assert!(ledger.retired_node(&retired_member()).is_some());
    assert!(ledger.retired_fragment(&retired_nested_fragment()).is_some());
}
