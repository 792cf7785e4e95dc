use fenestra_ui_testkit::case::{PropertyId, PropertyValue, SemanticOperationV1};
use fenestra_ui_testkit::headless::platform::HeadlessPointerTargetV1;
use fenestra_ui_testkit::headless::runner::{
    container_path, control_path, item_path, items_path, operation_trace, root_path,
};
use fenestra_ui_testkit::headless::trace::HeadlessInputKindV1;
use fenestra_ui_testkit::semantic::{NodePathV1, PathSegmentV1};

#[test]
fn spine_paths_address_the_fixture() {
    assert!(root_path().segments().is_empty());
    assert_eq!(container_path().segments(), &[PathSegmentV1::Static { authored_slot: 0 }]);
    assert_eq!(
        control_path().segments(),
        &[PathSegmentV1::Static { authored_slot: 0 }, PathSegmentV1::Static { authored_slot: 0 }]
    );
    assert_eq!(
        item_path(30).segments(),
        &[
            PathSegmentV1::Static { authored_slot: 0 },
            PathSegmentV1::Member { region_slot: 1, key: 30 }
        ]
    );
    assert_eq!(items_path().owner(), &container_path());
    assert_eq!(items_path().region_slot(), 1);
}

#[test]
fn operations_record_their_input_kind_and_target() {
    let color = PropertyValue::ScalarI32(1);
    let control = SemanticOperationV1::SetProperty { node: control_path(), property: PropertyId(2), value: color };
    assert_eq!(operation_trace(&control), (HeadlessInputKindV1::Direct, HeadlessPointerTargetV1::StaticControl));
    let root = SemanticOperationV1::SetProperty { node: NodePathV1::root(), property: PropertyId(0), value: color };
    assert_eq!(operation_trace(&root), (HeadlessInputKindV1::Direct, HeadlessPointerTargetV1::Absent));
    let insert = SemanticOperationV1::InsertKeyed { fragment: items_path(), key: 30, final_index: 1 };
    assert_eq!(operation_trace(&insert), (HeadlessInputKindV1::Insert, HeadlessPointerTargetV1::Key(30)));
    let moved = SemanticOperationV1::MoveKeyed { fragment: items_path(), key: 30, final_index: 2 };
    assert_eq!(operation_trace(&moved), (HeadlessInputKindV1::Move, HeadlessPointerTargetV1::Key(30)));
    let update = SemanticOperationV1::UpdateKeyed {
        fragment: items_path(),
        key: 30,
        property: PropertyId(1),
        value: PropertyValue::ScalarI32(14),
    };
    assert_eq!(operation_trace(&update), (HeadlessInputKindV1::Update, HeadlessPointerTargetV1::Key(30)));
    let remove = SemanticOperationV1::RemoveKeyed { fragment: items_path(), key: 20 };
    assert_eq!(operation_trace(&remove), (HeadlessInputKindV1::Remove, HeadlessPointerTargetV1::Key(20)));
}
