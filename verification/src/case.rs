use vstd::prelude::*;

use crate::semantic::{FragmentPathV1, NodePathV1, PathSegmentV1};

verus! {

/// Stable identifier of one generated transaction.
#[derive(Clone, Copy, Debug, PartialEq, Eq, Structural)]
pub struct TransactionIdV1(pub u32);

impl TransactionIdV1 {
    /// Wraps a raw transaction identifier.
    pub fn new(value: u32) -> (id: Self)
        ensures
            id.0 == value,
    {
        TransactionIdV1(value)
    }

    /// Returns the raw identifier.
    pub fn get(self) -> (value: u32)
        ensures
            value == self.0,
    {
        self.0
    }
}

/// Stable identifier of one generated operation.
#[derive(Clone, Copy, Debug, PartialEq, Eq, Structural)]
pub struct OperationIdV1(pub u32);

impl OperationIdV1 {
    /// Wraps a raw operation identifier.
    pub fn new(value: u32) -> (id: Self)
        ensures
            id.0 == value,
    {
        OperationIdV1(value)
    }

    /// Returns the raw identifier.
    pub fn get(self) -> (value: u32)
        ensures
            value == self.0,
    {
        self.0
    }
}

} // verus!

verus! {

/// Schema identifier of one component property.
#[derive(Clone, Copy, Debug, PartialEq, Eq, Structural)]
pub struct PropertyId(pub u32);

impl PropertyId {
    /// Wraps a raw property identifier.
    pub fn new(value: u32) -> (id: Self)
        ensures
            id.0 == value,
    {
        PropertyId(value)
    }
}

/// Local input policy of one node.
#[derive(Clone, Copy, Debug, PartialEq, Eq, Structural)]
pub enum InputPolicy {
    /// The node accepts pointer input.
    Accept,
    /// The node ignores pointer input.
    Ignore,
}

/// One RGBA color, channel by channel.
#[derive(Clone, Copy, Debug, PartialEq, Eq, Structural)]
pub struct Rgba8(pub u8, pub u8, pub u8, pub u8);

/// Typed value of one property slot.
#[derive(Clone, Copy, Debug, PartialEq, Eq, Structural)]
pub enum PropertyValue {
    /// A signed scalar.
    ScalarI32(i32),
    /// A boolean flag.
    Bool(bool),
    /// An RGBA color.
    Rgba8(Rgba8),
    /// An input policy.
    InputPolicy(InputPolicy),
}

/// The type of a property value.
#[derive(Clone, Copy, Debug, PartialEq, Eq, Structural)]
pub enum PropertyValueType {
    ScalarI32,
    Bool,
    Rgba8,
    InputPolicy,
}

/// The type of a value.
pub open spec fn value_type_of(value: PropertyValue) -> PropertyValueType {
    match value {
        PropertyValue::ScalarI32(_) => PropertyValueType::ScalarI32,
        PropertyValue::Bool(_) => PropertyValueType::Bool,
        PropertyValue::Rgba8(_) => PropertyValueType::Rgba8,
        PropertyValue::InputPolicy(_) => PropertyValueType::InputPolicy,
    }
}

impl PropertyValue {
    /// Returns the type of the value.
    pub fn value_type(&self) -> (value_type: PropertyValueType)
        ensures
            value_type == value_type_of(*self),
    {
        match self {
            PropertyValue::ScalarI32(_) => PropertyValueType::ScalarI32,
            PropertyValue::Bool(_) => PropertyValueType::Bool,
            PropertyValue::Rgba8(_) => PropertyValueType::Rgba8,
            PropertyValue::InputPolicy(_) => PropertyValueType::InputPolicy,
        }
    }
}

/// Mathematical form of one semantic operation.
pub enum SemanticOperationView {
    SetProperty { node: Seq<PathSegmentV1>, property: PropertyId, value: PropertyValue },
    InsertKeyed { fragment: (Seq<PathSegmentV1>, u16), key: u64, final_index: u64 },
    MoveKeyed { fragment: (Seq<PathSegmentV1>, u16), key: u64, final_index: u64 },
    UpdateKeyed {
        fragment: (Seq<PathSegmentV1>, u16),
        key: u64,
        property: PropertyId,
        value: PropertyValue,
    },
    RemoveKeyed { fragment: (Seq<PathSegmentV1>, u16), key: u64 },
}

/// One identity-free semantic mutation addressed by semantic paths.
#[derive(Debug)]
pub enum SemanticOperationV1 {
    /// Sets one property of an addressed node.
    SetProperty { node: NodePathV1, property: PropertyId, value: PropertyValue },
    /// Inserts a keyed member at a final index.
    InsertKeyed { fragment: FragmentPathV1, key: u64, final_index: u64 },
    /// Moves a keyed member to a final index.
    MoveKeyed { fragment: FragmentPathV1, key: u64, final_index: u64 },
    /// Updates one property of a keyed member.
    UpdateKeyed { fragment: FragmentPathV1, key: u64, property: PropertyId, value: PropertyValue },
    /// Removes a keyed member.
    RemoveKeyed { fragment: FragmentPathV1, key: u64 },
}

impl View for SemanticOperationV1 {
    type V = SemanticOperationView;

    open spec fn view(&self) -> SemanticOperationView {
        match self {
            SemanticOperationV1::SetProperty { node, property, value } => {
                SemanticOperationView::SetProperty { node: node@, property: *property, value: *value }
            },
            SemanticOperationV1::InsertKeyed { fragment, key, final_index } => {
                SemanticOperationView::InsertKeyed { fragment: fragment@, key: *key, final_index: *final_index }
            },
            SemanticOperationV1::MoveKeyed { fragment, key, final_index } => {
                SemanticOperationView::MoveKeyed { fragment: fragment@, key: *key, final_index: *final_index }
            },
            SemanticOperationV1::UpdateKeyed { fragment, key, property, value } => {
                SemanticOperationView::UpdateKeyed {
                    fragment: fragment@,
                    key: *key,
                    property: *property,
                    value: *value,
                }
            },
            SemanticOperationV1::RemoveKeyed { fragment, key } => {
                SemanticOperationView::RemoveKeyed { fragment: fragment@, key: *key }
            },
        }
    }
}

impl Clone for SemanticOperationV1 {
    fn clone(&self) -> (operation: Self)
        ensures
            operation@ == self@,
    {
        match self {
            SemanticOperationV1::SetProperty { node, property, value } => {
                SemanticOperationV1::SetProperty { node: node.clone(), property: *property, value: *value }
            },
            SemanticOperationV1::InsertKeyed { fragment, key, final_index } => {
                SemanticOperationV1::InsertKeyed {
                    fragment: fragment.clone(),
                    key: *key,
                    final_index: *final_index,
                }
            },
            SemanticOperationV1::MoveKeyed { fragment, key, final_index } => {
                SemanticOperationV1::MoveKeyed {
                    fragment: fragment.clone(),
                    key: *key,
                    final_index: *final_index,
                }
            },
            SemanticOperationV1::UpdateKeyed { fragment, key, property, value } => {
                SemanticOperationV1::UpdateKeyed {
                    fragment: fragment.clone(),
                    key: *key,
                    property: *property,
                    value: *value,
                }
            },
            SemanticOperationV1::RemoveKeyed { fragment, key } => {
                SemanticOperationV1::RemoveKeyed { fragment: fragment.clone(), key: *key }
            },
        }
    }
}

/// One identified semantic operation.
#[derive(Debug)]
pub struct OperationV1 {
    id: OperationIdV1,
    operation: SemanticOperationV1,
}

impl View for OperationV1 {
    type V = (OperationIdV1, SemanticOperationView);

    closed spec fn view(&self) -> (OperationIdV1, SemanticOperationView) {
        (self.id, self.operation@)
    }
}

impl Clone for OperationV1 {
    fn clone(&self) -> (operation: Self)
        ensures
            operation@ == self@,
    {
        OperationV1 { id: self.id, operation: self.operation.clone() }
    }
}

impl OperationV1 {
    /// Pairs an identifier with its semantic operation.
    pub fn new(id: OperationIdV1, operation: SemanticOperationV1) -> (result: Self)
        ensures
            result@ == (id, operation@),
    {
        OperationV1 { id, operation }
    }

    /// Returns the stable operation identifier.
    pub fn id(&self) -> (id: OperationIdV1)
        ensures
            id == self@.0,
    {
        self.id
    }

    /// Returns the semantic operation.
    pub fn operation(&self) -> (operation: &SemanticOperationV1)
        ensures
            operation@ == self@.1,
    {
        &self.operation
    }
}

/// The mathematical form of a transaction: its id and its operations in order.
pub type TransactionView = (TransactionIdV1, Seq<(OperationIdV1, SemanticOperationView)>);

/// One identified, ordered group of operations committed together.
#[derive(Debug)]
pub struct TransactionV1 {
    id: TransactionIdV1,
    operations: Vec<OperationV1>,
}

/// The views of a sequence of operations.
pub open spec fn operations_view(operations: Seq<OperationV1>) -> Seq<(OperationIdV1, SemanticOperationView)> {
    operations.map_values(|operation: OperationV1| operation@)
}

impl View for TransactionV1 {
    type V = TransactionView;

    closed spec fn view(&self) -> TransactionView {
        (self.id, operations_view(self.operations@))
    }
}

/// Copies a slice of operations.
pub fn copy_operations(operations: &[OperationV1]) -> (copy: Vec<OperationV1>)
    ensures
        operations_view(copy@) == operations_view(operations@),
{
    let mut copy: Vec<OperationV1> = Vec::new();
    let mut index: usize = 0;
    while index < operations.len()
        invariant
            index <= operations.len(),
            copy@.len() == index,
            forall|i: int| 0 <= i < index ==> (#[trigger] copy@[i])@ == operations@[i]@,
        decreases operations.len() - index,
    {
        let item = operations[index].clone();
        copy.push(item);
        index = index + 1;
    }
    assert(operations_view(copy@) =~= operations_view(operations@));
    copy
}

impl Clone for TransactionV1 {
    fn clone(&self) -> (transaction: Self)
        ensures
            transaction@ == self@,
    {
        TransactionV1 { id: self.id, operations: copy_operations(self.operations.as_slice()) }
    }
}

impl TransactionV1 {
    /// Creates one transaction.
    pub fn new(id: TransactionIdV1, operations: Vec<OperationV1>) -> (transaction: Self)
        ensures
            transaction@ == (id, operations_view(operations@)),
    {
        TransactionV1 { id, operations }
    }

    /// Returns the transaction identifier.
    pub fn id(&self) -> (id: TransactionIdV1)
        ensures
            id == self@.0,
    {
        self.id
    }

    /// Returns the ordered operations.
    pub fn operations(&self) -> (operations: &[OperationV1])
        ensures
            operations_view(operations@) == self@.1,
            operations@.len() == self@.1.len(),
    {
        self.operations.as_slice()
    }
}

/// The fixture revision that replay supports.
pub const REGISTERED_FIXTURE_REVISION_V1: u32 = 1;

/// Bounds a case generator was configured with.
#[derive(Clone, Copy, Debug, PartialEq, Eq, Structural)]
pub struct GeneratorConfigV1 {
    /// Transactions requested from the generator.
    pub transactions: u32,
    /// Operations requested per transaction.
    pub operations_per_transaction: u32,
    /// Distinct keys the generator may use.
    pub keys: u32,
}

impl GeneratorConfigV1 {
    /// Creates one generator configuration.
    pub fn new(transactions: u32, operations_per_transaction: u32, keys: u32) -> (config: Self)
        ensures
            config == (GeneratorConfigV1 { transactions, operations_per_transaction, keys }),
    {
        GeneratorConfigV1 { transactions, operations_per_transaction, keys }
    }
}

/// Seed a case generator was started from.
#[derive(Clone, Copy, Debug, PartialEq, Eq, Structural)]
pub struct SeedV1(pub u64);

impl SeedV1 {
    /// Wraps a raw seed.
    pub fn new(value: u64) -> (seed: Self)
        ensures
            seed.0 == value,
    {
        SeedV1(value)
    }
}

/// The mathematical form of a case.
pub struct CaseView {
    pub fixture_revision: u32,
    pub config: GeneratorConfigV1,
    pub seed: SeedV1,
    pub transactions: Seq<TransactionView>,
}

/// One exact generated case: fixture revision, generator provenance and transactions.
#[derive(Debug)]
pub struct GeneratedCaseV1 {
    fixture_revision: u32,
    config: GeneratorConfigV1,
    seed: SeedV1,
    transactions: Vec<TransactionV1>,
}

/// The views of a sequence of transactions.
pub open spec fn transactions_view(transactions: Seq<TransactionV1>) -> Seq<TransactionView> {
    transactions.map_values(|transaction: TransactionV1| transaction@)
}

/// Total number of operations over a sequence of transactions.
pub open spec fn total_operations(transactions: Seq<TransactionView>) -> nat
    decreases transactions.len(),
{
    if transactions.len() == 0 {
        0
    } else {
        total_operations(transactions.drop_last()) + transactions.last().1.len()
    }
}

/// Copies a slice of transactions.
pub fn copy_transactions(transactions: &[TransactionV1]) -> (copy: Vec<TransactionV1>)
    ensures
        transactions_view(copy@) == transactions_view(transactions@),
{
    let mut copy: Vec<TransactionV1> = Vec::new();
    let mut index: usize = 0;
    while index < transactions.len()
        invariant
            index <= transactions.len(),
            copy@.len() == index,
            forall|i: int| 0 <= i < index ==> (#[trigger] copy@[i])@ == transactions@[i]@,
        decreases transactions.len() - index,
    {
        let item = transactions[index].clone();
        copy.push(item);
        index = index + 1;
    }
    assert(transactions_view(copy@) =~= transactions_view(transactions@));
    copy
}

impl View for GeneratedCaseV1 {
    type V = CaseView;

    closed spec fn view(&self) -> CaseView {
        CaseView {
            fixture_revision: self.fixture_revision,
            config: self.config,
            seed: self.seed,
            transactions: transactions_view(self.transactions@),
        }
    }
}

impl Clone for GeneratedCaseV1 {
    fn clone(&self) -> (case: Self)
        ensures
            case@ == self@,
    {
        GeneratedCaseV1 {
            fixture_revision: self.fixture_revision,
            config: self.config,
            seed: self.seed,
            transactions: copy_transactions(self.transactions.as_slice()),
        }
    }
}

impl GeneratedCaseV1 {
    /// Creates one exact case.
    pub fn new(
        fixture_revision: u32,
        config: GeneratorConfigV1,
        seed: SeedV1,
        transactions: Vec<TransactionV1>,
    ) -> (case: Self)
        ensures
            case@ == (CaseView {
                fixture_revision,
                config,
                seed,
                transactions: transactions_view(transactions@),
            }),
    {
        GeneratedCaseV1 { fixture_revision, config, seed, transactions }
    }

    /// Returns the fixture revision the case was generated for.
    pub fn fixture_revision(&self) -> (revision: u32)
        ensures
            revision == self@.fixture_revision,
    {
        self.fixture_revision
    }

    /// Returns the generator configuration.
    pub fn config(&self) -> (config: GeneratorConfigV1)
        ensures
            config == self@.config,
    {
        self.config
    }

    /// Returns the generator seed.
    pub fn seed(&self) -> (seed: SeedV1)
        ensures
            seed == self@.seed,
    {
        self.seed
    }

    /// Returns the transactions in replay order.
    pub fn transactions(&self) -> (transactions: &[TransactionV1])
        ensures
            transactions_view(transactions@) == self@.transactions,
            transactions@.len() == self@.transactions.len(),
    {
        self.transactions.as_slice()
    }
}

} // verus!
