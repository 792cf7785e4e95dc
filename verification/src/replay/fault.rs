use vstd::prelude::*;

use crate::case::{
    GeneratedCaseV1, OperationIdV1, OperationV1, SemanticOperationV1, SemanticOperationView,
    TransactionIdV1, TransactionView,
};
use crate::error::{HarnessError, HarnessErrorKind};
use crate::trace::TraceFaultV1;

verus! {

/// One operation of a case with the transaction it belongs to.
pub type LocatedOperation = (TransactionIdV1, OperationIdV1, SemanticOperationView);

/// The operations of a transaction, each with the transaction's identifier.
pub open spec fn locate(transaction: TransactionView) -> Seq<LocatedOperation> {
    transaction.1.map_values(
        |operation: (OperationIdV1, SemanticOperationView)|
            (transaction.0, operation.0, operation.1),
    )
}

/// Every operation of a case in replay order, with its transaction.
pub open spec fn located_operations(transactions: Seq<TransactionView>) -> Seq<LocatedOperation>
    decreases transactions.len(),
{
    if transactions.len() == 0 {
        Seq::empty()
    } else {
        located_operations(transactions.drop_last()) + locate(transactions.last())
    }
}

/// Where a scan for a fault's target operation stands.
pub enum FaultScan {
    /// The target has not been seen.
    Missing,
    /// The target was seen once, as a keyed move.
    Found(TransactionIdV1, OperationIdV1),
    /// The target was seen again, or not as a keyed move, at this location.
    Invalid(TransactionIdV1, OperationIdV1),
}

/// Scans operations in order for a fault's target: it must occur exactly
/// once, and as a keyed move; the first violation is kept.
pub open spec fn fault_scan(operations: Seq<LocatedOperation>, target: OperationIdV1) -> FaultScan
    decreases operations.len(),
{
    if operations.len() == 0 {
        FaultScan::Missing
    } else {
        let prior = fault_scan(operations.drop_last(), target);
        let (transaction, operation, semantic) = operations.last();
        match prior {
            FaultScan::Invalid(..) => prior,
            _ => if operation != target {
                prior
            } else if prior is Found || !(semantic is MoveKeyed) {
                FaultScan::Invalid(transaction, operation)
            } else {
                FaultScan::Found(transaction, operation)
            },
        }
    }
}

proof fn lemma_scan_invalid_persists(
    prefix: Seq<LocatedOperation>,
    operations: Seq<LocatedOperation>,
    target: OperationIdV1,
)
    requires
        prefix.len() <= operations.len(),
        operations.take(prefix.len() as int) == prefix,
        fault_scan(prefix, target) is Invalid,
    ensures
        fault_scan(operations, target) == fault_scan(prefix, target),
    decreases operations.len(),
{
    if operations.len() == prefix.len() {
        assert(operations =~= prefix);
    } else {
        assert(operations.drop_last().take(prefix.len() as int) =~= prefix);
        lemma_scan_invalid_persists(prefix, operations.drop_last(), target);
    }
}

proof fn lemma_located_prefix(transactions: Seq<TransactionView>, count: int)
    requires
        0 <= count <= transactions.len(),
    ensures
        located_operations(transactions.take(count)).len() <= located_operations(transactions).len(),
        located_operations(transactions).take(
            located_operations(transactions.take(count)).len() as int,
        ) == located_operations(transactions.take(count)),
    decreases transactions.len(),
{
    if count == transactions.len() {
        assert(transactions.take(count) =~= transactions);
        assert(located_operations(transactions).take(located_operations(transactions).len() as int)
            =~= located_operations(transactions));
    } else {
        assert(transactions.drop_last().take(count) =~= transactions.take(count));
        lemma_located_prefix(transactions.drop_last(), count);
        let shorter = located_operations(transactions.drop_last());
        let whole = located_operations(transactions);
        let part = located_operations(transactions.take(count));
        assert(whole == shorter + locate(transactions.last()));
        assert(whole.take(part.len() as int) =~= shorter.take(part.len() as int));
    }
}

/// A validated test-only candidate fault: the keyed move it omits, if any.
#[derive(Clone, Copy, Debug)]
pub struct FaultAdapterV1 {
    fault: Option<TraceFaultV1>,
}

impl FaultAdapterV1 {
    /// The fault the adapter applies.
    pub closed spec fn spec_fault(self) -> Option<TraceFaultV1> {
        self.fault
    }

    /// Accepts no fault, or a fault whose target is exactly one keyed move of
    /// the case.
    pub fn validate(case: &GeneratedCaseV1, fault: Option<TraceFaultV1>) -> (result: Result<
        Self,
        HarnessError,
    >)
        ensures
            match fault {
                None => result is Ok && result->Ok_0.spec_fault() is None,
                Some(fault) => match fault_scan(
                    located_operations(case@.transactions),
                    fault.spec_target(),
                ) {
                    FaultScan::Missing => result is Err && result->Err_0.is_unlocated(
                        HarnessErrorKind::InvalidOperation,
                    ),
                    FaultScan::Invalid(transaction, operation) => result is Err
                        && result->Err_0.is_at_operation(
                        HarnessErrorKind::InvalidOperation,
                        transaction,
                        operation,
                    ),
                    FaultScan::Found(..) => result is Ok && result->Ok_0.spec_fault() == Some(
                        fault,
                    ),
                },
            },
    {
        let active = match fault {
            Some(active) => active,
            None => return Ok(FaultAdapterV1 { fault: None }),
        };
        let target = active.target();
        let transactions = case.transactions();
        let ghost views = case@.transactions;
        let mut found = false;
        let mut t: usize = 0;
        proof {
            assert(views.take(0) =~= Seq::<TransactionView>::empty());
        }
        while t < transactions.len()
            invariant
                t <= transactions@.len(),
                views == case@.transactions,
                views.len() == transactions@.len(),
                forall|i: int| 0 <= i < transactions@.len() ==> #[trigger] views[i] == transactions@[i]@,
                target == active.spec_target(),
                fault == Some(active),
                found == (fault_scan(located_operations(views.take(t as int)), target) is Found),
                fault_scan(located_operations(views.take(t as int)), target) is Missing || fault_scan(
                    located_operations(views.take(t as int)),
                    target,
                ) is Found,
            decreases transactions@.len() - t,
        {
            let transaction = &transactions[t];
            let operations = transaction.operations();
            let ghost prefix = located_operations(views.take(t as int));
            let ghost ops = views[t as int].1;
            proof {
                assert(views[t as int] == transaction@);
                assert(views.take(t as int + 1).drop_last() =~= views.take(t as int));
                assert(located_operations(views.take(t as int + 1)) == prefix + locate(views[t as int]));
                assert(prefix + locate(views[t as int]).take(0) =~= prefix);
            }
            let mut o: usize = 0;
            while o < operations.len()
                invariant
                    o <= operations@.len(),
                    t < views.len(),
                    ops == views[t as int].1,
                    ops.len() == operations@.len(),
                    forall|i: int| 0 <= i < operations@.len() ==> #[trigger] ops[i] == operations@[i]@,
                    transaction@ == views[t as int],
                    target == active.spec_target(),
                fault == Some(active),
                    views == case@.transactions,
                    t < views.len(),
                    prefix == located_operations(views.take(t as int)),
                    located_operations(views.take(t as int + 1)) == prefix + locate(views[t as int]),
                    found == (fault_scan(prefix + locate(views[t as int]).take(o as int), target) is Found),
                    fault_scan(prefix + locate(views[t as int]).take(o as int), target) is Missing
                        || fault_scan(prefix + locate(views[t as int]).take(o as int), target) is Found,
                decreases operations@.len() - o,
            {
                let operation = &operations[o];
                let ghost before = prefix + locate(views[t as int]).take(o as int);
                let ghost item = (views[t as int].0, ops[o as int].0, ops[o as int].1);
                proof {
                    assert(ops[o as int] == operation@);
                    assert(locate(views[t as int])[o as int] == item);
                    assert(prefix + locate(views[t as int]).take(o as int + 1) =~= before.push(item));
                    assert(before.push(item).drop_last() =~= before);
                }
                if operation.id() == target {
                    let is_move = match operation.operation() {
                        SemanticOperationV1::MoveKeyed { .. } => true,
                        _ => false,
                    };
                    if found || !is_move {
                        proof {
                            let whole = located_operations(views);
                            let part = before.push(item);
                            let step = located_operations(views.take(t as int + 1));
                            assert(part.drop_last() =~= before);
                            assert(part.last() == item);
                            assert(found || !(ops[o as int].1 is MoveKeyed));
                            assert(fault_scan(part, target) == FaultScan::Invalid(
                                views[t as int].0,
                                ops[o as int].0,
                            ));
                            assert(step.take(part.len() as int) =~= part);
                            lemma_located_prefix(views, t as int + 1);
                            assert(whole.take(part.len() as int) =~= part);
                            lemma_scan_invalid_persists(part, whole, target);
                        }
                        return Err(
                            HarnessError::new(HarnessErrorKind::InvalidOperation).at_operation(
                                transaction.id(),
                                operation.id(),
                            ),
                        );
                    }
                    found = true;
                }
                o = o + 1;
            }
            proof {
                assert(locate(views[t as int]).take(o as int) =~= locate(views[t as int]));
            }
            t = t + 1;
        }
        proof {
            assert(views.take(t as int) =~= views);
        }
        if !found {
            return Err(HarnessError::new(HarnessErrorKind::InvalidOperation));
        }
        Ok(FaultAdapterV1 { fault: Some(active) })
    }

    /// Whether the adapter omits an operation from the runtime candidate.
    pub fn omits(&self, operation: &OperationV1) -> (omitted: bool)
        ensures
            omitted == (self.spec_fault() is Some && self.spec_fault()->Some_0.spec_target()
                == operation@.0),
    {
        match self.fault {
            Some(fault) => fault.target() == operation.id(),
            None => false,
        }
    }
}

} // verus!
