use dreamwake_client::ids::{EntityId, ScopeIdentity, StateReceipt};
use dreamwake_client::receipts::{ReceiptBatcher, DECODED_RECEIPTS_PER_CONTROL};

fn receipt(index: u64, scope: u64) -> StateReceipt {
    StateReceipt {
        scope: ScopeIdentity {
            connection: 1,
            entity: EntityId { index: 100 + (index % 35), generation: 1 },
            scope,
            representation: scope,
        },
        baseline_generation: 1,
        snapshot: index + 1,
        version: index + 1,
    }
}

#[test]
fn seventy_receipts_batch_exactly_in_order_across_scope_reentry() {
    let mut batcher = ReceiptBatcher::new();
    let mut expected = Vec::new();
    let mut batches = Vec::new();
    for index in 0..70u64 {
        let r = receipt(index, if index >= 35 { 2 } else { 1 });
        expected.push(r);
        if let Some(batch) = batcher.queue(r) {
            batches.push(batch);
        }
    }
    assert_eq!(batches.len(), 8);
    batches.push(batcher.take().unwrap());
    assert!(batcher.take().is_none());
    for (index, batch) in batches.iter().enumerate() {
        assert_eq!(batch.len(), if index < 8 { DECODED_RECEIPTS_PER_CONTROL } else { 6 });
    }
    let decoded: Vec<StateReceipt> = batches.into_iter().flatten().collect();
    assert_eq!(decoded, expected);
}

#[test]
fn a_new_batcher_holds_nothing() {
    let mut batcher: ReceiptBatcher<u64> = ReceiptBatcher::new();
    assert_eq!(batcher.len(), 0);
    assert!(batcher.take().is_none());
    assert!(batcher.queue(1).is_none());
    assert_eq!(batcher.len(), 1);
    assert_eq!(batcher.take(), Some(vec![1]));
}

#[test]
fn receive_pass_hands_out_every_decoded_receipt_in_batches_of_eight() {
    let mut batcher = ReceiptBatcher::new();
    let earlier = receipt(0, 1);
    assert!(batcher.queue(earlier).is_none());
    let decoded: Vec<StateReceipt> = (1..70u64).map(|index| receipt(index, 1)).collect();
    let batches = batcher.receive_pass(&decoded);
    assert!(batcher.take().is_none());
    assert_eq!(batches.len(), 9);
    for (index, batch) in batches.iter().enumerate() {
        assert_eq!(batch.len(), if index < 8 { DECODED_RECEIPTS_PER_CONTROL } else { 6 });
    }
    let mut expected = vec![earlier];
    expected.extend(decoded);
    let handed: Vec<StateReceipt> = batches.into_iter().flatten().collect();
    assert_eq!(handed, expected);
    assert!(batcher.receive_pass(&Vec::new()).is_empty());
}
