use block_stage::block_consumer::{Mixin, RecordError};
use block_stage::ordering_log::OrderingLog;

fn mixin_of(byte: u8) -> Mixin {
    Mixin { bytes: [byte; 32] }
}

#[test]
fn fresh_log_takes_nothing_until_restarted() {
    let mut log = OrderingLog::new();
    assert_eq!(log.admits(0), Err(RecordError::SlotClosed));
    assert_eq!(log.submit(0, &vec![mixin_of(1)]), Err(RecordError::SlotClosed));
    assert!(log.recorded().is_empty());
    log.restart(0);
    assert_eq!(log.admits(0), Ok(()));
    assert_eq!(log.submit(0, &vec![mixin_of(1)]), Ok(()));
    assert_eq!(log.recorded(), &vec![(0, mixin_of(1))]);
}

#[test]
fn submissions_are_recorded_in_submission_order() {
    let mut log = OrderingLog::new();
    log.restart(7);
    assert_eq!(log.submit(7, &vec![mixin_of(1), mixin_of(2)]), Ok(()));
    assert_eq!(log.submit(7, &vec![]), Ok(()));
    assert_eq!(log.submit(7, &vec![mixin_of(3)]), Ok(()));
    assert_eq!(
        log.recorded(),
        &vec![(7, mixin_of(1)), (7, mixin_of(2)), (7, mixin_of(3))]
    );
}

#[test]
fn submission_for_another_slot_is_refused_and_changes_nothing() {
    let mut log = OrderingLog::new();
    log.restart(7);
    assert_eq!(log.submit(7, &vec![mixin_of(1)]), Ok(()));
    log.restart(8);
    assert_eq!(log.admits(7), Err(RecordError::SlotClosed));
    assert_eq!(log.submit(7, &vec![mixin_of(2)]), Err(RecordError::SlotClosed));
    assert_eq!(log.submit(9, &vec![mixin_of(3)]), Err(RecordError::SlotClosed));
    assert_eq!(log.recorded(), &vec![(7, mixin_of(1))]);
    assert_eq!(log.submit(8, &vec![mixin_of(4)]), Ok(()));
    assert_eq!(log.recorded(), &vec![(7, mixin_of(1)), (8, mixin_of(4))]);
}
