use tec_controller::channel::{BoundedChannel, LatestCell};

#[test]
fn latest_cell_send_never_blocks_and_newest_wins() {
    // Sending a second value before the first is consumed must not block the
    // producer, and the newer value is what the next receive observes.
    let mut cell: LatestCell<u32> = LatestCell::new();
    cell.send(1);
    cell.send(2);
    assert_eq!(cell.recv(), Some(2));
    assert_eq!(cell.recv(), None);
}

#[test]
fn latest_cell_starts_empty() {
    let mut cell: LatestCell<u32> = LatestCell::new();
    assert_eq!(cell.recv(), None);
}

#[test]
fn bounded_channel_is_fifo() {
    let mut ch: BoundedChannel<u8> = BoundedChannel::new(4);
    assert!(ch.try_send(1).is_ok());
    assert!(ch.try_send(2).is_ok());
    assert_eq!(ch.try_recv(), Some(1));
    assert_eq!(ch.try_recv(), Some(2));
    assert_eq!(ch.try_recv(), None);
}

#[test]
fn bounded_channel_refuses_when_full() {
    let mut ch: BoundedChannel<u8> = BoundedChannel::new(1);
    assert!(ch.try_send(7).is_ok());
    assert_eq!(ch.try_send(8), Err(8));
    assert_eq!(ch.try_recv(), Some(7));
    assert!(ch.try_send(9).is_ok());
}
