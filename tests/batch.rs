use rs_contracts::batch::BatchForward;

#[test]
fn batch_goes_out_once_past_its_size() {
    let mut f: BatchForward<u32> = BatchForward::new(2, 100);
    assert_eq!(f.wait_for(0), None);
    assert_eq!(f.on_request(1, 10), None);
    assert_eq!(f.wait_for(50), Some(60));
    assert_eq!(f.on_request(2, 20), None);
    assert_eq!(f.on_request(3, 30), Some(vec![1, 2, 3]));
    assert_eq!(f.wait_for(40), None);
}

#[test]
fn batch_goes_out_at_its_deadline() {
    let mut f: BatchForward<u32> = BatchForward::new(10, 100);
    f.on_request(7, 1000);
    assert_eq!(f.on_timeout(1099), None);
    assert_eq!(f.wait_for(1200), Some(0));
    assert_eq!(f.on_timeout(1100), Some(vec![7]));
    assert_eq!(f.on_timeout(5000), None);
}

#[test]
fn deadline_saturates() {
    let mut f: BatchForward<u8> = BatchForward::new(10, u64::MAX);
    f.on_request(1, 5);
    assert_eq!(f.deadline, u64::MAX);
}
