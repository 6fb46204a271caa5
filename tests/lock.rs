use smp_boot::synch::LockFlag;

#[test]
fn flag_excludes_a_second_holder() {
    let f = LockFlag::new();
    assert!(f.try_acquire());
    assert!(!f.try_acquire());
    assert!(!f.try_acquire());
    f.release();
    assert!(f.try_acquire());
}

#[test]
fn eight_increments_under_the_flag() {
    let f = LockFlag::new();
    let mut counter: u64 = 5;
    let mut attempts = 0;
    for _ in 0..8 {
        loop {
            attempts += 1;
            if f.try_acquire() {
                break;
            }
        }
        counter += 1;
        f.release();
    }
    assert_eq!(counter, 13);
    assert_eq!(attempts, 8);
}
