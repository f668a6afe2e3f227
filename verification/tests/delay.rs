use esp32_xvc::delay::{CooperativeDelay, DelayStep};

fn waits(us: u32) -> (Vec<u32>, bool) {
    let mut delay = CooperativeDelay::new(us);
    let mut waits = Vec::new();
    let mut yielded = false;
    loop {
        match delay.step() {
            DelayStep::Wait { us, yields } => {
                waits.push(us);
                yielded = yielded || yields;
            }
            DelayStep::Over => return (waits, yielded),
        }
    }
}

#[test]
fn no_delay_waits_for_nothing() {
    assert_eq!(waits(0), (vec![], false));
}

#[test]
fn short_delays_are_one_wait() {
    assert_eq!(waits(1), (vec![1], false));
    assert_eq!(waits(1_999), (vec![1_999], false));
}

#[test]
fn long_delays_are_cut_into_chunks() {
    assert_eq!(waits(2_000), (vec![250; 8], true));
    let (chunks, yielded) = waits(2_101);
    assert_eq!(chunks.iter().sum::<u32>(), 2_101);
    assert_eq!(chunks.last(), Some(&101));
    assert_eq!(chunks.len(), 9);
    assert!(yielded);
}
