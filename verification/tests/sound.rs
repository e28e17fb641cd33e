use servus::{SAMPLE_RATE, samples_for};

#[test]
fn sample_counts_follow_the_sample_rate() {
    assert_eq!(SAMPLE_RATE, 44_100);
    assert_eq!(samples_for(1_000), 44_100);
    assert_eq!(samples_for(45), 1_984);
    assert_eq!(samples_for(0), 0);
}
