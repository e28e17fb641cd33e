use servus::Tick;

#[test]
fn a_new_tick_starts_at_zero() {
    assert_eq!(Tick::default().number(), 0);
}

#[test]
fn advance_increments_the_tick() {
    let mut tick = Tick::default();
    tick.advance();
    assert_eq!(tick.number(), 1);
}
