use pangea_kernel::task::timer::{get_ticks, sleep, tick, Timer};

#[test]
fn ticks_count_up() {
    let mut t = Timer::new();
    assert_eq!(get_ticks(&t), 0);
    assert!(tick(&mut t).is_empty());
    assert!(tick(&mut t).is_empty());
    assert_eq!(get_ticks(&t), 2);
}

#[test]
fn sleeper_is_woken_at_its_tick() {
    let mut t = Timer::new();
    let s = sleep(&t, 3);
    assert_eq!(s.target_tick, 3);
    assert!(!s.poll(&mut t, 7));
    assert!(tick(&mut t).is_empty());
    assert!(tick(&mut t).is_empty());
    assert_eq!(tick(&mut t), vec![7]);
    assert!(tick(&mut t).is_empty());
    assert!(s.poll(&mut t, 7));
}

#[test]
fn wakers_come_in_tick_then_registration_order() {
    let mut t = Timer::new();
    let a = sleep(&t, 1);
    let b = sleep(&t, 1);
    let c = sleep(&t, 2);
    assert!(!c.poll(&mut t, 30));
    assert!(!a.poll(&mut t, 10));
    assert!(!b.poll(&mut t, 20));
    assert_eq!(tick(&mut t), vec![10, 20]);
    assert_eq!(tick(&mut t), vec![30]);
}

#[test]
fn zero_sleep_is_ready_at_once() {
    let mut t = Timer::new();
    tick(&mut t);
    let s = sleep(&t, 0);
    assert_eq!(s.target_tick, 1);
    assert!(s.poll(&mut t, 1));
    assert!(tick(&mut t).is_empty());
}
