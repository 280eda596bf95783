use bareeye::camera::pwm::{
    TrackingPwm, TRACKING_PWM_ON_TIME, TRACKING_PWM_PERIOD, TRACKING_PWM_WATCHDOG,
};

const MILLISECOND: u128 = 1_000_000;

#[test]
fn a_command_is_driven_for_a_part_of_each_period() {
    let mut pwm = TrackingPwm::new(0);
    assert_eq!(pwm.next_output(0), None);
    pwm.set_command(5, -9, 0);
    assert_eq!(pwm.next_output(0), Some((1, -1)));
    assert_eq!(pwm.next_output(TRACKING_PWM_ON_TIME - 1), None);
    assert_eq!(pwm.next_output(TRACKING_PWM_ON_TIME), Some((0, 0)));
    assert_eq!(pwm.next_output(TRACKING_PWM_PERIOD - 1), None);
    assert_eq!(pwm.next_output(TRACKING_PWM_PERIOD), Some((1, -1)));
}

#[test]
fn a_command_that_is_not_refreshed_dies() {
    let mut pwm = TrackingPwm::new(0);
    pwm.set_command(1, 0, 0);
    assert_eq!(pwm.next_output(TRACKING_PWM_WATCHDOG - 1), Some((1, 0)));
    assert_eq!(pwm.next_output(TRACKING_PWM_WATCHDOG), Some((0, 0)));
    assert_eq!(pwm.next_output(TRACKING_PWM_WATCHDOG + 1), None);
}

#[test]
fn refreshing_keeps_the_period() {
    let mut pwm = TrackingPwm::new(0);
    pwm.set_command(1, 0, 0);
    assert_eq!(pwm.next_output(0), Some((1, 0)));
    pwm.set_command(7, 0, 150 * MILLISECOND);
    assert_eq!(pwm.next_output(200 * MILLISECOND), Some((0, 0)));
}

#[test]
fn another_command_begins_another_period() {
    let mut pwm = TrackingPwm::new(0);
    pwm.set_command(1, 0, 0);
    assert_eq!(pwm.next_output(0), Some((1, 0)));
    pwm.set_command(-1, 0, 150 * MILLISECOND);
    assert_eq!(pwm.next_output(250 * MILLISECOND), Some((-1, 0)));
}

#[test]
fn a_cleared_command_stops_the_camera() {
    let mut pwm = TrackingPwm::new(0);
    pwm.set_command(1, 1, 0);
    assert_eq!(pwm.next_output(1), Some((1, 1)));
    pwm.clear(2);
    assert_eq!(pwm.next_output(3), Some((0, 0)));
    assert_eq!(pwm.next_output(4), None);
}
