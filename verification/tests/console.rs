use bareeye::arithmetic::Operation;
use bareeye::camera::console::{
    center_waits, parse_line, set_axis, set_zoom_default, AxisWait, ConsoleCommand, Progress, Request,
};
use bareeye::camera::controls::{Axis, ControlCapabilities, ControlRange, Controls};
use bareeye::camera::probe::{find_eagleeye, is_eagleeye_candidate, Device};
use bareeye::camera::worker::MOVE_TIMEOUT;
use bareeye::scalar::Scalar;
use bareeye::startup::{choose_startup, Startup};
use bareeye::text::split_words;
use std::time::Duration;

fn unit(operation: Operation) -> Scalar {
    let f = |number: Scalar| f32::from_bits(number.bits);
    let result: f32 = match operation {
        Operation::Sum(a, b) => f(a) + f(b),
        Operation::Difference(a, b) => f(a) - f(b),
        Operation::Product(a, b) => f(a) * f(b),
        Operation::Quotient(a, b) => f(a) / f(b),
        Operation::Hypotenuse(a, b) => f(a).hypot(f(b)),
        Operation::FusedProduct(a, b, c) => f(a).mul_add(f(b), f(c)),
        Operation::SquareRoot(a) => f(a).sqrt(),
        Operation::Rounded(a) => f(a).round(),
        Operation::Tangent(a) => f(a).tan(),
        Operation::ArcTangent(a) => f(a).atan(),
        Operation::Radians(a) => f(a).to_radians(),
        Operation::Degrees(a) => f(a).to_degrees(),
        Operation::Count(n) => n as f32,
        Operation::Seconds(nanos) => {
            Duration::new((nanos / 1_000_000_000) as u64, (nanos % 1_000_000_000) as u32).as_secs_f32()
        }
    };
    Scalar { bits: result.to_bits() }
}

fn s(number: f32) -> Scalar {
    Scalar { bits: number.to_bits() }
}

fn v(number: Scalar) -> f32 {
    f32::from_bits(number.bits)
}

fn range(min: f32, max: f32, step: f32, default: f32) -> ControlRange {
    ControlRange { min: s(min), max: s(max), step: s(step), default: s(default) }
}

fn capabilities() -> ControlCapabilities {
    ControlCapabilities {
        pan: Some(range(-100.0, 100.0, 1.0, 0.0)),
        tilt: Some(range(-30.0, 90.0, 1.0, 0.0)),
        zoom: Some(range(0.0, 4000.0, 10.0, 0.0)),
    }
}

fn at(pan: f32, tilt: f32, zoom: f32) -> Controls {
    Controls { pan: Some(s(pan)), tilt: Some(s(tilt)), zoom: Some(s(zoom)) }
}

#[test]
fn lines_are_understood() {
    assert_eq!(parse_line(""), ConsoleCommand::Nothing);
    assert_eq!(parse_line("  \t\r\n"), ConsoleCommand::Nothing);
    assert_eq!(parse_line("help"), ConsoleCommand::Help);
    assert_eq!(parse_line(" state \n"), ConsoleCommand::State);
    assert_eq!(parse_line("center"), ConsoleCommand::Center);
    assert_eq!(parse_line("wide"), ConsoleCommand::Wide);
    assert_eq!(parse_line("quit"), ConsoleCommand::Quit);
    assert_eq!(parse_line("exit\n"), ConsoleCommand::Quit);
    assert_eq!(parse_line("pan 12.5"), ConsoleCommand::Aim(Axis::Pan, "12.5".to_owned()));
    assert_eq!(parse_line("tilt  -3"), ConsoleCommand::Aim(Axis::Tilt, "-3".to_owned()));
    assert_eq!(parse_line("zoom x"), ConsoleCommand::Aim(Axis::Zoom, "x".to_owned()));
    assert_eq!(parse_line("pan"), ConsoleCommand::Unknown);
    assert_eq!(parse_line("pan 1 2"), ConsoleCommand::Unknown);
    assert_eq!(parse_line("Pan 1"), ConsoleCommand::Unknown);
    assert_eq!(parse_line("help me"), ConsoleCommand::Unknown);
}

#[test]
fn all_white_space_separates_words() {
    let line = "pan\u{2003}7\u{a0}\u{85}";
    assert_eq!(parse_line(line), ConsoleCommand::Aim(Axis::Pan, "7".to_owned()));
    for line in ["a b", " a\u{200b}b ", "x\u{3000}y\u{2028}z", "\u{feff}q"] {
        let expected: Vec<String> = line.split_whitespace().map(|word| word.to_owned()).collect();
        assert_eq!(split_words(line), expected);
    }
}

#[test]
fn values_outside_the_range_are_refused() {
    let capabilities = capabilities();
    let pan = range(-100.0, 100.0, 1.0, 0.0);
    assert_eq!(set_axis(&capabilities, Axis::Pan, s(100.5), &unit), Request::OutOfRange(pan));
    assert_eq!(set_axis(&capabilities, Axis::Pan, s(-101.0), &unit), Request::OutOfRange(pan));
    assert_eq!(
        set_axis(&capabilities, Axis::Pan, s(99.6), &unit),
        Request::Move {
            controls: Controls { pan: Some(s(100.0)), tilt: None, zoom: None },
            target: s(100.0),
            tolerance: s(1.0),
        }
    );
    let mut blind = capabilities;
    blind.pan = None;
    assert_eq!(set_axis(&blind, Axis::Pan, s(0.0), &unit), Request::Unsupported);
}

#[test]
fn zoom_returns_to_its_default() {
    assert_eq!(
        set_zoom_default(&capabilities(), &unit),
        Request::Move {
            controls: Controls { pan: None, tilt: None, zoom: Some(s(0.0)) },
            target: s(0.0),
            tolerance: s(10.0),
        }
    );
    let mut blind = capabilities();
    blind.zoom = None;
    assert_eq!(set_zoom_default(&blind, &unit), Request::Unsupported);
}

#[test]
fn a_wait_reports_news_and_ends() {
    let mut wait = AxisWait::new(Axis::Pan, s(10.0), s(1.0), 100);
    assert_eq!(wait.poll(&at(5.0, 0.0, 0.0), 200, &unit), (Some(s(5.0)), Progress::Moving));
    assert_eq!(wait.poll(&at(5.0, 0.0, 0.0), 300, &unit), (None, Progress::Moving));
    assert_eq!(wait.poll(&at(9.0, 0.0, 0.0), 400, &unit), (Some(s(9.0)), Progress::Reached(s(9.0))));
    assert_eq!(
        wait.poll(&at(5.0, 0.0, 0.0), 100 + MOVE_TIMEOUT, &unit),
        (Some(s(5.0)), Progress::TimedOut(s(5.0)))
    );
    let unknown = Controls { pan: None, tilt: Some(s(10.0)), zoom: None };
    assert_eq!(wait.poll(&unknown, 500, &unit), (None, Progress::Unreadable));
}

#[test]
fn centering_waits_for_the_axes_there_are() {
    assert_eq!(
        center_waits(&capabilities()),
        vec![(Axis::Pan, s(0.0), s(1.0)), (Axis::Tilt, s(0.0), s(1.0))]
    );
    let mut caps = capabilities();
    caps.pan = None;
    assert_eq!(center_waits(&caps), vec![(Axis::Tilt, s(0.0), s(1.0))]);
}

fn device(name: &str) -> Device {
    Device { id: name.to_owned(), name: name.to_owned() }
}

#[test]
fn the_camera_is_known_by_its_names() {
    for name in ["EagleEye IV", "my eagle EYE", "POLYCOM usb", "Poly Studio"] {
        assert!(is_eagleeye_candidate(&device(name)));
    }
    for name in ["Webcam", "Polymer", "eagle-eye", ""] {
        assert!(!is_eagleeye_candidate(&device(name)));
    }
}

#[test]
fn the_first_camera_is_taken() {
    let devices = vec![device("Webcam"), device("Polycom A"), device("Polycom B")];
    assert_eq!(find_eagleeye(&devices), Some(1));
    assert_eq!(find_eagleeye(&vec![device("Webcam")]), None);
}

fn arguments(flags: &[&str]) -> Vec<String> {
    flags.iter().map(|flag| flag.to_string()).collect()
}

#[test]
fn startup_depends_on_devices_before_flags() {
    let camera = vec![device("Webcam"), device("EagleEye")];
    let probe = arguments(&["bareeye", "--probe", "--ptz-test"]);
    assert!(matches!(choose_startup(&probe, &vec![]), Startup::NoDevices));
    assert!(matches!(choose_startup(&probe, &vec![device("Webcam")]), Startup::NoCandidate));
    assert!(matches!(choose_startup(&probe, &camera), Startup::Probe(1)));
    let console = arguments(&["bareeye", "--ptz-test", "--debug"]);
    assert!(matches!(choose_startup(&console, &camera), Startup::Console(1)));
    let debug = arguments(&["bareeye", "--debug"]);
    assert!(matches!(
        choose_startup(&debug, &camera),
        Startup::Preview { index: 1, debug: true }
    ));
    assert!(matches!(
        choose_startup(&arguments(&["bareeye"]), &camera),
        Startup::Preview { index: 1, debug: false }
    ));
}

#[test]
fn white_space_is_what_is_listed() {
    let listed = |c: char| {
        matches!(
            u32::from(c),
            0x9..=0xD | 0x20 | 0x85 | 0xA0 | 0x1680 | 0x2000..=0x200A | 0x2028 | 0x2029 | 0x202F | 0x205F
                | 0x3000
        )
    };
    for c in '\0'..=char::MAX {
        assert_eq!(split_words(&format!("a{c}b")).len() == 2, listed(c));
    }
}
