//! Camera control.

pub mod controls;
pub mod pwm;
pub mod ptz;
pub mod relative_ptz;
pub mod telemetry;
pub mod capture;
pub mod motion;
pub mod fresh_frame;
pub mod grid;
pub mod limits;
pub mod profile;
pub mod correlation;
pub mod ptz_calibration;
pub mod ptz_subdegree;
pub mod ptz_zoom_calibration;
pub mod worker;
pub mod driving;
pub mod probe;
pub mod console;
