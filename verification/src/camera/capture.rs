//! Which stream the preview asks the camera for.

use crate::camera::telemetry::PixelFormat;
use vstd::prelude::*;

verus! {

/// A stream that a camera can be asked for.
#[derive(Copy, Clone, Debug, Eq, PartialEq, Structural)]
pub struct StreamConfig {
    pub width: u32,
    pub height: u32,
    pub framerate: u32,
    pub pixel_format: PixelFormat,
}

/// The stream that the preview shows.
#[derive(Clone, Debug)]
pub struct PreviewInfo {
    pub width: u32,
    pub height: u32,
    pub framerate: u32,
    pub pixel_format: String,
}

/// The stream that the preview would like: full HD at 30 frames per second.
pub fn preview_request() -> (r: StreamConfig)
    ensures
        r == (StreamConfig {
            width: 1920,
            height: 1080,
            framerate: 30,
            pixel_format: PixelFormat::Bgra8,
        }),
{
    StreamConfig { width: 1920, height: 1080, framerate: 30, pixel_format: PixelFormat::Bgra8 }
}

/// Name of a layout.
pub open spec fn format_name(format: PixelFormat) -> Seq<char> {
    match format {
        PixelFormat::Bgra8 => "Bgra8"@,
        PixelFormat::Rgb8 => "Rgb8"@,
        PixelFormat::Rgba8 => "Rgba8"@,
        PixelFormat::Yuyv => "Yuyv"@,
        PixelFormat::Nv12 => "Nv12"@,
        PixelFormat::Mjpeg => "Mjpeg"@,
        PixelFormat::Other => "Other"@,
    }
}

/// What is shown of the stream that was selected; nothing where the camera has
/// no usable one.
pub fn describe_selection(selected: Option<StreamConfig>) -> (r: Result<PreviewInfo, &'static str>)
    ensures
        match selected {
            Some(config) => r matches Ok(info) && info.width == config.width && info.height
                == config.height && info.framerate == config.framerate && info.pixel_format@
                == format_name(config.pixel_format),
            None => r matches Err(text) && text@ == "camera reported no usable video formats"@,
        },
{
    match selected {
        Some(config) => {
            let name = match config.pixel_format {
                PixelFormat::Bgra8 => "Bgra8",
                PixelFormat::Rgb8 => "Rgb8",
                PixelFormat::Rgba8 => "Rgba8",
                PixelFormat::Yuyv => "Yuyv",
                PixelFormat::Nv12 => "Nv12",
                PixelFormat::Mjpeg => "Mjpeg",
                PixelFormat::Other => "Other",
            };
            Ok(
                PreviewInfo {
                    width: config.width,
                    height: config.height,
                    framerate: config.framerate,
                    pixel_format: name.to_owned(),
                },
            )
        },
        None => Err("camera reported no usable video formats"),
    }
}

/// Every layout goes by its own name, and no two by the same.
pub proof fn layouts_go_by_their_names(format: PixelFormat, other: PixelFormat)
    ensures
        format_name(PixelFormat::Bgra8) == "Bgra8"@,
        format_name(PixelFormat::Rgb8) == "Rgb8"@,
        format_name(PixelFormat::Rgba8) == "Rgba8"@,
        format_name(PixelFormat::Yuyv) == "Yuyv"@,
        format_name(PixelFormat::Nv12) == "Nv12"@,
        format_name(PixelFormat::Mjpeg) == "Mjpeg"@,
        format_name(PixelFormat::Other) == "Other"@,
        format_name(format) == format_name(other) ==> format == other,
{
    reveal_strlit("Bgra8");
    reveal_strlit("Rgb8");
    reveal_strlit("Rgba8");
    reveal_strlit("Yuyv");
    reveal_strlit("Nv12");
    reveal_strlit("Mjpeg");
    reveal_strlit("Other");
    assert("Bgra8"@[0] == 'B');
    assert("Rgb8"@.len() == 4 && "Rgb8"@[0] == 'R');
    assert("Rgba8"@.len() == 5 && "Rgba8"@[0] == 'R');
    assert("Yuyv"@[0] == 'Y');
    assert("Nv12"@[0] == 'N');
    assert("Mjpeg"@[0] == 'M');
    assert("Other"@[0] == 'O');
}

} // verus!
