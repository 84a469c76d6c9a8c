use vstd::prelude::*;

use crate::image::Image;
use crate::widgets::TOOLBAR_HEIGHT;

verus! {

/// What the host has to do after a key press.
#[derive(Clone, Copy, Debug, PartialEq, Eq, Structural)]
pub enum KeyAction {
    /// Nothing changed.
    Nothing,
    /// The canvas size may have changed: resample for the whole window.
    Refit,
    /// Only the colours changed: resample at the current canvas size.
    Resample,
    /// Close the viewer.
    Quit,
}

/// Applies a released key to the image's display state: `a` toggles the
/// aspect lock, `g` grayscale, `i` inversion, `l` and `r` turn a quarter
/// counter-clockwise and clockwise, `q` quits.
pub fn handle_key(img: &mut Image, key: char) -> (action: KeyAction)
    ensures
        final(img).width == old(img).width,
        final(img).height == old(img).height,
        final(img).image_data@ == old(img).image_data@,
        final(img).locked_aspect_ratio == (old(img).locked_aspect_ratio != (key == 'a')),
        final(img).is_grayscale == (old(img).is_grayscale != (key == 'g')),
        final(img).inverted == (old(img).inverted != (key == 'i')),
        final(img).rotation == (if key == 'l' {
            old(img).rotation.spec_turned(false)
        } else if key == 'r' {
            old(img).rotation.spec_turned(true)
        } else {
            old(img).rotation
        }),
        action == (if key == 'a' || key == 'l' || key == 'r' {
            KeyAction::Refit
        } else if key == 'g' || key == 'i' {
            KeyAction::Resample
        } else if key == 'q' {
            KeyAction::Quit
        } else {
            KeyAction::Nothing
        }),
{
    if key == 'a' {
        img.locked_aspect_ratio = !img.locked_aspect_ratio;
        KeyAction::Refit
    } else if key == 'g' {
        img.is_grayscale = !img.is_grayscale;
        KeyAction::Resample
    } else if key == 'i' {
        img.inverted = !img.inverted;
        KeyAction::Resample
    } else if key == 'l' {
        img.rotation = img.rotation.turned(false);
        KeyAction::Refit
    } else if key == 'r' {
        img.rotation = img.rotation.turned(true);
        KeyAction::Refit
    } else if key == 'q' {
        KeyAction::Quit
    } else {
        KeyAction::Nothing
    }
}

/// The canvas request for a window: its full width, and its height less the
/// toolbar strip (none when the window is shorter than the strip).
pub fn canvas_size_for_window(win_width: usize, win_height: usize) -> (size: (usize, usize))
    ensures
        size.0 == win_width,
        size.1 == if win_height >= TOOLBAR_HEIGHT {
            win_height - TOOLBAR_HEIGHT
        } else {
            0
        },
{
    let h = if win_height >= TOOLBAR_HEIGHT {
        win_height - TOOLBAR_HEIGHT
    } else {
        0
    };
    (win_width, h)
}

/// The first window size for an image: at least 800 by 600, large enough for
/// the image above the toolbar, and no larger than the monitor.
pub fn initial_window_size(img_width: u32, img_height: u32, monitor_width: u32, monitor_height: u32) -> (size:
    (u32, u32))
    ensures
        size.0 == vstd::math::min(vstd::math::max(img_width as int, 800), monitor_width as int),
        size.1 == vstd::math::min(
            vstd::math::max(
                vstd::math::min(img_height + TOOLBAR_HEIGHT, u32::MAX as int),
                600,
            ),
            monitor_height as int,
        ),
{
    let w = if img_width > 800 { img_width } else { 800 };
    let w = if w < monitor_width { w } else { monitor_width };
    let tall = img_height.saturating_add(TOOLBAR_HEIGHT as u32);
    let h = if tall > 600 { tall } else { 600 };
    let h = if h < monitor_height { h } else { monitor_height };
    (w, h)
}

} // verus!
