//! Token scan screen: how often the camera frame is searched for the setup code,
//! and what a search does to the application state.
use vstd::prelude::*;

use crate::app_state::AppState;
use crate::qr::camera::{convert_fits, converted_buffer};

verus! {

/// Scan for a QR every n frames
pub const SCAN_FRAMES: usize = 3;

/// The frame counter of the token scan screen.
pub struct QrScan {
    /// Only scan every SCAN_FRAMES frames
    pub scan_frame: usize,
}

/// The counter after one more frame, and whether that frame is searched:
/// every `SCAN_FRAMES`-th frame is, and the count starts again.
pub open spec fn count_step(scan_frame: int) -> (int, bool) {
    if scan_frame + 1 >= SCAN_FRAMES {
        (0, true)
    } else {
        (scan_frame + 1, false)
    }
}

/// The counter after `k` frames from a fresh screen.
pub open spec fn counter_after(k: nat) -> int
    decreases k,
{
    if k == 0 {
        0
    } else {
        count_step(counter_after((k - 1) as nat)).0
    }
}

/// Whether the `k`-th frame (counting from 1) of a fresh screen is searched.
pub open spec fn searched_frame(k: nat) -> bool {
    k >= 1 && count_step(counter_after((k - 1) as nat)).1
}

/// From a fresh screen, the code is searched for on exactly every `SCAN_FRAMES`-th frame.
pub proof fn law_search_every_scan_frames(k: nat)
    ensures
        counter_after(k) == (k as int) % (SCAN_FRAMES as int),
        k >= 1 ==> (searched_frame(k) <==> (k as int) % (SCAN_FRAMES as int) == 0),
    decreases k,
{
    if k > 0 {
        law_search_every_scan_frames((k - 1) as nat);
    }
}

/// How many of the first `k` frames of a fresh screen are searched.
pub open spec fn searches_in(k: nat) -> nat
    decreases k,
{
    if k == 0 {
        0
    } else {
        searches_in((k - 1) as nat) + if searched_frame(k) {
            1nat
        } else {
            0nat
        }
    }
}

/// From a fresh screen, the first `k` frames hold exactly `k / SCAN_FRAMES` searches,
/// on frames `SCAN_FRAMES`, `2 * SCAN_FRAMES`, and so on.
pub proof fn law_searches_in_k_frames(k: nat)
    ensures
        searches_in(k) == (k as int) / (SCAN_FRAMES as int),
    decreases k,
{
    if k > 0 {
        law_searches_in_k_frames((k - 1) as nat);
        law_search_every_scan_frames(k);
    }
}

/// A counter that starts within `0..SCAN_FRAMES` stays there: after a searched
/// frame it is back at zero, after any other frame it has gone up by one.
pub proof fn law_counter_bounds(scan_frame: int)
    requires
        0 <= scan_frame < SCAN_FRAMES,
    ensures
        0 <= count_step(scan_frame).0 < SCAN_FRAMES,
        count_step(scan_frame).1 ==> count_step(scan_frame).0 == 0,
        !count_step(scan_frame).1 ==> count_step(scan_frame).0 == scan_frame + 1,
{
}

impl Default for QrScan {
    /// A fresh screen: no frame counted yet.
    fn default() -> (s: QrScan)
        ensures
            s.scan_frame == 0,
    {
        QrScan { scan_frame: 0 }
    }
}

impl QrScan {
    /// Counts a frame; returns whether this frame is one to search for the code.
    pub fn count_frame(&mut self) -> (scan: bool)
        requires
            old(self).scan_frame < usize::MAX,
        ensures
            (final(self).scan_frame as int, scan) == count_step(old(self).scan_frame as int),
    {
        self.scan_frame += 1;
        if self.scan_frame >= SCAN_FRAMES {
            self.scan_frame = 0;
            true
        } else {
            false
        }
    }

    /// Takes in a captured camera frame: it is converted into the scanner's frame
    /// and counted. Returns whether this frame is to be searched for the setup code:
    /// every `SCAN_FRAMES`-th frame is. What the search finds is handed to
    /// `AppState::record_scan`; frames that are not searched never reach it.
    pub fn update_state(&mut self, state: &mut AppState) -> (search: bool)
        requires
            old(self).scan_frame < usize::MAX,
            old(state).scanner.image.wf(),
            convert_fits(
                old(state).camera.rgb565_camera_buf@.len() as int,
                old(state).scanner.image.pixels@.len() as int,
            ),
        ensures
            (final(self).scan_frame as int, search) == count_step(old(self).scan_frame as int),
            final(state).camera == old(state).camera,
            final(state).scanner.image.width == old(state).scanner.image.width,
            final(state).scanner.image.height == old(state).scanner.image.height,
            final(state).scanner.image.pixels@ == converted_buffer(
                old(state).camera.rgb565_camera_buf@,
                old(state).scanner.image.pixels@,
            ),
            final(state).scanner.image.wf(),
            final(state).qr == old(state).qr,
            final(state).scanned == old(state).scanned,
    {
        state.camera.convert(state.scanner.image.pixels.as_mut_slice());
        self.count_frame()
    }
}

} // verus!
