//! What the layout remembers of the pointer: where it is, and which panel
//! a drag started on.

use crate::state::viewports::{ViewPort, UNIT};
use vstd::prelude::*;

verus! {

/// The pointer as it is sampled once per frame. The position is in
/// fixed-point pixels, `UNIT` for each one, `[x, y]` from the top-left
/// corner of the frame with `y` growing downwards.
#[derive(Copy, Clone, Debug)]
pub struct MouseInput {
    /// Where the pointer is.
    pub position: [i64; 2],
    /// For how many milliseconds the pointer has rested.
    pub hovered: u32,
    /// Whether the first button is down.
    pub pressed: bool,
    /// Whether the first button went down over the menus.
    pub pressed_on_ui: bool,
    /// Whether the pointer is over the menus now.
    pub on_ui: bool,
}

impl MouseInput {
    /// Whether a drag is under way that belongs to the panels: the first
    /// button is down and did not go down over the menus.
    pub fn get_drag_off_ui(&self) -> (dragging: bool)
        ensures
            dragging == (!self.pressed_on_ui && self.pressed),
    {
        !self.pressed_on_ui && self.pressed
    }
}

/// The place `pos`, in fixed-point pixels, as a fixed-point fraction of a
/// frame that is `extent` pixels long: `pos / extent`, rounded towards 0
/// and kept within what an `i32` holds. In a frame without extent every
/// place is as far out as can be.
pub open spec fn frame_fraction(pos: int, extent: int) -> int {
    let fraction = if pos >= 0 {
        pos / extent
    } else {
        -((-pos) / extent)
    };
    if extent <= 0 || fraction > i32::MAX {
        i32::MAX as int
    } else if fraction < i32::MIN {
        i32::MIN as int
    } else {
        fraction
    }
}

/// The height of the place `pos` above the bottom of a frame `extent`
/// pixels high, where `pos` is counted from the top: `1 - pos / extent`,
/// kept within what an `i32` holds.
pub open spec fn frame_height(pos: int, extent: int) -> int {
    let height = UNIT - frame_fraction(pos, extent);
    if height > i32::MAX {
        i32::MAX as int
    } else {
        height
    }
}

/// `frame_fraction`, computed.
fn fraction_of(pos: i64, extent: u32) -> (fraction: i32)
    ensures
        fraction == frame_fraction(pos as int, extent as int),
{
    if extent == 0 {
        return i32::MAX;
    }
    let fraction: i64 = pos / (extent as i64);
    if fraction > i32::MAX as i64 {
        i32::MAX
    } else if fraction < i32::MIN as i64 {
        i32::MIN
    } else {
        fraction as i32
    }
}

/// `frame_height`, computed.
fn height_of(pos: i64, extent: u32) -> (height: i32)
    ensures
        height == frame_height(pos as int, extent as int),
{
    let height: i64 = UNIT as i64 - fraction_of(pos, extent) as i64;
    if height > i32::MAX as i64 {
        i32::MAX
    } else {
        height as i32
    }
}

/// The first viewport at or after `from` that has the point `(x, y)`
/// inside, by its place in the list.
pub open spec fn first_hit(viewports: Seq<ViewPort>, x: int, y: int, from: int) -> Option<usize>
    decreases viewports.len() - from,
{
    if from < 0 || from >= viewports.len() {
        None
    } else if viewports[from].rect.spec_contains(x, y) {
        Some(from as usize)
    } else {
        first_hit(viewports, x, y, from + 1)
    }
}

/// `first_hit` names a viewport that has the point inside, and no
/// viewport before it has; where it names none, none has.
pub proof fn lemma_first_hit(viewports: Seq<ViewPort>, x: int, y: int, from: int)
    requires
        0 <= from,
        viewports.len() <= usize::MAX,
    ensures
        match first_hit(viewports, x, y, from) {
            Some(i) => from <= i < viewports.len() && viewports[i as int].rect.spec_contains(x, y)
                && forall|j: int| from <= j < i ==> !viewports[j].rect.spec_contains(x, y),
            None => forall|j: int|
                from <= j < viewports.len() ==> !viewports[j].rect.spec_contains(x, y),
        },
    decreases viewports.len() - from,
{
    if from < viewports.len() && !viewports[from].rect.spec_contains(x, y) {
        lemma_first_hit(viewports, x, y, from + 1);
    }
}

/// The pointer as the layout tracks it from frame to frame.
#[derive(Copy, Clone, Debug)]
pub struct MouseVariables {
    pub position: [i32; 2],
    /// How many milliseconds the pointer must rest to count as hovering.
    pub hover_time: u32,
    pub hovered: bool,
    pub m1_pressed: bool,
    /// The place in the viewport list of the panel that the first button
    /// went down on, kept until the button is released.
    pub viewport_pressed: Option<usize>,
}

impl MouseVariables {
    /// The pointer before the first sample: at the origin, no button
    /// down, nothing latched. A quarter of a second counts as hovering.
    pub open spec fn initial() -> MouseVariables {
        MouseVariables {
            position: [0i32, 0i32],
            hover_time: 250,
            hovered: false,
            m1_pressed: false,
            viewport_pressed: None,
        }
    }

    pub fn new() -> (r: MouseVariables)
        ensures
            r == MouseVariables::initial(),
    {
        MouseVariables {
            position: [0, 0],
            hover_time: 250,
            hovered: false,
            m1_pressed: false,
            viewport_pressed: None,
        }
    }

    /// What one frame's sample makes of the tracked state, given the
    /// viewports of that frame and its size in pixels, width first. The
    /// position becomes a fraction of the frame, counted from the
    /// bottom-left corner. The panel under the pointer is latched when the
    /// button goes down off the menus, and let go when it comes up off the
    /// menus; in between it stays, wherever the pointer moves.
    pub open spec fn after(
        self,
        mouse: MouseInput,
        viewports: Seq<ViewPort>,
        dimensions: (u32, u32),
    ) -> MouseVariables {
        let x = frame_fraction(mouse.position[0] as int, dimensions.0 as int);
        let y = frame_height(mouse.position[1] as int, dimensions.1 as int);
        MouseVariables {
            position: [x as i32, y as i32],
            hover_time: self.hover_time,
            hovered: mouse.hovered >= self.hover_time,
            m1_pressed: mouse.pressed,
            viewport_pressed: if mouse.on_ui {
                self.viewport_pressed
            } else if mouse.pressed && !self.m1_pressed {
                first_hit(viewports, x, y, 0)
            } else if !mouse.pressed && self.m1_pressed {
                None
            } else {
                self.viewport_pressed
            },
        }
    }

    /// The first viewport that has the tracked position inside, by its
    /// place in the list.
    pub fn on_viewport(&self, viewports: &[ViewPort]) -> (hit: Option<usize>)
        ensures
            hit == first_hit(viewports@, self.position[0] as int, self.position[1] as int, 0),
    {
        let n = viewports.len();
        let mut i: usize = 0;
        while i < n
            invariant
                0 <= i <= n,
                n == viewports@.len(),
                first_hit(viewports@, self.position[0] as int, self.position[1] as int, 0)
                    == first_hit(
                    viewports@,
                    self.position[0] as int,
                    self.position[1] as int,
                    i as int,
                ),
            decreases n - i,
        {
            if viewports[i].rect.contains(self.position) {
                return Some(i);
            }
            i = i + 1;
        }
        None
    }

    /// Takes in one frame's sample, for a frame of `dimensions` pixels,
    /// width first.
    pub fn handle_mouse(
        &mut self,
        mouse: &MouseInput,
        viewports: &[ViewPort],
        dimensions: (u32, u32),
    )
        ensures
            *final(self) == old(self).after(*mouse, viewports@, dimensions),
    {
        let x = fraction_of(mouse.position[0], dimensions.0);
        let y = height_of(mouse.position[1], dimensions.1);
        self.position = [x, y];
        self.hovered = mouse.hovered >= self.hover_time;

        let m1 = mouse.pressed;
        if !mouse.on_ui {
            if m1 && !self.m1_pressed {
                self.viewport_pressed = self.on_viewport(viewports);
            } else if !m1 && self.m1_pressed {
                self.viewport_pressed = None;
            }
        }
        self.m1_pressed = m1;
    }
}

} // verus!
