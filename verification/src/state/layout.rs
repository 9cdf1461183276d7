//! The layout as mathematics: what it holds, when it is consistent, and
//! what the operations on it make of it.

use crate::evec::EvecView;
use crate::state::mutation::{collapsed, divided};
use crate::state::partition::leaf_ids;
use crate::state::tree::{live, node, tree_wf, viewports_of};
use crate::state::variable::MouseVariables;
use crate::state::viewports::{
    DivDirection, Division, PixelRect, VPSettings, ViewPort, ViewRect, UNIT,
};
use vstd::prelude::*;

verus! {

/// The settings of a panel that has just appeared: menu open, no
/// calibration bar, no camera of its own.
pub open spec fn default_settings<C>() -> VPSettings<C> {
    VPSettings { menu_open: true, show_range: false, cam: None }
}

/// The settings after a rebuild that found `viewports`: a panel that has a
/// viewport keeps what was remembered of it, or starts with the defaults
/// where nothing was; what was remembered of other panels is dropped.
pub open spec fn reconciled<C>(
    settings: Map<usize, VPSettings<C>>,
    viewports: Seq<ViewPort>,
) -> Map<usize, VPSettings<C>> {
    Map::new(
        |id: usize| leaf_ids(viewports).contains(id),
        |id: usize|
            if settings.contains_key(id) {
                settings[id]
            } else {
                default_settings()
            },
    )
}

/// Settings with the menu closed.
pub open spec fn menu_closed<C>() -> spec_fn(VPSettings<C>) -> VPSettings<C> {
    |s: VPSettings<C>| VPSettings { menu_open: false, ..s }
}

/// Settings without a camera of their own.
pub open spec fn camera_dropped<C>() -> spec_fn(VPSettings<C>) -> VPSettings<C> {
    |s: VPSettings<C>| VPSettings { cam: None, ..s }
}

/// The table `settings` with `f` applied to the entries of the panels that
/// `done` belong to.
pub open spec fn settings_changed<C>(
    settings: Map<usize, VPSettings<C>>,
    f: spec_fn(VPSettings<C>) -> VPSettings<C>,
    done: Seq<ViewPort>,
) -> Map<usize, VPSettings<C>> {
    Map::new(
        |id: usize| settings.contains_key(id),
        |id: usize|
            if leaf_ids(done).contains(id) {
                f(settings[id])
            } else {
                settings[id]
            },
    )
}

/// The width of the column of the main menu, in logical pixels.
pub const MENU_WIDTH: u32 = 300;

/// The share of a window that the column of the main menu takes: that of
/// `menu_width` logical pixels in a window `width` logical pixels wide at
/// the display scale `hidpi`, itself a fixed-point number. It is
/// `menu_width / width / hidpi`, rounded to the nearest fixed-point step,
/// halves upwards, and never more than an `i32` holds. In a window without
/// width the column takes all there is and more.
pub open spec fn margin(menu_width: int, width: int, hidpi: int) -> int {
    let scaled = width * hidpi;
    let share = (menu_width * UNIT * UNIT + scaled / 2) / scaled;
    if scaled <= 0 || share > i32::MAX {
        i32::MAX as int
    } else {
        share
    }
}

/// Whether `after` is what `change` may make of the settings `before`: the
/// panel's own camera, if it has one, has gone through `change`, and
/// nothing else is different.
pub open spec fn camera_changed<C, F: Fn(C) -> C>(
    change: F,
    before: VPSettings<C>,
    after: VPSettings<C>,
) -> bool {
    &&& after.menu_open == before.menu_open
    &&& after.show_range == before.show_range
    &&& match before.cam {
        Some(cam) => after.cam is Some && call_ensures(change, (cam,), after.cam.unwrap()),
        None => after.cam is None,
    }
}

/// A change of the layout that a menu can ask for.
#[derive(Copy, Clone, Debug, PartialEq, Eq, Structural)]
pub enum Command {
    /// Split the panel in the direction given.
    Split(usize, DivDirection),
    /// Collapse the split that the panel is one part of, in its favour.
    Collapse(usize),
    /// Give the panel a camera of its own.
    GiveCamera(usize),
    /// Take the panel's own camera away.
    RemoveCamera(usize),
    /// Open or close the menu of the panel.
    MenuOpen(usize, bool),
    /// Make the panel show the field given.
    Select(usize, i32),
}

/// What there is to draw for one panel.
#[derive(Debug)]
pub struct PanelDraw<C> {
    /// The leaf that the panel belongs to.
    pub div_id: usize,
    /// The panel's rectangle, for the proportions of the picture.
    pub rect: ViewRect,
    /// The pixels of the frame to draw into.
    pub pixels: PixelRect,
    /// The field that the panel shows.
    pub selected: i32,
    /// The camera that the panel looks through.
    pub camera: C,
    /// Whether the calibration bar is wanted.
    pub show_range: bool,
}

/// The test that a viewport has anything to draw.
pub open spec fn can_draw() -> spec_fn(ViewPort) -> bool {
    |v: ViewPort| v.rect.renderable()
}

/// The layout as mathematics.
pub struct LayoutView<C> {
    /// The camera that every panel without one of its own looks through.
    pub camera: C,
    /// The rectangle that the panels share: the frame without the column
    /// of the main menu.
    pub main_viewport: ViewRect,
    /// The arena of the nodes of the layout tree.
    pub arena: EvecView<Division>,
    /// The viewports of the last rebuild.
    pub viewports: Seq<ViewPort>,
    /// The settings of the panels, by the id of their leaf.
    pub settings: Map<usize, VPSettings<C>>,
    /// The pointer.
    pub mouse: MouseVariables,
    /// The width of the column of the main menu, in logical pixels.
    pub menu_width: u32,
}

impl<C> LayoutView<C> {
    /// Whether the panel `div_id` has a camera of its own.
    pub open spec fn has_camera(self, div_id: usize) -> bool {
        self.settings.contains_key(div_id) && self.settings[div_id].cam is Some
    }

    /// The camera that the panel `div_id` looks through: its own if it has
    /// one, else the shared one.
    pub open spec fn resolve_camera(self, div_id: usize) -> C {
        if self.has_camera(div_id) {
            self.settings[div_id].cam.unwrap()
        } else {
            self.camera
        }
    }

    /// The layout after the camera that the panel `div_id` looks through
    /// has become `cam`. For a panel with a camera of its own no other
    /// panel sees a change; for any other panel the shared camera changes.
    pub open spec fn with_camera(self, div_id: usize, cam: C) -> LayoutView<C> {
        if self.has_camera(div_id) {
            LayoutView {
                settings: self.settings.insert(
                    div_id,
                    VPSettings { cam: Some(cam), ..self.settings[div_id] },
                ),
                ..self
            }
        } else {
            LayoutView { camera: cam, ..self }
        }
    }

    /// A panel's own camera turns alone, and the shared camera turns for
    /// all that share it: after the camera that the panel `turned` looks
    /// through has become `cam`, that panel looks through `cam`; another
    /// panel does so too if both share the shared camera, and else looks
    /// through the camera it looked through before.
    pub proof fn lemma_camera_sharing(self, turned: usize, other: usize, cam: C)
        requires
            turned != other,
        ensures
            self.with_camera(turned, cam).resolve_camera(turned) == cam,
            self.with_camera(turned, cam).has_camera(other) == self.has_camera(other),
            self.with_camera(turned, cam).resolve_camera(other) == if !self.has_camera(turned)
                && !self.has_camera(other) {
                cam
            } else {
                self.resolve_camera(other)
            },
    {
    }

    /// The layout after the settings of the panel `div_id` have become
    /// `settings`.
    pub open spec fn with_settings(self, div_id: usize, settings: VPSettings<C>) -> LayoutView<C> {
        LayoutView { settings: self.settings.insert(div_id, settings), ..self }
    }

    /// Whether `div_id` names a panel: a live leaf of the tree.
    pub open spec fn is_panel(self, div_id: usize) -> bool {
        live(self.arena.slots, div_id) && node(self.arena.slots, div_id) is Leaf
    }

    /// Changing what is remembered of a panel, or the camera that a panel
    /// looks through, leaves the layout consistent.
    pub proof fn lemma_settings_keep_wf(self, div_id: usize, settings: VPSettings<C>, cam: C)
        requires
            self.wf(),
        ensures
            self.settings.contains_key(div_id) ==> self.with_settings(div_id, settings).wf(),
            self.with_camera(div_id, cam).wf(),
    {
        if self.settings.contains_key(div_id) {
            assert(self.settings.insert(div_id, settings).dom() =~= self.settings.dom());
        }
    }

    /// The layout after every panel's settings have been changed by `f`.
    pub open spec fn map_settings(
        self,
        f: spec_fn(VPSettings<C>) -> VPSettings<C>,
    ) -> LayoutView<C> {
        LayoutView {
            settings: Map::new(
                |id: usize| self.settings.contains_key(id),
                |id: usize| f(self.settings[id]),
            ),
            ..self
        }
    }

    /// What there is to draw for the viewport `v` in a frame of `frame`
    /// pixels, width first.
    pub open spec fn draw_of(self, v: ViewPort, frame: (u32, u32)) -> PanelDraw<C> {
        PanelDraw {
            div_id: v.div_id,
            rect: v.rect,
            pixels: v.spec_pixels((frame.0 as int, frame.1 as int), UNIT as int),
            selected: node(self.arena.slots, v.div_id).spec_selected().unwrap(),
            camera: self.resolve_camera(v.div_id),
            show_range: self.settings[v.div_id].show_range,
        }
    }

    /// `draw_of` as a function of the viewport.
    pub open spec fn draw_fn(self, frame: (u32, u32)) -> spec_fn(ViewPort) -> PanelDraw<C> {
        |v: ViewPort| self.draw_of(v, frame)
    }

    /// What there is to draw in a frame: one entry for each viewport that
    /// has an inside, in the order of the viewports.
    pub open spec fn draw_list(self, frame: (u32, u32)) -> Seq<PanelDraw<C>> {
        self.viewports.filter(can_draw()).map_values(self.draw_fn(frame))
    }

    /// The field that each viewport's panel shows, in the order of the
    /// viewports.
    pub open spec fn selections(self) -> Seq<i32> {
        self.viewports.map_values(
            |v: ViewPort| node(self.arena.slots, v.div_id).spec_selected().unwrap(),
        )
    }

    /// The panel that a drag belongs to: the one latched when the button
    /// went down, if any, and if the list of viewports still reaches as far
    /// as its place.
    pub open spec fn drag_panel(self) -> Option<usize> {
        match self.mouse.viewport_pressed {
            Some(i) => if i < self.viewports.len() {
                Some(self.viewports[i as int].div_id)
            } else {
                None
            },
            None => None,
        }
    }

    /// The camera that a drag turns: that of the latched panel, or the
    /// shared one where no panel is latched.
    pub open spec fn drag_camera(self) -> C {
        match self.drag_panel() {
            Some(id) => self.resolve_camera(id),
            None => self.camera,
        }
    }

    /// The layout after the camera that a drag turns has become `cam`.
    pub open spec fn with_drag_camera(self, cam: C) -> LayoutView<C> {
        match self.drag_panel() {
            Some(id) => self.with_camera(id, cam),
            None => LayoutView { camera: cam, ..self },
        }
    }

    /// The arena is well formed and holds the layout tree.
    pub open spec fn tree_ok(self) -> bool {
        &&& self.arena.wf()
        &&& tree_wf(self.arena.slots)
    }

    /// The viewports that a walk from the root yields now.
    pub open spec fn fresh_viewports(self) -> Seq<ViewPort> {
        viewports_of(self.arena.slots, node(self.arena.slots, 0), self.main_viewport)
    }

    /// The layout is consistent: the tree is in order, the viewports are
    /// those of the tree as it is, and the panels that have settings are
    /// exactly those that have a viewport.
    pub open spec fn wf(self) -> bool {
        &&& self.tree_ok()
        &&& self.viewports == self.fresh_viewports()
        &&& self.settings.dom() == leaf_ids(self.viewports)
    }

    /// The layout after a rebuild: the viewports are derived anew from the
    /// tree, and the settings are brought in line with them.
    pub open spec fn rebuilt(self) -> LayoutView<C> {
        LayoutView {
            viewports: self.fresh_viewports(),
            settings: reconciled(self.settings, self.fresh_viewports()),
            ..self
        }
    }

    /// The layout after the window has become `width` logical pixels wide
    /// at the display scale `hidpi`, a fixed-point number: the rectangle
    /// that the panels share begins where the column of the main menu ends,
    /// and the viewports are derived anew.
    pub open spec fn resized(self, width: u32, hidpi: u32) -> LayoutView<C> {
        let moved = LayoutView {
            main_viewport: ViewRect {
                left: margin(self.menu_width as int, width as int, hidpi as int) as i32,
                ..self.main_viewport
            },
            ..self
        };
        LayoutView { viewports: moved.fresh_viewports(), ..moved }
    }

    /// The layout after the panel `div_id` has been split in the direction
    /// `dir`.
    pub open spec fn split(self, div_id: usize, dir: DivDirection) -> LayoutView<C> {
        LayoutView {
            arena: divided(self.arena, node(self.arena.slots, div_id), dir),
            ..self
        }.rebuilt()
    }

    /// The layout after the split that the panel `div_id` is one part of
    /// has been collapsed in favour of that panel: the node of the split
    /// becomes a leaf that shows what the panel showed, and what was
    /// remembered of the panel is remembered of that leaf.
    pub open spec fn collapse(self, div_id: usize) -> LayoutView<C> {
        let leaf = node(self.arena.slots, div_id);
        let parent = leaf.spec_parent().unwrap();
        LayoutView {
            arena: collapsed(
                self.arena,
                node(self.arena.slots, parent),
                leaf.spec_selected().unwrap(),
            ),
            settings: self.settings.insert(parent, self.settings[div_id]),
            ..self
        }.rebuilt()
    }

    /// The layout after the panel `div_id` has been made to show the field
    /// `selected`.
    pub open spec fn select(self, div_id: usize, selected: i32) -> LayoutView<C> {
        LayoutView {
            arena: self.arena.replace(
                div_id as int,
                node(self.arena.slots, div_id).as_leaf(selected),
            ),
            ..self
        }
    }

    /// The layout after the panel `div_id` has been given a camera of its
    /// own: a copy of the shared camera.
    pub open spec fn give_camera(self, div_id: usize) -> LayoutView<C> {
        self.with_settings(div_id, VPSettings { cam: Some(self.camera), ..self.settings[div_id] })
    }

    /// The layout after the panel's own camera has been taken away.
    pub open spec fn remove_camera(self, div_id: usize) -> LayoutView<C> {
        self.with_settings(div_id, VPSettings { cam: None, ..self.settings[div_id] })
    }

    /// The layout after the menu of the panel `div_id` has been opened or
    /// closed.
    pub open spec fn menu_open(self, div_id: usize, open: bool) -> LayoutView<C> {
        self.with_settings(div_id, VPSettings { menu_open: open, ..self.settings[div_id] })
    }

    /// Whether `after` is what the layout may be once every camera has gone
    /// through `change`: the shared one and each panel's own. Nothing else
    /// is different.
    pub open spec fn cameras_changed<F: Fn(C) -> C>(self, change: F, after: LayoutView<C>) -> bool {
        &&& call_ensures(change, (self.camera,), after.camera)
        &&& after.settings.dom() == self.settings.dom()
        &&& forall|id: usize|
            self.settings.contains_key(id) ==> camera_changed(
                change,
                self.settings[id],
                #[trigger] after.settings[id],
            )
        &&& after == (LayoutView { camera: after.camera, settings: after.settings, ..self })
    }

    /// Whether the layout has a place for `command`: the panel it names is
    /// there, a split has a ratio of at most 1, and a collapse names a panel
    /// that is part of a split.
    pub open spec fn accepts(self, command: Command) -> bool {
        match command {
            Command::Split(id, dir) => self.is_panel(id) && dir.wf(),
            Command::Collapse(id) => self.is_panel(id) && node(
                self.arena.slots,
                id,
            ).spec_parent() is Some,
            Command::GiveCamera(id) => self.settings.contains_key(id),
            Command::RemoveCamera(id) => self.settings.contains_key(id),
            Command::MenuOpen(id, _) => self.settings.contains_key(id),
            Command::Select(id, _) => self.is_panel(id),
        }
    }

    /// The layout after `command` has been carried out.
    pub open spec fn after(self, command: Command) -> LayoutView<C> {
        match command {
            Command::Split(id, dir) => self.split(id, dir),
            Command::Collapse(id) => self.collapse(id),
            Command::GiveCamera(id) => self.give_camera(id),
            Command::RemoveCamera(id) => self.remove_camera(id),
            Command::MenuOpen(id, open) => self.menu_open(id, open),
            Command::Select(id, selected) => self.select(id, selected),
        }
    }
}

} // verus!
