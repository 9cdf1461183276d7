//! The state of the layout and what changes it.

pub mod layout;
pub mod mutation;
pub mod partition;
pub mod tree;
pub mod variable;
pub mod viewports;

use crate::evec::{lemma_filter_push, Evec};
use crate::state::layout::{
    camera_changed, camera_dropped, can_draw, default_settings, margin, menu_closed, reconciled,
    settings_changed, Command, LayoutView, PanelDraw, MENU_WIDTH,
};
use crate::state::mutation::{
    collapsed, lemma_collapse_keeps_tree, lemma_divide_keeps_tree, lemma_divide_splits_viewport,
    lemma_select_keeps_tree, split_viewport,
};
use crate::state::partition::{
    leaf_ids, lemma_leaf_ids_any_rect, lemma_leaf_ids_take, lemma_tree_viewports,
};
use crate::state::tree::{
    lemma_tree_node, lemma_tree_root, lemma_viewports_of, live, node, rooted, walk_height,
};
use crate::state::variable::{first_hit, MouseInput, MouseVariables};
use crate::state::viewports::{DivDirection, Division, VPSettings, ViewPort, ViewRect, UNIT};
use std::collections::BTreeMap;
use vstd::prelude::*;

verus! {

/// `BTreeMap::get_mut` of the standard library, for the settings table: the
/// entry under `id`, to be changed in place, where there is one. The table
/// afterwards differs from the table before in that entry alone.
#[verifier::external_body]
fn settings_mut<C>(settings: &mut BTreeMap<usize, VPSettings<C>>, id: usize) -> (entry: Option<
    &mut VPSettings<C>,
>)
    ensures
        match entry {
            Some(e) => {
                &&& old(settings)@.contains_key(id)
                &&& *e == old(settings)@[id]
                &&& final(settings)@ == old(settings)@.insert(id, *final(e))
            },
            None => !old(settings)@.contains_key(id) && final(settings)@ == old(settings)@,
        },
{
    settings.get_mut(&id)
}

/// `margin`, computed without overflow.
fn menu_share(menu_width: u32, width: u32, hidpi: u32) -> (share: i32)
    ensures
        share == margin(menu_width as int, width as int, hidpi as int),
{
    if width == 0 || hidpi == 0 {
        assert(width * hidpi == 0) by (nonlinear_arith)
            requires
                width == 0 || hidpi == 0,
        ;
        return i32::MAX;
    }
    assert(0 < width * hidpi <= 0xffff_ffff * 0xffff_ffff) by (nonlinear_arith)
        requires
            0 < width <= 0xffff_ffff,
            0 < hidpi <= 0xffff_ffff,
    ;
    let scaled: u128 = width as u128 * hidpi as u128;
    let unit: u128 = UNIT as u128;
    assert(menu_width * UNIT * UNIT <= 0xffff_ffff * 1_000_000 * 1_000_000) by (nonlinear_arith)
        requires
            menu_width <= 0xffff_ffff,
            UNIT == 1_000_000,
    ;
    let share: u128 = (menu_width as u128 * unit * unit + scaled / 2) / scaled;
    if share > i32::MAX as u128 {
        i32::MAX
    } else {
        share as i32
    }
}

/// The layout of the panels: the tree that divides the frame among them,
/// the viewports derived from it, what is remembered of each panel, the
/// shared camera and the pointer.
pub struct GlobalState<C> {
    pub camera: C,
    main_viewport: ViewRect,
    divisions: Evec<Division>,
    viewports: Vec<ViewPort>,
    vp_settings: BTreeMap<usize, VPSettings<C>>,
    mouse_vars: MouseVariables,
    menu_width: u32,
}

impl<C> View for GlobalState<C> {
    type V = LayoutView<C>;

    closed spec fn view(&self) -> LayoutView<C> {
        LayoutView {
            camera: self.camera,
            main_viewport: self.main_viewport,
            arena: self.divisions@,
            viewports: self.viewports@,
            settings: self.vp_settings@,
            mouse: self.mouse_vars,
            menu_width: self.menu_width,
        }
    }
}

impl<C: Copy> GlobalState<C> {
    /// A layout of one panel that fills `main_viewport`, shows field 0 and
    /// looks through `camera`.
    pub fn new(camera: C, main_viewport: ViewRect) -> (r: GlobalState<C>)
        ensures
            r@.wf(),
            r@.camera == camera,
            r@.main_viewport == main_viewport,
            r@.arena.slots == seq![
                Some(Division::Leaf { selected: 0, id: 0, parent: None }),
            ],
            r@.arena.free == Seq::<usize>::empty(),
            r@.arena.generations == seq![0u32],
            r@.viewports == seq![ViewPort { div_id: 0, rect: main_viewport }],
            r@.settings == Map::<usize, VPSettings<C>>::empty().insert(0, default_settings()),
            r@.mouse == MouseVariables::initial(),
            r@.menu_width == MENU_WIDTH,
    {
        let division = Division::Leaf { selected: 0, id: 0, parent: None };
        let mut nodes: Vec<Division> = Vec::new();
        nodes.push(division);
        let divisions = Evec::from(nodes);
        assert(divisions@.slots =~= seq![Some(division)]);
        proof {
            assert(rooted(divisions@.slots, 0));
            lemma_viewports_of(divisions@.slots, division, main_viewport, 0);
        }

        let mut viewports: Vec<ViewPort> = Vec::new();
        division.build_viewports_evec(main_viewport, &divisions, &mut viewports);
        let mut vp_settings: BTreeMap<usize, VPSettings<C>> = BTreeMap::new();
        let first_id = viewports[0].div_id;
        vp_settings.insert(
            first_id,
            VPSettings { menu_open: true, show_range: false, cam: None },
        );
        assert(viewports@ =~= seq![ViewPort { div_id: 0, rect: main_viewport }]);
        assert(vp_settings@.dom() =~= leaf_ids(viewports@)) by {
            assert(viewports@[0].div_id == 0);
        }

        GlobalState {
            camera,
            main_viewport,
            divisions,
            viewports,
            vp_settings,
            mouse_vars: MouseVariables::new(),
            menu_width: MENU_WIDTH,
        }
    }

    /// Derives the viewports anew from the tree and brings the settings in
    /// line with them: a panel that is still there keeps its settings, a
    /// new one gets the defaults, and the settings of panels that are gone
    /// are dropped.
    pub fn rebuild_viewports(&mut self)
        requires
            old(self)@.tree_ok(),
        ensures
            final(self)@.wf(),
            final(self)@ == old(self)@.rebuilt(),
            final(self)@.settings.dom() == leaf_ids(final(self)@.viewports),
    {
        proof {
            lemma_tree_root(self.divisions@.slots);
        }
        let root: usize = 0;
        let division = self.divisions[root].unwrap();
        let main_viewport = self.main_viewport;
        let mut viewports: Vec<ViewPort> = Vec::new();
        core::mem::swap(&mut viewports, &mut self.viewports);

        viewports.clear();
        division.build_viewports_evec(main_viewport, &self.divisions, &mut viewports);
        assert(viewports@ =~= old(self)@.fresh_viewports());
        let mut settings: BTreeMap<usize, VPSettings<C>> = BTreeMap::new();

        let n = viewports.len();
        let mut i: usize = 0;
        while i < n
            invariant
                0 <= i <= n,
                n == viewports@.len(),
                self.vp_settings@ == old(self)@.settings,
                settings@ == reconciled(old(self)@.settings, viewports@.take(i as int)),
            decreases n - i,
        {
            let id = viewports[i].div_id;
            let value = self.vp_settings.get(&id);
            match value {
                Some(value) => settings.insert(id, *value),
                None => settings.insert(
                    id,
                    VPSettings { menu_open: true, show_range: false, cam: None },
                ),
            };
            proof {
                lemma_leaf_ids_take(viewports@, i as int);
                assert(settings@ =~= reconciled(
                    old(self)@.settings,
                    viewports@.take(i + 1),
                ));
            }
            i = i + 1;
        }
        assert(viewports@.take(n as int) =~= viewports@);
        self.vp_settings = settings;
        core::mem::swap(&mut viewports, &mut self.viewports);
        assert(self.vp_settings@.dom() =~= leaf_ids(self.viewports@));
    }

    /// The first viewport that has the point `pos` inside, by its place in
    /// the list of viewports.
    pub fn on_viewport(&self, pos: [i32; 2]) -> (hit: Option<usize>)
        ensures
            hit == first_hit(self@.viewports, pos[0] as int, pos[1] as int, 0),
    {
        let n = self.viewports.len();
        let mut i: usize = 0;
        while i < n
            invariant
                0 <= i <= n,
                n == self.viewports@.len(),
                first_hit(self.viewports@, pos[0] as int, pos[1] as int, 0) == first_hit(
                    self.viewports@,
                    pos[0] as int,
                    pos[1] as int,
                    i as int,
                ),
            decreases n - i,
        {
            if self.viewports[i].rect.contains(pos) {
                return Some(i);
            }
            i = i + 1;
        }
        None
    }

    /// Takes in one frame's sample of the pointer, for a frame of
    /// `dimensions` pixels, width first: the panel under the pointer is
    /// latched when the first button goes down, and let go when it comes
    /// up.
    pub fn handle_mouse(&mut self, mouse: &MouseInput, dimensions: (u32, u32))
        ensures
            final(self)@ == (LayoutView {
                mouse: old(self)@.mouse.after(*mouse, old(self)@.viewports, dimensions),
                ..old(self)@
            }),
    {
        self.mouse_vars.handle_mouse(mouse, self.viewports.as_slice(), dimensions);
    }

    /// The camera that the panel `div_id` looks through: its own if it has
    /// one, else the shared one.
    pub fn get_vp_camera(&self, div_id: usize) -> (cam: &C)
        ensures
            *cam == self@.resolve_camera(div_id),
    {
        match self.vp_settings.get(&div_id) {
            Some(settings) => match &settings.cam {
                Some(cam) => cam,
                None => &self.camera,
            },
            None => &self.camera,
        }
    }

    /// The camera that the panel `div_id` looks through, to be changed in
    /// place.
    pub fn get_vp_camera_mut(&mut self, div_id: usize) -> (cam: &mut C)
        ensures
            *cam == old(self)@.resolve_camera(div_id),
            final(self)@ == old(self)@.with_camera(div_id, *final(cam)),
    {
        proof {
            let table = self.vp_settings@;
            if table.contains_key(div_id) {
                assert(table.insert(div_id, table[div_id]) =~= table);
            }
        }
        match settings_mut(&mut self.vp_settings, div_id) {
            Some(settings) => match &mut settings.cam {
                Some(cam) => cam,
                None => &mut self.camera,
            },
            None => &mut self.camera,
        }
    }

    /// Whether the panel `div_id` has a camera of its own.
    pub fn vp_has_cam(&self, div_id: usize) -> (has: bool)
        ensures
            has == self@.has_camera(div_id),
    {
        match self.vp_settings.get(&div_id) {
            Some(settings) => settings.cam.is_some(),
            None => false,
        }
    }

    /// Gives the panel `div_id` a camera of its own, which starts as a copy
    /// of the shared camera as it is now.
    pub fn give_vp_global_cam(&mut self, div_id: usize)
        requires
            old(self)@.settings.contains_key(div_id),
        ensures
            final(self)@ == old(self)@.give_camera(div_id),
            old(self)@.wf() ==> final(self)@.wf(),
    {
        proof {
            if self@.wf() {
                self@.lemma_settings_keep_wf(
                    div_id,
                    VPSettings { cam: Some(self@.camera), ..self@.settings[div_id] },
                    self@.camera,
                );
            }
        }
        match settings_mut(&mut self.vp_settings, div_id) {
            Some(settings) => {
                settings.cam = Some(self.camera);
            },
            None => {},
        }
    }

    /// Takes the panel's own camera away: it looks through the shared
    /// camera again.
    pub fn remove_vp_cam(&mut self, div_id: usize)
        requires
            old(self)@.settings.contains_key(div_id),
        ensures
            final(self)@ == old(self)@.remove_camera(div_id),
            old(self)@.wf() ==> final(self)@.wf(),
    {
        proof {
            if self@.wf() {
                self@.lemma_settings_keep_wf(
                    div_id,
                    VPSettings { cam: None, ..self@.settings[div_id] },
                    self@.camera,
                );
            }
        }
        match settings_mut(&mut self.vp_settings, div_id) {
            Some(settings) => settings.cam = None,
            None => {},
        }
    }

    /// Whether the menu of the panel `div_id` is open, to be changed in
    /// place; `None` where nothing is remembered of such a panel.
    pub fn get_vp_menu_open_mut(&mut self, div_id: usize) -> (open: Option<&mut bool>)
        ensures
            match open {
                Some(flag) => {
                    &&& old(self)@.settings.contains_key(div_id)
                    &&& *flag == old(self)@.settings[div_id].menu_open
                    &&& final(self)@ == old(self)@.menu_open(div_id, *final(flag))
                },
                None => !old(self)@.settings.contains_key(div_id) && final(self)@ == old(self)@,
            },
    {
        match settings_mut(&mut self.vp_settings, div_id) {
            Some(settings) => Some(&mut settings.menu_open),
            None => None,
        }
    }

    /// Whether the menu of the panel `div_id` is open; `None` where nothing
    /// is remembered of such a panel.
    pub fn get_vp_menu_open(&self, div_id: usize) -> (open: Option<bool>)
        ensures
            open == if self@.settings.contains_key(div_id) {
                Some(self@.settings[div_id].menu_open)
            } else {
                None
            },
    {
        match self.vp_settings.get(&div_id) {
            Some(settings) => Some(settings.menu_open),
            None => None,
        }
    }

    /// What is remembered of the panel `div_id`.
    pub fn get_vp_settings(&self, div_id: usize) -> (settings: Option<&VPSettings<C>>)
        ensures
            match settings {
                Some(s) => self@.settings.contains_key(div_id) && *s == self@.settings[div_id],
                None => !self@.settings.contains_key(div_id),
            },
    {
        self.vp_settings.get(&div_id)
    }

    /// The viewports of the last rebuild.
    pub fn viewports(&self) -> (viewports: &Vec<ViewPort>)
        ensures
            viewports@ == self@.viewports,
    {
        &self.viewports
    }

    /// The arena of the nodes of the layout tree.
    pub fn divisions(&self) -> (divisions: &Evec<Division>)
        ensures
            divisions@ == self@.arena,
    {
        &self.divisions
    }

    /// The rectangle that the panels share.
    pub fn main_viewport(&self) -> (rect: ViewRect)
        ensures
            rect == self@.main_viewport,
    {
        self.main_viewport
    }

    /// The width of the column of the main menu, in logical pixels.
    pub fn menu_width(&self) -> (width: u32)
        ensures
            width == self@.menu_width,
    {
        self.menu_width
    }

    /// The pointer as it is tracked.
    pub fn mouse_vars(&self) -> (mouse: &MouseVariables)
        ensures
            *mouse == self@.mouse,
    {
        &self.mouse_vars
    }

    /// Whether `div_id` names a panel: a live leaf of the tree.
    pub fn is_panel(&self, div_id: usize) -> (panel: bool)
        ensures
            panel == self@.is_panel(div_id),
    {
        match self.divisions.get(div_id) {
            Some(div) => !div.is_ratio(),
            None => false,
        }
    }

    /// Closes the menu of every panel.
    pub fn hide_menus(&mut self)
        requires
            old(self)@.wf(),
        ensures
            final(self)@ == old(self)@.map_settings(menu_closed()),
            final(self)@.wf(),
    {
        let n = self.viewports.len();
        let mut i: usize = 0;
        assert(self.vp_settings@ =~= settings_changed(
            old(self)@.settings,
            menu_closed(),
            self.viewports@.take(0),
        ));
        while i < n
            invariant
                0 <= i <= n,
                n == self.viewports@.len(),
                old(self)@.wf(),
                self@ == (LayoutView {
                    settings: settings_changed(
                        old(self)@.settings,
                        menu_closed(),
                        self.viewports@.take(i as int),
                    ),
                    ..old(self)@
                }),
            decreases n - i,
        {
            let id = self.viewports[i].div_id;
            proof {
                lemma_leaf_ids_take(self.viewports@, i as int);
                assert(leaf_ids(self.viewports@).contains(id));
            }
            match settings_mut(&mut self.vp_settings, id) {
                Some(settings) => {
                    settings.menu_open = false;
                },
                None => {},
            }
            assert(self.vp_settings@ =~= settings_changed(
                old(self)@.settings,
                menu_closed(),
                self.viewports@.take(i + 1),
            ));
            i = i + 1;
        }
        assert(self.viewports@.take(n as int) =~= self.viewports@);
        assert(self.vp_settings@ =~= old(self)@.map_settings(menu_closed()).settings);
        assert(self.vp_settings@.dom() =~= old(self)@.settings.dom());
    }

    /// Takes every panel's own camera away: all look through the shared
    /// camera again.
    pub fn lock_globes(&mut self)
        requires
            old(self)@.wf(),
        ensures
            final(self)@ == old(self)@.map_settings(camera_dropped()),
            final(self)@.wf(),
    {
        let n = self.viewports.len();
        let mut i: usize = 0;
        assert(self.vp_settings@ =~= settings_changed(
            old(self)@.settings,
            camera_dropped(),
            self.viewports@.take(0),
        ));
        while i < n
            invariant
                0 <= i <= n,
                n == self.viewports@.len(),
                old(self)@.wf(),
                self@ == (LayoutView {
                    settings: settings_changed(
                        old(self)@.settings,
                        camera_dropped(),
                        self.viewports@.take(i as int),
                    ),
                    ..old(self)@
                }),
            decreases n - i,
        {
            let id = self.viewports[i].div_id;
            proof {
                lemma_leaf_ids_take(self.viewports@, i as int);
                assert(leaf_ids(self.viewports@).contains(id));
            }
            match settings_mut(&mut self.vp_settings, id) {
                Some(settings) => {
                    settings.cam = None;
                },
                None => {},
            }
            assert(self.vp_settings@ =~= settings_changed(
                old(self)@.settings,
                camera_dropped(),
                self.viewports@.take(i + 1),
            ));
            i = i + 1;
        }
        assert(self.viewports@.take(n as int) =~= self.viewports@);
        assert(self.vp_settings@ =~= old(self)@.map_settings(camera_dropped()).settings);
        assert(self.vp_settings@.dom() =~= old(self)@.settings.dom());
    }

    /// Puts every camera through `change`: the shared one, and each
    /// panel's own.
    pub fn change_cameras<F: Fn(C) -> C>(&mut self, change: F)
        requires
            old(self)@.wf(),
            forall|cam: C| call_requires(change, (cam,)),
        ensures
            final(self)@.wf(),
            old(self)@.cameras_changed(change, final(self)@),
    {
        proof {
            lemma_tree_viewports(self.divisions@.slots, self.main_viewport);
        }
        self.camera = change(self.camera);
        let n = self.viewports.len();
        let mut i: usize = 0;
        while i < n
            invariant
                0 <= i <= n,
                n == self.viewports@.len(),
                old(self)@.wf(),
                forall|cam: C| call_requires(change, (cam,)),
                forall|j: int, k: int|
                    0 <= j < k < n ==> self.viewports@[j].div_id != self.viewports@[k].div_id,
                call_ensures(change, (old(self)@.camera,), self@.camera),
                self@ == (LayoutView {
                    camera: self@.camera,
                    settings: self@.settings,
                    ..old(self)@
                }),
                self@.settings.dom() == old(self)@.settings.dom(),
                forall|id: usize|
                    old(self)@.settings.contains_key(id) ==> if leaf_ids(
                        self.viewports@.take(i as int),
                    ).contains(id) {
                        camera_changed(change, old(self)@.settings[id], #[trigger] self@.settings[id])
                    } else {
                        self@.settings[id] == old(self)@.settings[id]
                    },
            decreases n - i,
        {
            let id = self.viewports[i].div_id;
            proof {
                lemma_leaf_ids_take(self.viewports@, i as int);
                assert(leaf_ids(self.viewports@).contains(id));
                if leaf_ids(self.viewports@.take(i as int)).contains(id) {
                    let j = choose|j: int|
                        0 <= j < i && self.viewports@.take(i as int)[j].div_id == id;
                    assert(self.viewports@[j].div_id == id);
                }
            }
            let ghost before = self.vp_settings@;
            match settings_mut(&mut self.vp_settings, id) {
                Some(settings) => {
                    if let Some(cam) = settings.cam {
                        settings.cam = Some(change(cam));
                    }
                },
                None => {},
            }
            assert(self.vp_settings@.dom() =~= before.dom());
            i = i + 1;
        }
        assert(self.viewports@.take(n as int) =~= self.viewports@);
    }

    /// Takes in a new size of the window: `width` logical pixels at the
    /// display scale `hidpi`, a fixed-point number. The left edge of the
    /// rectangle that the panels share moves to where the column of the
    /// main menu ends, the viewports are derived anew, and every camera,
    /// the shared one and each panel's own, goes through `set_aspect`.
    /// Every panel keeps what is remembered of it.
    pub fn handle_resize<F: Fn(C) -> C>(&mut self, width: u32, hidpi: u32, set_aspect: F)
        requires
            old(self)@.wf(),
            forall|cam: C| call_requires(set_aspect, (cam,)),
        ensures
            final(self)@.wf(),
            old(self)@.resized(width, hidpi).cameras_changed(set_aspect, final(self)@),
    {
        let ghost slots = self.divisions@.slots;
        let ghost root = node(slots, 0);
        let ghost before = self.main_viewport;
        self.main_viewport.left = menu_share(self.menu_width, width, hidpi);
        self.rebuild_viewports();
        proof {
            lemma_tree_root(slots);
            let height = walk_height(slots, root);
            lemma_viewports_of(slots, root, before, height);
            lemma_viewports_of(slots, root, self.main_viewport, height);
            lemma_leaf_ids_any_rect(slots, root, before, self.main_viewport, height);
            assert(self.vp_settings@ =~= old(self)@.settings);
        }
        self.change_cameras(set_aspect);
    }

    /// Collapses the whole layout into one panel that shows field 0 and
    /// starts with fresh settings. A layout of one panel stays as it is.
    pub fn collapse_all(&mut self)
        requires
            old(self)@.wf(),
        ensures
            final(self)@.wf(),
            old(self)@.viewports.len() <= 1 ==> final(self)@ == old(self)@,
            old(self)@.viewports.len() > 1 ==> final(self)@ == (LayoutView {
                arena: collapsed(old(self)@.arena, node(old(self)@.arena.slots, 0), 0),
                viewports: seq![ViewPort { div_id: 0, rect: old(self)@.main_viewport }],
                settings: Map::<usize, VPSettings<C>>::empty().insert(0, default_settings()),
                ..old(self)@
            }),
    {
        if self.viewports.len() <= 1 {
            return ;
        }
        let ghost before = self.divisions@;
        proof {
            lemma_tree_root(before.slots);
            lemma_tree_viewports(before.slots, self.main_viewport);
            lemma_collapse_keeps_tree(before, node(before.slots, 0), 0);
        }
        let root: usize = 0;
        let div = self.divisions[root].unwrap();

        div.remove_division(&mut self.divisions, 0);
        self.vp_settings.clear();
        self.rebuild_viewports();
        proof {
            let after = self.divisions@.slots;
            lemma_tree_viewports(after, self.main_viewport);
            assert(self.vp_settings@ =~= Map::<usize, VPSettings<C>>::empty().insert(
                0,
                default_settings(),
            )) by {
                assert(leaf_ids(self.viewports@).contains(0)) by {
                    assert(self.viewports@[0].div_id == 0);
                }
            }
        }
    }

    /// Splits the panel `div_id` in the direction `dir` into two panels
    /// that show what it showed, and derives the viewports anew: the
    /// viewports of the two new panels stand where that of the split panel
    /// stood. They start with fresh settings; what was remembered of the
    /// split panel is dropped with it.
    pub fn split_panel(&mut self, div_id: usize, dir: DivDirection)
        requires
            old(self)@.wf(),
            old(self)@.is_panel(div_id),
            dir.wf(),
        ensures
            final(self)@.wf(),
            final(self)@ == old(self)@.split(div_id, dir),
            node(final(self)@.arena.slots, div_id) matches Division::Ratio { a, b, .. }
                && final(self)@.viewports == split_viewport(
                old(self)@.viewports,
                div_id,
                dir,
                a,
                b,
            ),
    {
        let ghost before = self.divisions@;
        let ghost leaf = node(before.slots, div_id);
        proof {
            lemma_tree_node(before.slots, div_id);
        }
        let div = self.divisions[div_id].unwrap();
        div.divide(dir, &mut self.divisions);
        proof {
            assert(self.divisions.values.len() == self.divisions@.slots.len());
            lemma_divide_keeps_tree(before, leaf, dir);
            lemma_divide_splits_viewport(before, leaf, dir, self.main_viewport);
        }
        self.rebuild_viewports();
    }

    /// Collapses the split that the panel `div_id` is one part of: the
    /// other part goes, with everything in it, and one panel takes the
    /// place of the split. It shows what the panel `div_id` showed and
    /// inherits what was remembered of it, its camera included.
    pub fn collapse_panel(&mut self, div_id: usize)
        requires
            old(self)@.wf(),
            old(self)@.is_panel(div_id),
            node(old(self)@.arena.slots, div_id).spec_parent() is Some,
        ensures
            final(self)@.wf(),
            final(self)@ == old(self)@.collapse(div_id),
    {
        let ghost before = self.divisions@;
        let ghost table = self.vp_settings@;
        let ghost leaf = node(before.slots, div_id);
        proof {
            lemma_tree_node(before.slots, div_id);
            lemma_tree_viewports(before.slots, self.main_viewport);
        }
        let div = self.divisions[div_id].unwrap();
        let parent_id = div.get_parent().unwrap();
        let parent = self.divisions[parent_id].unwrap();
        proof {
            lemma_tree_node(before.slots, parent_id);
            lemma_collapse_keeps_tree(before, parent, leaf.spec_selected().unwrap());
        }
        let (a, b) = parent.get_children();
        let pid = parent.get_id();
        parent.remove_division(&mut self.divisions, div.get_selected().unwrap());

        if let Some(settings) = self.vp_settings.remove(&div_id) {
            self.vp_settings.insert(pid, settings);
        }
        if div_id == a {
            self.vp_settings.remove(&b);
        } else {
            self.vp_settings.remove(&a);
        }
        let ghost moved = self.vp_settings@;
        self.rebuild_viewports();
        proof {
            let after = self.divisions@.slots;
            lemma_tree_viewports(after, self.main_viewport);
            let other = if div_id == a {
                b
            } else {
                a
            };
            assert(moved =~= table.remove(div_id).insert(pid, table[div_id]).remove(other));
            assert(!live(after, div_id));
            assert(!live(after, other));
            assert(self.vp_settings@ =~= reconciled(
                table.insert(pid, table[div_id]),
                self.viewports@,
            ));
        }
    }

    /// Makes the panel `div_id` show the field `selected`.
    pub fn select_field(&mut self, div_id: usize, selected: i32)
        requires
            old(self)@.wf(),
            old(self)@.is_panel(div_id),
        ensures
            final(self)@.wf(),
            final(self)@ == old(self)@.select(div_id, selected),
    {
        let ghost before = self.divisions@;
        proof {
            lemma_tree_node(before.slots, div_id);
            lemma_select_keeps_tree(
                before.slots,
                node(before.slots, div_id),
                selected,
                self.main_viewport,
            );
        }
        let div = self.divisions[div_id].unwrap();
        let parent = div.get_parent();
        self.divisions.replace(div_id, Division::Leaf { selected, parent, id: div_id });
    }

    /// The camera that a drag turns, to be changed in place: that of the
    /// panel latched when the button went down, or the shared one where no
    /// panel is latched or the latched place is no longer in the list of
    /// viewports.
    pub fn get_drag_camera_mut(&mut self) -> (cam: &mut C)
        ensures
            *cam == old(self)@.drag_camera(),
            final(self)@ == old(self)@.with_drag_camera(*final(cam)),
    {
        match self.mouse_vars.viewport_pressed {
            Some(id) => {
                if id < self.viewports.len() {
                    let div_id = self.viewports[id].div_id;
                    self.get_vp_camera_mut(div_id)
                } else {
                    &mut self.camera
                }
            },
            None => &mut self.camera,
        }
    }

    /// The field that each viewport's panel shows, in the order of the
    /// viewports: the fields that are on display.
    pub fn selections(&self) -> (fields: Vec<i32>)
        requires
            self@.wf(),
        ensures
            fields@ == self@.selections(),
    {
        let mut fields: Vec<i32> = Vec::new();
        let n = self.viewports.len();
        let mut i: usize = 0;
        proof {
            lemma_tree_viewports(self.divisions@.slots, self.main_viewport);
        }
        while i < n
            invariant
                0 <= i <= n,
                n == self.viewports@.len(),
                self@.wf(),
                forall|id: usize|
                    leaf_ids(self.viewports@).contains(id) <==> live(self.divisions@.slots, id)
                        && node(self.divisions@.slots, id) is Leaf,
                fields@ == self@.selections().take(i as int),
            decreases n - i,
        {
            let id = self.viewports[i].div_id;
            assert(leaf_ids(self.viewports@).contains(id));
            let selected = self.divisions[id].unwrap().get_selected().unwrap();
            fields.push(selected);
            assert(fields@ =~= self@.selections().take(i + 1));
            i = i + 1;
        }
        assert(self@.selections().take(n as int) =~= self@.selections());
        fields
    }

    /// What there is to draw in a frame of `frame` pixels, width first:
    /// for each viewport that has an inside, its pixels, the field it
    /// shows and the camera it looks through. Viewports without an inside
    /// are passed over.
    pub fn render_viewports(&self, frame: (u32, u32)) -> (draws: Vec<PanelDraw<C>>)
        requires
            self@.wf(),
        ensures
            draws@ == self@.draw_list(frame),
    {
        let mut draws: Vec<PanelDraw<C>> = Vec::new();
        let n = self.viewports.len();
        let mut i: usize = 0;
        proof {
            lemma_tree_viewports(self.divisions@.slots, self.main_viewport);
            assert(self.viewports@.take(0).filter(can_draw()) =~= Seq::<ViewPort>::empty());
        }
        while i < n
            invariant
                0 <= i <= n,
                n == self.viewports@.len(),
                self@.wf(),
                forall|id: usize|
                    leaf_ids(self.viewports@).contains(id) <==> live(self.divisions@.slots, id)
                        && node(self.divisions@.slots, id) is Leaf,
                draws@ == self.viewports@.take(i as int).filter(can_draw()).map_values(
                    self@.draw_fn(frame),
                ),
            decreases n - i,
        {
            let viewport = &self.viewports[i];
            proof {
                let done = self.viewports@.take(i as int);
                assert(self.viewports@.take(i + 1) =~= done.push(*viewport));
                lemma_filter_push(done, *viewport, can_draw());
                assert(leaf_ids(self.viewports@).contains(viewport.div_id));
            }
            if viewport.can_render() {
                let id = viewport.div_id;
                let selected = self.divisions[id].unwrap().get_selected().unwrap();
                let settings = self.vp_settings.get(&id).unwrap();
                let camera = match settings.cam {
                    Some(cam) => cam,
                    None => self.camera,
                };
                draws.push(
                    PanelDraw {
                        div_id: id,
                        rect: viewport.rect,
                        pixels: viewport.glium_viewport(frame),
                        selected,
                        camera,
                        show_range: settings.show_range,
                    },
                );
                assert(draws@ =~= self.viewports@.take(i + 1).filter(can_draw()).map_values(
                    self@.draw_fn(frame),
                ));
            }
            i = i + 1;
        }
        assert(self.viewports@.take(n as int) =~= self.viewports@);
        draws
    }

    /// Carries out `command` if the layout has a place for it, and says
    /// whether it did. A command without a place changes nothing.
    pub fn apply(&mut self, command: Command) -> (applied: bool)
        requires
            old(self)@.wf(),
        ensures
            final(self)@.wf(),
            applied == old(self)@.accepts(command),
            final(self)@ == if applied {
                old(self)@.after(command)
            } else {
                old(self)@
            },
    {
        match command {
            Command::Split(id, dir) => {
                if self.is_panel(id) && dir.is_valid() {
                    self.split_panel(id, dir);
                    true
                } else {
                    false
                }
            },
            Command::Collapse(id) => {
                let part_of_split = match self.divisions.get(id) {
                    Some(div) => !div.is_ratio() && div.get_parent().is_some(),
                    None => false,
                };
                if part_of_split {
                    self.collapse_panel(id);
                }
                part_of_split
            },
            Command::GiveCamera(id) => {
                let known = self.get_vp_settings(id).is_some();
                if known {
                    self.give_vp_global_cam(id);
                }
                known
            },
            Command::RemoveCamera(id) => {
                let known = self.get_vp_settings(id).is_some();
                if known {
                    self.remove_vp_cam(id);
                }
                known
            },
            Command::MenuOpen(id, open) => {
                proof {
                    self@.lemma_settings_keep_wf(
                        id,
                        VPSettings { menu_open: open, ..self@.settings[id] },
                        self@.camera,
                    );
                }
                match self.get_vp_menu_open_mut(id) {
                    Some(menu) => {
                        *menu = open;
                        true
                    },
                    None => false,
                }
            },
            Command::Select(id, selected) => {
                if self.is_panel(id) {
                    self.select_field(id, selected);
                    true
                } else {
                    false
                }
            },
        }
    }
}

} // verus!
