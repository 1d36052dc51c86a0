//! After a restore: the captured tiled arrangement and fullscreen state.
//!
//! Tiled windows cannot be put at a position; they are swapped towards it,
//! then moved to an edge to split the layout anew, then resized. Fullscreen
//! comes last, as it hides the rest. Every step looks at where the windows are
//! by then, so the passes are best-effort: a step that does not help is not
//! repeated for ever.

use vstd::prelude::*;

use crate::daemon::commands::find_slot;
use crate::daemon::commands::{slot_index, Command, Effect};
use crate::daemon::hydration::find_client;
use crate::daemon::hydration::client_index;
use crate::daemon::state::{find_id, StateActor};
use crate::daemon::state::{id_index, StateView};
use crate::domain::model::{Placement, ProjectId};
use crate::domain::model::{AppSlotView, PlacementView, ProjectView};
use crate::domain::world::AssignmentSource;
use crate::domain::world::{
    is_assigned_to, is_window_list, lemma_filed, lemma_filed_by_address, lemma_window_list,
    window_list, AssignmentSourceView, TrackedWindowView,
};
use crate::hypr::ctl::{Dispatch, MoveDir};
use crate::hypr::ctl::DispatchView;
use crate::hypr::model::{Client, WindowAddress};
use crate::hypr::model::{canonical, ClientView};
use crate::numbers::render;
use crate::numbers::decimal;

verus! {

// ---- what is wanted -------------------------------------------------------------------

/// A restored window and how it is to be placed.
#[derive(Debug)]
pub struct Tile {
    /// The window's address.
    pub address: String,
    /// The placement of its slot.
    pub placement: Placement,
}

/// What a [`Tile`] holds.
#[verifier::ext_equal]
pub struct TileView {
    /// See [`Tile::address`].
    pub address: Seq<char>,
    /// See [`Tile::placement`].
    pub placement: PlacementView,
}

impl View for Tile {
    type V = TileView;

    open spec fn view(&self) -> TileView {
        TileView { address: self.address@, placement: self.placement@ }
    }
}

impl DeepView for Tile {
    type V = TileView;

    open spec fn deep_view(&self) -> TileView {
        self.view()
    }
}

/// The placement of a window that satisfies a slot of a project.
pub open spec fn tile_of(project: ProjectView, window: TrackedWindowView) -> Option<TileView> {
    match window.assigned_by {
        Some(AssignmentSourceView::Restore(slot_id)) => if is_assigned_to(window, project.id) {
            match slot_index(project.apps, slot_id, 0) {
                Some(k) => Some(
                    TileView { address: window.address, placement: project.apps[k].placement },
                ),
                None => None,
            }
        } else {
            None
        },
        _ => None,
    }
}

/// The windows of the list that satisfy a slot of a project, in their order.
pub open spec fn tiles_among(project: ProjectView, windows: Seq<TrackedWindowView>) -> Seq<
    TileView,
>
    decreases windows.len(),
{
    if windows.len() == 0 {
        seq![]
    } else {
        let before = tiles_among(project, windows.drop_last());
        match tile_of(project, windows.last()) {
            Some(tile) => before.push(tile),
            None => before,
        }
    }
}

impl StateView {
    /// The restored windows of a project, by ascending address.
    pub open spec fn tiles_of(self, project: ProjectId) -> Seq<TileView> {
        match id_index(self.projects, project, 0) {
            Some(i) => tiles_among(self.projects[i], window_list(self.world.windows)),
            None => seq![],
        }
    }
}

// ---- one step -------------------------------------------------------------------------

/// The distance between two numbers.
pub open spec fn distance(a: int, b: int) -> int {
    if a >= b {
        a - b
    } else {
        b - a
    }
}

/// How far a window may be from its captured position: half its captured size.
pub open spec fn tolerance(placement: PlacementView) -> (int, int) {
    match placement.size {
        Some((w, h)) => (
            if w > 0 {
                w as int / 2
            } else {
                0
            },
            if h > 0 {
                h as int / 2
            } else {
                0
            },
        ),
        None => (0, 0),
    }
}

/// Where a tiled window has to go to come closer to its captured position, if it
/// is too far from it: along the axis on which it is farther off.
pub open spec fn heading(placement: PlacementView, at: (i32, i32)) -> Option<MoveDir> {
    match placement.position {
        None => None,
        Some((x, y)) => {
            let across = distance(x as int, at.0 as int);
            let along = distance(y as int, at.1 as int);
            let (free_x, free_y) = tolerance(placement);
            if across <= free_x && along <= free_y {
                None
            } else if across >= along {
                Some(
                    if x > at.0 {
                        MoveDir::Right
                    } else {
                        MoveDir::Left
                    },
                )
            } else {
                Some(
                    if y > at.1 {
                        MoveDir::Down
                    } else {
                        MoveDir::Up
                    },
                )
            }
        },
    }
}

/// The dispatches of one pass over one window. The passes: twice swapping, then
/// splitting anew, then resizing, then fullscreen.
pub open spec fn tile_step(tile: TileView, live: ClientView, pass: int) -> Seq<DispatchView> {
    let focus = DispatchView::FocusWindow(canonical(tile.address));
    let wanted = tile.placement;
    let is_tiled = !wanted.floating && !live.floating;
    if pass <= 2 {
        match heading(wanted, live.at) {
            Some(dir) if is_tiled => seq![
                focus,
                if pass < 2 {
                    DispatchView::SwapWindow(dir)
                } else {
                    DispatchView::MoveWindowDir(dir)
                },
            ],
            _ => seq![],
        }
    } else if pass == 3 {
        match wanted.size {
            Some((w, h)) if is_tiled && (w, h) != live.size => seq![
                focus,
                DispatchView::ResizeActiveExact { w, h },
            ],
            _ => seq![],
        }
    } else if (wanted.fullscreen == 1 || wanted.fullscreen == 2) && wanted.fullscreen
        != live.fullscreen {
        seq![
            focus,
            DispatchView::Raw(
                "fullscreenstate "@ + decimal(wanted.fullscreen as nat) + " -1"@,
            ),
        ]
    } else {
        seq![]
    }
}

/// The dispatches of a step, given where the windows are by then; none when all
/// passes are done. Each pass goes over the windows in order; one that is gone
/// is left out.
pub open spec fn arrangement_step(
    tiles: Seq<TileView>,
    clients: Seq<ClientView>,
    step: nat,
) -> Option<Seq<DispatchView>> {
    if tiles.len() == 0 || step / tiles.len() >= 5 {
        None
    } else {
        let tile = tiles[(step % tiles.len()) as int];
        match client_index(clients, tile.address, 0) {
            Some(c) => Some(tile_step(tile, clients[c], (step / tiles.len()) as int)),
            None => Some(seq![]),
        }
    }
}

// ---- carrying it out ------------------------------------------------------------------

fn apart(a: i32, b: i32) -> (r: i64)
    ensures
        r == distance(a as int, b as int),
{
    if a >= b {
        a as i64 - b as i64
    } else {
        b as i64 - a as i64
    }
}

fn half(n: i32) -> (r: i64)
    ensures
        r == (if n > 0 {
            n as int / 2
        } else {
            0
        }),
{
    if n > 0 {
        n as i64 / 2
    } else {
        0
    }
}

/// Where a tiled window has to go to come closer to its captured position, if
/// it is too far from it.
pub fn direction(placement: &Placement, at: (i32, i32)) -> (r: Option<MoveDir>)
    ensures
        r == heading(placement@, at),
{
    let (x, y) = match placement.position {
        Some(position) => position,
        None => {
            return None;
        },
    };
    let across: i64 = apart(x, at.0);
    let along: i64 = apart(y, at.1);
    let (free_x, free_y) = match placement.size {
        Some((w, h)) => (half(w), half(h)),
        None => (0, 0),
    };
    if across <= free_x && along <= free_y {
        None
    } else if across >= along {
        if x > at.0 {
            Some(MoveDir::Right)
        } else {
            Some(MoveDir::Left)
        }
    } else if y > at.1 {
        Some(MoveDir::Down)
    } else {
        Some(MoveDir::Up)
    }
}

fn step_for(tile: &Tile, live: &Client, pass: usize) -> (r: Vec<Dispatch>)
    ensures
        r.deep_view() == tile_step(tile@, live@, pass as int),
{
    let wanted = &tile.placement;
    let is_tiled = !wanted.floating && !live.floating;
    let mut out: Vec<Dispatch> = Vec::new();
    if pass <= 2 {
        if let Some(dir) = direction(wanted, live.at) {
            if is_tiled {
                out.push(Dispatch::FocusWindow(WindowAddress::new(tile.address.as_str())));
                if pass < 2 {
                    out.push(Dispatch::SwapWindow(dir));
                } else {
                    out.push(Dispatch::MoveWindowDir(dir));
                }
            }
        }
    } else if pass == 3 {
        if let Some((w, h)) = wanted.size {
            if is_tiled && (w != live.size.0 || h != live.size.1) {
                out.push(Dispatch::FocusWindow(WindowAddress::new(tile.address.as_str())));
                out.push(Dispatch::ResizeActiveExact { w, h });
            }
        }
    } else if (wanted.fullscreen == 1 || wanted.fullscreen == 2) && wanted.fullscreen
        != live.fullscreen {
        out.push(Dispatch::FocusWindow(WindowAddress::new(tile.address.as_str())));
        let mut raw = "fullscreenstate ".to_owned();
        raw.append(render(wanted.fullscreen as u64).as_str());
        raw.append(" -1");
        out.push(Dispatch::Raw(raw));
    }
    assert(out.deep_view() =~= tile_step(tile@, live@, pass as int));
    out
}

/// The dispatches of a step, given where the windows are by then; `None` when
/// all passes are done.
pub fn next_step(tiles: &Vec<Tile>, clients: &Vec<Client>, step: usize) -> (r: Option<
    Vec<Dispatch>,
>)
    ensures
        r.deep_view() == arrangement_step(tiles.deep_view(), clients.deep_view(), step as nat),
{
    if tiles.len() == 0 {
        return None;
    }
    let pass: usize = step / tiles.len();
    if pass >= 5 {
        return None;
    }
    let at: usize = step % tiles.len();
    let tile = &tiles[at];
    assert(tiles.deep_view()[at as int] == tile@);
    match find_client(clients, tile.address.as_str()) {
        Some(c) => {
            assert(clients.deep_view()[c as int] == clients@[c as int]@);
            Some(step_for(tile, &clients[c], pass))
        },
        None => {
            let none: Vec<Dispatch> = Vec::new();
            assert(none.deep_view() =~= seq![]);
            Some(none)
        },
    }
}

impl StateActor {
    /// The restored windows of a project and how they are to be placed.
    pub fn tiles(&self, project: ProjectId) -> (r: Vec<Tile>)
        ensures
            r.deep_view() == self@.tiles_of(project),
    {
        let mut out: Vec<Tile> = Vec::new();
        assert(out.deep_view() =~= seq![]);
        let i: usize = match find_id(&self.projects, project) {
            Some(i) => i,
            None => {
                return out;
            },
        };
        assert(self@.projects[i as int] == self.projects@[i as int]@);
        let owner = &self.projects[i];
        let windows = self.world.windows.sorted();
        let ghost views = windows.deep_view();
        proof {
            lemma_window_list(self@.world.windows, views, views);
        }
        let mut k: usize = 0;
        assert(views.take(0) =~= seq![]);
        while k < windows.len()
            invariant
                k <= windows.len(),
                views == windows.deep_view(),
                out.deep_view() == tiles_among(owner@, views.take(k as int)),
            decreases windows.len() - k,
        {
            let window = &windows[k];
            assert(views.take(k + 1).drop_last() =~= views.take(k as int));
            assert(views[k as int] == window@);
            let belongs = match &window.assignment {
                Some((id, _)) => *id == owner.id,
                None => false,
            };
            assert(belongs == is_assigned_to(window@, owner@.id));
            if belongs {
                if let Some(AssignmentSource::Restore(slot_id)) = &window.assigned_by {
                    if let Some(s) = find_slot(owner, *slot_id) {
                        assert(owner@.apps[s as int] == owner.apps@[s as int]@);
                        let ghost before = out.deep_view();
                        let tile = Tile {
                            address: window.address.clone(),
                            placement: owner.apps[s].placement.clone(),
                        };
                        out.push(tile);
                        assert(out.deep_view() =~= before.push(tile@));
                    }
                }
            }
            k = k + 1;
        }
        assert(views.take(k as int) =~= views);
        out
    }
}

// ---- laws -----------------------------------------------------------------------------

/// Whether a window is as it was captured.
pub open spec fn is_in_place(tile: TileView, live: ClientView) -> bool {
    &&& tile.placement.position matches Some(position) ==> position == live.at
    &&& tile.placement.size matches Some(size) ==> size == live.size
    &&& tile.placement.fullscreen != 0 ==> tile.placement.fullscreen == live.fullscreen
}

/// A window that is as it was captured is left alone in every pass.
pub proof fn law_what_is_in_place_stays(tile: TileView, live: ClientView, pass: int)
    requires
        is_in_place(tile, live),
    ensures
        tile_step(tile, live, pass) == Seq::<DispatchView>::empty(),
{
}

/// Arranging comes to an end: after five passes over the windows there is no
/// further step, and before that there always is one.
pub proof fn law_arranging_ends(tiles: Seq<TileView>, clients: Seq<ClientView>, step: nat)
    ensures
        arrangement_step(tiles, clients, step) is None <==> step >= 5 * tiles.len(),
{
    if tiles.len() > 0 {
        let n = tiles.len();
        assert(step / n >= 5 <==> step >= 5 * n) by (nonlinear_arith)
            requires
                n > 0,
        ;
    }
}

/// Floating windows are not moved about in the layout.
pub proof fn law_floating_windows_are_not_tiled(tile: TileView, live: ClientView, pass: int)
    requires
        tile.placement.floating || live.floating,
        pass <= 3,
    ensures
        tile_step(tile, live, pass) == Seq::<DispatchView>::empty(),
{
}

/// A window is sent towards its captured position: to the side on which that
/// lies.
pub proof fn law_windows_head_for_their_place(placement: PlacementView, at: (i32, i32))
    ensures
        match (heading(placement, at), placement.position) {
            (Some(MoveDir::Right), Some((x, _))) => x > at.0,
            (Some(MoveDir::Left), Some((x, _))) => x < at.0,
            (Some(MoveDir::Down), Some((_, y))) => y > at.1,
            (Some(MoveDir::Up), Some((_, y))) => y < at.1,
            (Some(_), None) => false,
            (None, _) => true,
        },
{
}

proof fn lemma_tiles_among(project: ProjectView, windows: Seq<TrackedWindowView>)
    ensures
        forall|w: int|
            0 <= w < windows.len() && tile_of(project, #[trigger] windows[w]) is Some
                ==> tiles_among(project, windows).contains(tile_of(project, windows[w])->0),
        forall|t: int|
            0 <= t < tiles_among(project, windows).len() ==> is_tile_among(
                project,
                windows,
                #[trigger] tiles_among(project, windows)[t],
            ),
    decreases windows.len(),
{
    if windows.len() > 0 {
        let front = windows.drop_last();
        lemma_tiles_among(project, front);
        let before = tiles_among(project, front);
        let now = tiles_among(project, windows);
        assert forall|w: int|
            0 <= w < windows.len() && tile_of(
                project,
                #[trigger] windows[w],
            ) is Some implies now.contains(tile_of(project, windows[w])->0) by {
            if w < front.len() {
                assert(front[w] == windows[w]);
                let t = choose|t: int|
                    0 <= t < before.len() && before[t] == tile_of(project, front[w])->0;
                assert(now[t] == before[t]);
            } else {
                assert(now[before.len() as int] == tile_of(project, windows[w])->0);
            }
        }
        assert forall|t: int| 0 <= t < now.len() implies is_tile_among(
            project,
            windows,
            #[trigger] now[t],
        ) by {
            if t < before.len() {
                assert(now[t] == before[t]);
                let w = choose|w: int|
                    0 <= w < front.len() && tile_of(project, #[trigger] front[w]) == Some(
                        before[t],
                    );
                assert(windows[w] == front[w]);
            } else {
                assert(tile_of(project, windows[windows.len() - 1]) == Some(now[t]));
            }
        }
    }
}

/// Whether a tile is that of one of the windows.
spec fn is_tile_among(
    project: ProjectView,
    windows: Seq<TrackedWindowView>,
    tile: TileView,
) -> bool {
    exists|w: int| 0 <= w < windows.len() && tile_of(project, #[trigger] windows[w]) == Some(tile)
}

/// Whether a window was restored for a slot of a project.
pub open spec fn was_restored_for(
    window: TrackedWindowView,
    project: ProjectView,
    slot: AppSlotView,
) -> bool {
    &&& window.assignment matches Some((owner, _)) && owner == project.id
    &&& window.assigned_by == Some(AssignmentSourceView::Restore(slot.slot_id))
}

proof fn lemma_slot_place(apps: Seq<AppSlotView>, k: int, from: int)
    requires
        0 <= from <= k < apps.len(),
        forall|j: int| from <= j < k ==> (#[trigger] apps[j]).slot_id != apps[k].slot_id,
    ensures
        slot_index(apps, apps[k].slot_id, from) == Some(k),
    decreases k - from,
{
    if from < k {
        assert(apps[from].slot_id != apps[k].slot_id);
        lemma_slot_place(apps, k, from + 1);
    }
}

proof fn lemma_slot_held(apps: Seq<AppSlotView>, slot_id: u128, from: int)
    requires
        0 <= from,
    ensures
        slot_index(apps, slot_id, from) matches Some(k) ==> from <= k < apps.len()
            && apps[k].slot_id == slot_id,
    decreases apps.len() - from,
{
    if from < apps.len() {
        lemma_slot_held(apps, slot_id, from + 1);
    }
}

proof fn lemma_project_place(projects: Seq<ProjectView>, i: int, from: int)
    requires
        0 <= from <= i < projects.len(),
        forall|j: int| from <= j < i ==> (#[trigger] projects[j]).id != projects[i].id,
    ensures
        id_index(projects, projects[i].id, from) == Some(i),
    decreases i - from,
{
    if from < i {
        assert(projects[from].id != projects[i].id);
        lemma_project_place(projects, i, from + 1);
    }
}

/// What is arranged for a project is every window that was restored for one of
/// its slots, where that slot says, and no other window.
pub proof fn law_restored_windows_are_arranged(
    state: StateView,
    list: Seq<TrackedWindowView>,
    i: int,
    after: StateView,
    effect: Effect,
)
    requires
        0 <= i < state.projects.len(),
        forall|j: int| 0 <= j < i ==> (#[trigger] state.projects[j]).id != state.projects[i].id,
        is_window_list(state.world.windows, list),
        state.leads_to(Command::Arrange(state.projects[i].id), after, effect),
    ensures
        effect is Arrange,
        ({
            let project = state.projects[i];
            let tiles = effect->Arrange_0.deep_view();
            &&& forall|a: Seq<char>, k: int|
                (#[trigger] state.world.windows.dom().contains(a)) && 0 <= k < project.apps.len()
                    && was_restored_for(
                    state.world.windows[a],
                    project,
                    #[trigger] project.apps[k],
                ) && (forall|j: int|
                    0 <= j < k ==> (#[trigger] project.apps[j]).slot_id
                        != project.apps[k].slot_id) ==> tiles.contains(
                    TileView { address: a, placement: project.apps[k].placement },
                )
            &&& forall|t: int|
                0 <= t < tiles.len() ==> {
                    let tile = #[trigger] tiles[t];
                    &&& state.world.windows.dom().contains(tile.address)
                    &&& is_placed_by(state.world.windows[tile.address], project, tile.placement)
                }
        }),
{
    let project = state.projects[i];
    lemma_project_place(state.projects, i, 0);
    lemma_window_list(state.world.windows, list, list);
    lemma_tiles_among(project, list);
    lemma_filed_by_address(list);
    let tiles = effect->Arrange_0.deep_view();
    assert forall|a: Seq<char>, k: int|
        (#[trigger] state.world.windows.dom().contains(a)) && 0 <= k < project.apps.len()
            && was_restored_for(
            state.world.windows[a],
            project,
            #[trigger] project.apps[k],
        ) && (forall|j: int|
            0 <= j < k ==> (#[trigger] project.apps[j]).slot_id
                != project.apps[k].slot_id) implies tiles.contains(
        TileView { address: a, placement: project.apps[k].placement },
    ) by {
        let window = state.world.windows[a];
        lemma_filed(list, window);
        let w = choose|w: int| 0 <= w < list.len() && list[w] == window;
        lemma_slot_place(project.apps, k, 0);
        assert(tile_of(project, list[w]) == Some(
            TileView { address: a, placement: project.apps[k].placement },
        ));
    }
    assert forall|t: int| 0 <= t < tiles.len() implies {
        let tile = #[trigger] tiles[t];
        &&& state.world.windows.dom().contains(tile.address)
        &&& is_placed_by(state.world.windows[tile.address], project, tile.placement)
    } by {
        let w = choose|w: int|
            0 <= w < list.len() && tile_of(project, #[trigger] list[w]) == Some(tiles[t]);
        assert(list.contains(list[w]));
        lemma_filed(list, list[w]);
        match list[w].assigned_by {
            Some(AssignmentSourceView::Restore(slot_id)) => {
                lemma_slot_held(project.apps, slot_id, 0);
                let k = slot_index(project.apps, slot_id, 0)->0;
                assert(was_restored_for(list[w], project, project.apps[k]));
            },
            _ => {},
        }
    }
}

/// Whether a placement is that of a slot which a window was restored for.
pub open spec fn is_placed_by(
    window: TrackedWindowView,
    project: ProjectView,
    placement: PlacementView,
) -> bool {
    exists|k: int|
        0 <= k < project.apps.len() && was_restored_for(window, project, #[trigger] project.apps[k])
            && project.apps[k].placement == placement
}

/// In the first two passes a tiled window that is too far from its place is
/// focused and swapped, in the third it is focused and moved, each time towards
/// its place; in the fourth one whose size differs is focused and resized to
/// its size; in the last one that was fullscreen or maximized and is not is
/// focused and made so.
pub proof fn law_passes_bring_windows_into_place(tile: TileView, live: ClientView)
    ensures
        ({
            let focus = DispatchView::FocusWindow(canonical(tile.address));
            let wanted = tile.placement;
            let tiled = !wanted.floating && !live.floating;
            &&& tiled && heading(wanted, live.at) is Some ==> {
                let dir = heading(wanted, live.at)->0;
                &&& tile_step(tile, live, 0) == seq![focus, DispatchView::SwapWindow(dir)]
                &&& tile_step(tile, live, 1) == seq![focus, DispatchView::SwapWindow(dir)]
                &&& tile_step(tile, live, 2) == seq![focus, DispatchView::MoveWindowDir(dir)]
            }
            &&& !tiled || heading(wanted, live.at) is None ==> forall|pass: int|
                0 <= pass <= 2 ==> (#[trigger] tile_step(tile, live, pass)).len() == 0
            &&& tiled && wanted.size is Some && wanted.size->0 != live.size ==> {
                let (w, h) = wanted.size->0;
                tile_step(tile, live, 3) == seq![focus, DispatchView::ResizeActiveExact { w, h }]
            }
            &&& !tiled || wanted.size is None || wanted.size->0 == live.size ==> tile_step(
                tile,
                live,
                3,
            ).len() == 0
            &&& wanted.fullscreen == 1 && live.fullscreen != 1 ==> tile_step(tile, live, 4).len()
                == 2 && tile_step(tile, live, 4)[0] == focus && tile_step(tile, live, 4)[1]
                == DispatchView::Raw("fullscreenstate "@ + "1"@ + " -1"@)
            &&& wanted.fullscreen == 2 && live.fullscreen != 2 ==> tile_step(tile, live, 4).len()
                == 2 && tile_step(tile, live, 4)[0] == focus && tile_step(tile, live, 4)[1]
                == DispatchView::Raw("fullscreenstate "@ + "2"@ + " -1"@)
            &&& wanted.fullscreen == live.fullscreen || wanted.fullscreen == 0 ==> tile_step(
                tile,
                live,
                4,
            ).len() == 0
        }),
{
    reveal_strlit("1");
    reveal_strlit("2");
    assert(decimal(1) =~= "1"@);
    assert(decimal(2) =~= "2"@);
}

/// A window is sent off exactly if it is farther from its place than half its
/// size, and then along the axis on which it is farther off, towards its place.
pub proof fn law_heading_is_along_the_farther_axis(
    placement: PlacementView,
    at: (i32, i32),
    x: i32,
    y: i32,
    w: i32,
    h: i32,
)
    requires
        placement.position == Some((x, y)),
        placement.size == Some((w, h)),
        w > 0,
        h > 0,
    ensures
        ({
            let across = if x >= at.0 {
                x - at.0
            } else {
                at.0 - x
            };
            let along = if y >= at.1 {
                y - at.1
            } else {
                at.1 - y
            };
            let to = heading(placement, at);
            &&& to is None <==> across <= w / 2 && along <= h / 2
            &&& to == Some(MoveDir::Right) ==> x > at.0 && across >= along
            &&& to == Some(MoveDir::Left) ==> x <= at.0 && across >= along
            &&& to == Some(MoveDir::Down) ==> y > at.1 && along > across
            &&& to == Some(MoveDir::Up) ==> y <= at.1 && along > across
        }),
{
}

/// The steps go over the windows in order, pass by pass, each with the window
/// as it is by then; a window that is gone is passed over.
pub proof fn law_steps_go_over_the_windows(
    tiles: Seq<TileView>,
    clients: Seq<ClientView>,
    pass: nat,
    t: nat,
)
    requires
        t < tiles.len(),
        pass < 5,
    ensures
        ({
            let step = pass * tiles.len() + t;
            &&& arrangement_step(tiles, clients, step as nat) is Some
            &&& (forall|c: int|
                0 <= c < clients.len() ==> (#[trigger] clients[c]).address
                    != tiles[t as int].address) ==> arrangement_step(
                tiles,
                clients,
                step as nat,
            )->0.len() == 0
            &&& forall|c: int|
                0 <= c < clients.len() && (#[trigger] clients[c]).address == tiles[t as int].address
                    && (forall|d: int|
                    0 <= d < c ==> (#[trigger] clients[d]).address != tiles[t as int].address)
                    ==> arrangement_step(tiles, clients, step as nat) == Some(
                    tile_step(tiles[t as int], clients[c], pass as int),
                )
        }),
{
    let n = tiles.len();
    let step = (pass * n + t) as nat;
    assert(step / n == pass && step % n == t) by {
        vstd::arithmetic::div_mod::lemma_fundamental_div_mod_converse(
            step as int,
            n as int,
            pass as int,
            t as int,
        );
    }
    let address = tiles[t as int].address;
    lemma_client_held(clients, address, 0);
    assert forall|c: int|
        0 <= c < clients.len() && (#[trigger] clients[c]).address == address && (forall|d: int|
            0 <= d < c ==> (#[trigger] clients[d]).address != address) implies arrangement_step(
        tiles,
        clients,
        step,
    ) == Some(tile_step(tiles[t as int], clients[c], pass as int)) by {
        let found = client_index(clients, address, 0)->0;
        if found < c {
            assert(clients[found].address != address);
        }
    }
}

proof fn lemma_client_held(clients: Seq<ClientView>, address: Seq<char>, from: int)
    requires
        0 <= from,
    ensures
        match client_index(clients, address, from) {
            Some(c) => from <= c < clients.len() && clients[c].address == address && forall|d: int|
                from <= d < c ==> (#[trigger] clients[d]).address != address,
            None => forall|d: int|
                from <= d < clients.len() ==> (#[trigger] clients[d]).address != address,
        },
    decreases clients.len() - from,
{
    if from < clients.len() {
        lemma_client_held(clients, address, from + 1);
    }
}

/// A window without a captured position goes nowhere, and one without a
/// captured size goes on until it is exactly in place.
pub proof fn law_unsized_windows_go_all_the_way(placement: PlacementView, at: (i32, i32))
    ensures
        placement.position is None ==> heading(placement, at) is None,
        placement.position is Some && placement.size is None ==> (heading(placement, at) is None
            <==> placement.position == Some(at)),
{
}

} // verus!
