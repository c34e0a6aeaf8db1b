//! Map widget state: the validated zoom level, the center-mode state machine
//! and the per-frame viewport traversal.

use std::collections::HashSet;

use vstd::prelude::*;

use vstd::arithmetic::power2::lemma2_to64;
use vstd::arithmetic::power2::lemma_pow2_strictly_increases;

use crate::mercator::screen_delta_to_position_delta;
use crate::mercator::spec_project_x;
use crate::mercator::spec_tile_id;
use crate::mercator::spec_world_y_of;
use crate::mercator::spec_screen_to_micro;
use crate::mercator::PixelRect;
use crate::mercator::Pixels;
use crate::mercator::TileId;
use crate::position::Position;
use crate::position::LON_LIMIT_MICRO;
use crate::position::MERCATOR_LAT_LIMIT_MICRO;
use crate::tiles::key_of;
use crate::tiles::lemma_key_injective;
use crate::tiles::spec_key_of;
use crate::tiles::Tiles;

verus! {

broadcast use vstd::std_specs::hash::group_hash_axioms;

/// Greatest zoom level any tile server in this crate accepts.
pub const MAX_ZOOM: u8 = 19;

/// Error returned when a zoom level outside `[0, MAX_ZOOM]` is requested.
/// The zoom is never clamped silently; the caller sees this error instead.
#[derive(Debug, Clone, Copy, PartialEq, Eq, Structural)]
pub struct InvalidZoom;

/// Map zoom level: a validated integer in `[0, MAX_ZOOM]`.
///
/// All mutations go through the validating constructor [`Zoom::try_from`],
/// so a `Zoom` value is always within range.
#[derive(Debug, Clone, Copy, PartialEq, Eq, Structural)]
pub struct Zoom(u8);

impl Zoom {
    /// The zoom level as a mathematical value.
    pub closed spec fn level(self) -> u8 {
        self.0
    }

    #[verifier::type_invariant]
    spec fn inv(self) -> bool {
        self.0 <= MAX_ZOOM
    }

    /// Validating constructor: succeeds exactly on the levels in
    /// `[0, MAX_ZOOM]`; every greater level is rejected with [`InvalidZoom`].
    pub fn try_from(value: u8) -> (r: Result<Zoom, InvalidZoom>)
        ensures
            value <= MAX_ZOOM ==> (r matches Ok(z) && z.level() == value),
            value > MAX_ZOOM ==> r == Err::<Zoom, InvalidZoom>(InvalidZoom),
    {
        if value > MAX_ZOOM {
            Err(InvalidZoom)
        } else {
            Ok(Zoom(value))
        }
    }

    /// The current level as an executable value.
    pub fn get(&self) -> (r: u8)
        ensures
            r == self.level(),
            r <= MAX_ZOOM,
    {
        proof {
            use_type_invariant(self);
        }
        self.0
    }

    /// Increment the zoom level through the validating constructor.
    /// At `MAX_ZOOM` the increment fails and the level is left unchanged.
    pub fn try_zoom_in(&mut self) -> (r: Result<(), InvalidZoom>)
        ensures
            old(self).level() < MAX_ZOOM ==> {
                &&& r == Ok::<(), InvalidZoom>(())
                &&& final(self).level() == old(self).level() + 1
            },
            old(self).level() >= MAX_ZOOM ==> {
                &&& r == Err::<(), InvalidZoom>(InvalidZoom)
                &&& *final(self) == *old(self)
            },
    {
        proof {
            use_type_invariant(&*self);
        }
        match Zoom::try_from(self.0 + 1) {
            Ok(z) => {
                *self = z;
                Ok(())
            },
            Err(e) => Err(e),
        }
    }

    /// Decrement the zoom level. At level 0 the decrement fails and the
    /// level is left unchanged.
    pub fn try_zoom_out(&mut self) -> (r: Result<(), InvalidZoom>)
        ensures
            old(self).level() > 0 ==> {
                &&& r == Ok::<(), InvalidZoom>(())
                &&& final(self).level() == old(self).level() - 1
            },
            old(self).level() == 0 ==> {
                &&& r == Err::<(), InvalidZoom>(InvalidZoom)
                &&& *final(self) == *old(self)
            },
    {
        proof {
            use_type_invariant(&*self);
        }
        if self.0 == 0 {
            Err(InvalidZoom)
        } else {
            *self = Zoom(self.0 - 1);
            Ok(())
        }
    }
}

impl Default for Zoom {
    /// The default zoom level is 16.
    fn default() -> (r: Self)
        ensures
            r.level() == 16,
    {
        Zoom(16)
    }
}

/// Clamp a value to a closed interval.
pub open spec fn clamped(v: int, lo: int, hi: int) -> int {
    if v < lo {
        lo
    } else if v > hi {
        hi
    } else {
        v
    }
}

/// Map center tracking state: follow the externally supplied live position,
/// or hold a fixed position set by user panning.
#[derive(Debug, Clone, Copy, PartialEq, Eq, Structural)]
pub enum MapCenterMode {
    MyPosition,
    Exact(Position),
}

/// The center-mode transition for one frame's drag gesture.
///
/// Without a drag nothing changes. The first drag while following the live
/// position anchors at that position, before any offset is applied. A drag
/// while anchored moves the anchor against the inverse-projected screen
/// delta, clamped to the longitude range and the mercator-valid latitude
/// range at the pyramid boundary.
///
/// The clamp is a deliberate totalization: it keeps every anchored
/// position inside the projection's domain, where a floating-point
/// position would simply run past the bounds. At the antimeridian the
/// anchor sticks to the edge rather than wrapping around the world.
pub open spec fn drag_step(
    pre: MapCenterMode,
    post: MapCenterMode,
    my_position: Position,
    dragged: bool,
    dx: int,
    dy: int,
    zoom: nat,
) -> bool {
    if !dragged {
        post == pre
    } else {
        match pre {
            MapCenterMode::MyPosition => post == MapCenterMode::Exact(my_position),
            MapCenterMode::Exact(p) => {
                let dlon = spec_screen_to_micro(dx, zoom);
                let dlat = -spec_screen_to_micro(dy, zoom);
                &&& post matches MapCenterMode::Exact(q)
                &&& q.lon() == clamped(p.lon() - dlon, -LON_LIMIT_MICRO as int, LON_LIMIT_MICRO as int)
                &&& q.lat() == clamped(
                    p.lat() - dlat,
                    -MERCATOR_LAT_LIMIT_MICRO as int,
                    MERCATOR_LAT_LIMIT_MICRO as int,
                )
            },
        }
    }
}

/// Panning while anchored: a drag by `(dx, dy)` at `zoom` moves the
/// anchored position by exactly the negated inverse-projected screen
/// delta, whenever the moved position stays inside the longitude range and
/// the mercator-valid latitude range (outside them it is clamped, as
/// [`drag_step`] states).
pub proof fn lemma_drag_moves_by_projected_delta(
    pre: MapCenterMode,
    post: MapCenterMode,
    my_position: Position,
    dx: int,
    dy: int,
    zoom: nat,
)
    requires
        pre matches MapCenterMode::Exact(p) && ({
            let dlon = spec_screen_to_micro(dx, zoom);
            let dlat = -spec_screen_to_micro(dy, zoom);
            &&& -LON_LIMIT_MICRO <= p.lon() - dlon <= LON_LIMIT_MICRO
            &&& -MERCATOR_LAT_LIMIT_MICRO <= p.lat() - dlat <= MERCATOR_LAT_LIMIT_MICRO
        }),
        drag_step(pre, post, my_position, true, dx, dy, zoom),
    ensures
        post matches MapCenterMode::Exact(q) && (pre matches MapCenterMode::Exact(p) ==> {
            &&& q.lon() == p.lon() - spec_screen_to_micro(dx, zoom)
            &&& q.lat() == p.lat() + spec_screen_to_micro(dy, zoom)
        }),
{
}

impl MapCenterMode {
    /// The map center this mode stands for, given the live position.
    pub open spec fn spec_position(self, my_position: Position) -> Position {
        match self {
            MapCenterMode::MyPosition => my_position,
            MapCenterMode::Exact(position) => position,
        }
    }

    /// The current map center.
    pub fn position(&self, my_position: Position) -> (r: Position)
        ensures
            r == self.spec_position(my_position),
    {
        match self {
            MapCenterMode::MyPosition => my_position,
            MapCenterMode::Exact(position) => *position,
        }
    }

    /// The anchored position while panned away from the live position.
    pub open spec fn spec_detached(self) -> Option<Position> {
        match self {
            MapCenterMode::MyPosition => None,
            MapCenterMode::Exact(position) => Some(position),
        }
    }

    /// The anchored position, or `None` while following the live position.
    pub fn detached(&self) -> (r: Option<Position>)
        ensures
            r == self.spec_detached(),
    {
        match self {
            MapCenterMode::MyPosition => None,
            MapCenterMode::Exact(position) => Some(*position),
        }
    }

    /// Apply one frame's drag gesture, as [`drag_step`] states.
    pub fn screen_drag(&mut self, dragged: bool, dx: i32, dy: i32, my_position: Position, zoom: u8)
        requires
            zoom <= MAX_ZOOM,
        ensures
            drag_step(
                *old(self),
                *final(self),
                my_position,
                dragged,
                dx as int,
                dy as int,
                zoom as nat,
            ),
    {
        if dragged {
            let cur = *self;
            let next = match cur {
                MapCenterMode::MyPosition => MapCenterMode::Exact(my_position),
                MapCenterMode::Exact(position) => {
                    let delta = screen_delta_to_position_delta(dx, dy, zoom);
                    let lon1: i64 = position.x() - delta.0;
                    let lat1: i64 = position.y() - delta.1;
                    let lon2: i64 = if lon1 < -180_000_000 {
                        -180_000_000
                    } else if lon1 > 180_000_000 {
                        180_000_000
                    } else {
                        lon1
                    };
                    let lat2: i64 = if lat1 < -85_051_128 {
                        -85_051_128
                    } else if lat1 > 85_051_128 {
                        85_051_128
                    } else {
                        lat1
                    };
                    MapCenterMode::Exact(Position::new(lon2, lat2))
                },
            };
            *self = next;
        }
    }
}

/// The widget state that survives between frames.
#[derive(Debug, Clone, Copy, PartialEq, Eq, Structural)]
pub struct MapMemory {
    pub center_mode: MapCenterMode,
    pub osm: bool,
    pub zoom: Zoom,
}

impl Default for MapMemory {
    /// Fresh state: following the live position, tile layer off, zoom 16.
    fn default() -> (r: Self)
        ensures
            r.center_mode == MapCenterMode::MyPosition,
            r.osm == false,
            r.zoom.level() == 16,
    {
        MapMemory { center_mode: MapCenterMode::MyPosition, osm: false, zoom: Zoom::default() }
    }
}

/// Horizontal screen position of a tile's west edge: the tile's place on
/// the world bitmap, shifted so that the projected map center lands at the
/// clip rectangle's center.
pub open spec fn tile_min_x(t: TileId, center_world: Pixels, clip: PixelRect) -> int {
    clip.min_x + (clip.max_x - clip.min_x) / 2 + 256 * (t.x as int) - (center_world.x as int)
}

/// Vertical screen position of a tile's north edge.
pub open spec fn tile_min_y(t: TileId, center_world: Pixels, clip: PixelRect) -> int {
    clip.min_y + (clip.max_y - clip.min_y) / 2 + 256 * (t.y as int) - (center_world.y as int)
}

/// `r` is exactly the screen rectangle of tile `t`.
pub open spec fn tile_rect_ok(
    t: TileId,
    center_world: Pixels,
    clip: PixelRect,
    r: PixelRect,
) -> bool {
    &&& r.min_x == tile_min_x(t, center_world, clip)
    &&& r.min_y == tile_min_y(t, center_world, clip)
    &&& r.max_x == r.min_x + 256
    &&& r.max_y == r.min_y + 256
}

/// The screen rectangle of tile `t` meets the clip rectangle this frame.
pub open spec fn tile_on_screen(t: TileId, center_world: Pixels, clip: PixelRect) -> bool {
    &&& tile_min_x(t, center_world, clip) <= clip.max_x
    &&& clip.min_x <= tile_min_x(t, center_world, clip) + 256
    &&& tile_min_y(t, center_world, clip) <= clip.max_y
    &&& clip.min_y <= tile_min_y(t, center_world, clip) + 256
}

/// A tile the walker draws when it reaches it: cached and on screen.
pub open spec fn drawable(t: TileId, tiles: Tiles, center_world: Pixels, clip: PixelRect) -> bool {
    &&& tiles.cached().contains_key(spec_key_of(t) as u64)
    &&& tile_on_screen(t, center_world, clip)
}

/// The center tile is drawable this frame: its image is cached and its
/// screen rectangle intersects the clip rectangle.
pub open spec fn center_visible(
    tiles: Tiles,
    center: TileId,
    center_world: Pixels,
    clip: PixelRect,
) -> bool {
    drawable(center, tiles, center_world, clip)
}

/// The center tile is a visible cache miss that the request buffer can
/// still take: the walker is then bound to request it.
pub open spec fn center_requestable(
    tiles: Tiles,
    center: TileId,
    center_world: Pixels,
    clip: PixelRect,
) -> bool {
    &&& !tiles.cached().contains_key(spec_key_of(center) as u64)
    &&& !tiles.pending_set().contains(spec_key_of(center) as u64)
    &&& tiles.queued().len() < tiles.capacity()
    &&& tile_on_screen(center, center_world, clip)
}

/// The draw list holds tile `t`.
pub open spec fn drawn(draw: Seq<(TileId, PixelRect)>, t: TileId) -> bool {
    exists|j: int| 0 <= j < draw.len() && (#[trigger] draw[j]).0 == t
}

/// One neighbor's coverage obligation: where the neighbor exists, is
/// cached and on screen, it is drawn too.
pub open spec fn neighbor_covered(
    n: Option<TileId>,
    tiles: Tiles,
    center_world: Pixels,
    clip: PixelRect,
    draw: Seq<(TileId, PixelRect)>,
) -> bool {
    (n matches Some(t) && drawable(t, tiles, center_world, clip)) ==> drawn(draw, n->Some_0)
}

/// All four neighbors of `t` meet their coverage obligation.
pub open spec fn covered(
    t: TileId,
    tiles: Tiles,
    center_world: Pixels,
    clip: PixelRect,
    draw: Seq<(TileId, PixelRect)>,
) -> bool {
    &&& neighbor_covered(t.spec_north(), tiles, center_world, clip, draw)
    &&& neighbor_covered(t.spec_east(), tiles, center_world, clip, draw)
    &&& neighbor_covered(t.spec_south(), tiles, center_world, clip, draw)
    &&& neighbor_covered(t.spec_west(), tiles, center_world, clip, draw)
}

/// Where the neighbor exists, its cache key is in the visited set.
spec fn neighbor_visited(n: Option<TileId>, visited: Set<u64>) -> bool {
    n matches Some(t) ==> visited.contains(spec_key_of(t) as u64)
}

/// All four neighbors of `t` are in the visited set.
spec fn neighbors_visited(t: TileId, visited: Set<u64>) -> bool {
    &&& neighbor_visited(t.spec_north(), visited)
    &&& neighbor_visited(t.spec_east(), visited)
    &&& neighbor_visited(t.spec_south(), visited)
    &&& neighbor_visited(t.spec_west(), visited)
}

/// The screen rectangle one tile occupies this frame.
fn tile_screen_rect(t: TileId, center_world: Pixels, clip: &PixelRect) -> (r: PixelRect)
    requires
        t.valid(),
        clip.wf(),
        clip.within(0x1_0000_0000),
    ensures
        tile_rect_ok(t, center_world, *clip, r),
{
    let p = t.position_on_world_bitmap();
    let cx: i64 = clip.min_x + (clip.max_x - clip.min_x) / 2;
    let cy: i64 = clip.min_y + (clip.max_y - clip.min_y) / 2;
    let minx: i64 = cx + p.x as i64 - center_world.x as i64;
    let miny: i64 = cy + p.y as i64 - center_world.y as i64;
    PixelRect { min_x: minx, min_y: miny, max_x: minx + 256, max_y: miny + 256 }
}

/// A tile's existing neighbors are themselves valid tiles at its zoom.
proof fn lemma_neighbors_valid(t: TileId)
    requires
        t.valid(),
    ensures
        t.spec_north() matches Some(n) ==> n.valid() && n.zoom == t.zoom,
        t.spec_east() matches Some(n) ==> n.valid() && n.zoom == t.zoom,
        t.spec_south() matches Some(n) ==> n.valid() && n.zoom == t.zoom,
        t.spec_west() matches Some(n) ==> n.valid() && n.zoom == t.zoom,
{
    if (t.zoom as nat) < 19 {
        lemma_pow2_strictly_increases(t.zoom as nat, 19);
    }
    lemma2_to64();
}

/// Enumerate the tiles to draw this frame: a flood fill across tile
/// neighbors starting at the tile under the map center.
///
/// A tile whose screen rectangle misses the clip rectangle is culled, and
/// its neighbors are not expanded. A tile that is not cached yet is
/// requested through the cache and also halts expansion along that branch
/// for this frame (the loading edge is not drawn past). Every drawn tile is
/// cached, lies inside the clip rectangle, and sits at its exact screen
/// rectangle; the cache's stored tiles are not changed, and its request
/// queue only grows, by on-screen cache misses now marked pending.
///
/// The second component reports whether the walk ran to completion (the
/// visited set makes it finite; an explicit budget of 2^32 steps makes
/// termination locally evident and bounds pathological frames). On a
/// completed walk the draw list is neighbor-closed: every cached,
/// on-screen neighbor of a drawn tile is drawn as well.
pub fn flood_fill_tiles(
    tiles: &mut Tiles,
    center: TileId,
    center_world: Pixels,
    clip: PixelRect,
) -> (res: (Vec<(TileId, PixelRect)>, bool))
    requires
        center.valid(),
        clip.wf(),
        clip.within(0x1_0000_0000),
    ensures
        final(tiles).cached() == old(tiles).cached(),
        final(tiles).capacity() == old(tiles).capacity(),
        final(tiles).spec_provider() == old(tiles).spec_provider(),
        old(tiles).queued().is_prefix_of(final(tiles).queued()),
        old(tiles).pending_set().subset_of(final(tiles).pending_set()),
        forall|i: int|
            old(tiles).queued().len() <= i < final(tiles).queued().len() ==> {
                let t = #[trigger] final(tiles).queued()[i];
                &&& t.valid()
                &&& t.zoom == center.zoom
                &&& !old(tiles).cached().contains_key(spec_key_of(t) as u64)
                &&& tile_on_screen(t, center_world, clip)
                &&& final(tiles).pending_set().contains(spec_key_of(t) as u64)
            },
        forall|i: int|
            0 <= i < res.0@.len() ==> {
                let t = (#[trigger] res.0@[i]).0;
                let r = res.0@[i].1;
                &&& t.valid()
                &&& t.zoom == center.zoom
                &&& old(tiles).cached().contains_key(spec_key_of(t) as u64)
                &&& tile_rect_ok(t, center_world, clip, r)
                &&& r.spec_intersects(clip)
            },
        forall|i: int, j: int|
            0 <= i < j < res.0@.len() ==> (#[trigger] res.0@[i]).0 != (#[trigger] res.0@[j]).0,
        center_visible(*old(tiles), center, center_world, clip) ==> res.0@.len() > 0
            && res.0@[0].0 == center,
        center_requestable(*old(tiles), center, center_world, clip) ==> exists|j: int|
            0 <= j < final(tiles).queued().len() && final(tiles).queued()[j] == center,
        res.1 ==> forall|i: int|
            0 <= i < res.0@.len() ==> covered(
                (#[trigger] res.0@[i]).0,
                *old(tiles),
                center_world,
                clip,
                res.0@,
            ),
{
    let ghost fuel0: u64 = 0x1_0000_0000;
    let mut fuel: u64 = 0x1_0000_0000;
    let mut draw: Vec<(TileId, PixelRect)> = Vec::new();
    let mut stack: Vec<TileId> = Vec::new();
    let mut visited: HashSet<u64> = HashSet::new();
    let ck = key_of(center);
    visited.insert(ck);
    stack.push(center);
    proof {
        assert(stack@ =~= seq![center]);
        assert forall|t: TileId|
            t.valid() && t.zoom == center.zoom && #[trigger] visited@.contains(
                spec_key_of(t) as u64,
            ) && drawable(t, *old(tiles), center_world, clip) implies stack@.contains(t) || drawn(
            draw@,
            t,
        ) by {
            lemma_key_injective(t, center);
            assert(stack@[0] == center);
        }
    }
    while stack.len() > 0 && fuel > 0
        invariant
            center.valid(),
            clip.wf(),
            clip.within(0x1_0000_0000),
            tiles.cached() == old(tiles).cached(),
            tiles.capacity() == old(tiles).capacity(),
            tiles.spec_provider() == old(tiles).spec_provider(),
            old(tiles).queued().is_prefix_of(tiles.queued()),
            old(tiles).pending_set().subset_of(tiles.pending_set()),
            forall|i: int|
                old(tiles).queued().len() <= i < tiles.queued().len() ==> {
                    let t = #[trigger] tiles.queued()[i];
                    &&& t.valid()
                    &&& t.zoom == center.zoom
                    &&& !old(tiles).cached().contains_key(spec_key_of(t) as u64)
                    &&& tile_on_screen(t, center_world, clip)
                    &&& tiles.pending_set().contains(spec_key_of(t) as u64)
                },
            forall|i: int|
                0 <= i < stack@.len() ==> (#[trigger] stack@[i]).valid() && stack@[i].zoom
                    == center.zoom,
            forall|i: int|
                0 <= i < draw@.len() ==> {
                    let t = (#[trigger] draw@[i]).0;
                    let r = draw@[i].1;
                    &&& t.valid()
                    &&& t.zoom == center.zoom
                    &&& old(tiles).cached().contains_key(spec_key_of(t) as u64)
                    &&& tile_rect_ok(t, center_world, clip, r)
                    &&& r.spec_intersects(clip)
                },
            draw@.len() > 0 ==> draw@[0].0 == center,
            forall|i: int|
                0 <= i < stack@.len() ==> visited@.contains(
                    spec_key_of(#[trigger] stack@[i]) as u64,
                ),
            forall|i: int|
                0 <= i < draw@.len() ==> visited@.contains(
                    spec_key_of((#[trigger] draw@[i]).0) as u64,
                ),
            forall|i: int, j: int|
                0 <= i < j < stack@.len() ==> spec_key_of(#[trigger] stack@[i]) != spec_key_of(
                    #[trigger] stack@[j],
                ),
            forall|i: int, j: int|
                0 <= i < j < draw@.len() ==> spec_key_of((#[trigger] draw@[i]).0) != spec_key_of(
                    (#[trigger] draw@[j]).0,
                ),
            forall|i: int, j: int|
                0 <= i < stack@.len() && 0 <= j < draw@.len() ==> spec_key_of(
                    #[trigger] stack@[i],
                ) != spec_key_of((#[trigger] draw@[j]).0),
            forall|i: int|
                0 <= i < draw@.len() ==> neighbors_visited((#[trigger] draw@[i]).0, visited@),
            forall|t: TileId|
                t.valid() && t.zoom == center.zoom && #[trigger] visited@.contains(
                    spec_key_of(t) as u64,
                ) && drawable(t, *old(tiles), center_world, clip) ==> stack@.contains(t) || drawn(
                    draw@,
                    t,
                ),
            draw@.len() == 0 ==> forall|i: int|
                0 <= i < stack@.len() ==> (#[trigger] stack@[i]) == center,
            center_visible(*old(tiles), center, center_world, clip) && draw@.len() == 0 ==> (
            stack@ =~= seq![center] && fuel == fuel0),
            center_requestable(*old(tiles), center, center_world, clip) ==> ((stack@ =~= seq![
                center,
            ] && tiles.queued() == old(tiles).queued() && tiles.pending_set() == old(
                tiles,
            ).pending_set() && fuel == fuel0) || exists|j: int|
                0 <= j < tiles.queued().len() && #[trigger] tiles.queued()[j] == center),
        decreases fuel,
    {
        let ghost pre_stack = stack@;
        let ghost pre_draw = draw@;
        let ghost pre_visited = visited@;
        let ghost pre_queue = tiles.queued();
        let ghost pre_pending = tiles.pending_set();
        let ghost pre_fuel = fuel;
        fuel = fuel - 1;
        let t = stack.pop().unwrap();
        let ghost popped_stack = stack@;
        let r = tile_screen_rect(t, center_world, &clip);
        let visible = r.intersects(&clip);
        let drew: bool = if visible {
            match tiles.lookup_or_request(t) {
                Some(_) => true,
                None => false,
            }
        } else {
            false
        };
        proof {
            assert(drew == drawable(t, *old(tiles), center_world, clip));
        }
        let nn = t.north();
        let ne = t.east();
        let ns = t.south();
        let nw = t.west();
        if drew {
            draw.push((t, r));
            let mut nbrs: Vec<TileId> = Vec::new();
            if let Some(n) = nn {
                nbrs.push(n);
            }
            if let Some(n) = ne {
                nbrs.push(n);
            }
            if let Some(n) = ns {
                nbrs.push(n);
            }
            if let Some(n) = nw {
                nbrs.push(n);
            }
            proof {
                assert(nn matches Some(n) ==> nbrs@.contains(n)) by {
                    if nn is Some {
                        assert(nbrs@[0] == nn->Some_0);
                    }
                }
                assert(ne matches Some(n) ==> nbrs@.contains(n)) by {
                    if ne is Some {
                        let ghost j = if nn is Some { 1int } else { 0int };
                        assert(nbrs@[j] == ne->Some_0);
                    }
                }
                assert(ns matches Some(n) ==> nbrs@.contains(n)) by {
                    if ns is Some {
                        let ghost j = (if nn is Some { 1int } else { 0int }) + (if ne is Some { 1int } else { 0int });
                        assert(nbrs@[j] == ns->Some_0);
                    }
                }
                assert(nw matches Some(n) ==> nbrs@.contains(n)) by {
                    if nw is Some {
                        let ghost j = (if nn is Some { 1int } else { 0int }) + (if ne is Some { 1int } else { 0int }) + (if ns is Some { 1int } else { 0int });
                        assert(nbrs@[j] == nw->Some_0);
                    }
                }
            }
            let mut q: usize = 0;
            while q < nbrs.len()
                invariant
                    center.valid(),
                    q <= nbrs@.len(),
                    forall|ii: int|
                        0 <= ii < nbrs@.len() ==> (#[trigger] nbrs@[ii]).valid() && nbrs@[ii].zoom
                            == center.zoom,
                    forall|i: int|
                        0 <= i < stack@.len() ==> (#[trigger] stack@[i]).valid() && stack@[i].zoom
                            == center.zoom,
                    forall|i: int|
                        0 <= i < stack@.len() ==> visited@.contains(
                            spec_key_of(#[trigger] stack@[i]) as u64,
                        ),
                    forall|i: int|
                        0 <= i < draw@.len() ==> visited@.contains(
                            spec_key_of((#[trigger] draw@[i]).0) as u64,
                        ),
                    forall|i: int, j: int|
                        0 <= i < j < stack@.len() ==> spec_key_of(#[trigger] stack@[i])
                            != spec_key_of(#[trigger] stack@[j]),
                    forall|i: int, j: int|
                        0 <= i < stack@.len() && 0 <= j < draw@.len() ==> spec_key_of(
                            #[trigger] stack@[i],
                        ) != spec_key_of((#[trigger] draw@[j]).0),
                    pre_visited.subset_of(visited@),
                    popped_stack.is_prefix_of(stack@),
                    forall|ii: int|
                        0 <= ii < q ==> visited@.contains(spec_key_of(#[trigger] nbrs@[ii]) as u64),
                    forall|tt: TileId|
                        tt.valid() && #[trigger] visited@.contains(spec_key_of(tt) as u64)
                            && !pre_visited.contains(spec_key_of(tt) as u64) ==> stack@.contains(
                            tt,
                        ),
                decreases nbrs@.len() - q,
            {
                let ghost stack_before = stack@;
                let ghost visited_before = visited@;
                let n = nbrs[q];
                let k = key_of(n);
                if !visited.contains(&k) {
                    visited.insert(k);
                    stack.push(n);
                    proof {
                        assert(stack@.last() == n);
                        assert(stack@.contains(n));
                        assert(stack_before.is_prefix_of(stack@)) by {
                            assert(stack@.subrange(0, stack_before.len() as int)
                                =~= stack_before);
                        }
                        assert(popped_stack.is_prefix_of(stack@)) by {
                            assert(stack@.subrange(0, popped_stack.len() as int)
                                =~= popped_stack);
                        }
                        assert forall|tt: TileId|
                            tt.valid() && #[trigger] visited@.contains(spec_key_of(tt) as u64)
                                && !pre_visited.contains(
                                spec_key_of(tt) as u64,
                            ) implies stack@.contains(tt) by {
                            if visited_before.contains(spec_key_of(tt) as u64) {
                                assert(stack_before.contains(tt));
                                let j = choose|j: int|
                                    0 <= j < stack_before.len() && stack_before[j] == tt;
                                assert(stack@[j] == tt);
                            } else {
                                assert(spec_key_of(tt) as u64 == k);
                                lemma_key_injective(tt, n);
                            }
                        }
                    }
                }
                q = q + 1;
            }
        }
        proof {
            lemma_neighbors_valid(t);
            assert(pre_visited.subset_of(visited@));
            // every visited, drawable tile is still on the stack or drawn
            assert forall|tt: TileId|
                tt.valid() && tt.zoom == center.zoom && #[trigger] visited@.contains(
                    spec_key_of(tt) as u64,
                ) && drawable(tt, *old(tiles), center_world, clip) implies stack@.contains(tt)
                || drawn(draw@, tt) by {
                if pre_visited.contains(spec_key_of(tt) as u64) {
                    assert(pre_stack.contains(tt) || drawn(pre_draw, tt));
                    if drawn(pre_draw, tt) {
                        let j = choose|j: int|
                            0 <= j < pre_draw.len() && (#[trigger] pre_draw[j]).0 == tt;
                        assert(draw@[j].0 == tt);
                        assert(drawn(draw@, tt));
                    } else {
                        let j = choose|j: int|
                            0 <= j < pre_stack.len() && #[trigger] pre_stack[j] == tt;
                        if j < pre_stack.len() - 1 {
                            assert(popped_stack[j] == tt);
                            assert(stack@[j] == tt);
                            assert(stack@.contains(tt));
                        } else {
                            assert(tt == t);
                            assert(drew);
                            assert(draw@[pre_draw.len() as int].0 == tt);
                            assert(drawn(draw@, tt));
                        }
                    }
                }
            }
            // drawn tiles have all their neighbors visited
            assert forall|i: int| 0 <= i < draw@.len() implies neighbors_visited(
                (#[trigger] draw@[i]).0,
                visited@,
            ) by {
                if i < pre_draw.len() {
                    assert(neighbors_visited(pre_draw[i].0, pre_visited));
                    assert(draw@[i] == pre_draw[i]);
                } else {
                    assert(draw@[i].0 == t);
                }
            }
            // every queued request is a visible miss, marked pending
            assert forall|i: int|
                old(tiles).queued().len() <= i < tiles.queued().len() implies {
                let qq = #[trigger] tiles.queued()[i];
                &&& qq.valid()
                &&& qq.zoom == center.zoom
                &&& !old(tiles).cached().contains_key(spec_key_of(qq) as u64)
                &&& tile_on_screen(qq, center_world, clip)
                &&& tiles.pending_set().contains(spec_key_of(qq) as u64)
            } by {
                if i < pre_queue.len() {
                    assert(tiles.queued()[i] == pre_queue[i]);
                }
            }
            // a requestable center is requested by its first visit
            if center_requestable(*old(tiles), center, center_world, clip) {
                if pre_stack =~= seq![center] && pre_queue == old(tiles).queued() && pre_pending
                    == old(tiles).pending_set() && pre_fuel == fuel0 {
                    assert(t == center);
                    assert(visible);
                    assert(!drew);
                    assert(tiles.queued() == pre_queue.push(center));
                    assert(tiles.queued()[pre_queue.len() as int] == center);
                } else {
                    let j = choose|j: int|
                        0 <= j < pre_queue.len() && #[trigger] pre_queue[j] == center;
                    assert(tiles.queued()[j] == center);
                }
            }
        }
    }
    let complete = stack.len() == 0;
    proof {
        if center_requestable(*old(tiles), center, center_world, clip) {
            if stack@ =~= seq![center] && tiles.queued() == old(tiles).queued()
                && tiles.pending_set() == old(tiles).pending_set() && fuel == fuel0 {
                assert(stack.len() == 1);
                assert(false);
            }
        }
        if complete {
            assert forall|i: int| 0 <= i < draw@.len() implies covered(
                (#[trigger] draw@[i]).0,
                *old(tiles),
                center_world,
                clip,
                draw@,
            ) by {
                let t = draw@[i].0;
                lemma_neighbors_valid(t);
                assert(neighbors_visited(t, visited@));
            }
        }
    }
    (draw, complete)
}

/// Slippy map widget: one frame's worth of map logic, wrapping the
/// persistent [`MapMemory`] and the live position supplied for the frame.
#[derive(Debug, Clone, Copy)]
pub struct MapWidget {
    pub memory: MapMemory,
    pub my_position: Position,
}

impl MapWidget {
    /// Gather the frame's state.
    pub fn new(memory: MapMemory, my_position: Position) -> (r: MapWidget)
        ensures
            r.memory == memory,
            r.my_position == my_position,
    {
        MapWidget { memory, my_position }
    }

    /// The projected map center this frame stands at, given the mode the
    /// drag gesture left behind.
    pub open spec fn spec_frame_center_world(center: Position, zoom: nat) -> Pixels {
        Pixels {
            x: spec_project_x(center.lon() as int, zoom) as u32,
            y: spec_world_y_of(center.lat() as int, zoom) as u32,
        }
    }

    /// One frame of the map widget: apply the drag gesture to the
    /// center/zoom state machine, then enumerate the visible tiles within
    /// the clip rectangle, requesting missing ones through the cache.
    ///
    /// Returns the tiles to draw with their screen rectangles (empty while
    /// the tile layer is switched off), and whether the traversal ran to
    /// completion. With the tile layer on, the tile under the post-drag
    /// map center is drawn first when it is cached and on screen, and is
    /// requested when it is an on-screen miss the request buffer can take;
    /// a completed traversal draws a neighbor-closed set.
    pub fn ui(
        &mut self,
        tiles: &mut Tiles,
        clip: PixelRect,
        dragged: bool,
        drag_dx: i32,
        drag_dy: i32,
    ) -> (res: (Vec<(TileId, PixelRect)>, bool))
        requires
            old(self).my_position.mercator_valid(),
            old(self).memory.center_mode matches MapCenterMode::Exact(p) ==> p.mercator_valid(),
            clip.wf(),
            clip.within(0x1_0000_0000),
        ensures
            final(self).my_position == old(self).my_position,
            final(self).memory.osm == old(self).memory.osm,
            final(self).memory.zoom == old(self).memory.zoom,
            drag_step(
                old(self).memory.center_mode,
                final(self).memory.center_mode,
                old(self).my_position,
                dragged,
                drag_dx as int,
                drag_dy as int,
                old(self).memory.zoom.level() as nat,
            ),
            !old(self).memory.osm ==> res.0@.len() == 0 && *final(tiles) == *old(tiles),
            final(tiles).cached() == old(tiles).cached(),
            final(tiles).capacity() == old(tiles).capacity(),
            final(tiles).spec_provider() == old(tiles).spec_provider(),
            old(tiles).queued().is_prefix_of(final(tiles).queued()),
            old(tiles).pending_set().subset_of(final(tiles).pending_set()),
            forall|i: int|
                0 <= i < res.0@.len() ==> {
                    let t = (#[trigger] res.0@[i]).0;
                    &&& t.valid()
                    &&& t.zoom == old(self).memory.zoom.level()
                    &&& old(tiles).cached().contains_key(spec_key_of(t) as u64)
                    &&& res.0@[i].1.spec_intersects(clip)
                },
            old(self).memory.osm ==> ({
                let center = final(self).memory.center_mode.spec_position(old(self).my_position);
                let zoom = old(self).memory.zoom.level() as nat;
                let ct = spec_tile_id(center.lon() as int, center.lat() as int, zoom);
                let cw = MapWidget::spec_frame_center_world(center, zoom);
                &&& (center_visible(*old(tiles), ct, cw, clip) ==> res.0@.len() > 0 && res.0@[0].0
                    == ct)
                &&& (center_requestable(*old(tiles), ct, cw, clip) ==> exists|j: int|
                    0 <= j < final(tiles).queued().len() && final(tiles).queued()[j] == ct)
                &&& (res.1 ==> forall|i: int|
                    0 <= i < res.0@.len() ==> covered(
                        (#[trigger] res.0@[i]).0,
                        *old(tiles),
                        cw,
                        clip,
                        res.0@,
                    ))
            }),
    {
        let zoom_level = self.memory.zoom.get();
        self.memory.center_mode.screen_drag(
            dragged,
            drag_dx,
            drag_dy,
            self.my_position,
            zoom_level,
        );
        let map_center = self.memory.center_mode.position(self.my_position);
        assert(map_center.mercator_valid());
        if self.memory.osm {
            let center_tile = map_center.tile_id(zoom_level);
            let center_world = map_center.project(zoom_level);
            proof {
                assert(center_world == MapWidget::spec_frame_center_world(
                    map_center,
                    zoom_level as nat,
                ));
            }
            flood_fill_tiles(tiles, center_tile, center_world, clip)
        } else {
            (Vec::new(), true)
        }
    }
}

} // verus!
