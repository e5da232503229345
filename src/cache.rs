//! The chunk cache that follows the viewpoint: which chunks are resident,
//! the window that should be resident, and the plan that moves one to the
//! other when the viewpoint crosses a chunk boundary.

use vstd::prelude::*;

use crate::chunk::Chunk;
use crate::config::ChunkConfig;
use crate::coords::{chunk_axis, tile_to_chunk, ChunkCoordinate, TileCoordinate};

verus! {

/// Whether chunk `c` lies in the square window of half-width `r` around
/// `center`.
pub open spec fn in_window(c: ChunkCoordinate, center: ChunkCoordinate, r: int) -> bool {
    &&& center.x - r <= c.x <= center.x + r
    &&& center.y - r <= c.y <= center.y + r
}

/// The window of half-width `r` around `center`: a square of side `2r + 1`.
pub open spec fn window_set(center: ChunkCoordinate, r: int) -> Set<ChunkCoordinate> {
    Set::new(|c: ChunkCoordinate| in_window(c, center, r))
}

/// The window's edges lie in the chunk axis range.
pub open spec fn window_fits(center: ChunkCoordinate, r: int) -> bool {
    &&& i32::MIN <= center.x - r
    &&& center.x + r <= i32::MAX
    &&& i32::MIN <= center.y - r
    &&& center.y + r <= i32::MAX
}

/// The chunk that holds the viewpoint tile `t`.
pub open spec fn viewpoint_chunk(t: TileCoordinate, n: int) -> ChunkCoordinate {
    ChunkCoordinate { x: chunk_axis(t.x as int, n) as i32, y: chunk_axis(t.y as int, n) as i32 }
}

/// What one tick has to do: the window coordinates that are not resident yet,
/// and the resident coordinates that have left the window.
#[derive(Debug)]
pub struct TickPlan {
    pub to_load: Vec<ChunkCoordinate>,
    pub to_evict: Vec<ChunkCoordinate>,
}

/// `plan` moves the resident set `cached` to `window`: it loads exactly the
/// window's missing coordinates and evicts exactly the resident ones outside
/// it, each once.
pub open spec fn plan_matches(
    plan: TickPlan,
    cached: Set<ChunkCoordinate>,
    window: Set<ChunkCoordinate>,
) -> bool {
    &&& plan.to_load@.no_duplicates()
    &&& plan.to_load@.to_set() == window.difference(cached)
    &&& plan.to_evict@.no_duplicates()
    &&& plan.to_evict@.to_set() == cached.difference(window)
}

/// Carrying out a matching plan, removing every coordinate to evict and
/// inserting every coordinate to load, leaves exactly the window resident.
pub proof fn lemma_plan_reaches_window(
    cached: Set<ChunkCoordinate>,
    window: Set<ChunkCoordinate>,
    plan: TickPlan,
)
    requires
        plan_matches(plan, cached, window),
    ensures
        cached.difference(plan.to_evict@.to_set()).union(plan.to_load@.to_set()) == window,
{
    assert(cached.difference(plan.to_evict@.to_set()).union(plan.to_load@.to_set()) =~= window);
}

/// The column of chunks at chunk axis `x` spanning `center_y - r ..= center_y + r`.
pub open spec fn column_set(x: int, center_y: int, r: int) -> Set<ChunkCoordinate> {
    Set::new(|c: ChunkCoordinate| c.x == x && center_y - r <= c.y <= center_y + r)
}

/// A column inside the chunk axis range holds `2r + 1` chunks.
pub proof fn lemma_column_len(x: int, center_y: int, r: int)
    requires
        r >= 0,
        i32::MIN <= x <= i32::MAX,
        i32::MIN <= center_y - r,
        center_y + r <= i32::MAX,
    ensures
        column_set(x, center_y, r).finite(),
        column_set(x, center_y, r).len() == 2 * r + 1,
{
    let ys = vstd::set_lib::set_int_range(center_y - r, center_y + r + 1);
    let f = |y: int| ChunkCoordinate { x: x as i32, y: y as i32 };
    vstd::set_lib::lemma_int_range(center_y - r, center_y + r + 1);
    assert(ys.map(f) =~= column_set(x, center_y, r)) by {
        assert forall|c: ChunkCoordinate| column_set(x, center_y, r).contains(c) implies ys.map(f).contains(c) by {
            assert(ys.contains(c.y as int));
            assert(f(c.y as int) == c);
        }
    }
    assert(vstd::relations::injective_on(f, ys));
    vstd::set_lib::lemma_map_size(ys, column_set(x, center_y, r), f);
}

/// Moving the center one chunk east gains exactly the column `center.x + r + 1`
/// and loses exactly the column `center.x - r`, each of `2r + 1` chunks.
pub proof fn lemma_window_step_east(center: ChunkCoordinate, east: ChunkCoordinate, r: int)
    requires
        r >= 0,
        east.x == center.x + 1,
        east.y == center.y,
        window_fits(center, r),
        window_fits(east, r),
    ensures
        window_set(east, r).difference(window_set(center, r)) == column_set(
            center.x + r + 1,
            center.y as int,
            r,
        ),
        window_set(center, r).difference(window_set(east, r)) == column_set(center.x - r, center.y as int, r),
        column_set(center.x + r + 1, center.y as int, r).len() == 2 * r + 1,
        column_set(center.x - r, center.y as int, r).len() == 2 * r + 1,
{
    assert(window_set(east, r).difference(window_set(center, r)) =~= column_set(
        center.x + r + 1,
        center.y as int,
        r,
    ));
    assert(window_set(center, r).difference(window_set(east, r)) =~= column_set(
        center.x - r,
        center.y as int,
        r,
    ));
    lemma_column_len(center.x + r + 1, center.y as int, r);
    lemma_column_len(center.x - r, center.y as int, r);
}

/// The resident chunks, the configuration, and the chunk the viewpoint was in
/// at the last tick (`None` before the first).
#[derive(Debug)]
pub struct ChunkManager {
    chunks: Vec<Chunk>,
    config: ChunkConfig,
    player_position: Option<ChunkCoordinate>,
}

impl View for ChunkManager {
    type V = Map<ChunkCoordinate, Chunk>;

    /// Each resident coordinate with its chunk.
    closed spec fn view(&self) -> Map<ChunkCoordinate, Chunk> {
        Map::new(
            |c: ChunkCoordinate| self.has_at(c),
            |c: ChunkCoordinate| self.chunks@[choose|i: int| self.holds_at(i, c)],
        )
    }
}

impl ChunkManager {
    spec fn holds_at(&self, i: int, c: ChunkCoordinate) -> bool {
        0 <= i < self.chunks.len() && self.chunks@[i].position == c
    }

    spec fn has_at(&self, c: ChunkCoordinate) -> bool {
        exists|i: int| self.holds_at(i, c)
    }

    /// The configuration the cache was made with.
    pub closed spec fn spec_config(&self) -> ChunkConfig {
        self.config
    }

    /// The chunk the viewpoint was in at the last tick that changed it.
    pub closed spec fn last_viewpoint_chunk(&self) -> Option<ChunkCoordinate> {
        self.player_position
    }

    /// The cache's invariant: a usable configuration, at most one chunk per
    /// coordinate, and every resident chunk a complete grid with one live
    /// render handle per tile.
    pub closed spec fn wf(&self) -> bool {
        &&& self.config.valid()
        &&& forall|i: int|
            0 <= i < self.chunks.len() ==> (#[trigger] self.chunks@[i]).is_rendered(
                self.config.chunk_size as int,
            )
        &&& forall|i: int, j: int|
            0 <= i < j < self.chunks.len() ==> (#[trigger] self.chunks@[i]).position
                != (#[trigger] self.chunks@[j]).position
    }

    proof fn lemma_view_at(&self, i: int)
        requires
            self.wf(),
            0 <= i < self.chunks.len(),
        ensures
            self@.contains_key(self.chunks@[i].position),
            self@[self.chunks@[i].position] == self.chunks@[i],
    {
        let c = self.chunks@[i].position;
        assert(self.holds_at(i, c));
        let j = choose|j: int| self.holds_at(j, c);
        if j != i {
            if j < i {
                assert(self.chunks@[j].position != self.chunks@[i].position);
            } else {
                assert(self.chunks@[i].position != self.chunks@[j].position);
            }
        }
    }

    /// Each resident chunk sits under its own coordinate and holds a complete
    /// grid of `chunk_size²` tiles with exactly `chunk_size²` render handles.
    pub proof fn lemma_resident_chunk_rendered(&self, c: ChunkCoordinate)
        requires
            self.wf(),
            self@.contains_key(c),
        ensures
            self@[c].position == c,
            self@[c].is_rendered(self.spec_config().chunk_size as int),
            self@[c].handles.len() == self.spec_config().chunk_size * self.spec_config().chunk_size,
    {
        let i = choose|i: int| self.holds_at(i, c);
        self.lemma_view_at(i);
    }

    /// An empty cache for `config`, before any tick.
    pub fn new(config: ChunkConfig) -> (r: ChunkManager)
        requires
            config.valid(),
        ensures
            r.wf(),
            r@ == Map::<ChunkCoordinate, Chunk>::empty(),
            r.spec_config() == config,
            r.last_viewpoint_chunk() == None::<ChunkCoordinate>,
    {
        let r = ChunkManager { chunks: Vec::new(), config, player_position: None };
        assert(r@ =~= Map::<ChunkCoordinate, Chunk>::empty());
        r
    }

    /// An empty cache with the default configuration.
    pub fn empty() -> (r: ChunkManager)
        ensures
            r.wf(),
            r@ == Map::<ChunkCoordinate, Chunk>::empty(),
            r.spec_config().render_distance == 8,
            r.spec_config().chunk_size == 16,
            r.spec_config().seeds.biom == 3654,
            r.spec_config().seeds.tiles == 97123,
            r.last_viewpoint_chunk() == None::<ChunkCoordinate>,
    {
        ChunkManager::new(ChunkConfig::default())
    }

    /// The configuration.
    pub fn config(&self) -> (r: ChunkConfig)
        ensures
            r == self.spec_config(),
    {
        self.config
    }

    /// The chunk the viewpoint was in at the last tick that changed it.
    pub fn player_position(&self) -> (r: Option<ChunkCoordinate>)
        ensures
            r == self.last_viewpoint_chunk(),
    {
        self.player_position
    }

    fn index_of(&self, c: &ChunkCoordinate) -> (r: Option<usize>)
        ensures
            match r {
                Some(i) => self.holds_at(i as int, *c),
                None => !self.has_at(*c),
            },
    {
        let mut i: usize = 0;
        while i < self.chunks.len()
            invariant
                i <= self.chunks.len(),
                forall|k: int| 0 <= k < i ==> !self.holds_at(k, *c),
            decreases self.chunks.len() - i,
        {
            if self.chunks[i].position == *c {
                return Some(i);
            }
            i = i + 1;
        }
        None
    }

    /// Whether a chunk is resident at `c`.
    pub fn contains(&self, c: &ChunkCoordinate) -> (r: bool)
        ensures
            r == self@.contains_key(*c),
    {
        self.index_of(c).is_some()
    }

    /// The chunk resident at `c`, if any.
    pub fn get(&self, c: &ChunkCoordinate) -> (r: Option<&Chunk>)
        requires
            self.wf(),
        ensures
            match r {
                Some(ch) => self@.contains_key(*c) && *ch == self@[*c],
                None => !self@.contains_key(*c),
            },
    {
        match self.index_of(c) {
            Some(i) => {
                proof {
                    self.lemma_view_at(i as int);
                }
                Some(&self.chunks[i])
            },
            None => None,
        }
    }

    /// The number of resident chunks.
    pub fn len(&self) -> (r: usize)
        requires
            self.wf(),
        ensures
            r == self@.dom().len(),
    {
        let ghost pos = self.chunks@.map_values(|ch: Chunk| ch.position);
        proof {
            assert forall|i: int, j: int| 0 <= i < pos.len() && 0 <= j < pos.len() && i != j implies pos[i]
                != pos[j] by {
                if i < j {
                    assert(self.chunks@[i].position != self.chunks@[j].position);
                } else {
                    assert(self.chunks@[j].position != self.chunks@[i].position);
                }
            }
            pos.unique_seq_to_set();
            assert(pos.to_set() =~= self@.dom()) by {
                assert forall|c: ChunkCoordinate| pos.to_set().contains(c) implies self@.dom().contains(c) by {
                    let i = choose|i: int| 0 <= i < pos.len() && pos[i] == c;
                    assert(self.holds_at(i, c));
                }
                assert forall|c: ChunkCoordinate| self@.dom().contains(c) implies pos.to_set().contains(c) by {
                    let i = choose|i: int| self.holds_at(i, c);
                    assert(pos[i] == c);
                }
            }
        }
        self.chunks.len()
    }

    /// Makes `chunk` resident under its own coordinate. The coordinate must be
    /// free and the chunk rendered: both halves of the cache invariant.
    pub fn add_new_chunk(&mut self, chunk: Chunk)
        requires
            old(self).wf(),
            !old(self)@.contains_key(chunk.position),
            chunk.is_rendered(old(self).spec_config().chunk_size as int),
        ensures
            final(self).wf(),
            final(self)@ == old(self)@.insert(chunk.position, chunk),
            final(self).spec_config() == old(self).spec_config(),
            final(self).last_viewpoint_chunk() == old(self).last_viewpoint_chunk(),
    {
        let ghost old_self = *self;
        let ghost c = chunk.position;
        let ghost ch = chunk;
        proof {
            assert forall|i: int| 0 <= i < old_self.chunks.len() implies old_self.chunks@[i].position
                != c by {
                if old_self.chunks@[i].position == c {
                    assert(old_self.holds_at(i, c));
                }
            }
        }
        self.chunks.push(chunk);
        proof {
            let n = self.chunks.len() - 1;
            assert(self.chunks@[n] == ch);
            assert forall|i: int| 0 <= i < n implies self.chunks@[i] == old_self.chunks@[i] by {}
            assert(self.wf());
            assert forall|d: ChunkCoordinate| #[trigger] self@.contains_key(d) == old_self@.insert(
                c,
                ch,
            ).contains_key(d) by {
                if self.has_at(d) {
                    let i = choose|i: int| self.holds_at(i, d);
                    if i < n {
                        assert(old_self.holds_at(i, d));
                    }
                }
                if old_self.has_at(d) {
                    let i = choose|i: int| old_self.holds_at(i, d);
                    assert(self.holds_at(i, d));
                }
                if d == c {
                    assert(self.holds_at(n, d));
                }
            }
            assert forall|d: ChunkCoordinate| #[trigger] self@.contains_key(d) implies self@[d]
                == old_self@.insert(c, ch)[d] by {
                let i = choose|i: int| self.holds_at(i, d);
                self.lemma_view_at(i);
                if i < n {
                    old_self.lemma_view_at(i);
                }
            }
            assert(self@ =~= old_self@.insert(c, ch));
        }
    }

    /// Takes the chunk resident at `c` out of the cache; `None`, with the
    /// cache unchanged, when nothing is resident there.
    pub fn remove_chunk(&mut self, c: &ChunkCoordinate) -> (r: Option<Chunk>)
        requires
            old(self).wf(),
        ensures
            final(self).wf(),
            final(self).spec_config() == old(self).spec_config(),
            final(self).last_viewpoint_chunk() == old(self).last_viewpoint_chunk(),
            match r {
                Some(ch) => {
                    &&& old(self)@.contains_key(*c)
                    &&& ch == old(self)@[*c]
                    &&& final(self)@ == old(self)@.remove(*c)
                },
                None => {
                    &&& !old(self)@.contains_key(*c)
                    &&& final(self)@ == old(self)@
                },
            },
    {
        let ghost old_self = *self;
        match self.index_of(c) {
            None => None,
            Some(k) => {
                proof {
                    old_self.lemma_view_at(k as int);
                }
                let ch = self.chunks.remove(k);
                proof {
                    assert forall|i: int| 0 <= i < self.chunks.len() implies self.chunks@[i] == (if i
                        < k {
                        old_self.chunks@[i]
                    } else {
                        old_self.chunks@[i + 1]
                    }) by {}
                    assert(self.wf()) by {
                        assert forall|i: int, j: int|
                            0 <= i < j < self.chunks.len() implies (#[trigger] self.chunks@[i]).position
                            != (#[trigger] self.chunks@[j]).position by {
                            let oi = if i < k { i } else { i + 1 };
                            let oj = if j < k { j } else { j + 1 };
                            assert(old_self.chunks@[oi].position != old_self.chunks@[oj].position);
                        }
                    }
                    assert forall|d: ChunkCoordinate| #[trigger] self@.contains_key(d)
                        == old_self@.remove(*c).contains_key(d) by {
                        if self.has_at(d) {
                            let i = choose|i: int| self.holds_at(i, d);
                            let oi = if i < k { i } else { i + 1 };
                            assert(old_self.holds_at(oi, d));
                            assert(old_self.chunks@[oi].position != old_self.chunks@[k as int].position);
                        }
                        if old_self.has_at(d) && d != *c {
                            let oi = choose|i: int| old_self.holds_at(i, d);
                            assert(oi != k);
                            let i = if oi < k { oi } else { oi - 1 };
                            assert(self.holds_at(i, d));
                        }
                    }
                    assert forall|d: ChunkCoordinate| #[trigger] self@.contains_key(d) implies self@[d]
                        == old_self@.remove(*c)[d] by {
                        let i = choose|i: int| self.holds_at(i, d);
                        self.lemma_view_at(i);
                        let oi = if i < k { i } else { i + 1 };
                        old_self.lemma_view_at(oi);
                    }
                    assert(self@ =~= old_self@.remove(*c));
                }
                Some(ch)
            },
        }
    }
    /// Whether chunk `c` lies in the window of half-width `render_distance`
    /// around `center`.
    pub fn in_window(c: &ChunkCoordinate, center: &ChunkCoordinate, render_distance: u32) -> (r: bool)
        ensures
            r == in_window(*c, *center, render_distance as int),
    {
        let rd = render_distance as i64;
        let cx = center.x as i64;
        let cy = center.y as i64;
        cx - rd <= c.x as i64 && c.x as i64 <= cx + rd && cy - rd <= c.y as i64 && c.y as i64 <= cy + rd
    }

    /// Every coordinate of the window of half-width `render_distance` around
    /// `center`, each once.
    pub fn window(center: &ChunkCoordinate, render_distance: u32) -> (r: Vec<ChunkCoordinate>)
        requires
            window_fits(*center, render_distance as int),
        ensures
            r@.no_duplicates(),
            r@.to_set() == window_set(*center, render_distance as int),
    {
        let rd = render_distance as i64;
        let lo_x = center.x as i64 - rd;
        let hi_x = center.x as i64 + rd;
        let lo_y = center.y as i64 - rd;
        let hi_y = center.y as i64 + rd;
        let ghost w = window_set(*center, render_distance as int);
        let mut out: Vec<ChunkCoordinate> = Vec::new();
        let mut x: i64 = lo_x;
        while x <= hi_x
            invariant
                lo_x <= x <= hi_x + 1,
                lo_x == center.x - render_distance,
                hi_x == center.x + render_distance,
                lo_y == center.y - render_distance,
                hi_y == center.y + render_distance,
                window_fits(*center, render_distance as int),
                w == window_set(*center, render_distance as int),
                out@.no_duplicates(),
                forall|k: int| 0 <= k < out.len() ==> w.contains(#[trigger] out@[k]) && out@[k].x < x,
                forall|c: ChunkCoordinate| w.contains(c) && c.x < x ==> out@.contains(c),
            decreases hi_x + 1 - x,
        {
            let mut y: i64 = lo_y;
            while y <= hi_y
                invariant
                    lo_x <= x <= hi_x,
                    lo_y <= y <= hi_y + 1,
                    lo_x == center.x - render_distance,
                    hi_x == center.x + render_distance,
                    lo_y == center.y - render_distance,
                    hi_y == center.y + render_distance,
                    window_fits(*center, render_distance as int),
                    w == window_set(*center, render_distance as int),
                    out@.no_duplicates(),
                    forall|k: int|
                        0 <= k < out.len() ==> w.contains(#[trigger] out@[k]) && (out@[k].x < x || (
                        out@[k].x == x && out@[k].y < y)),
                    forall|c: ChunkCoordinate|
                        w.contains(c) && (c.x < x || (c.x == x && c.y < y)) ==> out@.contains(c),
                decreases hi_y + 1 - y,
            {
                let c = ChunkCoordinate { x: x as i32, y: y as i32 };
                let ghost before = out@;
                assert(w.contains(c));
                assert(!before.contains(c)) by {
                    if before.contains(c) {
                        let k = choose|k: int| 0 <= k < before.len() && before[k] == c;
                        assert(w.contains(before[k]));
                    }
                }
                out.push(c);
                proof {
                    assert(out@ == before.push(c));
                    assert forall|c2: ChunkCoordinate|
                        w.contains(c2) && (c2.x < x || (c2.x == x && c2.y < y + 1)) implies out@.contains(c2) by {
                        if c2 == c {
                            assert(out@[before.len() as int] == c);
                        } else {
                            assert(before.contains(c2));
                            let k = choose|k: int| 0 <= k < before.len() && before[k] == c2;
                            assert(out@[k] == c2);
                        }
                    }
                }
                y = y + 1;
            }
            x = x + 1;
        }
        proof {
            assert(out@.to_set() =~= w) by {
                assert forall|c: ChunkCoordinate| out@.to_set().contains(c) implies w.contains(c) by {
                    let k = choose|k: int| 0 <= k < out.len() && out@[k] == c;
                    assert(w.contains(out@[k]));
                }
            }
        }
        out
    }

    /// One tick of streaming. When the viewpoint tile lies in the same chunk
    /// as at the last tick nothing happens and the result is `None`; else that
    /// chunk is recorded and the result is the plan that brings the resident
    /// chunks to the window around it. The resident chunks themselves are left
    /// for the caller to change through the plan.
    pub fn plan_tick(&mut self, viewpoint_tile: TileCoordinate) -> (r: Option<TickPlan>)
        requires
            old(self).wf(),
            window_fits(
                viewpoint_chunk(viewpoint_tile, old(self).spec_config().chunk_size as int),
                old(self).spec_config().render_distance as int,
            ),
        ensures
            final(self).wf(),
            final(self)@ == old(self)@,
            final(self).spec_config() == old(self).spec_config(),
            ({
                let current = viewpoint_chunk(viewpoint_tile, old(self).spec_config().chunk_size as int);
                if old(self).last_viewpoint_chunk() == Some(current) {
                    &&& r is None
                    &&& final(self).last_viewpoint_chunk() == old(self).last_viewpoint_chunk()
                } else {
                    &&& final(self).last_viewpoint_chunk() == Some(current)
                    &&& r matches Some(plan) && plan_matches(
                        plan,
                        old(self)@.dom(),
                        window_set(current, old(self).spec_config().render_distance as int),
                    )
                }
            }),
    {
        let current = tile_to_chunk(viewpoint_tile, self.config.chunk_size);
        if self.player_position == Some(current) {
            return None;
        }
        let ghost before_tick = *self;
        self.player_position = Some(current);
        assert(self@ =~= before_tick@) by {
            assert(self.chunks@ == before_tick.chunks@);
            assert forall|c: ChunkCoordinate| #[trigger] self.has_at(c) == before_tick.has_at(c) by {
                if self.has_at(c) {
                    let i = choose|i: int| self.holds_at(i, c);
                    assert(before_tick.holds_at(i, c));
                }
                if before_tick.has_at(c) {
                    let i = choose|i: int| before_tick.holds_at(i, c);
                    assert(self.holds_at(i, c));
                }
            }
        }
        let rd = self.config.render_distance;
        let ghost cached = self@.dom();
        let ghost w = window_set(current, rd as int);
        let win = ChunkManager::window(&current, rd);
        assert(self@.dom() == cached);

        let mut to_load: Vec<ChunkCoordinate> = Vec::new();
        let mut k: usize = 0;
        while k < win.len()
            invariant
                self.wf(),
                self@.dom() == cached,
                win@.no_duplicates(),
                k <= win.len(),
                to_load@.no_duplicates(),
                forall|i: int|
                    0 <= i < to_load.len() ==> exists|j: int|
                        0 <= j < k && win@[j] == #[trigger] to_load@[i],
                forall|c: ChunkCoordinate|
                    to_load@.contains(c) <==> (exists|j: int| 0 <= j < k && win@[j] == c) && !cached.contains(c),
            decreases win.len() - k,
        {
            let c = win[k];
            let ghost before = to_load@;
            if !self.contains(&c) {
                assert(!before.contains(c)) by {
                    if before.contains(c) {
                        let i = choose|i: int| 0 <= i < before.len() && before[i] == c;
                        let j = choose|j: int| 0 <= j < k && win@[j] == before[i];
                        assert(win@[j] == win@[k as int]);
                    }
                }
                to_load.push(c);
                proof {
                    assert(to_load@ == before.push(c));
                    assert(to_load@[before.len() as int] == c);
                    assert forall|i: int| 0 <= i < to_load.len() implies exists|j: int|
                        0 <= j < k + 1 && win@[j] == #[trigger] to_load@[i] by {
                        if i < before.len() {
                            assert(to_load@[i] == before[i]);
                            let j = choose|j: int| 0 <= j < k && win@[j] == before[i];
                        } else {
                            assert(win@[k as int] == to_load@[i]);
                        }
                    }
                    assert forall|c2: ChunkCoordinate| to_load@.contains(c2) <==> (exists|j: int|
                        0 <= j < k + 1 && win@[j] == c2) && !cached.contains(c2) by {
                        if to_load@.contains(c2) {
                            let i = choose|i: int| 0 <= i < to_load.len() && to_load@[i] == c2;
                            if i < before.len() {
                                assert(before.contains(c2));
                            }
                        }
                        if (exists|j: int| 0 <= j < k + 1 && win@[j] == c2) && !cached.contains(c2) {
                            if c2 != c {
                                let j = choose|j: int| 0 <= j < k + 1 && win@[j] == c2;
                                assert(j < k);
                                assert(before.contains(c2));
                                let i = choose|i: int| 0 <= i < before.len() && before[i] == c2;
                                assert(to_load@[i] == c2);
                            }
                        }
                    }
                }
            } else {
                proof {
                    assert forall|c2: ChunkCoordinate| to_load@.contains(c2) <==> (exists|j: int|
                        0 <= j < k + 1 && win@[j] == c2) && !cached.contains(c2) by {
                        if (exists|j: int| 0 <= j < k + 1 && win@[j] == c2) && !cached.contains(c2) {
                            let j = choose|j: int| 0 <= j < k + 1 && win@[j] == c2;
                            assert(j < k);
                        }
                    }
                }
            }
            k = k + 1;
        }
        proof {
            assert(to_load@.to_set() =~= w.difference(cached)) by {
                assert forall|c: ChunkCoordinate| w.contains(c) implies exists|j: int|
                    0 <= j < win.len() && win@[j] == c by {
                    assert(win@.to_set().contains(c));
                }
                assert forall|c: ChunkCoordinate| (exists|j: int| 0 <= j < win.len() && win@[j] == c)
                    implies w.contains(c) by {
                    let j = choose|j: int| 0 <= j < win.len() && win@[j] == c;
                    assert(win@.to_set().contains(win@[j]));
                }
            }
        }

        let mut to_evict: Vec<ChunkCoordinate> = Vec::new();
        let mut i: usize = 0;
        while i < self.chunks.len()
            invariant
                self.wf(),
                self@.dom() == cached,
                w == window_set(current, rd as int),
                i <= self.chunks.len(),
                to_evict@.no_duplicates(),
                forall|e: int|
                    0 <= e < to_evict.len() ==> exists|j: int|
                        0 <= j < i && self.chunks@[j].position == #[trigger] to_evict@[e],
                forall|c: ChunkCoordinate|
                    to_evict@.contains(c) <==> (exists|j: int| 0 <= j < i && self.chunks@[j].position == c)
                        && !w.contains(c),
            decreases self.chunks.len() - i,
        {
            let c = self.chunks[i].position;
            let ghost before = to_evict@;
            if !ChunkManager::in_window(&c, &current, rd) {
                assert(!before.contains(c)) by {
                    if before.contains(c) {
                        let e = choose|e: int| 0 <= e < before.len() && before[e] == c;
                        let j = choose|j: int| 0 <= j < i && self.chunks@[j].position == before[e];
                        assert(self.chunks@[j].position != self.chunks@[i as int].position);
                    }
                }
                to_evict.push(c);
                proof {
                    assert(to_evict@ == before.push(c));
                    assert(to_evict@[before.len() as int] == c);
                    assert forall|e: int| 0 <= e < to_evict.len() implies exists|j: int|
                        0 <= j < i + 1 && self.chunks@[j].position == #[trigger] to_evict@[e] by {
                        if e < before.len() {
                            assert(to_evict@[e] == before[e]);
                            let j = choose|j: int| 0 <= j < i && self.chunks@[j].position == before[e];
                        } else {
                            assert(self.chunks@[i as int].position == to_evict@[e]);
                        }
                    }
                    assert forall|c2: ChunkCoordinate| to_evict@.contains(c2) <==> (exists|j: int|
                        0 <= j < i + 1 && self.chunks@[j].position == c2) && !w.contains(c2) by {
                        if to_evict@.contains(c2) {
                            let e = choose|e: int| 0 <= e < to_evict.len() && to_evict@[e] == c2;
                            if e < before.len() {
                                assert(before.contains(c2));
                            }
                        }
                        if (exists|j: int| 0 <= j < i + 1 && self.chunks@[j].position == c2) && !w.contains(
                            c2,
                        ) {
                            if c2 != c {
                                let j = choose|j: int| 0 <= j < i + 1 && self.chunks@[j].position == c2;
                                assert(j < i);
                                assert(before.contains(c2));
                                let e = choose|e: int| 0 <= e < before.len() && before[e] == c2;
                                assert(to_evict@[e] == c2);
                            }
                        }
                    }
                }
            } else {
                proof {
                    assert forall|c2: ChunkCoordinate| to_evict@.contains(c2) <==> (exists|j: int|
                        0 <= j < i + 1 && self.chunks@[j].position == c2) && !w.contains(c2) by {
                        if (exists|j: int| 0 <= j < i + 1 && self.chunks@[j].position == c2) && !w.contains(
                            c2,
                        ) {
                            let j = choose|j: int| 0 <= j < i + 1 && self.chunks@[j].position == c2;
                            assert(j < i);
                        }
                    }
                }
            }
            i = i + 1;
        }
        proof {
            assert(to_evict@.to_set() =~= cached.difference(w)) by {
                assert forall|c: ChunkCoordinate| cached.contains(c) implies exists|j: int|
                    0 <= j < self.chunks.len() && self.chunks@[j].position == c by {
                    assert(self@.dom().contains(c));
                    assert(self.has_at(c));
                    let j = choose|j: int| self.holds_at(j, c);
                    assert(0 <= j < self.chunks.len() && self.chunks@[j].position == c);
                }
                assert forall|c: ChunkCoordinate| (exists|j: int|
                    0 <= j < self.chunks.len() && self.chunks@[j].position == c) implies cached.contains(c) by {
                    let j = choose|j: int| 0 <= j < self.chunks.len() && self.chunks@[j].position == c;
                    assert(self.holds_at(j, c));
                    assert(self@.dom().contains(c));
                }
            }
        }
        Some(TickPlan { to_load, to_evict })
    }
}

} // verus!
