//! The chunk store and automaton driver: one live, exclusively owned chunk
//! plus cursor and heading, a canonicalization registry of chunk contents, and
//! a sparse world map from chunk coordinates to canonical chunks.

use vstd::prelude::*;
use vstd::set::fold::lemma_fold_empty;
use vstd::set::fold::lemma_fold_insert;
use vstd::set::fold::is_fun_commutative;
use vstd::set_lib::lemma_subset_equality;
use std::rc::Rc;
use crate::dir::Dir;
use crate::grid::Color;
use crate::grid::Grid;
use crate::grid::GRID_SIZE;
use crate::grid::LAST_ELEM;
use crate::grid::all_white;
use crate::grid::black_in;
use crate::store::Registry;
use crate::store::WorldMap;
use crate::store::empty_registry;
use crate::store::empty_world;
use crate::store::registry_map;
use crate::store::world_map;
use crate::store::registry_with_capacity;
use crate::store::world_with_capacity;
use crate::store::registry_get;
use crate::store::registry_insert;
use crate::store::world_get;
use crate::store::world_insert;
use crate::store::world_entries;

verus! {

/// Initial number of hash buckets reserved for the registry.
pub const REGISTRY_CAPACITY: usize = 512;

/// Initial number of hash buckets reserved for the world map.
pub const MAP_CAPACITY: usize = 200000;

/// Number of cells of one chunk.
pub open spec fn chunk_cells() -> nat {
    (GRID_SIZE * GRID_SIZE) as nat
}

/// The content of a never-visited chunk.
pub open spec fn blank_chunk() -> Seq<bool> {
    all_white(chunk_cells())
}

/// The mathematical state of the driver: the registry and world-map contents,
/// the live chunk's cells, and the cursor, heading and chunk coordinate.
pub struct AntView {
    pub registry: Map<Seq<bool>, Seq<bool>>,
    pub world: Map<(int, int), Seq<bool>>,
    pub gx: int,
    pub gy: int,
    pub grid: Seq<bool>,
    pub lx: int,
    pub ly: int,
    pub dir: Dir,
}

/// The driver's invariant over its mathematical state: the cursor stays inside
/// the chunk, the live chunk has a chunk's size, every registry entry is
/// canonical (it is stored under its own content, so each distinct content has
/// at most one entry), and every world-map entry points at registered content.
pub open spec fn inv(v: AntView) -> bool {
    &&& v.registry.dom().finite()
    &&& v.world.dom().finite()
    &&& v.grid.len() == GRID_SIZE * GRID_SIZE
    &&& 0 <= v.lx < GRID_SIZE
    &&& 0 <= v.ly < GRID_SIZE
    &&& (forall|c: Seq<bool>|
        #[trigger] v.registry.dom().contains(c) ==> v.registry[c] == c && c.len() == GRID_SIZE
            * GRID_SIZE)
    &&& (forall|k: (int, int)|
        #[trigger] v.world.dom().contains(k) ==> v.registry.dom().contains(v.world[k]))
}

/// The state the driver starts in: one blank chunk registered and placed at
/// the origin, the live chunk blank, the cursor centered, heading `Up`.
pub open spec fn initial_view() -> AntView {
    AntView {
        registry: empty_registry().insert(blank_chunk(), blank_chunk()),
        world: empty_world().insert((0, 0), blank_chunk()),
        gx: 0,
        gy: 0,
        grid: blank_chunk(),
        lx: (GRID_SIZE / 2) as int,
        ly: (GRID_SIZE / 2) as int,
        dir: Dir::Up,
    }
}

/// Committing the live chunk: register its content unless an entry with that
/// content exists already, and record that content in the world map at the
/// current coordinate.
pub open spec fn commit_spec(v: AntView) -> AntView {
    AntView {
        registry: if v.registry.dom().contains(v.grid) {
            v.registry
        } else {
            v.registry.insert(v.grid, v.grid)
        },
        world: v.world.insert((v.gx, v.gy), v.grid),
        ..v
    }
}

/// Commit, then load the chunk at `(nx, ny)`: the live chunk becomes a value
/// copy of the content recorded there, or a blank chunk if that coordinate was
/// never visited.
pub open spec fn commit_then_load(v: AntView, nx: int, ny: int) -> AntView {
    let c = commit_spec(v);
    AntView {
        grid: if c.world.dom().contains((nx, ny)) {
            c.world[(nx, ny)]
        } else {
            blank_chunk()
        },
        ..c
    }
}

/// The heading after the turn of one step: clockwise off an unmarked cell,
/// counter-clockwise off a marked one.
pub open spec fn turned_dir(v: AntView) -> Dir {
    if v.grid[v.ly * GRID_SIZE + v.lx] {
        v.dir.rotate_ccw()
    } else {
        v.dir.rotate_cw()
    }
}

/// One full step of the automaton: flip the cell under the cursor, turn, then
/// advance one cell, committing the live chunk and loading the neighbor chunk
/// when the advance would leave the chunk's bounds.
pub open spec fn step_spec(v: AntView) -> AntView {
    let idx = v.ly * GRID_SIZE + v.lx;
    let d = turned_dir(v);
    let v1 = AntView { dir: d, grid: v.grid.update(idx, !v.grid[idx]), ..v };
    match d {
        Dir::Up => {
            if v1.ly == 0 {
                let c = commit_then_load(v1, v1.gx, v1.gy - 1);
                AntView { gy: v1.gy - 1, ly: LAST_ELEM as int, ..c }
            } else {
                AntView { ly: v1.ly - 1, ..v1 }
            }
        },
        Dir::Down => {
            if v1.ly == LAST_ELEM as int {
                let c = commit_then_load(v1, v1.gx, v1.gy + 1);
                AntView { gy: v1.gy + 1, ly: 0, ..c }
            } else {
                AntView { ly: v1.ly + 1, ..v1 }
            }
        },
        Dir::Left => {
            if v1.lx == 0 {
                let c = commit_then_load(v1, v1.gx - 1, v1.gy);
                AntView { gx: v1.gx - 1, lx: LAST_ELEM as int, ..c }
            } else {
                AntView { lx: v1.lx - 1, ..v1 }
            }
        },
        Dir::Right => {
            if v1.lx == LAST_ELEM as int {
                let c = commit_then_load(v1, v1.gx + 1, v1.gy);
                AntView { gx: v1.gx + 1, lx: 0, ..c }
            } else {
                AntView { lx: v1.lx + 1, ..v1 }
            }
        },
    }
}

/// The running total of marked cells over a world map, one count per
/// coordinate (coordinates sharing identical content are counted once each).
pub open spec fn tally_fn(m: Map<(int, int), Seq<bool>>) -> spec_fn(nat, (int, int)) -> nat {
    |acc: nat, k: (int, int)| (acc + black_in(m[k])) as nat
}

/// Total number of marked cells across every world-map coordinate.
pub open spec fn total_black(m: Map<(int, int), Seq<bool>>) -> nat {
    m.dom().fold(0nat, tally_fn(m))
}

/// The chunk store and automaton driver.
pub struct Ant {
    pub registry: Registry,
    pub world: WorldMap,
    pub gx: i64,
    pub gy: i64,
    pub grid: Grid,
    pub lx: usize,
    pub ly: usize,
    pub dir: Dir,
}

impl View for Ant {
    type V = AntView;

    open spec fn view(&self) -> AntView {
        AntView {
            registry: registry_map(self.registry),
            world: world_map(self.world),
            gx: self.gx as int,
            gy: self.gy as int,
            grid: self.grid.contents(),
            lx: self.lx as int,
            ly: self.ly as int,
            dir: self.dir,
        }
    }
}

impl Ant {
    /// The driver is well formed: the live chunk has the fixed chunk shape and
    /// the mathematical state satisfies the invariant.
    pub open spec fn wf(self) -> bool {
        &&& self.grid.is_chunk()
        &&& inv(self@)
    }

    /// A fresh driver in the initial state.
    pub fn new() -> (a: Ant)
        ensures
            a.wf(),
            a@ == initial_view(),
    {
        let mut registry = registry_with_capacity(REGISTRY_CAPACITY);
        let mut world = world_with_capacity(MAP_CAPACITY);
        let g0 = Grid::new(GRID_SIZE, GRID_SIZE);
        let rc = Rc::new(Grid::new(GRID_SIZE, GRID_SIZE));
        registry_insert(&mut registry, g0, rc.clone());
        world_insert(&mut world, 0, 0, rc);
        let a = Ant {
            registry,
            world,
            gx: 0,
            gy: 0,
            grid: Grid::new(GRID_SIZE, GRID_SIZE),
            lx: GRID_SIZE / 2,
            ly: GRID_SIZE / 2,
            dir: Dir::Up,
        };
        proof {
            assert(a@ == initial_view());
        }
        a
    }

    /// Commit the live chunk: canonicalize its content in the registry and
    /// record it in the world map at the current coordinate.
    fn commit(&mut self)
        requires
            old(self).wf(),
        ensures
            final(self).wf(),
            final(self)@ == commit_spec(old(self)@),
            final(self).grid == old(self).grid,
            final(self).gx == old(self).gx,
            final(self).gy == old(self).gy,
            final(self).lx == old(self).lx,
            final(self).ly == old(self).ly,
            final(self).dir == old(self).dir,
    {
        match registry_get(&self.registry, &self.grid) {
            Some(rc) => {
                world_insert(&mut self.world, self.gx, self.gy, rc);
            },
            None => {
                let rc = Rc::new(self.grid.clone());
                registry_insert(&mut self.registry, self.grid.clone(), rc.clone());
                world_insert(&mut self.world, self.gx, self.gy, rc);
            },
        }
        proof {
            lemma_commit_preserves_inv(old(self)@);
            assert(self@ == commit_spec(old(self)@));
        }
    }

    /// The commit-and-load protocol for one boundary crossing: commit the live
    /// chunk at the current coordinate, then make the chunk recorded at
    /// `(new_gx, new_gy)` (or a fresh blank chunk) the live chunk. The
    /// coordinate and cursor themselves are left to the caller.
    pub fn go_to_new_grid(&mut self, new_gx: i64, new_gy: i64)
        requires
            old(self).wf(),
        ensures
            final(self).wf(),
            final(self)@ == commit_then_load(old(self)@, new_gx as int, new_gy as int),
    {
        self.commit();
        match world_get(&self.world, new_gx, new_gy) {
            Some(rc) => {
                self.grid = (*rc).clone();
            },
            None => {
                self.grid = Grid::new(GRID_SIZE, GRID_SIZE);
            },
        }
        proof {
            assert(self@ == commit_then_load(old(self)@, new_gx as int, new_gy as int));
        }
    }

    /// One step: read the cell under the cursor; a `White` cell turns the
    /// heading clockwise and becomes `Black`, a `Black` cell turns it
    /// counter-clockwise and becomes `White`; then advance one cell in the new
    /// heading, crossing into the neighbor chunk when the advance leaves the
    /// live chunk.
    pub fn do_one_turn(&mut self)
        requires
            old(self).wf(),
            i64::MIN < old(self).gx < i64::MAX,
            i64::MIN < old(self).gy < i64::MAX,
        ensures
            final(self).wf(),
            final(self)@ == step_spec(old(self)@),
    {
        let tile = self.grid.get(self.ly, self.lx);
        match tile {
            Color::White => {
                self.dir = Dir::from(i8::from(self.dir) + 1);
                self.grid.set(self.ly, self.lx, Color::Black);
            },
            Color::Black => {
                self.dir = Dir::from(i8::from(self.dir) - 1);
                self.grid.set(self.ly, self.lx, Color::White);
            },
        }
        proof {
            let v = old(self)@;
            let idx = v.ly * GRID_SIZE + v.lx;
            assert(self@ == (AntView {
                dir: turned_dir(v),
                grid: v.grid.update(idx, !v.grid[idx]),
                ..v
            }));
        }
        match self.dir {
            Dir::Up => {
                if self.ly == 0 {
                    let gx = self.gx;
                    let gy = self.gy;
                    self.go_to_new_grid(gx, gy - 1);
                    self.gy = self.gy - 1;
                    self.ly = LAST_ELEM;
                } else {
                    self.ly = self.ly - 1;
                }
            },
            Dir::Down => {
                if self.ly == LAST_ELEM {
                    let gx = self.gx;
                    let gy = self.gy;
                    self.go_to_new_grid(gx, gy + 1);
                    self.gy = self.gy + 1;
                    self.ly = 0;
                } else {
                    self.ly = self.ly + 1;
                }
            },
            Dir::Left => {
                if self.lx == 0 {
                    let gx = self.gx;
                    let gy = self.gy;
                    self.go_to_new_grid(gx - 1, gy);
                    self.gx = self.gx - 1;
                    self.lx = LAST_ELEM;
                } else {
                    self.lx = self.lx - 1;
                }
            },
            Dir::Right => {
                if self.lx == LAST_ELEM {
                    let gx = self.gx;
                    let gy = self.gy;
                    self.go_to_new_grid(gx + 1, gy);
                    self.gx = self.gx + 1;
                    self.lx = 0;
                } else {
                    self.lx = self.lx + 1;
                }
            },
        }
        proof {
            assert(self@ == step_spec(old(self)@));
        }
    }

    /// The statistics query: commit the live chunk's current content into the
    /// world map (through the registry, as a boundary crossing would), then
    /// count the marked cells of every world-map coordinate. Coordinates
    /// sharing identical content each contribute their own count.
    pub fn count_black_tiles(&mut self) -> (n: usize)
        requires
            old(self).wf(),
            total_black(commit_spec(old(self)@).world) <= usize::MAX,
        ensures
            final(self).wf(),
            final(self)@ == commit_spec(old(self)@),
            n == total_black(final(self)@.world),
    {
        self.commit();
        let ghost m = self@.world;
        let entries = world_entries(&self.world);
        let ghost f = tally_fn(m);
        proof {
            assert forall|a1: (int, int), a2: (int, int), b: nat| #[trigger] f(f(b, a2), a1) == f(
                f(b, a1),
                a2,
            ) by {}
            assert(is_fun_commutative(f));
            lemma_fold_empty(0nat, f);
        }
        let mut total: u128 = 0;
        let mut i: usize = 0;
        let ghost mut seen: Set<(int, int)> = Set::empty();
        while i < entries.len()
            invariant
                i <= entries@.len(),
                m == world_map(self.world),
                m.dom().finite(),
                f == tally_fn(m),
                is_fun_commutative(f),
                seen.finite(),
                seen.len() == i,
                forall|k: (int, int)|
                    seen.contains(k) <==> exists|j: int|
                        0 <= j < i && ((#[trigger] entries@[j].0 as int, entries@[j].1 as int)
                            == k),
                total == seen.fold(0nat, f),
                total <= i as int * 1024,
                entries@.len() == m.dom().len(),
                forall|j: int|
                    0 <= j < entries@.len() ==> m.dom().contains(
                        (#[trigger] entries@[j].0 as int, entries@[j].1 as int),
                    ) && (*entries@[j].2).is_chunk() && (*entries@[j].2).contents() == m[(
                        entries@[j].0 as int,
                        entries@[j].1 as int,
                    )],
                forall|j1: int, j2: int|
                    0 <= j1 < j2 < entries@.len() ==> !(#[trigger] entries@[j1].0
                        == #[trigger] entries@[j2].0 && entries@[j1].1 == entries@[j2].1),
            decreases entries@.len() - i,
        {
            let e = &entries[i];
            proof {
                assert(m.dom().contains((entries@[i as int].0 as int, entries@[i as int].1 as int)));
                assert((*entries@[i as int].2).is_chunk());
            }
            let c = e.2.count_black();
            proof {
                let k = (entries@[i as int].0 as int, entries@[i as int].1 as int);
                assert(!seen.contains(k));
                lemma_fold_insert(seen, 0nat, f, k);
                assert((*entries@[i as int].2).contents().len() == GRID_SIZE * GRID_SIZE);
                seen = seen.insert(k);
            }
            total = total + (c as u128);
            i = i + 1;
        }
        proof {
            assert(seen.subset_of(m.dom()));
            lemma_subset_equality(seen, m.dom());
            assert(total == total_black(m));
        }
        let n = total as usize;
        n
    }

    /// Number of distinct canonical chunk contents registered.
    pub fn registry_len(&self) -> (n: usize)
        ensures
            n == self@.registry.dom().len(),
    {
        crate::store::registry_len(&self.registry)
    }

    /// Number of distinct chunk coordinates recorded in the world map.
    pub fn world_len(&self) -> (n: usize)
        ensures
            n == self@.world.dom().len(),
    {
        crate::store::world_len(&self.world)
    }
}

/// Committing preserves the driver's invariant; in particular the registry
/// stays canonical: content that is already registered gains no second entry,
/// so repeated contents share one registry entry however many coordinates hold
/// them.
pub proof fn lemma_commit_preserves_inv(v: AntView)
    requires
        inv(v),
    ensures
        inv(commit_spec(v)),
        v.registry.dom().contains(v.grid) ==> commit_spec(v).registry == v.registry,
        commit_spec(v).registry.dom() =~= v.registry.dom().insert(v.grid),
{
    let c = v.grid;
    let r2 = commit_spec(v).registry;
    let w2 = commit_spec(v).world;
    assert forall|x: Seq<bool>| #[trigger] r2.dom().contains(x) implies r2[x] == x && x.len()
        == GRID_SIZE * GRID_SIZE by {
        if x != c {
            assert(v.registry.dom().contains(x));
        }
    }
    assert forall|k: (int, int)| #[trigger] w2.dom().contains(k) implies r2.dom().contains(
        w2[k],
    ) by {
        if k != (v.gx, v.gy) {
            assert(v.world.dom().contains(k));
            assert(v.registry.dom().contains(v.world[k]));
        }
    }
}

/// Nothing is ever removed: a step only adds world-map coordinates and
/// registry entries, and only the live coordinate's recorded content can
/// change. Visited coordinates stay visited (cells only toggle; the total
/// count itself may go down when a step unmarks a cell).
pub proof fn lemma_step_never_unvisits(v: AntView)
    ensures
        v.world.dom().subset_of(step_spec(v).world.dom()),
        v.registry.dom().subset_of(step_spec(v).registry.dom()),
        forall|k: (int, int)|
            #[trigger] v.world.dom().contains(k) && k != (v.gx, v.gy) ==> step_spec(v).world[k]
                == v.world[k],
        forall|c: Seq<bool>|
            #[trigger] v.registry.dom().contains(c) ==> step_spec(v).registry[c] == v.registry[c],
{
}

/// Round trip: committing the live chunk and then loading the same coordinate
/// back yields chunk content equal to what was committed.
pub proof fn lemma_commit_load_round_trip(v: AntView)
    ensures
        commit_then_load(v, v.gx, v.gy).grid == v.grid,
{
}

/// Crossing a chunk boundary moves the chunk coordinate by exactly one on the
/// matching axis and resets the cursor to the opposite edge; the other axis
/// and the other cursor component are untouched.
pub proof fn lemma_boundary_crossing(v: AntView)
    ensures
        turned_dir(v) == Dir::Up && v.ly == 0 ==> step_spec(v).gy == v.gy - 1 && step_spec(v).gx
            == v.gx && step_spec(v).ly == LAST_ELEM as int && step_spec(v).lx == v.lx,
        turned_dir(v) == Dir::Down && v.ly == LAST_ELEM as int ==> step_spec(v).gy == v.gy + 1
            && step_spec(v).gx == v.gx && step_spec(v).ly == 0 && step_spec(v).lx == v.lx,
        turned_dir(v) == Dir::Left && v.lx == 0 ==> step_spec(v).gx == v.gx - 1 && step_spec(v).gy
            == v.gy && step_spec(v).lx == LAST_ELEM as int && step_spec(v).ly == v.ly,
        turned_dir(v) == Dir::Right && v.lx == LAST_ELEM as int ==> step_spec(v).gx == v.gx + 1
            && step_spec(v).gy == v.gy && step_spec(v).lx == 0 && step_spec(v).ly == v.ly,
{
}

/// The per-coordinate tally function commutes, as a fold requires.
proof fn lemma_tally_commutative(m: Map<(int, int), Seq<bool>>)
    ensures
        is_fun_commutative(tally_fn(m)),
{
    let f = tally_fn(m);
    assert forall|a1: (int, int), a2: (int, int), b: nat| #[trigger] f(f(b, a2), a1) == f(
        f(b, a1),
        a2,
    ) by {}
}

/// Folding two functions that agree on every element of a finite set gives
/// the same result.
proof fn lemma_fold_congruence<A, B>(
    s: Set<A>,
    z: B,
    f1: spec_fn(B, A) -> B,
    f2: spec_fn(B, A) -> B,
)
    requires
        s.finite(),
        is_fun_commutative(f1),
        is_fun_commutative(f2),
        forall|b: B, a: A| s.contains(a) ==> #[trigger] f1(b, a) == f2(b, a),
    ensures
        s.fold(z, f1) == s.fold(z, f2),
    decreases s.len(),
{
    if s.len() == 0 {
        assert(s =~= Set::empty());
        lemma_fold_empty(z, f1);
        lemma_fold_empty(z, f2);
    } else {
        assert(exists|x: A| s.contains(x)) by {
            if forall|x: A| !(#[trigger] s.contains(x)) {
                assert(s =~= Set::empty());
            }
        }
        let a = choose|x: A| s.contains(x);
        let s0 = s.remove(a);
        lemma_fold_congruence(s0, z, f1, f2);
        lemma_fold_insert(s0, z, f1, a);
        lemma_fold_insert(s0, z, f2, a);
        assert(s0.insert(a) =~= s);
    }
}

/// Recording content at one coordinate sets the total count to the total over
/// every other coordinate plus that content's own count.
pub proof fn lemma_total_black_insert(m: Map<(int, int), Seq<bool>>, k: (int, int), c: Seq<bool>)
    requires
        m.dom().finite(),
    ensures
        total_black(m.insert(k, c)) == total_black(m.remove(k)) + black_in(c),
        !m.dom().contains(k) ==> total_black(m.insert(k, c)) == total_black(m) + black_in(c),
{
    let m2 = m.insert(k, c);
    let mr = m.remove(k);
    let f2 = tally_fn(m2);
    let fr = tally_fn(mr);
    let d0 = m.dom().remove(k);
    lemma_tally_commutative(m2);
    lemma_tally_commutative(mr);
    assert(m2.dom() =~= d0.insert(k));
    lemma_fold_insert(d0, 0nat, f2, k);
    assert forall|b: nat, a: (int, int)| d0.contains(a) implies #[trigger] f2(b, a) == fr(
        b,
        a,
    ) by {
        assert(m2[a] == mr[a]);
    }
    lemma_fold_congruence(d0, 0nat, f2, fr);
    assert(mr.dom() =~= d0);
    if !m.dom().contains(k) {
        assert(mr =~= m);
    }
}

/// Each step toggles exactly one cell, so the committed total count moves by
/// exactly one: up off an unmarked cell, down off a marked one. (In
/// particular, the count genuinely decreases on a step that unmarks, while
/// the set of visited coordinates still only grows.)
pub proof fn lemma_step_count_delta(v: AntView)
    requires
        inv(v),
    ensures
        !v.grid[v.ly * GRID_SIZE + v.lx] ==> total_black(commit_spec(step_spec(v)).world)
            == total_black(commit_spec(v).world) + 1,
        v.grid[v.ly * GRID_SIZE + v.lx] ==> total_black(commit_spec(step_spec(v)).world) + 1
            == total_black(commit_spec(v).world),
{
    let idx = v.ly * GRID_SIZE + v.lx;
    let b = v.grid[idx];
    let g1 = v.grid.update(idx, !b);
    let k0 = (v.gx, v.gy);
    let s = step_spec(v);
    let w1 = v.world.insert(k0, v.grid);
    let wmid = v.world.insert(k0, g1);
    crate::grid::lemma_black_in_update(v.grid, idx, !b);
    lemma_total_black_insert(v.world, k0, v.grid);
    lemma_total_black_insert(v.world, k0, g1);
    if s.world == v.world && s.gx == v.gx && s.gy == v.gy && s.grid == g1 {
        assert(commit_spec(s).world == wmid);
    } else {
        assert(s.world == wmid);
        let k2 = (s.gx, s.gy);
        let w3 = wmid.insert(k2, s.grid);
        assert(commit_spec(s).world == w3);
        if wmid.dom().contains(k2) {
            assert(s.grid == wmid[k2]);
            assert(w3 =~= wmid);
        } else {
            assert(s.grid == blank_chunk());
            crate::grid::lemma_black_in_all_white(chunk_cells());
            lemma_total_black_insert(wmid, k2, s.grid);
            assert(wmid.remove(k2) =~= wmid);
        }
    }
}

} // verus!

