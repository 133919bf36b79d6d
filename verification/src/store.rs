//! The two shared-ownership structures behind the driver: the canonicalization
//! registry (chunk content to one shared canonical instance) and the sparse
//! world map (chunk coordinate to the canonical instance occupying it).
//!
//! Both wrap `fnv::FnvHashMap`, the standard `HashMap` with the FNV hasher.
//! Verus sees them through the two content models `registry_map` and
//! `world_map` and through the trusted accessors below, whose contracts state
//! the standard map semantics of the wrapped calls.

use vstd::prelude::*;
use std::rc::Rc;
use crate::grid::Grid;

verus! {

/// Canonicalization registry: chunk content, by value, to a shared handle on
/// the single canonical instance of that content.
#[verifier::external_body]
pub struct Registry {
    inner: fnv::FnvHashMap<Grid, Rc<Grid>>,
}

/// What a `Registry` holds: each registered chunk content, mapped to the
/// content of the canonical instance stored under it.
pub uninterp spec fn registry_map(r: Registry) -> Map<Seq<bool>, Seq<bool>>;

/// Sparse world map: chunk coordinate to a shared handle on the canonical
/// chunk occupying that coordinate.
#[verifier::external_body]
pub struct WorldMap {
    inner: fnv::FnvHashMap<(i64, i64), Rc<Grid>>,
}

/// What a `WorldMap` holds: each visited chunk coordinate, mapped to the
/// content of the chunk stored there.
pub uninterp spec fn world_map(m: WorldMap) -> Map<(int, int), Seq<bool>>;

/// The content model of a registry with nothing registered yet.
pub open spec fn empty_registry() -> Map<Seq<bool>, Seq<bool>> {
    Map::empty()
}

/// The content model of a world map with no coordinate visited yet.
pub open spec fn empty_world() -> Map<(int, int), Seq<bool>> {
    Map::empty()
}

/// Relies on fnv::FnvHashMap::with_capacity_and_hasher: a freshly built map
/// is empty.
#[verifier::external_body]
pub fn registry_with_capacity(cap: usize) -> (r: Registry)
    ensures
        registry_map(r) == empty_registry(),
{
    Registry { inner: fnv::FnvHashMap::with_capacity_and_hasher(cap, Default::default()) }
}

/// Relies on fnv::FnvHashMap::get: it returns the value stored under a key
/// equal to `g`, or `None` when no such key is present. `Grid`'s `Eq` and
/// `Hash` compare the dimensions and the full cell sequence, so among chunks
/// (fixed 32 x 32 shape, required below and of every key inserted) key
/// equality is exactly equality of `contents()`.
#[verifier::external_body]
pub fn registry_get(r: &Registry, g: &Grid) -> (res: Option<Rc<Grid>>)
    requires
        g.is_chunk(),
    ensures
        res is Some <==> registry_map(*r).dom().contains(g.contents()),
        res matches Some(rc) ==> (*rc).is_chunk() && (*rc).contents() == registry_map(
            *r,
        )[g.contents()],
{
    r.inner.get(g).cloned()
}

/// Relies on fnv::FnvHashMap::insert: afterwards the map holds `rc` under the
/// key `g`, and every other entry is unchanged. Only chunks are inserted,
/// which keeps key equality aligned with content equality (see
/// `registry_get`).
#[verifier::external_body]
pub fn registry_insert(r: &mut Registry, g: Grid, rc: Rc<Grid>)
    requires
        g.is_chunk(),
        (*rc).is_chunk(),
    ensures
        registry_map(*final(r)) == registry_map(*old(r)).insert(
            g.contents(),
            (*rc).contents(),
        ),
{
    r.inner.insert(g, rc);
}

/// Relies on fnv::FnvHashMap::len: the number of distinct keys held.
#[verifier::external_body]
pub fn registry_len(r: &Registry) -> (n: usize)
    ensures
        n == registry_map(*r).dom().len(),
{
    r.inner.len()
}

/// Relies on fnv::FnvHashMap::with_capacity_and_hasher: a freshly built map
/// is empty.
#[verifier::external_body]
pub fn world_with_capacity(cap: usize) -> (m: WorldMap)
    ensures
        world_map(m) == empty_world(),
{
    WorldMap { inner: fnv::FnvHashMap::with_capacity_and_hasher(cap, Default::default()) }
}

/// Relies on fnv::FnvHashMap::get with an integer-pair key: it returns the
/// value stored under exactly that coordinate, or `None` when the coordinate
/// was never inserted. Every stored value went through `world_insert`, so it
/// is a chunk.
#[verifier::external_body]
pub fn world_get(m: &WorldMap, gx: i64, gy: i64) -> (res: Option<Rc<Grid>>)
    ensures
        res is Some <==> world_map(*m).dom().contains((gx as int, gy as int)),
        res matches Some(rc) ==> (*rc).is_chunk() && (*rc).contents() == world_map(
            *m,
        )[(gx as int, gy as int)],
{
    m.inner.get(&(gx, gy)).cloned()
}

/// Relies on fnv::FnvHashMap::insert: afterwards the map holds `rc` under the
/// coordinate `(gx, gy)`, and every other entry is unchanged.
#[verifier::external_body]
pub fn world_insert(m: &mut WorldMap, gx: i64, gy: i64, rc: Rc<Grid>)
    requires
        (*rc).is_chunk(),
    ensures
        world_map(*final(m)) == world_map(*old(m)).insert(
            (gx as int, gy as int),
            (*rc).contents(),
        ),
{
    m.inner.insert((gx, gy), rc);
}

/// Relies on fnv::FnvHashMap::len: the number of distinct coordinates held.
#[verifier::external_body]
pub fn world_len(m: &WorldMap) -> (n: usize)
    ensures
        n == world_map(*m).dom().len(),
{
    m.inner.len()
}

/// Relies on fnv::FnvHashMap::iter: it visits every entry exactly once, in an
/// unspecified order. The result lists each stored coordinate with the chunk
/// occupying it; nothing is stated about the order.
#[verifier::external_body]
pub fn world_entries(m: &WorldMap) -> (v: Vec<(i64, i64, Rc<Grid>)>)
    ensures
        v@.len() == world_map(*m).dom().len(),
        forall|i: int|
            0 <= i < v@.len() ==> world_map(*m).dom().contains(
                (#[trigger] v@[i].0 as int, v@[i].1 as int),
            ) && (*v@[i].2).is_chunk() && (*v@[i].2).contents() == world_map(*m)[(
                v@[i].0 as int,
                v@[i].1 as int,
            )],
        forall|i: int, j: int|
            0 <= i < j < v@.len() ==> !(#[trigger] v@[i].0 == #[trigger] v@[j].0 && v@[i].1
                == v@[j].1),
{
    let mut v = Vec::new();
    for (k, rc) in m.inner.iter() {
        v.push((k.0, k.1, rc.clone()));
    }
    v
}

} // verus!
