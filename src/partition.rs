//! The spatial partition: a registry of the entities on the map, indexed both
//! by cell and by entity type.

use vstd::prelude::*;
use crate::hex::{HexMapPosition, cell_at, coord_ok, distance, get_neighbours, is_neighbour_at, lemma_neighbours_adjacent, neighbours};

verus! {

/// Index that marks an empty terrain slot.
pub const PLACEHOLDER_INDEX: u64 = 0xFFFF_FFFF_FFFF_FFFF;

/// Largest accepted map side, in cells.
pub const MAX_SIDE: usize = 0x4000;

/// Number of entity types, and so of by-type buckets.
pub const TYPE_COUNT: usize = 4;

/// A handle to an entity of the simulation.
#[derive(Clone, Copy, Debug, PartialEq, Eq, Structural, Hash)]
pub struct Entity {
    pub index: u64,
}

impl Entity {
    /// The entity with the given index.
    pub fn from_raw(index: u64) -> (r: Entity)
        ensures
            r.index == index,
    {
        Entity { index }
    }

    /// The handle that stands for "no entity" in a terrain slot.
    pub fn placeholder() -> (r: Entity)
        ensures
            r.index == PLACEHOLDER_INDEX,
    {
        Entity { index: PLACEHOLDER_INDEX }
    }
}

/// What an entity is.
#[derive(Clone, Copy, Debug, PartialEq, Eq, Structural, Hash)]
pub enum EntityType {
    Cell,
    Grass,
    Rabbit,
    Fox,
}

impl EntityType {
    /// The entity type's display name, also the name of its sprite.
    pub fn label(&self) -> (r: &'static str)
        ensures
            r@ == match *self {
                EntityType::Cell => "Map_cell"@,
                EntityType::Grass => "Grass_normal"@,
                EntityType::Rabbit => "Rabbit"@,
                EntityType::Fox => "Fox"@,
            },
    {
        match self {
            EntityType::Cell => "Map_cell",
            EntityType::Grass => "Grass_normal",
            EntityType::Rabbit => "Rabbit",
            EntityType::Fox => "Fox",
        }
    }
}

/// The bucket of the by-type index that holds entities of type `t`.
pub open spec fn slot(t: EntityType) -> int {
    match t {
        EntityType::Cell => 0,
        EntityType::Grass => 1,
        EntityType::Rabbit => 2,
        EntityType::Fox => 3,
    }
}

/// The bucket of the by-type index that holds entities of type `t`.
pub fn type_slot(t: EntityType) -> (r: usize)
    ensures
        r as int == slot(t),
        r < TYPE_COUNT,
{
    match t {
        EntityType::Cell => 0,
        EntityType::Grass => 1,
        EntityType::Rabbit => 2,
        EntityType::Fox => 3,
    }
}

/// An entity together with the cell it was registered at.
#[derive(Clone, Copy, Debug, PartialEq, Eq, Structural, Hash)]
pub struct EntityWithCoord {
    pub entity: Entity,
    pub pos: HexMapPosition,
}

/// Dimensions of the map.
#[derive(Clone, Copy, Debug, PartialEq, Eq, Structural)]
pub struct HexGridConfig {
    /// Number of columns.
    pub width: usize,
    /// Number of rows.
    pub height: usize,
}

impl HexGridConfig {
    pub open spec fn wf(self) -> bool {
        0 < self.width <= MAX_SIDE && 0 < self.height <= MAX_SIDE
    }

    pub fn new(width: usize, height: usize) -> (r: HexGridConfig)
        ensures
            r.width == width,
            r.height == height,
    {
        HexGridConfig { width, height }
    }
}

/// The registry of the map's entities.
///
/// `cell_entity` holds the terrain entity of each cell; `ground_entities` and
/// `other_entities` hold, per cell, the grass and the animals standing there;
/// `entities_map` holds one bucket per entity type of `(entity, cell)` pairs.
/// The per-cell sets and the buckets always describe the same placements.
pub struct SpatialPartition {
    pub cell_entity: Vec<Entity>,
    pub ground_entities: Vec<Vec<Entity>>,
    pub other_entities: Vec<Vec<Entity>>,
    pub entities_map: Vec<Vec<EntityWithCoord>>,
    pub config: HexGridConfig,
}

impl SpatialPartition {
    pub open spec fn width(self) -> int {
        self.config.width as int
    }

    pub open spec fn height(self) -> int {
        self.config.height as int
    }

    /// Number of cells of the map.
    pub open spec fn cells(self) -> int {
        self.width() * self.height()
    }

    /// Whether `p` lies on the map.
    pub open spec fn valid(self, p: HexMapPosition) -> bool {
        0 <= p.x < self.width() && 0 <= p.y < self.height()
    }

    /// Row-major index of the cell `p`.
    pub open spec fn cell_index(self, p: HexMapPosition) -> int {
        p.y * self.width() + p.x
    }

    /// Contents of bucket `k` of the by-type index.
    pub open spec fn bucket_at(self, k: int) -> Seq<EntityWithCoord> {
        self.entities_map@[k]@
    }

    /// Contents of the by-type bucket of `t`.
    pub open spec fn bucket(self, t: EntityType) -> Seq<EntityWithCoord> {
        self.bucket_at(slot(t))
    }

    /// Grass standing on cell `i`.
    pub open spec fn ground_at(self, i: int) -> Seq<Entity> {
        self.ground_entities@[i]@
    }

    /// Animals and other non-ground entities standing on cell `i`.
    pub open spec fn other_at(self, i: int) -> Seq<Entity> {
        self.other_entities@[i]@
    }

    /// Bucket `k` places `e` on cell `i`.
    pub open spec fn placed(self, k: int, i: int, e: Entity) -> bool {
        exists|j: int|
            0 <= j < self.bucket_at(k).len() && #[trigger] self.bucket_at(k)[j].entity == e
                && self.cell_index(self.bucket_at(k)[j].pos) == i
    }

    /// Some bucket of the by-type index holds `e`.
    pub open spec fn tracks(self, e: Entity) -> bool {
        exists|k: int, j: int|
            1 <= k < TYPE_COUNT && 0 <= j < self.bucket_at(k).len() && #[trigger] self.bucket_at(
                k,
            )[j].entity == e
    }

    /// `after` is this partition with `entity` of type `t` registered at `pos`.
    pub open spec fn inserted(self, after: SpatialPartition, entity: Entity, pos: HexMapPosition, t: EntityType) -> bool {
        &&& after.config == self.config
        &&& after.cell_entity@ == (if t == EntityType::Cell {
                self.cell_entity@.update(self.cell_index(pos), entity)
            } else {
                self.cell_entity@
            })
        &&& forall|u: EntityType| #[trigger]
                after.bucket(u) == if u == t && u != EntityType::Cell {
                    self.bucket(u).push(EntityWithCoord { entity, pos: pos })
                } else {
                    self.bucket(u)
                }
        &&& forall|i: int|
                0 <= i < self.cells() ==> #[trigger] after.ground_at(i) == if t == EntityType::Grass && i
                    == self.cell_index(pos) {
                    self.ground_at(i).push(entity)
                } else {
                    self.ground_at(i)
                }
        &&& forall|i: int|
                0 <= i < self.cells() ==> #[trigger] after.other_at(i) == if (t == EntityType::Rabbit || t
                    == EntityType::Fox) && i == self.cell_index(pos) {
                    self.other_at(i).push(entity)
                } else {
                    self.other_at(i)
                }
    }

    /// `after` is this partition with `entity`, registered as `t` at `pos`,
    /// unregistered; nothing changes unless that registration exists.
    pub open spec fn removed(self, after: SpatialPartition, entity: Entity, pos: HexMapPosition, t: EntityType) -> bool {
        &&& (after.config == self.config)
        &&& (after.cell_entity@ == self.cell_entity@)
        &&& (!self.bucket(t).contains(EntityWithCoord { entity, pos: pos })
                || t == EntityType::Cell ==> after == self)
        &&& (self.bucket(t).contains(EntityWithCoord { entity, pos: pos })
                && t != EntityType::Cell ==> {
                &&& !after.tracks(entity)
                &&& exists|j: int|
                    0 <= j < self.bucket(t).len() && self.bucket(t)[j]
                        == (EntityWithCoord { entity, pos: pos }) && after.bucket(
                        t,
                    ) == self.bucket(t).remove(j)
                &&& forall|u: EntityType|
                    u != t ==> #[trigger] after.bucket(u) == self.bucket(u)
                &&& forall|i: int, x: Entity|
                    0 <= i < self.cells() ==> (#[trigger] after.ground_at(i).contains(x)
                        <==> self.ground_at(i).contains(x) && x != entity)
                &&& forall|i: int, x: Entity|
                    0 <= i < self.cells() ==> (#[trigger] after.other_at(i).contains(x)
                        <==> self.other_at(i).contains(x) && x != entity)
            })
    }

    /// Everything standing on cell `p`, as `entities_at` lists it.
    pub open spec fn entities_at_view(self, p: HexMapPosition) -> Seq<Entity> {
        self.ground_at(self.cell_index(p)) + self.other_at(self.cell_index(p))
    }

    /// The partition's invariant.
    pub open spec fn wf(self) -> bool {
        &&& self.config.wf()
        &&& self.cell_entity@.len() == self.cells()
        &&& self.ground_entities@.len() == self.cells()
        &&& self.other_entities@.len() == self.cells()
        &&& self.entities_map@.len() == TYPE_COUNT
        &&& self.bucket_at(0).len() == 0
        &&& forall|k: int, j: int|
            1 <= k < TYPE_COUNT && 0 <= j < self.bucket_at(k).len() ==> {
                let p = #[trigger] self.bucket_at(k)[j].pos;
                p.wf() && self.valid(p)
            }
        &&& forall|k1: int, j1: int, k2: int, j2: int|
            1 <= k1 < TYPE_COUNT && 1 <= k2 < TYPE_COUNT && 0 <= j1 < self.bucket_at(k1).len() && 0
                <= j2 < self.bucket_at(k2).len() && #[trigger] self.bucket_at(k1)[j1].entity
                == #[trigger] self.bucket_at(k2)[j2].entity ==> k1 == k2 && j1 == j2
        &&& forall|i: int| 0 <= i < self.cells() ==> (#[trigger] self.ground_at(i)).no_duplicates()
        &&& forall|i: int| 0 <= i < self.cells() ==> (#[trigger] self.other_at(i)).no_duplicates()
        &&& forall|i: int, e: Entity|
            0 <= i < self.cells() ==> (#[trigger] self.ground_at(i).contains(e) <==> self.placed(
                1,
                i,
                e,
            ))
        &&& forall|i: int, e: Entity|
            0 <= i < self.cells() ==> (#[trigger] self.other_at(i).contains(e) <==> (self.placed(
                2,
                i,
                e,
            ) || self.placed(3, i, e)))
    }
}

impl SpatialPartition {
    /// An empty partition for a map of the configured size: every terrain
    /// slot empty, every set and bucket empty.
    pub fn new(config: HexGridConfig) -> (r: SpatialPartition)
        requires
            config.wf(),
        ensures
            r.wf(),
            r.config == config,
            forall|i: int| 0 <= i < r.cells() ==> (#[trigger] r.cell_entity@[i]).index
                == PLACEHOLDER_INDEX,
            forall|i: int| 0 <= i < r.cells() ==> (#[trigger] r.ground_at(i)).len() == 0,
            forall|i: int| 0 <= i < r.cells() ==> (#[trigger] r.other_at(i)).len() == 0,
            forall|t: EntityType| (#[trigger] r.bucket(t)).len() == 0,
    {
        proof {
            lemma_cells_bound(config.width as int, config.height as int);
        }
        let capacity = config.width * config.height;
        let mut cell_entity: Vec<Entity> = Vec::new();
        let mut ground_entities: Vec<Vec<Entity>> = Vec::new();
        let mut other_entities: Vec<Vec<Entity>> = Vec::new();
        let mut i: usize = 0;
        while i < capacity
            invariant
                i <= capacity,
                cell_entity@.len() == i,
                ground_entities@.len() == i,
                other_entities@.len() == i,
                forall|j: int| 0 <= j < i ==> (#[trigger] cell_entity@[j]).index
                    == PLACEHOLDER_INDEX,
                forall|j: int| 0 <= j < i ==> (#[trigger] ground_entities@[j])@.len() == 0,
                forall|j: int| 0 <= j < i ==> (#[trigger] other_entities@[j])@.len() == 0,
            decreases capacity - i,
        {
            cell_entity.push(Entity::placeholder());
            ground_entities.push(Vec::new());
            other_entities.push(Vec::new());
            i = i + 1;
        }
        let mut entities_map: Vec<Vec<EntityWithCoord>> = Vec::new();
        let mut k: usize = 0;
        while k < TYPE_COUNT
            invariant
                k <= TYPE_COUNT,
                entities_map@.len() == k,
                forall|j: int| 0 <= j < k ==> (#[trigger] entities_map@[j])@.len() == 0,
            decreases TYPE_COUNT - k,
        {
            entities_map.push(Vec::new());
            k = k + 1;
        }
        let r = SpatialPartition { cell_entity, ground_entities, other_entities, entities_map, config };
        assert forall|t: EntityType| (#[trigger] r.bucket(t)).len() == 0 by {
            assert(0 <= slot(t) < 4);
        }
        r
    }

    /// Whether `pos` lies on the map.
    pub fn is_valid_position(&self, pos: &HexMapPosition) -> (r: bool)
        requires
            self.config.wf(),
        ensures
            r == self.valid(*pos),
    {
        pos.x >= 0 && pos.x < self.config.width as i32 && pos.y >= 0 && pos.y
            < self.config.height as i32
    }

    /// Whether terrain blocks `pos`; no terrain blocks movement yet.
    pub fn is_obstacle(&self, pos: &HexMapPosition) -> (r: bool)
        ensures
            r == is_obstacle_spec(*pos),
    {
        false
    }

    /// Row-major index of a cell of the map.
    fn get_index(&self, pos: &HexMapPosition) -> (r: usize)
        requires
            self.wf(),
            self.valid(*pos),
        ensures
            r as int == self.cell_index(*pos),
            r < self.cells(),
    {
        proof {
            lemma_index_in_range(pos.x as int, pos.y as int, self.width(), self.height());
        }
        (pos.y as usize) * self.config.width + pos.x as usize
    }

    /// Whether the slot that an entity of type `entity_type` would take on
    /// `pos` is free: always `false` for terrain, whether the cell holds no
    /// grass for grass, and whether it holds no other entity otherwise.
    pub fn check_entity_conflict_by_pos(&self, entity_type: EntityType, pos: &HexMapPosition) -> (r:
        bool)
        requires
            self.wf(),
            self.valid(*pos),
        ensures
            r == match entity_type {
                EntityType::Cell => false,
                EntityType::Grass => self.ground_at(self.cell_index(*pos)).len() == 0,
                _ => self.other_at(self.cell_index(*pos)).len() == 0,
            },
    {
        let index = self.get_index(pos);
        match entity_type {
            EntityType::Cell => false,
            EntityType::Grass => self.ground_entities[index].len() == 0,
            _ => self.other_entities[index].len() == 0,
        }
    }

    /// The terrain entity of a cell.
    pub fn get_cell_by_pos(&self, pos: &HexMapPosition) -> (r: Entity)
        requires
            self.wf(),
            self.valid(*pos),
        ensures
            r == self.cell_entity@[self.cell_index(*pos)],
    {
        let index = self.get_index(pos);
        self.cell_entity[index]
    }
}

impl SpatialPartition {
    /// Registers `entity` of type `entity_type` at `pos`: terrain takes the
    /// cell's terrain slot; grass joins the cell's ground set, any other type
    /// its other set; every type but terrain joins its by-type bucket.
    /// An entity is registered once, until it is removed.
    pub fn insert_cache_entity(
        &mut self,
        entity: Entity,
        pos: &HexMapPosition,
        entity_type: EntityType,
    )
        requires
            old(self).wf(),
            pos.wf(),
            old(self).valid(*pos),
            entity_type != EntityType::Cell ==> !old(self).tracks(entity),
        ensures
            final(self).wf(),
            old(self).inserted(*final(self), entity, *pos, entity_type),
    {
        let index = self.get_index(pos);
        let ghost old_self = *self;
        match entity_type {
            EntityType::Cell => {
                self.cell_entity.set(index, entity);
                assert(self.ground_entities == old_self.ground_entities);
                assert(self.other_entities == old_self.other_entities);
                assert(self.entities_map == old_self.entities_map);
                assert(forall|i: int| #[trigger] self.ground_at(i) == old_self.ground_at(i));
                assert(forall|i: int| #[trigger] self.other_at(i) == old_self.other_at(i));
                assert(forall|k: int| #[trigger] self.bucket_at(k) == old_self.bucket_at(k));
                assert(self.config == old_self.config);
                assert forall|k: int, i: int, e: Entity| #[trigger] self.placed(k, i, e)
                    == old_self.placed(k, i, e) by {
                    if self.placed(k, i, e) {
                        let j = choose|j: int|
                            0 <= j < self.bucket_at(k).len() && #[trigger] self.bucket_at(k)[j].entity
                                == e && self.cell_index(self.bucket_at(k)[j].pos) == i;
                        assert(old_self.bucket_at(k)[j].entity == e);
                    }
                    if old_self.placed(k, i, e) {
                        let j = choose|j: int|
                            0 <= j < old_self.bucket_at(k).len()
                                && #[trigger] old_self.bucket_at(k)[j].entity == e
                                && old_self.cell_index(old_self.bucket_at(k)[j].pos) == i;
                        assert(self.bucket_at(k)[j].entity == e);
                    }
                }
            }
            EntityType::Grass => {
                proof {
                    if old_self.ground_at(index as int).contains(entity) {
                        assert(old_self.placed(1, index as int, entity));
                        let j = choose|j: int|
                            0 <= j < old_self.bucket_at(1).len()
                                && #[trigger] old_self.bucket_at(1)[j].entity == entity
                                && old_self.cell_index(old_self.bucket_at(1)[j].pos)
                                == index as int;
                        assert(old_self.tracks(entity));
                    }
                }
                self.ground_entities[index].push(entity);
                let slot = type_slot(entity_type);
                self.entities_map[slot].push(EntityWithCoord { entity, pos: *pos });
                proof {
                    self.lemma_insert_keeps_wf(old_self, entity, *pos, entity_type);
                }
            }
            _ => {
                proof {
                    if old_self.other_at(index as int).contains(entity) {
                        assert(old_self.placed(2, index as int, entity) || old_self.placed(
                            3,
                            index as int,
                            entity,
                        ));
                        assert(old_self.tracks(entity));
                    }
                }
                self.other_entities[index].push(entity);
                let slot = type_slot(entity_type);
                self.entities_map[slot].push(EntityWithCoord { entity, pos: *pos });
                proof {
                    self.lemma_insert_keeps_wf(old_self, entity, *pos, entity_type);
                }
            }
        }
    }

    proof fn lemma_insert_keeps_wf(
        self,
        old_self: SpatialPartition,
        entity: Entity,
        pos: HexMapPosition,
        entity_type: EntityType,
    )
        requires
            old_self.wf(),
            pos.wf(),
            old_self.valid(pos),
            entity_type != EntityType::Cell,
            !old_self.tracks(entity),
            !old_self.ground_at(old_self.cell_index(pos)).contains(entity),
            !old_self.other_at(old_self.cell_index(pos)).contains(entity),
            self.config == old_self.config,
            self.cell_entity@ == old_self.cell_entity@,
            self.entities_map@.len() == TYPE_COUNT,
            self.ground_entities@.len() == old_self.ground_entities@.len(),
            self.other_entities@.len() == old_self.other_entities@.len(),
            forall|k: int|
                0 <= k < TYPE_COUNT ==> #[trigger] self.bucket_at(k) == if k == slot(entity_type) {
                    old_self.bucket_at(k).push(EntityWithCoord { entity, pos })
                } else {
                    old_self.bucket_at(k)
                },
            forall|i: int|
                0 <= i < old_self.cells() ==> #[trigger] self.ground_at(i) == if entity_type
                    == EntityType::Grass && i == old_self.cell_index(pos) {
                    old_self.ground_at(i).push(entity)
                } else {
                    old_self.ground_at(i)
                },
            forall|i: int|
                0 <= i < old_self.cells() ==> #[trigger] self.other_at(i) == if entity_type
                    != EntityType::Grass && i == old_self.cell_index(pos) {
                    old_self.other_at(i).push(entity)
                } else {
                    old_self.other_at(i)
                },
        ensures
            self.wf(),
    {
        let ks = slot(entity_type);
        let idx = old_self.cell_index(pos);
        let n = old_self.bucket_at(ks).len();
        assert(self.bucket_at(ks)[n as int].entity == entity);
        assert forall|k1: int, j1: int, k2: int, j2: int|
            1 <= k1 < TYPE_COUNT && 1 <= k2 < TYPE_COUNT && 0 <= j1 < self.bucket_at(k1).len() && 0
                <= j2 < self.bucket_at(k2).len() && #[trigger] self.bucket_at(k1)[j1].entity
                == #[trigger] self.bucket_at(k2)[j2].entity implies k1 == k2 && j1 == j2 by {
            if k1 == ks && j1 == n {
                if !(k2 == ks && j2 == n) {
                    assert(old_self.bucket_at(k2)[j2].entity == entity);
                    assert(old_self.tracks(entity));
                }
            } else if k2 == ks && j2 == n {
                assert(old_self.bucket_at(k1)[j1].entity == entity);
                assert(old_self.tracks(entity));
            } else {
                assert(old_self.bucket_at(k1)[j1] == self.bucket_at(k1)[j1]);
                assert(old_self.bucket_at(k2)[j2] == self.bucket_at(k2)[j2]);
            }
        }
        assert forall|k: int, i: int, e: Entity|
            1 <= k < TYPE_COUNT && 0 <= i < old_self.cells() implies #[trigger] self.placed(k, i, e)
            == (old_self.placed(k, i, e) || (k == ks && i == idx && e == entity)) by {
            if self.placed(k, i, e) {
                let j = choose|j: int|
                    0 <= j < self.bucket_at(k).len() && #[trigger] self.bucket_at(k)[j].entity == e
                        && self.cell_index(self.bucket_at(k)[j].pos) == i;
                if !(k == ks && j == n) {
                    assert(old_self.bucket_at(k)[j] == self.bucket_at(k)[j]);
                }
            }
            if old_self.placed(k, i, e) {
                let j = choose|j: int|
                    0 <= j < old_self.bucket_at(k).len() && #[trigger] old_self.bucket_at(k)[j].entity
                        == e && old_self.cell_index(old_self.bucket_at(k)[j].pos) == i;
                assert(self.bucket_at(k)[j] == old_self.bucket_at(k)[j]);
            }
            if k == ks && i == idx && e == entity {
                assert(self.bucket_at(k)[n as int].entity == e);
            }
        }
        assert forall|i: int, e: Entity| 0 <= i < self.cells() implies (#[trigger] self.ground_at(
            i,
        ).contains(e) <==> self.placed(1, i, e)) by {
            assert(self.placed(1, i, e) == (old_self.placed(1, i, e) || (1 == ks && i == idx && e
                == entity)));
            if entity_type == EntityType::Grass && i == idx {
                assert(self.ground_at(i).contains(e) <==> (old_self.ground_at(i).contains(e) || e
                    == entity)) by {
                    if self.ground_at(i).contains(e) {
                        let m = self.ground_at(i).index_of(e);
                        if m < old_self.ground_at(i).len() {
                            assert(old_self.ground_at(i)[m] == e);
                        }
                    }
                    if old_self.ground_at(i).contains(e) {
                        let m = old_self.ground_at(i).index_of(e);
                        assert(self.ground_at(i)[m] == e);
                    }
                    if e == entity {
                        assert(self.ground_at(i)[old_self.ground_at(i).len() as int] == e);
                    }
                }
            }
        }
        assert forall|i: int, e: Entity| 0 <= i < self.cells() implies (#[trigger] self.other_at(
            i,
        ).contains(e) <==> (self.placed(2, i, e) || self.placed(3, i, e))) by {
            assert(self.placed(2, i, e) == (old_self.placed(2, i, e) || (2 == ks && i == idx && e
                == entity)));
            assert(self.placed(3, i, e) == (old_self.placed(3, i, e) || (3 == ks && i == idx && e
                == entity)));
            if entity_type != EntityType::Grass && i == idx {
                assert(self.other_at(i).contains(e) <==> (old_self.other_at(i).contains(e) || e
                    == entity)) by {
                    if self.other_at(i).contains(e) {
                        let m = self.other_at(i).index_of(e);
                        if m < old_self.other_at(i).len() {
                            assert(old_self.other_at(i)[m] == e);
                        }
                    }
                    if old_self.other_at(i).contains(e) {
                        let m = old_self.other_at(i).index_of(e);
                        assert(self.other_at(i)[m] == e);
                    }
                    if e == entity {
                        assert(self.other_at(i)[old_self.other_at(i).len() as int] == e);
                    }
                }
            }
        }
        assert forall|i: int| 0 <= i < self.cells() implies (#[trigger] self.ground_at(
            i,
        )).no_duplicates() by {
            if entity_type == EntityType::Grass && i == idx {
                let s = self.ground_at(i);
                assert forall|a: int, b: int|
                    0 <= a < s.len() && 0 <= b < s.len() && a != b implies s[a] != s[b] by {
                    if a == s.len() - 1 {
                        assert(old_self.ground_at(i).contains(s[b]));
                    } else if b == s.len() - 1 {
                        assert(old_self.ground_at(i).contains(s[a]));
                    }
                }
            }
        }
        assert forall|i: int| 0 <= i < self.cells() implies (#[trigger] self.other_at(
            i,
        )).no_duplicates() by {
            if entity_type != EntityType::Grass && i == idx {
                let s = self.other_at(i);
                assert forall|a: int, b: int|
                    0 <= a < s.len() && 0 <= b < s.len() && a != b implies s[a] != s[b] by {
                    if a == s.len() - 1 {
                        assert(old_self.other_at(i).contains(s[b]));
                    } else if b == s.len() - 1 {
                        assert(old_self.other_at(i).contains(s[a]));
                    }
                }
            }
        }
    }
}

impl SpatialPartition {
    /// Unregisters `entity`, registered as `entity_type` at `pos`: it leaves
    /// its by-type bucket and the cell's set. Called with any other position
    /// or type than those it was registered with, it changes nothing.
    pub fn remove_entity(&mut self, entity: Entity, pos: &HexMapPosition, entity_type: EntityType)
        requires
            old(self).wf(),
            old(self).valid(*pos),
        ensures
            final(self).wf(),
            old(self).removed(*final(self), entity, *pos, entity_type),
    {
        let slot = type_slot(entity_type);
        if slot == 0 {
            return;
        }
        let key = EntityWithCoord { entity, pos: *pos };
        let found = find_entry(&self.entities_map[slot], &key);
        match found {
            None => {},
            Some(j) => {
                let index = self.get_index(pos);
                let ghost old_self = *self;
                proof {
                    assert(old_self.bucket_at(slot as int)[j as int] == key);
                    assert(old_self.bucket_at(slot as int)[j as int].entity == entity);
                    assert(key.pos.wf());
                }
                self.entities_map[slot].remove(j);
                if slot == 1 {
                    proof {
                        assert(old_self.placed(1, index as int, entity));
                    }
                    assert(self.ground_at(index as int) == old_self.ground_at(index as int));
                    let m = find_entity(&self.ground_entities[index], entity);
                    match m {
                        Some(m) => {
                            self.ground_entities[index].remove(m);
                            assert(old_self.ground_at(index as int)[m as int] == entity);
                        },
                        None => {
                            assert(old_self.ground_at(index as int).contains(entity));
                        },
                    }
                } else {
                    proof {
                        assert(old_self.placed(slot as int, index as int, entity));
                    }
                    assert(self.other_at(index as int) == old_self.other_at(index as int));
                    let m = find_entity(&self.other_entities[index], entity);
                    match m {
                        Some(m) => {
                            self.other_entities[index].remove(m);
                            assert(old_self.other_at(index as int)[m as int] == entity);
                        },
                        None => {
                            assert(old_self.other_at(index as int).contains(entity));
                        },
                    }
                }
                proof {
                    self.lemma_remove_keeps_wf(old_self, entity, *pos, entity_type, j as int);
                }
            },
        }
    }

    proof fn lemma_remove_keeps_wf(
        self,
        old_self: SpatialPartition,
        entity: Entity,
        pos: HexMapPosition,
        entity_type: EntityType,
        j: int,
    )
        requires
            old_self.wf(),
            pos.wf(),
            old_self.valid(pos),
            entity_type != EntityType::Cell,
            0 <= j < old_self.bucket(entity_type).len(),
            old_self.bucket(entity_type)[j] == (EntityWithCoord { entity, pos }),
            self.config == old_self.config,
            self.cell_entity@ == old_self.cell_entity@,
            self.entities_map@.len() == TYPE_COUNT,
            self.ground_entities@.len() == old_self.ground_entities@.len(),
            self.other_entities@.len() == old_self.other_entities@.len(),
            forall|k: int|
                0 <= k < TYPE_COUNT ==> #[trigger] self.bucket_at(k) == if k == slot(entity_type) {
                    old_self.bucket_at(k).remove(j)
                } else {
                    old_self.bucket_at(k)
                },
            forall|i: int|
                0 <= i < old_self.cells() && !(entity_type == EntityType::Grass && i
                    == old_self.cell_index(pos)) ==> #[trigger] self.ground_at(i) == old_self.ground_at(i),
            forall|i: int|
                0 <= i < old_self.cells() && !(entity_type != EntityType::Grass && i
                    == old_self.cell_index(pos)) ==> #[trigger] self.other_at(i) == old_self.other_at(i),
            entity_type == EntityType::Grass ==> exists|m: int|
                0 <= m < old_self.ground_at(old_self.cell_index(pos)).len() && old_self.ground_at(
                    old_self.cell_index(pos),
                )[m] == entity && self.ground_at(old_self.cell_index(pos)) == old_self.ground_at(
                    old_self.cell_index(pos),
                ).remove(m),
            entity_type != EntityType::Grass ==> exists|m: int|
                0 <= m < old_self.other_at(old_self.cell_index(pos)).len() && old_self.other_at(
                    old_self.cell_index(pos),
                )[m] == entity && self.other_at(old_self.cell_index(pos)) == old_self.other_at(
                    old_self.cell_index(pos),
                ).remove(m),
        ensures
            self.wf(),
            !self.tracks(entity),
            forall|i: int, x: Entity|
                0 <= i < old_self.cells() ==> (#[trigger] self.ground_at(i).contains(x)
                    <==> old_self.ground_at(i).contains(x) && x != entity),
            forall|i: int, x: Entity|
                0 <= i < old_self.cells() ==> (#[trigger] self.other_at(i).contains(x)
                    <==> old_self.other_at(i).contains(x) && x != entity),
    {
        let ks = slot(entity_type);
        let idx = old_self.cell_index(pos);
        assert(old_self.bucket_at(ks)[j].entity == entity);
        // entries of the shrunk bucket map back to entries of the old one
        assert forall|k: int, jj: int|
            1 <= k < TYPE_COUNT && 0 <= jj < self.bucket_at(k).len() implies #[trigger] self.bucket_at(
            k,
        )[jj] == old_self.bucket_at(k)[if k == ks && jj >= j {
            jj + 1
        } else {
            jj
        }] by {}
        assert forall|k1: int, j1: int, k2: int, j2: int|
            1 <= k1 < TYPE_COUNT && 1 <= k2 < TYPE_COUNT && 0 <= j1 < self.bucket_at(k1).len() && 0
                <= j2 < self.bucket_at(k2).len() && #[trigger] self.bucket_at(k1)[j1].entity
                == #[trigger] self.bucket_at(k2)[j2].entity implies k1 == k2 && j1 == j2 by {
            let o1 = if k1 == ks && j1 >= j {
                j1 + 1
            } else {
                j1
            };
            let o2 = if k2 == ks && j2 >= j {
                j2 + 1
            } else {
                j2
            };
            assert(self.bucket_at(k1)[j1] == old_self.bucket_at(k1)[o1]);
            assert(self.bucket_at(k2)[j2] == old_self.bucket_at(k2)[o2]);
        }
        assert forall|k: int, jj: int|
            1 <= k < TYPE_COUNT && 0 <= jj < self.bucket_at(k).len() implies (#[trigger] self.bucket_at(
            k,
        )[jj]).entity != entity by {
            let o = if k == ks && jj >= j {
                jj + 1
            } else {
                jj
            };
            assert(self.bucket_at(k)[jj] == old_self.bucket_at(k)[o]);
            assert(old_self.bucket_at(ks)[j].entity == entity);
        }
        assert forall|k: int, i: int, e: Entity|
            1 <= k < TYPE_COUNT && 0 <= i < old_self.cells() implies #[trigger] self.placed(k, i, e)
            == (old_self.placed(k, i, e) && e != entity) by {
            if self.placed(k, i, e) {
                let jj = choose|jj: int|
                    0 <= jj < self.bucket_at(k).len() && #[trigger] self.bucket_at(k)[jj].entity == e
                        && self.cell_index(self.bucket_at(k)[jj].pos) == i;
                let o = if k == ks && jj >= j {
                    jj + 1
                } else {
                    jj
                };
                assert(self.bucket_at(k)[jj] == old_self.bucket_at(k)[o]);
            }
            if old_self.placed(k, i, e) && e != entity {
                let o = choose|o: int|
                    0 <= o < old_self.bucket_at(k).len() && #[trigger] old_self.bucket_at(k)[o].entity
                        == e && old_self.cell_index(old_self.bucket_at(k)[o].pos) == i;
                if k == ks {
                    assert(o != j);
                    let jj = if o > j {
                        o - 1
                    } else {
                        o
                    };
                    assert(self.bucket_at(k)[jj] == old_self.bucket_at(k)[o]);
                } else {
                    assert(self.bucket_at(k)[o] == old_self.bucket_at(k)[o]);
                }
            }
        }
        assert forall|i: int, x: Entity|
            0 <= i < old_self.cells() implies (#[trigger] self.ground_at(i).contains(x)
            <==> old_self.ground_at(i).contains(x) && x != entity) by {
            if entity_type == EntityType::Grass && i == idx {
                let m = choose|m: int|
                    0 <= m < old_self.ground_at(idx).len() && old_self.ground_at(idx)[m] == entity
                        && self.ground_at(idx) == old_self.ground_at(idx).remove(m);
                lemma_remove_unique(old_self.ground_at(idx), m, x);
            } else {
                if old_self.ground_at(i).contains(x) && x == entity {
                    assert(old_self.placed(1, i, entity));
                    let o = choose|o: int|
                        0 <= o < old_self.bucket_at(1).len() && #[trigger] old_self.bucket_at(1)[o].entity
                            == entity && old_self.cell_index(old_self.bucket_at(1)[o].pos) == i;
                    assert(ks == 1 && o == j);
                    lemma_index_injective(old_self, old_self.bucket_at(1)[o].pos, pos);
                }
            }
        }
        assert forall|i: int, x: Entity|
            0 <= i < old_self.cells() implies (#[trigger] self.other_at(i).contains(x)
            <==> old_self.other_at(i).contains(x) && x != entity) by {
            if entity_type != EntityType::Grass && i == idx {
                let m = choose|m: int|
                    0 <= m < old_self.other_at(idx).len() && old_self.other_at(idx)[m] == entity
                        && self.other_at(idx) == old_self.other_at(idx).remove(m);
                lemma_remove_unique(old_self.other_at(idx), m, x);
            } else {
                if old_self.other_at(i).contains(x) && x == entity {
                    if old_self.placed(2, i, entity) {
                        let o = choose|o: int|
                            0 <= o < old_self.bucket_at(2).len()
                                && #[trigger] old_self.bucket_at(2)[o].entity == entity
                                && old_self.cell_index(old_self.bucket_at(2)[o].pos) == i;
                        assert(ks == 2 && o == j);
                        lemma_index_injective(old_self, old_self.bucket_at(2)[o].pos, pos);
                    } else {
                        let o = choose|o: int|
                            0 <= o < old_self.bucket_at(3).len()
                                && #[trigger] old_self.bucket_at(3)[o].entity == entity
                                && old_self.cell_index(old_self.bucket_at(3)[o].pos) == i;
                        assert(ks == 3 && o == j);
                        lemma_index_injective(old_self, old_self.bucket_at(3)[o].pos, pos);
                    }
                }
            }
        }
        assert forall|i: int| 0 <= i < self.cells() implies (#[trigger] self.ground_at(
            i,
        )).no_duplicates() by {
            if entity_type == EntityType::Grass && i == idx {
                let m = choose|m: int|
                    0 <= m < old_self.ground_at(idx).len() && old_self.ground_at(idx)[m] == entity
                        && self.ground_at(idx) == old_self.ground_at(idx).remove(m);
                lemma_remove_keeps_distinct(old_self.ground_at(idx), m);
            }
        }
        assert forall|i: int| 0 <= i < self.cells() implies (#[trigger] self.other_at(
            i,
        )).no_duplicates() by {
            if entity_type != EntityType::Grass && i == idx {
                let m = choose|m: int|
                    0 <= m < old_self.other_at(idx).len() && old_self.other_at(idx)[m] == entity
                        && self.other_at(idx) == old_self.other_at(idx).remove(m);
                lemma_remove_keeps_distinct(old_self.other_at(idx), m);
            }
        }
    }
}

/// After registering `e` as `t` at `p`, the by-type snapshot of `t` lists
/// `(e, p)` and the cell `p` lists `e`; after unregistering it again, no
/// by-type snapshot and no cell lists `e`.
pub proof fn lemma_insert_remove_trace(
    s0: SpatialPartition,
    s1: SpatialPartition,
    s2: SpatialPartition,
    e: Entity,
    p: HexMapPosition,
    t: EntityType,
)
    requires
        s0.wf(),
        s1.wf(),
        p.wf(),
        s0.valid(p),
        t != EntityType::Cell,
        !s0.tracks(e),
        s0.inserted(s1, e, p, t),
        s1.removed(s2, e, p, t),
    ensures
        s1.bucket(t).contains(EntityWithCoord { entity: e, pos: p }),
        s1.entities_at_view(p).contains(e),
        forall|u: EntityType, j: int|
            0 <= j < s2.bucket(u).len() ==> (#[trigger] s2.bucket(u)[j]).entity != e,
        forall|q: HexMapPosition| s2.valid(q) ==> !(#[trigger] s2.entities_at_view(q)).contains(e),
{
    let entry = EntityWithCoord { entity: e, pos: p };
    let idx = s0.cell_index(p);
    lemma_index_in_range(p.x as int, p.y as int, s0.width(), s0.height());
    assert(s1.bucket(t)[s0.bucket(t).len() as int] == entry);
    if t == EntityType::Grass {
        assert(s1.ground_at(idx)[s0.ground_at(idx).len() as int] == e);
        assert(s1.entities_at_view(p)[s0.ground_at(idx).len() as int] == e);
    } else {
        assert(s1.other_at(idx)[s0.other_at(idx).len() as int] == e);
        assert(s1.entities_at_view(p)[(s1.ground_at(idx).len() + s0.other_at(idx).len()) as int] == e);
    }
    assert forall|u: EntityType, j: int|
        0 <= j < s2.bucket(u).len() implies (#[trigger] s2.bucket(u)[j]).entity != e by {
        assert(1 <= slot(u) < TYPE_COUNT || slot(u) == 0);
        if slot(u) != 0 && s2.bucket(u)[j].entity == e {
            assert(s2.tracks(e));
        }
    }
    assert forall|q: HexMapPosition| s2.valid(q) implies !(#[trigger] s2.entities_at_view(q)).contains(
        e,
    ) by {
        let i = s2.cell_index(q);
        lemma_index_in_range(q.x as int, q.y as int, s2.width(), s2.height());
        if s2.entities_at_view(q).contains(e) {
            let m = s2.entities_at_view(q).index_of(e);
            if m < s2.ground_at(i).len() {
                assert(s2.ground_at(i).contains(e));
            } else {
                assert(s2.other_at(i)[m - s2.ground_at(i).len()] == e);
                assert(s2.other_at(i).contains(e));
            }
        }
    }
}

/// Removing the only occurrence of `s[m]` leaves exactly the other values.
proof fn lemma_remove_unique(s: Seq<Entity>, m: int, x: Entity)
    requires
        s.no_duplicates(),
        0 <= m < s.len(),
    ensures
        s.remove(m).contains(x) <==> s.contains(x) && x != s[m],
{
    let r = s.remove(m);
    if r.contains(x) {
        let a = r.index_of(x);
        if a < m {
            assert(s[a] == x);
        } else {
            assert(s[a + 1] == x);
        }
    }
    if s.contains(x) && x != s[m] {
        let a = s.index_of(x);
        if a < m {
            assert(r[a] == x);
        } else {
            assert(r[a - 1] == x);
        }
    }
}

proof fn lemma_remove_keeps_distinct(s: Seq<Entity>, m: int)
    requires
        s.no_duplicates(),
        0 <= m < s.len(),
    ensures
        s.remove(m).no_duplicates(),
{
    let r = s.remove(m);
    assert forall|a: int, b: int| 0 <= a < r.len() && 0 <= b < r.len() && a != b implies r[a]
        != r[b] by {
        let oa = if a < m {
            a
        } else {
            a + 1
        };
        let ob = if b < m {
            b
        } else {
            b + 1
        };
        assert(r[a] == s[oa] && r[b] == s[ob]);
    }
}

/// Two well-formed cells of the map with the same index are the same cell.
proof fn lemma_index_injective(part: SpatialPartition, a: HexMapPosition, b: HexMapPosition)
    requires
        part.config.wf(),
        a.wf(),
        b.wf(),
        part.valid(a),
        part.valid(b),
        part.cell_index(a) == part.cell_index(b),
    ensures
        a == b,
{
    let w = part.width();
    assert(a.x == b.x && a.y == b.y) by (nonlinear_arith)
        requires
            0 <= a.x < w,
            0 <= b.x < w,
            a.y >= 0,
            b.y >= 0,
            a.y * w + a.x == b.y * w + b.x,
    {
        if a.y < b.y {
            assert(a.y * w + w <= b.y * w);
        } else if a.y > b.y {
            assert(b.y * w + w <= a.y * w);
        }
    }
}

/// Index of `x` in `v`, if present.
fn find_entry(v: &Vec<EntityWithCoord>, x: &EntityWithCoord) -> (r: Option<usize>)
    ensures
        match r {
            Some(j) => j < v@.len() && v@[j as int] == *x,
            None => !v@.contains(*x),
        },
{
    let mut j: usize = 0;
    while j < v.len()
        invariant
            j <= v@.len(),
            forall|a: int| 0 <= a < j ==> v@[a] != *x,
        decreases v@.len() - j,
    {
        if v[j] == *x {
            return Some(j);
        }
        j = j + 1;
    }
    None
}

/// Index of `e` in `v`, if present.
fn find_entity(v: &Vec<Entity>, e: Entity) -> (r: Option<usize>)
    ensures
        match r {
            Some(j) => j < v@.len() && v@[j as int] == e,
            None => !v@.contains(e),
        },
{
    let mut j: usize = 0;
    while j < v.len()
        invariant
            j <= v@.len(),
            forall|a: int| 0 <= a < j ==> v@[a] != e,
        decreases v@.len() - j,
    {
        if v[j] == e {
            return Some(j);
        }
        j = j + 1;
    }
    None
}

impl SpatialPartition {
    /// The neighbours of `p` that lie on the map and are not obstructed, in
    /// direction order.
    pub open spec fn valid_neighbours(self, p: HexMapPosition) -> Seq<HexMapPosition> {
        neighbours(p).filter(|n: HexMapPosition| self.valid(n) && !is_obstacle_spec(n))
    }

    /// Everything standing on cell `p`: its grass, then its other entities.
    pub fn entities_at(&self, pos: &HexMapPosition) -> (r: Vec<Entity>)
        requires
            self.wf(),
            self.valid(*pos),
        ensures
            r@ == self.entities_at_view(*pos),
    {
        let index = self.get_index(pos);
        let mut result: Vec<Entity> = Vec::new();
        append_entities(&mut result, &self.ground_entities[index]);
        append_entities(&mut result, &self.other_entities[index]);
        result
    }

    /// A snapshot of the by-type bucket of `entity_type` (empty for terrain).
    pub fn entities_by_type(&self, entity_type: &EntityType) -> (r: Vec<EntityWithCoord>)
        requires
            self.wf(),
        ensures
            r@ == self.bucket(*entity_type),
            *entity_type == EntityType::Cell ==> r@.len() == 0,
    {
        let slot = type_slot(*entity_type);
        let bucket = &self.entities_map[slot];
        let mut result: Vec<EntityWithCoord> = Vec::new();
        let mut j: usize = 0;
        while j < bucket.len()
            invariant
                j <= bucket@.len(),
                result@ == bucket@.take(j as int),
            decreases bucket@.len() - j,
        {
            result.push(bucket[j]);
            j = j + 1;
            assert(result@ =~= bucket@.take(j as int));
        }
        assert(bucket@.take(j as int) =~= bucket@);
        result
    }

    /// The neighbours of `pos` that lie on the map and are not obstructed.
    pub fn get_valid_neighbours(&self, pos: &HexMapPosition) -> (r: Vec<HexMapPosition>)
        requires
            self.config.wf(),
            pos.wf(),
            pos.interior(),
        ensures
            r@ == self.valid_neighbours(*pos),
            forall|k: int|
                0 <= k < r@.len() ==> (#[trigger] r@[k]).wf() && self.valid(r@[k]) && distance(
                    *pos,
                    r@[k],
                ) == 1,
    {
        let all = get_neighbours(pos);
        let ghost pred = |n: HexMapPosition| self.valid(n) && !is_obstacle_spec(n);
        let mut result: Vec<HexMapPosition> = Vec::new();
        let mut i: usize = 0;
        while i < all.len()
            invariant
                i <= all@.len(),
                all@ == neighbours(*pos),
                self.config.wf(),
                pred == (|n: HexMapPosition| self.valid(n) && !is_obstacle_spec(n)),
                result@ == all@.take(i as int).filter(pred),
            decreases all@.len() - i,
        {
            let n = all[i];
            let keep = self.is_valid_position(&n) && !self.is_obstacle(&n);
            proof {
                reveal(Seq::filter);
                assert(all@.take(i + 1).drop_last() =~= all@.take(i as int));
                assert(all@.take(i + 1).last() == n);
            }
            if keep {
                result.push(n);
            }
            i = i + 1;
        }
        assert(all@.take(i as int) =~= all@);
        proof {
            lemma_neighbours_adjacent(*pos);
            assert forall|k: int| 0 <= k < result@.len() implies (#[trigger] result@[k]).wf()
                && self.valid(result@[k]) && distance(*pos, result@[k]) == 1 by {
                broadcast use vstd::seq_lib::group_filter_ensures;
                assert(result@.contains(result@[k]));
                assert(pred(result@[k]));
                all@.lemma_filter_contains_rev(pred, result@[k]);
                let m = choose|m: int| 0 <= m < all@.len() && all@[m] == result@[k];
            }
        }
        result
    }
}

impl SpatialPartition {
    /// A valid neighbour of a cell is a cell of the map one step away.
    pub proof fn lemma_valid_neighbours(self, p: HexMapPosition, n: HexMapPosition)
        requires
            self.config.wf(),
            p.wf(),
            p.interior(),
            self.valid_neighbours(p).contains(n),
        ensures
            n.wf(),
            self.valid(n),
            n.interior(),
            distance(p, n) == 1,
            exists|i: int| 0 <= i < 6 && is_neighbour_at(p, n, i),
    {
        let pred = |m: HexMapPosition| self.valid(m) && !is_obstacle_spec(m);
        neighbours(p).lemma_filter_contains_rev(pred, n);
        let k = choose|k: int| 0 <= k < neighbours(p).len() && neighbours(p)[k] == n;
        lemma_neighbours_adjacent(p);
        crate::hex::lemma_neighbour_wf(p, k);
        broadcast use vstd::seq_lib::group_filter_ensures;
        let j = self.valid_neighbours(p).index_of(n);
        assert(pred(self.valid_neighbours(p)[j]));
    }
}

impl SpatialPartition {
    /// Whether some by-type bucket holds `entity`.
    pub fn contains_entity(&self, entity: Entity) -> (r: bool)
        requires
            self.wf(),
        ensures
            r == self.tracks(entity),
    {
        let mut k: usize = 1;
        while k < TYPE_COUNT
            invariant
                1 <= k <= TYPE_COUNT,
                self.wf(),
                forall|kk: int, j: int|
                    1 <= kk < k && 0 <= j < self.bucket_at(kk).len() ==> #[trigger] self.bucket_at(
                        kk,
                    )[j].entity != entity,
            decreases TYPE_COUNT - k,
        {
            let bucket = &self.entities_map[k];
            let mut j: usize = 0;
            while j < bucket.len()
                invariant
                    j <= bucket@.len(),
                    1 <= k < TYPE_COUNT,
                    bucket@ == self.bucket_at(k as int),
                    forall|jj: int| 0 <= jj < j ==> #[trigger] bucket@[jj].entity != entity,
                decreases bucket@.len() - j,
            {
                if bucket[j].entity == entity {
                    proof {
                        assert(self.bucket_at(k as int)[j as int].entity == entity);
                    }
                    return true;
                }
                j = j + 1;
            }
            k = k + 1;
        }
        false
    }
}

impl SpatialPartition {
    /// Offset `(dx, dy)` from `center`, both within `radius`, names a cell of
    /// the map within hex distance `radius` of `center` on which the
    /// non-ground entity `e` stands.
    pub open spec fn query_hit(self, center: HexMapPosition, radius: int, dx: int, dy: int, e: Entity) -> bool {
        let p = cell_at(center.x + dx, center.y + dy);
        &&& -radius <= dx <= radius
        &&& -radius <= dy <= radius
        &&& self.valid(p)
        &&& distance(center, p) <= radius
        &&& self.other_at(self.cell_index(p)).contains(e)
    }

    /// The non-ground entities on the cells of the map within hex distance
    /// `radius` of `center`, scanning the offset square of side `2 * radius + 1`
    /// around it row by row.
    pub fn query(&self, center: HexMapPosition, radius: i32) -> (r: Vec<Entity>)
        requires
            self.wf(),
            center.wf(),
            0 <= radius,
            coord_ok(center.x - radius),
            coord_ok(center.x + radius),
            coord_ok(center.y - radius),
            coord_ok(center.y + radius),
        ensures
            forall|e: Entity|
                #![trigger r@.contains(e)]
                r@.contains(e) <==> exists|dx: int, dy: int| #[trigger] self.query_hit(center, radius as int, dx, dy, e),
    {
        let mut results: Vec<Entity> = Vec::new();
        let mut dy: i32 = -radius;
        while dy <= radius
            invariant
                self.wf(),
                center.wf(),
                0 <= radius,
                coord_ok(center.x - radius),
                coord_ok(center.x + radius),
                coord_ok(center.y - radius),
                coord_ok(center.y + radius),
                -radius <= dy <= radius + 1,
                forall|e: Entity|
                    #![trigger results@.contains(e)]
                    results@.contains(e) <==> exists|ex: int, ey: int|
                        ey < dy && #[trigger] self.query_hit(center, radius as int, ex, ey, e),
            decreases radius + 1 - dy,
        {
            let mut dx: i32 = -radius;
            while dx <= radius
                invariant
                    self.wf(),
                    center.wf(),
                    0 <= radius,
                    coord_ok(center.x - radius),
                    coord_ok(center.x + radius),
                    coord_ok(center.y - radius),
                    coord_ok(center.y + radius),
                    -radius <= dy <= radius,
                    -radius <= dx <= radius + 1,
                    forall|e: Entity|
                        #![trigger results@.contains(e)]
                        results@.contains(e) <==> exists|ex: int, ey: int|
                            (ey < dy || (ey == dy && ex < dx)) && #[trigger] self.query_hit(
                                center,
                                radius as int,
                                ex,
                                ey,
                                e,
                            ),
                decreases radius + 1 - dx,
            {
                let pos = HexMapPosition::new(center.x + dx, center.y + dy);
                let ghost before = results@;
                if crate::hex::hex_distance(&center, &pos) <= radius && pos.x >= 0 && pos.x
                    < self.config.width as i32 && pos.y >= 0 && pos.y < self.config.height as i32 {
                    let index = self.get_index(&pos);
                    append_entities(&mut results, &self.other_entities[index]);
                    proof {
                        assert forall|e: Entity| #![trigger results@.contains(e)]
                            results@.contains(e) <==> exists|ex: int, ey: int|
                                (ey < dy || (ey == dy && ex < dx + 1)) && #[trigger] self.query_hit(
                                    center,
                                    radius as int,
                                    ex,
                                    ey,
                                    e,
                                ) by {
                            lemma_contains_concat(before, self.other_at(index as int), e);
                            if self.other_at(index as int).contains(e) {
                                assert(self.query_hit(center, radius as int, dx as int, dy as int, e));
                            }
                            if exists|ex: int, ey: int|
                                (ey < dy || (ey == dy && ex < dx + 1)) && #[trigger] self.query_hit(
                                    center,
                                    radius as int,
                                    ex,
                                    ey,
                                    e,
                                ) {
                                let (ex, ey) = choose|ex: int, ey: int|
                                    (ey < dy || (ey == dy && ex < dx + 1)) && #[trigger] self.query_hit(
                                        center,
                                        radius as int,
                                        ex,
                                        ey,
                                        e,
                                    );
                                if ey == dy && ex == dx {
                                    assert(self.other_at(index as int).contains(e));
                                } else {
                                    assert(before.contains(e));
                                }
                            }
                        }
                    }
                } else {
                    proof {
                        assert forall|e: Entity| #![trigger results@.contains(e)]
                            results@.contains(e) <==> exists|ex: int, ey: int|
                                (ey < dy || (ey == dy && ex < dx + 1)) && #[trigger] self.query_hit(
                                    center,
                                    radius as int,
                                    ex,
                                    ey,
                                    e,
                                ) by {
                            if exists|ex: int, ey: int|
                                (ey < dy || (ey == dy && ex < dx + 1)) && #[trigger] self.query_hit(
                                    center,
                                    radius as int,
                                    ex,
                                    ey,
                                    e,
                                ) {
                                let (ex, ey) = choose|ex: int, ey: int|
                                    (ey < dy || (ey == dy && ex < dx + 1)) && #[trigger] self.query_hit(
                                        center,
                                        radius as int,
                                        ex,
                                        ey,
                                        e,
                                    );
                                if ey == dy && ex == dx {
                                    assert(false);
                                }
                            }
                        }
                    }
                }
                dx = dx + 1;
            }
            proof {
                assert forall|e: Entity| #![trigger results@.contains(e)]
                    results@.contains(e) <==> exists|ex: int, ey: int|
                        ey < dy + 1 && #[trigger] self.query_hit(center, radius as int, ex, ey, e) by {
                    if exists|ex: int, ey: int|
                        ey < dy + 1 && #[trigger] self.query_hit(center, radius as int, ex, ey, e) {
                        let (ex, ey) = choose|ex: int, ey: int|
                            ey < dy + 1 && #[trigger] self.query_hit(center, radius as int, ex, ey, e);
                        assert(ey < dy || (ey == dy && ex < dx));
                    }
                }
            }
            dy = dy + 1;
        }
        proof {
            assert forall|e: Entity| #![trigger results@.contains(e)]
                results@.contains(e) <==> exists|dx: int, dy: int| #[trigger] self.query_hit(center, radius as int, dx, dy, e) by {
                if exists|ex: int, ey: int| #[trigger] self.query_hit(center, radius as int, ex, ey, e) {
                    let (ex, ey) = choose|ex: int, ey: int| #[trigger] self.query_hit(center, radius as int, ex, ey, e);
                    assert(ey < dy && self.query_hit(center, radius as int, ex, ey, e));
                }
            }
        }
        results
    }
}

proof fn lemma_contains_concat(a: Seq<Entity>, b: Seq<Entity>, e: Entity)
    ensures
        (a + b).contains(e) <==> a.contains(e) || b.contains(e),
{
    if (a + b).contains(e) {
        let k = (a + b).index_of(e);
        if k >= a.len() {
            assert(b[k - a.len()] == e);
        }
    }
    if a.contains(e) {
        let k = a.index_of(e);
        assert((a + b)[k] == e);
    }
    if b.contains(e) {
        let k = b.index_of(e);
        assert((a + b)[a.len() + k] == e);
    }
}

/// Appends the entities of `src` to `dst`.
fn append_entities(dst: &mut Vec<Entity>, src: &Vec<Entity>)
    ensures
        final(dst)@ == old(dst)@ + src@,
{
    let ghost start = dst@;
    let mut j: usize = 0;
    while j < src.len()
        invariant
            j <= src@.len(),
            dst@ == start + src@.take(j as int),
        decreases src@.len() - j,
    {
        dst.push(src[j]);
        j = j + 1;
        assert(dst@ =~= start + src@.take(j as int));
    }
    assert(src@.take(j as int) =~= src@);
}

/// Terrain obstruction; no cell is obstructed.
pub open spec fn is_obstacle_spec(p: HexMapPosition) -> bool {
    false
}

proof fn lemma_cells_bound(w: int, h: int)
    requires
        0 < w <= MAX_SIDE,
        0 < h <= MAX_SIDE,
    ensures
        0 < w * h <= MAX_SIDE * MAX_SIDE,
{
    assert(0 < w * h <= MAX_SIDE * MAX_SIDE) by (nonlinear_arith)
        requires
            0 < w <= MAX_SIDE,
            0 < h <= MAX_SIDE,
    ;
}

proof fn lemma_index_in_range(x: int, y: int, w: int, h: int)
    requires
        0 <= x < w,
        0 <= y < h,
        w <= MAX_SIDE,
        h <= MAX_SIDE,
    ensures
        0 <= y * w + x < w * h,
        y * w + x <= MAX_SIDE * MAX_SIDE,
{
    assert(0 <= y * w + x < w * h && y * w + x <= MAX_SIDE * MAX_SIDE) by (nonlinear_arith)
        requires
            0 <= x < w,
            0 <= y < h,
            w <= MAX_SIDE,
            h <= MAX_SIDE,
    ;
}

} // verus!
