//! Entity registry: an explicit table of spawned entities keyed by an
//! opaque identifier, with the per-tick frame-advance step over all of them.

use vstd::prelude::*;
use crate::sprite::{
    all_nonneg, lemma_advanced_additive, lemma_advanced_wf, lemma_advanced_zero,
    lemma_total_nonneg, total_elapsed, AnimatedSprite, SpawnError, SpriteModel,
};
use crate::timer::TimerModel;

verus! {

/// The creature kind an entity is tagged with at spawn time. Inert for now:
/// no executed behaviour reads it.
#[derive(Clone, Copy, Debug, PartialEq, Eq, Structural)]
pub enum Creature {
    Algae,
    Herbivore,
    Carnivore,
    Omnivore,
    Cannibal,
}

/// Mathematical model of one registry entry.
pub ghost struct EntityModel {
    pub id: int,
    pub creature: Option<Creature>,
    pub health: Option<u32>,
    pub sprite: Option<SpriteModel>,
}

impl EntityModel {
    pub open spec fn wf(self) -> bool {
        self.sprite matches Some(m) ==> m.wf()
    }

    /// One frame-advance step; an entity without an animation is untouched.
    pub open spec fn advanced(self, elapsed: int) -> EntityModel {
        EntityModel {
            sprite: match self.sprite {
                Some(m) => Some(m.advanced(elapsed)),
                None => None,
            },
            ..self
        }
    }
}

/// One spawned entity and its attached components. `creature` and `health`
/// are inert tags carried for the host; only `sprite` takes part in the
/// frame-advance step.
pub struct Entity {
    id: u64,
    creature: Option<Creature>,
    health: Option<u32>,
    sprite: Option<AnimatedSprite>,
}

impl View for Entity {
    type V = EntityModel;

    closed spec fn view(&self) -> EntityModel {
        EntityModel {
            id: self.id as int,
            creature: self.creature,
            health: self.health,
            sprite: match self.sprite {
                Some(s) => Some(s@),
                None => None,
            },
        }
    }
}

impl Entity {
    pub fn id(&self) -> (r: u64)
        ensures
            r as int == self@.id,
    {
        self.id
    }

    pub fn creature(&self) -> (r: Option<Creature>)
        ensures
            r == self@.creature,
    {
        self.creature
    }

    pub fn health(&self) -> (r: Option<u32>)
        ensures
            r == self@.health,
    {
        self.health
    }

    /// The displayed frame, or `None` for an entity with no animation.
    pub fn frame_index(&self) -> (r: Option<u64>)
        ensures
            match self@.sprite {
                Some(m) => r matches Some(f) && f as int == m.frame_index,
                None => r is None,
            },
    {
        match &self.sprite {
            Some(s) => Some(s.frame_index()),
            None => None,
        }
    }

    /// One frame-advance step for this entity.
    pub fn advance(&mut self, elapsed_ms: u64)
        requires
            old(self)@.wf(),
        ensures
            final(self)@ == old(self)@.advanced(elapsed_ms as int),
            final(self)@.wf(),
    {
        match &mut self.sprite {
            Some(s) => s.advance(elapsed_ms),
            None => (),
        }
        proof {
            match old(self)@.sprite {
                Some(m) => lemma_advanced_wf(m, elapsed_ms as int),
                None => (),
            }
        }
    }
}

/// Mathematical model of the registry: the next fresh identifier and the
/// spawned entities in spawn order.
pub ghost struct RegistryModel {
    pub next_id: int,
    pub entities: Seq<EntityModel>,
}

impl RegistryModel {
    /// Identifiers are fresh (below `next_id`) and pairwise distinct, and
    /// every spawned animation is valid.
    pub open spec fn wf(self) -> bool {
        &&& self.next_id >= 0
        &&& forall|k: int|
            0 <= k < self.entities.len() ==> 0 <= (#[trigger] self.entities[k]).id < self.next_id
        &&& forall|j: int, k: int|
            0 <= j < k < self.entities.len() ==> (#[trigger] self.entities[j]).id != (
            #[trigger] self.entities[k]).id
        &&& forall|k: int| 0 <= k < self.entities.len() ==> (#[trigger] self.entities[k]).wf()
    }

    /// The frame-advance step over the whole registry.
    pub open spec fn advanced(self, elapsed: int) -> RegistryModel {
        RegistryModel {
            next_id: self.next_id,
            entities: self.entities.map_values(|e: EntityModel| e.advanced(elapsed)),
        }
    }

    /// The registry after a whole run of frame-advance steps, one per tick.
    pub open spec fn advanced_seq(self, deltas: Seq<int>) -> RegistryModel
        decreases deltas.len(),
    {
        if deltas.len() == 0 {
            self
        } else {
            self.advanced(deltas[0]).advanced_seq(deltas.drop_first())
        }
    }
}

/// The store of spawned entities. The host owns windowing, rendering and
/// asset I/O; it hands spawn requests and per-tick elapsed times in, and
/// reads frame indices back out.
pub struct Registry {
    next_id: u64,
    entities: Vec<Entity>,
}

impl View for Registry {
    type V = RegistryModel;

    closed spec fn view(&self) -> RegistryModel {
        RegistryModel {
            next_id: self.next_id as int,
            entities: self.entities@.map_values(|e: Entity| e@),
        }
    }
}

impl Registry {
    /// An empty registry; identifiers start at zero.
    pub fn new() -> (r: Registry)
        ensures
            r@.next_id == 0,
            r@.entities.len() == 0,
            r@.wf(),
    {
        Registry { next_id: 0, entities: Vec::new() }
    }

    /// The identifier the next spawn will hand out.
    pub fn next_id(&self) -> (r: u64)
        ensures
            r as int == self@.next_id,
    {
        self.next_id
    }

    pub fn entity_count(&self) -> (r: usize)
        ensures
            r as int == self@.entities.len(),
    {
        self.entities.len()
    }

    /// The entity at a position in spawn order.
    pub fn entity_at(&self, k: usize) -> (r: &Entity)
        requires
            k < self@.entities.len(),
        ensures
            r@ == self@.entities[k as int],
    {
        &self.entities[k]
    }

    /// Create an entity with no animation: inert tags only. Returns the new
    /// entity's identifier.
    pub fn spawn_static(&mut self, creature: Option<Creature>, health: Option<u32>) -> (id: u64)
        requires
            old(self)@.wf(),
            old(self)@.next_id < u64::MAX,
        ensures
            id as int == old(self)@.next_id,
            final(self)@.next_id == old(self)@.next_id + 1,
            final(self)@.entities == old(self)@.entities.push(
                (EntityModel { id: id as int, creature, health, sprite: None }),
            ),
            final(self)@.wf(),
    {
        let id = self.next_id;
        self.next_id = self.next_id + 1;
        self.entities.push(Entity { id, creature, health, sprite: None });
        proof {
            lemma_spawn_preserves_wf(old(self)@, self@);
        }
        id
    }

    /// Create an entity whose sprite sheet cycles on a countdown timer. The
    /// two invalid configurations — a sheet with no frames, a zero interval —
    /// are rejected here, before any tick runs, leaving the registry
    /// unchanged.
    pub fn spawn_animated(
        &mut self,
        creature: Option<Creature>,
        health: Option<u32>,
        interval_ms: u64,
        repeating: bool,
        frame_count: u64,
    ) -> (r: Result<u64, SpawnError>)
        requires
            old(self)@.wf(),
            old(self)@.next_id < u64::MAX,
        ensures
            frame_count == 0 ==> (r == Err::<u64, SpawnError>(SpawnError::EmptySheet)
                && final(self)@ == old(self)@),
            frame_count >= 1 && interval_ms == 0 ==> (r == Err::<u64, SpawnError>(
                SpawnError::ZeroInterval,
            ) && final(self)@ == old(self)@),
            frame_count >= 1 && interval_ms >= 1 ==> (r matches Ok(id)
                && id as int == old(self)@.next_id
                && final(self)@.next_id == old(self)@.next_id + 1
                && final(self)@.entities == old(self)@.entities.push(
                (EntityModel {
                    id: old(self)@.next_id,
                    creature,
                    health,
                    sprite: Some(
                        SpriteModel {
                            timer: TimerModel {
                                interval: interval_ms as int,
                                remaining: interval_ms as int,
                                repeating,
                            },
                            frame_index: 0,
                            frame_count: frame_count as int,
                        },
                    ),
                }),
            )),
            final(self)@.wf(),
    {
        match AnimatedSprite::new(interval_ms, repeating, frame_count) {
            Err(e) => Err(e),
            Ok(sprite) => {
                let id = self.next_id;
                self.next_id = self.next_id + 1;
                self.entities.push(Entity { id, creature, health, sprite: Some(sprite) });
                proof {
                    lemma_spawn_preserves_wf(old(self)@, self@);
                }
                Ok(id)
            },
        }
    }

    /// The frame-advance step: run once per host tick, it advances every
    /// entity carrying an animation by the tick's elapsed time and touches
    /// nothing else.
    pub fn advance_all(&mut self, elapsed_ms: u64)
        requires
            old(self)@.wf(),
        ensures
            final(self)@ == old(self)@.advanced(elapsed_ms as int),
            final(self)@.wf(),
    {
        let n: usize = self.entities.len();
        let mut k: usize = 0;
        while k < n
            invariant
                k <= n,
                n as int == self@.entities.len(),
                self@.entities.len() == old(self)@.entities.len(),
                self@.next_id == old(self)@.next_id,
                old(self)@.wf(),
                forall|j: int|
                    0 <= j < k ==> #[trigger] self@.entities[j] == old(self)@.entities[j].advanced(
                        elapsed_ms as int,
                    ),
                forall|j: int| k <= j < n ==> #[trigger] self@.entities[j] == old(self)@.entities[j],
            decreases n - k,
        {
            let ghost pre = self@;
            let ghost prevec = self.entities@;
            proof {
                assert(pre.entities[k as int] == old(self)@.entities[k as int]);
                assert(old(self)@.entities[k as int].wf());
                assert(pre.entities[k as int] == prevec[k as int]@);
            }
            let ent = &mut self.entities[k];
            ent.advance(elapsed_ms);
            proof {
                assert forall|j: int| 0 <= j < k + 1 implies #[trigger] self@.entities[j]
                    == old(self)@.entities[j].advanced(elapsed_ms as int) by {
                    assert(self@.entities[j] == self.entities@[j]@);
                    if j == k {
                        assert(self.entities@[j]@ == prevec[j]@.advanced(elapsed_ms as int));
                    } else {
                        assert(self.entities@[j] == prevec[j]);
                        assert(prevec[j]@ == pre.entities[j]);
                    }
                }
                assert forall|j: int| k + 1 <= j < n implies #[trigger] self@.entities[j]
                    == old(self)@.entities[j] by {
                    assert(self@.entities[j] == self.entities@[j]@);
                    assert(self.entities@[j] == prevec[j]);
                    assert(prevec[j]@ == pre.entities[j]);
                }
            }
            k = k + 1;
        }
        proof {
            let oldm = old(self)@;
            let target = oldm.advanced(elapsed_ms as int);
            assert(self@.entities =~= target.entities);
            assert forall|j: int| 0 <= j < self@.entities.len() implies (
            #[trigger] self@.entities[j]).wf() by {
                match oldm.entities[j].sprite {
                    Some(m) => lemma_advanced_wf(m, elapsed_ms as int),
                    None => (),
                }
            }
        }
    }

    /// What the host's render step reads: the displayed frame of the entity
    /// with this identifier, or `None` when the identifier is unknown or the
    /// entity carries no animation.
    pub fn frame_index_of(&self, id: u64) -> (r: Option<u64>)
        requires
            self@.wf(),
        ensures
            match r {
                Some(f) => exists|k: int|
                    0 <= k < self@.entities.len() && (#[trigger] self@.entities[k]).id == id as int
                        && (self@.entities[k].sprite matches Some(m) && f as int == m.frame_index),
                None => forall|k: int|
                    0 <= k < self@.entities.len() && (#[trigger] self@.entities[k]).id == id as int
                        ==> self@.entities[k].sprite is None,
            },
    {
        let n: usize = self.entities.len();
        let mut k: usize = 0;
        while k < n
            invariant
                k <= n,
                n as int == self@.entities.len(),
                self@.wf(),
                forall|j: int| 0 <= j < k ==> (#[trigger] self@.entities[j]).id != id as int,
            decreases n - k,
        {
            let ent = &self.entities[k];
            if ent.id() == id {
                let r = ent.frame_index();
                proof {
                    if r is None {
                        assert forall|j: int|
                            0 <= j < self@.entities.len() && (#[trigger] self@.entities[j]).id
                                == id as int implies self@.entities[j].sprite is None by {
                            if j != k {
                                if j < k {
                                    assert(self@.entities[j].id != self@.entities[k as int].id);
                                } else {
                                    assert(self@.entities[k as int].id != self@.entities[j].id);
                                }
                            }
                        }
                    }
                }
                return r;
            }
            k = k + 1;
        }
        None
    }
}

/// Pushing an entity whose identifier is the old `next_id` and whose
/// animation (if any) is valid keeps the registry well formed.
proof fn lemma_spawn_preserves_wf(oldm: RegistryModel, newm: RegistryModel)
    requires
        oldm.wf(),
        newm.next_id == oldm.next_id + 1,
        newm.entities.len() == oldm.entities.len() + 1,
        forall|j: int| 0 <= j < oldm.entities.len() ==> #[trigger] newm.entities[j] == oldm.entities[j],
        newm.entities[oldm.entities.len() as int].id == oldm.next_id,
        newm.entities[oldm.entities.len() as int].wf(),
    ensures
        newm.wf(),
{
    let len = oldm.entities.len() as int;
    assert forall|k: int| 0 <= k < newm.entities.len() implies 0 <= (
    #[trigger] newm.entities[k]).id < newm.next_id by {
        if k < len {
            assert(newm.entities[k] == oldm.entities[k]);
            assert(0 <= oldm.entities[k].id < oldm.next_id);
        }
    }
    assert forall|k: int| 0 <= k < newm.entities.len() implies (#[trigger] newm.entities[k]).wf() by {
        if k < len {
            assert(newm.entities[k] == oldm.entities[k]);
            assert(oldm.entities[k].wf());
        }
    }
    assert forall|j: int, k: int| 0 <= j < k < newm.entities.len() implies (
    #[trigger] newm.entities[j]).id != (#[trigger] newm.entities[k]).id by {
        if k < len {
            assert(oldm.entities[j].id != oldm.entities[k].id);
        } else {
            assert(newm.entities[j] == oldm.entities[j]);
            assert(0 <= oldm.entities[j].id < oldm.next_id);
        }
    }
}

/// One frame-advance step keeps an entity valid and leaves everything but
/// its animation state unchanged.
pub proof fn lemma_entity_advanced_wf(e: EntityModel, elapsed: int)
    requires
        e.wf(),
        elapsed >= 0,
    ensures
        e.advanced(elapsed).wf(),
        e.advanced(elapsed).id == e.id,
        e.advanced(elapsed).creature == e.creature,
        e.advanced(elapsed).health == e.health,
{
    match e.sprite {
        Some(m) => lemma_advanced_wf(m, elapsed),
        None => (),
    }
}

/// Zero elapsed time changes an entity not at all.
pub proof fn lemma_entity_advanced_zero(e: EntityModel)
    requires
        e.wf(),
    ensures
        e.advanced(0) == e,
{
    match e.sprite {
        Some(m) => lemma_advanced_zero(m),
        None => (),
    }
}

/// Entity frame-advance steps compose over elapsed time.
pub proof fn lemma_entity_advanced_additive(e: EntityModel, a: int, b: int)
    requires
        e.wf(),
        a >= 0,
        b >= 0,
    ensures
        e.advanced(a).advanced(b) == e.advanced(a + b),
{
    match e.sprite {
        Some(m) => lemma_advanced_additive(m, a, b),
        None => (),
    }
}

/// One frame-advance step keeps the whole registry well formed.
pub proof fn lemma_registry_advanced_wf(m: RegistryModel, elapsed: int)
    requires
        m.wf(),
        elapsed >= 0,
    ensures
        m.advanced(elapsed).wf(),
{
    let n = m.advanced(elapsed);
    assert forall|k: int| 0 <= k < n.entities.len() implies 0 <= (#[trigger] n.entities[k]).id
        < n.next_id by {
        assert(n.entities[k] == m.entities[k].advanced(elapsed));
        assert(0 <= m.entities[k].id < m.next_id);
    }
    assert forall|j: int, k: int| 0 <= j < k < n.entities.len() implies (
    #[trigger] n.entities[j]).id != (#[trigger] n.entities[k]).id by {
        assert(n.entities[j] == m.entities[j].advanced(elapsed));
        assert(n.entities[k] == m.entities[k].advanced(elapsed));
        assert(m.entities[j].id != m.entities[k].id);
    }
    assert forall|k: int| 0 <= k < n.entities.len() implies (#[trigger] n.entities[k]).wf() by {
        assert(n.entities[k] == m.entities[k].advanced(elapsed));
        assert(m.entities[k].wf());
        lemma_entity_advanced_wf(m.entities[k], elapsed);
    }
}

/// Registry frame-advance steps compose over elapsed time.
pub proof fn lemma_registry_advanced_additive(m: RegistryModel, a: int, b: int)
    requires
        m.wf(),
        a >= 0,
        b >= 0,
    ensures
        m.advanced(a).advanced(b) == m.advanced(a + b),
{
    let lhs = m.advanced(a).advanced(b);
    let rhs = m.advanced(a + b);
    assert forall|k: int| 0 <= k < lhs.entities.len() implies #[trigger] lhs.entities[k]
        == rhs.entities[k] by {
        assert(m.advanced(a).entities[k] == m.entities[k].advanced(a));
        assert(m.entities[k].wf());
        lemma_entity_advanced_additive(m.entities[k], a, b);
    }
    assert(lhs.entities =~= rhs.entities);
}

/// Law: over any run of host ticks every entity in the registry stays valid
/// — each frame index inside its sheet — and the whole run equals one
/// frame-advance step with the cumulative elapsed time.
pub proof fn lemma_registry_run(m: RegistryModel, deltas: Seq<int>)
    requires
        m.wf(),
        all_nonneg(deltas),
    ensures
        m.advanced_seq(deltas).wf(),
        m.advanced_seq(deltas) == m.advanced(total_elapsed(deltas)),
    decreases deltas.len(),
{
    if deltas.len() == 0 {
        assert forall|k: int| 0 <= k < m.entities.len() implies #[trigger] m.advanced(
            0,
        ).entities[k] == m.entities[k] by {
            assert(m.advanced(0).entities[k] == m.entities[k].advanced(0));
            assert(m.entities[k].wf());
            lemma_entity_advanced_zero(m.entities[k]);
        }
        assert(m.advanced(0).entities =~= m.entities);
    } else {
        let rest = deltas.drop_first();
        assert forall|k: int| 0 <= k < rest.len() implies rest[k] >= 0 by {
            assert(deltas[k + 1] >= 0);
        }
        lemma_total_nonneg(rest);
        lemma_registry_advanced_wf(m, deltas[0]);
        lemma_registry_run(m.advanced(deltas[0]), rest);
        lemma_registry_advanced_additive(m, deltas[0], total_elapsed(rest));
    }
}

} // verus!
