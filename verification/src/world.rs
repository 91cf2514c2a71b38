//! Pawns, the pawn manager that keys them by identifier, and the world that
//! holds them.

use std::collections::HashMap;
use vstd::prelude::*;
use vstd::std_specs::iter::IteratorSpec;

use crate::asset::AssetStore;
use crate::command::CommandManager;
use crate::uid::{is_random_uid, new_random_uid};

verus! {

broadcast use vstd::std_specs::hash::group_hash_axioms;

/// A placed object: where it stands (`transform`), how it looks (`sprite`)
/// and the identifier by which the world finds it again.
pub struct Pawn<T, S> {
    pub transform: T,
    pub sprite: S,
    pub uid: u128,
}

impl<T, S> Pawn<T, S> {
    /// The same pawn standing at `t`.
    pub open spec fn with_transform(self, t: T) -> Self {
        Pawn { transform: t, ..self }
    }

    /// A new pawn at `transform` with a fresh random identifier.
    pub fn new(transform: T, sprite: S) -> (p: Self)
        ensures
            p.transform == transform,
            p.sprite == sprite,
            is_random_uid(p.uid),
    {
        Pawn { transform, sprite, uid: new_random_uid() }
    }

    /// Moves the pawn to `transform`; its sprite and identifier stay.
    pub fn set_transform(&mut self, transform: T)
        ensures
            *final(self) == old(self).with_transform(transform),
    {
        self.transform = transform;
    }

    /// The pawn's identifier.
    pub fn get_uid(&self) -> (r: u128)
        ensures
            r == self.uid,
    {
        self.uid
    }
}

/// The pawn after being moved to each transform of `ts` in turn, as a run of
/// `Pawn::set_transform` calls leaves it.
pub open spec fn with_transforms<T, S>(p: Pawn<T, S>, ts: Seq<T>) -> Pawn<T, S>
    decreases ts.len(),
{
    if ts.len() == 0 {
        p
    } else {
        with_transforms(p, ts.drop_last()).with_transform(ts.last())
    }
}

/// Law: however often a pawn is moved, it keeps its identifier and its
/// sprite, and it stands at the last transform it was given.
pub proof fn lemma_moves_keep_identity<T, S>(p: Pawn<T, S>, ts: Seq<T>)
    ensures
        with_transforms(p, ts).uid == p.uid,
        with_transforms(p, ts).sprite == p.sprite,
        ts.len() == 0 ==> with_transforms(p, ts) == p,
        ts.len() > 0 ==> with_transforms(p, ts).transform == ts.last(),
    decreases ts.len(),
{
    if ts.len() > 0 {
        lemma_moves_keep_identity(p, ts.drop_last());
    }
}

/// Every pawn of the map is stored under its own identifier.
pub open spec fn keyed_by_uid<T, S>(pawns: Map<u128, Pawn<T, S>>) -> bool {
    forall|k: u128| #[trigger] pawns.contains_key(k) ==> pawns[k].uid == k
}

/// The pawns that `uids` names, in the order of `uids`, skipping those that
/// are not in `pawns` (a uid named twice gives its pawn twice).
pub open spec fn found_pawns<T, S>(pawns: Map<u128, Pawn<T, S>>, uids: Seq<u128>) -> Seq<Pawn<T, S>>
    decreases uids.len(),
{
    if uids.len() == 0 {
        Seq::empty()
    } else {
        let rest = found_pawns(pawns, uids.drop_last());
        if pawns.contains_key(uids.last()) {
            rest.push(pawns[uids.last()])
        } else {
            rest
        }
    }
}


/// Law: the pawns found for a list of identifiers are, in the list's order,
/// the stored pawns of exactly those identifiers that have one.
pub proof fn lemma_found_pawns_are_the_stored_ones<T, S>(pawns: Map<u128, Pawn<T, S>>, uids: Seq<u128>)
    ensures
        found_pawns(pawns, uids) == uids.filter(|u: u128| pawns.contains_key(u)).map_values(
            |u: u128| pawns[u],
        ),
    decreases uids.len(),
{
    reveal(Seq::filter);
    if uids.len() > 0 {
        lemma_found_pawns_are_the_stored_ones(pawns, uids.drop_last());
        let f = uids.drop_last().filter(|u: u128| pawns.contains_key(u));
        if pawns.contains_key(uids.last()) {
            assert(f.push(uids.last()).map_values(|u: u128| pawns[u]) =~= f.map_values(
                |u: u128| pawns[u],
            ).push(pawns[uids.last()]));
        }
    }
}

/// Gives mutable access to the pawn stored under `uid`, if any.
///
/// Calls `HashMap::get_mut`, which returns a mutable reference to the value
/// under the key or `None` when the key is absent. The contract claims that
/// the reference points at the stored pawn and that whatever is written
/// through it becomes the map's value under `uid`; without a pawn the map is
/// left as it was.
#[verifier::external_body]
fn pawn_slot<'a, T, S>(map: &'a mut HashMap<u128, Pawn<T, S>>, uid: &u128) -> (r: Option<
    &'a mut Pawn<T, S>,
>)
    ensures
        match r {
            Some(p) => {
                &&& old(map)@.contains_key(*uid)
                &&& *p == old(map)@[*uid]
                &&& final(map)@ == old(map)@.insert(*uid, *final(p))
            },
            None => !old(map)@.contains_key(*uid) && final(map)@ == old(map)@,
        },
{
    map.get_mut(uid)
}

/// Whether `uid` occurs in `uids`.
pub(crate) fn holds_uid(uids: &[u128], uid: u128) -> (r: bool)
    ensures
        r == uids@.contains(uid),
{
    let mut i: usize = 0;
    while i < uids.len()
        invariant
            i <= uids@.len(),
            forall|j: int| 0 <= j < i ==> uids@[j] != uid,
        decreases uids@.len() - i,
    {
        if uids[i] == uid {
            return true;
        }
        i = i + 1;
    }
    false
}

/// The pawns of a world, found by identifier.
pub struct PawnManager<T, S> {
    pawn_map: HashMap<u128, Pawn<T, S>>,
}

impl<T, S> View for PawnManager<T, S> {
    type V = Map<u128, Pawn<T, S>>;

    closed spec fn view(&self) -> Map<u128, Pawn<T, S>> {
        self.pawn_map@
    }
}

impl<T, S> PawnManager<T, S> {
    /// The manager's invariant: each pawn is stored under its own identifier.
    #[verifier::type_invariant]
    spec fn inv(&self) -> bool {
        keyed_by_uid(self.pawn_map@)
    }

    /// The pawns are finitely many: a manager always holds a finite map.
    pub proof fn lemma_finite(&self)
        ensures
            self@.dom().finite(),
    {
    }

    /// An empty manager.
    pub fn new() -> (m: Self)
        ensures
            m@ == Map::<u128, Pawn<T, S>>::empty(),
    {
        PawnManager { pawn_map: HashMap::new() }
    }

    /// Adds `pawn` under its identifier, replacing a pawn already stored there.
    pub fn add(&mut self, pawn: Pawn<T, S>)
        ensures
            final(self)@ == old(self)@.insert(pawn.uid, pawn),
            final(self)@.dom().finite(),
            final(self)@.len() == if old(self)@.contains_key(pawn.uid) {
                old(self)@.len()
            } else {
                old(self)@.len() + 1
            },
    {
        proof {
            use_type_invariant(&*self);
        }
        let uid = pawn.get_uid();
        let mut map: HashMap<u128, Pawn<T, S>> = HashMap::new();
        std::mem::swap(&mut map, &mut self.pawn_map);
        map.insert(uid, pawn);
        self.pawn_map = map;
    }

    /// The pawn stored under `uid`, if any.
    pub fn get(&self, uid: u128) -> (r: Option<&Pawn<T, S>>)
        ensures
            match r {
                Some(p) => self@.contains_key(uid) && *p == self@[uid] && p.uid == uid,
                None => !self@.contains_key(uid),
            },
    {
        proof {
            use_type_invariant(self);
        }
        self.pawn_map.get(&uid)
    }

    /// Moves the pawn stored under `uid` to `transform`; without such a pawn
    /// nothing changes.
    pub fn set_transform(&mut self, uid: u128, transform: T)
        ensures
            final(self)@ == if old(self)@.contains_key(uid) {
                old(self)@.insert(uid, old(self)@[uid].with_transform(transform))
            } else {
                old(self)@
            },
    {
        proof {
            use_type_invariant(&*self);
        }
        let mut map: HashMap<u128, Pawn<T, S>> = HashMap::new();
        std::mem::swap(&mut map, &mut self.pawn_map);
        if let Some(pawn) = pawn_slot(&mut map, &uid) {
            pawn.set_transform(transform);
        }
        self.pawn_map = map;
    }

    /// The pawns named by `uids`, in the order of `uids`; identifiers without
    /// a pawn are skipped.
    pub fn get_pawns_from_uid(&self, uids: Vec<u128>) -> (pawns: Vec<&Pawn<T, S>>)
        ensures
            pawns@.map_values(|p: &Pawn<T, S>| *p) == found_pawns(self@, uids@),
    {
        let mut pawns: Vec<&Pawn<T, S>> = Vec::new();
        let mut i: usize = 0;
        while i < uids.len()
            invariant
                i <= uids@.len(),
                pawns@.map_values(|p: &Pawn<T, S>| *p) == found_pawns(self@, uids@.take(i as int)),
            decreases uids@.len() - i,
        {
            let uid = uids[i];
            proof {
                assert(uids@.take(i + 1).drop_last() =~= uids@.take(i as int));
            }
            if let Some(p) = self.get(uid) {
                pawns.push(p);
            }
            assert(pawns@.map_values(|p: &Pawn<T, S>| *p) =~= found_pawns(
                self@,
                uids@.take(i + 1),
            ));
            i = i + 1;
        }
        assert(uids@.take(uids@.len() as int) =~= uids@);
        pawns
    }

    /// The identifiers of all pawns, each once, in the map's own order.
    pub fn uids(&self) -> (r: Vec<u128>)
        ensures
            r@.to_set() == self@.dom(),
            r@.no_duplicates(),
    {
        let mut r: Vec<u128> = Vec::new();
        let ghost keys = vstd::std_specs::hash::spec_keys_iter(&self.pawn_map).remaining();
        for k in it: self.pawn_map.keys()
            invariant
                it.seq() == keys,
                r@ == keys.take(it.index() as int).map_values(|x: &u128| *x),
        {
            r.push(*k);
        }
        proof {
            assert(keys.take(keys.len() as int) =~= keys);
            assert(keys.map_values(|x: &u128| *x) =~= keys.unref());
        }
        r
    }

    /// The identifiers of the pawns that `uids` names, each once, in the
    /// map's own order (which the caller cannot choose).
    pub fn matching_uids(&self, uids: &[u128]) -> (r: Vec<u128>)
        ensures
            r@.no_duplicates(),
            forall|u: u128| #[trigger]
                r@.contains(u) <==> (self@.contains_key(u) && uids@.contains(u)),
    {
        let mut r: Vec<u128> = Vec::new();
        let ghost keys = vstd::std_specs::hash::spec_keys_iter(&self.pawn_map).remaining();
        proof {
            assert(keys.unref().to_set() == self@.dom());
        }
        for k in it: self.pawn_map.keys()
            invariant
                it.seq() == keys,
                keys.no_duplicates(),
                keys.unref().to_set() == self@.dom(),
                r@.no_duplicates(),
                forall|u: u128| #[trigger]
                    r@.contains(u) <==> (exists|j: int|
                        0 <= j < it.index() && *keys[j] == u) && uids@.contains(u),
        {
            let uid = *k;
            let ghost idx = it.index() as int;
            proof {
                assert(*keys[idx] == uid);
                assert forall|j: int| 0 <= j < idx implies *keys[j] != uid by {
                    assert(keys[j] != keys[idx]);
                }
            }
            let ghost before = r@;
            let found = holds_uid(uids, uid);
            if found {
                proof {
                    if before.contains(uid) {
                        let j = choose|j: int| 0 <= j < idx && *keys[j] == uid;
                    }
                    assert(!before.contains(uid));
                }
                r.push(uid);
                proof {
                    assert forall|a: int, b: int| 0 <= a < b < r@.len() implies r@[a] != r@[b] by {
                        if b == r@.len() - 1 {
                            assert(before[a] == r@[a]);
                        }
                    }
                }
            }
            proof {
                assert forall|u: u128|
                    #[trigger] r@.contains(u) <==> (exists|j: int| 0 <= j < idx + 1 && *keys[j] == u)
                        && uids@.contains(u) by {
                    if r@.contains(u) {
                        let j = choose|j: int| 0 <= j < r@.len() && r@[j] == u;
                        if j < before.len() {
                            assert(before[j] == u);
                            assert(before.contains(u));
                        }
                    }
                    if u == uid && found {
                        assert(r@[r@.len() - 1] == u);
                    }
                    if (exists|j: int| 0 <= j < idx + 1 && *keys[j] == u) && uids@.contains(u) {
                        let j = choose|j: int| 0 <= j < idx + 1 && *keys[j] == u;
                        if j < idx {
                            assert(before.contains(u));
                            let m = choose|m: int| 0 <= m < before.len() && before[m] == u;
                            assert(r@[m] == u);
                        }
                    }
                }
            }
        }
        proof {
            assert forall|u: u128| #[trigger]
                r@.contains(u) <==> (self@.contains_key(u) && uids@.contains(u)) by {
                if self@.contains_key(u) {
                    assert(keys.unref().to_set().contains(u));
                    let j = choose|j: int| 0 <= j < keys.unref().len() && keys.unref()[j] == u;
                    assert(*keys[j] == u);
                }
                if exists|j: int| 0 <= j < keys.len() && *keys[j] == u {
                    let j = choose|j: int| 0 <= j < keys.len() && *keys[j] == u;
                    assert(keys.unref()[j] == u);
                    assert(keys.unref().to_set().contains(u));
                }
            }
        }
        r
    }
}

/// What the editor works on: the pawns, the camera and an optional map sprite
/// drawn beneath them.
pub struct World<T, S, C> {
    pub pawn_manager: PawnManager<T, S>,
    pub camera: C,
    pub map: Option<S>,
}

/// Everything the running editor holds: the move history, the asset store
/// and the world.
#[verifier::reject_recursive_types(X)]
pub struct AppContext<T, S, C, X> {
    pub command_manger: CommandManager<T>,
    pub asset_store: AssetStore<X>,
    pub world: World<T, S, C>,
}

} // verus!
