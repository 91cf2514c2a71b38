//! The asset store: loaded textures found by name, a queue of loads still to
//! do, and a manifest that records the source path of every texture name.
//!
//! Loading is in two steps. `load_texture` queues a load and hands back a
//! handle at once; whoever reads files takes the queue with `take_pending`,
//! loads each texture and gives it back with `store_loaded`, which files it
//! under its name and records its path in the manifest.

use std::marker::PhantomData;
use vstd::hash_map::StringHashMap;
use vstd::prelude::*;

use crate::uid::{is_random_uid, new_random_uid};

verus! {

broadcast use vstd::string::to_string_from_display_ensures_for_str;

/// A loaded asset: its value, the name it is filed under, its identifier and
/// the path it was loaded from.
pub struct Asset<X> {
    pub value: X,
    pub key: String,
    pub uuid: u128,
    pub source_path: String,
}

impl<X: Clone> Clone for Asset<X> {
    fn clone(&self) -> (r: Self)
        ensures
            cloned(self.value, r.value),
            r.key == self.key,
            r.uuid == self.uuid,
            r.source_path == self.source_path,
    {
        Asset {
            value: self.value.clone(),
            key: self.key.clone(),
            uuid: self.uuid,
            source_path: self.source_path.clone(),
        }
    }
}

/// A reference to an asset by identifier and name.
pub struct Handle<X> {
    pub uuid: u128,
    pub name: String,
    pub _marker: PhantomData<X>,
}

impl<X> Clone for Handle<X> {
    fn clone(&self) -> (r: Self)
        ensures
            r.uuid == self.uuid,
            r.name == self.name,
    {
        Handle { uuid: self.uuid, name: self.name.clone(), _marker: PhantomData }
    }
}

impl<'a, X> From<&'a Asset<X>> for Handle<X> {
    fn from(asset: &'a Asset<X>) -> (h: Self) {
        Handle { uuid: asset.uuid, name: asset.key.clone(), _marker: PhantomData }
    }
}

impl<'a, X> vstd::std_specs::convert::FromSpecImpl<&'a Asset<X>> for Handle<X> {
    open spec fn obeys_from_spec() -> bool {
        true
    }

    open spec fn from_spec(asset: &'a Asset<X>) -> Handle<X> {
        Handle { uuid: asset.uuid, name: asset.key, _marker: PhantomData }
    }
}

/// A texture load that was asked for and not yet done.
pub struct PendingLoad {
    pub name: String,
    pub uuid: u128,
    pub path: String,
}

impl PendingLoad {
    /// The load of the texture at `path`, to be filed under `name`.
    pub fn new(name: &str, uuid: u128, path: &str) -> (p: Self)
        ensures
            p.name@ == name@,
            p.uuid == uuid,
            p.path@ == path@,
    {
        PendingLoad { name: name.to_string(), uuid, path: path.to_string() }
    }
}

/// The name of the texture that stands in for a missing one.
pub open spec fn fallback_name() -> Seq<char> {
    "debug"@
}

/// The path of the texture that stands in for a missing one.
pub open spec fn fallback_path() -> Seq<char> {
    "assets/test_uv.png"@
}

/// The views of a list of name/path pairs.
pub open spec fn pair_views(pairs: Seq<(String, String)>) -> Seq<(Seq<char>, Seq<char>)> {
    pairs.map_values(|p: (String, String)| (p.0@, p.1@))
}

/// `base` with the pairs inserted in order: a later pair for the same name
/// wins.
pub open spec fn with_pairs(
    base: Map<Seq<char>, Seq<char>>,
    pairs: Seq<(Seq<char>, Seq<char>)>,
) -> Map<Seq<char>, Seq<char>>
    decreases pairs.len(),
{
    if pairs.len() == 0 {
        base
    } else {
        with_pairs(base, pairs.drop_last()).insert(pairs.last().0, pairs.last().1)
    }
}

/// No name occurs twice in the pairs.
pub open spec fn distinct_names(pairs: Seq<(Seq<char>, Seq<char>)>) -> bool {
    forall|i: int, j: int| 0 <= i < j < pairs.len() ==> pairs[i].0 != pairs[j].0
}

/// The pairs' map: the name of each pair maps to its path.
pub open spec fn pairs_map(pairs: Seq<(Seq<char>, Seq<char>)>) -> Map<Seq<char>, Seq<char>> {
    with_pairs(Map::empty(), pairs)
}

/// Replacing the path of a name that occurs once inserts the new path.
proof fn lemma_pairs_map_update(pairs: Seq<(Seq<char>, Seq<char>)>, i: int, path: Seq<char>)
    requires
        0 <= i < pairs.len(),
        distinct_names(pairs),
    ensures
        pairs_map(pairs.update(i, (pairs[i].0, path))) == pairs_map(pairs).insert(pairs[i].0, path),
        distinct_names(pairs.update(i, (pairs[i].0, path))),
    decreases pairs.len(),
{
    let name = pairs[i].0;
    let upd = pairs.update(i, (name, path));
    if i == pairs.len() - 1 {
        assert(upd.drop_last() =~= pairs.drop_last());
        assert(pairs_map(upd) =~= pairs_map(pairs).insert(name, path));
    } else {
        lemma_pairs_map_update(pairs.drop_last(), i, path);
        assert(upd.drop_last() =~= pairs.drop_last().update(i, (name, path)));
        assert(pairs.last().0 != name);
        assert(pairs_map(upd) =~= pairs_map(pairs).insert(name, path));
    }
}

/// A name that occurs in no pair is not in the pairs' map.
proof fn lemma_pairs_map_absent(pairs: Seq<(Seq<char>, Seq<char>)>, name: Seq<char>)
    requires
        forall|j: int| 0 <= j < pairs.len() ==> pairs[j].0 != name,
    ensures
        !pairs_map(pairs).contains_key(name),
    decreases pairs.len(),
{
    if pairs.len() > 0 {
        lemma_pairs_map_absent(pairs.drop_last(), name);
    }
}

/// Records `path` as the source of `name` in a list of pairs that names
/// each name once, replacing an earlier record of `name`.
fn record_pair(pairs: &mut Vec<(String, String)>, name: String, path: String)
    requires
        distinct_names(pair_views(old(pairs)@)),
    ensures
        distinct_names(pair_views(final(pairs)@)),
        pairs_map(pair_views(final(pairs)@)) == pairs_map(pair_views(old(pairs)@)).insert(
            name@,
            path@,
        ),
{
    let mut i: usize = 0;
    while i < pairs.len()
        invariant
            pairs == old(pairs),
            distinct_names(pair_views(pairs@)),
            i <= pairs@.len(),
            forall|j: int| 0 <= j < i ==> pairs@[j].0@ != name@,
        decreases pairs@.len() - i,
    {
        if pairs[i].0 == name {
            let ghost before = pair_views(pairs@);
            proof {
                lemma_pairs_map_update(before, i as int, path@);
            }
            pairs.set(i, (name, path));
            assert(pair_views(pairs@) =~= before.update(i as int, (before[i as int].0, path@)));
            return;
        }
        i = i + 1;
    }
    let ghost before = pair_views(pairs@);
    proof {
        lemma_pairs_map_absent(before, name@);
    }
    pairs.push((name, path));
    assert(pair_views(pairs@) =~= before.push((name@, path@)));
    assert(pair_views(pairs@).drop_last() =~= before);
}

/// The asset store.
#[verifier::reject_recursive_types(X)]
pub struct AssetStore<X> {
    textures: StringHashMap<Asset<X>>,
    pending: Vec<PendingLoad>,
    manifest: Vec<(String, String)>,
}

impl<X> AssetStore<X> {
    /// The store's invariant: the manifest records each name once.
    #[verifier::type_invariant]
    closed spec fn wf(&self) -> bool {
        distinct_names(pair_views(self.manifest@))
    }
}

impl<X: Clone> AssetStore<X> {
    /// The loaded textures by name.
    pub closed spec fn textures(&self) -> Map<Seq<char>, Asset<X>> {
        self.textures@
    }

    /// The loads still to do, oldest first.
    pub closed spec fn pending(&self) -> Seq<PendingLoad> {
        self.pending@
    }

    /// The manifest: the source path recorded for each texture name.
    pub closed spec fn manifest(&self) -> Map<Seq<char>, Seq<char>> {
        pairs_map(pair_views(self.manifest@))
    }


    /// The texture that a lookup of `name` finds: the one filed under `name`,
    /// or else the fallback texture.
    pub open spec fn texture_for(&self, name: Seq<char>) -> Asset<X> {
        if self.textures().contains_key(name) {
            self.textures()[name]
        } else {
            self.textures()[fallback_name()]
        }
    }

    /// Whether a lookup of `name` finds a texture.
    pub open spec fn can_find(&self, name: Seq<char>) -> bool {
        self.textures().contains_key(name) || self.textures().contains_key(fallback_name())
    }

    /// Whether a texture is filed under `name`.
    pub fn has_texture(&self, name: &str) -> (r: bool)
        ensures
            r == self.textures().contains_key(name@),
    {
        self.textures.contains_key(name)
    }

    /// A copy of the manifest as name/path pairs, each name once.
    pub fn get_manifest(&self) -> (r: Vec<(String, String)>)
        ensures
            distinct_names(pair_views(r@)),
            pairs_map(pair_views(r@)) == self.manifest(),
    {
        proof {
            use_type_invariant(self);
        }
        let mut r: Vec<(String, String)> = Vec::new();
        let mut i: usize = 0;
        while i < self.manifest.len()
            invariant
                i <= self.manifest@.len(),
                r@ == self.manifest@.take(i as int),
            decreases self.manifest@.len() - i,
        {
            let name = self.manifest[i].0.clone();
            let path = self.manifest[i].1.clone();
            r.push((name, path));
            assert(r@ =~= self.manifest@.take(i + 1));
            i = i + 1;
        }
        assert(r@ =~= self.manifest@);
        r
    }

    /// Records `path` as the source of `name`, replacing an earlier record.
    fn record_in_manifest(&mut self, name: String, path: String)
        ensures
            final(self).manifest() == old(self).manifest().insert(name@, path@),
            final(self).textures() == old(self).textures(),
            final(self).pending() == old(self).pending(),
    {
        proof {
            use_type_invariant(&*self);
        }
        let mut pairs: Vec<(String, String)> = Vec::new();
        std::mem::swap(&mut pairs, &mut self.manifest);
        record_pair(&mut pairs, name, path);
        self.manifest = pairs;
    }

    /// Queues the load of the texture at `path` under `name` and returns a
    /// handle with a fresh identifier; the load is done later.
    pub fn load_texture(&mut self, name: &str, path: &str) -> (h: Handle<X>)
        ensures
            h.name@ == name@,
            is_random_uid(h.uuid),
            final(self).pending().len() == old(self).pending().len() + 1,
            final(self).pending().drop_last() == old(self).pending(),
            final(self).pending().last().name@ == name@,
            final(self).pending().last().path@ == path@,
            final(self).pending().last().uuid == h.uuid,
            final(self).textures() == old(self).textures(),
            final(self).manifest() == old(self).manifest(),
    {
        let uuid = new_random_uid();
        let handle: Handle<X> = Handle { name: name.to_string(), uuid, _marker: PhantomData };
        let pending = PendingLoad::new(name, uuid, path);
        let mut queue: Vec<PendingLoad> = Vec::new();
        proof {
            use_type_invariant(&*self);
        }
        std::mem::swap(&mut queue, &mut self.pending);
        queue.push(pending);
        self.pending = queue;
        proof {
            assert(self.pending@.drop_last() =~= old(self).pending@);
        }
        handle
    }

    /// The texture filed under `name`, or else the fallback texture, as its
    /// clone.
    pub fn get_texture(&self, name: &str) -> (r: X)
        requires
            self.can_find(name@),
        ensures
            cloned(self.texture_for(name@).value, r),
    {
        if let Some(t) = self.textures.get(name) {
            return t.value.clone();
        }
        let fallback = self.textures.get("debug");
        match fallback {
            Some(t) => t.value.clone(),
            None => {
                proof {
                    assert(false);
                }
                self.textures.get("debug").unwrap().value.clone()
            },
        }
    }

    /// The asset filed under `key`, or else the fallback asset, as its clone.
    pub fn get_asset_texture(&self, key: &str) -> (r: Asset<X>)
        requires
            self.can_find(key@),
        ensures
            cloned(self.texture_for(key@).value, r.value),
            r.key == self.texture_for(key@).key,
            r.uuid == self.texture_for(key@).uuid,
            r.source_path == self.texture_for(key@).source_path,
    {
        if let Some(tex_asset) = self.textures.get(key) {
            return tex_asset.clone();
        }
        let fallback = self.textures.get("debug");
        match fallback {
            Some(t) => t.clone(),
            None => {
                proof {
                    assert(false);
                }
                self.textures.get("debug").unwrap().clone()
            },
        }
    }

    /// A handle to the texture filed under `name`.
    pub fn get_handle_from(&self, name: &str) -> (h: Handle<X>)
        requires
            self.textures().contains_key(name@),
        ensures
            h.uuid == self.textures()[name@].uuid,
            h.name == self.textures()[name@].key,
    {
        self.get_asset_texture(name);
        match self.textures.get(name) {
            Some(asset) => Handle::from(asset),
            None => {
                proof {
                    assert(false);
                }
                Handle::from(self.textures.get(name).unwrap())
            },
        }
    }

    /// Takes the queued loads, oldest first, and leaves the queue empty.
    pub fn take_pending(&mut self) -> (r: Vec<PendingLoad>)
        ensures
            r@ == old(self).pending(),
            final(self).pending() == Seq::<PendingLoad>::empty(),
            final(self).textures() == old(self).textures(),
            final(self).manifest() == old(self).manifest(),
    {
        let mut taken: Vec<PendingLoad> = Vec::new();
        proof {
            use_type_invariant(&*self);
        }
        std::mem::swap(&mut taken, &mut self.pending);
        taken
    }

    /// Files the texture of a done load under its name, with a fresh
    /// identifier, and records its path in the manifest.
    pub fn store_loaded(&mut self, load: PendingLoad, value: X)
        ensures
            final(self).textures() == old(self).textures().insert(
                load.name@,
                final(self).textures()[load.name@],
            ),
            final(self).textures()[load.name@].value == value,
            final(self).textures()[load.name@].key@ == load.name@,
            final(self).textures()[load.name@].source_path@ == load.path@,
            is_random_uid(final(self).textures()[load.name@].uuid),
            final(self).manifest() == old(self).manifest().insert(load.name@, load.path@),
            final(self).pending() == old(self).pending(),
    {
        let asset = Asset {
            value,
            uuid: new_random_uid(),
            key: load.name.clone(),
            source_path: load.path.clone(),
        };
        self.record_in_manifest(load.name.clone(), asset.source_path.clone());
        let mut textures: StringHashMap<Asset<X>> = StringHashMap::new();
        proof {
            use_type_invariant(&*self);
        }
        std::mem::swap(&mut textures, &mut self.textures);
        textures.insert(load.name, asset);
        self.textures = textures;
    }

    /// Queues a load for every name/path pair, in order, and records each in
    /// the manifest.
    pub fn load_manifest(&mut self, manifest: Vec<(String, String)>)
        ensures
            final(self).manifest() == with_pairs(old(self).manifest(), pair_views(manifest@)),
            forall|n: Seq<char>|
                old(self).manifest().contains_key(n) && (forall|i: int|
                    0 <= i < manifest@.len() ==> manifest@[i].0@ != n) ==> {
                    &&& #[trigger] final(self).manifest().contains_key(n)
                    &&& final(self).manifest()[n] == old(self).manifest()[n]
                },
            final(self).pending().len() == old(self).pending().len() + manifest@.len(),
            final(self).pending().take(old(self).pending().len() as int) == old(self).pending(),
            forall|i: int|
                0 <= i < manifest@.len() ==> {
                    let p = #[trigger] final(self).pending()[old(self).pending().len() + i];
                    &&& p.name@ == manifest@[i].0@
                    &&& p.path@ == manifest@[i].1@
                    &&& is_random_uid(p.uuid)
                },
            final(self).textures() == old(self).textures(),
    {
        let n = manifest.len();
        let mut i: usize = 0;
        while i < n
            invariant
                n == manifest@.len(),
                i <= n,
                self.manifest() == with_pairs(
                    old(self).manifest(),
                    pair_views(manifest@).take(i as int),
                ),
                self.pending().len() == old(self).pending().len() + i,
                self.pending().take(old(self).pending().len() as int) == old(self).pending(),
                forall|j: int|
                    0 <= j < i ==> {
                        let p = #[trigger] self.pending()[old(self).pending().len() + j];
                        &&& p.name@ == manifest@[j].0@
                        &&& p.path@ == manifest@[j].1@
                        &&& is_random_uid(p.uuid)
                    },
                self.textures() == old(self).textures(),
            decreases n - i,
        {
            let name = &manifest[i].0;
            let path = &manifest[i].1;
            let ghost before = self.pending();
            self.load_texture(name.as_str(), path.as_str());
            proof {
                assert(self.pending().take(old(self).pending().len() as int) =~= before.take(
                    old(self).pending().len() as int,
                ));
                assert forall|j: int| 0 <= j < i implies #[trigger] self.pending()[old(
                    self,
                ).pending().len() + j] == before[old(self).pending().len() + j] by {}
                assert(pair_views(manifest@).take(i + 1).drop_last() =~= pair_views(manifest@).take(
                    i as int,
                ));
            }
            self.record_in_manifest(name.clone(), path.clone());
            i = i + 1;
        }
        assert(pair_views(manifest@).take(n as int) =~= pair_views(manifest@));
        proof {
            let pv = pair_views(manifest@);
            assert forall|m: Seq<char>|
                old(self).manifest().contains_key(m) && (forall|i: int|
                    0 <= i < manifest@.len() ==> manifest@[i].0@ != m) implies {
                &&& #[trigger] self.manifest().contains_key(m)
                &&& self.manifest()[m] == old(self).manifest()[m]
            } by {
                assert forall|i: int| 0 <= i < pv.len() implies pv[i].0 != m by {
                    assert(pv[i].0 == manifest@[i].0@);
                }
                lemma_with_pairs_keeps(old(self).manifest(), pv, m);
            }
        }
    }
}

impl<X: Clone> Default for AssetStore<X> {
    fn default() -> (s: Self)
        ensures
            s.textures() == Map::<Seq<char>, Asset<X>>::empty(),
            s.manifest() == Map::<Seq<char>, Seq<char>>::empty(),
            s.pending().len() == 1,
            s.pending()[0].name@ == fallback_name(),
            s.pending()[0].path@ == fallback_path(),
            is_random_uid(s.pending()[0].uuid),
    {
        let mut asset_store = AssetStore {
            textures: StringHashMap::new(),
            pending: Vec::new(),
            manifest: Vec::new(),
        };
        proof {
            assert(pair_views(asset_store.manifest@) =~= Seq::<(Seq<char>, Seq<char>)>::empty());
            assert(asset_store.manifest() =~= Map::<Seq<char>, Seq<char>>::empty());
        }
        asset_store.load_texture("debug", "assets/test_uv.png");
        asset_store
    }
}

/// Law: a texture filed under a name is what a lookup of that name finds;
/// a name with no texture of its own finds the fallback texture.
pub proof fn lemma_lookup_finds_filed_texture<X: Clone>(store: AssetStore<X>, name: Seq<char>)
    requires
        store.can_find(name),
    ensures
        store.textures().contains_key(name) ==> store.texture_for(name) == store.textures()[name],
        !store.textures().contains_key(name) ==> store.texture_for(name)
            == store.textures()[fallback_name()],
{
}

/// Law: right after `store_loaded` files `value` under a name, a lookup of
/// that name finds `value`, whatever was filed there before.
pub proof fn lemma_lookup_after_store<X: Clone>(
    before: AssetStore<X>,
    after: AssetStore<X>,
    name: Seq<char>,
    value: X,
)
    requires
        after.textures() == before.textures().insert(name, after.textures()[name]),
        after.textures()[name].value == value,
    ensures
        after.can_find(name),
        after.texture_for(name).value == value,
{
    assert(after.textures().contains_key(name));
}

/// The names that inserting `pairs` adds are exactly the pairs' names.
proof fn lemma_with_pairs_dom(base: Map<Seq<char>, Seq<char>>, pairs: Seq<(Seq<char>, Seq<char>)>, n: Seq<char>)
    ensures
        with_pairs(base, pairs).contains_key(n) <==> (base.contains_key(n) || exists|i: int|
            0 <= i < pairs.len() && pairs[i].0 == n),
    decreases pairs.len(),
{
    if pairs.len() > 0 {
        let rest = pairs.drop_last();
        lemma_with_pairs_dom(base, rest, n);
        if exists|i: int| 0 <= i < rest.len() && rest[i].0 == n {
            let i = choose|i: int| 0 <= i < rest.len() && rest[i].0 == n;
            assert(pairs[i] == rest[i]);
        }
        if exists|i: int| 0 <= i < pairs.len() && pairs[i].0 == n {
            let i = choose|i: int| 0 <= i < pairs.len() && pairs[i].0 == n;
            if i < rest.len() {
                assert(pairs[i] == rest[i]);
            }
        }
    }
}

/// A record whose name no pair names keeps its path.
proof fn lemma_with_pairs_keeps(base: Map<Seq<char>, Seq<char>>, pairs: Seq<(Seq<char>, Seq<char>)>, n: Seq<char>)
    requires
        base.contains_key(n),
        forall|i: int| 0 <= i < pairs.len() ==> pairs[i].0 != n,
    ensures
        with_pairs(base, pairs).contains_key(n),
        with_pairs(base, pairs)[n] == base[n],
    decreases pairs.len(),
{
    if pairs.len() > 0 {
        let rest = pairs.drop_last();
        assert forall|i: int| 0 <= i < rest.len() implies rest[i].0 != n by {
            assert(pairs[i] == rest[i]);
        }
        lemma_with_pairs_keeps(base, rest, n);
        assert(pairs[pairs.len() - 1].0 != n);
    }
}

/// A pair that no later pair overrides gives its name its path.
proof fn lemma_with_pairs_last(base: Map<Seq<char>, Seq<char>>, pairs: Seq<(Seq<char>, Seq<char>)>, i: int)
    requires
        0 <= i < pairs.len(),
        forall|j: int| i < j < pairs.len() ==> pairs[j].0 != pairs[i].0,
    ensures
        with_pairs(base, pairs).contains_key(pairs[i].0),
        with_pairs(base, pairs)[pairs[i].0] == pairs[i].1,
    decreases pairs.len(),
{
    if i < pairs.len() - 1 {
        let rest = pairs.drop_last();
        assert forall|j: int| i < j < rest.len() implies rest[j].0 != rest[i].0 by {
            assert(pairs[j] == rest[j]);
        }
        lemma_with_pairs_last(base, rest, i);
        assert(pairs[pairs.len() - 1].0 != pairs[i].0);
    }
}

/// Law: inserting pairs into a map keeps every record whose name no pair
/// names, adds exactly the names of the pairs, and gives each pair's name the
/// path of its last pair.
pub proof fn lemma_with_pairs_records(
    base: Map<Seq<char>, Seq<char>>,
    pairs: Seq<(Seq<char>, Seq<char>)>,
)
    ensures
        forall|n: Seq<char>| #[trigger]
            with_pairs(base, pairs).contains_key(n) <==> (base.contains_key(n) || exists|i: int|
                0 <= i < pairs.len() && pairs[i].0 == n),
        forall|n: Seq<char>|
            base.contains_key(n) && (forall|i: int| 0 <= i < pairs.len() ==> pairs[i].0 != n)
                ==> #[trigger] with_pairs(base, pairs)[n] == base[n],
        forall|i: int|
            0 <= i < pairs.len() && (forall|j: int| i < j < pairs.len() ==> pairs[j].0 != pairs[i].0)
                ==> with_pairs(base, pairs)[(#[trigger] pairs[i]).0] == pairs[i].1,
{
    assert forall|n: Seq<char>| #[trigger]
        with_pairs(base, pairs).contains_key(n) <==> (base.contains_key(n) || exists|i: int|
            0 <= i < pairs.len() && pairs[i].0 == n) by {
        lemma_with_pairs_dom(base, pairs, n);
    }
    assert forall|n: Seq<char>|
        base.contains_key(n) && (forall|i: int| 0 <= i < pairs.len() ==> pairs[i].0 != n)
            implies #[trigger] with_pairs(base, pairs)[n] == base[n] by {
        lemma_with_pairs_keeps(base, pairs, n);
    }
    assert forall|i: int|
        0 <= i < pairs.len() && (forall|j: int| i < j < pairs.len() ==> pairs[j].0 != pairs[i].0)
            implies with_pairs(base, pairs)[(#[trigger] pairs[i]).0] == pairs[i].1 by {
        lemma_with_pairs_last(base, pairs, i);
    }
}

} // verus!
