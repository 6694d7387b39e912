//! Bookkeeping of the scene entities realized for a compiled map.
//!
//! A pass replaces everything wholesale: every handle realized before is
//! retired, then each mesh and each object of a visible group is realized
//! anew. The host performs the realizing and retiring; this module decides
//! what is realized, records the handles the host hands back, and hands out
//! the handles to retire.
use vstd::prelude::*;

use crate::map::CompiledMap;
use crate::mesh::MeshBuffer;
use crate::object::ObjectGroup;

verus! {

/// The handles realized under one key.
#[derive(Debug)]
pub struct Entry {
    pub key: u64,
    pub entities: Vec<u64>,
}

/// The entities realized for one attachment point of a map: mesh handles by
/// `(layer key, tileset key)` packed with `pack_key`, object handles by the
/// object's gid. Objects that share a gid share an entry. `realized` is the
/// generation of the compiled map that the handles were realized for, which
/// the host numbers anew on each compilation.
#[derive(Debug)]
pub struct CreatedMapEntities {
    pub created_layer_entities: Vec<Entry>,
    pub created_object_entities: Vec<Entry>,
    pub realized: Option<u64>,
}

/// Something the host is asked to realize.
#[derive(Clone, Copy, Debug, PartialEq, Eq, Structural)]
pub enum RealizeRequest {
    /// The mesh at this index of the compiled map's meshes.
    Mesh { index: usize },
    /// An object, by group index and index within the group.
    Object { group: usize, object: usize },
}

/// The registry key of the meshes of one layer and tileset.
pub open spec fn pack_key(layer: u32, tileset: u32) -> u64 {
    (layer as int * 0x1_0000_0000 + tileset as int) as u64
}

pub fn layer_entry_key(layer: u32, tileset: u32) -> (r: u64)
    ensures
        r == pack_key(layer, tileset),
{
    layer as u64 * 0x1_0000_0000 + tileset as u64
}

/// Handles grouped by key, in the order they come.
pub open spec fn grouped(keys: Seq<u64>, handles: Seq<u64>) -> Map<u64, Seq<u64>>
    decreases keys.len(),
{
    if keys.len() == 0 {
        Map::empty()
    } else {
        let m = grouped(keys.drop_last(), handles);
        let k = keys.last();
        let prev = if m.contains_key(k) { m[k] } else { Seq::empty() };
        m.insert(k, prev.push(handles[keys.len() - 1]))
    }
}

/// The entries as a map from key to handles.
pub open spec fn entries_map(es: Seq<Entry>) -> Map<u64, Seq<u64>>
    decreases es.len(),
{
    if es.len() == 0 {
        Map::empty()
    } else {
        entries_map(es.drop_last()).insert(es.last().key, es.last().entities@)
    }
}

pub open spec fn keys_unique(es: Seq<Entry>) -> bool {
    forall|i: int, j: int| 0 <= i < j < es.len() ==> (#[trigger] es[i]).key != (#[trigger] es[j]).key
}

/// All handles of the entries, entry by entry.
pub open spec fn entry_handles(es: Seq<Entry>) -> Seq<u64>
    decreases es.len(),
{
    if es.len() == 0 {
        Seq::empty()
    } else {
        entry_handles(es.drop_last()) + es.last().entities@
    }
}

/// The registry keys of a compiled map's meshes, in order.
pub open spec fn mesh_keys(meshes: Seq<(u32, u32, MeshBuffer)>) -> Seq<u64> {
    meshes.map_values(|m: (u32, u32, MeshBuffer)| pack_key(m.0, m.1))
}

/// The objects of the visible groups from group `g` on, as requests.
pub open spec fn object_requests_from(groups: Seq<ObjectGroup>, g: int) -> Seq<RealizeRequest>
    decreases groups.len() - g,
{
    if g < 0 || g >= groups.len() {
        Seq::empty()
    } else {
        let rest = object_requests_from(groups, g + 1);
        if groups[g].visible {
            Seq::new(groups[g].objects@.len(), |o: int| RealizeRequest::Object { group: g as usize, object: o as usize }) + rest
        } else {
            rest
        }
    }
}

/// The gids of the objects of the visible groups from group `g` on.
pub open spec fn object_gids_from(groups: Seq<ObjectGroup>, g: int) -> Seq<u64>
    decreases groups.len() - g,
{
    if g < 0 || g >= groups.len() {
        Seq::empty()
    } else {
        let rest = object_gids_from(groups, g + 1);
        if groups[g].visible {
            groups[g].objects@.map_values(|o: crate::object::Object| o.gid as u64) + rest
        } else {
            rest
        }
    }
}

/// What a pass realizes: every mesh, in order, then every object of a
/// visible group.
pub open spec fn realize_plan(m: CompiledMap) -> Seq<RealizeRequest> {
    Seq::new(m.meshes@.len(), |i: int| RealizeRequest::Mesh { index: i as usize })
        + object_requests_from(m.groups@, 0)
}

proof fn lemma_entries_map_lookup(es: Seq<Entry>)
    requires
        keys_unique(es),
    ensures
        forall|i: int| 0 <= i < es.len() ==> #[trigger] entries_map(es)[es[i].key] == es[i].entities@,
        forall|k: u64| entries_map(es).contains_key(k) <==> exists|i: int| 0 <= i < es.len() && (#[trigger] es[i]).key == k,
    decreases es.len(),
{
    if es.len() > 0 {
        let d = es.drop_last();
        let last = es.last();
        assert(keys_unique(d));
        lemma_entries_map_lookup(d);
        assert(entries_map(es) == entries_map(d).insert(last.key, last.entities@));
        assert forall|i: int| 0 <= i < es.len() implies #[trigger] entries_map(es)[es[i].key] == es[i].entities@ by {
            if i < es.len() - 1 {
                assert(d[i] == es[i]);
                assert(es[i].key != es[es.len() - 1].key);
                assert(entries_map(d)[d[i].key] == d[i].entities@);
            }
        }
        assert forall|k: u64| entries_map(es).contains_key(k) implies exists|i: int| 0 <= i < es.len() && (#[trigger] es[i]).key == k by {
            if k != last.key {
                assert(entries_map(d).contains_key(k));
                let i = choose|i: int| 0 <= i < d.len() && (#[trigger] d[i]).key == k;
                assert(es[i] == d[i]);
            } else {
                assert(es[es.len() - 1].key == k);
            }
        }
        assert forall|k: u64| (exists|i: int| 0 <= i < es.len() && (#[trigger] es[i]).key == k) implies entries_map(es).contains_key(k) by {
            let i = choose|i: int| 0 <= i < es.len() && (#[trigger] es[i]).key == k;
            if i < es.len() - 1 {
                assert(d[i] == es[i]);
                assert(exists|j: int| 0 <= j < d.len() && (#[trigger] d[j]).key == k);
                assert(entries_map(d).contains_key(k));
            }
        }
    }
}

proof fn lemma_entries_map_update(es: Seq<Entry>, i: int, e: Entry)
    requires
        0 <= i < es.len(),
        e.key == es[i].key,
        keys_unique(es),
    ensures
        entries_map(es.update(i, e)) == entries_map(es).insert(e.key, e.entities@),
        keys_unique(es.update(i, e)),
    decreases es.len(),
{
    let u = es.update(i, e);
    assert(u.drop_last() =~= if i == es.len() - 1 { es.drop_last() } else { es.drop_last().update(i, e) });
    if i == es.len() - 1 {
        assert(entries_map(u) =~= entries_map(es).insert(e.key, e.entities@));
    } else {
        assert(keys_unique(es.drop_last()));
        lemma_entries_map_update(es.drop_last(), i, e);
        assert(es[i].key != es[es.len() - 1].key);
        assert(entries_map(u) =~= entries_map(es).insert(e.key, e.entities@));
    }
    {
        assert forall|a: int, b: int| 0 <= a < b < u.len() implies (#[trigger] u[a]).key != (#[trigger] u[b]).key by {
            assert(u[a].key == es[a].key && u[b].key == es[b].key);
        }
    }
}

/// Appends `h` to the handles under `key`, adding the entry if it is new.
fn record(es: &mut Vec<Entry>, key: u64, h: u64)
    requires
        keys_unique(old(es)@),
    ensures
        keys_unique(final(es)@),
        entries_map(final(es)@) == entries_map(old(es)@).insert(
            key,
            (if entries_map(old(es)@).contains_key(key) { entries_map(old(es)@)[key] } else { Seq::empty() }).push(h),
        ),
{
    let mut i: usize = 0;
    while i < es.len()
        invariant
            i <= es@.len(),
            es@ == old(es)@,
            keys_unique(es@),
            forall|j: int| 0 <= j < i ==> (#[trigger] es@[j]).key != key,
        decreases es@.len() - i,
    {
        if es[i].key == key {
            let mut e = es.remove(i);
            e.entities.push(h);
            proof {
                lemma_entries_map_lookup(old(es)@);
                assert(entries_map(old(es)@)[old(es)@[i as int].key] == old(es)@[i as int].entities@);
                assert(entries_map(old(es)@).contains_key(key));
            }
            es.insert(i, e);
            proof {
                assert(es@ =~= old(es)@.update(i as int, e));
                lemma_entries_map_update(old(es)@, i as int, e);
            }
            return;
        }
        i += 1;
    }
    proof {
        lemma_entries_map_lookup(es@);
    }
    assert(!entries_map(es@).contains_key(key));
    let mut v: Vec<u64> = Vec::new();
    v.push(h);
    let ghost before = es@;
    es.push(Entry { key, entities: v });
    proof {
        assert(es@.drop_last() =~= before);
        assert(v@ =~= Seq::<u64>::empty().push(h));
        assert forall|a: int, b: int| 0 <= a < b < es@.len() implies (#[trigger] es@[a]).key != (#[trigger] es@[b]).key by {
            if b == es@.len() - 1 {
                assert(es@[a] == before[a]);
            }
        }
    }
}

/// Every handle of the entries, entry by entry.
fn collect_handles(es: &Vec<Entry>, out: &mut Vec<u64>)
    ensures
        final(out)@ == old(out)@ + entry_handles(es@),
{
    let ghost start = out@;
    let mut i: usize = 0;
    while i < es.len()
        invariant
            i <= es@.len(),
            out@ == start + entry_handles(es@.take(i as int)),
        decreases es@.len() - i,
    {
        let e = &es[i];
        let mut j: usize = 0;
        let ghost base = out@;
        while j < e.entities.len()
            invariant
                j <= e.entities@.len(),
                out@ == base + e.entities@.take(j as int),
            decreases e.entities@.len() - j,
        {
            out.push(e.entities[j]);
            j += 1;
            assert(out@ =~= base + e.entities@.take(j as int));
        }
        assert(e.entities@.take(e.entities@.len() as int) =~= e.entities@);
        assert(es@.take(i + 1).drop_last() =~= es@.take(i as int));
        assert(out@ =~= start + entry_handles(es@.take(i + 1)));
        i += 1;
    }
    assert(es@.take(i as int) =~= es@);
}

proof fn lemma_plan_len(groups: Seq<ObjectGroup>, g: int)
    requires
        0 <= g,
    ensures
        object_requests_from(groups, g).len() == object_gids_from(groups, g).len(),
    decreases groups.len() - g,
{
    if g < groups.len() {
        lemma_plan_len(groups, g + 1);
    }
}

proof fn lemma_grouped_keys(keys: Seq<u64>, hs: Seq<u64>)
    ensures
        grouped(keys, hs).dom() == keys.to_set(),
    decreases keys.len(),
{
    if keys.len() > 0 {
        lemma_grouped_keys(keys.drop_last(), hs);
        assert(keys.to_set() =~= keys.drop_last().to_set().insert(keys.last())) by {
            assert forall|k: u64| keys.to_set().contains(k) implies keys.drop_last().to_set().insert(keys.last()).contains(k) by {
                let i = choose|i: int| 0 <= i < keys.len() && keys[i] == k;
                if i < keys.len() - 1 {
                    assert(keys.drop_last()[i] == k);
                }
            }
            assert forall|k: u64| keys.drop_last().to_set().insert(keys.last()).contains(k) implies keys.to_set().contains(k) by {
                if k != keys.last() {
                    let i = choose|i: int| 0 <= i < keys.drop_last().len() && keys.drop_last()[i] == k;
                    assert(keys[i] == k);
                } else {
                    assert(keys[keys.len() - 1] == k);
                }
            }
        }
        assert(grouped(keys, hs).dom() =~= keys.to_set());
    }
}

/// A second pass over a generation that is realized already asks for
/// nothing to be realized; `finish_pass` then retires nothing and leaves the
/// registry as it was.
pub proof fn lemma_second_pass_is_noop(r: CreatedMapEntities, m: CompiledMap, generation: u64)
    requires
        r.realized == Some(generation),
    ensures
        r.pass_plan(m, generation).len() == 0,
{
}

/// After a pass, the registry holds exactly the keys of the meshes and of
/// the objects of visible groups that the map produces, whatever it held
/// before and whatever handles the host returned: a second pass over the
/// same map leaves the same keys.
pub proof fn lemma_pass_keys(m: CompiledMap, h1: Seq<u64>, h2: Seq<u64>)
    ensures
        grouped(mesh_keys(m.meshes@), h1).dom() == mesh_keys(m.meshes@).to_set(),
        grouped(mesh_keys(m.meshes@), h1).dom() == grouped(mesh_keys(m.meshes@), h2).dom(),
        grouped(object_gids_from(m.groups@, 0), h1).dom() == object_gids_from(m.groups@, 0).to_set(),
        grouped(object_gids_from(m.groups@, 0), h1).dom() == grouped(object_gids_from(m.groups@, 0), h2).dom(),
{
    lemma_grouped_keys(mesh_keys(m.meshes@), h1);
    lemma_grouped_keys(mesh_keys(m.meshes@), h2);
    lemma_grouped_keys(object_gids_from(m.groups@, 0), h1);
    lemma_grouped_keys(object_gids_from(m.groups@, 0), h2);
}

impl CreatedMapEntities {
    pub open spec fn wf(&self) -> bool {
        &&& keys_unique(self.created_layer_entities@)
        &&& keys_unique(self.created_object_entities@)
    }

    /// Realized mesh handles by packed `(layer key, tileset key)`.
    pub open spec fn layer_view(&self) -> Map<u64, Seq<u64>> {
        entries_map(self.created_layer_entities@)
    }

    /// Realized object handles by gid.
    pub open spec fn object_view(&self) -> Map<u64, Seq<u64>> {
        entries_map(self.created_object_entities@)
    }

    /// Every handle held, layers first.
    pub open spec fn all_handles(&self) -> Seq<u64> {
        entry_handles(self.created_layer_entities@) + entry_handles(self.created_object_entities@)
    }

    /// What a pass over generation `generation` of `map` realizes: nothing
    /// where that generation is already realized, else the whole plan.
    pub open spec fn pass_plan(&self, map: CompiledMap, generation: u64) -> Seq<RealizeRequest> {
        if self.realized == Some(generation) {
            Seq::empty()
        } else {
            realize_plan(map)
        }
    }

    /// An empty registry.
    pub fn new() -> (r: CreatedMapEntities)
        ensures
            r.wf(),
            r.layer_view() == Map::<u64, Seq<u64>>::empty(),
            r.object_view() == Map::<u64, Seq<u64>>::empty(),
            r.realized is None,
    {
        CreatedMapEntities { created_layer_entities: Vec::new(), created_object_entities: Vec::new(), realized: None }
    }

    /// Empties the registry and hands back every handle it held, to be
    /// retired. This is also what removing the map asset calls for.
    pub fn retire_all(&mut self) -> (r: Vec<u64>)
        ensures
            r@ == old(self).all_handles(),
            final(self).wf(),
            final(self).layer_view() == Map::<u64, Seq<u64>>::empty(),
            final(self).object_view() == Map::<u64, Seq<u64>>::empty(),
            final(self).realized is None,
    {
        let mut out: Vec<u64> = Vec::new();
        collect_handles(&self.created_layer_entities, &mut out);
        collect_handles(&self.created_object_entities, &mut out);
        self.created_layer_entities = Vec::new();
        self.created_object_entities = Vec::new();
        self.realized = None;
        out
    }

    /// What a pass over generation `generation` of `map` asks the host to
    /// realize, in order: nothing where that generation is realized already.
    pub fn plan_pass(&self, map: &CompiledMap, generation: u64) -> (r: Vec<RealizeRequest>)
        ensures
            r@ == self.pass_plan(*map, generation),
    {
        if self.realized == Some(generation) {
            Vec::new()
        } else {
            CreatedMapEntities::realize_requests(map)
        }
    }

    /// Ends a pass over generation `generation` of `map`: `handles` are what
    /// the host returned for `plan_pass(map, generation)`, in order. Where
    /// that generation is realized already, the pass changes nothing and
    /// retires nothing. Else it returns every handle held before, to be
    /// retired, and records the new ones under that generation.
    pub fn finish_pass(&mut self, map: &CompiledMap, generation: u64, handles: &Vec<u64>) -> (r: Vec<u64>)
        requires
            old(self).wf(),
            handles@.len() == old(self).pass_plan(*map, generation).len(),
        ensures
            final(self).wf(),
            old(self).realized == Some(generation) ==> r@.len() == 0 && *final(self) == *old(self),
            old(self).realized != Some(generation) ==> {
                &&& r@ == old(self).all_handles()
                &&& final(self).realized == Some(generation)
                &&& final(self).layer_view() == grouped(mesh_keys(map.meshes@), handles@)
                &&& final(self).object_view() == grouped(
                    object_gids_from(map.groups@, 0),
                    handles@.skip(map.meshes@.len() as int),
                )
            },
    {
        if self.realized == Some(generation) {
            return Vec::new();
        }
        let retired = self.replace_all(map, handles);
        self.realized = Some(generation);
        retired
    }

    /// What a pass over `map` asks the host to realize, in order.
    pub fn realize_requests(map: &CompiledMap) -> (r: Vec<RealizeRequest>)
        ensures
            r@ == realize_plan(*map),
    {
        let mut out: Vec<RealizeRequest> = Vec::new();
        let mut i: usize = 0;
        while i < map.meshes.len()
            invariant
                i <= map.meshes@.len(),
                out@ == Seq::new(i as nat, |j: int| RealizeRequest::Mesh { index: j as usize }),
            decreases map.meshes@.len() - i,
        {
            out.push(RealizeRequest::Mesh { index: i });
            i += 1;
            assert(out@ =~= Seq::new(i as nat, |j: int| RealizeRequest::Mesh { index: j as usize }));
        }
        let ghost meshes_part = out@;
        assert(out@ =~= meshes_part + Seq::<RealizeRequest>::empty());
        assert(Seq::<RealizeRequest>::empty() + object_requests_from(map.groups@, 0) =~= object_requests_from(map.groups@, 0));
        let mut g: usize = 0;
        while g < map.groups.len()
            invariant
                g <= map.groups@.len(),
                meshes_part == Seq::new(map.meshes@.len(), |j: int| RealizeRequest::Mesh { index: j as usize }),
                exists|p: Seq<RealizeRequest>| out@ == meshes_part + p
                    && #[trigger] (p + object_requests_from(map.groups@, g as int)) == object_requests_from(map.groups@, 0),
            decreases map.groups@.len() - g,
        {
            let ghost p = choose|p: Seq<RealizeRequest>| out@ == meshes_part + p
                && #[trigger] (p + object_requests_from(map.groups@, g as int)) == object_requests_from(map.groups@, 0);
            let group = &map.groups[g];
            if group.visible {
                let ghost at_g = out@;
                let mut o: usize = 0;
                while o < group.objects.len()
                    invariant
                        o <= group.objects@.len(),
                        out@ == at_g + Seq::new(o as nat, |k: int| RealizeRequest::Object { group: g as usize, object: k as usize }),
                    decreases group.objects@.len() - o,
                {
                    out.push(RealizeRequest::Object { group: g, object: o });
                    o += 1;
                    assert(out@ =~= at_g + Seq::new(o as nat, |k: int| RealizeRequest::Object { group: g as usize, object: k as usize }));
                }
                let ghost block = Seq::new(group.objects@.len(), |k: int| RealizeRequest::Object { group: g as usize, object: k as usize });
                assert(object_requests_from(map.groups@, g as int) == block + object_requests_from(map.groups@, g + 1));
                assert((p + block) + object_requests_from(map.groups@, g + 1) =~= object_requests_from(map.groups@, 0));
                assert(out@ =~= meshes_part + (p + block));
            } else {
                assert(object_requests_from(map.groups@, g as int) == object_requests_from(map.groups@, g + 1));
            }
            g += 1;
        }
        proof {
            let p = choose|p: Seq<RealizeRequest>| out@ == meshes_part + p
                && #[trigger] (p + object_requests_from(map.groups@, g as int)) == object_requests_from(map.groups@, 0);
            assert(p + object_requests_from(map.groups@, g as int) =~= p);
        }
        out
    }

    /// Retires every handle held and records `handles`, what the host
    /// returned for `realize_requests(map)`, in order.
    fn replace_all(&mut self, map: &CompiledMap, handles: &Vec<u64>) -> (r: Vec<u64>)
        requires
            old(self).wf(),
            handles@.len() == realize_plan(*map).len(),
        ensures
            r@ == old(self).all_handles(),
            final(self).wf(),
            final(self).layer_view() == grouped(mesh_keys(map.meshes@), handles@),
            final(self).object_view() == grouped(
                object_gids_from(map.groups@, 0),
                handles@.skip(map.meshes@.len() as int),
            ),
    {
        let retired = self.retire_all();
        proof {
            lemma_plan_len(map.groups@, 0);
        }
        let ghost keys = mesh_keys(map.meshes@);
        let mut i: usize = 0;
        while i < map.meshes.len()
            invariant
                i <= map.meshes@.len(),
                keys == mesh_keys(map.meshes@),
                handles@.len() == map.meshes@.len() + object_gids_from(map.groups@, 0).len(),
                keys_unique(self.created_layer_entities@),
                keys_unique(self.created_object_entities@),
                self.object_view() == Map::<u64, Seq<u64>>::empty(),
                self.layer_view() == grouped(keys.take(i as int), handles@),
            decreases map.meshes@.len() - i,
        {
            let (layer, tileset, _) = &map.meshes[i];
            let key = layer_entry_key(*layer, *tileset);
            record(&mut self.created_layer_entities, key, handles[i]);
            assert(keys.take(i + 1).drop_last() =~= keys.take(i as int));
            i += 1;
        }
        assert(keys.take(i as int) =~= keys);
        let nm = map.meshes.len();
        let ghost hs = handles@.skip(nm as int);
        let ghost all = object_gids_from(map.groups@, 0);
        let ghost mut done: Seq<u64> = Seq::empty();
        let mut count: usize = 0;
        let mut g: usize = 0;
        while g < map.groups.len()
            invariant
                g <= map.groups@.len(),
                nm == map.meshes@.len(),
                hs == handles@.skip(nm as int),
                all == object_gids_from(map.groups@, 0),
                handles@.len() == nm + all.len(),
                done + object_gids_from(map.groups@, g as int) == all,
                count == done.len(),
                keys_unique(self.created_layer_entities@),
                keys_unique(self.created_object_entities@),
                self.layer_view() == grouped(keys, handles@),
                self.object_view() == grouped(done, hs),
            decreases map.groups@.len() - g,
        {
            let group = &map.groups[g];
            if group.visible {
                let ghost at_g = done;
                let ghost gids = group.objects@.map_values(|o: crate::object::Object| o.gid as u64);
                assert(object_gids_from(map.groups@, g as int) == gids + object_gids_from(map.groups@, g + 1));
                let mut o: usize = 0;
                while o < group.objects.len()
                    invariant
                        o <= group.objects@.len(),
                        nm == map.meshes@.len(),
                        hs == handles@.skip(nm as int),
                        handles@.len() == nm + all.len(),
                        gids == group.objects@.map_values(|o: crate::object::Object| o.gid as u64),
                        at_g + gids + object_gids_from(map.groups@, g + 1) == all,
                        done == at_g + gids.take(o as int),
                        count == done.len(),
                        keys_unique(self.created_layer_entities@),
                        keys_unique(self.created_object_entities@),
                        self.layer_view() == grouped(keys, handles@),
                        self.object_view() == grouped(done, hs),
                    decreases group.objects@.len() - o,
                {
                    let gid = group.objects[o].gid as u64;
                    proof {
                        assert(all.len() == at_g.len() + gids.len() + object_gids_from(map.groups@, g + 1).len());
                        assert(done.len() == at_g.len() + o);
                        assert(gids.len() == group.objects@.len());
                        assert(count < all.len());
                        assert(nm + count < handles@.len());
                    }
                    let total = handles.len();
                    assert(nm + count < total);
                    let h = handles[nm + count];
                    record(&mut self.created_object_entities, gid, h);
                    proof {
                        let nd = done.push(gid);
                        assert(nd.drop_last() =~= done);
                        assert(hs[nd.len() - 1] == h);
                        done = nd;
                        assert(done =~= at_g + gids.take(o + 1));
                    }
                    count += 1;
                    o += 1;
                }
                proof {
                    assert(gids.take(gids.len() as int) =~= gids);
                    assert(done + object_gids_from(map.groups@, g + 1) =~= all);
                }
            } else {
                assert(object_gids_from(map.groups@, g as int) == object_gids_from(map.groups@, g + 1));
            }
            g += 1;
        }
        assert(done =~= all);
        retired
    }
}

/// A change to a map asset, as the host reports it within one update.
#[derive(Clone, Copy, Debug, PartialEq, Eq, Structural)]
pub enum MapEvent {
    Created { map: u64 },
    Modified { map: u64 },
    Removed { map: u64 },
}

/// The maps whose last event in `events` is a removal (`removed`), or a
/// creation or modification (`!removed`).
pub open spec fn last_event_set(events: Seq<MapEvent>, removed: bool) -> Set<u64>
    decreases events.len(),
{
    if events.len() == 0 {
        Set::empty()
    } else {
        let s = last_event_set(events.drop_last(), removed);
        match events.last() {
            MapEvent::Created { map } => if removed { s.remove(map) } else { s.insert(map) },
            MapEvent::Modified { map } => if removed { s.remove(map) } else { s.insert(map) },
            MapEvent::Removed { map } => if removed { s.insert(map) } else { s.remove(map) },
        }
    }
}

/// The maps to reconcile after `events`: a map created or modified is in,
/// one removed afterwards is out.
pub open spec fn changed_set(events: Seq<MapEvent>) -> Set<u64> {
    last_event_set(events, false)
}

/// The maps to retire everything for after `events`: a map removed is in,
/// one created or modified afterwards is out.
pub open spec fn removed_set(events: Seq<MapEvent>) -> Set<u64> {
    last_event_set(events, true)
}

pub open spec fn names(e: MapEvent, m: u64) -> bool {
    match e {
        MapEvent::Created { map } => map == m,
        MapEvent::Modified { map } => map == m,
        MapEvent::Removed { map } => map == m,
    }
}

/// A map that no event of the batch names is neither reconciled nor
/// retired: without a change in between, a second pass never happens.
pub proof fn lemma_unnamed_map_unchanged(events: Seq<MapEvent>, m: u64)
    requires
        forall|i: int| 0 <= i < events.len() ==> !names(#[trigger] events[i], m),
    ensures
        !changed_set(events).contains(m),
        !removed_set(events).contains(m),
    decreases events.len(),
{
    if events.len() > 0 {
        let d = events.drop_last();
        assert forall|i: int| 0 <= i < d.len() implies !names(#[trigger] d[i], m) by {
            assert(d[i] == events[i]);
        }
        lemma_unnamed_map_unchanged(d, m);
        assert(!names(events[events.len() - 1], m));
    }
}

/// The maps that a batch of events leaves to reconcile, each once.
pub fn changed_maps(events: &Vec<MapEvent>) -> (r: Vec<u64>)
    ensures
        r@.to_set() == changed_set(events@),
        r@.no_duplicates(),
{
    maps_by_last_event(events, false)
}

/// The maps that a batch of events leaves removed, each once.
pub fn removed_maps(events: &Vec<MapEvent>) -> (r: Vec<u64>)
    ensures
        r@.to_set() == removed_set(events@),
        r@.no_duplicates(),
{
    maps_by_last_event(events, true)
}

fn maps_by_last_event(events: &Vec<MapEvent>, removed: bool) -> (r: Vec<u64>)
    ensures
        r@.to_set() == last_event_set(events@, removed),
        r@.no_duplicates(),
{
    let mut out: Vec<u64> = Vec::new();
    let mut i: usize = 0;
    assert(out@.to_set() =~= Set::<u64>::empty());
    while i < events.len()
        invariant
            i <= events@.len(),
            out@.to_set() == last_event_set(events@.take(i as int), removed),
            out@.no_duplicates(),
        decreases events@.len() - i,
    {
        assert(events@.take(i + 1).drop_last() =~= events@.take(i as int));
        assert(events@.take(i + 1).last() == events@[i as int]);
        let (map, add) = match events[i] {
            MapEvent::Created { map } => (map, !removed),
            MapEvent::Modified { map } => (map, !removed),
            MapEvent::Removed { map } => (map, removed),
        };
        let mut j: usize = 0;
        while j < out.len()
            invariant
                j <= out@.len(),
                out@.to_set() == last_event_set(events@.take(i as int), removed),
                out@.no_duplicates(),
                forall|k: int| 0 <= k < j ==> out@[k] != map,
            ensures
                j <= out@.len(),
                out@.to_set() == last_event_set(events@.take(i as int), removed),
                out@.no_duplicates(),
                forall|k: int| 0 <= k < j ==> out@[k] != map,
                j < out@.len() ==> out@[j as int] == map,
            decreases out@.len() - j,
        {
            if out[j] == map {
                break;
            }
            j += 1;
        }
        let ghost before = out@;
        if add {
            if j == out.len() {
                out.push(map);
                assert forall|k: u64| #[trigger] out@.to_set().contains(k) == before.to_set().insert(map).contains(k) by {
                    if k != map && out@.to_set().contains(k) {
                        let q = choose|q: int| 0 <= q < out@.len() && out@[q] == k;
                        assert(before[q] == k);
                    }
                    if before.to_set().contains(k) {
                        let q = choose|q: int| 0 <= q < before.len() && before[q] == k;
                        assert(out@[q] == k);
                    }
                    if k == map {
                        assert(out@[out@.len() - 1] == map);
                    }
                }
                assert(out@.to_set() =~= before.to_set().insert(map));
            } else {
                assert(before.to_set().contains(map)) by {
                    assert(before[j as int] == map);
                }
                assert(before.to_set().insert(map) =~= before.to_set());
            }
        } else {
            if j < out.len() {
                out.remove(j);
                assert forall|k: u64| #[trigger] out@.to_set().contains(k) == before.to_set().remove(map).contains(k) by {
                    if out@.to_set().contains(k) {
                        let q = choose|q: int| 0 <= q < out@.len() && out@[q] == k;
                        if q < j {
                            assert(before[q] == k);
                        } else {
                            assert(before[q + 1] == k);
                            assert(k != map);
                        }
                    }
                    if before.to_set().remove(map).contains(k) {
                        let q = choose|q: int| 0 <= q < before.len() && before[q] == k;
                        if q < j {
                            assert(out@[q] == k);
                        } else {
                            assert(q != j);
                            assert(out@[q - 1] == k);
                        }
                    }
                }
                assert(out@.to_set() =~= before.to_set().remove(map));
            } else {
                assert(!before.to_set().contains(map));
                assert(before.to_set().remove(map) =~= before.to_set());
            }
        }
        i += 1;
    }
    assert(events@.take(i as int) =~= events@);
    out
}

} // verus!
