use vstd::prelude::*;
use vstd::hash_map::StringHashMap;

verus! {

/// Registry of the textures. Each block texture name is given a layer of
/// the block texture array, the next free layer at the time it is added;
/// free textures (`F`, what the renderer keeps of a texture of its own) are
/// kept by name.
#[verifier::reject_recursive_types(F)]
pub struct TextureBin<F> {
    block_texture_lookup_map: StringHashMap<u32>,
    next_free_layer: u32,
    free_textures: StringHashMap<F>,
}

/// The layers that registering the block textures `names`, one after the
/// other from layer `next`, gives on top of `layers`: `names[i]` gets layer
/// `next + i`, and a name listed twice keeps its later layer.
pub open spec fn registered_layers(layers: Map<Seq<char>, u32>, next: int, names: Seq<Seq<char>>) -> Map<
    Seq<char>,
    u32,
>
    decreases names.len(),
{
    if names.len() == 0 {
        layers
    } else {
        registered_layers(layers, next, names.drop_last()).insert(
            names.last(),
            (next + names.len() - 1) as u32,
        )
    }
}

/// The texture names of a list, as text.
pub open spec fn names_view(names: Seq<String>) -> Seq<Seq<char>> {
    names.map_values(|s: String| s@)
}

impl<F> TextureBin<F> {
    /// The layer registered for each texture name.
    pub closed spec fn layers(&self) -> Map<Seq<char>, u32> {
        self.block_texture_lookup_map@
    }

    /// The free textures by name.
    pub closed spec fn free_textures(&self) -> Map<Seq<char>, F> {
        self.free_textures@
    }

    /// The layer that the next added texture gets.
    pub closed spec fn next_layer(&self) -> u32 {
        self.next_free_layer
    }

    /// Every registered layer lies below the next free layer, and no two
    /// names share a layer.
    pub open spec fn wf(&self) -> bool {
        &&& forall|name: Seq<char>| #[trigger]
            self.layers().contains_key(name) ==> self.layers()[name] < self.next_layer()
        &&& forall|a: Seq<char>, b: Seq<char>|
            #[trigger] self.layers().contains_key(a) && #[trigger] self.layers().contains_key(b)
                && a != b ==> self.layers()[a] != self.layers()[b]
    }

    /// An empty registry whose next free layer is layer 0.
    pub fn new() -> (bin: TextureBin<F>)
        ensures
            bin.wf(),
            bin.layers() == Map::<Seq<char>, u32>::empty(),
            bin.next_layer() == 0,
            bin.free_textures() == Map::<Seq<char>, F>::empty(),
    {
        TextureBin {
            block_texture_lookup_map: StringHashMap::new(),
            next_free_layer: 0,
            free_textures: StringHashMap::new(),
        }
    }

    /// The free texture `name`; it must have been added.
    pub fn get_free_texture(&self, name: &str) -> (texture: &F)
        requires
            self.free_textures().contains_key(name@),
        ensures
            *texture == self.free_textures()[name@],
    {
        self.free_textures.get(name).unwrap()
    }

    /// Keeps the free texture `texture` under `name`, replacing any texture
    /// of that name; returns whether one was replaced (of which the caller
    /// warns). The block textures are left as they are.
    pub fn add_texture_free(&mut self, name: String, texture: F) -> (replaced: bool)
        ensures
            replaced == old(self).free_textures().contains_key(name@),
            final(self).free_textures() == old(self).free_textures().insert(name@, texture),
            final(self).layers() == old(self).layers(),
            final(self).next_layer() == old(self).next_layer(),
    {
        let replaced = self.free_textures.contains_key(name.as_str());
        self.free_textures.insert(name, texture);
        replaced
    }

    /// The layer of the block texture `name`; the name must be registered.
    pub fn get_texture_index_by_name_block(&self, name: &str) -> (layer: u32)
        requires
            self.layers().contains_key(name@),
        ensures
            layer == self.layers()[name@],
    {
        match self.block_texture_lookup_map.get(name) {
            Some(layer) => *layer,
            None => 0,
        }
    }

    /// Registers the block texture `name` at the next free layer and returns
    /// that layer, into which the texture's pixels go; a name added again
    /// moves to the new layer.
    pub fn add_texture_block(&mut self, name: String) -> (layer: u32)
        requires
            old(self).wf(),
            old(self).next_layer() < u32::MAX,
        ensures
            final(self).wf(),
            layer == old(self).next_layer(),
            final(self).layers() == old(self).layers().insert(name@, layer),
            final(self).next_layer() == old(self).next_layer() + 1,
            final(self).free_textures() == old(self).free_textures(),
    {
        let layer = self.next_free_layer;
        self.block_texture_lookup_map.insert(name, layer);
        self.next_free_layer = layer + 1;
        proof {
            let m = self.layers();
            assert forall|a: Seq<char>, b: Seq<char>|
                #[trigger] m.contains_key(a) && #[trigger] m.contains_key(b) && a != b implies m[a]
                != m[b] by {
                if a != name@ {
                    assert(old(self).layers().contains_key(a));
                }
                if b != name@ {
                    assert(old(self).layers().contains_key(b));
                }
            }
            assert forall|a: Seq<char>| #[trigger] m.contains_key(a) implies m[a]
                < self.next_layer() by {
                if a != name@ {
                    assert(old(self).layers().contains_key(a));
                }
            }
        }
        layer
    }

    /// Registers the block textures of a manifest, in its order: `names[i]`
    /// gets layer `next_layer() + i`, which the result lists, and a name
    /// listed twice keeps its later layer.
    pub fn add_block_textures(&mut self, names: &Vec<String>) -> (layers: Vec<u32>)
        requires
            old(self).wf(),
            old(self).next_layer() + names@.len() <= u32::MAX,
        ensures
            final(self).wf(),
            layers@.len() == names@.len(),
            forall|i: int| 0 <= i < names@.len() ==> layers@[i] == old(self).next_layer() + i,
            final(self).layers() == registered_layers(
                old(self).layers(),
                old(self).next_layer() as int,
                names_view(names@),
            ),
            final(self).next_layer() == old(self).next_layer() + names@.len(),
            final(self).free_textures() == old(self).free_textures(),
            forall|i: int|
                0 <= i < names@.len() && (forall|j: int|
                    i < j < names@.len() ==> (#[trigger] names@[j])@ != names@[i]@)
                    ==> final(self).layers().contains_key(#[trigger] names@[i]@)
                    && final(self).layers()[names@[i]@] == layers@[i],
    {
        let ghost start = self.next_layer();
        let ghost start_layers = self.layers();
        let mut layers: Vec<u32> = Vec::new();
        let mut i: usize = 0;
        while i < names.len()
            invariant
                0 <= i <= names@.len(),
                self.wf(),
                start + names@.len() <= u32::MAX,
                self.next_layer() == start + i,
                layers@.len() == i,
                forall|k: int| 0 <= k < i ==> layers@[k] == start + k,
                self.layers() == registered_layers(
                    start_layers,
                    start as int,
                    names_view(names@).take(i as int),
                ),
                self.free_textures() == old(self).free_textures(),
            decreases names@.len() - i,
        {
            assert(names_view(names@).take(i as int + 1).drop_last() =~= names_view(names@).take(
                i as int,
            ));
            let layer = self.add_texture_block(names[i].clone());
            layers.push(layer);
            i = i + 1;
        }
        assert(names_view(names@).take(names@.len() as int) =~= names_view(names@));
        proof {
            let nv = names_view(names@);
            assert forall|i: int|
                0 <= i < names@.len() && (forall|j: int|
                    i < j < names@.len() ==> (#[trigger] names@[j])@ != names@[i]@)
                    implies self.layers().contains_key(#[trigger] names@[i]@)
                    && self.layers()[names@[i]@] == layers@[i] by {
                assert forall|j: int| i < j < nv.len() implies #[trigger] nv[j] != nv[i] by {
                    assert(nv[j] == names@[j]@);
                }
                lemma_manifest_layers(start_layers, start as int, nv, i, nv[i]);
            }
        }
        layers
    }

}

/// After a texture is added, looking its name up gives the layer it got,
/// and every other name keeps its layer.
pub proof fn lemma_added_texture_found(
    before: Map<Seq<char>, u32>,
    after: Map<Seq<char>, u32>,
    name: Seq<char>,
    layer: u32,
    other: Seq<char>,
)
    requires
        after == before.insert(name, layer),
        other != name,
    ensures
        after.contains_key(name),
        after[name] == layer,
        after.contains_key(other) == before.contains_key(other),
        before.contains_key(other) ==> after[other] == before[other],
{
}


/// Registering a manifest gives each listed name the layer of its last
/// place in the list, `next + i` for place `i`, and leaves every name that
/// is not listed as it was.
pub proof fn lemma_manifest_layers(
    layers: Map<Seq<char>, u32>,
    next: int,
    names: Seq<Seq<char>>,
    i: int,
    other: Seq<char>,
)
    requires
        0 <= next,
        next + names.len() <= u32::MAX + 1,
    ensures
        0 <= i < names.len() && (forall|j: int| i < j < names.len() ==> #[trigger] names[j]
            != names[i]) ==> registered_layers(layers, next, names).contains_key(names[i])
            && registered_layers(layers, next, names)[names[i]] == next + i,
        !names.contains(other) ==> registered_layers(layers, next, names).contains_key(other)
            == layers.contains_key(other) && (layers.contains_key(other) ==> registered_layers(
            layers,
            next,
            names,
        )[other] == layers[other]),
    decreases names.len(),
{
    if names.len() > 0 {
        let prev = names.drop_last();
        if !names.contains(other) {
            assert forall|k: int| 0 <= k < prev.len() implies prev[k] != other by {
                assert(prev[k] == names[k]);
            }
            assert(names[names.len() - 1] != other);
        }
        if 0 <= i < names.len() - 1 && (forall|j: int| i < j < names.len() ==> #[trigger] names[j]
            != names[i]) {
            assert(names[names.len() - 1] != names[i]);
            assert forall|j: int| i < j < prev.len() implies #[trigger] prev[j] != prev[i] by {
                assert(prev[j] == names[j] && prev[i] == names[i]);
            }
            lemma_manifest_layers(layers, next, prev, i, other);
            assert(prev[i] == names[i]);
        } else {
            lemma_manifest_layers(layers, next, prev, i, other);
        }
    }
}

} // verus!
