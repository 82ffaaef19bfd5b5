//! The texture map of the backend: texture handles issued in sequence, each
//! naming one registered texture.
use crate::canvas::Texture;
use vstd::prelude::*;

verus! {

/// `imgui::Textures`, the texture map that the GUI library offers to its
/// renderers. Nothing is known of a value but what `texture_entries` and
/// `next_texture_id` say of it.
#[verifier::external_type_specification]
#[verifier::external_body]
#[verifier::reject_recursive_types(T)]
pub struct ExTextures<T>(imgui::Textures<T>);

/// The textures held by an `imgui::Textures`, by the number of their id.
pub uninterp spec fn texture_entries(textures: imgui::Textures<Texture>) -> Map<usize, Texture>;

/// The number of the id that the next insertion into an `imgui::Textures`
/// hands out.
pub uninterp spec fn next_texture_id(textures: imgui::Textures<Texture>) -> usize;

/// The map that holds no texture.
pub open spec fn no_textures() -> Map<usize, Texture> {
    Map::empty()
}

/// `imgui::Textures::new`: a map without entries, whose first id is zero.
#[verifier::external_body]
fn textures_new() -> (r: imgui::Textures<Texture>)
    ensures
        texture_entries(r) == no_textures(),
        next_texture_id(r) == 0,
{
    imgui::Textures::new()
}

/// `imgui::Textures::insert`: stores the texture under the next id, returns
/// that id and moves the next id on by one. The counter must not be at its
/// end, where the addition would overflow.
#[verifier::external_body]
fn textures_insert(textures: &mut imgui::Textures<Texture>, texture: Texture) -> (id: usize)
    requires
        next_texture_id(*old(textures)) < usize::MAX,
    ensures
        id == next_texture_id(*old(textures)),
        texture_entries(*final(textures)) == texture_entries(*old(textures)).insert(id, texture),
        next_texture_id(*final(textures)) == id + 1,
{
    textures.insert(texture).id()
}

/// `imgui::Textures::get`: the texture stored under the id, if there is one.
#[verifier::external_body]
fn textures_get(textures: &imgui::Textures<Texture>, id: usize) -> (r: Option<Texture>)
    ensures
        r == (if texture_entries(*textures).dom().contains(id) {
            Some(texture_entries(*textures)[id])
        } else {
            None
        }),
{
    textures.get(imgui::TextureId::new(id)).copied()
}

/// Textures by id. Ids are handed out in sequence and never again.
pub struct TextureMap {
    textures: imgui::Textures<Texture>,
    /// The number of ids handed out.
    issued: usize,
}

impl TextureMap {
    /// The registered textures by id.
    pub closed spec fn entries(&self) -> Map<usize, Texture> {
        texture_entries(self.textures)
    }

    /// The id that the next registered texture gets.
    pub closed spec fn next_id(&self) -> usize {
        next_texture_id(self.textures)
    }

    /// Every id in use was handed out before.
    #[verifier::type_invariant]
    spec fn well_formed(&self) -> bool {
        &&& self.issued == next_texture_id(self.textures)
        &&& forall|id: usize|
            texture_entries(self.textures).dom().contains(id) ==> id < next_texture_id(
                self.textures,
            )
    }

    /// What looking up `id` gives.
    pub open spec fn lookup(&self, id: usize) -> Option<Texture> {
        if self.entries().dom().contains(id) {
            Some(self.entries()[id])
        } else {
            None
        }
    }

    /// A map without textures.
    pub fn new() -> (map: TextureMap)
        ensures
            map.entries() == no_textures(),
            map.next_id() == 0,
    {
        TextureMap { textures: textures_new(), issued: 0 }
    }

    /// Whether every id has been handed out.
    pub fn is_full(&self) -> (r: bool)
        ensures
            r == (self.next_id() == usize::MAX),
    {
        proof {
            use_type_invariant(self);
        }
        self.issued == usize::MAX
    }

    /// Registers `texture` and returns its id, which no texture had before.
    pub fn insert(&mut self, texture: Texture) -> (id: usize)
        requires
            old(self).next_id() < usize::MAX,
        ensures
            id == old(self).next_id(),
            !old(self).entries().dom().contains(id),
            final(self).entries() == old(self).entries().insert(id, texture),
            final(self).next_id() == id + 1,
    {
        proof {
            use_type_invariant(&*self);
        }
        let mut held = TextureMap::new();
        std::mem::swap(self, &mut held);
        let TextureMap { mut textures, issued } = held;
        let ghost before = textures;
        let id: usize = textures_insert(&mut textures, texture);
        proof {
            assert forall|k: usize| texture_entries(textures).dom().contains(k) implies k
                < next_texture_id(textures) by {
                if k != id {
                    assert(texture_entries(before).dom().contains(k));
                }
            }
        }
        *self = TextureMap { textures, issued: issued + 1 };
        id
    }

    /// Registers `texture` and returns its id, unless every id has been
    /// handed out; then nothing changes.
    pub fn try_insert(&mut self, texture: Texture) -> (r: Option<usize>)
        ensures
            match r {
                Some(id) => {
                    &&& id == old(self).next_id()
                    &&& id < usize::MAX
                    &&& !old(self).entries().dom().contains(id)
                    &&& final(self).entries() == old(self).entries().insert(id, texture)
                    &&& final(self).next_id() == id + 1
                },
                None => {
                    &&& old(self).next_id() == usize::MAX
                    &&& final(self).entries() == old(self).entries()
                    &&& final(self).next_id() == old(self).next_id()
                },
            },
    {
        if self.is_full() {
            None
        } else {
            Some(self.insert(texture))
        }
    }

    /// The texture registered under `id`; none for an id that is not in use.
    pub fn get(&self, id: usize) -> (r: Option<Texture>)
        ensures
            r == self.lookup(id),
    {
        textures_get(&self.textures, id)
    }
}

} // verus!
