//! Textures of the surfaces that frames are drawn into.

use std::collections::HashMap;
use vstd::prelude::*;

verus! {

/// The texture of each surface, made once and kept: the encoder hands the same
/// surfaces out again and again.
pub struct IoSurfaceTextureCache<T> {
    by_surface_id: HashMap<u32, T>,
}

impl<T> View for IoSurfaceTextureCache<T> {
    type V = Map<u32, T>;

    closed spec fn view(&self) -> Map<u32, T> {
        self.by_surface_id@
    }
}

impl<T> IoSurfaceTextureCache<T> {
    /// A cache without textures.
    pub fn new() -> (r: IoSurfaceTextureCache<T>)
        ensures
            r@ == Map::<u32, T>::empty(),
    {
        IoSurfaceTextureCache { by_surface_id: HashMap::new() }
    }

    /// Make sure that a surface has a texture. `make` is called only if it has
    /// none yet; where it fails nothing changes.
    pub fn ensure_texture<E, F: FnOnce() -> Result<T, E>>(&mut self, surface_id: u32, make: F) -> (r:
        Result<u32, E>)
        requires
            call_requires(make, ()),
        ensures
            old(self)@.contains_key(surface_id) ==> r == Ok::<u32, E>(surface_id) && final(self)@
                == old(self)@,
            !old(self)@.contains_key(surface_id) ==> match r {
                Ok(id) => id == surface_id && exists|texture: T|
                    call_ensures(make, (), Ok::<T, E>(texture)) && final(self)@ == old(
                        self,
                    )@.insert(surface_id, texture),
                Err(e) => call_ensures(make, (), Err::<T, E>(e)) && final(self)@ == old(self)@,
            },
    {
        broadcast use vstd::std_specs::hash::group_hash_axioms;

        if !self.by_surface_id.contains_key(&surface_id) {
            match make() {
                Ok(texture) => {
                    let ghost made = texture;
                    self.by_surface_id.insert(surface_id, texture);
                    assert(call_ensures(make, (), Ok::<T, E>(made)));
                },
                Err(e) => {
                    return Err(e);
                },
            }
        }
        Ok(surface_id)
    }

    /// The texture of a surface, if it has one.
    pub fn texture_by_key(&self, key: u32) -> (r: Option<&T>)
        ensures
            match r {
                Some(texture) => self@.contains_key(key) && *texture == self@[key],
                None => !self@.contains_key(key),
            },
    {
        broadcast use vstd::std_specs::hash::group_hash_axioms;

        self.by_surface_id.get(&key)
    }
}

/// A texture that a surface has is kept whatever is asked for afterwards.
pub proof fn law_textures_are_kept<T>(
    before: Map<u32, T>,
    after: Map<u32, T>,
    asked: u32,
    texture: T,
    kept: u32,
)
    requires
        before.contains_key(kept),
        before.contains_key(asked) ==> after == before,
        !before.contains_key(asked) ==> after == before || after == before.insert(asked, texture),
    ensures
        after.contains_key(kept),
        after[kept] == before[kept],
{
}

} // verus!
