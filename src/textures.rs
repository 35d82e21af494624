use std::collections::HashMap;
use vstd::prelude::*;
use vstd::std_specs::hash::group_hash_axioms;

use crate::image::RgbaImage;

verus! {

broadcast use group_hash_axioms;

/// Names a texture of the GUI library.
#[derive(Clone, Copy, Debug, PartialEq, Eq, Structural)]
pub enum TextureId {
    /// A texture that the GUI library allocated itself; `Managed(0)` holds the font atlas.
    Managed(u64),
    /// A texture that the application registered under its own number.
    User(u64),
}

/// New texels for a texture.
#[derive(Clone, Debug)]
pub struct ImageDelta {
    /// The texels to write.
    pub image: RgbaImage,
    /// `None` when `image` is the whole texture; otherwise the column and row
    /// of the texture at which the top left corner of `image` goes.
    pub pos: Option<(usize, usize)>,
}

/// The textures to create or change, and those to release, between two frames.
#[derive(Clone, Debug)]
pub struct TexturesDelta {
    /// New or changed textures, in the order the GUI library gave them.
    pub set: Vec<(TextureId, ImageDelta)>,
    /// Textures that are no longer needed.
    pub free: Vec<TextureId>,
}

/// The host images that stand for the GUI library's textures: at most one
/// image per texture id.
pub struct TextureStore<I> {
    managed: HashMap<u64, I>,
    user: HashMap<u64, I>,
}

impl<I> View for TextureStore<I> {
    type V = Map<TextureId, I>;

    closed spec fn view(&self) -> Map<TextureId, I> {
        Map::new(
            |id: TextureId|
                match id {
                    TextureId::Managed(n) => self.managed@.contains_key(n),
                    TextureId::User(n) => self.user@.contains_key(n),
                },
            |id: TextureId|
                match id {
                    TextureId::Managed(n) => self.managed@[n],
                    TextureId::User(n) => self.user@[n],
                },
        )
    }
}

impl<I> TextureStore<I> {
    /// A store that holds no image.
    pub fn new() -> (s: Self)
        ensures
            s@ == Map::<TextureId, I>::empty(),
    {
        let s = TextureStore { managed: HashMap::new(), user: HashMap::new() };
        assert(s@ =~= Map::<TextureId, I>::empty());
        s
    }

    /// The image that stands for `id`, if there is one.
    pub fn get(&self, id: TextureId) -> (r: Option<&I>)
        ensures
            r == (if self@.contains_key(id) {
                Some(&self@[id])
            } else {
                None::<&I>
            }),
    {
        match id {
            TextureId::Managed(n) => self.managed.get(&n),
            TextureId::User(n) => self.user.get(&n),
        }
    }

    /// Whether an image stands for `id`.
    pub fn contains(&self, id: TextureId) -> (r: bool)
        ensures
            r == self@.contains_key(id),
    {
        match id {
            TextureId::Managed(n) => self.managed.contains_key(&n),
            TextureId::User(n) => self.user.contains_key(&n),
        }
    }

    /// Lets `image` stand for `id`, dropping the image that stood for it before.
    pub fn insert(&mut self, id: TextureId, image: I)
        ensures
            final(self)@ == old(self)@.insert(id, image),
    {
        match id {
            TextureId::Managed(n) => {
                self.managed.insert(n, image);
            },
            TextureId::User(n) => {
                self.user.insert(n, image);
            },
        }
        assert(self@ =~= old(self)@.insert(id, image));
    }

    /// Releases the image that stands for `id`, if any, and hands it back.
    pub fn remove(&mut self, id: TextureId) -> (r: Option<I>)
        ensures
            final(self)@ == old(self)@.remove(id),
            r == (if old(self)@.contains_key(id) {
                Some(old(self)@[id])
            } else {
                None::<I>
            }),
    {
        let r = match id {
            TextureId::Managed(n) => self.managed.remove(&n),
            TextureId::User(n) => self.user.remove(&n),
        };
        assert(self@ =~= old(self)@.remove(id));
        r
    }
}

} // verus!
