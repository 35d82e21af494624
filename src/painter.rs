use std::collections::VecDeque;
use vstd::prelude::*;

use crate::image::{
    fits_at, patched, rgba_bytes, rgba_bytes_of, well_sized_view, write_patch, Rgba, RgbaImage,
};
use crate::textures::{ImageDelta, TextureId, TextureStore, TexturesDelta};

verus! {

/// An image's width, height and texels.
pub type Texels = (usize, usize, Seq<Rgba>);

/// Why a texture update stopped.
#[derive(Clone, Copy, Debug, PartialEq, Eq, Structural)]
pub enum TextureError {
    /// The image given for this texture holds a texel count other than its
    /// width times its height.
    SizeMismatch(TextureId),
    /// A patch for this texture was given where the texture has no image, or
    /// where it does not lie inside the texture's image.
    PatchOutside(TextureId),
}

/// Whether the set entry `(id, d)` can be applied to textures with texels `cur`.
pub open spec fn entry_error(cur: Map<TextureId, Texels>, id: TextureId, d: ImageDelta) -> Option<
    TextureError,
> {
    if !well_sized_view(d.image@) {
        Some(TextureError::SizeMismatch(id))
    } else {
        match d.pos {
            None => None,
            Some(p) => if cur.contains_key(id) && fits_at(cur[id], d.image@, p.0 as int, p.1 as int) {
                None
            } else {
                Some(TextureError::PatchOutside(id))
            },
        }
    }
}

/// The texels of `id` once the set entry `(id, d)` is applied to `cur`.
pub open spec fn entry_texels(cur: Map<TextureId, Texels>, id: TextureId, d: ImageDelta) -> Texels {
    match d.pos {
        None => d.image@,
        Some(p) => patched(cur[id], d.image@, p.0 as int, p.1 as int),
    }
}

/// The texels of every texture once the entries of `set` are applied to `cur` in order.
pub open spec fn texels_after(cur: Map<TextureId, Texels>, set: Seq<(TextureId, ImageDelta)>) -> Map<
    TextureId,
    Texels,
>
    decreases set.len(),
{
    if set.len() == 0 {
        cur
    } else {
        let m = texels_after(cur, set.drop_last());
        m.insert(set.last().0, entry_texels(m, set.last().0, set.last().1))
    }
}

/// The error of the first entry of `set` that cannot be applied, if any.
pub open spec fn set_error(cur: Map<TextureId, Texels>, set: Seq<(TextureId, ImageDelta)>) -> Option<
    TextureError,
>
    decreases set.len(),
{
    if set.len() == 0 {
        None
    } else {
        match set_error(cur, set.drop_last()) {
            Some(e) => Some(e),
            None => entry_error(texels_after(cur, set.drop_last()), set.last().0, set.last().1),
        }
    }
}

/// Some entry of `set` names `id`.
pub open spec fn touches(set: Seq<(TextureId, ImageDelta)>, id: TextureId) -> bool {
    exists|k: int| 0 <= k < set.len() && (#[trigger] set[k]).0 == id
}

/// The texels of each texture of `m`.
pub open spec fn texels_of<I>(m: Map<TextureId, (Texels, I)>) -> Map<TextureId, Texels> {
    m.map_values(|t: (Texels, I)| t.0)
}

/// `img` is what `make` gave back for the size and RGBA bytes of `src`.
pub open spec fn made_from<I, F: Fn(usize, usize, Vec<u8>) -> I>(make: F, src: Texels, img: I) -> bool {
    exists|bytes: Vec<u8>|
        bytes@ == rgba_bytes_of(src.2) && #[trigger] make.ensures((src.0, src.1, bytes), img)
}

/// Each texture of `after` that `set` names stands for an image that `make`
/// gave back for its texels; each other one is as it was in `before`.
pub open spec fn images_kept_or_made<I, F: Fn(usize, usize, Vec<u8>) -> I>(
    before: Map<TextureId, (Texels, I)>,
    after: Map<TextureId, (Texels, I)>,
    set: Seq<(TextureId, ImageDelta)>,
    make: F,
) -> bool {
    forall|id: TextureId| #[trigger]
        after.contains_key(id) ==> if touches(set, id) {
            made_from(make, after[id].0, after[id].1)
        } else {
            before.contains_key(id) && after[id] == before[id]
        }
}

/// What updating the textures `before` with `delta` leaves, given its result
/// `r`. On success every set entry was applied in order, and then the freed
/// textures were released. On an error the entries before the first one that
/// cannot be applied were applied, and nothing else was done.
pub open spec fn update_outcome<I, F: Fn(usize, usize, Vec<u8>) -> I>(
    before: Map<TextureId, (Texels, I)>,
    after: Map<TextureId, (Texels, I)>,
    delta: TexturesDelta,
    make: F,
    r: Result<(), TextureError>,
) -> bool {
    let tb = texels_of(before);
    let set = delta.set@;
    match r {
        Ok(()) => {
            &&& set_error(tb, set) is None
            &&& texels_of(after) == texels_after(tb, set).remove_keys(delta.free@.to_set())
            &&& images_kept_or_made(before, after, set, make)
        },
        Err(e) => exists|k: int|
            {
                &&& 0 <= k < set.len()
                &&& set_error(tb, set.take(k)) is None
                &&& entry_error(texels_after(tb, set.take(k)), set[k].0, set[k].1) == Some(e)
                &&& #[trigger] texels_of(after) == texels_after(tb, set.take(k))
                &&& images_kept_or_made(before, after, set.take(k), make)
            },
    }
}

/// The GUI's texture state on the host side: the deltas the GUI library has
/// asked for and not yet applied, oldest first, and for each texture its
/// texels and the image that stands for it.
pub struct Painter<I> {
    textures_delta: VecDeque<TexturesDelta>,
    textures: TextureStore<(RgbaImage, I)>,
}

impl<I> Painter<I> {
    /// The deltas waiting to be applied, oldest first.
    pub closed spec fn pending(&self) -> Seq<TexturesDelta> {
        self.textures_delta@
    }

    /// The texels of each texture, and the image that stands for it.
    pub closed spec fn textures(&self) -> Map<TextureId, (Texels, I)> {
        self.textures@.map_values(|t: (RgbaImage, I)| (t.0@, t.1))
    }

    /// Every texture's texel count agrees with its size.
    pub open spec fn wf(&self) -> bool {
        forall|id: TextureId| #[trigger]
            self.textures().contains_key(id) ==> well_sized_view(self.textures()[id].0)
    }

    /// A painter with no texture and nothing pending.
    pub fn new() -> (p: Self)
        ensures
            p.wf(),
            p.pending() == Seq::<TexturesDelta>::empty(),
            p.textures() == Map::<TextureId, (Texels, I)>::empty(),
    {
        let p = Painter { textures_delta: VecDeque::new(), textures: TextureStore::new() };
        assert(p.textures() =~= Map::<TextureId, (Texels, I)>::empty());
        p
    }

    /// Queues the delta of a finished frame behind those already waiting.
    pub fn queue_delta(&mut self, delta: TexturesDelta)
        ensures
            final(self).pending() == old(self).pending().push(delta),
            final(self).textures() == old(self).textures(),
    {
        self.textures_delta.push_back(delta);
    }

    /// How many deltas wait to be applied.
    pub fn pending_deltas(&self) -> (r: usize)
        ensures
            r == self.pending().len(),
    {
        self.textures_delta.len()
    }

    /// The image that stands for `id`, if there is one.
    pub fn texture(&self, id: TextureId) -> (r: Option<&I>)
        ensures
            r == (if self.textures().contains_key(id) {
                Some(&self.textures()[id].1)
            } else {
                None::<&I>
            }),
    {
        match self.textures.get(id) {
            Some(t) => Some(&t.1),
            None => None,
        }
    }

    /// Applies `delta`. Each entry of `delta.set` in turn gives the new texels
    /// of its texture: the entry's image, or, for a patch, the texture's
    /// current texels with the image written over them. The new texels are
    /// turned into RGBA bytes and handed to `make` with their size, and what
    /// `make` returns stands for the texture. Then the textures of
    /// `delta.free` are released. The first entry that cannot be applied (an
    /// ill-sized image, a patch that does not fit) stops the update there.
    pub fn update_textures<F: Fn(usize, usize, Vec<u8>) -> I>(
        &mut self,
        delta: TexturesDelta,
        make: F,
    ) -> (r: Result<(), TextureError>)
        requires
            old(self).wf(),
            forall|w: usize, h: usize, b: Vec<u8>| make.requires((w, h, b)),
        ensures
            final(self).wf(),
            final(self).pending() == old(self).pending(),
            r is Ok <==> set_error(texels_of(old(self).textures()), delta.set@) is None,
            update_outcome(old(self).textures(), final(self).textures(), delta, make, r),
    {
        let ghost set = delta.set@;
        let ghost free = delta.free@;
        let ghost before = self.textures();
        let ghost tb = texels_of(before);
        let mut i: usize = 0;
        while i < delta.set.len()
            invariant
                set == delta.set@,
                i <= set.len(),
                self.wf(),
                self.textures_delta@ == old(self).textures_delta@,
                before == old(self).textures(),
                tb == texels_of(before),
                forall|w: usize, h: usize, b: Vec<u8>| make.requires((w, h, b)),
                set_error(tb, set.take(i as int)) is None,
                texels_of(self.textures()) == texels_after(tb, set.take(i as int)),
                images_kept_or_made(before, self.textures(), set.take(i as int), make),
            decreases set.len() - i,
        {
            let id = delta.set[i].0;
            let d = &delta.set[i].1;
            let ghost cur = texels_of(self.textures());
            assert(set.take(i + 1).drop_last() =~= set.take(i as int));
            assert(set.take(i + 1).last() == set[i as int]);
            if !d.image.well_sized() {
                proof {
                    assert(set_error(tb, set) is Some) by {
                        self.lemma_error_persists(tb, set, i as int + 1);
                    }
                }
                return Err(TextureError::SizeMismatch(id));
            }
            let texels = match d.pos {
                None => d.image.duplicate(),
                Some((x, y)) => {
                    let fits = match self.textures.get(id) {
                        Some(t) => x <= t.0.width && d.image.width <= t.0.width - x && y
                            <= t.0.height && d.image.height <= t.0.height - y,
                        None => false,
                    };
                    if !fits {
                        proof {
                            assert(set_error(tb, set) is Some) by {
                                self.lemma_error_persists(tb, set, i as int + 1);
                            }
                        }
                        return Err(TextureError::PatchOutside(id));
                    }
                    match self.textures.get(id) {
                        Some(t) => write_patch(&t.0, &d.image, x, y),
                        None => d.image.duplicate(),
                    }
                },
            };
            assert(texels@ == entry_texels(cur, id, *d));
            let bytes = rgba_bytes(&texels.pixels);
            let ghost gbytes = bytes;
            let image = make(texels.width, texels.height, bytes);
            assert(made_from(make, texels@, image)) by {
                assert(gbytes@ == rgba_bytes_of(texels@.2));
                assert(texels@.0 == texels.width && texels@.1 == texels.height);
                assert(make.ensures((texels@.0, texels@.1, gbytes), image));
            }
            let ghost prev = self.textures();
            self.textures.insert(id, (texels, image));
            assert(self.textures() =~= prev.insert(id, (texels@, image)));
            assert(texels_of(self.textures()) =~= texels_of(prev).insert(id, texels@));
            i += 1;
            assert forall|x: TextureId| #[trigger] self.textures().contains_key(x) implies if touches(
                set.take(i as int),
                x,
            ) {
                made_from(make, self.textures()[x].0, self.textures()[x].1)
            } else {
                before.contains_key(x) && self.textures()[x] == before[x]
            } by {
                if x != id {
                    assert(prev.contains_key(x));
                    if touches(set.take(i as int), x) {
                        let k = choose|k: int| 0 <= k < i && (#[trigger] set.take(i as int)[k]).0 == x;
                        assert(set.take(i - 1)[k] == set.take(i as int)[k]);
                        assert(touches(set.take(i - 1), x));
                    } else {
                        assert forall|k: int| 0 <= k < i - 1 implies (#[trigger] set.take(
                            i - 1,
                        )[k]).0 != x by {
                            assert(set.take(i - 1)[k] == set.take(i as int)[k]);
                        }
                    }
                } else {
                    assert(set.take(i as int)[i - 1].0 == id);
                }
            }
        }
        assert(set.take(set.len() as int) =~= set);
        let ghost mid = self.textures();
        let mut j: usize = 0;
        while j < delta.free.len()
            invariant
                free == delta.free@,
                j <= free.len(),
                self.wf(),
                self.textures_delta@ == old(self).textures_delta@,
                forall|id: TextureId|
                    (exists|k: int| 0 <= k < j && free[k] == id) ==> !(
                    #[trigger] self.textures().contains_key(id)),
                forall|id: TextureId|
                    !(exists|k: int| 0 <= k < j && free[k] == id) ==> {
                        &&& #[trigger] self.textures().contains_key(id) == mid.contains_key(id)
                        &&& self.textures().contains_key(id) ==> self.textures()[id] == mid[id]
                    },
            decreases free.len() - j,
        {
            let id = delta.free[j];
            let ghost prev = self.textures();
            self.textures.remove(id);
            assert(self.textures() =~= prev.remove(id));
            assert forall|x: TextureId|
                (exists|k: int| 0 <= k < j + 1 && free[k] == x) implies !(
            #[trigger] self.textures().contains_key(x)) by {
                if x != id {
                    let k = choose|k: int| 0 <= k < j + 1 && free[k] == x;
                    assert(k < j);
                }
            }
            assert forall|x: TextureId| !(exists|k: int| 0 <= k < j + 1 && free[k] == x) implies {
                &&& #[trigger] self.textures().contains_key(x) == mid.contains_key(x)
                &&& self.textures().contains_key(x) ==> self.textures()[x] == mid[x]
            } by {
                assert(free[j as int] == id);
                assert(x != id);
            }
            j += 1;
        }
        assert(self.textures() =~= mid.remove_keys(free.to_set()));
        assert(texels_of(self.textures()) =~= texels_of(mid).remove_keys(free.to_set()));
        Ok(())
    }

    /// Once some prefix of `set` holds an entry that cannot be applied, so
    /// does the whole of `set`.
    proof fn lemma_error_persists(
        &self,
        cur: Map<TextureId, Texels>,
        set: Seq<(TextureId, ImageDelta)>,
        n: int,
    )
        requires
            0 <= n <= set.len(),
            set_error(cur, set.take(n)) is Some,
        ensures
            set_error(cur, set) is Some,
        decreases set.len() - n,
    {
        if n < set.len() {
            assert(set.take(n + 1).drop_last() =~= set.take(n));
            self.lemma_error_persists(cur, set, n + 1);
        } else {
            assert(set.take(n) =~= set);
        }
    }

    /// Applies the oldest pending delta, if there is one, and takes it off the
    /// queue, whether or not it could be applied.
    pub fn apply_next_delta<F: Fn(usize, usize, Vec<u8>) -> I>(&mut self, make: F) -> (r: Result<
        (),
        TextureError,
    >)
        requires
            old(self).wf(),
            forall|w: usize, h: usize, b: Vec<u8>| make.requires((w, h, b)),
        ensures
            final(self).wf(),
            old(self).pending().len() == 0 ==> {
                &&& r == Ok::<(), TextureError>(())
                &&& final(self).pending() == old(self).pending()
                &&& final(self).textures() == old(self).textures()
            },
            old(self).pending().len() > 0 ==> {
                &&& final(self).pending() == old(self).pending().drop_first()
                &&& update_outcome(
                    old(self).textures(),
                    final(self).textures(),
                    old(self).pending()[0],
                    make,
                    r,
                )
            },
    {
        let ghost t0 = self.textures();
        let next = self.textures_delta.pop_front();
        assert(self.textures() == t0);
        match next {
            Some(delta) => self.update_textures(delta, make),
            None => Ok(()),
        }
    }
}

} // verus!
