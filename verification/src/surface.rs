//! Surface objects and the samplers that they are given.
//!
//! A surface object has no sampler, and a program may sample through one anyway. So a surface object
//! is given one: the sampler of a texture object over the same array, or a plain one if there is no
//! such texture object yet. Either may be made first, so a surface takes the sampler of a texture
//! that is there when it is made, and a texture hands its sampler to the surfaces that are there
//! when it is made.
use crate::error::CuError;
use std::collections::HashMap;
use vstd::prelude::*;

verus! {

/// Where the sampler stands in the page of an object: behind twelve words of image descriptor.
pub const SAMPLER_OFFSET: usize = 48;

/// How many bytes a sampler has.
pub const SAMPLER_BYTES: usize = 16;

/// How many bytes of the page of an object are looked at.
pub const PAGE_BYTES: usize = 64;

/// How many bytes of the page of an object the device reads as the image descriptor.
pub const IMAGE_DESCRIPTOR_BYTES: usize = 32;

/// What a surface object is made over.
#[derive(Clone, Copy, PartialEq, Eq, Structural, Debug)]
pub enum ResourceType {
    Array,
    MipmappedArray,
    Linear,
    Pitch2D,
    /// Another resource, by its number.
    Other(u32),
}

/// The description of a resource, in full: its type, the words that describe it, and its flags.
#[derive(Clone, Copy)]
pub struct ResourceDesc {
    pub res_type: ResourceType,
    pub words: [u32; 32],
    pub flags: u32,
}

/// What the driver is asked to make a surface object over.
#[derive(Clone, Copy, PartialEq, Eq, Structural, Debug)]
pub enum SurfaceTarget {
    /// An array, by its handle.
    Array(usize),
    /// A mipmapped array, by its handle.
    MipmappedArray(usize),
}

/// What happens outside of an image.
#[derive(Clone, Copy, PartialEq, Eq, Structural, Debug)]
pub enum AddressMode {
    Wrap,
    Clamp,
    Mirror,
    Border,
}

/// What happens between the points of an image.
#[derive(Clone, Copy, PartialEq, Eq, Structural, Debug)]
pub enum FilterMode {
    Point,
    Linear,
}

/// How an image is sampled.
#[derive(Clone, Copy, Debug)]
pub struct Sampling {
    pub address_mode: [AddressMode; 3],
    pub filter_mode: FilterMode,
    pub mipmap_filter_mode: FilterMode,
}

/// Something that is worth telling.
pub enum SurfaceReport {
    /// The sampler of a texture object could not be read, so the surfaces over its array keep what
    /// they have.
    TextureUnreadable { texture: usize, array: usize },
    /// The page of a surface object could not be read, so it keeps what it has.
    SurfaceUnreadable { object: usize },
    /// A texture object and a surface object over the same array do not agree on their image
    /// descriptor, so the surface cannot be given a sampler.
    Disagreement {
        texture: usize,
        object: usize,
        array: usize,
        texture_page: [u8; PAGE_BYTES],
        surface_page: [u8; PAGE_BYTES],
    },
    /// A sampler could not be written, for the reason with this number.
    NotWritten { object: usize, code: i32 },
    /// A plain sampler for the surfaces over an array could not be made.
    NoPlainSampler { array: usize },
}

/// Whether two pages describe the same image.
///
/// Only the bytes that the device reads count, and of byte 14 only the high half: the low half
/// holds the access permission, which differs between texture and surface objects.
pub open spec fn same_image(a: Seq<u8>, b: Seq<u8>) -> bool {
    &&& forall|i: int|
        0 <= i < IMAGE_DESCRIPTOR_BYTES && i != 14 ==> #[trigger] a[i] == b[i]
    &&& a[14] & 0xf0 == b[14] & 0xf0
}

/// Whether two objects over the same array describe the same image.
pub fn describes_same_image(a: &[u8; PAGE_BYTES], b: &[u8; PAGE_BYTES]) -> (same: bool)
    ensures
        same == same_image(a@, b@),
{
    if a[14] & 0xf0 != b[14] & 0xf0 {
        return false;
    }
    let mut i: usize = 0;
    while i < IMAGE_DESCRIPTOR_BYTES
        invariant
            i <= IMAGE_DESCRIPTOR_BYTES,
            forall|k: int| 0 <= k < i && k != 14 ==> #[trigger] a@[k] == b@[k],
        decreases IMAGE_DESCRIPTOR_BYTES - i,
    {
        if i != 14 && a[i] != b[i] {
            assert(a@[i as int] != b@[i as int]);
            return false;
        }
        i += 1;
    }
    true
}

/// The sampler in a page.
pub open spec fn sampler_in(page: Seq<u8>) -> Seq<u8> {
    page.subrange(SAMPLER_OFFSET as int, PAGE_BYTES as int)
}

/// The page of an object after `sampler` was written to the place of its sampler.
pub open spec fn with_sampler(page: Seq<u8>, sampler: Seq<u8>) -> Seq<u8> {
    page.subrange(0, SAMPLER_OFFSET as int) + sampler
}

/// The sampler in a page.
fn sampler_of(page: &[u8; PAGE_BYTES]) -> (sampler: [u8; SAMPLER_BYTES])
    ensures
        sampler@ == sampler_in(page@),
{
    let mut sampler: [u8; SAMPLER_BYTES] = [0u8;SAMPLER_BYTES];
    let mut i: usize = 0;
    while i < SAMPLER_BYTES
        invariant
            i <= SAMPLER_BYTES,
            forall|k: int| 0 <= k < i ==> #[trigger] sampler@[k] == page@[SAMPLER_OFFSET + k],
        decreases SAMPLER_BYTES - i,
    {
        sampler[i] = page[SAMPLER_OFFSET + i];
        i += 1;
    }
    assert(sampler@ =~= sampler_in(page@));
    sampler
}

impl ResourceDesc {
    /// The handle of the resource: the first two words, the less significant one first.
    pub open spec fn handle_value(&self) -> usize {
        (self.words@[0] as u64 + self.words@[1] as u64 * 0x1_0000_0000) as usize
    }

    /// The handle of the resource.
    pub fn handle(&self) -> (handle: usize)
        ensures
            handle == self.handle_value(),
    {
        let value: u64 = self.words[0] as u64 + self.words[1] as u64 * 0x1_0000_0000;
        #[verifier::truncate]
        (value as usize)
    }
}

/// Pairs of the handle of a resource and an object over it.
pub type Objects = Seq<(usize, usize)>;

/// Everything that is remembered about the objects that the program has made.
pub struct Registry {
    /// The description that each surface object was made with.
    pub surface_descs: HashMap<usize, ResourceDesc>,
    /// Handle of a resource and surface object over it.
    pub surfaces: Vec<(usize, usize)>,
    /// Handle of a resource and texture object over it.
    pub textures: Vec<(usize, usize)>,
}

/// Whether `object` is among the objects over `array`.
pub open spec fn stands_over(objects: Objects, array: usize, object: usize) -> bool {
    objects.contains((array, object))
}

/// Whether one of the pairs is over `array`.
pub open spec fn any_over(objects: Objects, array: usize) -> bool {
    exists|i: int| 0 <= i < objects.len() && (#[trigger] objects[i]).0 == array
}

/// The first object over `array`.
pub open spec fn first_over(objects: Objects, array: usize) -> Option<usize>
    decreases objects.len(),
{
    if objects.len() == 0 {
        None
    } else if objects[0].0 == array {
        Some(objects[0].1)
    } else {
        first_over(objects.drop_first(), array)
    }
}

/// The pairs without those of `object`.
pub open spec fn forgotten(objects: Objects, object: usize) -> Objects
    decreases objects.len(),
{
    if objects.len() == 0 {
        Seq::empty()
    } else {
        let before = forgotten(objects.drop_last(), object);
        if objects.last().1 == object {
            before
        } else {
            before.push(objects.last())
        }
    }
}

/// Whether the surface object `object` was given the sampler of the texture object with the page
/// `from`, or it was told why not.
pub open spec fn given_sampler<
    O,
    R: Fn(usize) -> Option<[u8; PAGE_BYTES]>,
    W: Fn(O, usize, usize, [u8; SAMPLER_BYTES]) -> (O, Result<(), i32>),
    N: Fn(O, SurfaceReport) -> O,
>(
    read_page: R,
    write: W,
    report: N,
    start: O,
    end: O,
    array: usize,
    texture: usize,
    from: [u8; PAGE_BYTES],
    object: usize,
) -> bool {
    exists|onto: Option<[u8; PAGE_BYTES]>|
        {
            &&& #[trigger] read_page.ensures((object,), onto)
            &&& match onto {
                None => report.ensures((start, SurfaceReport::SurfaceUnreadable { object }), end),
                Some(page) => if same_image(page@, from@) {
                    sampler_written(write, report, start, end, from, object)
                } else {
                    report.ensures(
                        (
                            start,
                            SurfaceReport::Disagreement {
                                texture,
                                object,
                                array,
                                texture_page: from,
                                surface_page: page,
                            },
                        ),
                        end,
                    )
                },
            }
        }
}

/// Whether the sampler in the page `from` was written to the surface object `object`, once, and a
/// failure told.
pub open spec fn sampler_written<
    O,
    W: Fn(O, usize, usize, [u8; SAMPLER_BYTES]) -> (O, Result<(), i32>),
    N: Fn(O, SurfaceReport) -> O,
>(write: W, report: N, start: O, end: O, from: [u8; PAGE_BYTES], object: usize) -> bool {
    exists|sampler: [u8; SAMPLER_BYTES], after: O, written: Result<(), i32>|
        {
            &&& sampler@ == sampler_in(from@)
            &&& #[trigger] write.ensures((start, object, SAMPLER_OFFSET, sampler), (after, written))
            &&& match written {
                Ok(_) => end == after,
                Err(code) => report.ensures(
                    (after, SurfaceReport::NotWritten { object, code }),
                    end,
                ),
            }
        }
}

/// Whether the surface objects over `array` were each given the sampler in the page `from`, in the
/// order of the list and once for each time it stands there. The states of the outside form a chain.
pub open spec fn handed_out<
    O,
    R: Fn(usize) -> Option<[u8; PAGE_BYTES]>,
    W: Fn(O, usize, usize, [u8; SAMPLER_BYTES]) -> (O, Result<(), i32>),
    N: Fn(O, SurfaceReport) -> O,
>(
    read_page: R,
    write: W,
    report: N,
    chain: Seq<O>,
    surfaces: Objects,
    array: usize,
    texture: usize,
    from: [u8; PAGE_BYTES],
) -> bool {
    &&& chain.len() == surfaces.len() + 1
    &&& forall|i: int|
        #![trigger surfaces[i]]
        0 <= i < surfaces.len() ==> if surfaces[i].0 == array {
            given_sampler(
                read_page,
                write,
                report,
                chain[i],
                chain[i + 1],
                array,
                texture,
                from,
                surfaces[i].1,
            )
        } else {
            chain[i + 1] == chain[i]
        }
}

/// Whether the sampler of `texture` was put onto every surface object over `array`, or it was told
/// why not.
pub open spec fn adopted<
    O,
    R: Fn(usize) -> Option<[u8; PAGE_BYTES]>,
    W: Fn(O, usize, usize, [u8; SAMPLER_BYTES]) -> (O, Result<(), i32>),
    N: Fn(O, SurfaceReport) -> O,
>(
    read_page: R,
    write: W,
    report: N,
    start: O,
    end: O,
    surfaces: Objects,
    array: usize,
    texture: usize,
) -> bool {
    if array != 0 && texture != 0 && (exists|object: usize| #[trigger]
        stands_over(surfaces, array, object)) {
        exists|from: Option<[u8; PAGE_BYTES]>|
            {
                &&& #[trigger] read_page.ensures((texture,), from)
                &&& match from {
                    None => report.ensures(
                        (start, SurfaceReport::TextureUnreadable { texture, array }),
                        end,
                    ),
                    Some(page) => all_given(
                        read_page,
                        write,
                        report,
                        start,
                        end,
                        surfaces,
                        array,
                        texture,
                        page,
                    ),
                }
            }
    } else {
        end == start
    }
}

/// Whether the surface objects over `array` were each given the sampler in the page `from`, and the
/// outside went from `start` to `end`.
pub open spec fn all_given<
    O,
    R: Fn(usize) -> Option<[u8; PAGE_BYTES]>,
    W: Fn(O, usize, usize, [u8; SAMPLER_BYTES]) -> (O, Result<(), i32>),
    N: Fn(O, SurfaceReport) -> O,
>(
    read_page: R,
    write: W,
    report: N,
    start: O,
    end: O,
    surfaces: Objects,
    array: usize,
    texture: usize,
    from: [u8; PAGE_BYTES],
) -> bool {
    exists|chain: Seq<O>|
        {
            &&& #[trigger] handed_out(
                read_page,
                write,
                report,
                chain,
                surfaces,
                array,
                texture,
                from,
            )
            &&& chain[0] == start
            &&& chain.last() == end
        }
}

/// Whether a surface object may be given the sampler of the texture object with the page `from`: its
/// page may be read, a sampler written where the two describe the same image, and only what happened
/// told.
pub open spec fn may_give_sampler<
    O,
    R: Fn(usize) -> Option<[u8; PAGE_BYTES]>,
    W: Fn(O, usize, usize, [u8; SAMPLER_BYTES]) -> (O, Result<(), i32>),
    N: Fn(O, SurfaceReport) -> O,
>(
    read_page: R,
    write: W,
    report: N,
    array: usize,
    texture: usize,
    from: [u8; PAGE_BYTES],
    object: usize,
) -> bool {
    &&& read_page.requires((object,))
    &&& read_page.ensures((object,), None::<[u8; PAGE_BYTES]>) ==> forall|start: O| #[trigger]
        report.requires((start, SurfaceReport::SurfaceUnreadable { object }))
    &&& forall|onto: [u8; PAGE_BYTES], sampler: [u8; SAMPLER_BYTES], start: O|
        read_page.ensures((object,), Some(onto)) && #[trigger] same_image(onto@, from@) && sampler@
            == sampler_in(from@) ==> #[trigger] write.requires(
            (start, object, SAMPLER_OFFSET, sampler),
        )
    &&& forall|sampler: [u8; SAMPLER_BYTES], code: i32, start: O, after: O|
        sampler@ == sampler_in(from@) && #[trigger] write.ensures(
            (start, object, SAMPLER_OFFSET, sampler),
            (after, Err::<(), i32>(code)),
        ) ==> report.requires((after, SurfaceReport::NotWritten { object, code }))
    &&& forall|onto: [u8; PAGE_BYTES], start: O|
        read_page.ensures((object,), Some(onto)) && !same_image(onto@, from@) ==> #[trigger]
        report.requires(
            (
                start,
                SurfaceReport::Disagreement {
                    texture,
                    object,
                    array,
                    texture_page: from,
                    surface_page: onto,
                },
            ),
        )
}

/// Whether the sampler of a texture may be put onto the surfaces over `array`. Without an array, a
/// texture or a surface nothing may be read or written.
pub open spec fn may_adopt<
    O,
    R: Fn(usize) -> Option<[u8; PAGE_BYTES]>,
    W: Fn(O, usize, usize, [u8; SAMPLER_BYTES]) -> (O, Result<(), i32>),
    N: Fn(O, SurfaceReport) -> O,
>(
    read_page: R,
    write: W,
    report: N,
    surfaces: Objects,
    array: usize,
    texture: usize,
) -> bool {
    array != 0 && texture != 0 && (exists|object: usize| #[trigger]
        stands_over(surfaces, array, object)) ==> {
        &&& read_page.requires((texture,))
        &&& read_page.ensures((texture,), None::<[u8; PAGE_BYTES]>) ==> forall|start: O| #[trigger]
            report.requires((start, SurfaceReport::TextureUnreadable { texture, array }))
        &&& forall|from: [u8; PAGE_BYTES], object: usize| #[trigger]
            read_page.ensures((texture,), Some(from)) && #[trigger] stands_over(
                surfaces,
                array,
                object,
            ) ==> may_give_sampler(read_page, write, report, array, texture, from, object)
    }
}

/// Whether the surfaces over `array` may be given a plain sampler: a texture object may be made, its
/// sampler taken, and the object released once it was taken.
pub open spec fn may_give_plain<
    O,
    R: Fn(usize) -> Option<[u8; PAGE_BYTES]>,
    W: Fn(O, usize, usize, [u8; SAMPLER_BYTES]) -> (O, Result<(), i32>),
    M: FnOnce(ResourceDesc, Sampling) -> Option<usize>,
    X: FnOnce(usize),
    N: Fn(O, SurfaceReport) -> O,
>(
    read_page: R,
    write: W,
    make_texture: M,
    release_texture: X,
    report: N,
    surfaces: Objects,
    desc: ResourceDesc,
    array: usize,
) -> bool {
    &&& forall|sampling: Sampling|
        is_plain(sampling) ==> #[trigger] make_texture.requires((desc, sampling))
    &&& forall|sampling: Sampling, start: O|
        is_plain(sampling) && #[trigger] make_texture.ensures((desc, sampling), None::<usize>)
            ==> #[trigger] report.requires((start, SurfaceReport::NoPlainSampler { array }))
    &&& forall|sampling: Sampling, texture: usize|
        is_plain(sampling) && #[trigger] make_texture.ensures((desc, sampling), Some(texture))
            ==> may_adopt(read_page, write, report, surfaces, array, texture)
    &&& forall|sampling: Sampling, texture: usize, start: O, end: O|
        is_plain(sampling) && #[trigger] make_texture.ensures((desc, sampling), Some(texture)) && (
        #[trigger] adopted(
            read_page,
            write,
            report,
            start,
            end,
            surfaces,
            array,
            texture,
        )) ==> release_texture.requires((texture,))
}

/// Whether a surface object that was made over a resource may be given a sampler: that of the first
/// texture over the same resource, and a plain one only where there is no such texture.
pub open spec fn may_settle<
    O,
    R: Fn(usize) -> Option<[u8; PAGE_BYTES]>,
    W: Fn(O, usize, usize, [u8; SAMPLER_BYTES]) -> (O, Result<(), i32>),
    M: FnOnce(ResourceDesc, Sampling) -> Option<usize>,
    X: FnOnce(usize),
    N: Fn(O, SurfaceReport) -> O,
>(
    read_page: R,
    write: W,
    make_texture: M,
    release_texture: X,
    report: N,
    surfaces: Objects,
    textures: Objects,
    desc: ResourceDesc,
) -> bool {
    match first_over(textures, desc.handle_value()) {
        Some(texture) => may_adopt(
            read_page,
            write,
            report,
            surfaces,
            desc.handle_value(),
            texture,
        ),
        None => may_give_plain(
            read_page,
            write,
            make_texture,
            release_texture,
            report,
            surfaces,
            desc,
            desc.handle_value(),
        ),
    }
}

/// Whether a surface object that was made over a resource was given a sampler: that of the first
/// texture over the same resource, or a plain one where there is no such texture.
pub open spec fn settled<
    O,
    R: Fn(usize) -> Option<[u8; PAGE_BYTES]>,
    W: Fn(O, usize, usize, [u8; SAMPLER_BYTES]) -> (O, Result<(), i32>),
    M: FnOnce(ResourceDesc, Sampling) -> Option<usize>,
    X: FnOnce(usize),
    N: Fn(O, SurfaceReport) -> O,
>(
    read_page: R,
    write: W,
    make_texture: M,
    release_texture: X,
    report: N,
    start: O,
    end: O,
    surfaces: Objects,
    textures: Objects,
    desc: ResourceDesc,
) -> bool {
    match first_over(textures, desc.handle_value()) {
        Some(texture) => adopted(
            read_page,
            write,
            report,
            start,
            end,
            surfaces,
            desc.handle_value(),
            texture,
        ),
        None => given_plain_sampler(
            read_page,
            write,
            make_texture,
            release_texture,
            report,
            start,
            end,
            surfaces,
            desc,
            desc.handle_value(),
        ),
    }
}

/// Whether making a surface object led from the registry `before` to `after`.
pub open spec fn surface_made<
    O,
    R: Fn(usize) -> Option<[u8; PAGE_BYTES]>,
    W: Fn(O, usize, usize, [u8; SAMPLER_BYTES]) -> (O, Result<(), i32>),
    M: FnOnce(ResourceDesc, Sampling) -> Option<usize>,
    X: FnOnce(usize),
    N: Fn(O, SurfaceReport) -> O,
>(
    read_page: R,
    write: W,
    make_texture: M,
    release_texture: X,
    report: N,
    start: O,
    end: O,
    before: Registry,
    after: Registry,
    desc: ResourceDesc,
    object: usize,
) -> bool {
    &&& after.surface_descs@ == before.surface_descs@.insert(object, desc)
    &&& after.surfaces@ == before.surfaces@.push((desc.handle_value(), object))
    &&& after.textures@ == before.textures@
    &&& settled(
        read_page,
        write,
        make_texture,
        release_texture,
        report,
        start,
        end,
        after.surfaces@,
        after.textures@,
        desc,
    )
}

/// Whether a texture object was remembered.
pub open spec fn texture_registered(
    before: Registry,
    after: Registry,
    array: usize,
    texture: usize,
) -> bool {
    &&& after.surface_descs@ == before.surface_descs@
    &&& after.surfaces@ == before.surfaces@
    &&& after.textures@ == if array == 0 || texture == 0 {
        before.textures@
    } else {
        before.textures@.push((array, texture))
    }
}

/// Whether a surface object was forgotten.
pub open spec fn surface_forgotten(before: Registry, after: Registry, object: usize) -> bool {
    &&& after.surface_descs@ == before.surface_descs@.remove(object)
    &&& after.surfaces@ == forgotten(before.surfaces@, object)
    &&& after.textures@ == before.textures@
}

impl Registry {
    /// A registry that remembers nothing.
    pub fn new() -> (registry: Self)
        ensures
            registry.surface_descs@ == Map::<usize, ResourceDesc>::empty(),
            registry.surfaces@ == Seq::<(usize, usize)>::empty(),
            registry.textures@ == Seq::<(usize, usize)>::empty(),
    {
        Registry { surface_descs: HashMap::new(), surfaces: Vec::new(), textures: Vec::new() }
    }

    /// Puts the sampler of a texture object onto every surface object over the same array. No other
    /// object is written.
    ///
    /// `read_page` reads the start of the page of an object, and `write` writes a sampler to an
    /// offset into the page of an object. `outside` is whatever `write` and `report` work on; it is
    /// handed from one call of them to the next, and given back at the end.
    pub fn adopt_sampler<
        O,
        R: Fn(usize) -> Option<[u8; PAGE_BYTES]>,
        W: Fn(O, usize, usize, [u8; SAMPLER_BYTES]) -> (O, Result<(), i32>),
        N: Fn(O, SurfaceReport) -> O,
    >(
        &self,
        array: usize,
        texture: usize,
        read_page: &R,
        write: &W,
        outside: O,
        report: &N,
    ) -> (end: O)
        requires
            may_adopt(*read_page, *write, *report, self.surfaces@, array, texture),
        ensures
            adopted(
                *read_page,
                *write,
                *report,
                outside,
                end,
                self.surfaces@,
                array,
                texture,
            ),
    {
        if array == 0 || texture == 0 || !self.has_surface_over(array) {
            return outside;
        }
        let from = match read_page(texture) {
            Some(page) => page,
            None => {
                assert(read_page.ensures((texture,), None::<[u8; PAGE_BYTES]>));
                return report(outside, SurfaceReport::TextureUnreadable { texture, array });
            },
        };
        assert(read_page.ensures((texture,), Some(from)));
        let mut current = outside;
        let ghost mut chain: Seq<O> = seq![current];
        let mut i: usize = 0;
        while i < self.surfaces.len()
            invariant
                i <= self.surfaces@.len(),
                forall|object: usize| #[trigger]
                    stands_over(self.surfaces@, array, object) ==> may_give_sampler(
                        *read_page,
                        *write,
                        *report,
                        array,
                        texture,
                        from,
                        object,
                    ),
                handed_out(
                    *read_page,
                    *write,
                    *report,
                    chain,
                    self.surfaces@.take(i as int),
                    array,
                    texture,
                    from,
                ),
                chain[0] == outside,
                chain.last() == current,
            decreases self.surfaces@.len() - i,
        {
            let ghost links = chain;
            let ghost passed = self.surfaces@.take(i as int);
            if self.surfaces[i].0 == array {
                let object: usize = self.surfaces[i].1;
                assert(self.surfaces@[i as int] == (array, object));
                assert(stands_over(self.surfaces@, array, object));
                current = give_sampler(
                    array,
                    texture,
                    &from,
                    object,
                    read_page,
                    write,
                    current,
                    report,
                );
            }
            i += 1;
            proof {
                chain = links.push(current);
                let now = self.surfaces@.take(i as int);
                assert forall|k: int| #![trigger now[k]] 0 <= k < now.len() implies if now[k].0
                    == array {
                    given_sampler(
                        *read_page,
                        *write,
                        *report,
                        chain[k],
                        chain[k + 1],
                        array,
                        texture,
                        from,
                        now[k].1,
                    )
                } else {
                    chain[k + 1] == chain[k]
                } by {
                    if k < passed.len() {
                        assert(now[k] == passed[k]);
                        assert(chain[k] == links[k]);
                        assert(chain[k + 1] == links[k + 1]);
                    }
                }
            }
        }
        assert(self.surfaces@.take(i as int) =~= self.surfaces@);
        assert(all_given(
            *read_page,
            *write,
            *report,
            outside,
            current,
            self.surfaces@,
            array,
            texture,
            from,
        ));
        current
    }

    /// Whether there is a surface object over `array`.
    pub fn has_surface_over(&self, array: usize) -> (found: bool)
        ensures
            found == exists|object: usize| #[trigger] stands_over(self.surfaces@, array, object),
            found == any_over(self.surfaces@, array),
    {
        let mut i: usize = 0;
        while i < self.surfaces.len()
            invariant
                i <= self.surfaces@.len(),
                forall|k: int| 0 <= k < i ==> (#[trigger] self.surfaces@[k]).0 != array,
            decreases self.surfaces@.len() - i,
        {
            if self.surfaces[i].0 == array {
                assert(self.surfaces@[i as int] == (array, self.surfaces@[i as int].1));
                assert(stands_over(self.surfaces@, array, self.surfaces@[i as int].1));
                return true;
            }
            i += 1;
        }
        false
    }

    /// Remembers a texture object, so that surfaces made later can take its sampler.
    pub fn register_texture(&mut self, array: usize, texture: usize)
        ensures
            texture_registered(*old(self), *final(self), array, texture),
    {
        if array == 0 || texture == 0 {
            return;
        }
        self.textures.push((array, texture));
    }

    /// Forgets a texture object.
    pub fn unregister_texture(&mut self, texture: usize)
        ensures
            final(self).surface_descs@ == old(self).surface_descs@,
            final(self).surfaces@ == old(self).surfaces@,
            final(self).textures@ == forgotten(old(self).textures@, texture),
    {
        self.textures = forget(&self.textures, texture);
    }

    /// The first texture object over `array`.
    pub fn texture_over(&self, array: usize) -> (texture: Option<usize>)
        ensures
            texture == first_over(self.textures@, array),
    {
        let mut i: usize = 0;
        assert(self.textures@.skip(0) =~= self.textures@);
        while i < self.textures.len()
            invariant
                i <= self.textures@.len(),
                first_over(self.textures@, array) == first_over(
                    self.textures@.skip(i as int),
                    array,
                ),
            decreases self.textures@.len() - i,
        {
            assert(self.textures@.skip(i as int).drop_first() =~= self.textures@.skip(i + 1));
            if self.textures[i].0 == array {
                return Some(self.textures[i].1);
            }
            i += 1;
        }
        None
    }

    /// Gives the surfaces over `array` a plain sampler, which the driver makes itself: a throwaway
    /// texture object over the same resource is made, its sampler taken, and the object released.
    fn give_plain_sampler<
        O,
        R: Fn(usize) -> Option<[u8; PAGE_BYTES]>,
        W: Fn(O, usize, usize, [u8; SAMPLER_BYTES]) -> (O, Result<(), i32>),
        M: FnOnce(ResourceDesc, Sampling) -> Option<usize>,
        X: FnOnce(usize),
        N: Fn(O, SurfaceReport) -> O,
    >(
        &self,
        desc: &ResourceDesc,
        array: usize,
        read_page: &R,
        write: &W,
        make_texture: M,
        release_texture: X,
        outside: O,
        report: &N,
    ) -> (end: O)
        requires
            may_give_plain(
                *read_page,
                *write,
                make_texture,
                release_texture,
                *report,
                self.surfaces@,
                *desc,
                array,
            ),
        ensures
            given_plain_sampler(
                *read_page,
                *write,
                make_texture,
                release_texture,
                *report,
                outside,
                end,
                self.surfaces@,
                *desc,
                array,
            ),
    {
        let sampling = plain_sampling();
        let made = make_texture(*desc, sampling);
        assert(make_texture.ensures((*desc, sampling), made));
        match made {
            None => report(outside, SurfaceReport::NoPlainSampler { array }),
            Some(texture) => {
                let end = self.adopt_sampler(array, texture, read_page, write, outside, report);
                assert(adopted(
                    *read_page,
                    *write,
                    *report,
                    outside,
                    end,
                    self.surfaces@,
                    array,
                    texture,
                ));
                // The sampler was copied, so the object that it came from may go.
                release_texture(texture);
                end
            },
        }
    }

    /// Makes a surface object over an array and gives it a sampler.
    ///
    /// `create` asks the driver for the object; `make_texture` and `release_texture` make and
    /// release the texture object that a plain sampler comes from.
    pub fn object_create<
        O,
        K: FnOnce(SurfaceTarget) -> Result<usize, CuError>,
        R: Fn(usize) -> Option<[u8; PAGE_BYTES]>,
        W: Fn(O, usize, usize, [u8; SAMPLER_BYTES]) -> (O, Result<(), i32>),
        M: FnOnce(ResourceDesc, Sampling) -> Option<usize>,
        X: FnOnce(usize),
        N: Fn(O, SurfaceReport) -> O,
    >(
        &mut self,
        desc: Option<ResourceDesc>,
        create: K,
        read_page: &R,
        write: &W,
        make_texture: M,
        release_texture: X,
        outside: O,
        report: &N,
    ) -> (end: (O, Result<usize, CuError>))
        requires
            forall|target: SurfaceTarget|
                (desc matches Some(resource) && surface_target(resource) == Some(target))
                    ==> #[trigger] create.requires((target,)),
            forall|target: SurfaceTarget, object: usize|
                (desc matches Some(resource) && surface_target(resource) == Some(target))
                    && #[trigger] create.ensures((target,), Ok::<usize, CuError>(object))
                    ==> may_settle(
                    *read_page,
                    *write,
                    make_texture,
                    release_texture,
                    *report,
                    old(self).surfaces@.push((desc->Some_0.handle_value(), object)),
                    old(self).textures@,
                    desc->Some_0,
                ),
        ensures
            match desc {
                None => end.1 == Err::<usize, CuError>(CuError::InvalidValue) && end.0 == outside
                    && same_registry(*old(self), *final(self)),
                Some(resource) => match surface_target(resource) {
                    None => end.1 == Err::<usize, CuError>(CuError::NotSupported) && end.0
                        == outside && same_registry(*old(self), *final(self)),
                    Some(target) => {
                        &&& create.ensures((target,), end.1)
                        &&& match end.1 {
                            Err(_) => end.0 == outside && same_registry(*old(self), *final(self)),
                            Ok(object) => surface_made(
                                *read_page,
                                *write,
                                make_texture,
                                release_texture,
                                *report,
                                outside,
                                end.0,
                                *old(self),
                                *final(self),
                                resource,
                                object,
                            ),
                        }
                    },
                },
            },
    {
        broadcast use vstd::std_specs::hash::group_hash_axioms;

        let resource = match desc {
            Some(resource) => resource,
            None => {
                return (outside, Err(CuError::InvalidValue));
            },
        };
        let array: usize = resource.handle();
        let target = match resource.res_type {
            ResourceType::Array => SurfaceTarget::Array(array),
            ResourceType::MipmappedArray => SurfaceTarget::MipmappedArray(array),
            _ => {
                return (outside, Err(CuError::NotSupported));
            },
        };
        let object: usize = match create(target) {
            Ok(object) => object,
            Err(error) => {
                return (outside, Err(error));
            },
        };
        self.surface_descs.insert(object, resource);
        self.surfaces.push((array, object));
        assert(may_settle(
            *read_page,
            *write,
            make_texture,
            release_texture,
            *report,
            self.surfaces@,
            self.textures@,
            resource,
        ));
        let settled = match self.texture_over(array) {
            Some(texture) => self.adopt_sampler(
                array,
                texture,
                read_page,
                write,
                outside,
                report,
            ),
            None => self.give_plain_sampler(
                &resource,
                array,
                read_page,
                write,
                make_texture,
                release_texture,
                outside,
                report,
            ),
        };
        (settled, Ok(object))
    }

    /// The description that a surface object was made with.
    pub fn object_get_resource_desc(&self, object: usize) -> (desc: Result<ResourceDesc, CuError>)
        ensures
            desc == if self.surface_descs@.dom().contains(object) {
                Ok::<ResourceDesc, CuError>(self.surface_descs@[object])
            } else {
                Err(CuError::InvalidValue)
            },
    {
        broadcast use vstd::std_specs::hash::group_hash_axioms;

        match self.surface_descs.get(&object) {
            Some(desc) => Ok(*desc),
            None => Err(CuError::InvalidValue),
        }
    }

    /// Destroys a surface object, which `destroy` asks of the driver. It is forgotten first, so that
    /// nothing is written to a page that is about to be freed: `destroy` is shown the registry
    /// without it.
    pub fn object_destroy<K: FnOnce(&Registry, usize) -> Result<(), CuError>>(
        &mut self,
        object: usize,
        destroy: K,
    ) -> (r: Result<(), CuError>)
        requires
            forall|registry: &Registry|
                surface_forgotten(*old(self), *registry, object) ==> #[trigger] destroy.requires(
                    (registry, object),
                ),
        ensures
            surface_forgotten(*old(self), *final(self), object),
            exists|registry: &Registry|
                surface_forgotten(*old(self), *registry, object) && #[trigger] destroy.ensures(
                    (registry, object),
                    r,
                ),
    {
        broadcast use vstd::std_specs::hash::group_hash_axioms;

        self.surfaces = forget(&self.surfaces, object);
        self.surface_descs.remove(&object);
        let registry: &Registry = self;
        let r = destroy(registry, object);
        assert(destroy.ensures((registry, object), r));
        r
    }
}

/// What the driver is asked to make a surface object over. Only arrays can be.
pub open spec fn surface_target(desc: ResourceDesc) -> Option<SurfaceTarget> {
    match desc.res_type {
        ResourceType::Array => Some(SurfaceTarget::Array(desc.handle_value())),
        ResourceType::MipmappedArray => Some(SurfaceTarget::MipmappedArray(desc.handle_value())),
        _ => None,
    }
}

/// Whether two registries remember the same.
pub open spec fn same_registry(a: Registry, b: Registry) -> bool {
    &&& a.surface_descs@ == b.surface_descs@
    &&& a.surfaces@ == b.surfaces@
    &&& a.textures@ == b.textures@
}

/// Whether a sampling is the plain one: points only, clamped to the edge.
pub open spec fn is_plain(sampling: Sampling) -> bool {
    &&& forall|i: int|
        0 <= i < 3 ==> #[trigger] sampling.address_mode@[i] == AddressMode::Clamp
    &&& sampling.filter_mode == FilterMode::Point
    &&& sampling.mipmap_filter_mode == FilterMode::Point
}

/// The plain sampling: points only, clamped to the edge.
pub fn plain_sampling() -> (sampling: Sampling)
    ensures
        is_plain(sampling),
{
    Sampling {
        address_mode: [AddressMode::Clamp;3],
        filter_mode: FilterMode::Point,
        mipmap_filter_mode: FilterMode::Point,
    }
}

/// Whether the surfaces over `array` were given a plain sampler, or it was told why not.
pub open spec fn given_plain_sampler<
    O,
    R: Fn(usize) -> Option<[u8; PAGE_BYTES]>,
    W: Fn(O, usize, usize, [u8; SAMPLER_BYTES]) -> (O, Result<(), i32>),
    M: FnOnce(ResourceDesc, Sampling) -> Option<usize>,
    X: FnOnce(usize),
    N: Fn(O, SurfaceReport) -> O,
>(
    read_page: R,
    write: W,
    make_texture: M,
    release_texture: X,
    report: N,
    start: O,
    end: O,
    surfaces: Objects,
    desc: ResourceDesc,
    array: usize,
) -> bool {
    exists|sampling: Sampling, made: Option<usize>|
        {
            &&& is_plain(sampling)
            &&& #[trigger] make_texture.ensures((desc, sampling), made)
            &&& match made {
                None => report.ensures((start, SurfaceReport::NoPlainSampler { array }), end),
                Some(texture) => {
                    &&& adopted(read_page, write, report, start, end, surfaces, array, texture)
                    &&& release_texture.ensures((texture,), ())
                },
            }
        }
}

/// The pairs without those of `object`.
fn forget(objects: &Vec<(usize, usize)>, object: usize) -> (kept: Vec<(usize, usize)>)
    ensures
        kept@ == forgotten(objects@, object),
{
    let mut kept: Vec<(usize, usize)> = Vec::new();
    let mut i: usize = 0;
    while i < objects.len()
        invariant
            i <= objects@.len(),
            kept@ == forgotten(objects@.take(i as int), object),
        decreases objects@.len() - i,
    {
        assert(objects@.take(i + 1).drop_last() =~= objects@.take(i as int));
        if objects[i].1 != object {
            kept.push(objects[i]);
        }
        i += 1;
    }
    assert(objects@.take(i as int) =~= objects@);
    kept
}

/// Gives a surface object the sampler of a texture object, if the two describe the same image.
fn give_sampler<
    O,
    R: Fn(usize) -> Option<[u8; PAGE_BYTES]>,
    W: Fn(O, usize, usize, [u8; SAMPLER_BYTES]) -> (O, Result<(), i32>),
    N: Fn(O, SurfaceReport) -> O,
>(
    array: usize,
    texture: usize,
    from: &[u8; PAGE_BYTES],
    object: usize,
    read_page: &R,
    write: &W,
    outside: O,
    report: &N,
) -> (end: O)
    requires
        may_give_sampler(*read_page, *write, *report, array, texture, *from, object),
    ensures
        given_sampler(
            *read_page,
            *write,
            *report,
            outside,
            end,
            array,
            texture,
            *from,
            object,
        ),
{
    match read_page(object) {
        None => {
            assert(read_page.ensures((object,), None::<[u8; PAGE_BYTES]>));
            report(outside, SurfaceReport::SurfaceUnreadable { object })
        },
        Some(onto) => {
            assert(read_page.ensures((object,), Some(onto)));
            if !describes_same_image(&onto, from) {
                return report(
                    outside,
                    SurfaceReport::Disagreement {
                        texture,
                        object,
                        array,
                        texture_page: *from,
                        surface_page: onto,
                    },
                );
            }
            let sampler = sampler_of(from);
            assert(same_image(onto@, from@));
            let (after, written) = write(outside, object, SAMPLER_OFFSET, sampler);
            assert(write.ensures((outside, object, SAMPLER_OFFSET, sampler), (after, written)));
            let end = match written {
                Ok(_) => after,
                Err(code) => report(after, SurfaceReport::NotWritten { object, code }),
            };
            assert(sampler_written(*write, *report, outside, end, *from, object));
            end
        },
    }
}

/// A surface object that took the sampler of a texture object has that sampler, keeps its image
/// descriptor, and still describes the same image.
pub proof fn sampler_is_taken_over(page: Seq<u8>, from: Seq<u8>)
    requires
        page.len() == PAGE_BYTES,
        from.len() == PAGE_BYTES,
        same_image(page, from),
    ensures
        with_sampler(page, sampler_in(from)).len() == PAGE_BYTES,
        sampler_in(with_sampler(page, sampler_in(from))) == sampler_in(from),
        with_sampler(page, sampler_in(from)).take(SAMPLER_OFFSET as int) == page.take(
            SAMPLER_OFFSET as int,
        ),
        same_image(with_sampler(page, sampler_in(from)), from),
{
    let after = with_sampler(page, sampler_in(from));
    assert(sampler_in(after) =~= sampler_in(from));
    assert(after.take(SAMPLER_OFFSET as int) =~= page.take(SAMPLER_OFFSET as int));
    assert forall|i: int| 0 <= i < IMAGE_DESCRIPTOR_BYTES implies after[i] == page[i] by {}
}

/// A sampler that is taken over later replaces an earlier one without a trace: a surface that
/// started with a plain sampler ends as if it had had the real one from the start.
pub proof fn later_sampler_replaces_the_earlier(page: Seq<u8>, earlier: Seq<u8>, later: Seq<u8>)
    requires
        page.len() == PAGE_BYTES,
        earlier.len() == SAMPLER_BYTES,
        later.len() == SAMPLER_BYTES,
    ensures
        with_sampler(with_sampler(page, earlier), later) == with_sampler(page, later),
{
    assert(with_sampler(with_sampler(page, earlier), later) =~= with_sampler(page, later));
}

/// What is there after an object was forgotten: everything but that object.
pub proof fn forgotten_object_is_gone(objects: Objects, gone: usize, array: usize, object: usize)
    ensures
        stands_over(forgotten(objects, gone), array, object) == (object != gone && stands_over(
            objects,
            array,
            object,
        )),
    decreases objects.len(),
{
    if objects.len() > 0 {
        forgotten_object_is_gone(objects.drop_last(), gone, array, object);
        let before = forgotten(objects.drop_last(), gone);
        let pair = (array, object);
        if stands_over(objects.drop_last(), array, object) {
            let k = choose|k: int| 0 <= k < objects.len() - 1 && objects.drop_last()[k] == pair;
            assert(objects[k] == pair);
        }
        if stands_over(objects, array, object) && objects.last() != pair {
            let k = choose|k: int| 0 <= k < objects.len() && objects[k] == pair;
            assert(objects.drop_last()[k] == pair);
        }
        if objects.last().1 != gone {
            let after = before.push(objects.last());
            if stands_over(before, array, object) {
                let k = choose|k: int| 0 <= k < before.len() && before[k] == pair;
                assert(after[k] == pair);
            }
            if stands_over(after, array, object) && objects.last() != pair {
                let k = choose|k: int| 0 <= k < after.len() && after[k] == pair;
                assert(before[k] == pair);
            }
            if objects.last() == pair {
                assert(after[before.len() as int] == pair);
            }
        }
        if objects.last() == pair {
            assert(objects[objects.len() - 1] == pair);
        }
    }
}

/// The first object over an array is one of the objects over it, and there is one if there is any.
pub proof fn first_object_stands_over_its_array(objects: Objects, array: usize)
    ensures
        match first_over(objects, array) {
            Some(object) => stands_over(objects, array, object),
            None => forall|object: usize| !#[trigger] stands_over(objects, array, object),
        },
    decreases objects.len(),
{
    if objects.len() > 0 {
        let rest = objects.drop_first();
        first_object_stands_over_its_array(rest, array);
        if objects[0].0 == array {
            assert(objects[0] == (array, objects[0].1));
        } else {
            match first_over(objects, array) {
                Some(object) => {
                    let k = choose|k: int| 0 <= k < rest.len() && rest[k] == (array, object);
                    assert(objects[k + 1] == (array, object));
                },
                None => {
                    assert forall|object: usize| !#[trigger] stands_over(
                        objects,
                        array,
                        object,
                    ) by {
                        if stands_over(objects, array, object) {
                            let k = choose|k: int|
                                0 <= k < objects.len() && objects[k] == (array, object);
                            assert(rest[k - 1] == (array, object));
                            assert(stands_over(rest, array, object));
                        }
                    }
                },
            }
        }
    }
}

/// A surface object is reached by a texture object over the same array in either order.
///
/// A surface that is there when a texture hands its sampler out is among those that get it. A
/// texture that is there when a surface is made is found for it, unless there is an earlier one
/// over the same array.
pub proof fn either_order_reaches_the_surface(
    surfaces: Objects,
    textures: Objects,
    array: usize,
    object: usize,
    texture: usize,
)
    ensures
        stands_over(surfaces.push((array, object)), array, object),
        first_over(textures.push((array, texture)), array) == match first_over(textures, array) {
            Some(earlier) => Some(earlier),
            None => Some(texture),
        },
    decreases textures.len(),
{
    let after = surfaces.push((array, object));
    assert(after[surfaces.len() as int] == (array, object));
    let pushed = textures.push((array, texture));
    if textures.len() > 0 {
        assert(pushed.drop_first() =~= textures.drop_first().push((array, texture)));
        either_order_reaches_the_surface(
            surfaces,
            textures.drop_first(),
            array,
            object,
            texture,
        );
    } else {
        assert(pushed[0] == (array, texture));
    }
}

/// Whether descriptions are kept of exactly the surface objects that stand over some array.
pub open spec fn described(descs: Map<usize, ResourceDesc>, surfaces: Objects) -> bool {
    forall|object: usize| #[trigger]
        descs.dom().contains(object) == exists|array: usize| #[trigger]
            stands_over(surfaces, array, object)
}

/// Making and destroying surface objects keeps a description of each one that is there, and of no
/// other.
pub proof fn surfaces_stay_described(
    descs: Map<usize, ResourceDesc>,
    surfaces: Objects,
    array: usize,
    object: usize,
    desc: ResourceDesc,
)
    requires
        described(descs, surfaces),
    ensures
        described(descs.insert(object, desc), surfaces.push((array, object))),
        described(descs.remove(object), forgotten(surfaces, object)),
{
    let more = surfaces.push((array, object));
    assert forall|o: usize| #[trigger] descs.insert(object, desc).dom().contains(o) == exists|
        a: usize,
    | #[trigger] stands_over(more, a, o) by {
        if o == object {
            assert(more[surfaces.len() as int] == (array, object));
            assert(stands_over(more, array, object));
        } else {
            assert(descs.dom().contains(o) == exists|a: usize| #[trigger] stands_over(surfaces, a, o));
            assert forall|a: usize| #[trigger] stands_over(more, a, o) == stands_over(
                surfaces,
                a,
                o,
            ) by {
                if stands_over(surfaces, a, o) {
                    let k = choose|k: int| 0 <= k < surfaces.len() && surfaces[k] == (a, o);
                    assert(more[k] == (a, o));
                }
                if stands_over(more, a, o) {
                    let k = choose|k: int| 0 <= k < more.len() && more[k] == (a, o);
                    assert(surfaces[k] == (a, o));
                }
            }
            if descs.dom().contains(o) {
                let a = choose|a: usize| #[trigger] stands_over(surfaces, a, o);
                assert(stands_over(more, a, o));
            }
        }
    }
    let fewer = forgotten(surfaces, object);
    assert forall|o: usize| #[trigger] descs.remove(object).dom().contains(o) == exists|
        a: usize,
    | #[trigger] stands_over(fewer, a, o) by {
        assert forall|a: usize| #[trigger] stands_over(fewer, a, o) == (o != object && stands_over(
            surfaces,
            a,
            o,
        )) by {
            forgotten_object_is_gone(surfaces, object, a, o);
        }
        assert(descs.dom().contains(o) == exists|a: usize| #[trigger] stands_over(surfaces, a, o));
        if o != object && descs.dom().contains(o) {
            let a = choose|a: usize| #[trigger] stands_over(surfaces, a, o);
            assert(stands_over(fewer, a, o));
        }
    }
}

/// Whether the surface object `object` took the sampler of `texture`, or it was told why not.
pub open spec fn took_sampler_of<
    O,
    R: Fn(usize) -> Option<[u8; PAGE_BYTES]>,
    W: Fn(O, usize, usize, [u8; SAMPLER_BYTES]) -> (O, Result<(), i32>),
    N: Fn(O, SurfaceReport) -> O,
>(
    read_page: R,
    write: W,
    report: N,
    array: usize,
    texture: usize,
    object: usize,
) -> bool {
    exists|from: Option<[u8; PAGE_BYTES]>|
        {
            &&& #[trigger] read_page.ensures((texture,), from)
            &&& match from {
                None => exists|start: O, end: O| #[trigger]
                    report.ensures(
                        (start, SurfaceReport::TextureUnreadable { texture, array }),
                        end,
                    ),
                Some(page) => was_given(
                    read_page,
                    write,
                    report,
                    array,
                    texture,
                    page,
                    object,
                ),
            }
        }
}

/// Whether the surface object `object` was given the sampler in the page `from` at some point.
pub open spec fn was_given<
    O,
    R: Fn(usize) -> Option<[u8; PAGE_BYTES]>,
    W: Fn(O, usize, usize, [u8; SAMPLER_BYTES]) -> (O, Result<(), i32>),
    N: Fn(O, SurfaceReport) -> O,
>(
    read_page: R,
    write: W,
    report: N,
    array: usize,
    texture: usize,
    from: [u8; PAGE_BYTES],
    object: usize,
) -> bool {
    exists|start: O, end: O| #[trigger]
        given_sampler(read_page, write, report, start, end, array, texture, from, object)
}

/// Every surface object over the array took the sampler when it was handed out.
proof fn lemma_took_sampler<
    O,
    R: Fn(usize) -> Option<[u8; PAGE_BYTES]>,
    W: Fn(O, usize, usize, [u8; SAMPLER_BYTES]) -> (O, Result<(), i32>),
    N: Fn(O, SurfaceReport) -> O,
>(
    read_page: R,
    write: W,
    report: N,
    start: O,
    end: O,
    surfaces: Objects,
    array: usize,
    texture: usize,
    object: usize,
)
    requires
        adopted(read_page, write, report, start, end, surfaces, array, texture),
        array != 0,
        texture != 0,
        stands_over(surfaces, array, object),
    ensures
        took_sampler_of(read_page, write, report, array, texture, object),
{
    let from = choose|from: Option<[u8; PAGE_BYTES]>|
        {
            &&& #[trigger] read_page.ensures((texture,), from)
            &&& match from {
                None => report.ensures(
                    (start, SurfaceReport::TextureUnreadable { texture, array }),
                    end,
                ),
                Some(page) => all_given(
                    read_page,
                    write,
                    report,
                    start,
                    end,
                    surfaces,
                    array,
                    texture,
                    page,
                ),
            }
        };
    match from {
        None => {},
        Some(page) => {
            let chain = choose|chain: Seq<O>| #[trigger]
                handed_out(
                    read_page,
                    write,
                    report,
                    chain,
                    surfaces,
                    array,
                    texture,
                    page,
                );
            let k = choose|k: int| 0 <= k < surfaces.len() && surfaces[k] == (array, object);
            assert(surfaces[k].0 == array);
            assert(was_given(read_page, write, report, array, texture, page, object));
        },
    }
}

/// Whether only textures and arrays are remembered that there are. Every registry that starts empty
/// is so.
pub open spec fn no_zero_textures(textures: Objects) -> bool {
    forall|i: int|
        0 <= i < textures.len() ==> (#[trigger] textures[i]).0 != 0 && textures[i].1 != 0
}

/// Whichever is made first, the surface takes the sampler of a texture over its array.
///
/// A surface that is made after a texture over the same array takes the sampler of a texture over
/// that array, of this one if it is the only one. A surface that was made before takes the sampler of
/// the texture when that hands it out.
pub proof fn either_order_settles_the_surface<
    O,
    R: Fn(usize) -> Option<[u8; PAGE_BYTES]>,
    W: Fn(O, usize, usize, [u8; SAMPLER_BYTES]) -> (O, Result<(), i32>),
    M: FnOnce(ResourceDesc, Sampling) -> Option<usize>,
    X: FnOnce(usize),
    N: Fn(O, SurfaceReport) -> O,
>(
    read_page: R,
    write: W,
    make_texture: M,
    release_texture: X,
    report: N,
    making: (O, O),
    handing: (O, O),
    first: Registry,
    between: Registry,
    last: Registry,
    desc: ResourceDesc,
    object: usize,
    texture: usize,
)
    requires
        desc.handle_value() != 0,
        texture != 0,
        no_zero_textures(first.textures@),
    ensures
        texture_registered(first, between, desc.handle_value(), texture) && surface_made(
            read_page,
            write,
            make_texture,
            release_texture,
            report,
            making.0,
            making.1,
            between,
            last,
            desc,
            object,
        ) ==> exists|source: usize|
            {
                &&& stands_over(between.textures@, desc.handle_value(), source)
                &&& first_over(first.textures@, desc.handle_value()) is None ==> source == texture
                &&& #[trigger] took_sampler_of(
                    read_page,
                    write,
                    report,
                    desc.handle_value(),
                    source,
                    object,
                )
            },
        surface_made(
            read_page,
            write,
            make_texture,
            release_texture,
            report,
            making.0,
            making.1,
            first,
            between,
            desc,
            object,
        ) && adopted(read_page, write, report, handing.0, handing.1, between.surfaces@, desc.handle_value(), texture)
            ==> took_sampler_of(
            read_page,
            write,
            report,
            desc.handle_value(),
            texture,
            object,
        ),
{
    let array = desc.handle_value();
    if texture_registered(first, between, array, texture) && surface_made(
        read_page,
        write,
        make_texture,
        release_texture,
        report,
        making.0,
        making.1,
        between,
        last,
        desc,
        object,
    ) {
        either_order_reaches_the_surface(
            between.surfaces@,
            first.textures@,
            array,
            object,
            texture,
        );
        first_object_stands_over_its_array(between.textures@, array);
        let source = first_over(between.textures@, array)->Some_0;
        let k = choose|k: int|
            0 <= k < between.textures@.len() && between.textures@[k] == (array, source);
        if k < first.textures@.len() {
            assert(first.textures@[k] == (array, source));
        }
        assert(stands_over(last.surfaces@, array, object));
        lemma_took_sampler(
            read_page,
            write,
            report,
            making.0,
            making.1,
            last.surfaces@,
            array,
            source,
            object,
        );
        assert(took_sampler_of(read_page, write, report, array, source, object));
    }
    if surface_made(
        read_page,
        write,
        make_texture,
        release_texture,
        report,
        making.0,
        making.1,
        first,
        between,
        desc,
        object,
    ) && adopted(read_page, write, report, handing.0, handing.1, between.surfaces@, array, texture) {
        either_order_reaches_the_surface(first.surfaces@, first.textures@, array, object, texture);
        assert(stands_over(between.surfaces@, array, object));
        lemma_took_sampler(
            read_page,
            write,
            report,
            handing.0,
            handing.1,
            between.surfaces@,
            array,
            texture,
            object,
        );
    }
}

/// The sampler in a page is its last sixteen bytes, one for one: a page is what stands before its
/// sampler and its sampler, and a sampler that is written there is the one that is read back.
pub proof fn page_is_descriptor_and_sampler(page: Seq<u8>, sampler: Seq<u8>)
    requires
        page.len() == 64,
        sampler.len() == 16,
    ensures
        sampler_in(page).len() == 16,
        forall|i: int| 0 <= i < 16 ==> #[trigger] sampler_in(page)[i] == page[48 + i],
        with_sampler(page, sampler_in(page)) == page,
        with_sampler(page, sampler).len() == 64,
        forall|i: int| 0 <= i < 48 ==> #[trigger] with_sampler(page, sampler)[i] == page[i],
        forall|i: int| 48 <= i < 64 ==> #[trigger] with_sampler(page, sampler)[i] == sampler[i - 48],
        sampler_in(with_sampler(page, sampler)) == sampler,
{
    assert(with_sampler(page, sampler_in(page)) =~= page);
    assert(sampler_in(with_sampler(page, sampler)) =~= sampler);
}

/// Two objects describe the same image if the first thirty-two bytes of their pages agree, except for
/// the low half of byte 14. Nothing behind them counts.
pub proof fn images_agree_by_their_bytes(a: &[u8; PAGE_BYTES], b: &[u8; PAGE_BYTES], same: bool)
    requires
        call_ensures(describes_same_image, (a, b), same),
    ensures
        same <==> (forall|i: int| 0 <= i < 32 && i != 14 ==> #[trigger] a@[i] == b@[i]) && a@[14] / 16
            == b@[14] / 16,
{
    lemma_high_half(a@[14], b@[14]);
}

/// The high half of a byte.
proof fn lemma_high_half(a: u8, b: u8)
    ensures
        (a & 0xf0 == b & 0xf0) == (a / 16 == b / 16),
{
    assert((a & 0xf0 == b & 0xf0) == (a / 16 == b / 16)) by (bit_vector);
}

/// Whether a surface object was treated as the pages ask: where the two describe the same image, the
/// last sixteen bytes of the page of the texture object are written to byte 48 of its own page;
/// otherwise, or where its page cannot be read, that is told and nothing is written.
pub open spec fn treated<
    O,
    R: Fn(usize) -> Option<[u8; PAGE_BYTES]>,
    W: Fn(O, usize, usize, [u8; SAMPLER_BYTES]) -> (O, Result<(), i32>),
    N: Fn(O, SurfaceReport) -> O,
>(
    read_page: R,
    write: W,
    report: N,
    start: O,
    end: O,
    array: usize,
    texture: usize,
    page: [u8; PAGE_BYTES],
    object: usize,
) -> bool {
    exists|own: Option<[u8; PAGE_BYTES]>|
        {
            &&& #[trigger] read_page.ensures((object,), own)
            &&& own is None ==> report.ensures(
                (start, SurfaceReport::SurfaceUnreadable { object }),
                end,
            )
            &&& own matches Some(o) ==> ({
                let same = (forall|i: int| 0 <= i < 32 && i != 14 ==> #[trigger] o@[i] == page@[i])
                    && o@[14] / 16 == page@[14] / 16;
                &&& !same ==> report.ensures(
                    (
                        start,
                        SurfaceReport::Disagreement {
                            texture,
                            object,
                            array,
                            texture_page: page,
                            surface_page: o,
                        },
                    ),
                    end,
                )
                &&& same ==> exists|
                    sampler: [u8; SAMPLER_BYTES],
                    after: O,
                    written: Result<(), i32>,
                |
                    {
                        &&& #[trigger] write.ensures((start, object, 48usize, sampler), (after, written))
                        &&& forall|i: int| 0 <= i < 16 ==> #[trigger] sampler@[i] == page@[48 + i]
                        &&& written is Ok ==> end == after
                        &&& written matches Err(code) ==> report.ensures(
                            (after, SurfaceReport::NotWritten { object, code }),
                            end,
                        )
                    }
            })
        }
}

/// What giving a surface object a sampler means, byte by byte.
proof fn lemma_treated<
    O,
    R: Fn(usize) -> Option<[u8; PAGE_BYTES]>,
    W: Fn(O, usize, usize, [u8; SAMPLER_BYTES]) -> (O, Result<(), i32>),
    N: Fn(O, SurfaceReport) -> O,
>(
    read_page: R,
    write: W,
    report: N,
    start: O,
    end: O,
    array: usize,
    texture: usize,
    page: [u8; PAGE_BYTES],
    object: usize,
)
    requires
        given_sampler(read_page, write, report, start, end, array, texture, page, object),
    ensures
        treated(read_page, write, report, start, end, array, texture, page, object),
{
    let own = choose|own: Option<[u8; PAGE_BYTES]>|
        {
            &&& #[trigger] read_page.ensures((object,), own)
            &&& match own {
                None => report.ensures((start, SurfaceReport::SurfaceUnreadable { object }), end),
                Some(o) => if same_image(o@, page@) {
                    sampler_written(write, report, start, end, page, object)
                } else {
                    report.ensures(
                        (
                            start,
                            SurfaceReport::Disagreement {
                                texture,
                                object,
                                array,
                                texture_page: page,
                                surface_page: o,
                            },
                        ),
                        end,
                    )
                },
            }
        };
    if own is Some {
        let o = own->Some_0;
        lemma_high_half(o@[14], page@[14]);
        let same = (forall|i: int| 0 <= i < 32 && i != 14 ==> #[trigger] o@[i] == page@[i]) && o@[14]
            / 16 == page@[14] / 16;
        assert(same == same_image(o@, page@));
        if same {
            let (sampler, after, written) = choose|
                sampler: [u8; SAMPLER_BYTES],
                after: O,
                written: Result<(), i32>,
            |
                {
                    &&& sampler@ == sampler_in(page@)
                    &&& #[trigger] write.ensures(
                        (start, object, SAMPLER_OFFSET, sampler),
                        (after, written),
                    )
                    &&& match written {
                        Ok(_) => end == after,
                        Err(code) => report.ensures(
                            (after, SurfaceReport::NotWritten { object, code }),
                            end,
                        ),
                    }
                };
            assert(write.ensures((start, object, 48usize, sampler), (after, written)));
            assert forall|i: int| 0 <= i < 16 implies #[trigger] sampler@[i] == page@[48 + i] by {
                assert(sampler_in(page@)[i] == page@[48 + i]);
            }
        }
    }
}

/// Adopting a sampler reaches exactly the surface objects over the array, in the order of the list,
/// and each gets the last sixteen bytes of the page of the texture object. Without an array, a
/// texture or a surface over the array nothing at all is done.
pub proof fn every_surface_over_the_array_is_treated<
    O,
    R: Fn(usize) -> Option<[u8; PAGE_BYTES]>,
    W: Fn(O, usize, usize, [u8; SAMPLER_BYTES]) -> (O, Result<(), i32>),
    N: Fn(O, SurfaceReport) -> O,
>(
    registry: &Registry,
    array: usize,
    texture: usize,
    read_page: &R,
    write: &W,
    outside: O,
    report: &N,
    end: O,
)
    requires
        call_ensures(
            Registry::adopt_sampler::<O, R, W, N>,
            (registry, array, texture, read_page, write, outside, report),
            end,
        ),
    ensures
        array == 0 || texture == 0 || (forall|i: int|
            0 <= i < registry.surfaces@.len() ==> (#[trigger] registry.surfaces@[i]).0 != array)
            ==> end == outside,
        array != 0 && texture != 0 && (exists|i: int|
            0 <= i < registry.surfaces@.len() && (#[trigger] registry.surfaces@[i]).0 == array)
            ==> exists|from: Option<[u8; PAGE_BYTES]>|
            {
                &&& #[trigger] read_page.ensures((texture,), from)
                &&& from is None ==> report.ensures(
                    (outside, SurfaceReport::TextureUnreadable { texture, array }),
                    end,
                )
                &&& from matches Some(page) ==> exists|chain: Seq<O>|
                    {
                        &&& chain.len() == registry.surfaces@.len() + 1
                        &&& #[trigger] chain[0] == outside
                        &&& chain.last() == end
                        &&& forall|i: int|
                            0 <= i < registry.surfaces@.len() ==> if (
                            #[trigger] registry.surfaces@[i]).0 == array {
                                treated(
                                    *read_page,
                                    *write,
                                    *report,
                                    chain[i],
                                    chain[i + 1],
                                    array,
                                    texture,
                                    page,
                                    registry.surfaces@[i].1,
                                )
                            } else {
                                chain[i + 1] == chain[i]
                            }
                    }
            },
{
    let surfaces = registry.surfaces@;
    if array != 0 && texture != 0 && (exists|i: int|
        0 <= i < surfaces.len() && (#[trigger] surfaces[i]).0 == array) {
        let i = choose|i: int| 0 <= i < surfaces.len() && (#[trigger] surfaces[i]).0 == array;
        assert(surfaces[i] == (array, surfaces[i].1));
        assert(stands_over(surfaces, array, surfaces[i].1));
        let from = choose|from: Option<[u8; PAGE_BYTES]>|
            {
                &&& #[trigger] read_page.ensures((texture,), from)
                &&& match from {
                    None => report.ensures(
                        (outside, SurfaceReport::TextureUnreadable { texture, array }),
                        end,
                    ),
                    Some(page) => all_given(
                        *read_page,
                        *write,
                        *report,
                        outside,
                        end,
                        surfaces,
                        array,
                        texture,
                        page,
                    ),
                }
            };
        if from is Some {
            let page = from->Some_0;
            let chain = choose|chain: Seq<O>|
                {
                    &&& #[trigger] handed_out(
                        *read_page,
                        *write,
                        *report,
                        chain,
                        surfaces,
                        array,
                        texture,
                        page,
                    )
                    &&& chain[0] == outside
                    &&& chain.last() == end
                };
            assert(chain[0] == outside);
            assert forall|i: int| 0 <= i < surfaces.len() implies if (#[trigger] surfaces[i]).0
                == array {
                treated(
                    *read_page,
                    *write,
                    *report,
                    chain[i],
                    chain[i + 1],
                    array,
                    texture,
                    page,
                    surfaces[i].1,
                )
            } else {
                chain[i + 1] == chain[i]
            } by {
                if surfaces[i].0 == array {
                    lemma_treated(
                        *read_page,
                        *write,
                        *report,
                        chain[i],
                        chain[i + 1],
                        array,
                        texture,
                        page,
                        surfaces[i].1,
                    );
                }
            }
        }
    } else {
        assert forall|object: usize| !#[trigger] stands_over(surfaces, array, object) || array == 0
            || texture == 0 by {
            if stands_over(surfaces, array, object) {
                let k = choose|k: int| 0 <= k < surfaces.len() && surfaces[k] == (array, object);
                assert(surfaces[k].0 == array);
            }
        }
    }
}

/// A surface object is made over an array, or over a mipmapped array, by the handle in the first two
/// words of its description, and over nothing else. What the driver answers is the answer, and only a
/// surface that was made is remembered, with the whole description.
pub proof fn surface_is_made_over_its_array<
    O,
    K: FnOnce(SurfaceTarget) -> Result<usize, CuError>,
    R: Fn(usize) -> Option<[u8; PAGE_BYTES]>,
    W: Fn(O, usize, usize, [u8; SAMPLER_BYTES]) -> (O, Result<(), i32>),
    M: FnOnce(ResourceDesc, Sampling) -> Option<usize>,
    X: FnOnce(usize),
    N: Fn(O, SurfaceReport) -> O,
>(
    registry: &mut Registry,
    desc: Option<ResourceDesc>,
    create: K,
    read_page: &R,
    write: &W,
    make_texture: M,
    release_texture: X,
    outside: O,
    report: &N,
    end: (O, Result<usize, CuError>),
)
    requires
        call_ensures(
            Registry::object_create::<O, K, R, W, M, X, N>,
            (
                registry,
                desc,
                create,
                read_page,
                write,
                make_texture,
                release_texture,
                outside,
                report,
            ),
            end,
        ),
    ensures
        desc is None ==> end.1 == Err::<usize, CuError>(CuError::InvalidValue),
        desc matches Some(d) ==> !(d.res_type is Array) && !(d.res_type is MipmappedArray) ==> end.1
            == Err::<usize, CuError>(CuError::NotSupported),
        desc matches Some(d) ==> ({
            let handle = (d.words@[0] + 0x1_0000_0000 * d.words@[1]) as usize;
            &&& d.res_type is Array ==> create.ensures((SurfaceTarget::Array(handle),), end.1)
            &&& d.res_type is MipmappedArray ==> create.ensures(
                (SurfaceTarget::MipmappedArray(handle),),
                end.1,
            )
            &&& end.1 matches Ok(object) ==> {
                &&& final(registry).surfaces@ == old(registry).surfaces@.push((handle, object))
                &&& final(registry).surface_descs@.dom() == old(
                    registry,
                ).surface_descs@.dom().insert(object)
                &&& final(registry).surface_descs@[object] == d
                &&& forall|other: usize|
                    other != object && old(registry).surface_descs@.dom().contains(other)
                        ==> #[trigger] final(registry).surface_descs@[other] == old(
                        registry,
                    ).surface_descs@[other]
            }
        }),
        end.1 is Err ==> {
            &&& end.0 == outside
            &&& final(registry).surfaces@ == old(registry).surfaces@
            &&& final(registry).surface_descs@ == old(registry).surface_descs@
        },
        final(registry).textures@ == old(registry).textures@,
{
    if end.1 is Ok {
        let object = end.1->Ok_0;
        assert(final(registry).surface_descs@.dom() =~= old(registry).surface_descs@.dom().insert(
            object,
        ));
    }
}

/// The first object over an array is the one of the first pair with that array.
proof fn lemma_first_over(objects: Objects, array: usize, k: int)
    requires
        0 <= k < objects.len(),
        objects[k].0 == array,
        forall|j: int| 0 <= j < k ==> (#[trigger] objects[j]).0 != array,
    ensures
        first_over(objects, array) == Some(objects[k].1),
    decreases k,
{
    if k > 0 {
        assert(objects[0].0 != array);
        let rest = objects.drop_first();
        assert forall|j: int| 0 <= j < k - 1 implies (#[trigger] rest[j]).0 != array by {
            assert(objects[j + 1].0 != array);
        }
        lemma_first_over(rest, array, k - 1);
    }
}

/// Without a pair with the array there is no object over it.
proof fn lemma_none_over(objects: Objects, array: usize)
    requires
        forall|j: int| 0 <= j < objects.len() ==> (#[trigger] objects[j]).0 != array,
    ensures
        first_over(objects, array) is None,
    decreases objects.len(),
{
    if objects.len() > 0 {
        assert(objects[0].0 != array);
        let rest = objects.drop_first();
        assert forall|j: int| 0 <= j < rest.len() implies (#[trigger] rest[j]).0 != array by {
            assert(objects[j + 1].0 != array);
        }
        lemma_none_over(rest, array);
    }
}

/// The texture that is found for an array is that of the first pair with the array.
pub proof fn first_texture_over_the_array_is_found(
    registry: &Registry,
    array: usize,
    texture: Option<usize>,
)
    requires
        call_ensures(Registry::texture_over, (registry, array), texture),
    ensures
        match texture {
            Some(t) => exists|k: int|
                {
                    &&& 0 <= k < registry.textures@.len()
                    &&& #[trigger] registry.textures@[k] == (array, t)
                    &&& forall|j: int| 0 <= j < k ==> (#[trigger] registry.textures@[j]).0 != array
                },
            None => forall|j: int|
                0 <= j < registry.textures@.len() ==> (#[trigger] registry.textures@[j]).0 != array,
        },
{
    lemma_where_first_is(registry.textures@, array);
}

/// Where the first object over an array stands.
proof fn lemma_where_first_is(objects: Objects, array: usize)
    ensures
        match first_over(objects, array) {
            Some(t) => exists|k: int|
                {
                    &&& 0 <= k < objects.len()
                    &&& #[trigger] objects[k] == (array, t)
                    &&& forall|j: int| 0 <= j < k ==> (#[trigger] objects[j]).0 != array
                },
            None => forall|j: int| 0 <= j < objects.len() ==> (#[trigger] objects[j]).0 != array,
        },
    decreases objects.len(),
{
    if objects.len() > 0 {
        if objects[0].0 == array {
            assert(objects[0] == (array, objects[0].1));
        } else {
            let rest = objects.drop_first();
            lemma_where_first_is(rest, array);
            match first_over(rest, array) {
                Some(t) => {
                    let k = choose|k: int|
                        {
                            &&& 0 <= k < rest.len()
                            &&& #[trigger] rest[k] == (array, t)
                            &&& forall|j: int| 0 <= j < k ==> (#[trigger] rest[j]).0 != array
                        };
                    assert(objects[k + 1] == (array, t));
                    assert forall|j: int| 0 <= j < k + 1 implies (#[trigger] objects[j]).0 != array by {
                        if j > 0 {
                            assert(rest[j - 1].0 != array);
                        }
                    }
                },
                None => {
                    assert forall|j: int| 0 <= j < objects.len() implies (#[trigger] objects[j]).0
                        != array by {
                        if j > 0 {
                            assert(rest[j - 1].0 != array);
                        }
                    }
                },
            }
        }
    }
}

/// Whether adopting the sampler of `texture` treated a surface object over the array.
pub open spec fn was_treated<
    O,
    R: Fn(usize) -> Option<[u8; PAGE_BYTES]>,
    W: Fn(O, usize, usize, [u8; SAMPLER_BYTES]) -> (O, Result<(), i32>),
    N: Fn(O, SurfaceReport) -> O,
>(
    read_page: R,
    write: W,
    report: N,
    array: usize,
    texture: usize,
    object: usize,
) -> bool {
    exists|from: Option<[u8; PAGE_BYTES]>|
        {
            &&& #[trigger] read_page.ensures((texture,), from)
            &&& from is None ==> exists|start: O, end: O| #[trigger]
                report.ensures(
                    (start, SurfaceReport::TextureUnreadable { texture, array }),
                    end,
                )
            &&& from matches Some(page) ==> exists|start: O, end: O| #[trigger]
                treated(read_page, write, report, start, end, array, texture, page, object)
        }
}

/// What adopting means for one of the surfaces.
proof fn lemma_was_treated<
    O,
    R: Fn(usize) -> Option<[u8; PAGE_BYTES]>,
    W: Fn(O, usize, usize, [u8; SAMPLER_BYTES]) -> (O, Result<(), i32>),
    N: Fn(O, SurfaceReport) -> O,
>(
    read_page: R,
    write: W,
    report: N,
    start: O,
    end: O,
    surfaces: Objects,
    array: usize,
    texture: usize,
    object: usize,
)
    requires
        adopted(read_page, write, report, start, end, surfaces, array, texture),
        array != 0,
        texture != 0,
        stands_over(surfaces, array, object),
    ensures
        was_treated(read_page, write, report, array, texture, object),
{
    lemma_took_sampler(read_page, write, report, start, end, surfaces, array, texture, object);
    let from = choose|from: Option<[u8; PAGE_BYTES]>|
        {
            &&& #[trigger] read_page.ensures((texture,), from)
            &&& match from {
                None => exists|start: O, end: O| #[trigger]
                    report.ensures(
                        (start, SurfaceReport::TextureUnreadable { texture, array }),
                        end,
                    ),
                Some(page) => was_given(
                    read_page,
                    write,
                    report,
                    array,
                    texture,
                    page,
                    object,
                ),
            }
        };
    if from is Some {
        let page = from->Some_0;
        let (a, b) = choose|a: O, b: O| #[trigger]
            given_sampler(read_page, write, report, a, b, array, texture, page, object);
        lemma_treated(read_page, write, report, a, b, array, texture, page, object);
        assert(treated(read_page, write, report, a, b, array, texture, page, object));
    }
}

/// A surface object that is made gets the sampler of the first texture over its array. Only without
/// one does it get a plain sampler: one for points, clamped at every edge, made over the very same
/// resource and released again.
pub proof fn made_surface_gets_a_sampler<
    O,
    K: FnOnce(SurfaceTarget) -> Result<usize, CuError>,
    R: Fn(usize) -> Option<[u8; PAGE_BYTES]>,
    W: Fn(O, usize, usize, [u8; SAMPLER_BYTES]) -> (O, Result<(), i32>),
    M: FnOnce(ResourceDesc, Sampling) -> Option<usize>,
    X: FnOnce(usize),
    N: Fn(O, SurfaceReport) -> O,
>(
    registry: &mut Registry,
    desc: Option<ResourceDesc>,
    create: K,
    read_page: &R,
    write: &W,
    make_texture: M,
    release_texture: X,
    outside: O,
    report: &N,
    end: (O, Result<usize, CuError>),
    k: int,
)
    requires
        call_ensures(
            Registry::object_create::<O, K, R, W, M, X, N>,
            (
                registry,
                desc,
                create,
                read_page,
                write,
                make_texture,
                release_texture,
                outside,
                report,
            ),
            end,
        ),
        desc is Some,
        end.1 is Ok,
        desc->Some_0.words@[0] + 0x1_0000_0000 * desc->Some_0.words@[1] <= usize::MAX,
        desc->Some_0.words@[0] + 0x1_0000_0000 * desc->Some_0.words@[1] != 0,
    ensures
        ({
            let handle = (desc->Some_0.words@[0] + 0x1_0000_0000 * desc->Some_0.words@[1]) as usize;
            let object = end.1->Ok_0;
            let textures = old(registry).textures@;
            &&& 0 <= k < textures.len() && textures[k].0 == handle && textures[k].1 != 0 && (
            forall|j: int| 0 <= j < k ==> (#[trigger] textures[j]).0 != handle) ==> was_treated(
                *read_page,
                *write,
                *report,
                handle,
                textures[k].1,
                object,
            )
            &&& (forall|j: int| 0 <= j < textures.len() ==> (#[trigger] textures[j]).0 != handle)
                ==> exists|sampling: Sampling, made: Option<usize>|
                {
                    &&& #[trigger] make_texture.ensures((desc->Some_0, sampling), made)
                    &&& sampling.address_mode@[0] is Clamp && sampling.address_mode@[1] is Clamp
                        && sampling.address_mode@[2] is Clamp
                    &&& sampling.filter_mode is Point && sampling.mipmap_filter_mode is Point
                    &&& made is None ==> report.ensures(
                        (outside, SurfaceReport::NoPlainSampler { array: handle }),
                        end.0,
                    )
                    &&& made matches Some(texture) ==> {
                        &&& release_texture.ensures((texture,), ())
                        &&& texture != 0 ==> was_treated(
                            *read_page,
                            *write,
                            *report,
                            handle,
                            texture,
                            object,
                        )
                    }
                }
        }),
{
    let resource = desc->Some_0;
    let handle = resource.handle_value();
    let object = end.1->Ok_0;
    let textures = old(registry).textures@;
    let surfaces = final(registry).surfaces@;
    assert(handle == (resource.words@[0] + 0x1_0000_0000 * resource.words@[1]) as usize);
    assert(surfaces[surfaces.len() - 1] == (handle, object));
    assert(stands_over(surfaces, handle, object));
    if 0 <= k < textures.len() && textures[k].0 == handle && textures[k].1 != 0 && (forall|j: int|
        0 <= j < k ==> (#[trigger] textures[j]).0 != handle) {
        lemma_first_over(textures, handle, k);
        lemma_was_treated(
            *read_page,
            *write,
            *report,
            outside,
            end.0,
            surfaces,
            handle,
            textures[k].1,
            object,
        );
    }
    if forall|j: int| 0 <= j < textures.len() ==> (#[trigger] textures[j]).0 != handle {
        lemma_none_over(textures, handle);
        let (sampling, made) = choose|sampling: Sampling, made: Option<usize>|
            {
                &&& is_plain(sampling)
                &&& #[trigger] make_texture.ensures((resource, sampling), made)
                &&& match made {
                    None => report.ensures(
                        (outside, SurfaceReport::NoPlainSampler { array: handle }),
                        end.0,
                    ),
                    Some(texture) => {
                        &&& adopted(
                            *read_page,
                            *write,
                            *report,
                            outside,
                            end.0,
                            surfaces,
                            handle,
                            texture,
                        )
                        &&& release_texture.ensures((texture,), ())
                    },
                }
            };
        assert(make_texture.ensures((resource, sampling), made));
        if made is Some && made->Some_0 != 0 {
            lemma_was_treated(
                *read_page,
                *write,
                *report,
                outside,
                end.0,
                surfaces,
                handle,
                made->Some_0,
                object,
            );
        }
    }
}

/// Forgetting an object takes every pair of it out of a list, and leaves the others in their order.
proof fn lemma_forgotten_is_filtered(objects: Objects, gone: usize)
    ensures
        forgotten(objects, gone) == objects.filter(|pair: (usize, usize)| pair.1 != gone),
    decreases objects.len(),
{
    reveal(Seq::filter);
    if objects.len() > 0 {
        lemma_forgotten_is_filtered(objects.drop_last(), gone);
    }
}

/// What is remembered of a surface object is given back as it was, and an object that is not
/// remembered has no description.
pub proof fn description_is_given_back(
    registry: &Registry,
    object: usize,
    desc: Result<ResourceDesc, CuError>,
)
    requires
        call_ensures(Registry::object_get_resource_desc, (registry, object), desc),
    ensures
        registry.surface_descs@.dom().contains(object) ==> desc is Ok && desc->Ok_0
            == registry.surface_descs@[object],
        !registry.surface_descs@.dom().contains(object) ==> desc is Err && desc->Err_0
            == CuError::InvalidValue,
{
}

/// A surface object that is destroyed is forgotten, whatever the driver answers: every pair of it is
/// gone, the others keep their order, and nothing else changes.
pub proof fn destroyed_surface_is_forgotten<K: FnOnce(&Registry, usize) -> Result<(), CuError>>(
    registry: &mut Registry,
    object: usize,
    destroy: K,
    r: Result<(), CuError>,
)
    requires
        call_ensures(Registry::object_destroy::<K>, (registry, object, destroy), r),
    ensures
        final(registry).surfaces@ == old(registry).surfaces@.filter(
            |pair: (usize, usize)| pair.1 != object,
        ),
        final(registry).surface_descs@ == old(registry).surface_descs@.remove(object),
        final(registry).textures@ == old(registry).textures@,
        exists|shown: &Registry|
            {
                &&& #[trigger] destroy.ensures((shown, object), r)
                &&& !shown.surface_descs@.dom().contains(object)
                &&& shown.surfaces@ == old(registry).surfaces@.filter(
                    |pair: (usize, usize)| pair.1 != object,
                )
            },
{
    lemma_forgotten_is_filtered(old(registry).surfaces@, object);
    let shown = choose|shown: &Registry|
        surface_forgotten(*old(registry), *shown, object) && #[trigger] destroy.ensures(
            (shown, object),
            r,
        );
    assert(destroy.ensures((shown, object), r));
}

/// A texture object is remembered behind the ones before it, unless it or its array is none.
pub proof fn texture_is_remembered(registry: &mut Registry, array: usize, texture: usize)
    requires
        call_ensures(Registry::register_texture, (registry, array, texture), ()),
    ensures
        array != 0 && texture != 0 ==> final(registry).textures@ == old(registry).textures@.push(
            (array, texture),
        ),
        array == 0 || texture == 0 ==> final(registry).textures@ == old(registry).textures@,
        final(registry).surfaces@ == old(registry).surfaces@,
        final(registry).surface_descs@ == old(registry).surface_descs@,
{
}

/// A texture object that is forgotten is gone, and the others keep their order.
pub proof fn texture_is_forgotten(registry: &mut Registry, texture: usize)
    requires
        call_ensures(Registry::unregister_texture, (registry, texture), ()),
    ensures
        final(registry).textures@ == old(registry).textures@.filter(
            |pair: (usize, usize)| pair.1 != texture,
        ),
        final(registry).surfaces@ == old(registry).surfaces@,
        final(registry).surface_descs@ == old(registry).surface_descs@,
{
    lemma_forgotten_is_filtered(old(registry).textures@, texture);
}

/// The sampler that is taken from a page is its last sixteen bytes, in their order.
proof fn sampler_is_the_end_of_the_page(page: &[u8; PAGE_BYTES], sampler: [u8; SAMPLER_BYTES])
    requires
        call_ensures(sampler_of, (page,), sampler),
    ensures
        sampler@.len() == 16,
        forall|i: int| 0 <= i < 16 ==> #[trigger] sampler@[i] == page@[48 + i],
{
    page_is_descriptor_and_sampler(page@, sampler@);
}

/// The handle is written in the first two words, the less significant one first.
pub proof fn handle_is_in_the_first_two_words(desc: &ResourceDesc, handle: usize)
    requires
        call_ensures(ResourceDesc::handle, (desc,), handle),
    ensures
        desc.words@[0] + desc.words@[1] * 0x1_0000_0000 <= usize::MAX ==> handle == desc.words@[0]
            + desc.words@[1] * 0x1_0000_0000,
{
}

/// There is a surface over an array if and only if a remembered one stands over it.
pub proof fn remembered_surface_stands_over_its_array(registry: &Registry, array: usize, found: bool)
    requires
        call_ensures(Registry::has_surface_over, (registry, array), found),
    ensures
        found <==> exists|i: int|
            0 <= i < registry.surfaces@.len() && (#[trigger] registry.surfaces@[i]).0 == array,
{
    assert(found == any_over(registry.surfaces@, array));
}

/// The plain sampling takes single points, and clamps every one of the three coordinates.
pub proof fn plain_sampling_takes_points(sampling: Sampling)
    requires
        call_ensures(plain_sampling, (), sampling),
    ensures
        sampling.address_mode@[0] == AddressMode::Clamp,
        sampling.address_mode@[1] == AddressMode::Clamp,
        sampling.address_mode@[2] == AddressMode::Clamp,
        sampling.filter_mode == FilterMode::Point,
        sampling.mipmap_filter_mode == FilterMode::Point,
{
}

} // verus!
