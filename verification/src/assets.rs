use crate::bitmap::blank;
use crate::bitmap::Bitmap;
use crate::maths::Scalar;
use crate::packing::apart;
use crate::packing::fits_alone;
use crate::packing::inside;
use crate::packing::is_packing;
use crate::packing::pack_frames;
use crate::packing::packing_of;
use crate::packing::Frame;
use crate::packing::ATLAS_HEIGHT;
use crate::packing::ATLAS_WIDTH;
use crate::packing::BORDER_PADDING;
use crate::packing::RECTANGLE_PADDING;
use std::collections::hash_map::DefaultHasher;
use std::hash::Hasher;
use vstd::prelude::*;
use vstd::std_specs::hash::DefaultHasherAdditionalSpecFns;
use vstd::utf8::encode_utf8;

verus! {

/// The number of a sprite: sprites are numbered from zero in the order in
/// which they were added.
pub type SpriteId = usize;

/// The number of a font: fonts are numbered from zero in the order in which
/// they were added.
pub type FontId = usize;

/// Why the assets could not be brought together.
#[derive(Debug, Copy, Clone, PartialEq, Eq, Structural)]
pub enum AssetsMgrError {
    /// An image of a sprite could not be decoded.
    LoadError,
    /// An image found no place in the atlas.
    PackError,
    /// The file of a font could not be read.
    IoError,
}

/// Where a sprite lies in the atlas, each number as a fraction of the atlas'
/// width or height. `y` is measured from the bottom edge of the atlas to the
/// top edge of the sprite.
#[derive(Debug, Copy, Clone, PartialEq, Eq, Structural)]
pub struct Rect {
    pub x: Scalar,
    pub y: Scalar,
    pub w: Scalar,
    pub h: Scalar,
}

/// The place of a frame as fractions of the atlas: the frame's `x` and width
/// over the atlas' width, its height over the atlas' height, and for `y` one
/// minus the frame's `y` over the atlas' height, which as one fraction is the
/// atlas' height less the frame's `y`, over the atlas' height.
pub open spec fn normalized(f: Frame) -> Rect {
    Rect {
        x: Scalar { num: f.x as i128, den: ATLAS_WIDTH as i128 },
        y: Scalar { num: (ATLAS_HEIGHT - f.y) as i128, den: ATLAS_HEIGHT as i128 },
        w: Scalar { num: f.width as i128, den: ATLAS_WIDTH as i128 },
        h: Scalar { num: f.height as i128, den: ATLAS_HEIGHT as i128 },
    }
}

/// Whether the pixel `(px, py)` of the atlas belongs to the frame.
pub open spec fn covers(f: Frame, px: int, py: int) -> bool {
    f.x <= px < f.x + f.width && f.y <= py < f.y + f.height
}

/// Whether `atlas` is the atlas of the images in their frames: it has the
/// atlas' size, each pixel of a frame is the pixel of its image, and every
/// pixel outside all frames is blank.
pub open spec fn is_atlas(atlas: Bitmap, frames: Seq<Frame>, images: Seq<Bitmap>) -> bool {
    &&& atlas.wf()
    &&& atlas.w() == ATLAS_WIDTH
    &&& atlas.h() == ATLAS_HEIGHT
    &&& forall|i: int, px: int, py: int|
        0 <= i < frames.len() && #[trigger] covers(frames[i], px, py) ==> atlas.pixel(px, py)
            == images[i].pixel(px - frames[i].x, py - frames[i].y)
    &&& forall|px: int, py: int|
        atlas.holds(px, py) && (forall|i: int| 0 <= i < frames.len() ==> !covers(frames[i], px, py))
            ==> #[trigger] atlas.pixel(px, py) == blank()
}

/// Whether `images` are well formed and `frames` has a frame of its size for
/// each of them.
pub open spec fn frames_fit(frames: Seq<Frame>, images: Seq<Bitmap>) -> bool {
    &&& frames.len() == images.len()
    &&& forall|i: int|
        0 <= i < images.len() ==> (#[trigger] images[i]).wf() && images[i].w() == frames[i].width
            && images[i].h() == frames[i].height
}

/// Two frames that are apart have no pixel in common.
pub proof fn lemma_apart_share_no_pixel(a: Frame, b: Frame, px: int, py: int)
    requires
        apart(a, b),
    ensures
        !(covers(a, px, py) && covers(b, px, py)),
{
}

/// Every pixel of a frame inside the atlas is a pixel of the atlas.
pub proof fn lemma_inside_covers(f: Frame, px: int, py: int)
    requires
        inside(f),
        covers(f, px, py),
    ensures
        0 <= px < ATLAS_WIDTH,
        0 <= py < ATLAS_HEIGHT,
{
}

/// The frame with the rectangle padding added to its right and below it.
pub open spec fn grown(f: Frame) -> Frame {
    Frame {
        x: f.x,
        y: f.y,
        width: (f.width + RECTANGLE_PADDING) as u32,
        height: (f.height + RECTANGLE_PADDING) as u32,
    }
}

/// Two frames of a packing have no pixel in common, not even when each is
/// taken with its padding, and each lies in the atlas with the border padding
/// round it.
pub proof fn lemma_packing_keeps_frames_apart(frames: Seq<Frame>, i: int, j: int, px: int, py: int)
    requires
        is_packing(frames),
        0 <= i < frames.len(),
        0 <= j < frames.len(),
        i != j,
    ensures
        !(covers(grown(frames[i]), px, py) && covers(grown(frames[j]), px, py)),
        !(covers(frames[i], px, py) && covers(frames[j], px, py)),
        covers(frames[i], px, py) ==> BORDER_PADDING <= px < ATLAS_WIDTH - BORDER_PADDING
            && BORDER_PADDING <= py < ATLAS_HEIGHT - BORDER_PADDING,
{
    assert(inside(frames[i]));
    assert(inside(frames[j]));
    if i < j {
        assert(apart(frames[i], frames[j]));
    } else {
        assert(apart(frames[j], frames[i]));
    }
}

/// The place of a frame inside the atlas is made of fractions between zero
/// and one, and its `y` is one minus the frame's `y` over the atlas' height.
pub proof fn lemma_normalized(f: Frame)
    requires
        inside(f),
    ensures
        normalized(f).x.is_unit(),
        normalized(f).y.is_unit(),
        normalized(f).w.is_unit(),
        normalized(f).h.is_unit(),
        normalized(f).x == Scalar::spec_whole(f.x as int).spec_over(
            Scalar::spec_whole(ATLAS_WIDTH as int),
        ),
        normalized(f).y == Scalar::spec_whole(1).spec_minus(
            Scalar::spec_whole(f.y as int).spec_over(Scalar::spec_whole(ATLAS_HEIGHT as int)),
        ),
        normalized(f).w == Scalar::spec_whole(f.width as int).spec_over(
            Scalar::spec_whole(ATLAS_WIDTH as int),
        ),
        normalized(f).h == Scalar::spec_whole(f.height as int).spec_over(
            Scalar::spec_whole(ATLAS_HEIGHT as int),
        ),
{
    let one = Scalar::spec_whole(1);
    let width = Scalar::spec_whole(ATLAS_WIDTH as int);
    let height = Scalar::spec_whole(ATLAS_HEIGHT as int);
    let x = Scalar::spec_whole(f.x as int);
    let y = Scalar::spec_whole(f.y as int);
    let w = Scalar::spec_whole(f.width as int);
    let h = Scalar::spec_whole(f.height as int);
    assert(x.num * width.den == f.x && x.den * width.num == ATLAS_WIDTH);
    assert(w.num * width.den == f.width && w.den * width.num == ATLAS_WIDTH);
    assert(h.num * height.den == f.height && h.den * height.num == ATLAS_HEIGHT);
    assert(y.num * height.den == f.y && y.den * height.num == ATLAS_HEIGHT);
    let ratio = y.spec_over(height);
    assert(ratio == Scalar { num: f.y as i128, den: ATLAS_HEIGHT as i128 });
    assert(one.num * ratio.den - ratio.num * one.den == ATLAS_HEIGHT - f.y);
    assert(one.den * ratio.den == ATLAS_HEIGHT);
}

/// Draws the atlas: a blank bitmap of the atlas' size into which each image is
/// copied at its frame, pixel for pixel.
pub fn gen_atlas(layout: &Vec<Frame>, images: &Vec<Bitmap>) -> (atlas: Bitmap)
    requires
        is_packing(layout@),
        frames_fit(layout@, images@),
    ensures
        is_atlas(atlas, layout@, images@),
{
    let mut atlas = Bitmap::new(ATLAS_WIDTH, ATLAS_HEIGHT);
    let mut i: usize = 0;
    while i < images.len()
        invariant
            i <= images.len(),
            is_packing(layout@),
            frames_fit(layout@, images@),
            is_atlas(atlas, layout@.take(i as int), images@.take(i as int)),
        decreases images.len() - i,
    {
        let frame = layout[i];
        let ghost before = atlas;
        assert(inside(layout@[i as int]));
        assert(images@[i as int].wf());
        let fits = atlas.copy_from(&images[i], frame.x, frame.y);
        assert(fits);
        proof {
            let done = layout@.take(i as int + 1);
            let drawn = images@.take(i as int + 1);
            assert forall|k: int, px: int, py: int|
                0 <= k < done.len() && #[trigger] covers(done[k], px, py) implies atlas.pixel(
                px,
                py,
            ) == drawn[k].pixel(px - done[k].x, py - done[k].y) by {
                assert(inside(layout@[k]));
                lemma_inside_covers(done[k], px, py);
                assert(atlas.holds(px, py));
                if k < i {
                    assert(apart(layout@[k], layout@[i as int]));
                    lemma_apart_share_no_pixel(layout@[k], layout@[i as int], px, py);
                    assert(covers(layout@.take(i as int)[k], px, py));
                }
            }
            assert forall|px: int, py: int|
                atlas.holds(px, py) && (forall|k: int|
                    0 <= k < done.len() ==> !covers(done[k], px, py)) implies #[trigger] atlas.pixel(
                px,
                py,
            ) == blank() by {
                assert(!covers(done[i as int], px, py));
                assert forall|k: int| 0 <= k < i implies !covers(
                    layout@.take(i as int)[k],
                    px,
                    py,
                ) by {
                    assert(!covers(done[k], px, py));
                }
                assert(before.holds(px, py));
            }
        }
        i = i + 1;
    }
    assert(layout@.take(i as int) =~= layout@);
    assert(images@.take(i as int) =~= images@);
    atlas
}

/// What `calculate_hash` feeds the hasher: the bytes of each path, one write
/// for each.
pub open spec fn path_writes(paths: Seq<String>) -> Seq<Seq<u8>> {
    paths.map_values(|path: String| encode_utf8(path@))
}

/// A hash of a list of paths, by the hasher of the standard library: a name
/// under which a drawn atlas can be kept for a later run of the same program.
pub fn calculate_hash(paths: &Vec<String>) -> (hash: u64)
    ensures
        hash == DefaultHasher::spec_finish(path_writes(paths@)),
{
    let mut s = DefaultHasher::new();
    let mut i: usize = 0;
    while i < paths.len()
        invariant
            i <= paths.len(),
            s@ == path_writes(paths@.take(i as int)),
        decreases paths.len() - i,
    {
        s.write(paths[i].as_str().as_bytes());
        assert(path_writes(paths@.take(i as int + 1)) =~= path_writes(paths@.take(i as int)).push(
            encode_utf8(paths@[i as int]@),
        ));
        i = i + 1;
    }
    assert(paths@.take(i as int) =~= paths@);
    s.finish()
}

/// The sizes of the images, in order.
pub open spec fn image_sizes(images: Seq<Bitmap>) -> Seq<(u32, u32)> {
    images.map_values(|image: Bitmap| (image.w() as u32, image.h() as u32))
}

/// Whether `mgr` is what `build` makes of `builder` and the images of its
/// sprites: the frames are the packing of the images' sizes, so that there is
/// a frame for each image, of its size, and the frames are a packing of the
/// atlas; and the fonts are those of the builder.
pub open spec fn built_from(mgr: AssetsMgr, builder: AssetsMgrBuilder, images: Seq<Bitmap>) -> bool {
    &&& mgr.wf()
    &&& images.len() == builder.sprites().len()
    &&& packing_of(image_sizes(images)) == Some(mgr.frames())
    &&& frames_fit(mgr.frames(), images)
    &&& mgr.fonts() == builder.fonts()
}

/// After a build every sprite that was added has a place in the atlas, and no
/// other id has one: the ids below the number of sprites are the ids of the
/// manager.
pub proof fn lemma_built_ids(mgr: AssetsMgr, builder: AssetsMgrBuilder, images: Seq<Bitmap>, id: SpriteId)
    requires
        built_from(mgr, builder, images),
    ensures
        id < builder.sprites().len() <==> mgr.place(id) is Some,
        id < builder.sprites().len() ==> mgr.place(id) == Some(normalized(mgr.frames()[id as int]))
            && inside(mgr.frames()[id as int]) && mgr.frames()[id as int].width
            == images[id as int].w() && mgr.frames()[id as int].height == images[id as int].h(),
{
    if id < builder.sprites().len() {
        assert(images[id as int].wf());
    }
}

/// The place of a frame as fractions of the atlas.
fn normalize(f: &Frame) -> (rect: Rect)
    ensures
        rect == normalized(*f),
{
    Rect {
        x: Scalar::new(f.x as i128, ATLAS_WIDTH as i128),
        y: Scalar::new(ATLAS_HEIGHT as i128 - f.y as i128, ATLAS_HEIGHT as i128),
        w: Scalar::new(f.width as i128, ATLAS_WIDTH as i128),
        h: Scalar::new(f.height as i128, ATLAS_HEIGHT as i128),
    }
}

/// The sizes of the images, in order.
fn sizes_of(images: &Vec<Bitmap>) -> (sizes: Vec<(u32, u32)>)
    ensures
        sizes@ == image_sizes(images@),
        sizes@.len() == images@.len(),
        forall|i: int|
            0 <= i < sizes@.len() ==> (#[trigger] sizes@[i]).0 == images@[i].w() && sizes@[i].1
                == images@[i].h(),
{
    let mut sizes: Vec<(u32, u32)> = Vec::new();
    let mut i: usize = 0;
    while i < images.len()
        invariant
            i <= images.len(),
            sizes@.len() == i,
            forall|k: int|
                0 <= k < i ==> (#[trigger] sizes@[k]).0 == images@[k].w() && sizes@[k].1
                    == images@[k].h(),
        decreases images.len() - i,
    {
        sizes.push((images[i].width(), images[i].height()));
        i = i + 1;
    }
    assert(sizes@ =~= image_sizes(images@));
    sizes
}

/// Collects the assets of a program: the files of its sprites and its fonts.
/// `build` then makes the atlas and the manager that the program reads from.
pub struct AssetsMgrBuilder {
    sprites_to_include: Vec<String>,
    fonts_to_include: Vec<u32>,
}

impl AssetsMgrBuilder {
    /// The paths of the sprites added so far, in the order of their ids.
    pub closed spec fn sprites(&self) -> Seq<Seq<char>> {
        self.sprites_to_include@.map_values(|path: String| path@)
    }

    /// The handles of the fonts added so far, in the order of their ids.
    pub closed spec fn fonts(&self) -> Seq<u32> {
        self.fonts_to_include@
    }

    /// A builder without assets.
    pub fn new() -> (builder: AssetsMgrBuilder)
        ensures
            builder.sprites() == Seq::<Seq<char>>::empty(),
            builder.fonts() == Seq::<u32>::empty(),
    {
        let builder = AssetsMgrBuilder {
            sprites_to_include: Vec::new(),
            fonts_to_include: Vec::new(),
        };
        assert(builder.sprites() =~= Seq::<Seq<char>>::empty());
        builder
    }

    /// Adds a sprite by the path of its image and gives it the next id. The
    /// file is not looked at before `build`.
    pub fn add_sprite(&mut self, path: &str) -> (id: SpriteId)
        ensures
            id == old(self).sprites().len(),
            final(self).sprites() == old(self).sprites().push(path@),
            final(self).fonts() == old(self).fonts(),
    {
        let id = self.sprites_to_include.len();
        self.sprites_to_include.push(path.to_owned());
        assert(self.sprites() =~= old(self).sprites().push(path@));
        id
    }

    /// Adds a font. `stream` holds what was read from the font's file, or
    /// `None` where the file could not be read: then the builder stays as it
    /// was and the result is `IoError`. Otherwise the bytes are handed to
    /// `register`, and the handle that it returns is kept under the next id.
    pub fn add_font<R>(&mut self, stream: Option<Vec<u8>>, register: R) -> (id: Result<
        FontId,
        AssetsMgrError,
    >) where R: FnOnce(Vec<u8>) -> u32
        requires
            forall|bytes: Vec<u8>| register.requires((bytes,)),
        ensures
            final(self).sprites() == old(self).sprites(),
            stream is None ==> id == Err::<FontId, AssetsMgrError>(AssetsMgrError::IoError)
                && final(self).fonts() == old(self).fonts(),
            stream matches Some(bytes) ==> {
                &&& id == Ok::<FontId, AssetsMgrError>(old(self).fonts().len() as usize)
                &&& final(self).fonts().len() == old(self).fonts().len() + 1
                &&& final(self).fonts().drop_last() == old(self).fonts()
                &&& register.ensures((bytes,), final(self).fonts().last())
            },
    {
        match stream {
            None => Err(AssetsMgrError::IoError),
            Some(bytes) => {
                let id = self.fonts_to_include.len();
                let handle = register(bytes);
                self.fonts_to_include.push(handle);
                assert(self.fonts().drop_last() =~= old(self).fonts());
                Ok(id)
            },
        }
    }

    /// The paths of the sprites added so far, in the order of their ids: what
    /// `build` expects to get the images of.
    pub fn sprite_paths(&self) -> (paths: &Vec<String>)
        ensures
            paths@.map_values(|path: String| path@) == self.sprites(),
    {
        &self.sprites_to_include
    }

    /// Makes the atlas and the manager.
    ///
    /// `images` holds the decoded images of the sprites, in the order of their
    /// ids, up to the first that could not be decoded. So where it is shorter
    /// than the list of sprites the result is `LoadError`. Otherwise the images
    /// are packed into the atlas, and the build succeeds exactly where their
    /// sizes have a packing; where one image finds no place the result is
    /// `PackError`, and one that would not fit the atlas alone never finds one.
    /// Then the atlas is drawn and handed to `upload`, whose handle the manager
    /// keeps. Without sprites `build` always succeeds, on a blank atlas.
    pub fn build<U>(self, images: Vec<Bitmap>, upload: U) -> (built: Result<
        AssetsMgr,
        AssetsMgrError,
    >) where U: FnOnce(Bitmap) -> u32
        requires
            forall|i: int| 0 <= i < images@.len() ==> (#[trigger] images@[i]).wf(),
            forall|atlas: Bitmap| atlas.wf() ==> upload.requires((atlas,)),
        ensures
            built is Ok <==> images@.len() == self.sprites().len() && packing_of(
                image_sizes(images@),
            ) is Some,
            images@.len() != self.sprites().len() ==> built == Err::<AssetsMgr, AssetsMgrError>(
                AssetsMgrError::LoadError,
            ),
            images@.len() == self.sprites().len() && packing_of(image_sizes(images@)) is None
                ==> built == Err::<AssetsMgr, AssetsMgrError>(AssetsMgrError::PackError),
            images@.len() == self.sprites().len() && (exists|i: int|
                0 <= i < images@.len() && !fits_alone(images@[i].w(), images@[i].h())) ==> built
                == Err::<AssetsMgr, AssetsMgrError>(AssetsMgrError::PackError),
            built matches Ok(mgr) ==> {
                &&& built_from(mgr, self, images@)
                &&& exists|atlas: Bitmap|
                    is_atlas(atlas, mgr.frames(), images@) && #[trigger] upload.ensures(
                        (atlas,),
                        mgr.atlas(),
                    )
            },
    {
        if images.len() != self.sprites_to_include.len() {
            return Err(AssetsMgrError::LoadError);
        }
        let sizes = sizes_of(&images);
        let frames = match pack_frames(&sizes) {
            None => {
                return Err(AssetsMgrError::PackError);
            },
            Some(frames) => frames,
        };
        let mut sprite_locations: Vec<Rect> = Vec::new();
        let mut i: usize = 0;
        while i < frames.len()
            invariant
                i <= frames.len(),
                sprite_locations@.len() == i,
                forall|k: int| 0 <= k < i ==> #[trigger] sprite_locations@[k] == normalized(frames@[k]),
            decreases frames.len() - i,
        {
            sprite_locations.push(normalize(&frames[i]));
            i = i + 1;
        }
        let atlas = gen_atlas(&frames, &images);
        let ghost drawn = atlas;
        let tex = upload(atlas);
        let mgr = AssetsMgr {
            frames: frames,
            sprite_locations: sprite_locations,
            fonts: self.fonts_to_include,
            tex: tex,
        };
        assert(is_atlas(drawn, mgr.frames(), images@) && upload.ensures((drawn,), mgr.atlas()));
        Ok(mgr)
    }
}

/// The assets of a program, once they are brought together: where each sprite
/// lies in the atlas, the handle of the atlas and the handles of the fonts.
/// Nothing in it changes after `build`.
pub struct AssetsMgr {
    frames: Vec<Frame>,
    sprite_locations: Vec<Rect>,
    fonts: Vec<u32>,
    tex: u32,
}

impl AssetsMgr {
    /// Every manager that the program holds is well formed.
    #[verifier::type_invariant]
    pub open spec fn inv(self) -> bool {
        self.wf()
    }

    /// The frame of each sprite in the atlas, in pixels, in the order of the
    /// sprites' ids.
    pub closed spec fn frames(&self) -> Seq<Frame> {
        self.frames@
    }

    /// The place of each sprite in the atlas, as fractions of the atlas, in
    /// the order of the sprites' ids.
    pub closed spec fn locations(&self) -> Seq<Rect> {
        self.sprite_locations@
    }

    /// The handle of each font, in the order of the fonts' ids.
    pub closed spec fn fonts(&self) -> Seq<u32> {
        self.fonts@
    }

    /// The handle of the atlas.
    pub closed spec fn atlas(&self) -> u32 {
        self.tex
    }

    /// What holds of every manager: the frames are a packing of the atlas, and
    /// the place of each sprite is its frame as fractions of the atlas.
    pub open spec fn wf(&self) -> bool {
        &&& is_packing(self.frames())
        &&& self.locations().len() == self.frames().len()
        &&& forall|i: int|
            0 <= i < self.frames().len() ==> #[trigger] self.locations()[i] == normalized(
                self.frames()[i],
            )
    }

    /// The place of a sprite in the atlas: `None` for an id that no sprite
    /// has.
    pub open spec fn place(&self, id: SpriteId) -> Option<Rect> {
        if id < self.locations().len() {
            Some(self.locations()[id as int])
        } else {
            None
        }
    }

    /// Where the sprite lies in the atlas: `x` from the left edge and `y` from
    /// the bottom edge, as fractions of the atlas. `None` for an id that no
    /// sprite has.
    pub fn get_sprite_offset(&self, id: SpriteId) -> (offset: Option<(Scalar, Scalar)>)
        ensures
            self.wf(),
            offset == match self.place(id) {
                Some(rect) => Some((rect.x, rect.y)),
                None => None,
            },
            offset matches Some(at) ==> at.0.is_unit() && at.1.is_unit(),
    {
        proof {
            use_type_invariant(self);
        }
        if id < self.sprite_locations.len() {
            assert(inside(self.frames()[id as int]));
            let rect = self.sprite_locations[id];
            Some((rect.x, rect.y))
        } else {
            None
        }
    }

    /// The size of the sprite, as fractions of the atlas. `None` for an id
    /// that no sprite has.
    pub fn get_sprite_size(&self, id: SpriteId) -> (size: Option<(Scalar, Scalar)>)
        ensures
            self.wf(),
            size == match self.place(id) {
                Some(rect) => Some((rect.w, rect.h)),
                None => None,
            },
            size matches Some(extent) ==> extent.0.is_unit() && extent.1.is_unit(),
    {
        proof {
            use_type_invariant(self);
        }
        if id < self.sprite_locations.len() {
            assert(inside(self.frames()[id as int]));
            let rect = self.sprite_locations[id];
            Some((rect.w, rect.h))
        } else {
            None
        }
    }

    /// The place of a sprite in the atlas.
    pub fn get_sprite_place(&self, id: SpriteId) -> (place: Rect)
        requires
            id < self.locations().len(),
        ensures
            self.wf(),
            place == self.locations()[id as int],
            place == normalized(self.frames()[id as int]),
            inside(self.frames()[id as int]),
    {
        proof {
            use_type_invariant(self);
        }
        self.sprite_locations[id]
    }

    /// The handle of the atlas, as the backend gave it.
    pub fn get_atlas(&self) -> (tex: u32)
        ensures
            tex == self.atlas(),
    {
        self.tex
    }

    /// The handle of a font, as the backend gave it.
    pub fn get_font(&self, id: &FontId) -> (handle: u32)
        requires
            *id < self.fonts().len(),
        ensures
            handle == self.fonts()[*id as int],
    {
        self.fonts[*id]
    }

    /// The number of sprites.
    pub fn sprite_count(&self) -> (count: usize)
        ensures
            count == self.locations().len(),
            count == self.frames().len(),
    {
        proof {
            use_type_invariant(self);
        }
        self.sprite_locations.len()
    }

    /// The number of fonts.
    pub fn font_count(&self) -> (count: usize)
        ensures
            count == self.fonts().len(),
    {
        self.fonts.len()
    }
}

} // verus!
