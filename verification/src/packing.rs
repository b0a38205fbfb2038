use vstd::prelude::*;

verus! {

/// The width of the atlas, in pixels.
pub const ATLAS_WIDTH: u32 = 1024;

/// The height of the atlas, in pixels.
pub const ATLAS_HEIGHT: u32 = 1024;

/// The least distance between an image and an edge of the atlas.
pub const BORDER_PADDING: u32 = 5;

/// The least distance between two images of the atlas.
pub const RECTANGLE_PADDING: u32 = 10;

/// The place of one image in the atlas, in pixels from its top left corner.
#[derive(Clone, Copy, Debug, PartialEq, Eq, Structural)]
pub struct Frame {
    pub x: u32,
    pub y: u32,
    pub width: u32,
    pub height: u32,
}

/// What the packer proposes for one image, as it gives it.
#[derive(Clone, Copy, Debug, PartialEq, Eq, Structural)]
pub struct Placement {
    pub x: i32,
    pub y: i32,
    pub width: i32,
    pub height: i32,
}

/// Whether an image of this size fits the atlas when it is alone in it.
pub open spec fn fits_alone(width: int, height: int) -> bool {
    &&& 0 < width
    &&& 0 < height
    &&& width + 2 * BORDER_PADDING <= ATLAS_WIDTH
    &&& height + 2 * BORDER_PADDING <= ATLAS_HEIGHT
}

/// Whether the frame lies in the atlas and keeps the border padding to each
/// of its edges.
pub open spec fn inside(f: Frame) -> bool {
    &&& BORDER_PADDING <= f.x
    &&& BORDER_PADDING <= f.y
    &&& f.x + f.width + BORDER_PADDING <= ATLAS_WIDTH
    &&& f.y + f.height + BORDER_PADDING <= ATLAS_HEIGHT
}

/// Whether two frames keep the rectangle padding between them: one of them
/// ends that far before the other begins, along a row or along a column. Two
/// frames that are apart share no pixel, and neither do they once each is
/// grown by the padding to the right and downwards.
pub open spec fn apart(a: Frame, b: Frame) -> bool {
    ||| a.x + a.width + RECTANGLE_PADDING <= b.x
    ||| b.x + b.width + RECTANGLE_PADDING <= a.x
    ||| a.y + a.height + RECTANGLE_PADDING <= b.y
    ||| b.y + b.height + RECTANGLE_PADDING <= a.y
}

/// Whether `f` is apart from each of `frames`.
pub open spec fn apart_from_all(f: Frame, frames: Seq<Frame>) -> bool {
    forall|i: int| 0 <= i < frames.len() ==> apart(f, #[trigger] frames[i])
}

/// Whether the frames are a packing: each inside the atlas, any two apart.
pub open spec fn is_packing(frames: Seq<Frame>) -> bool {
    &&& forall|i: int| 0 <= i < frames.len() ==> inside(#[trigger] frames[i])
    &&& forall|i: int, j: int|
        0 <= i < j < frames.len() ==> apart(#[trigger] frames[i], #[trigger] frames[j])
}

/// Whether `frames` has, for each of `sizes` in order, a frame of that size.
pub open spec fn sized_as(frames: Seq<Frame>, sizes: Seq<(u32, u32)>) -> bool {
    &&& frames.len() == sizes.len()
    &&& forall|i: int|
        0 <= i < frames.len() ==> (#[trigger] frames[i]).width == sizes[i].0 && frames[i].height
            == sizes[i].1
}

/// Whether the packer's proposal is a frame for an image of the given size.
pub open spec fn proposes(p: Placement, width: u32, height: u32) -> bool {
    &&& p.width == width
    &&& p.height == height
    &&& BORDER_PADDING <= p.x
    &&& BORDER_PADDING <= p.y
    &&& p.x + p.width + BORDER_PADDING <= ATLAS_WIDTH
    &&& p.y + p.height + BORDER_PADDING <= ATLAS_HEIGHT
}

/// The frame that a proposal describes.
pub open spec fn frame_of(p: Placement) -> Frame {
    Frame { x: p.x as u32, y: p.y as u32, width: p.width as u32, height: p.height as u32 }
}

/// `rect_packer::Packer`, the state of a packing in progress. Nothing is
/// claimed of what it holds.
#[verifier::external_type_specification]
#[verifier::external_body]
pub struct ExPacker(rect_packer::Packer);

/// The free room of a packer: its skyline, the lines below which the atlas is
/// taken, from left to right, each with where it begins, how far down it lies
/// and how wide it is.
pub uninterp spec fn packer_free(packer: rect_packer::Packer) -> Seq<(int, int, int)>;

/// What a packer was made with: the atlas' width and height, the border
/// padding and the rectangle padding.
pub uninterp spec fn packer_made_with(packer: rect_packer::Packer) -> (int, int, int, int);

/// What `rect_packer::Packer::pack`, without rotation, answers for an image
/// of this width and height, asked of a packer that was made with `made_with`
/// and whose free room is `free`.
pub uninterp spec fn pack_answer(
    made_with: (int, int, int, int),
    free: Seq<(int, int, int)>,
    width: int,
    height: int,
) -> Option<Placement>;

/// The free room that `rect_packer::Packer::pack`, without rotation, leaves
/// where it found room for an image of this width and height in a packer that
/// was made with `made_with` and whose free room was `free`.
pub uninterp spec fn pack_leaves(
    made_with: (int, int, int, int),
    free: Seq<(int, int, int)>,
    width: int,
    height: int,
) -> Seq<(int, int, int)>;

/// The free room of a new packer: one line at the top, as wide as the atlas
/// and one rectangle padding, less the border padding at either side, and not
/// less than nothing.
pub open spec fn all_free(made_with: (int, int, int, int)) -> Seq<(int, int, int)> {
    let width = made_with.0 + made_with.3 - 2 * made_with.2;
    seq![(0int, 0int, if width >= 0 { width } else { 0int })]
}

/// `rect_packer::Packer::new` with a `Config` of the four numbers: a packer
/// whose room is all free. The bounds keep the sums that it computes within
/// `i32`.
#[verifier::external_body]
fn new_packer(
    width: i32,
    height: i32,
    border_padding: i32,
    rectangle_padding: i32,
) -> (packer: rect_packer::Packer)
    requires
        0 <= width <= 0xffff,
        0 <= height <= 0xffff,
        0 <= border_padding <= 0xffff,
        0 <= rectangle_padding <= 0xffff,
    ensures
        packer_made_with(packer) == (
            width as int,
            height as int,
            border_padding as int,
            rectangle_padding as int,
        ),
        packer_free(packer) == all_free(packer_made_with(packer)),
{
    rect_packer::Packer::new(
        rect_packer::Config {
            width: width,
            height: height,
            border_padding: border_padding,
            rectangle_padding: rectangle_padding,
        },
    )
}

/// `rect_packer::Packer::pack` without rotation: the packer's proposal for one
/// more image, or `None` where it finds no room. The proposal depends on what
/// the packer was made with and on its free room, and on nothing else, and so
/// does the free room that is left where it found room; where it found none
/// the packer stays as it was. The bounds keep the sums that it computes
/// within `i32`. Nothing is claimed of where the proposal lies: `accept`
/// examines it.
#[verifier::external_body]
fn propose(packer: &mut rect_packer::Packer, width: i32, height: i32) -> (proposal: Option<
    Placement,
>)
    requires
        0 < width <= 0xffff,
        0 < height <= 0xffff,
    ensures
        proposal == pack_answer(
            packer_made_with(*old(packer)),
            packer_free(*old(packer)),
            width as int,
            height as int,
        ),
        packer_made_with(*final(packer)) == packer_made_with(*old(packer)),
        packer_free(*final(packer)) == if proposal is Some {
            pack_leaves(
                packer_made_with(*old(packer)),
                packer_free(*old(packer)),
                width as int,
                height as int,
            )
        } else {
            packer_free(*old(packer))
        },
{
    packer.pack(width, height, false).map(
        |r| Placement { x: r.x, y: r.y, width: r.width, height: r.height },
    )
}

/// Whether two frames keep the rectangle padding between them.
pub fn are_apart(a: &Frame, b: &Frame) -> (r: bool)
    ensures
        r == apart(*a, *b),
{
    let pad = RECTANGLE_PADDING as u64;
    a.x as u64 + a.width as u64 + pad <= b.x as u64 || b.x as u64 + b.width as u64 + pad
        <= a.x as u64 || a.y as u64 + a.height as u64 + pad <= b.y as u64 || b.y as u64
        + b.height as u64 + pad <= a.y as u64
}

/// Examines what the packer proposed for an image of the given size, next to
/// the frames that were accepted before: the proposal is taken where it is a
/// frame of that size, inside the atlas and apart from each of them, and
/// refused otherwise.
pub fn accept(proposal: Option<Placement>, width: u32, height: u32, placed: &Vec<Frame>) -> (r:
    Option<Frame>)
    ensures
        r is Some <==> proposal is Some && proposes(proposal->0, width, height) && apart_from_all(
            frame_of(proposal->0),
            placed@,
        ),
        r matches Some(f) ==> f == frame_of(proposal->0) && f.width == width && f.height == height
            && inside(f),
{
    let p = match proposal {
        None => {
            return None;
        },
        Some(p) => p,
    };
    let border = BORDER_PADDING as i64;
    if p.x < 0 || p.y < 0 || p.width < 0 || p.height < 0 {
        return None;
    }
    if p.width as i64 != width as i64 || p.height as i64 != height as i64 {
        return None;
    }
    if (p.x as i64) < border || (p.y as i64) < border {
        return None;
    }
    if p.x as i64 + p.width as i64 + border > ATLAS_WIDTH as i64 || p.y as i64 + p.height as i64
        + border > ATLAS_HEIGHT as i64 {
        return None;
    }
    let frame = Frame { x: p.x as u32, y: p.y as u32, width: p.width as u32, height: p.height as u32 };
    let mut i: usize = 0;
    while i < placed.len()
        invariant
            i <= placed.len(),
            frame == frame_of(p),
            proposal == Some(p),
            proposes(p, width, height),
            forall|k: int| 0 <= k < i ==> apart(frame, #[trigger] placed@[k]),
        decreases placed.len() - i,
    {
        if !are_apart(&frame, &placed[i]) {
            assert(!apart(frame_of(p), placed@[i as int]));
            return None;
        }
        i = i + 1;
    }
    Some(frame)
}

/// What the atlas' packer is made with.
pub open spec fn atlas_packer() -> (int, int, int, int) {
    (ATLAS_WIDTH as int, ATLAS_HEIGHT as int, BORDER_PADDING as int, RECTANGLE_PADDING as int)
}

/// Whether an image of this size finds a place where the free room is `free`
/// and the frames `placed` are taken: it fits the atlas alone, the packer
/// proposes a frame for it, and the proposal is accepted.
pub open spec fn finds_place(free: Seq<(int, int, int)>, placed: Seq<Frame>, size: (u32, u32)) -> bool {
    let answer = pack_answer(atlas_packer(), free, size.0 as int, size.1 as int);
    &&& fits_alone(size.0 as int, size.1 as int)
    &&& answer is Some
    &&& proposes(answer->0, size.0, size.1)
    &&& apart_from_all(frame_of(answer->0), placed)
}

/// The frames of images of the given sizes, packed in order into an empty
/// atlas, and the free room that they leave: each image gets the frame that
/// the packer proposes for it in the room that those before it left. There is
/// no packing where one image finds no place.
pub open spec fn packing_from(sizes: Seq<(u32, u32)>) -> Option<(Seq<Frame>, Seq<(int, int, int)>)>
    decreases sizes.len(),
{
    if sizes.len() == 0 {
        Some((Seq::empty(), all_free(atlas_packer())))
    } else {
        match packing_from(sizes.drop_last()) {
            None => None,
            Some(before) => if finds_place(before.1, before.0, sizes.last()) {
                Some(
                    (
                        before.0.push(
                            frame_of(
                                pack_answer(
                                    atlas_packer(),
                                    before.1,
                                    sizes.last().0 as int,
                                    sizes.last().1 as int,
                                )->0,
                            ),
                        ),
                        pack_leaves(
                            atlas_packer(),
                            before.1,
                            sizes.last().0 as int,
                            sizes.last().1 as int,
                        ),
                    ),
                )
            } else {
                None
            },
        }
    }
}

/// The frames of images of the given sizes, packed in order into an empty
/// atlas, or nothing where one image finds no place.
pub open spec fn packing_of(sizes: Seq<(u32, u32)>) -> Option<Seq<Frame>> {
    match packing_from(sizes) {
        Some(packing) => Some(packing.0),
        None => None,
    }
}

/// Where sizes have a packing, so have the first of them, and the packing of
/// the first is the beginning of the packing of all.
pub proof fn lemma_packing_of_front(sizes: Seq<(u32, u32)>, n: int)
    requires
        0 <= n <= sizes.len(),
        packing_of(sizes) is Some,
    ensures
        packing_of(sizes.take(n)) is Some,
        packing_of(sizes.take(n))->0 == packing_of(sizes)->0.take(n),
        packing_of(sizes)->0.len() == sizes.len(),
    decreases sizes.len(),
{
    if sizes.len() == 0 {
        assert(sizes.take(n) =~= sizes);
        assert(packing_of(sizes)->0.take(n) =~= packing_of(sizes)->0);
    } else {
        let front = sizes.drop_last();
        lemma_packing_of_front(front, front.len() as int);
        if n == sizes.len() {
            assert(sizes.take(n) =~= sizes);
            assert(packing_of(sizes)->0.take(n) =~= packing_of(sizes)->0);
        } else {
            lemma_packing_of_front(front, n);
            assert(front.take(n) =~= sizes.take(n));
            assert(packing_of(front)->0.take(n) =~= packing_of(sizes)->0.take(n));
        }
    }
}

/// A packing has a frame of its size for each image, and its frames are a
/// packing of the atlas; every image of it fits the atlas alone.
pub proof fn lemma_packing_of(sizes: Seq<(u32, u32)>)
    requires
        packing_of(sizes) is Some,
    ensures
        sized_as(packing_of(sizes)->0, sizes),
        is_packing(packing_of(sizes)->0),
        forall|i: int|
            0 <= i < sizes.len() ==> fits_alone((#[trigger] sizes[i]).0 as int, sizes[i].1 as int),
    decreases sizes.len(),
{
    if sizes.len() > 0 {
        let front = sizes.drop_last();
        lemma_packing_of(front);
        let placed = packing_of(front)->0;
        let all = packing_of(sizes)->0;
        let frame = all.last();
        assert forall|i: int| 0 <= i < all.len() implies inside(#[trigger] all[i]) && all[i].width
            == sizes[i].0 && all[i].height == sizes[i].1 by {
            if i < placed.len() {
                assert(all[i] == placed[i]);
                assert(sizes[i] == front[i]);
            }
        }
        assert forall|i: int, j: int| 0 <= i < j < all.len() implies apart(
            #[trigger] all[i],
            #[trigger] all[j],
        ) by {
            assert(all[i] == placed[i]);
            if j < placed.len() {
                assert(all[j] == placed[j]);
            } else {
                assert(apart(frame, placed[i]));
            }
        }
        assert forall|i: int| 0 <= i < sizes.len() implies fits_alone(
            (#[trigger] sizes[i]).0 as int,
            sizes[i].1 as int,
        ) by {
            if i < front.len() {
                assert(sizes[i] == front[i]);
            }
        }
    }
}

/// Where the first of the sizes have no packing, none of them has.
pub proof fn lemma_no_packing(sizes: Seq<(u32, u32)>, n: int)
    requires
        0 <= n <= sizes.len(),
        packing_of(sizes.take(n)) is None,
    ensures
        packing_of(sizes) is None,
{
    if packing_of(sizes) is Some {
        lemma_packing_of_front(sizes, n);
    }
}

/// Packs images of the given sizes into the atlas, in order: the result is
/// `packing_of` the sizes. So there is a result exactly where every image, in
/// its turn, fits the atlas alone and is given a frame by the packer that is
/// of its size, inside the atlas and apart from the frames before it; the
/// frames are then a packing, one of its size for each image.
pub fn pack_frames(sizes: &Vec<(u32, u32)>) -> (frames: Option<Vec<Frame>>)
    ensures
        frames matches Some(f) ==> packing_of(sizes@) == Some(f@),
        frames is None ==> packing_of(sizes@) is None,
        frames matches Some(f) ==> sized_as(f@, sizes@) && is_packing(f@),
        sizes@.len() == 0 ==> frames is Some,
        (exists|i: int| 0 <= i < sizes@.len() && !fits_alone(sizes@[i].0 as int, sizes@[i].1 as int))
            ==> frames is None,
{
    let mut packer = new_packer(
        ATLAS_WIDTH as i32,
        ATLAS_HEIGHT as i32,
        BORDER_PADDING as i32,
        RECTANGLE_PADDING as i32,
    );
    let mut placed: Vec<Frame> = Vec::new();
    let mut i: usize = 0;
    assert(sizes@.take(0) =~= Seq::<(u32, u32)>::empty());
    while i < sizes.len()
        invariant
            i <= sizes.len(),
            packer_made_with(packer) == atlas_packer(),
            packing_from(sizes@.take(i as int)) == Some((placed@, packer_free(packer))),
        decreases sizes.len() - i,
    {
        let (width, height) = sizes[i];
        proof {
            assert(sizes@.take(i as int + 1).drop_last() =~= sizes@.take(i as int));
            assert(sizes@.take(i as int + 1).last() == sizes@[i as int]);
        }
        if width == 0 || height == 0 || width > ATLAS_WIDTH - 2 * BORDER_PADDING || height
            > ATLAS_HEIGHT - 2 * BORDER_PADDING {
            proof {
                lemma_no_packing(sizes@, i as int + 1);
            }
            return None;
        }
        let proposal = propose(&mut packer, width as i32, height as i32);
        match accept(proposal, width, height, &placed) {
            None => {
                proof {
                    lemma_no_packing(sizes@, i as int + 1);
                }
                return None;
            },
            Some(frame) => {
                placed.push(frame);
            },
        }
        i = i + 1;
    }
    proof {
        assert(sizes@.take(i as int) =~= sizes@);
        lemma_packing_of(sizes@);
        if exists|k: int| 0 <= k < sizes@.len() && !fits_alone(sizes@[k].0 as int, sizes@[k].1 as int) {
            let k = choose|k: int|
                0 <= k < sizes@.len() && !fits_alone(sizes@[k].0 as int, sizes@[k].1 as int);
            assert(fits_alone(sizes@[k].0 as int, sizes@[k].1 as int));
        }
    }
    Some(placed)
}

} // verus!
