use crate::maths::Scalar;
use crate::tools::LayoutHash;
use vstd::bytes::lemma_auto_spec_u128_to_from_le_bytes;
use vstd::bytes::spec_u128_to_le_bytes;
use vstd::bytes::u128_to_le_bytes;
use vstd::prelude::*;

verus! {

/// One line: its layer, the two end points in normalized device space, and its
/// color.
#[derive(Clone, Copy, Debug, PartialEq, Eq, Structural)]
pub struct LineLayout {
    pub layer: Scalar,
    pub x1: Scalar,
    pub y1: Scalar,
    pub x2: Scalar,
    pub y2: Scalar,
    pub r: Scalar,
    pub g: Scalar,
    pub b: Scalar,
    pub a: Scalar,
}

/// One sprite: its layer, where it goes and how large it is drawn, in
/// normalized device space, and where its image lies in the atlas.
#[derive(Clone, Copy, Debug, PartialEq, Eq, Structural)]
pub struct SpriteLayout {
    pub layer: Scalar,
    pub x: Scalar,
    pub y: Scalar,
    pub target_w: Scalar,
    pub target_h: Scalar,
    pub atlas_u: Scalar,
    pub atlas_v: Scalar,
    pub atlas_w: Scalar,
    pub atlas_h: Scalar,
}

/// One filled rectangle: its layer, its corner and its two extents in
/// normalized device space, and its color.
#[derive(Clone, Copy, Debug, PartialEq, Eq, Structural)]
pub struct RectLayout {
    pub layer: Scalar,
    pub x: Scalar,
    pub y: Scalar,
    pub w: Scalar,
    pub h: Scalar,
    pub r: Scalar,
    pub g: Scalar,
    pub b: Scalar,
    pub a: Scalar,
}

/// A record with a color.
pub trait Paint: Copy {
    /// The record with another color.
    spec fn painted(self, r: Scalar, g: Scalar, b: Scalar, a: Scalar) -> Self;

    /// The record with another color.
    fn paint(self, r: Scalar, g: Scalar, b: Scalar, a: Scalar) -> (record: Self)
        ensures
            record == self.painted(r, g, b, a),
    ;
}

impl Paint for LineLayout {
    open spec fn painted(self, r: Scalar, g: Scalar, b: Scalar, a: Scalar) -> LineLayout {
        LineLayout {
            layer: self.layer,
            x1: self.x1,
            y1: self.y1,
            x2: self.x2,
            y2: self.y2,
            r: r,
            g: g,
            b: b,
            a: a,
        }
    }

    fn paint(self, r: Scalar, g: Scalar, b: Scalar, a: Scalar) -> (record: LineLayout) {
        LineLayout {
            layer: self.layer,
            x1: self.x1,
            y1: self.y1,
            x2: self.x2,
            y2: self.y2,
            r: r,
            g: g,
            b: b,
            a: a,
        }
    }
}

impl Paint for RectLayout {
    open spec fn painted(self, r: Scalar, g: Scalar, b: Scalar, a: Scalar) -> RectLayout {
        RectLayout {
            layer: self.layer,
            x: self.x,
            y: self.y,
            w: self.w,
            h: self.h,
            r: r,
            g: g,
            b: b,
            a: a,
        }
    }

    fn paint(self, r: Scalar, g: Scalar, b: Scalar, a: Scalar) -> (record: RectLayout) {
        RectLayout {
            layer: self.layer,
            x: self.x,
            y: self.y,
            w: self.w,
            h: self.h,
            r: r,
            g: g,
            b: b,
            a: a,
        }
    }
}

/// One run of text: its layer, where it begins in normalized device space,
/// the handle of its font and its characters.
#[derive(Debug, PartialEq, Eq)]
pub struct TextLayout {
    pub layer: Scalar,
    pub x: Scalar,
    pub y: Scalar,
    pub font: u32,
    pub text: String,
}

/// A run of text as plain values.
pub struct TextView {
    pub layer: Scalar,
    pub x: Scalar,
    pub y: Scalar,
    pub font: u32,
    pub text: Seq<char>,
}

impl View for TextLayout {
    type V = TextView;

    open spec fn view(&self) -> TextView {
        TextView { layer: self.layer, x: self.x, y: self.y, font: self.font, text: self.text@ }
    }
}

/// The number of bytes that stand for one record of nine fractions.
pub const RECORD_BYTES: usize = 288;

/// A signed number as the unsigned number with the same bits.
pub open spec fn twos(v: i128) -> u128 {
    if v >= 0 {
        v as u128
    } else {
        (v + 0x1_0000_0000_0000_0000_0000_0000_0000_0000) as u128
    }
}

/// The bytes of a fraction: numerator, then denominator, each as sixteen
/// bytes, lowest first.
pub open spec fn scalar_bytes(s: Scalar) -> Seq<u8> {
    spec_u128_to_le_bytes(twos(s.num)) + spec_u128_to_le_bytes(twos(s.den))
}

/// The bytes of nine fractions, in order.
pub open spec fn nine_bytes(
    f0: Scalar,
    f1: Scalar,
    f2: Scalar,
    f3: Scalar,
    f4: Scalar,
    f5: Scalar,
    f6: Scalar,
    f7: Scalar,
    f8: Scalar,
) -> Seq<u8> {
    scalar_bytes(f0) + scalar_bytes(f1) + scalar_bytes(f2) + scalar_bytes(f3) + scalar_bytes(f4)
        + scalar_bytes(f5) + scalar_bytes(f6) + scalar_bytes(f7) + scalar_bytes(f8)
}

/// Two sequences that begin with parts of one length are equal only if the
/// parts are, and what follows them.
pub proof fn lemma_split(a: Seq<u8>, b: Seq<u8>, c: Seq<u8>, d: Seq<u8>)
    requires
        a.len() == c.len(),
        a + b == c + d,
    ensures
        a == c,
        b == d,
{
    assert((a + b).subrange(0, a.len() as int) =~= a);
    assert((c + d).subrange(0, c.len() as int) =~= c);
    assert((a + b).subrange(a.len() as int, (a + b).len() as int) =~= b);
    assert((c + d).subrange(c.len() as int, (c + d).len() as int) =~= d);
}

/// A fraction has 32 bytes, and two fractions with the same bytes are the
/// same fraction.
pub proof fn lemma_scalar_bytes(s: Scalar, t: Scalar)
    ensures
        scalar_bytes(s).len() == 32,
        scalar_bytes(t).len() == 32,
        scalar_bytes(s) == scalar_bytes(t) ==> s == t,
{
    lemma_auto_spec_u128_to_from_le_bytes();
    if scalar_bytes(s) == scalar_bytes(t) {
        lemma_split(
            spec_u128_to_le_bytes(twos(s.num)),
            spec_u128_to_le_bytes(twos(s.den)),
            spec_u128_to_le_bytes(twos(t.num)),
            spec_u128_to_le_bytes(twos(t.den)),
        );
        assert(twos(s.num) == twos(t.num));
        assert(twos(s.den) == twos(t.den));
    }
}

/// Nine fractions have 288 bytes, and the same bytes only if they are the
/// same fractions.
pub proof fn lemma_nine_bytes(
    a0: Scalar,
    a1: Scalar,
    a2: Scalar,
    a3: Scalar,
    a4: Scalar,
    a5: Scalar,
    a6: Scalar,
    a7: Scalar,
    a8: Scalar,
    b0: Scalar,
    b1: Scalar,
    b2: Scalar,
    b3: Scalar,
    b4: Scalar,
    b5: Scalar,
    b6: Scalar,
    b7: Scalar,
    b8: Scalar,
)
    ensures
        nine_bytes(a0, a1, a2, a3, a4, a5, a6, a7, a8).len() == RECORD_BYTES,
        nine_bytes(a0, a1, a2, a3, a4, a5, a6, a7, a8) == nine_bytes(
            b0,
            b1,
            b2,
            b3,
            b4,
            b5,
            b6,
            b7,
            b8,
        ) ==> a0 == b0 && a1 == b1 && a2 == b2 && a3 == b3 && a4 == b4 && a5 == b5 && a6 == b6 && a7
            == b7 && a8 == b8,
{
    lemma_scalar_bytes(a0, b0);
    lemma_scalar_bytes(a1, b1);
    lemma_scalar_bytes(a2, b2);
    lemma_scalar_bytes(a3, b3);
    lemma_scalar_bytes(a4, b4);
    lemma_scalar_bytes(a5, b5);
    lemma_scalar_bytes(a6, b6);
    lemma_scalar_bytes(a7, b7);
    lemma_scalar_bytes(a8, b8);
    if nine_bytes(a0, a1, a2, a3, a4, a5, a6, a7, a8) == nine_bytes(
        b0,
        b1,
        b2,
        b3,
        b4,
        b5,
        b6,
        b7,
        b8,
    ) {
        let a1s = scalar_bytes(a0) + scalar_bytes(a1);
        let b1s = scalar_bytes(b0) + scalar_bytes(b1);
        let a2s = a1s + scalar_bytes(a2);
        let b2s = b1s + scalar_bytes(b2);
        let a3s = a2s + scalar_bytes(a3);
        let b3s = b2s + scalar_bytes(b3);
        let a4s = a3s + scalar_bytes(a4);
        let b4s = b3s + scalar_bytes(b4);
        let a5s = a4s + scalar_bytes(a5);
        let b5s = b4s + scalar_bytes(b5);
        let a6s = a5s + scalar_bytes(a6);
        let b6s = b5s + scalar_bytes(b6);
        let a7s = a6s + scalar_bytes(a7);
        let b7s = b6s + scalar_bytes(b7);
        assert(a1s.len() == 64 && b1s.len() == 64);
        assert(a2s.len() == 96 && b2s.len() == 96);
        assert(a3s.len() == 128 && b3s.len() == 128);
        assert(a4s.len() == 160 && b4s.len() == 160);
        assert(a5s.len() == 192 && b5s.len() == 192);
        assert(a6s.len() == 224 && b6s.len() == 224);
        assert(a7s.len() == 256 && b7s.len() == 256);
        lemma_split(a7s, scalar_bytes(a8), b7s, scalar_bytes(b8));
        lemma_split(a6s, scalar_bytes(a7), b6s, scalar_bytes(b7));
        lemma_split(a5s, scalar_bytes(a6), b5s, scalar_bytes(b6));
        lemma_split(a4s, scalar_bytes(a5), b4s, scalar_bytes(b5));
        lemma_split(a3s, scalar_bytes(a4), b3s, scalar_bytes(b4));
        lemma_split(a2s, scalar_bytes(a3), b2s, scalar_bytes(b3));
        lemma_split(a1s, scalar_bytes(a2), b1s, scalar_bytes(b2));
        lemma_split(scalar_bytes(a0), scalar_bytes(a1), scalar_bytes(b0), scalar_bytes(b1));
    }
}

fn twos_of(v: i128) -> (u: u128)
    ensures
        u == twos(v),
{
    if v >= 0 {
        v as u128
    } else {
        let below: i128 = -(v + 1);
        u128::MAX - (below as u128)
    }
}

fn put_scalar(out: &mut Vec<u8>, s: Scalar)
    ensures
        final(out)@ == old(out)@ + scalar_bytes(s),
{
    let mut num = u128_to_le_bytes(twos_of(s.num));
    let mut den = u128_to_le_bytes(twos_of(s.den));
    out.append(&mut num);
    out.append(&mut den);
    assert(out@ =~= old(out)@ + scalar_bytes(s));
}

fn put_nine(
    out: &mut Vec<u8>,
    f0: Scalar,
    f1: Scalar,
    f2: Scalar,
    f3: Scalar,
    f4: Scalar,
    f5: Scalar,
    f6: Scalar,
    f7: Scalar,
    f8: Scalar,
)
    ensures
        final(out)@ == old(out)@ + nine_bytes(f0, f1, f2, f3, f4, f5, f6, f7, f8),
{
    put_scalar(out, f0);
    put_scalar(out, f1);
    put_scalar(out, f2);
    put_scalar(out, f3);
    put_scalar(out, f4);
    put_scalar(out, f5);
    put_scalar(out, f6);
    put_scalar(out, f7);
    put_scalar(out, f8);
    assert(out@ =~= old(out)@ + nine_bytes(f0, f1, f2, f3, f4, f5, f6, f7, f8));
}

impl LayoutHash for LineLayout {
    open spec fn hash_bytes(&self) -> Seq<u8> {
        nine_bytes(
            self.layer,
            self.x1,
            self.y1,
            self.x2,
            self.y2,
            self.r,
            self.g,
            self.b,
            self.a,
        )
    }

    open spec fn hash_len() -> nat {
        RECORD_BYTES as nat
    }

    fn hash(&self, out: &mut Vec<u8>) {
        put_nine(
            out,
            self.layer,
            self.x1,
            self.y1,
            self.x2,
            self.y2,
            self.r,
            self.g,
            self.b,
            self.a,
        );
    }

    proof fn lemma_hash_bytes(&self, other: &Self) {
        lemma_nine_bytes(
            self.layer,
            self.x1,
            self.y1,
            self.x2,
            self.y2,
            self.r,
            self.g,
            self.b,
            self.a,
            other.layer,
            other.x1,
            other.y1,
            other.x2,
            other.y2,
            other.r,
            other.g,
            other.b,
            other.a,
        );
    }
}

impl LayoutHash for SpriteLayout {
    open spec fn hash_bytes(&self) -> Seq<u8> {
        nine_bytes(
            self.layer,
            self.x,
            self.y,
            self.target_w,
            self.target_h,
            self.atlas_u,
            self.atlas_v,
            self.atlas_w,
            self.atlas_h,
        )
    }

    open spec fn hash_len() -> nat {
        RECORD_BYTES as nat
    }

    fn hash(&self, out: &mut Vec<u8>) {
        put_nine(
            out,
            self.layer,
            self.x,
            self.y,
            self.target_w,
            self.target_h,
            self.atlas_u,
            self.atlas_v,
            self.atlas_w,
            self.atlas_h,
        );
    }

    proof fn lemma_hash_bytes(&self, other: &Self) {
        lemma_nine_bytes(
            self.layer,
            self.x,
            self.y,
            self.target_w,
            self.target_h,
            self.atlas_u,
            self.atlas_v,
            self.atlas_w,
            self.atlas_h,
            other.layer,
            other.x,
            other.y,
            other.target_w,
            other.target_h,
            other.atlas_u,
            other.atlas_v,
            other.atlas_w,
            other.atlas_h,
        );
    }
}

impl LayoutHash for RectLayout {
    open spec fn hash_bytes(&self) -> Seq<u8> {
        nine_bytes(self.layer, self.x, self.y, self.w, self.h, self.r, self.g, self.b, self.a)
    }

    open spec fn hash_len() -> nat {
        RECORD_BYTES as nat
    }

    fn hash(&self, out: &mut Vec<u8>) {
        put_nine(out, self.layer, self.x, self.y, self.w, self.h, self.r, self.g, self.b, self.a);
    }

    proof fn lemma_hash_bytes(&self, other: &Self) {
        lemma_nine_bytes(
            self.layer,
            self.x,
            self.y,
            self.w,
            self.h,
            self.r,
            self.g,
            self.b,
            self.a,
            other.layer,
            other.x,
            other.y,
            other.w,
            other.h,
            other.r,
            other.g,
            other.b,
            other.a,
        );
    }
}

} // verus!
