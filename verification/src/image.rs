//! A decoded 4:2:0 picture as the engine hands it out, and its planar
//! serialisation: the visible bytes of each row, without the stride padding.

use vstd::prelude::*;

verus! {

/// What a picture is: three planes of bytes, the distance in bytes between
/// two rows of each plane, and the visible size of the luma plane.
pub struct Picture {
    /// Plane 0 is luma, planes 1 and 2 are chroma.
    pub planes: Seq<Seq<u8>>,
    /// Bytes from the start of one row to the start of the next, per plane.
    pub stride: Seq<int>,
    /// Visible luma width.
    pub d_w: int,
    /// Visible luma height.
    pub d_h: int,
}

/// Visible width of plane `i`: chroma is half as wide as luma.
pub open spec fn plane_width(d_w: int, i: int) -> int {
    if i == 0 {
        d_w
    } else {
        d_w / 2
    }
}

/// Visible height of plane `i`: chroma is half as high as luma.
pub open spec fn plane_height(d_h: int, i: int) -> int {
    if i == 0 {
        d_h
    } else {
        d_h / 2
    }
}

/// Every visible row of a plane of `len` bytes lies inside the plane.
pub open spec fn plane_fits(len: int, stride: int, width: int, height: int) -> bool {
    &&& 0 <= stride
    &&& 0 <= width
    &&& 0 <= height
    &&& height == 0 || (height - 1) * stride + width <= len
}

/// Row `r` of a plane: `width` bytes from offset `r * stride`.
pub open spec fn row(plane: Seq<u8>, stride: int, width: int, r: int) -> Seq<u8> {
    plane.subrange(r * stride, r * stride + width)
}

/// The first `count` rows of a plane, one after the other.
pub open spec fn rows(plane: Seq<u8>, stride: int, width: int, count: int) -> Seq<u8>
    decreases count,
{
    if count <= 0 {
        Seq::empty()
    } else {
        rows(plane, stride, width, count - 1) + row(plane, stride, width, count - 1)
    }
}

/// Number of bytes of a serialised picture of the given visible size.
pub open spec fn planar_len(d_w: int, d_h: int) -> int {
    d_w * d_h + 2 * ((d_w / 2) * (d_h / 2))
}

impl Picture {
    /// Three planes, three strides, and every visible row inside its plane.
    pub open spec fn wf(self) -> bool {
        &&& self.planes.len() == 3
        &&& self.stride.len() == 3
        &&& forall|i: int|
            0 <= i < 3 ==> plane_fits(
                (#[trigger] self.planes[i]).len() as int,
                self.stride[i],
                plane_width(self.d_w, i),
                plane_height(self.d_h, i),
            )
    }

    /// The visible rows of plane `i`.
    pub open spec fn plane_rows(self, i: int) -> Seq<u8> {
        rows(
            self.planes[i],
            self.stride[i],
            plane_width(self.d_w, i),
            plane_height(self.d_h, i),
        )
    }

    /// The serialised picture: the luma rows, followed by the rows of each
    /// chroma plane.
    pub open spec fn planar(self) -> Seq<u8> {
        self.plane_rows(0) + self.plane_rows(1) + self.plane_rows(2)
    }
}

/// A plane that holds `count` rows holds any smaller number of them, and
/// each of its rows lies inside it.
pub proof fn lemma_fits_fewer(len: int, stride: int, width: int, count: int, r: int)
    requires
        plane_fits(len, stride, width, count),
        0 <= r < count,
    ensures
        plane_fits(len, stride, width, r),
        0 <= r * stride,
        r * stride + width <= len,
{
    assert(0 <= r * stride <= (count - 1) * stride) by (nonlinear_arith)
        requires
            0 <= r <= count - 1,
            0 <= stride,
    ;
    if r > 0 {
        assert((r - 1) * stride <= r * stride) by (nonlinear_arith)
            requires
                r >= 1,
                0 <= stride,
        ;
    }
}

/// Rows that fit in their plane are `width` bytes each.
pub proof fn lemma_rows_len(plane: Seq<u8>, stride: int, width: int, count: int)
    requires
        plane_fits(plane.len() as int, stride, width, count),
    ensures
        rows(plane, stride, width, count).len() == count * width,
    decreases count,
{
    if count > 0 {
        lemma_fits_fewer(plane.len() as int, stride, width, count, count - 1);
        lemma_rows_len(plane, stride, width, count - 1);
        assert((count - 1) * width + width == count * width) by (nonlinear_arith);
    }
}

/// Byte `k` of the rows of a plane is the byte in row `k / width`, column
/// `k % width`: the padding between `width` and `stride` never comes out.
pub proof fn lemma_rows_index(plane: Seq<u8>, stride: int, width: int, count: int, k: int)
    requires
        plane_fits(plane.len() as int, stride, width, count),
        0 <= k < count * width,
    ensures
        width > 0,
        0 <= k / width < count,
        0 <= (k / width) * stride + k % width < plane.len(),
        rows(plane, stride, width, count)[k] == plane[(k / width) * stride + k % width],
    decreases count,
{
    assert(width > 0 && count > 0) by (nonlinear_arith)
        requires
            0 <= k < count * width,
            0 <= width,
            0 <= count,
    ;
    let before = count - 1;
    lemma_fits_fewer(plane.len() as int, stride, width, count, before);
    lemma_rows_len(plane, stride, width, before);
    assert(before * width + width == count * width) by (nonlinear_arith)
        requires
            before + 1 == count,
    ;
    if k < before * width {
        lemma_rows_index(plane, stride, width, before, k);
    } else {
        let c = k - before * width;
        assert(k / width == before && k % width == c) by (nonlinear_arith)
            requires
                k == before * width + c,
                0 <= c < width,
        ;
        assert(rows(plane, stride, width, count)[k] == row(plane, stride, width, before)[c]);
    }
}

impl Picture {
    /// A well-formed picture serialises to `planar_len` bytes.
    pub proof fn lemma_planar_len(self)
        requires
            self.wf(),
        ensures
            self.planar().len() == planar_len(self.d_w, self.d_h),
    {
        assert(plane_fits(self.planes[0].len() as int, self.stride[0], self.d_w, self.d_h));
        assert(plane_fits(
            self.planes[1].len() as int,
            self.stride[1],
            self.d_w / 2,
            self.d_h / 2,
        ));
        assert(plane_fits(
            self.planes[2].len() as int,
            self.stride[2],
            self.d_w / 2,
            self.d_h / 2,
        ));
        lemma_rows_len(self.planes[0], self.stride[0], self.d_w, self.d_h);
        lemma_rows_len(self.planes[1], self.stride[1], self.d_w / 2, self.d_h / 2);
        lemma_rows_len(self.planes[2], self.stride[2], self.d_w / 2, self.d_h / 2);
        assert(self.d_h * self.d_w == self.d_w * self.d_h) by (nonlinear_arith);
        assert((self.d_h / 2) * (self.d_w / 2) == (self.d_w / 2) * (self.d_h / 2))
            by (nonlinear_arith);
    }
}

/// A read-only view of one decoded picture. The planes are borrowed from
/// whoever decoded the picture; the view checks once, when it is made, that
/// every visible row lies inside its plane.
pub struct Image<'a> {
    planes: [&'a [u8]; 3],
    stride: [usize; 3],
    d_w: usize,
    d_h: usize,
}

impl<'a> View for Image<'a> {
    type V = Picture;

    closed spec fn view(&self) -> Picture {
        picture_of(self.planes, self.stride, self.d_w, self.d_h)
    }
}

/// The picture that three borrowed planes, their strides and a visible size
/// describe.
pub open spec fn picture_of(planes: [&[u8]; 3], stride: [usize; 3], d_w: usize, d_h: usize)
    -> Picture {
    Picture {
        planes: Seq::new(3, |i: int| planes@[i]@),
        stride: Seq::new(3, |i: int| stride@[i] as int),
        d_w: d_w as int,
        d_h: d_h as int,
    }
}

/// Whether every visible row of a plane lies inside it, without overflow.
fn check_plane(len: usize, stride: usize, width: usize, height: usize) -> (fits: bool)
    ensures
        fits == plane_fits(len as int, stride as int, width as int, height as int),
{
    if height == 0 {
        return true;
    }
    match (height - 1).checked_mul(stride) {
        None => false,
        Some(last) => match last.checked_add(width) {
            None => false,
            Some(end) => end <= len,
        },
    }
}

/// Appends the first `height` rows of a plane to `sink`.
fn write_plane(plane: &[u8], stride: usize, width: usize, height: usize, sink: &mut Vec<u8>)
    requires
        plane_fits(plane@.len() as int, stride as int, width as int, height as int),
    ensures
        final(sink)@ == old(sink)@ + rows(plane@, stride as int, width as int, height as int),
{
    let len = plane.len();
    let mut r: usize = 0;
    while r < height
        invariant
            r <= height,
            len == plane@.len(),
            plane_fits(plane@.len() as int, stride as int, width as int, height as int),
            sink@ == old(sink)@ + rows(plane@, stride as int, width as int, r as int),
        decreases height - r,
    {
        proof {
            lemma_fits_fewer(
                plane@.len() as int,
                stride as int,
                width as int,
                height as int,
                r as int,
            );
        }
        let start = r * stride;
        let visible = &plane[start..start + width];
        let ghost before = sink@;
        sink.extend_from_slice(visible);
        assert(sink@ =~= before + row(plane@, stride as int, width as int, r as int));
        r += 1;
    }
}

impl<'a> Image<'a> {
    /// Makes the view if every visible row lies inside its plane: for plane
    /// `i`, of visible size `w` by `h`, either `h` is zero or
    /// `(h - 1) * stride[i] + w` is at most the plane's length.
    pub fn new(planes: [&'a [u8]; 3], stride: [usize; 3], d_w: usize, d_h: usize) -> (image:
        Option<Image<'a>>)
        ensures
            image is Some <==> picture_of(planes, stride, d_w, d_h).wf(),
            image matches Some(img) ==> img@ == picture_of(planes, stride, d_w, d_h),
    {
        let ghost picture = picture_of(planes, stride, d_w, d_h);
        let luma = check_plane(planes[0].len(), stride[0], d_w, d_h);
        let cb = check_plane(planes[1].len(), stride[1], d_w / 2, d_h / 2);
        let cr = check_plane(planes[2].len(), stride[2], d_w / 2, d_h / 2);
        proof {
            assert(picture.planes[0] == planes@[0]@);
            assert(picture.planes[1] == planes@[1]@);
            assert(picture.planes[2] == planes@[2]@);
        }
        if luma && cb && cr {
            Some(Image { planes, stride, d_w, d_h })
        } else {
            None
        }
    }

    #[verifier::type_invariant]
    spec fn inv(&self) -> bool {
        self@.wf()
    }

    /// The bytes of plane `i`.
    pub fn planes(&self, i: usize) -> (plane: &'a [u8])
        requires
            i < 3,
        ensures
            plane@ == self@.planes[i as int],
    {
        self.planes[i]
    }

    /// Bytes between the starts of two consecutive rows of plane `i`.
    pub fn stride(&self, i: usize) -> (stride: usize)
        requires
            i < 3,
        ensures
            stride == self@.stride[i as int],
    {
        self.stride[i]
    }

    /// Visible luma height.
    pub fn d_h(&self) -> (d_h: usize)
        ensures
            d_h == self@.d_h,
    {
        self.d_h
    }

    /// Visible luma width.
    pub fn d_w(&self) -> (d_w: usize)
        ensures
            d_w == self@.d_w,
    {
        self.d_w
    }

    /// Appends the serialised picture to `sink`: `d_h` luma rows of `d_w`
    /// bytes, followed by `d_h / 2` rows of `d_w / 2` bytes of each chroma
    /// plane.
    pub fn write_all(&self, sink: &mut Vec<u8>)
        ensures
            self@.wf(),
            final(sink)@ == old(sink)@ + self@.planar(),
            final(sink)@.len() == old(sink)@.len() + planar_len(self@.d_w, self@.d_h),
    {
        proof {
            use_type_invariant(self);
            self@.lemma_planar_len();
            assert(self@.planes[0] == self.planes@[0]@);
            assert(self@.planes[1] == self.planes@[1]@);
            assert(self@.planes[2] == self.planes@[2]@);
            assert(plane_fits(
                self@.planes[0].len() as int,
                self@.stride[0],
                self@.d_w,
                self@.d_h,
            ));
            assert(plane_fits(
                self@.planes[1].len() as int,
                self@.stride[1],
                self@.d_w / 2,
                self@.d_h / 2,
            ));
            assert(plane_fits(
                self@.planes[2].len() as int,
                self@.stride[2],
                self@.d_w / 2,
                self@.d_h / 2,
            ));
        }
        write_plane(self.planes[0], self.stride[0], self.d_w, self.d_h, sink);
        write_plane(self.planes[1], self.stride[1], self.d_w / 2, self.d_h / 2, sink);
        write_plane(self.planes[2], self.stride[2], self.d_w / 2, self.d_h / 2, sink);
        assert(sink@ =~= old(sink)@ + self@.planar());
    }
}

} // verus!
