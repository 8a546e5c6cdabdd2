use vstd::prelude::*;

verus! {

// ---------------------------------------------------------------------------
// Pixel statistics, stated over the sequence of pixel values
// ---------------------------------------------------------------------------

/// Number of values of `s` that are at most `t`.
pub open spec fn count_le(s: Seq<u8>, t: int) -> nat
    decreases s.len(),
{
    if s.len() == 0 {
        0
    } else {
        count_le(s.drop_last(), t) + if s.last() <= t { 1nat } else { 0nat }
    }
}

/// Number of values of `s` that equal `t`.
pub open spec fn count_eq(s: Seq<u8>, t: int) -> nat
    decreases s.len(),
{
    if s.len() == 0 {
        0
    } else {
        count_eq(s.drop_last(), t) + if s.last() == t { 1nat } else { 0nat }
    }
}

/// `m` is the value found at index `len / 2` once `s` is sorted in ascending
/// order: fewer than `len / 2 + 1` values lie below `m`, and at least that
/// many lie at or below it.
pub open spec fn is_median(s: Seq<u8>, m: int) -> bool {
    &&& count_le(s, m - 1) <= s.len() / 2
    &&& s.len() / 2 < count_le(s, m)
}

/// The (upper) median of `s`: the element at index `len / 2` of `s` sorted.
pub open spec fn median(s: Seq<u8>) -> int {
    choose|m: int| is_median(s, m)
}

pub proof fn lemma_count_le_split(s: Seq<u8>, t: int)
    ensures
        count_le(s, t) == count_le(s, t - 1) + count_eq(s, t),
    decreases s.len(),
{
    if s.len() > 0 {
        lemma_count_le_split(s.drop_last(), t);
    }
}

pub proof fn lemma_count_le_mono(s: Seq<u8>, t1: int, t2: int)
    requires
        t1 <= t2,
    ensures
        count_le(s, t1) <= count_le(s, t2),
    decreases s.len(),
{
    if s.len() > 0 {
        lemma_count_le_mono(s.drop_last(), t1, t2);
    }
}

pub proof fn lemma_count_le_bounds(s: Seq<u8>, t: int)
    ensures
        count_le(s, t) <= s.len(),
        t >= 255 ==> count_le(s, t) == s.len(),
        t < 0 ==> count_le(s, t) == 0,
        count_eq(s, t) <= s.len(),
    decreases s.len(),
{
    if s.len() > 0 {
        lemma_count_le_bounds(s.drop_last(), t);
    }
}

/// The median of a non-empty sequence exists, lies in `0..=255`, and is the
/// only value with the median property.
pub proof fn lemma_median_unique(s: Seq<u8>, m: int)
    requires
        is_median(s, m),
    ensures
        median(s) == m,
        0 <= m <= 255,
{
    lemma_count_le_bounds(s, m - 1);
    lemma_count_le_bounds(s, m);
    let c = median(s);
    assert(is_median(s, c));
    if c < m {
        lemma_count_le_mono(s, c, m - 1);
    } else if m < c {
        lemma_count_le_mono(s, m, c - 1);
    }
}

// ---------------------------------------------------------------------------
// A single-channel 8-bit image
// ---------------------------------------------------------------------------

/// An 8-bit grayscale image: `width * height` pixels stored row by row at the
/// front of a buffer that may be longer.
pub struct GrayImage {
    width: u32,
    height: u32,
    data: Vec<u8>,
}

impl GrayImage {
    #[verifier::type_invariant]
    spec fn fits(self) -> bool {
        self.data@.len() >= self.width as int * self.height as int
    }

    pub closed spec fn spec_width(&self) -> nat {
        self.width as nat
    }

    pub closed spec fn spec_height(&self) -> nat {
        self.height as nat
    }

    /// The whole buffer.
    pub closed spec fn spec_raw(&self) -> Seq<u8> {
        self.data@
    }

    /// The pixels: the first `width * height` values of the buffer.
    pub open spec fn spec_pixels(&self) -> Seq<u8> {
        self.spec_raw().take((self.spec_width() * self.spec_height()) as int)
    }

    /// Builds an image from a buffer; `None` when the buffer holds fewer than
    /// `width * height` values.
    pub fn from_vec(width: u32, height: u32, buf: Vec<u8>) -> (r: Option<GrayImage>)
        ensures
            r is Some <==> buf@.len() >= width as int * height as int,
            r matches Some(img) ==> {
                &&& img.spec_width() == width
                &&& img.spec_height() == height
                &&& img.spec_raw() == buf@
            },
    {
        proof {
            lemma_dims_fit_u64(width, height);
        }
        let need: u64 = width as u64 * height as u64;
        if (buf.len() as u64) < need {
            None
        } else {
            Some(GrayImage { width, height, data: buf })
        }
    }

    pub fn width(&self) -> (w: u32)
        ensures
            w == self.spec_width(),
    {
        self.width
    }

    pub fn height(&self) -> (h: u32)
        ensures
            h == self.spec_height(),
    {
        self.height
    }

    /// The whole buffer, at least `width * height` values long.
    pub fn as_raw(&self) -> (r: &Vec<u8>)
        ensures
            r@ == self.spec_raw(),
            r@.len() >= self.spec_width() * self.spec_height(),
    {
        proof {
            use_type_invariant(self);
        }
        &self.data
    }

    /// Gives the buffer back.
    pub fn into_vec(self) -> (r: Vec<u8>)
        ensures
            r@ == self.spec_raw(),
            r@.len() >= self.spec_width() * self.spec_height(),
    {
        proof {
            use_type_invariant(&self);
        }
        self.data
    }
}

/// The pixel count of an image always fits in a `u64`.
pub proof fn lemma_dims_fit_u64(w: u32, h: u32)
    ensures
        (w as int) * (h as int) <= u64::MAX,
{
    assert((w as int) * (h as int) <= 0xffff_ffff * 0xffff_ffff) by (nonlinear_arith)
        requires
            w <= 0xffff_ffff,
            h <= 0xffff_ffff,
    ;
}

// ---------------------------------------------------------------------------
// The median of an image
// ---------------------------------------------------------------------------

/// The median of the pixels of `image`: the value at index `n / 2` of its
/// `n = width * height` pixels sorted in ascending order.
pub fn pixel_median(image: &GrayImage) -> (m: u8)
    requires
        image.spec_width() * image.spec_height() > 0,
    ensures
        m == median(image.spec_pixels()),
        is_median(image.spec_pixels(), m as int),
{
    let raw = image.as_raw();
    let w = image.width();
    let h = image.height();
    proof {
        lemma_dims_fit_u64(w, h);
    }
    let n: u64 = w as u64 * h as u64;
    let ghost p = image.spec_pixels();
    assert(p.len() == n);
    let mut hist: Vec<u64> = Vec::new();
    let mut v: usize = 0;
    while v < 256
        invariant
            v <= 256,
            hist@.len() == v,
            forall|j: int| 0 <= j < v ==> hist@[j] == 0,
        decreases 256 - v,
    {
        hist.push(0);
        v = v + 1;
    }
    let mut i: u64 = 0;
    while i < n
        invariant
            i <= n,
            n == p.len(),
            p == image.spec_pixels(),
            raw@.len() >= n,
            p == raw@.take(n as int),
            hist@.len() == 256,
            forall|j: int| 0 <= j < 256 ==> hist@[j] == count_eq(p.take(i as int), j),
        decreases n - i,
    {
        assert(raw@[i as int] == p[i as int]);
        assert(i < raw.len());
        let idx: usize = i as usize;
        let x: u8 = raw[idx];
        let ghost pre = p.take(i as int);
        let ghost post = p.take(i + 1);
        assert(post.drop_last() =~= pre);
        assert(post.last() == x);
        proof {
            lemma_count_le_bounds(pre, x as int);
            assert(pre.len() == i);
        }
        let c = hist[x as usize];
        hist.set(x as usize, c + 1);
        i = i + 1;
        assert forall|j: int| 0 <= j < 256 implies hist@[j] == count_eq(p.take(i as int), j) by {
            assert(p.take(i as int) == post);
        }
    }
    assert(p.take(n as int) =~= p);
    let half: u64 = n / 2;
    let mut cum: u64 = 0;
    let mut m: usize = 0;
    proof {
        lemma_count_le_bounds(p, -1);
    }
    while m < 256
        invariant
            m <= 256,
            n == p.len(),
            n > 0,
            half == n / 2,
            p == image.spec_pixels(),
            hist@.len() == 256,
            forall|j: int| 0 <= j < 256 ==> hist@[j] == count_eq(p, j),
            cum == count_le(p, m - 1),
            cum <= half,
        decreases 256 - m,
    {
        proof {
            lemma_count_le_split(p, m as int);
            lemma_count_le_bounds(p, m as int);
        }
        let c = cum + hist[m];
        if c > half {
            assert(is_median(p, m as int));
            proof {
                lemma_median_unique(p, m as int);
            }
            return m as u8;
        }
        cum = c;
        m = m + 1;
    }
    proof {
        lemma_count_le_bounds(p, 255);
    }
    // every value is at most 255, so the loop above always returns
    assert(false);
    0
}

/// A non-empty sequence of pixel values has a median.
pub proof fn lemma_median_exists(s: Seq<u8>)
    requires
        s.len() > 0,
    ensures
        is_median(s, median(s)),
        0 <= median(s) <= 255,
{
    lemma_count_le_bounds(s, -1);
    lemma_median_search(s, 0);
}

proof fn lemma_median_search(s: Seq<u8>, t: int)
    requires
        s.len() > 0,
        0 <= t <= 255,
        count_le(s, t - 1) <= s.len() / 2,
    ensures
        is_median(s, median(s)),
        0 <= median(s) <= 255,
    decreases 255 - t,
{
    lemma_count_le_bounds(s, t);
    if count_le(s, t) > s.len() / 2 {
        assert(is_median(s, t));
        lemma_median_unique(s, t);
    } else {
        lemma_median_search(s, t + 1);
    }
}

/// The number of values of `s` equal to `v` is their multiplicity in `s`.
proof fn lemma_count_eq_multiset(s: Seq<u8>, v: u8)
    ensures
        count_eq(s, v as int) == s.to_multiset().count(v),
    decreases s.len(),
{
    broadcast use vstd::seq_lib::group_to_multiset_ensures;
    if s.len() == 0 {
        assert(s.to_multiset() =~= vstd::multiset::Multiset::<u8>::empty());
    } else {
        let t = s.drop_last();
        lemma_count_eq_multiset(t, v);
        assert(t.push(s.last()) =~= s);
        assert(s.to_multiset() =~= t.to_multiset().insert(s.last()));
    }
}

proof fn lemma_count_le_multiset(a: Seq<u8>, b: Seq<u8>, t: int)
    requires
        a.to_multiset() == b.to_multiset(),
        -1 <= t,
    ensures
        count_le(a, t) == count_le(b, t),
    decreases t + 1,
{
    broadcast use vstd::seq_lib::group_to_multiset_ensures;
    if t == -1 {
        lemma_count_le_bounds(a, t);
        lemma_count_le_bounds(b, t);
    } else if t >= 255 {
        lemma_count_le_bounds(a, t);
        lemma_count_le_bounds(b, t);
        assert(a.len() == a.to_multiset().len());
        assert(b.len() == b.to_multiset().len());
    } else {
        lemma_count_le_multiset(a, b, t - 1);
        lemma_count_le_split(a, t);
        lemma_count_le_split(b, t);
        lemma_count_eq_multiset(a, t as u8);
        lemma_count_eq_multiset(b, t as u8);
    }
}

/// The median depends only on the multiset of pixel values: reordering the
/// pixels does not change it.
pub proof fn lemma_median_of_multiset(a: Seq<u8>, b: Seq<u8>)
    requires
        a.len() > 0,
        a.to_multiset() == b.to_multiset(),
    ensures
        median(a) == median(b),
{
    broadcast use vstd::seq_lib::group_to_multiset_ensures;
    assert(a.len() == b.len()) by {
        assert(a.len() == a.to_multiset().len());
        assert(b.len() == b.to_multiset().len());
    }
    lemma_median_exists(a);
    let m = median(a);
    lemma_count_le_multiset(a, b, m - 1);
    lemma_count_le_multiset(a, b, m);
    assert(is_median(b, m));
    lemma_median_unique(b, m);
}

// ---------------------------------------------------------------------------
// The screen transfer function (STF) autostretch
// ---------------------------------------------------------------------------

/// The first `n` values of `raw` mapped through `table`; the rest kept.
pub open spec fn transferred(raw: Seq<u8>, n: int, table: Seq<u8>) -> Seq<u8> {
    Seq::new(raw.len(), |i: int| if i < n { table[raw[i] as int] } else { raw[i] })
}

/// Applies the stretch's transfer table to the pixels of `image`: each pixel
/// of value `v` becomes `table[v]`. The table holds the stretched value of
/// every pixel value 0..=255, computed from the image's median and its
/// floating-point mean and standard deviation; a pixel's new value depends
/// only on its old value, so mapping the 256 values once and then every
/// pixel through the table gives the stretch of every pixel.
pub fn apply_stf_autostretch(image: &mut GrayImage, table: &Vec<u8>)
    requires
        table@.len() == 256,
    ensures
        final(image).spec_width() == old(image).spec_width(),
        final(image).spec_height() == old(image).spec_height(),
        final(image).spec_raw() == transferred(
            old(image).spec_raw(),
            (old(image).spec_width() * old(image).spec_height()) as int,
            table@,
        ),
{
    proof {
        use_type_invariant(&*image);
    }
    let w = image.width();
    let h = image.height();
    proof {
        lemma_dims_fit_u64(w, h);
    }
    let n: u64 = w as u64 * h as u64;
    let mut data: Vec<u8> = image.data.clone();
    let ghost orig = data@;
    assert(orig == old(image).spec_raw());
    let mut i: u64 = 0;
    while i < n
        invariant
            i <= n,
            n == old(image).spec_width() * old(image).spec_height(),
            orig.len() >= n,
            data@.len() == orig.len(),
            table@.len() == 256,
            forall|j: int| 0 <= j < i ==> data@[j] == table@[orig[j] as int],
            forall|j: int| i <= j < data@.len() ==> data@[j] == orig[j],
        decreases n - i,
    {
        assert(i < data.len());
        let idx: usize = i as usize;
        let x = data[idx];
        let y = table[x as usize];
        data.set(idx, y);
        i = i + 1;
    }
    assert(data@ =~= transferred(orig, n as int, table@));
    image.data = data;
}

/// With the same table, the stretch of a reordering is the reordering of the
/// stretch: pixel `k` of `b` is pixel `p[k]` of `a`, before and after.
pub proof fn lemma_transfer_permutes(a: Seq<u8>, b: Seq<u8>, p: Seq<int>, table: Seq<u8>)
    requires
        a.len() == b.len() == p.len(),
        table.len() == 256,
        forall|k: int| 0 <= k < b.len() ==> 0 <= #[trigger] p[k] < a.len() && b[k] == a[p[k]],
    ensures
        forall|k: int|
            0 <= k < b.len() ==> #[trigger] transferred(b, b.len() as int, table)[k] == transferred(
                a,
                a.len() as int,
                table,
            )[p[k]],
{
}

/// A table that never decreases keeps the order of brightness of the pixels.
pub proof fn lemma_transfer_keeps_order(raw: Seq<u8>, n: int, table: Seq<u8>, i: int, j: int)
    requires
        table.len() == 256,
        forall|x: int, y: int| 0 <= x <= y < 256 ==> #[trigger] table[x] <= #[trigger] table[y],
        0 <= i < n,
        0 <= j < n,
        n <= raw.len(),
        raw[i] <= raw[j],
    ensures
        transferred(raw, n, table)[i] <= transferred(raw, n, table)[j],
{
    assert(table[raw[i] as int] <= table[raw[j] as int]);
}

} // verus!
