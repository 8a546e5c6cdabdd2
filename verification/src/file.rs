use vstd::prelude::*;

use crate::imgproc::GrayImage;
use crate::sort::{is_stable_sort, stable_sort_by_key};
use crate::text::{
    format_integer, integer_value, is_integer_text, lemma_signed_decimal_reads_back,
    push_signed_decimal, signed_decimal, text_lt,
};

verus! {

// ---------------------------------------------------------------------------
// FITS header values and their display text
// ---------------------------------------------------------------------------

/// The value of a FITS header card. Floating-point values are carried by the
/// decimal text that Rust's `Display` writes for them.
pub enum HeaderValue {
    CharacterString(String),
    Logical(bool),
    IntegerNumber(i32),
    RealFloatingNumber(String),
    ComplexIntegerNumber(i64, i64),
    ComplexFloatingNumber(String, String),
}

/// The text shown for a header value: strings as they are, logicals as
/// `true`/`false`, numbers in decimal, complex numbers as `"re imi"`.
pub open spec fn header_text(h: HeaderValue) -> Seq<char> {
    match h {
        HeaderValue::CharacterString(c) => c@,
        HeaderValue::Logical(l) => if l {
            seq!['t', 'r', 'u', 'e']
        } else {
            seq!['f', 'a', 'l', 's', 'e']
        },
        HeaderValue::IntegerNumber(i) => signed_decimal(i as int),
        HeaderValue::RealFloatingNumber(t) => t@,
        HeaderValue::ComplexIntegerNumber(r, i) => signed_decimal(r as int) + seq![' '] + signed_decimal(
            i as int,
        ) + seq!['i'],
        HeaderValue::ComplexFloatingNumber(r, i) => r@ + seq![' '] + i@ + seq!['i'],
    }
}

/// The text of an integer header value is a decimal integer that reads back
/// as that same value.
pub proof fn lemma_header_integer_reads_back(i: i32)
    ensures
        is_integer_text(header_text(HeaderValue::IntegerNumber(i))),
        integer_value(header_text(HeaderValue::IntegerNumber(i))) == i,
{
    lemma_signed_decimal_reads_back(i as int);
}

/// The text of a complex integer header value is the text of its real part,
/// a space, the text of its imaginary part and `i`.
pub proof fn lemma_header_complex_reads_back(r: i64, i: i64)
    ensures
        header_text(HeaderValue::ComplexIntegerNumber(r, i)) == signed_decimal(r as int) + seq![' ']
            + signed_decimal(i as int) + seq!['i'],
        integer_value(signed_decimal(r as int)) == r,
        integer_value(signed_decimal(i as int)) == i,
{
    lemma_signed_decimal_reads_back(r as int);
    lemma_signed_decimal_reads_back(i as int);
}

/// The text shown for a header card that may lack a value (an empty string).
pub open spec fn card_text(v: Option<HeaderValue>) -> Seq<char> {
    match v {
        Some(h) => header_text(h),
        None => Seq::empty(),
    }
}

/// Renders a header value as text.
pub fn header_display(header: &HeaderValue) -> (r: String)
    ensures
        r@ == header_text(*header),
        *header matches HeaderValue::IntegerNumber(i) ==> is_integer_text(r@) && integer_value(r@)
            == i,
{
    proof {
        if let HeaderValue::IntegerNumber(i) = *header {
            lemma_header_integer_reads_back(i);
        }
    }
    match header {
        HeaderValue::CharacterString(c) => c.clone(),
        HeaderValue::Logical(l) => {
            proof {
                reveal_strlit("true");
                reveal_strlit("false");
            }
            if *l {
                String::from_str("true")
            } else {
                String::from_str("false")
            }
        },
        HeaderValue::IntegerNumber(i) => format_integer(*i as i64),
        HeaderValue::RealFloatingNumber(t) => t.clone(),
        HeaderValue::ComplexIntegerNumber(r, i) => {
            proof {
                reveal_strlit(" ");
                reveal_strlit("i");
            }
            let mut s = format_integer(*r);
            s.append(" ");
            push_signed_decimal(&mut s, *i);
            s.append("i");
            s
        },
        HeaderValue::ComplexFloatingNumber(r, i) => {
            proof {
                reveal_strlit(" ");
                reveal_strlit("i");
            }
            let mut s = r.clone();
            s.append(" ");
            s.append(i.as_str());
            s.append("i");
            s
        },
    }
}

// ---------------------------------------------------------------------------
// An opened FITS file
// ---------------------------------------------------------------------------

/// The key of the entry that `File::new` puts first in the metadata.
pub open spec fn file_name_key() -> Seq<char> {
    seq!['F', 'i', 'l', 'e', ' ', 'N', 'a', 'm', 'e']
}

/// The (key, text) views of metadata entries.
pub open spec fn entry_views(s: Seq<(String, String)>) -> Seq<(Seq<char>, Seq<char>)> {
    s.map_values(|e: (String, String)| (e.0@, e.1@))
}

/// The (key, text) of each header card, in file order.
pub open spec fn card_entries(cards: Seq<(String, Option<HeaderValue>)>) -> Seq<(Seq<char>, Seq<char>)> {
    cards.map_values(|c: (String, Option<HeaderValue>)| (c.0@, card_text(c.1)))
}

/// `out` is `input` sorted stably by key in byte order: `out[i] == input[perm[i]]`
/// for a permutation `perm`, keys ascending, equal keys in input order.
pub open spec fn sorted_by_key_text(
    input: Seq<(Seq<char>, Seq<char>)>,
    out: Seq<(Seq<char>, Seq<char>)>,
    perm: Seq<int>,
) -> bool {
    &&& out.len() == input.len()
    &&& perm.len() == input.len()
    &&& forall|i: int| 0 <= i < out.len() ==> 0 <= #[trigger] perm[i] < input.len()
    &&& forall|i: int| 0 <= i < out.len() ==> #[trigger] out[i] == input[perm[i]]
    &&& forall|a: int, b: int| 0 <= a < b < out.len() ==> #[trigger] perm[a] != #[trigger] perm[b]
    &&& forall|a: int, b: int|
        0 <= a < b < out.len() ==> text_lt(#[trigger] out[a].0, #[trigger] out[b].0) || (!text_lt(
            out[b].0,
            out[a].0,
        ) && perm[a] < perm[b])
}

/// A FITS file of the catalogue: where it is, whether it is culled, and its
/// header cards as (key, text) pairs.
pub struct File {
    pub path: String,
    pub culled: bool,
    pub metadata: Vec<(String, String)>,
}

impl File {
    /// The file at `path`, named `file_name`, with the header cards `cards`
    /// read from it: the metadata is ("File Name", file_name) followed by the
    /// cards sorted by key (byte order, equal keys in file order), each shown
    /// by `header_display` (a card without value as empty text).
    pub fn new(path: String, file_name: String, cards: Vec<(String, Option<HeaderValue>)>) -> (f: File)
        ensures
            f.path@ == path@,
            !f.culled,
            f.metadata@.len() == cards@.len() + 1,
            f.metadata@[0].0@ == file_name_key(),
            f.metadata@[0].1@ == file_name@,
            exists|perm: Seq<int>|
                sorted_by_key_text(
                    card_entries(cards@),
                    entry_views(f.metadata@.skip(1)),
                    perm,
                ),
    {
        let ghost cv = cards@;
        let mut rows: Vec<(String, String)> = Vec::new();
        let mut i: usize = 0;
        while i < cards.len()
            invariant
                i <= cards@.len(),
                cv == cards@,
                rows@.len() == i,
                forall|j: int|
                    0 <= j < i ==> (#[trigger] rows@[j]).0@ == cv[j].0@ && rows@[j].1@ == card_text(
                        cv[j].1,
                    ),
            decreases cards@.len() - i,
        {
            let key = cards[i].0.clone();
            let text = match &cards[i].1 {
                Some(h) => header_display(h),
                None => String::new(),
            };
            rows.push((key, text));
            i = i + 1;
        }
        let ghost built = rows@;
        assert(entry_views(built) =~= card_entries(cv)) by {
            assert forall|j: int| 0 <= j < built.len() implies #[trigger] entry_views(built)[j]
                == card_entries(cv)[j] by {
                assert(built[j].0@ == cv[j].0@);
            }
        }
        let sorted = stable_sort_by_key(rows);
        let ghost sv = sorted@;
        let ghost perm = choose|perm: Seq<int>| is_stable_sort(built, sv, perm);
        assert(is_stable_sort(built, sv, perm));
        let ghost ev = entry_views(sv);
        let ghost iv = entry_views(built);
        assert(sorted_by_key_text(iv, ev, perm)) by {
            assert forall|k: int| 0 <= k < ev.len() implies #[trigger] ev[k] == iv[perm[k]] by {
                assert(sv[k] == built[perm[k]]);
            }
            assert forall|a: int, b: int| 0 <= a < b < ev.len() implies text_lt(
                #[trigger] ev[a].0,
                #[trigger] ev[b].0,
            ) || (!text_lt(ev[b].0, ev[a].0) && perm[a] < perm[b]) by {
                assert(crate::sort::in_order(sv, perm, a, b));
            }
        }
        proof {
            reveal_strlit("File Name");
        }
        let mut metadata = sorted;
        metadata.insert(0, (String::from_str("File Name"), file_name));
        assert(metadata@.skip(1) =~= sv);
        assert(sorted_by_key_text(card_entries(cards@), entry_views(metadata@.skip(1)), perm));
        File { path, culled: false, metadata }
    }
}

// ---------------------------------------------------------------------------
// From FITS integer data to a preview
// ---------------------------------------------------------------------------

/// The smallest value of a non-empty sequence.
pub open spec fn seq_min(s: Seq<i32>) -> int
    decreases s.len(),
{
    if s.len() <= 1 {
        s[0] as int
    } else {
        let m = seq_min(s.drop_last());
        if s.last() < m { s.last() as int } else { m }
    }
}

/// The largest value of a non-empty sequence.
pub open spec fn seq_max(s: Seq<i32>) -> int
    decreases s.len(),
{
    if s.len() <= 1 {
        s[0] as int
    } else {
        let m = seq_max(s.drop_last());
        if s.last() > m { s.last() as int } else { m }
    }
}

pub proof fn lemma_seq_min_max(s: Seq<i32>)
    requires
        s.len() > 0,
    ensures
        forall|j: int| 0 <= j < s.len() ==> seq_min(s) <= #[trigger] s[j] <= seq_max(s),
        exists|j: int| 0 <= j < s.len() && #[trigger] s[j] == seq_min(s),
        exists|j: int| 0 <= j < s.len() && #[trigger] s[j] == seq_max(s),
    decreases s.len(),
{
    if s.len() > 1 {
        let t = s.drop_last();
        lemma_seq_min_max(t);
        assert forall|j: int| 0 <= j < s.len() implies seq_min(s) <= #[trigger] s[j] <= seq_max(s) by {
            if j < s.len() - 1 {
                assert(s[j] == t[j]);
            }
        }
        let jm = choose|j: int| 0 <= j < t.len() && #[trigger] t[j] == seq_min(t);
        let jx = choose|j: int| 0 <= j < t.len() && #[trigger] t[j] == seq_max(t);
        assert(s[jm] == t[jm] && s[jx] == t[jx]);
        assert(s[s.len() - 1] == s.last());
    } else {
        assert(s[0] == seq_min(s));
    }
}

/// The smallest and the largest value of non-empty integer data, the
/// bounds that the grayscale mapping spreads over the gray levels.
pub fn value_range(data: &Vec<i32>) -> (r: (i32, i32))
    requires
        data@.len() > 0,
    ensures
        r.0 == seq_min(data@),
        r.1 == seq_max(data@),
        forall|k: int| 0 <= k < data@.len() ==> r.0 <= #[trigger] data@[k] <= r.1,
        exists|k: int| 0 <= k < data@.len() && #[trigger] data@[k] == r.0,
        exists|k: int| 0 <= k < data@.len() && #[trigger] data@[k] == r.1,
{
    let ghost dv = data@;
    let mut lo: i32 = data[0];
    let mut hi: i32 = data[0];
    let mut i: usize = 1;
    assert(dv.take(1).len() == 1);
    while i < data.len()
        invariant
            1 <= i <= dv.len(),
            dv == data@,
            lo == seq_min(dv.take(i as int)),
            hi == seq_max(dv.take(i as int)),
        decreases dv.len() - i,
    {
        let v = data[i];
        assert(dv.take(i + 1).drop_last() =~= dv.take(i as int));
        if v < lo {
            lo = v;
        }
        if v > hi {
            hi = v;
        }
        i = i + 1;
    }
    assert(dv.take(dv.len() as int) =~= dv);
    proof {
        lemma_seq_min_max(dv);
    }
    (lo, hi)
}

/// FITS integer samples, blank samples read as 0.
pub open spec fn sample_value(o: Option<i32>) -> i32 {
    match o {
        Some(x) => x,
        None => 0i32,
    }
}

/// A sample that is present keeps its value; a blank one reads as 0.
pub proof fn lemma_sample_value_keeps_samples(o: Option<i32>)
    ensures
        o matches Some(x) ==> sample_value(o) == x,
        o is None ==> sample_value(o) == 0,
{
}

/// The samples of a FITS data unit, blank ones read as 0.
pub fn sample_values(data: &Vec<Option<i32>>) -> (r: Vec<i32>)
    ensures
        r@.len() == data@.len(),
        forall|k: int| 0 <= k < data@.len() ==> #[trigger] r@[k] == sample_value(data@[k]),
        forall|k: int| 0 <= k < data@.len() ==> (data@[k] matches Some(x) ==> #[trigger] r@[k] == x),
        forall|k: int| 0 <= k < data@.len() && data@[k] is None ==> #[trigger] r@[k] == 0,
{
    let mut values: Vec<i32> = Vec::new();
    let mut i: usize = 0;
    while i < data.len()
        invariant
            i <= data@.len(),
            values@.len() == i,
            forall|k: int| 0 <= k < i ==> #[trigger] values@[k] == sample_value(data@[k]),
        decreases data@.len() - i,
    {
        let v = match data[i] {
            Some(x) => x,
            None => 0,
        };
        values.push(v);
        i = i + 1;
    }
    values
}

/// Width of the preview texture.
pub const PREVIEW_WIDTH: u32 = 2048;

/// `out` is an outcome of `image::imageops::resize` with the Gaussian filter
/// applied to the `width` x `height` grayscale image `pixels`, resized to
/// `new_width` x `new_height`. It is a relation, not a function: the
/// resampling uses `f32` `exp`, whose precision Rust does not fix, so the
/// same image need not give the same bytes everywhere.
pub uninterp spec fn gaussian_resize_of(
    width: nat,
    height: nat,
    pixels: Seq<u8>,
    new_width: nat,
    new_height: nat,
    out: Seq<u8>,
) -> bool;

/// Calls `image::imageops::resize` with `FilterType::Gaussian` on the
/// `width` x `height` grayscale image held at the front of `pixels`.
/// Trusted, from the crate's source: the result is an outcome of that resize
/// of those pixels to the new size; it holds `new_width * new_height` values
/// (the buffer that `resize` allocates for the new size); an image without
/// pixels gives a buffer of zeros; and when the size does not change
/// `resize` copies the pixels. The resampled values themselves are left
/// unsaid: the Gaussian weights come from `f32` `exp`, whose precision Rust
/// does not fix.
#[verifier::external_body]
fn resize_gaussian(width: u32, height: u32, pixels: Vec<u8>, new_width: u32, new_height: u32) -> (r: Vec<u8>)
    requires
        pixels@.len() >= width as int * height as int,
        new_width as int * new_height as int <= usize::MAX,
    ensures
        gaussian_resize_of(
            width as nat,
            height as nat,
            pixels@.take(width as int * height as int),
            new_width as nat,
            new_height as nat,
            r@,
        ),
        r@.len() == new_width as int * new_height as int,
        width as int * height as int == 0 ==> forall|k: int| 0 <= k < r@.len() ==> r@[k] == 0u8,
        new_width == width && new_height == height ==> r@ == pixels@.take(
            width as int * height as int,
        ),
{
    let img = image::GrayImage::from_raw(width, height, pixels).unwrap();
    image::imageops::resize(&img, new_width, new_height, image::imageops::FilterType::Gaussian).into_raw()
}

/// A rendered preview: `width` x `height` gray levels, row by row.
pub struct Preview {
    pub width: u32,
    pub height: u32,
    pub pixels: Vec<u8>,
}

/// Resizes a stretched image (Gaussian filter) to the preview size: 2048
/// pixels wide and `height` rows. An image already of that size is kept as
/// it is; an image without pixels gives a black preview.
pub fn render_preview(image: GrayImage, height: u32) -> (r: Preview)
    requires
        2048 * height <= usize::MAX,
    ensures
        r.width == PREVIEW_WIDTH,
        r.height == height,
        r.pixels@.len() == PREVIEW_WIDTH as int * height as int,
        gaussian_resize_of(
            image.spec_width(),
            image.spec_height(),
            image.spec_pixels(),
            PREVIEW_WIDTH as nat,
            height as nat,
            r.pixels@,
        ),
        image.spec_width() * image.spec_height() == 0 ==> forall|k: int|
            0 <= k < r.pixels@.len() ==> r.pixels@[k] == 0u8,
        image.spec_width() == PREVIEW_WIDTH && image.spec_height() == height ==> r.pixels@
            == image.spec_pixels(),
{
    let w = image.width();
    let h = image.height();
    let pixels = resize_gaussian(w, h, image.into_vec(), PREVIEW_WIDTH, height);
    Preview { width: PREVIEW_WIDTH, height, pixels }
}

// ---------------------------------------------------------------------------
// Choosing and ordering the files to load
// ---------------------------------------------------------------------------

/// Why a path cannot be loaded as a FITS file.
pub enum LoadError {
    NotAFile,
    NoFileExtension,
    NotFitsExtension,
}

impl LoadError {
    pub open spec fn spec_message(&self) -> Seq<char> {
        match self {
            LoadError::NotAFile => seq!['N', 'o', 't', ' ', 'a', ' ', 'f', 'i', 'l', 'e'],
            LoadError::NoFileExtension => seq![
                'N', 'o', ' ', 'f', 'i', 'l', 'e', ' ', 'e', 'x', 't', 'e', 'n', 's', 'i', 'o', 'n'
            ],
            LoadError::NotFitsExtension => seq![
                'N', 'o', 't', ' ', 'f', 'i', 't', 's', ' ', 'e', 'x', 't', 'e', 'n', 's', 'i', 'o', 'n'
            ],
        }
    }

    /// The text of the error.
    pub fn message(&self) -> (r: String)
        ensures
            r@ == self.spec_message(),
    {
        proof {
            reveal_strlit("Not a file");
            reveal_strlit("No file extension");
            reveal_strlit("Not fits extension");
        }
        match self {
            LoadError::NotAFile => String::from_str("Not a file"),
            LoadError::NoFileExtension => String::from_str("No file extension"),
            LoadError::NotFitsExtension => String::from_str("Not fits extension"),
        }
    }
}

/// The extension that marks a FITS file.
pub open spec fn fits_extension() -> Seq<char> {
    seq!['f', 'i', 't', 's']
}

/// Whether `ext` is exactly `fits` (case matters).
pub fn is_fits_extension(ext: &str) -> (r: bool)
    ensures
        r == (ext@ == fits_extension()),
{
    let n = ext.unicode_len();
    if n != 4 {
        return false;
    }
    let r = ext.get_char(0) == 'f' && ext.get_char(1) == 'i' && ext.get_char(2) == 't'
        && ext.get_char(3) == 's';
    assert(r ==> ext@ =~= fits_extension());
    r
}

/// Whether a path may be opened as a FITS file: it must be a file whose
/// extension is `fits`.
pub fn check_candidate(is_file: bool, extension: Option<&str>) -> (r: Result<(), LoadError>)
    ensures
        !is_file ==> r matches Err(LoadError::NotAFile),
        is_file && extension is None ==> r matches Err(LoadError::NoFileExtension),
        (is_file && (extension matches Some(e) && e@ != fits_extension())) ==> r matches Err(
            LoadError::NotFitsExtension,
        ),
        r is Ok <==> (is_file && (extension matches Some(e) && e@ == fits_extension())),
{
    if is_file {
        match extension {
            Some(e) => {
                if is_fits_extension(e) {
                    Ok(())
                } else {
                    Err(LoadError::NotFitsExtension)
                }
            },
            None => Err(LoadError::NoFileExtension),
        }
    } else {
        Err(LoadError::NotAFile)
    }
}

/// Orders loaded files by creation time (a count of time units, negative
/// before the epoch), oldest first; files created at the same time keep
/// their order.
pub fn sort_by_creation<T>(files: Vec<(i128, T)>) -> (r: Vec<(i128, T)>)
    ensures
        exists|perm: Seq<int>| is_stable_sort(files@, r@, perm),
        forall|i: int, j: int| 0 <= i < j < r@.len() ==> #[trigger] r@[i].0 <= #[trigger] r@[j].0,
{
    let r = stable_sort_by_key(files);
    let ghost perm = choose|perm: Seq<int>| is_stable_sort(files@, r@, perm);
    assert forall|i: int, j: int| 0 <= i < j < r@.len() implies #[trigger] r@[i].0 <= #[trigger] r@[j].0 by {
        assert(crate::sort::in_order(r@, perm, i, j));
    }
    r
}

} // verus!
