//! Classification of file extensions into image subtypes and content types.

use vstd::prelude::*;

verus! {

/// The closed set of image subtypes the gallery knows how to serve.
#[derive(Debug, PartialEq, Eq, Structural, Clone, Copy)]
pub enum ImageType {
    Apng,
    Avif,
    Gif,
    Jpeg,
    Png,
    Svg,
    WebP,
    Bmp,
    Ico,
    Tiff,
}

/// A file is either an image of a known subtype or opaque data.
#[derive(Debug, PartialEq, Eq, Structural, Clone, Copy)]
pub enum FileType {
    Image(ImageType),
    Other,
}

/// ASCII lowercasing of a single character: `'A'..='Z'` map to `'a'..='z'`,
/// every other character is unchanged.
pub open spec fn lower_char(c: char) -> char {
    if 'A' <= c && c <= 'Z' {
        ((c as u8) + 32) as char
    } else {
        c
    }
}

/// ASCII lowercasing of a character sequence.
pub open spec fn lower_seq(s: Seq<char>) -> Seq<char> {
    s.map_values(|c: char| lower_char(c))
}

fn lower_char_exec(c: char) -> (r: char)
    ensures
        r == lower_char(c),
{
    let u = c as u32;
    if 65 <= u && u <= 90 {
        ((u + 32) as u8) as char
    } else {
        c
    }
}

/// Does `s`, lowercased, equal the (already lowercase) extension `lit`?
fn matches_lower(s: &str, lit: &str) -> (r: bool)
    ensures
        r == (lower_seq(s@) == lit@),
{
    let n = s.unicode_len();
    let m = lit.unicode_len();
    if n != m {
        assert(lower_seq(s@).len() == s@.len());
        return false;
    }
    let mut i: usize = 0;
    while i < n
        invariant
            i <= n,
            n == s@.len(),
            n == lit@.len(),
            forall|j: int| 0 <= j < i ==> lower_char(s@[j]) == lit@[j],
        decreases n - i,
    {
        let c = s.get_char(i);
        let d = lit.get_char(i);
        if lower_char_exec(c) != d {
            assert(lower_seq(s@)[i as int] != lit@[i as int]);
            return false;
        }
        i += 1;
    }
    assert(lower_seq(s@) =~= lit@);
    true
}

/// The image subtype a file extension names, if any; matching is
/// case-insensitive on the extension.
pub open spec fn image_type_of(ext: Seq<char>) -> Option<ImageType> {
    let l = lower_seq(ext);
    if l == "apng"@ {
        Some(ImageType::Apng)
    } else if l == "avif"@ {
        Some(ImageType::Avif)
    } else if l == "gif"@ {
        Some(ImageType::Gif)
    } else if l == "jpg"@ || l == "jpeg"@ || l == "jfif"@ || l == "pjpeg"@ || l == "pjp"@ {
        Some(ImageType::Jpeg)
    } else if l == "png"@ {
        Some(ImageType::Png)
    } else if l == "svg"@ {
        Some(ImageType::Svg)
    } else if l == "webp"@ {
        Some(ImageType::WebP)
    } else if l == "bmp"@ {
        Some(ImageType::Bmp)
    } else if l == "ico"@ || l == "cur"@ {
        Some(ImageType::Ico)
    } else if l == "tif"@ || l == "tiff"@ {
        Some(ImageType::Tiff)
    } else {
        None
    }
}

/// Is the extension one of the recognized image extensions?
pub open spec fn is_image_ext(ext: Seq<char>) -> bool {
    image_type_of(ext) is Some
}

pub(crate) fn lookup_image_type(ext: &str) -> (r: Option<ImageType>)
    ensures
        r == image_type_of(ext@),
{
    if matches_lower(ext, "apng") {
        Some(ImageType::Apng)
    } else if matches_lower(ext, "avif") {
        Some(ImageType::Avif)
    } else if matches_lower(ext, "gif") {
        Some(ImageType::Gif)
    } else if matches_lower(ext, "jpg") || matches_lower(ext, "jpeg") || matches_lower(ext, "jfif")
        || matches_lower(ext, "pjpeg") || matches_lower(ext, "pjp") {
        Some(ImageType::Jpeg)
    } else if matches_lower(ext, "png") {
        Some(ImageType::Png)
    } else if matches_lower(ext, "svg") {
        Some(ImageType::Svg)
    } else if matches_lower(ext, "webp") {
        Some(ImageType::WebP)
    } else if matches_lower(ext, "bmp") {
        Some(ImageType::Bmp)
    } else if matches_lower(ext, "ico") || matches_lower(ext, "cur") {
        Some(ImageType::Ico)
    } else if matches_lower(ext, "tif") || matches_lower(ext, "tiff") {
        Some(ImageType::Tiff)
    } else {
        None
    }
}

impl ImageType {
    /// Does the extension, compared case-insensitively, name an image file?
    pub fn is_image_file(extension: &str) -> (r: bool)
        ensures
            r == is_image_ext(extension@),
    {
        lookup_image_type(extension).is_some()
    }

    /// The lowercase name of the subtype.
    pub open spec fn name_spec(&self) -> Seq<char> {
        match self {
            ImageType::Apng => "apng"@,
            ImageType::Avif => "avif"@,
            ImageType::Gif => "gif"@,
            ImageType::Jpeg => "jpeg"@,
            ImageType::Png => "png"@,
            ImageType::Svg => "svg"@,
            ImageType::WebP => "webp"@,
            ImageType::Bmp => "bmp"@,
            ImageType::Ico => "ico"@,
            ImageType::Tiff => "tiff"@,
        }
    }

    /// The lowercase name of the subtype, e.g. `"png"`.
    pub fn name(&self) -> (s: String)
        ensures
            s@ == self.name_spec(),
    {
        match self {
            ImageType::Apng => "apng".to_owned(),
            ImageType::Avif => "avif".to_owned(),
            ImageType::Gif => "gif".to_owned(),
            ImageType::Jpeg => "jpeg".to_owned(),
            ImageType::Png => "png".to_owned(),
            ImageType::Svg => "svg".to_owned(),
            ImageType::WebP => "webp".to_owned(),
            ImageType::Bmp => "bmp".to_owned(),
            ImageType::Ico => "ico".to_owned(),
            ImageType::Tiff => "tiff".to_owned(),
        }
    }
}

/// Classification is case-insensitive: two extensions that agree after ASCII
/// lowercasing classify to the same image subtype, or both to none.
pub proof fn lemma_classification_case_insensitive(a: Seq<char>, b: Seq<char>)
    requires
        lower_seq(a) == lower_seq(b),
    ensures
        image_type_of(a) == image_type_of(b),
{
}

/// An extension classifies exactly as its own ASCII lowercasing does.
pub proof fn lemma_classify_lowercase(s: Seq<char>)
    ensures
        image_type_of(s) == image_type_of(lower_seq(s)),
{
    assert forall|i: int| 0 <= i < s.len() implies lower_char(lower_seq(s)[i]) == lower_seq(s)[i] by {
        assert(lower_seq(s)[i] == lower_char(s[i]));
    }
    assert(lower_seq(lower_seq(s)) =~= lower_seq(s));
}

/// Something that has a MIME content-type string.
pub trait ToContentType {
    /// The content type as a mathematical character sequence.
    spec fn content_type_spec(&self) -> Seq<char>;

    /// The content type, e.g. `"image/png"` or `"application/octet-stream"`.
    fn get_content_type(&self) -> (s: String)
        ensures
            s@ == self.content_type_spec(),
    ;
}

impl ToContentType for ImageType {
    open spec fn content_type_spec(&self) -> Seq<char> {
        match self {
            ImageType::Apng => "image/apng"@,
            ImageType::Avif => "image/avif"@,
            ImageType::Gif => "image/gif"@,
            ImageType::Jpeg => "image/jpeg"@,
            ImageType::Png => "image/png"@,
            ImageType::Svg => "image/svg+xml"@,
            ImageType::WebP => "image/webp"@,
            ImageType::Bmp => "image/bmp"@,
            ImageType::Ico => "image/x-icon"@,
            ImageType::Tiff => "image/tiff"@,
        }
    }

    fn get_content_type(&self) -> (s: String) {
        match self {
            ImageType::Apng => "image/apng".to_owned(),
            ImageType::Avif => "image/avif".to_owned(),
            ImageType::Gif => "image/gif".to_owned(),
            ImageType::Jpeg => "image/jpeg".to_owned(),
            ImageType::Png => "image/png".to_owned(),
            ImageType::Svg => "image/svg+xml".to_owned(),
            ImageType::WebP => "image/webp".to_owned(),
            ImageType::Bmp => "image/bmp".to_owned(),
            ImageType::Ico => "image/x-icon".to_owned(),
            ImageType::Tiff => "image/tiff".to_owned(),
        }
    }
}

impl ToContentType for FileType {
    open spec fn content_type_spec(&self) -> Seq<char> {
        match self {
            FileType::Image(image) => image.content_type_spec(),
            FileType::Other => "application/octet-stream"@,
        }
    }

    fn get_content_type(&self) -> (s: String) {
        match self {
            FileType::Image(image) => image.get_content_type(),
            FileType::Other => "application/octet-stream".to_owned(),
        }
    }
}

} // verus!
