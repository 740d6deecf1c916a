//! Images attached to a request: the media type follows from the file's extension,
//! and the contents travel base64-encoded.

use vstd::prelude::*;

use crate::text::same_text;

verus! {

/// The image formats the service accepts.
#[derive(Debug, Clone, Copy, PartialEq, Eq, Structural)]
pub enum MediaType {
    Jpeg,
    Png,
    Gif,
    Webp,
}

/// The media type that a file extension names, if it is a supported one.
pub open spec fn media_type_of(ext: Seq<char>) -> Option<MediaType> {
    if ext == "jpg"@ || ext == "jpeg"@ {
        Some(MediaType::Jpeg)
    } else if ext == "png"@ {
        Some(MediaType::Png)
    } else if ext == "gif"@ {
        Some(MediaType::Gif)
    } else if ext == "webp"@ {
        Some(MediaType::Webp)
    } else {
        None
    }
}

/// The MIME name of each media type.
pub open spec fn mime_of(t: MediaType) -> Seq<char> {
    match t {
        MediaType::Jpeg => "image/jpeg"@,
        MediaType::Png => "image/png"@,
        MediaType::Gif => "image/gif"@,
        MediaType::Webp => "image/webp"@,
    }
}

impl MediaType {
    /// The media type of a file with extension `ext`; `None` where there is no extension
    /// or it is not one of `jpg`, `jpeg`, `png`, `gif`, `webp`.
    pub fn from_extension(ext: Option<&str>) -> (r: Option<MediaType>)
        ensures
            ext is None ==> r is None,
            ext matches Some(e) ==> r == media_type_of(e@),
    {
        match ext {
            None => None,
            Some(e) => {
                if same_text(e, "jpg") || same_text(e, "jpeg") {
                    Some(MediaType::Jpeg)
                } else if same_text(e, "png") {
                    Some(MediaType::Png)
                } else if same_text(e, "gif") {
                    Some(MediaType::Gif)
                } else if same_text(e, "webp") {
                    Some(MediaType::Webp)
                } else {
                    None
                }
            },
        }
    }

    /// The MIME name of this media type.
    pub fn mime(&self) -> (r: &'static str)
        ensures
            r@ == mime_of(*self),
    {
        match self {
            MediaType::Jpeg => "image/jpeg",
            MediaType::Png => "image/png",
            MediaType::Gif => "image/gif",
            MediaType::Webp => "image/webp",
        }
    }
}

/// The standard base64 text (with padding) of some bytes.
pub uninterp spec fn base64_of(bytes: Seq<u8>) -> Seq<char>;

/// A character of the standard base64 alphabet, or the padding character.
pub open spec fn is_base64_char(c: char) -> bool {
    ('A' <= c && c <= 'Z') || ('a' <= c && c <= 'z') || ('0' <= c && c <= '9') || c == '+' || c == '/'
        || c == '='
}

/// The length of padded base64 text: four characters for each group of up to three bytes.
pub open spec fn base64_len(n: nat) -> nat {
    4 * ((n + 2) / 3)
}

/// Relies on `base64::encode`, which is `STANDARD.encode`: the standard alphabet with
/// padding, a function of the bytes alone, of the length `encoded_len` gives
/// (it overflows, and panics, only beyond `isize::MAX` bytes).
#[verifier::external_body]
fn base64_encode(bytes: &[u8]) -> (r: String)
    requires
        bytes@.len() <= isize::MAX,
    ensures
        r@ == base64_of(bytes@),
        r@.len() == base64_len(bytes@.len()),
        forall|i: int| 0 <= i < r@.len() ==> is_base64_char(#[trigger] r@[i]),
{
    #[allow(deprecated)]
    base64::encode(bytes)
}

/// An image as a request carries it: its encoding, media type and encoded data.
#[derive(Debug, Clone)]
pub struct ImageSource {
    source_type: String,
    media_type: String,
    data: String,
}

impl ImageSource {
    /// The image made of the contents of a file of the given media type.
    pub fn from_contents(media_type: MediaType, contents: &[u8]) -> (r: ImageSource)
        requires
            contents@.len() <= isize::MAX,
        ensures
            r.spec_source_type() == "base64"@,
            r.spec_media_type() == mime_of(media_type),
            r.spec_data() == base64_of(contents@),
            r.spec_data().len() == base64_len(contents@.len()),
            forall|i: int| 0 <= i < r.spec_data().len() ==> is_base64_char(#[trigger] r.spec_data()[i]),
    {
        ImageSource {
            source_type: "base64".to_owned(),
            media_type: media_type.mime().to_owned(),
            data: base64_encode(contents),
        }
    }

    pub closed spec fn spec_source_type(&self) -> Seq<char> {
        self.source_type@
    }

    pub closed spec fn spec_media_type(&self) -> Seq<char> {
        self.media_type@
    }

    pub closed spec fn spec_data(&self) -> Seq<char> {
        self.data@
    }

    /// How the data is encoded.
    pub fn source_type(&self) -> (r: &str)
        ensures
            r@ == self.spec_source_type(),
    {
        self.source_type.as_str()
    }

    /// The MIME name of the image's format.
    pub fn media_type(&self) -> (r: &str)
        ensures
            r@ == self.spec_media_type(),
    {
        self.media_type.as_str()
    }

    /// The encoded contents.
    pub fn data(&self) -> (r: &str)
        ensures
            r@ == self.spec_data(),
    {
        self.data.as_str()
    }
}

} // verus!
