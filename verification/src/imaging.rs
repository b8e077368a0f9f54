//! The rules of an image processing service: which operation a request
//! asks for, the limits on sizes, which files a batch takes, the state of a
//! job, and the errors with their texts and HTTP status codes.
use vstd::prelude::*;
use vstd::string::StringExecFns;
use crate::config::io_error_text;
use crate::text::{
    chars_of, decimal, lowercase, owned, parse_unsigned, parse_unsigned_slice, push_decimal,
    str_eq, to_lower,
};

verus! {

broadcast use vstd::string::group_string_axioms;

/// An error of the `image` crate, carried by `Error::Image`.
#[verifier::external_type_specification]
#[verifier::external_body]
pub struct ExImageError(image::ImageError);

/// A job identifier of the `uuid` crate, carried by `JobStatus`.
#[verifier::external_type_specification]
#[verifier::external_body]
pub struct ExUuid(uuid::Uuid);

/// The text of an error of the `image` crate (its `Display`). Nothing is
/// stated of the text: it depends on the error's inner details.
#[verifier::external_body]
fn image_error_text(e: &image::ImageError) -> String {
    e.to_string()
}

// ---------------------------------------------------------------------------
// Errors
// ---------------------------------------------------------------------------

/// Why an image could not be processed.
#[derive(Debug)]
pub enum Error {
    UnsupportedFormat { format: String },
    DimensionTooLarge { width: u32, height: u32 },
    InvalidOperation { message: String },
    Io(std::io::Error),
    Image(image::ImageError),
}

/// The HTTP status code that answers an error: 400 for a bad request, 500
/// for a failure to read or write, 422 for an image that cannot be
/// processed.
pub open spec fn status_of(e: &Error) -> u16 {
    match e {
        Error::UnsupportedFormat { .. } => 400,
        Error::DimensionTooLarge { .. } => 400,
        Error::InvalidOperation { .. } => 400,
        Error::Io(_) => 500,
        Error::Image(_) => 422,
    }
}

impl Error {
    /// The text that describes the error.
    pub fn message(&self) -> (r: String)
        ensures
            match self {
                Error::UnsupportedFormat { format } => r@ == "Unsupported format: "@ + format@,
                Error::DimensionTooLarge { width, height } => r@ == "Dimensions too large: "@
                    + decimal(*width as nat) + "x"@ + decimal(*height as nat),
                Error::InvalidOperation { message } => r@ == "Invalid operation: "@ + message@,
                Error::Io(_) => r@.take(11) == "I/O error: "@,
                Error::Image(_) => r@.take(13) == "Image error: "@,
            },
    {
        match self {
            Error::UnsupportedFormat { format } => {
                let mut s = owned("Unsupported format: ");
                s.append(format.as_str());
                s
            },
            Error::DimensionTooLarge { width, height } => {
                let mut s = owned("Dimensions too large: ");
                push_decimal(&mut s, *width as u64);
                s.append("x");
                push_decimal(&mut s, *height as u64);
                s
            },
            Error::InvalidOperation { message } => {
                let mut s = owned("Invalid operation: ");
                s.append(message.as_str());
                s
            },
            Error::Io(e) => {
                let mut s = owned("I/O error: ");
                proof {
                    reveal_strlit("I/O error: ");
                }
                let ghost head = s@;
                let t = io_error_text(e);
                s.append(t.as_str());
                assert(s@.take(11) =~= head);
                s
            },
            Error::Image(e) => {
                let mut s = owned("Image error: ");
                proof {
                    reveal_strlit("Image error: ");
                }
                let ghost head = s@;
                let t = image_error_text(e);
                s.append(t.as_str());
                assert(s@.take(13) =~= head);
                s
            },
        }
    }

    /// The HTTP status code that answers the error.
    pub fn status_code(&self) -> (r: u16)
        ensures
            r == status_of(self),
    {
        match self {
            Error::UnsupportedFormat { .. } => 400,
            Error::DimensionTooLarge { .. } => 400,
            Error::InvalidOperation { .. } => 400,
            Error::Io(_) => 500,
            Error::Image(_) => 422,
        }
    }
}

/// The largest width or height that a resize accepts.
pub const MAX_DIMENSION: u32 = 16384;

/// Accepts a resize to `width` by `height` when neither exceeds
/// `MAX_DIMENSION`.
pub fn validate_dimensions(width: u32, height: u32) -> (r: Result<(), Error>)
    ensures
        (width <= MAX_DIMENSION && height <= MAX_DIMENSION) <==> r is Ok,
        r matches Err(e) ==> e == (Error::DimensionTooLarge { width, height }),
{
    if width > MAX_DIMENSION || height > MAX_DIMENSION {
        return Err(Error::DimensionTooLarge { width, height });
    }
    Ok(())
}

// ---------------------------------------------------------------------------
// Backends and formats
// ---------------------------------------------------------------------------

/// The backend built on the `image` crate.
pub struct ImageRsBackend;

impl ImageRsBackend {
    /// The name of the backend.
    pub fn name(&self) -> (r: &'static str)
        ensures
            r@ == "image-rs"@,
    {
        "image-rs"
    }
}

/// The backend built on TurboJPEG, for JPEG input.
pub struct TurboJpegBackend;

impl TurboJpegBackend {
    /// The name of the backend.
    pub fn name(&self) -> (r: &'static str)
        ensures
            r@ == "turbojpeg"@,
    {
        "turbojpeg"
    }
}

/// Whether `input` starts with the JPEG marker `FF D8`.
pub fn is_jpeg(input: &[u8]) -> (r: bool)
    ensures
        r == (input@.len() >= 2 && input@[0] == 0xFF && input@[1] == 0xD8),
{
    input.len() >= 2 && input[0] == 0xFF && input[1] == 0xD8
}

/// Where the TurboJPEG backend sends a request: on to the `image` crate
/// backend, or to its own JPEG resize.
#[derive(Debug, Clone, Copy, PartialEq, Eq, Structural)]
pub enum TurboRoute {
    ImageRs,
    Resize { width: u32, height: u32 },
}

impl TurboJpegBackend {
    /// How the backend handles `operation` on `input`: JPEG input to be
    /// resized within `MAX_DIMENSION` is resized by TurboJPEG, a larger
    /// resize of JPEG input is refused, and everything else goes to the
    /// `image` crate backend.
    pub fn route(&self, input: &[u8], operation: OperationChoice) -> (r: Result<TurboRoute, Error>)
        ensures
            !(input@.len() >= 2 && input@[0] == 0xFF && input@[1] == 0xD8) ==> r matches Ok(
                TurboRoute::ImageRs,
            ),
            (input@.len() >= 2 && input@[0] == 0xFF && input@[1] == 0xD8) ==> match operation {
                OperationChoice::Resize { width, height } => if width > MAX_DIMENSION || height
                    > MAX_DIMENSION {
                    r matches Err(Error::DimensionTooLarge { width: w, height: h }) && w == width
                        && h == height
                } else {
                    r matches Ok(TurboRoute::Resize { width: w, height: h }) && w == width && h
                        == height
                },
                _ => r matches Ok(TurboRoute::ImageRs),
            },
    {
        if !is_jpeg(input) {
            return Ok(TurboRoute::ImageRs);
        }
        match operation {
            OperationChoice::Resize { width, height } => {
                match validate_dimensions(width, height) {
                    Ok(()) => Ok(TurboRoute::Resize { width, height }),
                    Err(e) => Err(e),
                }
            },
            _ => Ok(TurboRoute::ImageRs),
        }
    }
}

/// A step of a TurboJPEG resize whose failure ends it.
#[derive(Debug, Clone, Copy, PartialEq, Eq, Structural)]
pub enum TurboStep {
    DecompressorInit,
    ReadHeader,
    Decompress,
    CompressorInit,
    Compress,
}

/// The text that opens the error of a failed step.
pub open spec fn turbo_step_text(step: TurboStep) -> Seq<char> {
    match step {
        TurboStep::DecompressorInit => "TurboJPEG decompressor init: "@,
        TurboStep::ReadHeader => "TurboJPEG read header: "@,
        TurboStep::Decompress => "TurboJPEG decompress: "@,
        TurboStep::CompressorInit => "TurboJPEG compressor init: "@,
        TurboStep::Compress => "TurboJPEG compress: "@,
    }
}

/// The error that the failure of `step` gives, with TurboJPEG's own text
/// `detail` after the step's text.
pub fn turbo_error(step: TurboStep, detail: &str) -> (r: Error)
    ensures
        r matches Error::InvalidOperation { message } && message@ == turbo_step_text(step) + detail@,
{
    let mut m = match step {
        TurboStep::DecompressorInit => owned("TurboJPEG decompressor init: "),
        TurboStep::ReadHeader => owned("TurboJPEG read header: "),
        TurboStep::Decompress => owned("TurboJPEG decompress: "),
        TurboStep::CompressorInit => owned("TurboJPEG compressor init: "),
        TurboStep::Compress => owned("TurboJPEG compress: "),
    };
    m.append(detail);
    Error::InvalidOperation { message: m }
}

/// The error when the decompressed pixels do not make an image.
pub fn raw_image_error() -> (r: Error)
    ensures
        r matches Error::InvalidOperation { message } && message@
            == "Failed to create image from decompressed data"@,
{
    Error::InvalidOperation { message: owned("Failed to create image from decompressed data") }
}

/// The quality that TurboJPEG encodes resized images at.
pub const TURBO_QUALITY: i32 = 85;

/// The length in bytes of the RGB pixels of a `width` by `height` image, and
/// the length of one of its rows: three bytes a pixel.
pub fn rgb_layout(width: usize, height: usize) -> (r: (usize, usize))
    requires
        width * height * 3 <= usize::MAX,
        width * 3 <= usize::MAX,
    ensures
        r.0 == width * height * 3,
        r.1 == width * 3,
{
    (width * height * 3, width * 3)
}

/// The kind of an input image, as far as the output format depends on it.
#[derive(Debug, Clone, Copy, PartialEq, Eq, Structural)]
pub enum ImageKind {
    Jpeg,
    Png,
    Other,
}

/// The format a processed image is written in.
#[derive(Debug, Clone, Copy, PartialEq, Eq, Structural)]
pub enum OutputFormat {
    Jpeg,
    Png,
}

/// The format a processed image is written in: JPEG stays JPEG, anything
/// else becomes PNG.
pub fn output_format(input: ImageKind) -> (r: OutputFormat)
    ensures
        r == (if input == ImageKind::Jpeg { OutputFormat::Jpeg } else { OutputFormat::Png }),
{
    match input {
        ImageKind::Jpeg => OutputFormat::Jpeg,
        ImageKind::Png => OutputFormat::Png,
        ImageKind::Other => OutputFormat::Png,
    }
}

// ---------------------------------------------------------------------------
// Processing with the `image` crate
// ---------------------------------------------------------------------------

/// A decoded image of the `image` crate.
#[verifier::external_type_specification]
#[verifier::external_body]
pub struct ExDynamicImage(image::DynamicImage);

/// The kind that `image::guess_format` reads from the first bytes of
/// `input`, or `None` when it recognises no format.
pub uninterp spec fn guessed_kind(input: Seq<u8>) -> Option<ImageKind>;

/// Whether `image::load_from_memory` decodes `input`.
pub uninterp spec fn decodable(input: Seq<u8>) -> bool;

/// The signature that starts every PNG file.
pub open spec fn png_signature() -> Seq<u8> {
    seq![0x89u8, 0x50u8, 0x4Eu8, 0x47u8, 0x0Du8, 0x0Au8, 0x1Au8, 0x0Au8]
}

/// The bytes that start every JPEG file.
pub open spec fn jpeg_signature() -> Seq<u8> {
    seq![0xFFu8, 0xD8u8, 0xFFu8]
}

/// Whether `s` starts with the PNG signature.
pub open spec fn png_start(s: Seq<u8>) -> bool {
    starts_with(s, png_signature())
}

/// Whether `s` starts with the JPEG bytes.
pub open spec fn jpeg_start(s: Seq<u8>) -> bool {
    starts_with(s, jpeg_signature())
}

/// Whether `s` starts with `prefix`.
pub open spec fn starts_with(s: Seq<u8>, prefix: Seq<u8>) -> bool {
    prefix.len() <= s.len() && s.take(prefix.len() as int) == prefix
}

/// `image::guess_format`: the format read from the magic bytes at the start
/// of `input`, as an `ImageKind` (every format other than JPEG and PNG is
/// `Other`). The function's source checks the PNG signature first and the
/// JPEG bytes second, so input that starts with either is recognised as
/// that format; for other input only the name `guessed_kind` is claimed.
#[verifier::external_body]
fn guess_kind(input: &[u8]) -> (r: Result<ImageKind, image::ImageError>)
    ensures
        r is Ok <==> guessed_kind(input@) is Some,
        r matches Ok(k) ==> guessed_kind(input@) == Some(k),
        png_start(input@) ==> r matches Ok(ImageKind::Png),
        jpeg_start(input@) ==> r matches Ok(ImageKind::Jpeg),
{
    match image::guess_format(input) {
        Ok(image::ImageFormat::Jpeg) => Ok(ImageKind::Jpeg),
        Ok(image::ImageFormat::Png) => Ok(ImageKind::Png),
        Ok(_) => Ok(ImageKind::Other),
        Err(e) => Err(e),
    }
}

/// `image::load_from_memory`: decodes `input`. Success is claimed exactly
/// when `decodable` holds of the bytes; nothing is claimed of the image.
#[verifier::external_body]
fn decode(input: &[u8]) -> (r: Result<image::DynamicImage, image::ImageError>)
    ensures
        r is Ok <==> decodable(input@),
{
    image::load_from_memory(input)
}

/// The bytes that the `image` crate gives for `input` decoded
/// (`load_from_memory`), scaled to `width` by `height` with the Lanczos
/// filter (`DynamicImage::resize_exact`) and encoded in `format`
/// (`DynamicImage::write_to`); `None` when decoding or encoding fails.
pub uninterp spec fn resized_bytes(input: Seq<u8>, width: u32, height: u32, format: OutputFormat) -> Option<Seq<u8>>;

/// The bytes that the `image` crate gives for `input` decoded
/// (`load_from_memory`), turned to shades of gray (`DynamicImage::grayscale`)
/// and encoded in `format` (`DynamicImage::write_to`); `None` when decoding
/// or encoding fails.
pub uninterp spec fn grayscale_bytes(input: Seq<u8>, format: OutputFormat) -> Option<Seq<u8>>;

/// `load_from_memory`, `DynamicImage::resize_exact` with the Lanczos filter
/// and `DynamicImage::write_to` into memory, one after the other: the image
/// `input` scaled to `width` by `height` and encoded in `format`, or the
/// crate's error when decoding or encoding fails. The bytes are claimed to
/// be `resized_bytes` of the arguments (each step depends on its arguments
/// alone); success needs the input to decode. Sizes within `MAX_DIMENSION`
/// keep the buffers that the resize allocates within `usize`.
#[verifier::external_body]
fn resize_encoded(input: &[u8], width: u32, height: u32, format: OutputFormat) -> (r: Result<Vec<u8>, image::ImageError>)
    requires
        width <= MAX_DIMENSION,
        height <= MAX_DIMENSION,
    ensures
        r is Ok <==> resized_bytes(input@, width, height, format) is Some,
        r matches Ok(b) ==> resized_bytes(input@, width, height, format) == Some(b@),
        r is Ok ==> decodable(input@),
{
    let format = match format {
        OutputFormat::Jpeg => image::ImageFormat::Jpeg,
        OutputFormat::Png => image::ImageFormat::Png,
    };
    let img = image::load_from_memory(input)?;
    let resized = img.resize_exact(width, height, image::imageops::FilterType::Lanczos3);
    let mut output = Vec::new();
    resized.write_to(&mut std::io::Cursor::new(&mut output), format)?;
    Ok(output)
}

/// `load_from_memory`, `DynamicImage::grayscale` and `DynamicImage::write_to`
/// into memory, one after the other: the image `input` in shades of gray,
/// encoded in `format`, or the crate's error when decoding or encoding
/// fails. The bytes are claimed to be `grayscale_bytes` of the arguments
/// (each step depends on its arguments alone); success needs the input to
/// decode.
#[verifier::external_body]
fn grayscale_encoded(input: &[u8], format: OutputFormat) -> (r: Result<Vec<u8>, image::ImageError>)
    ensures
        r is Ok <==> grayscale_bytes(input@, format) is Some,
        r matches Ok(b) ==> grayscale_bytes(input@, format) == Some(b@),
        r is Ok ==> decodable(input@),
{
    let format = match format {
        OutputFormat::Jpeg => image::ImageFormat::Jpeg,
        OutputFormat::Png => image::ImageFormat::Png,
    };
    let gray = image::load_from_memory(input)?.grayscale();
    let mut output = Vec::new();
    gray.write_to(&mut std::io::Cursor::new(&mut output), format)?;
    Ok(output)
}

/// The output format for input of the guessed kind `k`.
pub open spec fn format_for(k: ImageKind) -> OutputFormat {
    if k == ImageKind::Jpeg {
        OutputFormat::Jpeg
    } else {
        OutputFormat::Png
    }
}

/// What a successful transform gives, or an error of the `image` crate when
/// the crate gives nothing (`bytes` is `None`).
pub open spec fn transformed(r: Result<Vec<u8>, Error>, bytes: Option<Seq<u8>>) -> bool {
    match bytes {
        Some(b) => r matches Ok(v) && v@ == b,
        None => r matches Err(Error::Image(_)),
    }
}

impl ImageRsBackend {
    /// Applies a resize or a grayscale to the encoded image `input` and
    /// encodes the result in the output format of the input's kind: the
    /// bytes that the `image` crate gives for them. Fails with the crate's
    /// error when the format is not recognised, the image does not decode or
    /// its encoding fails; a resize beyond `MAX_DIMENSION` of an image that
    /// decodes fails with `DimensionTooLarge`. (A blur takes its strength as
    /// a float and is not handled here.)
    pub fn apply(&self, input: &[u8], operation: OperationChoice) -> (r: Result<Vec<u8>, Error>)
        requires
            !(operation is Blur),
        ensures
            guessed_kind(input@) is None ==> r matches Err(Error::Image(_)),
            guessed_kind(input@) is Some && !decodable(input@) ==> r matches Err(Error::Image(_)),
            guessed_kind(input@) matches Some(k) ==> match operation {
                OperationChoice::Resize { width, height } => if width > MAX_DIMENSION || height
                    > MAX_DIMENSION {
                    decodable(input@) ==> (r matches Err(Error::DimensionTooLarge { width: w, height: h })
                        && w == width && h == height)
                } else {
                    transformed(r, resized_bytes(input@, width, height, format_for(k)))
                },
                _ => transformed(r, grayscale_bytes(input@, format_for(k))),
            },
    {
        let kind = match guess_kind(input) {
            Ok(k) => k,
            Err(e) => return Err(Error::Image(e)),
        };
        let format = output_format(kind);
        match operation {
            OperationChoice::Resize { width, height } => match validate_dimensions(width, height) {
                Ok(()) => match resize_encoded(input, width, height, format) {
                    Ok(bytes) => Ok(bytes),
                    Err(e) => Err(Error::Image(e)),
                },
                // The image is decoded before its size is checked.
                Err(too_large) => match decode(input) {
                    Ok(_) => Err(too_large),
                    Err(e) => Err(Error::Image(e)),
                },
            },
            _ => match grayscale_encoded(input, format) {
                Ok(bytes) => Ok(bytes),
                Err(e) => Err(Error::Image(e)),
            },
        }
    }
}

// ---------------------------------------------------------------------------
// Requests
// ---------------------------------------------------------------------------

/// The operation a request asks for; a blur takes its strength from the
/// request separately.
#[derive(Debug, Clone, Copy, PartialEq, Eq, Structural)]
pub enum OperationChoice {
    Resize { width: u32, height: u32 },
    Grayscale,
    Blur,
}

/// The operation named `name`: `resize` (to `width` by `height`),
/// `grayscale` or `blur`; any other name is refused.
pub fn choose_operation(name: &str, width: u32, height: u32) -> (r: Result<OperationChoice, Error>)
    ensures
        name@ == "resize"@ ==> r == Ok::<OperationChoice, Error>(OperationChoice::Resize { width, height }),
        name@ == "grayscale"@ ==> r == Ok::<OperationChoice, Error>(OperationChoice::Grayscale),
        name@ == "blur"@ ==> r == Ok::<OperationChoice, Error>(OperationChoice::Blur),
        !(name@ == "resize"@ || name@ == "grayscale"@ || name@ == "blur"@) ==> (r matches Err(
            Error::InvalidOperation { message },
        ) && message@ == "Unknown operation: "@ + name@),
{
    proof {
        reveal_strlit("resize");
        reveal_strlit("grayscale");
        reveal_strlit("blur");
        assert("grayscale"@[0] != "resize"@[0]);
        assert("blur"@[0] != "resize"@[0]);
        assert("blur"@[0] != "grayscale"@[0]);
    }
    if str_eq(name, "resize") {
        Ok(OperationChoice::Resize { width, height })
    } else if str_eq(name, "grayscale") {
        Ok(OperationChoice::Grayscale)
    } else if str_eq(name, "blur") {
        Ok(OperationChoice::Blur)
    } else {
        let mut m = owned("Unknown operation: ");
        m.append(name);
        Err(Error::InvalidOperation { message: m })
    }
}

/// What a form field of a transform request holds, by its name.
#[derive(Debug, Clone, Copy, PartialEq, Eq, Structural)]
pub enum FieldKind {
    Image,
    Operation,
    Width,
    Height,
    Sigma,
    Other,
}

/// The kind of the form field named `name`.
pub fn field_kind(name: &str) -> (r: FieldKind)
    ensures
        r == (if name@ == "image"@ {
            FieldKind::Image
        } else if name@ == "operation"@ {
            FieldKind::Operation
        } else if name@ == "width"@ {
            FieldKind::Width
        } else if name@ == "height"@ {
            FieldKind::Height
        } else if name@ == "sigma"@ {
            FieldKind::Sigma
        } else {
            FieldKind::Other
        }),
{
    proof {
        reveal_strlit("image");
        reveal_strlit("operation");
        reveal_strlit("width");
        reveal_strlit("height");
        reveal_strlit("sigma");
    }
    if str_eq(name, "image") {
        FieldKind::Image
    } else if str_eq(name, "operation") {
        FieldKind::Operation
    } else if str_eq(name, "width") {
        FieldKind::Width
    } else if str_eq(name, "height") {
        FieldKind::Height
    } else if str_eq(name, "sigma") {
        FieldKind::Sigma
    } else {
        FieldKind::Other
    }
}

/// `text` read as a `u32`, or `default` when it is no such number.
pub open spec fn number_or(text: Seq<char>, default: u32) -> u32 {
    match parse_unsigned(text, u32::MAX as int) {
        Some(n) => n as u32,
        None => default,
    }
}

/// `text` read as a `u32` (as `str::parse` reads it), or `default`.
pub fn parse_or(text: &str, default: u32) -> (r: u32)
    ensures
        r == number_or(text@, default),
{
    let v = chars_of(text);
    let n = v.len();
    assert(v@.subrange(0, n as int) =~= v@);
    match parse_unsigned_slice(&v, 0, n, 0xffff_ffff) {
        Some(x) => x as u32,
        None => default,
    }
}

/// The fields of a transform request gathered so far: the image, the
/// operation name and the size of a resize (800 by 600 unless given).
pub struct TransformForm {
    pub image: Option<Vec<u8>>,
    pub operation: Option<String>,
    pub width: u32,
    pub height: u32,
}

impl TransformForm {
    /// No field seen yet.
    pub fn new() -> (r: Self)
        ensures
            r.image is None,
            r.operation is None,
            r.width == 800,
            r.height == 600,
    {
        TransformForm { image: None, operation: None, width: 800, height: 600 }
    }

    /// Takes the text of a `width` field: its number, or 800.
    pub fn set_width_text(&mut self, text: &str)
        ensures
            final(self).width == number_or(text@, 800),
            final(self).height == old(self).height,
            final(self).image == old(self).image,
            final(self).operation == old(self).operation,
    {
        self.width = parse_or(text, 800);
    }

    /// Takes the text of a `height` field: its number, or 600.
    pub fn set_height_text(&mut self, text: &str)
        ensures
            final(self).height == number_or(text@, 600),
            final(self).width == old(self).width,
            final(self).image == old(self).image,
            final(self).operation == old(self).operation,
    {
        self.height = parse_or(text, 600);
    }

    /// The image and the operation of the request: an image is required,
    /// and the operation is `grayscale` unless named.
    pub fn finish(self) -> (r: Result<(Vec<u8>, OperationChoice), Error>)
        ensures
            self.image is None ==> (r matches Err(Error::InvalidOperation { message })
                && message@ == "No image field in multipart"@),
            self.image matches Some(img) ==> match self.operation {
                None => r matches Ok((b, op)) && b@ == img@ && op == OperationChoice::Grayscale,
                Some(name) => if name@ == "resize"@ {
                    r matches Ok((b, op)) && b@ == img@ && op == (OperationChoice::Resize {
                        width: self.width,
                        height: self.height,
                    })
                } else if name@ == "grayscale"@ {
                    r matches Ok((b, op)) && b@ == img@ && op == OperationChoice::Grayscale
                } else if name@ == "blur"@ {
                    r matches Ok((b, op)) && b@ == img@ && op == OperationChoice::Blur
                } else {
                    r matches Err(Error::InvalidOperation { message }) && message@
                        == "Unknown operation: "@ + name@
                },
            },
    {
        let image = match self.image {
            Some(img) => img,
            None => {
                return Err(Error::InvalidOperation { message: owned("No image field in multipart") });
            },
        };
        let op = match self.operation {
            Some(name) => choose_operation(name.as_str(), self.width, self.height),
            None => Ok(OperationChoice::Grayscale),
        };
        match op {
            Ok(op) => Ok((image, op)),
            Err(e) => Err(e),
        }
    }
}

// ---------------------------------------------------------------------------
// Jobs
// ---------------------------------------------------------------------------

/// Where a job is in its life.
#[derive(Debug, Clone, Copy, PartialEq, Eq, Structural)]
pub enum JobState {
    Pending,
    Processing,
    Complete,
    Failed,
}

/// A job, its state and, once failed, the text of its error.
#[derive(Debug)]
pub struct JobStatus {
    pub id: uuid::Uuid,
    pub state: JobState,
    pub error: Option<String>,
}

impl JobStatus {
    /// A job that waits to be processed.
    pub fn pending(id: uuid::Uuid) -> (r: Self)
        ensures
            r.id == id,
            r.state == JobState::Pending,
            r.error is None,
    {
        JobStatus { id, state: JobState::Pending, error: None }
    }

    /// The job is being processed.
    pub fn start(&mut self)
        ensures
            final(self).state == JobState::Processing,
            final(self).id == old(self).id,
            final(self).error == old(self).error,
    {
        self.state = JobState::Processing;
    }

    /// The job is done: complete, or failed with the text of its error.
    pub fn finish(&mut self, outcome: Result<(), String>)
        ensures
            final(self).id == old(self).id,
            outcome is Ok ==> final(self).state == JobState::Complete && final(self).error
                == old(self).error,
            outcome matches Err(m) ==> final(self).state == JobState::Failed && final(self).error == Some(m),
    {
        match outcome {
            Ok(()) => {
                self.state = JobState::Complete;
            },
            Err(m) => {
                self.state = JobState::Failed;
                self.error = Some(m);
            },
        }
    }
}

// ---------------------------------------------------------------------------
// Batches
// ---------------------------------------------------------------------------

/// Whether the extension `ext` names a processed format: `jpg`, `jpeg` or
/// `png` in any case.
pub open spec fn supported_extension(ext: Seq<char>) -> bool {
    lowercase(ext) == "jpg"@ || lowercase(ext) == "jpeg"@ || lowercase(ext) == "png"@
}

/// Whether a file with extension `ext` is processed: `jpg`, `jpeg` or `png`
/// in any case.
pub fn is_supported_extension(ext: &str) -> (r: bool)
    ensures
        r == supported_extension(ext@),
{
    let l = to_lower(ext);
    let s = l.as_str();
    str_eq(s, "jpg") || str_eq(s, "jpeg") || str_eq(s, "png")
}

/// What a batch does with a directory entry.
#[derive(Debug, Clone, Copy, PartialEq, Eq, Structural)]
pub enum EntryAction {
    /// Not a file: passed over without counting.
    PassOver,
    /// A file of a format that is not processed: counted as skipped.
    Skip,
    /// A JPEG or PNG file: to be processed.
    Process,
}

/// What a batch did: files processed, files skipped and the errors met.
#[derive(Debug)]
pub struct BatchResult {
    pub processed: usize,
    pub skipped: usize,
    pub errors: Vec<String>,
}

/// The lines of the errors, each on a line of its own after `  - `.
pub open spec fn error_lines(errors: Seq<String>) -> Seq<char>
    decreases errors.len(),
{
    if errors.len() == 0 {
        Seq::empty()
    } else {
        error_lines(errors.drop_last()) + "\n  - "@ + errors.last()@
    }
}

impl BatchResult {
    /// Nothing done yet.
    pub fn new() -> (r: Self)
        ensures
            r.processed == 0,
            r.skipped == 0,
            r.errors@.len() == 0,
    {
        BatchResult { processed: 0, skipped: 0, errors: Vec::new() }
    }

    /// A file was processed.
    pub fn record_processed(&mut self)
        requires
            old(self).processed < usize::MAX,
        ensures
            final(self).processed == old(self).processed + 1,
            final(self).skipped == old(self).skipped,
            final(self).errors@ == old(self).errors@,
    {
        self.processed = self.processed + 1;
    }

    /// A file was skipped.
    pub fn record_skipped(&mut self)
        requires
            old(self).skipped < usize::MAX,
        ensures
            final(self).skipped == old(self).skipped + 1,
            final(self).processed == old(self).processed,
            final(self).errors@ == old(self).errors@,
    {
        self.skipped = self.skipped + 1;
    }

    /// A file failed with the error text `error`.
    pub fn record_error(&mut self, error: String)
        ensures
            final(self).errors@ == old(self).errors@.push(error),
            final(self).processed == old(self).processed,
            final(self).skipped == old(self).skipped,
    {
        self.errors.push(error);
    }

    /// Takes the next entry of the directory, a file or not, with the
    /// extension `ext` (empty when it has none): an entry that is no file is
    /// passed over, a file of another format is counted as skipped, and a
    /// JPEG or PNG file is to be processed.
    pub fn next_entry(&mut self, is_file: bool, ext: &str) -> (r: EntryAction)
        requires
            is_file && !supported_extension(ext@) ==> old(self).skipped < usize::MAX,
        ensures
            r == (if !is_file {
                EntryAction::PassOver
            } else if supported_extension(ext@) {
                EntryAction::Process
            } else {
                EntryAction::Skip
            }),
            final(self).skipped == old(self).skipped + (if r == EntryAction::Skip { 1int } else { 0 }),
            final(self).processed == old(self).processed,
            final(self).errors@ == old(self).errors@,
    {
        if !is_file {
            return EntryAction::PassOver;
        }
        if !is_supported_extension(ext) {
            self.record_skipped();
            return EntryAction::Skip;
        }
        EntryAction::Process
    }

    /// Records how processing a file ended: counted as processed, or its
    /// error text `Err(text)` kept.
    pub fn record_outcome(&mut self, outcome: Result<(), String>)
        requires
            outcome is Ok ==> old(self).processed < usize::MAX,
        ensures
            outcome is Ok ==> final(self).processed == old(self).processed + 1 && final(self).errors@
                == old(self).errors@,
            outcome matches Err(text) ==> final(self).processed == old(self).processed
                && final(self).errors@ == old(self).errors@.push(text),
            final(self).skipped == old(self).skipped,
    {
        match outcome {
            Ok(()) => self.record_processed(),
            Err(text) => self.record_error(text),
        }
    }

    /// The summary of the batch: the counts, then each error on a line of
    /// its own.
    pub fn summary(&self) -> (r: String)
        ensures
            r@ == "Batch complete: "@ + decimal(self.processed as nat) + " processed, "@
                + decimal(self.skipped as nat) + " skipped, "@ + decimal(self.errors@.len())
                + " errors"@ + error_lines(self.errors@),
    {
        let mut s = owned("Batch complete: ");
        push_decimal(&mut s, self.processed as u64);
        s.append(" processed, ");
        push_decimal(&mut s, self.skipped as u64);
        s.append(" skipped, ");
        push_decimal(&mut s, self.errors.len() as u64);
        s.append(" errors");
        let ghost head = s@;
        let mut i: usize = 0;
        while i < self.errors.len()
            invariant
                i <= self.errors@.len(),
                s@ == head + error_lines(self.errors@.take(i as int)),
            decreases self.errors@.len() - i,
        {
            s.append("\n  - ");
            s.append(self.errors[i].as_str());
            proof {
                assert(self.errors@.take(i + 1).drop_last() =~= self.errors@.take(i as int));
            }
            i = i + 1;
        }
        assert(self.errors@.take(self.errors@.len() as int) =~= self.errors@);
        s
    }
}

} // verus!
