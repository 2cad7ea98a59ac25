//! Upload-time file processing: size and MIME-type admission rules, MIME
//! detection, thumbnails for images, and the verdict on a virus-scanner
//! reply.

use vstd::prelude::*;

use crate::error::ApiError;
use crate::text::{seq_contains_sub, str_contains_sub, str_starts_with, u64_to_dec};

verus! {

/// How files are screened and transformed on their way in.
pub struct FileProcessingConfig {
    pub max_file_size: Option<u64>,
    pub allowed_mime_types: Option<Vec<String>>,
    pub blocked_mime_types: Option<Vec<String>>,
    pub enable_compression: bool,
    pub compression_type: CompressionType,
    pub enable_thumbnail: bool,
    pub thumbnail_width: Option<u32>,
    pub thumbnail_height: Option<u32>,
    pub enable_virus_scan: bool,
    pub clamav_host: Option<String>,
    pub clamav_port: Option<u16>,
}

/// The codec applied when compression is enabled.
#[derive(Debug, Clone, Copy, PartialEq, Eq, Structural)]
pub enum CompressionType {
    Uncompressed,
    Gzip,
    Brotli,
}

/// The mathematical value of a [`FileProcessingConfig`].
pub ghost struct ProcessingConfigView {
    pub max_file_size: Option<u64>,
    pub allowed_mime_types: Option<Seq<Seq<char>>>,
    pub blocked_mime_types: Option<Seq<Seq<char>>>,
    pub enable_compression: bool,
    pub compression_type: CompressionType,
    pub enable_thumbnail: bool,
    pub thumbnail_width: Option<u32>,
    pub thumbnail_height: Option<u32>,
    pub enable_virus_scan: bool,
    pub clamav_host: Option<Seq<char>>,
    pub clamav_port: Option<u16>,
}

impl View for FileProcessingConfig {
    type V = ProcessingConfigView;

    open spec fn view(&self) -> ProcessingConfigView {
        ProcessingConfigView {
            max_file_size: self.max_file_size,
            allowed_mime_types: self.allowed_mime_types.deep_view(),
            blocked_mime_types: self.blocked_mime_types.deep_view(),
            enable_compression: self.enable_compression,
            compression_type: self.compression_type,
            enable_thumbnail: self.enable_thumbnail,
            thumbnail_width: self.thumbnail_width,
            thumbnail_height: self.thumbnail_height,
            enable_virus_scan: self.enable_virus_scan,
            clamav_host: self.clamav_host.deep_view(),
            clamav_port: self.clamav_port,
        }
    }
}

impl Default for FileProcessingConfig {
    /// The default rules: no size bound, no MIME lists, nothing enabled,
    /// 200-pixel thumbnails and the conventional local scanner address ready
    /// for when they are.
    fn default() -> (r: Self)
        ensures
            r@.max_file_size is None,
            r@.allowed_mime_types is None,
            r@.blocked_mime_types is None,
            r@.enable_compression == false,
            r@.compression_type == CompressionType::Uncompressed,
            r@.enable_thumbnail == false,
            r@.thumbnail_width == Some(200u32),
            r@.thumbnail_height == Some(200u32),
            r@.enable_virus_scan == false,
            r@.clamav_host == Some("localhost"@),
            r@.clamav_port == Some(3310u16),
    {
        FileProcessingConfig {
            max_file_size: None,
            allowed_mime_types: None,
            blocked_mime_types: None,
            enable_compression: false,
            compression_type: CompressionType::Uncompressed,
            enable_thumbnail: false,
            thumbnail_width: Some(200),
            thumbnail_height: Some(200),
            enable_virus_scan: false,
            clamav_host: Some(String::from_str("localhost")),
            clamav_port: Some(3310),
        }
    }
}

/// Whether some entry of `list` is a prefix of `mime`.
pub open spec fn some_prefix_of(list: Seq<Seq<char>>, mime: Seq<char>) -> bool {
    exists|i: int| 0 <= i < list.len() && (#[trigger] list[i]).is_prefix_of(mime)
}

/// Whether any entry of `list` is a prefix of `mime`.
fn any_prefix_of(list: &Vec<String>, mime: &str) -> (r: bool)
    ensures
        r == some_prefix_of(list.deep_view(), mime@),
{
    let mut i: usize = 0;
    while i < list.len()
        invariant
            0 <= i <= list.len(),
            forall|j: int| 0 <= j < i ==> !(#[trigger] list.deep_view()[j]).is_prefix_of(mime@),
        decreases list.len() - i,
    {
        let hit = str_starts_with(mime, list[i].as_str());
        proof {
            assert(list.deep_view()[i as int] == list@[i as int]@);
        }
        if hit {
            return true;
        }
        i += 1;
    }
    false
}

/// The MIME type `mime_guess` derives from a file name alone. The lookup
/// table lives in that crate; the library only names its result.
pub uninterp spec fn guessed_mime(name: Seq<char>) -> Option<Seq<char>>;

/// Relies on mime_guess's `from_path` and `MimeGuess::first`: the first
/// guess for the name's extension, a function of the name alone.
#[verifier::external_body]
fn guess_mime_from_name(name: &str) -> (r: Option<String>)
    ensures
        r.deep_view() == guessed_mime(name@),
{
    mime_guess::from_path(name).first().map(|m| m.to_string())
}

/// The fallback MIME type read off a payload's leading magic bytes.
pub open spec fn magic_mime(data: Seq<u8>) -> Seq<char> {
    if data.len() >= 4 {
        if data[0] == 0xff && data[1] == 0xd8 && data[2] == 0xff {
            "image/jpeg"@
        } else if data[0] == 0x89 && data[1] == 0x50 && data[2] == 0x4e && data[3] == 0x47 {
            "image/png"@
        } else if data[0] == 0x47 && data[1] == 0x49 && data[2] == 0x46 && data[3] == 0x38 {
            "image/gif"@
        } else if data[0] == 0x25 && data[1] == 0x50 && data[2] == 0x44 && data[3] == 0x46 {
            "application/pdf"@
        } else if data[0] == 0x50 && data[1] == 0x4b && (
            (data[2] == 0x03 && data[3] == 0x04) || (data[2] == 0x05 && data[3] == 0x06)
        ) {
            "application/zip"@
        } else {
            "application/octet-stream"@
        }
    } else {
        "application/octet-stream"@
    }
}

/// What MIME detection returns: the name-based guess when there is one, the
/// magic-byte fallback otherwise.
pub open spec fn detected_mime(guess: Option<Seq<char>>, data: Seq<u8>) -> Seq<char> {
    match guess {
        Some(m) => m,
        None => magic_mime(data),
    }
}

/// An opaque decoded image, carried between the decode, resize, and encode
/// calls of the image crate.
#[verifier::external_type_specification]
#[verifier::external_body]
pub struct ExDynamicImage(image::DynamicImage);

/// Whether the image crate's `load_from_memory` decodes a payload: a
/// function of the bytes alone. The formats themselves live in that crate;
/// the library only names the outcome.
pub uninterp spec fn image_decodes(data: Seq<u8>) -> bool;

/// Relies on image's `load_from_memory`: decodes a payload, succeeding
/// exactly on bytes of a supported image format.
#[verifier::external_body]
fn image_decode(data: &[u8]) -> (r: Result<image::DynamicImage, ApiError>)
    ensures
        r is Ok <==> image_decodes(data@),
        r matches Err(e) ==> e is Storage,
{
    image::load_from_memory(data).map_err(
        |e| ApiError::Storage(format!("Failed to load image: {}", e)),
    )
}

/// Relies on image's `DynamicImage::resize`: scales the image to fit within
/// the given bounds, keeping its aspect ratio.
#[verifier::external_body]
fn image_resize(img: &image::DynamicImage, width: u32, height: u32) -> image::DynamicImage {
    img.resize(width, height, image::imageops::FilterType::Lanczos3)
}

/// Relies on image's `DynamicImage::write_to`: encodes the image as JPEG
/// bytes.
#[verifier::external_body]
fn image_encode_jpeg(img: &image::DynamicImage) -> (r: Result<Vec<u8>, ApiError>)
    ensures
        r matches Err(e) ==> e is Storage,
{
    let mut buffer = std::io::Cursor::new(Vec::new());
    match img.write_to(&mut buffer, image::ImageFormat::Jpeg) {
        Ok(()) => Ok(buffer.into_inner()),
        Err(e) => Err(ApiError::Storage(format!("Failed to write thumbnail: {}", e))),
    }
}

/// The screening and transformation rules, applied one file at a time.
pub struct FileProcessor {
    config: FileProcessingConfig,
}

impl FileProcessor {
    /// The rules this processor applies.
    pub closed spec fn spec_config(&self) -> ProcessingConfigView {
        self.config@
    }

    /// A processor applying `config`.
    pub fn new(config: FileProcessingConfig) -> (r: Self)
        ensures
            r.spec_config() == config@,
    {
        FileProcessor { config }
    }

    /// Admits a file size: within the configured bound, or unbounded when
    /// none is configured.
    pub fn validate_size(&self, size: u64) -> (r: Result<(), ApiError>)
        ensures
            r is Ok <==> (match self.spec_config().max_file_size {
                Some(max) => size <= max,
                None => true,
            }),
            r matches Err(e) ==> e is Storage,
    {
        match self.config.max_file_size {
            Some(max_size) => {
                if size > max_size {
                    let mut msg = String::from_str("File size ");
                    let size_text = u64_to_dec(size);
                    msg.append(size_text.as_str());
                    msg.append(" bytes exceeds maximum allowed size ");
                    let max_text = u64_to_dec(max_size);
                    msg.append(max_text.as_str());
                    msg.append(" bytes");
                    return Err(ApiError::Storage(msg));
                }
            },
            None => {},
        }
        Ok(())
    }

    /// Admits a MIME type: rejected when any blocked entry is a prefix of
    /// it, and otherwise accepted exactly when the allowlist is absent or
    /// some allowed entry is a prefix of it.
    pub fn validate_mime_type(&self, mime_type: &str) -> (r: Result<(), ApiError>)
        ensures
            r is Ok <==> {
                &&& (match self.spec_config().blocked_mime_types {
                    Some(blocked) => !some_prefix_of(blocked, mime_type@),
                    None => true,
                })
                &&& (match self.spec_config().allowed_mime_types {
                    Some(allowed) => some_prefix_of(allowed, mime_type@),
                    None => true,
                })
            },
            r matches Err(e) ==> e is Storage,
    {
        if let Some(blocked) = &self.config.blocked_mime_types {
            if any_prefix_of(blocked, mime_type) {
                let mut msg = String::from_str("MIME type '");
                msg.append(mime_type);
                msg.append("' is blocked");
                return Err(ApiError::Storage(msg));
            }
        }

        if let Some(allowed) = &self.config.allowed_mime_types {
            if !any_prefix_of(allowed, mime_type) {
                let mut msg = String::from_str("MIME type '");
                msg.append(mime_type);
                msg.append("' is not in the allowed list");
                return Err(ApiError::Storage(msg));
            }
        }

        Ok(())
    }

    /// The MIME type of a payload: guessed from the file name's extension
    /// when possible, read off the leading magic bytes otherwise.
    pub fn detect_mime_type(&self, data: &[u8], filename: &str) -> (r: String)
        ensures
            r@ == detected_mime(guessed_mime(filename@), data@),
    {
        match guess_mime_from_name(filename) {
            Some(mime) => mime,
            None => {
                if data.len() >= 4 {
                    let b0 = data[0];
                    let b1 = data[1];
                    let b2 = data[2];
                    let b3 = data[3];
                    if b0 == 0xff && b1 == 0xd8 && b2 == 0xff {
                        String::from_str("image/jpeg")
                    } else if b0 == 0x89 && b1 == 0x50 && b2 == 0x4e && b3 == 0x47 {
                        String::from_str("image/png")
                    } else if b0 == 0x47 && b1 == 0x49 && b2 == 0x46 && b3 == 0x38 {
                        String::from_str("image/gif")
                    } else if b0 == 0x25 && b1 == 0x50 && b2 == 0x44 && b3 == 0x46 {
                        String::from_str("application/pdf")
                    } else if b0 == 0x50 && b1 == 0x4b && ((b2 == 0x03 && b3 == 0x04) || (b2
                        == 0x05 && b3 == 0x06)) {
                        String::from_str("application/zip")
                    } else {
                        String::from_str("application/octet-stream")
                    }
                } else {
                    String::from_str("application/octet-stream")
                }
            },
        }
    }

    /// A JPEG thumbnail within the configured bounds, for enabled
    /// processors and image payloads only: disabled processors and
    /// non-image types yield nothing, undecodable bytes yield an error, and
    /// only the JPEG encoding of a decodable payload can still fail.
    pub fn generate_thumbnail(&self, data: &[u8], mime_type: &str) -> (r: Result<
        Option<Vec<u8>>,
        ApiError,
    >)
        ensures
            !self.spec_config().enable_thumbnail ==> (r matches Ok(o) && o is None),
            !("image/"@.is_prefix_of(mime_type@)) ==> (r matches Ok(o) && o is None),
            r matches Ok(o) && o is Some ==> self.spec_config().enable_thumbnail
                && "image/"@.is_prefix_of(mime_type@) && image_decodes(data@),
            r is Err ==> self.spec_config().enable_thumbnail && "image/"@.is_prefix_of(mime_type@),
            self.spec_config().enable_thumbnail && "image/"@.is_prefix_of(mime_type@)
                && !image_decodes(data@) ==> r is Err,
            r matches Err(e) ==> e is Storage,
    {
        if !self.config.enable_thumbnail {
            return Ok(None);
        }

        if !str_starts_with(mime_type, "image/") {
            return Ok(None);
        }

        let width = match self.config.thumbnail_width {
            Some(w) => w,
            None => 200,
        };
        let height = match self.config.thumbnail_height {
            Some(h) => h,
            None => 200,
        };

        let img = match image_decode(data) {
            Ok(img) => img,
            Err(e) => {
                return Err(e);
            },
        };
        let thumbnail = image_resize(&img, width, height);
        match image_encode_jpeg(&thumbnail) {
            Ok(bytes) => Ok(Some(bytes)),
            Err(e) => Err(e),
        }
    }

    /// The verdict on a virus scanner's reply: with scanning disabled every
    /// payload passes; with it enabled, the reply is clean exactly when it
    /// nowhere announces a finding.
    pub fn evaluate_scan_response(&self, response: &str) -> (r: Result<(), ApiError>)
        ensures
            !self.spec_config().enable_virus_scan ==> r is Ok,
            self.spec_config().enable_virus_scan ==> (r is Ok <==> !seq_contains_sub(
                response@,
                "FOUND"@,
            )),
            r matches Err(e) ==> e is Storage,
    {
        if !self.config.enable_virus_scan {
            return Ok(());
        }
        if str_contains_sub(response, "FOUND") {
            let mut msg = String::from_str("Virus detected: ");
            msg.append(response);
            return Err(ApiError::Storage(msg));
        }
        Ok(())
    }
}

} // verus!
