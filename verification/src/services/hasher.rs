//! Digests, fingerprints and the classification of files by extension.
//!
//! Two kinds of hash are in play. The exact digest (SHA-256, as lower-case
//! hexadecimal text) tells byte-identical files apart from all others. The
//! perceptual fingerprint is a bit vector that changes little when the
//! picture changes little; two fingerprints are compared by the number of
//! bits in which they differ.

use vstd::prelude::*;
use vstd::string::StrSliceExecFns;
use vstd::utf8::is_ascii_chars;

use sha2::Digest;

verus! {

/// The kind of media that a file holds, judged by its extension.
#[derive(Debug, Clone, Copy, PartialEq, Eq, Structural)]
pub enum MediaType {
    Image,
    Video,
    Audio,
    Unknown,
}

/// Largest Hamming distance at which two fingerprints still count as similar.
pub const SIMILARITY_THRESHOLD: u32 = 10;

/// Longest fingerprint, in bytes, whose distances fit a `u32`.
pub const MAX_FINGERPRINT_BYTES: usize = 0x1FFF_FFFF;

/// Whether `ext` (in lower case) is an extension of an image format.
pub open spec fn is_image_extension(ext: Seq<char>) -> bool {
    ||| ext == "jpg"@
    ||| ext == "jpeg"@
    ||| ext == "png"@
    ||| ext == "gif"@
    ||| ext == "bmp"@
    ||| ext == "webp"@
    ||| ext == "tiff"@
    ||| ext == "tif"@
    ||| ext == "ico"@
}

/// Whether `ext` (in lower case) is an extension of a video format.
pub open spec fn is_video_extension(ext: Seq<char>) -> bool {
    ||| ext == "mp4"@
    ||| ext == "mkv"@
    ||| ext == "avi"@
    ||| ext == "mov"@
    ||| ext == "wmv"@
    ||| ext == "flv"@
    ||| ext == "webm"@
    ||| ext == "m4v"@
    ||| ext == "mpeg"@
    ||| ext == "mpg"@
    ||| ext == "3gp"@
}

/// Whether `ext` (in lower case) is an extension of an audio format.
pub open spec fn is_audio_extension(ext: Seq<char>) -> bool {
    ||| ext == "wav"@
    ||| ext == "flac"@
    ||| ext == "aiff"@
    ||| ext == "ape"@
    ||| ext == "mp3"@
    ||| ext == "m4a"@
    ||| ext == "aac"@
    ||| ext == "ogg"@
    ||| ext == "opus"@
    ||| ext == "wma"@
}

/// The media type that a lower-case extension stands for. Images come
/// first, then videos, then audio.
pub open spec fn classify(ext: Seq<char>) -> MediaType {
    if is_image_extension(ext) {
        MediaType::Image
    } else if is_video_extension(ext) {
        MediaType::Video
    } else if is_audio_extension(ext) {
        MediaType::Audio
    } else {
        MediaType::Unknown
    }
}

/// The position of the last dot in the last component of `path`, looking
/// only at the characters before position `end`; -1 if a slash or the
/// beginning of the path comes first.
pub open spec fn last_dot(path: Seq<char>, end: int) -> int
    decreases end,
{
    if end <= 0 {
        -1
    } else if path[end - 1] == '/' {
        -1
    } else if path[end - 1] == '.' {
        end - 1
    } else {
        last_dot(path, end - 1)
    }
}

/// Where the last component of `path` ends, looking only at the characters
/// before position `end`: slashes at the end do not count, and neither
/// does a component that is a single dot.
pub open spec fn name_end(path: Seq<char>, end: int) -> int
    decreases end,
{
    if end <= 0 {
        0
    } else if path[end - 1] == '/' {
        name_end(path, end - 1)
    } else if path[end - 1] == '.' && end >= 2 && path[end - 2] == '/' {
        name_end(path, end - 2)
    } else {
        end
    }
}

/// The extension of `path`: what follows the last dot of its last
/// component. A component without a dot has none, and neither has one whose
/// only dot is its first character, nor the component `..`.
pub open spec fn extension_of(path: Seq<char>) -> Option<Seq<char>> {
    let end = name_end(path, path.len() as int);
    let dot = last_dot(path, end);
    if dot <= 0 || path[dot - 1] == '/' {
        None
    } else if dot == end - 1 && path[dot - 1] == '.' && (dot == 1 || path[dot - 2] == '/') {
        None
    } else {
        Some(path.subrange(dot + 1, end))
    }
}

/// The lower-case form of a text, as `str::to_lowercase` gives it.
pub uninterp spec fn lowercase_of(text: Seq<char>) -> Seq<char>;

/// The media type of the file at `path`: that of its extension in lower
/// case, `Unknown` without an extension.
pub open spec fn media_type_of(path: Seq<char>) -> MediaType {
    match extension_of(path) {
        Some(ext) => classify(lowercase_of(ext)),
        None => MediaType::Unknown,
    }
}

/// The lower-case form of an ASCII character: the capital letters `A` to
/// `Z` become `a` to `z`, every other character stays.
pub open spec fn ascii_lower(c: char) -> char {
    if 'A' <= c <= 'Z' {
        ((c as u8) + 32) as u8 as char
    } else {
        c
    }
}

/// The lower-case form of an ASCII text, character by character.
pub open spec fn ascii_lowered(text: Seq<char>) -> Seq<char> {
    Seq::new(text.len(), |i: int| ascii_lower(text[i]))
}

/// The lower-case form of the extension of `path` is the plain one if the
/// extension is ASCII text.
pub open spec fn lowers_plainly(path: Seq<char>) -> bool {
    match extension_of(path) {
        Some(ext) => is_ascii_chars(ext) ==> lowercase_of(ext) == ascii_lowered(ext),
        None => true,
    }
}

/// Calls `str::to_lowercase` of the standard library, which maps each
/// character by the Unicode lower-case tables. The result is given the name
/// `lowercase_of`. Of an ASCII text it is its plain lower-case form; of any
/// other text nothing else is claimed.
#[verifier::external_body]
fn to_lowercase(text: &str) -> (lower: String)
    ensures
        lower@ == lowercase_of(text@),
        is_ascii_chars(text@) ==> lower@ == ascii_lowered(text@),
{
    text.to_lowercase()
}

/// Whether two texts are the same.
fn same_text(a: &str, b: &str) -> (same: bool)
    ensures
        same == (a@ == b@),
{
    a.to_owned() == b.to_owned()
}

/// The media type that the extension `ext` stands for. The extension is
/// taken as it is: `"PNG"` is not `"png"`.
pub fn media_type_of_extension(ext: &str) -> (media_type: MediaType)
    ensures
        media_type == classify(ext@),
{
    if same_text(ext, "jpg") || same_text(ext, "jpeg") || same_text(ext, "png") || same_text(
        ext,
        "gif",
    ) || same_text(ext, "bmp") || same_text(ext, "webp") || same_text(ext, "tiff") || same_text(
        ext,
        "tif",
    ) || same_text(ext, "ico") {
        MediaType::Image
    } else if same_text(ext, "mp4") || same_text(ext, "mkv") || same_text(ext, "avi") || same_text(
        ext,
        "mov",
    ) || same_text(ext, "wmv") || same_text(ext, "flv") || same_text(ext, "webm") || same_text(
        ext,
        "m4v",
    ) || same_text(ext, "mpeg") || same_text(ext, "mpg") || same_text(ext, "3gp") {
        MediaType::Video
    } else if same_text(ext, "wav") || same_text(ext, "flac") || same_text(ext, "aiff")
        || same_text(ext, "ape") || same_text(ext, "mp3") || same_text(ext, "m4a") || same_text(
        ext,
        "aac",
    ) || same_text(ext, "ogg") || same_text(ext, "opus") || same_text(ext, "wma") {
        MediaType::Audio
    } else {
        MediaType::Unknown
    }
}

/// The extension of `path`, if it has one.
pub fn file_extension(path: &str) -> (ext: Option<String>)
    ensures
        match ext {
            Some(text) => extension_of(path@) == Some(text@),
            None => extension_of(path@) is None,
        },
{
    let len = path.unicode_len();
    let mut end = len;
    loop
        invariant
            end <= len,
            len == path@.len(),
            name_end(path@, len as int) == name_end(path@, end as int),
        ensures
            end <= len,
            end == name_end(path@, len as int),
        decreases end,
    {
        if end == 0 {
            break ;
        }
        let c = path.get_char(end - 1);
        if c == '/' {
            end = end - 1;
        } else if c == '.' && end >= 2 && path.get_char(end - 2) == '/' {
            end = end - 2;
        } else {
            break ;
        }
    }
    let mut at = end;
    while at > 0
        invariant
            at <= end <= len,
            len == path@.len(),
            end == name_end(path@, len as int),
            last_dot(path@, end as int) == last_dot(path@, at as int),
        decreases at,
    {
        let c = path.get_char(at - 1);
        if c == '/' {
            return None;
        }
        if c == '.' {
            let dot = at - 1;
            if dot == 0 {
                return None;
            }
            let before = path.get_char(dot - 1);
            if before == '/' {
                return None;
            }
            if dot == end - 1 && before == '.' && (dot == 1 || path.get_char(dot - 2) == '/') {
                return None;
            }
            let text = path.substring_char(dot + 1, end);
            return Some(text.to_owned());
        }
        at = at - 1;
    }
    None
}

/// The media type of the file at `path`, by its extension. Upper and
/// lower case are the same: `a.PNG` is an image.
pub fn get_media_type(path: &str) -> (media_type: MediaType)
    ensures
        media_type == media_type_of(path@),
        lowers_plainly(path@),
{
    match file_extension(path) {
        Some(ext) => {
            let lower = to_lowercase(ext.as_str());
            media_type_of_extension(lower.as_str())
        },
        None => MediaType::Unknown,
    }
}

/// The SHA-256 digest of a byte string, as 64 lower-case hexadecimal digits.
pub uninterp spec fn sha256_hex(data: Seq<u8>) -> Seq<char>;

/// A digest in the making: the state of a SHA-256 computation over the
/// bytes that were fed to it so far. It holds a `sha2::Sha256`.
#[verifier::external_body]
pub struct ContentHasher {
    state: sha2::Sha256,
}

/// The bytes that a hasher was fed, in the order in which they came.
pub uninterp spec fn absorbed(hasher: ContentHasher) -> Seq<u8>;

/// Begins a digest by `sha2::Sha256::new`: nothing is fed yet.
#[verifier::external_body]
fn begin_digest() -> (hasher: ContentHasher)
    ensures
        absorbed(hasher) == Seq::<u8>::empty(),
{
    ContentHasher { state: sha2::Sha256::new() }
}

/// Feeds bytes by `sha2::Digest::update`, which processes them after
/// those that came before.
#[verifier::external_body]
fn feed_digest(hasher: &mut ContentHasher, chunk: &[u8])
    ensures
        absorbed(*final(hasher)) == absorbed(*old(hasher)) + chunk@,
{
    hasher.state.update(chunk);
}

/// Ends a digest by `sha2::Digest::finalize` and formats it by the
/// `LowerHex` of its output. The digest depends on the bytes fed alone; it
/// is given the name `sha256_hex` of those bytes.
#[verifier::external_body]
fn end_digest(hasher: ContentHasher) -> (digest: String)
    ensures
        digest@ == sha256_hex(absorbed(hasher)),
{
    format!("{:x}", hasher.state.finalize())
}

impl ContentHasher {
    /// A hasher that has been fed nothing.
    pub fn new() -> (hasher: Self)
        ensures
            absorbed(hasher) == Seq::<u8>::empty(),
    {
        begin_digest()
    }

    /// Feeds the next bytes of the content.
    pub fn update(&mut self, chunk: &[u8])
        ensures
            absorbed(*final(self)) == absorbed(*old(self)) + chunk@,
    {
        feed_digest(self, chunk)
    }

    /// The digest of all that was fed.
    pub fn finish(self) -> (digest: String)
        ensures
            digest@ == sha256_hex(absorbed(self)),
    {
        end_digest(self)
    }
}

/// The SHA-256 digest of `data` in lower-case hexadecimal. Feeding a
/// content to a `ContentHasher` piece by piece gives the same digest.
pub fn sha256_hash(data: &[u8]) -> (digest: String)
    ensures
        digest@ == sha256_hex(data@),
{
    let mut hasher = ContentHasher::new();
    hasher.update(data);
    assert(Seq::<u8>::empty() + data@ =~= data@);
    hasher.finish()
}

/// The number of one bits in `v`.
pub open spec fn ones(v: u8) -> nat {
    ((v & 1) + ((v >> 1) & 1) + ((v >> 2) & 1) + ((v >> 3) & 1) + ((v >> 4) & 1) + ((v >> 5) & 1)
        + ((v >> 6) & 1) + ((v >> 7) & 1)) as nat
}

/// The Hamming distance between the first `n` bytes of `a` and of `b`.
pub open spec fn hamming_upto(a: Seq<u8>, b: Seq<u8>, n: int) -> nat
    decreases n,
{
    if n <= 0 {
        0
    } else {
        hamming_upto(a, b, n - 1) + ones(a[n - 1] ^ b[n - 1])
    }
}

/// The Hamming distance between two bit vectors: the number of bit
/// positions at which they differ. Where one is longer than the other, what
/// it has beyond the other's length does not count.
pub open spec fn hamming(a: Seq<u8>, b: Seq<u8>) -> nat {
    hamming_upto(a, b, if a.len() <= b.len() { a.len() as int } else { b.len() as int })
}

/// Whether two bit vectors are within the similarity tolerance.
pub open spec fn similar(a: Seq<u8>, b: Seq<u8>) -> bool {
    hamming(a, b) <= SIMILARITY_THRESHOLD
}

/// The distance over `n` bytes is at most `8 * n`.
pub proof fn hamming_is_bounded(a: Seq<u8>, b: Seq<u8>, n: int)
    requires
        0 <= n,
    ensures
        hamming_upto(a, b, n) <= 8 * n,
    decreases n,
{
    if n > 0 {
        hamming_is_bounded(a, b, n - 1);
        let v = a[n - 1] ^ b[n - 1];
        assert((v & 1) + ((v >> 1) & 1) + ((v >> 2) & 1) + ((v >> 3) & 1) + ((v >> 4) & 1) + ((v
            >> 5) & 1) + ((v >> 6) & 1) + ((v >> 7) & 1) <= 8) by (bit_vector);
    }
}

/// The distance over the first `n` bytes is the same in both directions.
proof fn hamming_upto_is_symmetric(a: Seq<u8>, b: Seq<u8>, n: int)
    ensures
        hamming_upto(a, b, n) == hamming_upto(b, a, n),
    decreases n,
{
    if n > 0 {
        hamming_upto_is_symmetric(a, b, n - 1);
        let x = a[n - 1];
        let y = b[n - 1];
        assert(x ^ y == y ^ x) by (bit_vector);
    }
}

/// The distance of a bit vector to itself over the first `n` bytes is zero.
proof fn hamming_upto_itself_is_zero(a: Seq<u8>, n: int)
    ensures
        hamming_upto(a, a, n) == 0,
    decreases n,
{
    if n > 0 {
        hamming_upto_itself_is_zero(a, n - 1);
        let x = a[n - 1];
        let z = x ^ x;
        assert((z & 1) == 0 && ((z >> 1) & 1) == 0 && ((z >> 2) & 1) == 0 && ((z >> 3) & 1) == 0 && ((
        z >> 4) & 1) == 0 && ((z >> 5) & 1) == 0 && ((z >> 6) & 1) == 0 && ((z >> 7) & 1) == 0)
            by (bit_vector)
            requires
                z == x ^ x,
        ;
    }
}

/// Similarity does not depend on the order of the two, and every bit vector
/// is similar to itself: its distance to itself is zero.
pub proof fn similarity_is_symmetric_and_reflexive(a: Seq<u8>, b: Seq<u8>)
    ensures
        hamming(a, b) == hamming(b, a),
        similar(a, b) == similar(b, a),
        hamming(a, a) == 0,
        similar(a, a),
{
    hamming_upto_is_symmetric(
        a,
        b,
        if a.len() <= b.len() {
            a.len() as int
        } else {
            b.len() as int
        },
    );
    hamming_upto_itself_is_zero(a, a.len() as int);
}

/// The number of one bits in `v`.
pub fn count_ones(v: u8) -> (count: u32)
    ensures
        count == ones(v),
        count <= 8,
{
    assert((v & 1) <= 1 && ((v >> 1) & 1) <= 1 && ((v >> 2) & 1) <= 1 && ((v >> 3) & 1) <= 1 && ((v
        >> 4) & 1) <= 1 && ((v >> 5) & 1) <= 1 && ((v >> 6) & 1) <= 1 && ((v >> 7) & 1) <= 1)
        by (bit_vector);
    let b0: u32 = (v & 1) as u32;
    let b1: u32 = ((v >> 1) & 1) as u32;
    let b2: u32 = ((v >> 2) & 1) as u32;
    let b3: u32 = ((v >> 3) & 1) as u32;
    let b4: u32 = ((v >> 4) & 1) as u32;
    let b5: u32 = ((v >> 5) & 1) as u32;
    let b6: u32 = ((v >> 6) & 1) as u32;
    let b7: u32 = ((v >> 7) & 1) as u32;
    b0 + b1 + b2 + b3 + b4 + b5 + b6 + b7
}

/// A perceptual fingerprint: a bit vector, at least one byte and at most
/// `MAX_FINGERPRINT_BYTES` long.
#[derive(Debug)]
pub struct Fingerprint {
    bytes: Vec<u8>,
}

impl Fingerprint {
    #[verifier::type_invariant]
    spec fn length_is_bounded(&self) -> bool {
        0 < self.bytes@.len() <= MAX_FINGERPRINT_BYTES
    }
}

impl Clone for Fingerprint {
    fn clone(&self) -> (copy: Self)
        ensures
            copy@ == self@,
    {
        proof {
            use_type_invariant(self);
        }
        let bytes = self.bytes.clone();
        assert(bytes@ =~= self.bytes@);
        Fingerprint { bytes }
    }
}

impl View for Fingerprint {
    type V = Seq<u8>;

    closed spec fn view(&self) -> Seq<u8> {
        self.bytes@
    }
}

impl Fingerprint {
    /// The fingerprint with the given bytes. There is none without bytes,
    /// and none with more than `MAX_FINGERPRINT_BYTES`.
    pub fn from_bytes(bytes: Vec<u8>) -> (fingerprint: Option<Fingerprint>)
        ensures
            fingerprint.is_some() == (0 < bytes@.len() <= MAX_FINGERPRINT_BYTES),
            fingerprint.is_some() ==> fingerprint.unwrap()@ == bytes@,
    {
        if bytes.len() == 0 || bytes.len() > MAX_FINGERPRINT_BYTES {
            None
        } else {
            Some(Fingerprint { bytes })
        }
    }

    /// The bytes of the fingerprint.
    pub fn as_bytes(&self) -> (bytes: &Vec<u8>)
        ensures
            bytes@ == self@,
            0 < self@.len() <= MAX_FINGERPRINT_BYTES,
    {
        proof {
            use_type_invariant(self);
        }
        &self.bytes
    }
}

/// The Hamming distance between two fingerprints.
pub fn hamming_distance(hash1: &Fingerprint, hash2: &Fingerprint) -> (distance: u32)
    ensures
        distance == hamming(hash1@, hash2@),
{
    let a = hash1.as_bytes();
    let b = hash2.as_bytes();
    let n = if a.len() <= b.len() {
        a.len()
    } else {
        b.len()
    };
    let mut distance: u32 = 0;
    let mut i: usize = 0;
    while i < n
        invariant
            i <= n,
            n <= a@.len(),
            n <= b@.len(),
            n <= MAX_FINGERPRINT_BYTES,
            distance == hamming_upto(a@, b@, i as int),
        decreases n - i,
    {
        proof {
            hamming_is_bounded(a@, b@, i as int);
        }
        distance = distance + count_ones(a[i] ^ b[i]);
        i = i + 1;
    }
    distance
}

/// Whether two fingerprints are close enough for their files to count as
/// duplicates: at most `SIMILARITY_THRESHOLD` bits apart.
pub fn are_similar(hash1: &Fingerprint, hash2: &Fingerprint) -> (close: bool)
    ensures
        close == similar(hash1@, hash2@),
{
    hamming_distance(hash1, hash2) <= SIMILARITY_THRESHOLD
}

/// A decoded picture, as the `image` crate holds it. The library hands it
/// from the decoder to the hasher and never looks inside.
#[verifier::external_type_specification]
#[verifier::external_body]
pub struct ExDynamicImage(image::DynamicImage);

/// The formats in which a picture can be stored in a file.
#[derive(Debug, Clone, Copy, PartialEq, Eq, Structural)]
pub enum PictureFormat {
    Png,
    Jpeg,
    Gif,
    Bmp,
    WebP,
    Tiff,
    Ico,
}

/// The format that a lower-case extension stands for, if it stands for one.
pub open spec fn format_of_extension(ext: Seq<char>) -> Option<PictureFormat> {
    if ext == "jpg"@ || ext == "jpeg"@ || ext == "jfif"@ {
        Some(PictureFormat::Jpeg)
    } else if ext == "png"@ || ext == "apng"@ {
        Some(PictureFormat::Png)
    } else if ext == "gif"@ {
        Some(PictureFormat::Gif)
    } else if ext == "webp"@ {
        Some(PictureFormat::WebP)
    } else if ext == "tif"@ || ext == "tiff"@ {
        Some(PictureFormat::Tiff)
    } else if ext == "bmp"@ {
        Some(PictureFormat::Bmp)
    } else if ext == "ico"@ {
        Some(PictureFormat::Ico)
    } else {
        None
    }
}

/// The format in which the file at `path` stores a picture, judged by its
/// extension in lower case; none without an extension or with one that
/// stands for no format.
pub open spec fn picture_format_of(path: Seq<char>) -> Option<PictureFormat> {
    match extension_of(path) {
        Some(ext) => format_of_extension(lowercase_of(ext)),
        None => None,
    }
}

/// The format that the extension `ext` stands for. The extension is taken
/// as it is: `"PNG"` stands for none.
pub fn picture_format_of_extension(ext: &str) -> (format: Option<PictureFormat>)
    ensures
        format == format_of_extension(ext@),
{
    if same_text(ext, "jpg") || same_text(ext, "jpeg") || same_text(ext, "jfif") {
        Some(PictureFormat::Jpeg)
    } else if same_text(ext, "png") || same_text(ext, "apng") {
        Some(PictureFormat::Png)
    } else if same_text(ext, "gif") {
        Some(PictureFormat::Gif)
    } else if same_text(ext, "webp") {
        Some(PictureFormat::WebP)
    } else if same_text(ext, "tif") || same_text(ext, "tiff") {
        Some(PictureFormat::Tiff)
    } else if same_text(ext, "bmp") {
        Some(PictureFormat::Bmp)
    } else if same_text(ext, "ico") {
        Some(PictureFormat::Ico)
    } else {
        None
    }
}

/// The format in which the file at `path` stores a picture, by its
/// extension.
pub fn get_picture_format(path: &str) -> (format: Option<PictureFormat>)
    ensures
        format == picture_format_of(path@),
        lowers_plainly(path@),
{
    match file_extension(path) {
        Some(ext) => {
            let lower = to_lowercase(ext.as_str());
            picture_format_of_extension(lower.as_str())
        },
        None => None,
    }
}

/// Whether `image::load_from_memory_with_format` decodes a picture from the
/// bytes of an image file when it takes them to be of the given format.
pub uninterp spec fn decodes_as(format: PictureFormat, data: Seq<u8>) -> bool;

/// The picture of `width` by `height` pixels whose pixels are the bytes
/// `data`, three (red, green, blue) to the pixel, row by row.
pub uninterp spec fn rgb_picture(width: u32, height: u32, data: Seq<u8>) -> image::DynamicImage;

/// Decodes an image file by `image::load_from_memory_with_format`, which
/// goes straight to the decoder of the given format. Whether it finds a
/// picture depends on the format and the bytes alone and is given the name
/// `decodes_as`; a failure to decode is `None`. Of the picture itself
/// nothing is claimed.
#[verifier::external_body]
fn decode_image(format: PictureFormat, data: &[u8]) -> (image: Option<image::DynamicImage>)
    ensures
        image.is_some() == decodes_as(format, data@),
{
    let format = match format {
        PictureFormat::Png => image::ImageFormat::Png,
        PictureFormat::Jpeg => image::ImageFormat::Jpeg,
        PictureFormat::Gif => image::ImageFormat::Gif,
        PictureFormat::Bmp => image::ImageFormat::Bmp,
        PictureFormat::WebP => image::ImageFormat::WebP,
        PictureFormat::Tiff => image::ImageFormat::Tiff,
        PictureFormat::Ico => image::ImageFormat::Ico,
    };
    match image::load_from_memory_with_format(data, format) {
        Ok(image) => Some(image),
        Err(_) => None,
    }
}

/// Makes a picture of raw pixels by `image::RgbImage::from_raw`, which
/// gives one exactly if `data` holds at least the three bytes per pixel
/// that `width` times `height` pixels take. The picture is given the name
/// `rgb_picture`.
#[verifier::external_body]
fn picture_from_rgb(width: u32, height: u32, data: Vec<u8>) -> (image: Option<image::DynamicImage>)
    ensures
        image.is_some() == (3 * width * height <= data@.len()),
        image.is_some() ==> image.unwrap() == rgb_picture(width, height, data@),
{
    match image::RgbImage::from_raw(width, height, data) {
        Some(buffer) => Some(image::DynamicImage::ImageRgb8(buffer)),
        None => None,
    }
}

/// The width and the height of the hash of a picture, in bits.
pub const HASH_SIDE: u32 = 16;

/// The number of bytes of a fingerprint that the hasher makes.
pub const FINGERPRINT_BYTES: usize = 18;

/// The largest width and height of a hash that the library asks for.
pub const MAX_HASH_SIDE: u32 = 256;

/// `side` if it is even, else the next even number.
pub open spec fn next_even(side: int) -> int {
    if side % 2 == 0 {
        side
    } else {
        side + 1
    }
}

/// The number of bytes of the double-gradient hash of the given width and
/// height. The picture is reduced to a grid of half the (even) width plus
/// one by half the (even) height plus one; each cell gives one bit for its
/// neighbour in the row and one for its neighbour in the column, and eight
/// bits make a byte, the last byte being filled up.
pub open spec fn gradient_hash_bytes(width: int, height: int) -> int {
    let columns = next_even(width) / 2 + 1;
    let rows = next_even(height) / 2 + 1;
    (rows * (columns - 1) + columns * (rows - 1) + 7) / 8
}

/// Hashes a picture by `image_hasher::Hasher::hash_image`, with the
/// double-gradient algorithm and the given hash size, all else as
/// `HasherConfig::new` sets it. Of the hash only the length is claimed: the
/// bits come out of arithmetic on floating-point numbers.
#[verifier::external_body]
fn double_gradient_hash(image: &image::DynamicImage, width: u32, height: u32) -> (bits: Vec<u8>)
    requires
        0 < width <= MAX_HASH_SIDE,
        0 < height <= MAX_HASH_SIDE,
    ensures
        bits@.len() == gradient_hash_bytes(width as int, height as int),
{
    image_hasher::HasherConfig::new().hash_alg(image_hasher::HashAlg::DoubleGradient).hash_size(
        width,
        height,
    ).to_hasher().hash_image(image).as_bytes().to_vec()
}

/// The fingerprint with the given bits, if they can be one: if they are at
/// least one byte and at most `MAX_FINGERPRINT_BYTES`.
pub open spec fn usable(bits: Seq<u8>) -> Option<Seq<u8>> {
    if 0 < bits.len() <= MAX_FINGERPRINT_BYTES {
        Some(bits)
    } else {
        None
    }
}

/// The bytes of a fingerprint, if there is one.
pub open spec fn bits_of(fingerprint: Option<Fingerprint>) -> Option<Seq<u8>> {
    match fingerprint {
        Some(fingerprint) => Some(fingerprint@),
        None => None,
    }
}

/// What holds of the fingerprint that is made of a picture, if there is a
/// picture: there is a fingerprint exactly if there is a picture, and it
/// has `FINGERPRINT_BYTES` bytes.
pub open spec fn fingerprint_fits(fingerprint: Option<Fingerprint>, pictured: bool) -> bool {
    &&& fingerprint.is_some() == pictured
    &&& fingerprint.is_some() ==> fingerprint.unwrap()@.len() == FINGERPRINT_BYTES
}

/// The fingerprint of a picture, if there is a picture: its double-gradient
/// hash of `HASH_SIDE` by `HASH_SIDE` bits.
pub fn fingerprint_picture(image: Option<image::DynamicImage>) -> (fingerprint: Option<Fingerprint>)
    ensures
        fingerprint_fits(fingerprint, image.is_some()),
{
    match image {
        Some(image) => {
            let bits = double_gradient_hash(&image, HASH_SIDE, HASH_SIDE);
            assert(next_even(16) / 2 + 1 == 9);
            assert(gradient_hash_bytes(16, 16) == (9 * 8 + 9 * 8 + 7) / 8);
            assert(bits@.len() == FINGERPRINT_BYTES);
            Fingerprint::from_bytes(bits)
        },
        None => None,
    }
}

/// The perceptual fingerprint of an image, given the format and the bytes
/// of the image file. Bytes that do not decode as an image of that format
/// have none.
pub fn perceptual_hash(format: PictureFormat, data: &[u8]) -> (fingerprint: Option<Fingerprint>)
    ensures
        fingerprint_fits(fingerprint, decodes_as(format, data@)),
{
    fingerprint_picture(decode_image(format, data))
}

/// The width of the frames that are taken from a video.
pub const FRAME_WIDTH: u32 = 160;

/// The height of the frames that are taken from a video.
pub const FRAME_HEIGHT: u32 = 120;

/// The number of frames that are taken from a video.
pub const FRAMES_TO_EXTRACT: usize = 5;

/// The number of bytes of one frame: three to the pixel.
pub const FRAME_BYTES: usize = 57600;

/// The most frames that can be stacked into one picture.
pub const MAX_STACKED_FRAMES: usize = 35791394;

/// The picture that is fingerprinted for a video, given its sampled frames
/// as raw pixels, one frame after the other: the whole frames, stacked from
/// top to bottom. What follows the last whole frame is left out. There is
/// no picture without a whole frame, nor with more frames than can be
/// stacked.
pub open spec fn stacked_frames(frames: Seq<u8>) -> Option<image::DynamicImage> {
    let count = frames.len() / (FRAME_BYTES as nat);
    if count == 0 || count > MAX_STACKED_FRAMES {
        None
    } else {
        Some(
            rgb_picture(FRAME_WIDTH, (FRAME_HEIGHT * count) as u32, frames.take(count * FRAME_BYTES)),
        )
    }
}

/// The picture that is fingerprinted for a video, given its sampled frames
/// as raw pixels (red, green, blue), each frame `FRAME_WIDTH` by
/// `FRAME_HEIGHT`.
pub fn stack_frames(frame_data: &Vec<u8>) -> (picture: Option<image::DynamicImage>)
    ensures
        picture == stacked_frames(frame_data@),
{
    let actual_frames = frame_data.len() / FRAME_BYTES;
    if actual_frames == 0 || actual_frames > MAX_STACKED_FRAMES {
        return None;
    }
    let composite_height: u32 = FRAME_HEIGHT * (actual_frames as u32);
    let used = actual_frames * FRAME_BYTES;
    let composite = vstd::slice::slice_to_vec(
        vstd::slice::slice_subrange(frame_data.as_slice(), 0, used),
    );
    assert(composite@ == frame_data@.take(used as int));
    assert(3 * FRAME_WIDTH * composite_height == used) by (nonlinear_arith)
        requires
            composite_height == FRAME_HEIGHT * actual_frames,
            used == actual_frames * FRAME_BYTES,
            FRAME_WIDTH == 160,
            FRAME_HEIGHT == 120,
            FRAME_BYTES == 57600,
    ;
    picture_from_rgb(FRAME_WIDTH, composite_height, composite)
}

/// The perceptual fingerprint of a video, given its sampled frames as raw
/// pixels: that of the picture in which the whole frames are stacked.
pub fn video_perceptual_hash(frame_data: &Vec<u8>) -> (fingerprint: Option<Fingerprint>)
    ensures
        fingerprint_fits(fingerprint, stacked_frames(frame_data@).is_some()),
{
    fingerprint_picture(stack_frames(frame_data))
}

/// Whether there is a picture to fingerprint for an audio file, given the
/// bytes of the image file that shows its spectrogram, which is a PNG:
/// whether there are bytes and they decode.
pub open spec fn spectrogram_pictured(spectrogram: Seq<u8>) -> bool {
    spectrogram.len() > 0 && decodes_as(PictureFormat::Png, spectrogram)
}

/// The perceptual fingerprint of an audio file, given the bytes of a PNG
/// file that shows its spectrogram.
pub fn audio_perceptual_hash(spectrogram: &[u8]) -> (fingerprint: Option<Fingerprint>)
    ensures
        fingerprint_fits(fingerprint, spectrogram_pictured(spectrogram@)),
{
    if spectrogram.len() == 0 {
        None
    } else {
        perceptual_hash(PictureFormat::Png, spectrogram)
    }
}

/// What has to be taken from a file to fingerprint it.
#[derive(Debug, Clone, Copy, PartialEq, Eq, Structural)]
pub enum Extraction {
    /// The bytes of the file itself, which stores a picture in this format.
    ImageFile(PictureFormat),
    /// Frames of the video, as raw pixels.
    VideoFrames,
    /// A picture of the spectrogram of the sound, as a PNG file.
    Spectrogram,
    /// Nothing: the file cannot be fingerprinted.
    Nothing,
}

/// What has to be taken from the file at `path`: frames from a video, the
/// spectrogram from an audio file; any other file is taken for an image if
/// its extension stands for a picture format, and cannot be fingerprinted
/// if it does not.
pub open spec fn extraction_for(path: Seq<char>) -> Extraction {
    match media_type_of(path) {
        MediaType::Video => Extraction::VideoFrames,
        MediaType::Audio => Extraction::Spectrogram,
        MediaType::Image | MediaType::Unknown => match picture_format_of(path) {
            Some(format) => Extraction::ImageFile(format),
            None => Extraction::Nothing,
        },
    }
}

/// What has to be taken from the file at `path` to fingerprint it.
pub fn extraction_of(path: &str) -> (extraction: Extraction)
    ensures
        extraction == extraction_for(path@),
        lowers_plainly(path@),
{
    match get_media_type(path) {
        MediaType::Video => Extraction::VideoFrames,
        MediaType::Audio => Extraction::Spectrogram,
        MediaType::Image | MediaType::Unknown => match get_picture_format(path) {
            Some(format) => Extraction::ImageFile(format),
            None => Extraction::Nothing,
        },
    }
}

/// Whether there is a picture to fingerprint, given what was taken from a
/// file.
pub open spec fn pictured(extraction: Extraction, data: Seq<u8>) -> bool {
    match extraction {
        Extraction::ImageFile(format) => decodes_as(format, data),
        Extraction::VideoFrames => stacked_frames(data).is_some(),
        Extraction::Spectrogram => spectrogram_pictured(data),
        Extraction::Nothing => false,
    }
}

/// The perceptual fingerprint of a media file, given what was taken from
/// it: the bytes of the file for an image, the sampled frames for a video,
/// the picture of the spectrogram for an audio file.
pub fn media_perceptual_hash(extraction: Extraction, data: &Vec<u8>) -> (fingerprint: Option<
    Fingerprint,
>)
    ensures
        fingerprint_fits(fingerprint, pictured(extraction, data@)),
{
    match extraction {
        Extraction::ImageFile(format) => perceptual_hash(format, data.as_slice()),
        Extraction::VideoFrames => video_perceptual_hash(data),
        Extraction::Spectrogram => audio_perceptual_hash(data.as_slice()),
        Extraction::Nothing => None,
    }
}

} // verus!
