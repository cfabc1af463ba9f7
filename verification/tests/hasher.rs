//! Digests, fingerprints and media types.

use media_duplicate_eraser_rs::services::hasher::{
    are_similar, audio_perceptual_hash, count_ones, extraction_of, file_extension,
    fingerprint_picture, get_media_type, get_picture_format, hamming_distance,
    media_perceptual_hash, media_type_of_extension, perceptual_hash, picture_format_of_extension,
    sha256_hash, stack_frames, video_perceptual_hash, ContentHasher, Extraction, Fingerprint,
    MediaType, PictureFormat, FINGERPRINT_BYTES, FRAMES_TO_EXTRACT, FRAME_BYTES, FRAME_HEIGHT,
    FRAME_WIDTH, HASH_SIDE, MAX_FINGERPRINT_BYTES, SIMILARITY_THRESHOLD,
};

fn fingerprint(bytes: &[u8]) -> Fingerprint {
    Fingerprint::from_bytes(bytes.to_vec()).unwrap()
}

fn png(width: u32, height: u32, pixel: impl Fn(u32, u32) -> [u8; 3]) -> Vec<u8> {
    let picture = image::RgbImage::from_fn(width, height, |x, y| image::Rgb(pixel(x, y)));
    let mut bytes = Vec::new();
    image::DynamicImage::ImageRgb8(picture)
        .write_to(&mut std::io::Cursor::new(&mut bytes), image::ImageFormat::Png)
        .unwrap();
    bytes
}

fn encoded(format: image::ImageFormat, pixel: impl Fn(u32, u32) -> [u8; 3]) -> Vec<u8> {
    let picture = image::RgbImage::from_fn(24, 20, |x, y| image::Rgb(pixel(x, y)));
    let picture = image::DynamicImage::ImageRgb8(picture);
    // An icon holds its picture with an alpha channel.
    let picture = match format {
        image::ImageFormat::Ico => image::DynamicImage::ImageRgba8(picture.to_rgba8()),
        _ => picture,
    };
    let mut bytes = Vec::new();
    picture.write_to(&mut std::io::Cursor::new(&mut bytes), format).unwrap();
    bytes
}

fn reference_hash(picture: &image::DynamicImage) -> Vec<u8> {
    image_hasher::HasherConfig::new()
        .hash_alg(image_hasher::HashAlg::DoubleGradient)
        .hash_size(HASH_SIDE, HASH_SIDE)
        .to_hasher()
        .hash_image(picture)
        .as_bytes()
        .to_vec()
}

#[test]
fn sha256_of_known_inputs() {
    assert_eq!(
        sha256_hash(b""),
        "e3b0c44298fc1c149afbf4c8996fb92427ae41e4649b934ca495991b7852b855"
    );
    assert_eq!(
        sha256_hash(b"abc"),
        "ba7816bf8f01cfea414140de5dae2223b00361a396177a9cb410ff61f20015ad"
    );
    assert_eq!(sha256_hash(b"abc"), sha256_hash(&[0x61, 0x62, 0x63]));
    assert_ne!(sha256_hash(b"abc"), sha256_hash(b"abd"));
}

#[test]
fn digest_of_pieces_is_the_digest_of_the_whole() {
    let content: Vec<u8> = (0..20_000u32).map(|n| (n * 31 % 251) as u8).collect();
    let mut hasher = ContentHasher::new();
    for piece in content.chunks(8192) {
        hasher.update(piece);
    }
    assert_eq!(hasher.finish(), sha256_hash(&content));

    let mut hasher = ContentHasher::new();
    hasher.update(b"a");
    hasher.update(b"");
    hasher.update(b"bc");
    assert_eq!(
        hasher.finish(),
        "ba7816bf8f01cfea414140de5dae2223b00361a396177a9cb410ff61f20015ad"
    );
    assert_eq!(
        ContentHasher::new().finish(),
        "e3b0c44298fc1c149afbf4c8996fb92427ae41e4649b934ca495991b7852b855"
    );
}

#[test]
fn media_type_goes_by_the_extension() {
    for ext in ["jpg", "jpeg", "png", "gif", "bmp", "webp", "tiff", "tif", "ico"] {
        assert_eq!(media_type_of_extension(ext), MediaType::Image, "{ext}");
        assert_eq!(get_media_type(&format!("dir/file.{ext}")), MediaType::Image, "{ext}");
    }
    for ext in ["mp4", "mkv", "avi", "mov", "wmv", "flv", "webm", "m4v", "mpeg", "mpg", "3gp"] {
        assert_eq!(media_type_of_extension(ext), MediaType::Video, "{ext}");
    }
    for ext in ["wav", "flac", "aiff", "ape", "mp3", "m4a", "aac", "ogg", "opus", "wma"] {
        assert_eq!(media_type_of_extension(ext), MediaType::Audio, "{ext}");
    }
    for ext in ["", "txt", "PNG", "png ", "jp", "mp", "pngx"] {
        assert_eq!(media_type_of_extension(ext), MediaType::Unknown, "{ext:?}");
    }
}

#[test]
fn media_type_ignores_case() {
    assert_eq!(get_media_type("photo.PNG"), MediaType::Image);
    assert_eq!(get_media_type("photo.JpEg"), MediaType::Image);
    assert_eq!(get_media_type("CLIP.MKV"), MediaType::Video);
    assert_eq!(get_media_type("song.Mp3"), MediaType::Audio);
    assert_eq!(get_media_type("notes.TXT"), MediaType::Unknown);
}

#[test]
fn extension_is_what_follows_the_last_dot_of_the_name() {
    assert_eq!(file_extension("a.png"), Some("png".to_string()));
    assert_eq!(file_extension("dir/archive.tar.gz"), Some("gz".to_string()));
    assert_eq!(file_extension("dir.d/name"), None);
    assert_eq!(file_extension("dir/.hidden"), None);
    assert_eq!(file_extension(".hidden"), None);
    assert_eq!(file_extension("dir/.hidden.png"), Some("png".to_string()));
    assert_eq!(file_extension("name."), Some(String::new()));
    assert_eq!(file_extension(""), None);
    assert_eq!(file_extension("noext"), None);
    assert_eq!(file_extension("bild.größe"), Some("größe".to_string()));
    assert_eq!(file_extension("dir/a.png/"), Some("png".to_string()));
    assert_eq!(file_extension("dir/a.png///"), Some("png".to_string()));
    assert_eq!(file_extension("dir/a.png/."), Some("png".to_string()));
    assert_eq!(file_extension("dir.d/"), Some("d".to_string()));
    assert_eq!(file_extension(".."), None);
    assert_eq!(file_extension("dir/.."), None);
    assert_eq!(file_extension("dir/..."), Some(String::new()));
    assert_eq!(file_extension("."), None);
    assert_eq!(file_extension("/"), None);
    assert_eq!(file_extension("/."), None);
    for path in [
        "a.png", "dir/archive.tar.gz", "dir.d/name", ".hidden", "dir/.hidden.png", "name.", "",
        "dir/a.png/", "dir/a.png/.", "..", "dir/..", "dir/...", ".", "/", "a/./b.c", "a//b.c//",
    ] {
        let theirs = std::path::Path::new(path).extension().map(|e| e.to_str().unwrap().to_string());
        assert_eq!(file_extension(path), theirs, "{path:?}");
    }
    assert_eq!(get_media_type("dir/a.png/"), MediaType::Image);
    assert_eq!(get_media_type("dir.png/name"), MediaType::Unknown);
    assert_eq!(get_media_type(".png"), MediaType::Unknown);
    assert_eq!(get_media_type("a.b.mp4"), MediaType::Video);
}

#[test]
fn extraction_follows_the_media_type() {
    assert_eq!(extraction_of("a.png"), Extraction::ImageFile(PictureFormat::Png));
    assert_eq!(extraction_of("a.JPG"), Extraction::ImageFile(PictureFormat::Jpeg));
    assert_eq!(extraction_of("a.jfif"), Extraction::ImageFile(PictureFormat::Jpeg));
    assert_eq!(extraction_of("a.unknown"), Extraction::Nothing);
    assert_eq!(extraction_of("a"), Extraction::Nothing);
    assert_eq!(extraction_of("a.MOV"), Extraction::VideoFrames);
    assert_eq!(extraction_of("a.flac"), Extraction::Spectrogram);
}

#[test]
fn picture_format_goes_by_the_extension() {
    let table = [
        ("jpg", Some(PictureFormat::Jpeg)),
        ("jpeg", Some(PictureFormat::Jpeg)),
        ("jfif", Some(PictureFormat::Jpeg)),
        ("png", Some(PictureFormat::Png)),
        ("apng", Some(PictureFormat::Png)),
        ("gif", Some(PictureFormat::Gif)),
        ("webp", Some(PictureFormat::WebP)),
        ("tif", Some(PictureFormat::Tiff)),
        ("tiff", Some(PictureFormat::Tiff)),
        ("bmp", Some(PictureFormat::Bmp)),
        ("ico", Some(PictureFormat::Ico)),
        ("PNG", None),
        ("tga", None),
        ("txt", None),
        ("", None),
    ];
    for (ext, format) in table {
        assert_eq!(picture_format_of_extension(ext), format, "{ext:?}");
    }
    assert_eq!(get_picture_format("dir/photo.PNG"), Some(PictureFormat::Png));
    assert_eq!(get_picture_format("dir/photo.Tif"), Some(PictureFormat::Tiff));
    assert_eq!(get_picture_format("dir/photo"), None);
    assert_eq!(get_picture_format("dir/photo.mp4"), None);
    for ext in ["jpg", "jpeg", "png", "gif", "bmp", "webp", "tiff", "tif", "ico"] {
        let theirs = image::ImageFormat::from_extension(ext).map(|f| format!("{f:?}"));
        let ours = picture_format_of_extension(ext).map(|f| format!("{f:?}"));
        assert_eq!(ours, theirs, "{ext}");
    }
}

#[test]
fn a_picture_is_decoded_in_the_format_that_is_given() {
    let pixel = |x: u32, y: u32| [(x * 9) as u8, (y * 11) as u8, (x + y) as u8];
    let formats = [
        (PictureFormat::Png, image::ImageFormat::Png),
        (PictureFormat::Bmp, image::ImageFormat::Bmp),
        (PictureFormat::Gif, image::ImageFormat::Gif),
        (PictureFormat::Jpeg, image::ImageFormat::Jpeg),
        (PictureFormat::Tiff, image::ImageFormat::Tiff),
        (PictureFormat::WebP, image::ImageFormat::WebP),
        (PictureFormat::Ico, image::ImageFormat::Ico),
    ];
    for (ours, theirs) in formats {
        let bytes = encoded(theirs, pixel);
        let fingerprint = match perceptual_hash(ours, &bytes) {
            Some(fingerprint) => fingerprint,
            None => panic!("{ours:?} does not decode in its own format"),
        };
        let picture = image::load_from_memory_with_format(&bytes, theirs).unwrap();
        assert_eq!(fingerprint.as_bytes(), &reference_hash(&picture), "{ours:?}");
        for (other, _) in formats {
            if other != ours {
                assert!(perceptual_hash(other, &bytes).is_none(), "{ours:?} read as {other:?}");
            }
        }
    }
}

#[test]
fn ones_are_counted() {
    assert_eq!(count_ones(0), 0);
    assert_eq!(count_ones(1), 1);
    assert_eq!(count_ones(0b1000_0000), 1);
    assert_eq!(count_ones(0b1010_1010), 4);
    assert_eq!(count_ones(0xFF), 8);
    for v in 0..=255u8 {
        assert_eq!(count_ones(v), v.count_ones());
    }
}

#[test]
fn hamming_distance_counts_differing_bits() {
    let zero = fingerprint(&[0; 32]);
    let mut bytes = [0u8; 32];
    bytes[0] = 0b0000_0001;
    bytes[31] = 0b1100_0000;
    let three = fingerprint(&bytes);
    assert_eq!(hamming_distance(&zero, &zero), 0);
    assert_eq!(hamming_distance(&zero, &three), 3);
    assert_eq!(hamming_distance(&three, &zero), 3);
    assert_eq!(hamming_distance(&zero, &fingerprint(&[0xFF; 32])), 256);
    assert_eq!(hamming_distance(&fingerprint(&[0x0F]), &fingerprint(&[0xF0])), 8);
    // Only the common length counts.
    assert_eq!(hamming_distance(&fingerprint(&[0xFF]), &fingerprint(&[0x00, 0xFF])), 8);
}

#[test]
fn hamming_distance_agrees_with_the_hasher() {
    let samples: [&[u8]; 4] = [&[0; 32], &[0xA5; 32], &[0x3C, 0xFF, 0x00, 0x81], &[1, 2, 3, 4]];
    for a in samples {
        for b in samples {
            let theirs = image_hasher::ImageHash::<Box<[u8]>>::from_bytes(a)
                .unwrap()
                .dist(&image_hasher::ImageHash::from_bytes(b).unwrap());
            assert_eq!(hamming_distance(&fingerprint(a), &fingerprint(b)), theirs);
        }
    }
}

#[test]
fn similarity_stops_at_the_threshold() {
    assert_eq!(SIMILARITY_THRESHOLD, 10);
    let zero = fingerprint(&[0; 32]);
    let mut ten = [0u8; 32];
    ten[0] = 0xFF;
    ten[1] = 0b0000_0011;
    let mut eleven = ten;
    eleven[1] = 0b0000_0111;
    assert!(are_similar(&zero, &zero));
    assert!(are_similar(&zero, &fingerprint(&ten)));
    assert!(!are_similar(&zero, &fingerprint(&eleven)));
    assert!(are_similar(&fingerprint(&ten), &fingerprint(&eleven)));
}

#[test]
fn fingerprints_have_between_one_and_the_maximum_of_bytes() {
    assert!(Fingerprint::from_bytes(Vec::new()).is_none());
    assert_eq!(MAX_FINGERPRINT_BYTES, 0x1FFF_FFFF);
    let one = Fingerprint::from_bytes(vec![7]).unwrap();
    assert_eq!(one.as_bytes(), &vec![7]);
    assert_eq!(one.clone().as_bytes(), &vec![7]);
}

#[test]
fn perceptual_hash_is_the_double_gradient_hash_of_the_picture() {
    let bytes = png(40, 30, |x, y| [(x * 5) as u8, (y * 7) as u8, (x + y) as u8]);
    let ours = perceptual_hash(PictureFormat::Png, &bytes).expect("a PNG decodes");
    let picture = image::load_from_memory(&bytes).unwrap();
    assert_eq!(ours.as_bytes(), &reference_hash(&picture));
    assert_eq!(FINGERPRINT_BYTES, 18);
    assert_eq!(ours.as_bytes().len(), FINGERPRINT_BYTES);
    assert_ne!(ours.as_bytes().as_slice(), &bytes[..18]);

    let again = fingerprint_picture(Some(picture)).unwrap();
    assert_eq!(again.as_bytes(), ours.as_bytes());
    assert!(fingerprint_picture(None).is_none());
}

#[test]
fn the_length_of_the_hash_follows_from_its_size() {
    let picture = image::DynamicImage::ImageRgb8(image::RgbImage::from_fn(50, 40, |x, y| {
        image::Rgb([(x * 5) as u8, (y * 6) as u8, (x ^ y) as u8])
    }));
    let empty = image::DynamicImage::ImageRgb8(image::RgbImage::new(0, 0));
    let even = |side: u32| if side % 2 == 0 { side } else { side + 1 };
    for (width, height) in [(16, 16), (8, 8), (1, 1), (2, 3), (16, 8), (7, 16), (15, 15), (64, 1), (256, 256)] {
        let columns = (even(width) / 2 + 1) as usize;
        let rows = (even(height) / 2 + 1) as usize;
        let bytes = (rows * (columns - 1) + columns * (rows - 1) + 7) / 8;
        for image in [&picture, &empty] {
            let hash = image_hasher::HasherConfig::new()
                .hash_alg(image_hasher::HashAlg::DoubleGradient)
                .hash_size(width, height)
                .to_hasher()
                .hash_image(image);
            assert_eq!(hash.as_bytes().len(), bytes, "{width} by {height}");
        }
    }
    let of_nothing = image::DynamicImage::ImageRgb8(image::RgbImage::new(0, 0));
    assert_eq!(fingerprint_picture(Some(of_nothing)).unwrap().as_bytes().len(), FINGERPRINT_BYTES);
}

#[test]
fn what_is_no_picture_has_no_perceptual_hash() {
    assert!(perceptual_hash(PictureFormat::Png, b"").is_none());
    assert!(perceptual_hash(PictureFormat::Jpeg, b"just some text, not an image").is_none());
    assert!(audio_perceptual_hash(b"").is_none());
    assert!(audio_perceptual_hash(b"RIFF not a picture").is_none());
    assert!(media_perceptual_hash(Extraction::ImageFile(PictureFormat::Gif), &b"text".to_vec())
        .is_none());
    let png = png(8, 8, |x, y| [x as u8, y as u8, 0]);
    assert!(media_perceptual_hash(Extraction::Nothing, &png).is_none());
    assert!(media_perceptual_hash(Extraction::ImageFile(PictureFormat::Png), &png).is_some());
}

#[test]
fn similar_pictures_have_similar_hashes() {
    let hash = |bytes: Vec<u8>| perceptual_hash(PictureFormat::Png, &bytes).unwrap();
    let base = hash(png(64, 64, |x, y| [(x * 2 + y) as u8; 3]));
    let brighter = hash(png(64, 64, |x, y| [(x * 2 + y + 1) as u8; 3]));
    let inverse = hash(png(64, 64, |x, y| [255 - (x * 2 + y) as u8; 3]));
    assert!(are_similar(&base, &brighter));
    assert!(!are_similar(&base, &inverse));
}

#[test]
fn audio_hash_is_the_hash_of_the_spectrogram_picture() {
    let spectrogram = png(128, 64, |x, y| [(x ^ y) as u8, 0, (x * y) as u8]);
    let ours = audio_perceptual_hash(&spectrogram).unwrap();
    assert_eq!(
        ours.as_bytes(),
        perceptual_hash(PictureFormat::Png, &spectrogram).unwrap().as_bytes()
    );
    let as_bmp = encoded(image::ImageFormat::Bmp, |x, y| [x as u8, y as u8, 7]);
    assert!(audio_perceptual_hash(&as_bmp).is_none(), "a spectrogram is a PNG");
    assert_eq!(
        media_perceptual_hash(Extraction::Spectrogram, &spectrogram).unwrap().as_bytes(),
        ours.as_bytes()
    );
}

#[test]
fn video_hash_stacks_the_whole_frames() {
    assert_eq!(FRAME_WIDTH, 160);
    assert_eq!(FRAME_HEIGHT, 120);
    assert_eq!(FRAMES_TO_EXTRACT, 5);
    assert_eq!(FRAME_BYTES, 160 * 120 * 3);

    let mut frames: Vec<u8> = Vec::new();
    for frame in 0..3u32 {
        for y in 0..FRAME_HEIGHT {
            for x in 0..FRAME_WIDTH {
                frames.extend_from_slice(&[(x + frame * 40) as u8, (y * 2) as u8, (frame * 80) as u8]);
            }
        }
    }
    let whole = frames.clone();
    frames.extend_from_slice(&[9; 1000]);

    let ours = video_perceptual_hash(&frames).expect("three whole frames");
    let stacked = image::RgbImage::from_raw(FRAME_WIDTH, FRAME_HEIGHT * 3, whole.clone()).unwrap();
    assert_eq!(ours.as_bytes(), &reference_hash(&image::DynamicImage::ImageRgb8(stacked)));
    assert_eq!(video_perceptual_hash(&whole).unwrap().as_bytes(), ours.as_bytes());
    assert_eq!(
        media_perceptual_hash(Extraction::VideoFrames, &frames).unwrap().as_bytes(),
        ours.as_bytes()
    );

    assert_eq!(ours.as_bytes().len(), FINGERPRINT_BYTES);
    assert!(stack_frames(&frames).is_some());
    assert!(stack_frames(&vec![0; FRAME_BYTES - 1]).is_none());
    assert!(video_perceptual_hash(&Vec::new()).is_none());
    assert!(video_perceptual_hash(&vec![0; FRAME_BYTES - 1]).is_none());
    assert!(video_perceptual_hash(&vec![0; FRAME_BYTES]).is_some());
}
