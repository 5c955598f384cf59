use rushdrop::error::AppError;
use rushdrop::path::{Component, FilePath};
use rushdrop::scaling::{can_sum, Channels};
use rushdrop::thumb_request::{
    content_type_of, etag, thumb_handler, thumb_headers, ThumbAction, ThumbEvent, ThumbRequest,
};
use rushdrop::thumbnail::{
    choose_decoder, is_image, make_thumbnail, may_break_off, spawn_thumbnail, thumb_base_name,
    thumb_dir, thumb_name_for_hash, thumb_path, thumbnail_from_image, thumbnail_from_pixels,
    try_make_thumbnail, try_make_thumbnail_of_pixels, Decoder, ThumbOutcome, ThumbTask,
    ThumbTaskAction, ThumbTaskEvent, ThumbnailError,
};

fn show(path: &FilePath) -> String {
    let mut out = String::new();
    for component in &path.components {
        match component {
            Component::Prefix(p) => out.push_str(p),
            Component::RootDir => {},
            Component::CurDir => out.push_str("/."),
            Component::ParentDir => out.push_str("/.."),
            Component::Normal(name) => {
                out.push('/');
                out.push_str(name);
            },
        }
    }
    out
}

fn thumbnail(
    name: &str,
    windows: bool,
    content: &Vec<u8>,
    target: &FilePath,
) -> Result<Vec<u8>, ThumbnailError> {
    try_make_thumbnail(&FilePath::parse(name, windows), content, target).unwrap()
}

fn chunk(kind: &[u8], data: &[u8]) -> Vec<u8> {
    let mut body: Vec<u8> = kind.to_vec();
    body.extend(data);
    let mut sum: u32 = 0xffff_ffff;
    for byte in &body {
        sum = sum ^ *byte as u32;
        let mut bit: u32 = 0;
        while bit < 8 {
            sum = if sum & 1 == 1 { (sum >> 1) ^ 0xedb8_8320 } else { sum >> 1 };
            bit = bit + 1;
        }
    }
    let mut out: Vec<u8> = (data.len() as u32).to_be_bytes().to_vec();
    out.extend(body);
    out.extend((sum ^ 0xffff_ffff).to_be_bytes());
    out
}

/// A grey picture with that many bits a channel, of which only the beginning is there.
fn beginning(width: u32, height: u32, bits: u8) -> Vec<u8> {
    let mut header: Vec<u8> = width.to_be_bytes().to_vec();
    header.extend(height.to_be_bytes());
    header.extend([bits, 0, 0, 0, 0]);
    let mut out: Vec<u8> = vec![0x89, 0x50, 0x4e, 0x47, 0x0d, 0x0a, 0x1a, 0x0a];
    out.extend(chunk(b"IHDR", &header));
    out.extend(chunk(b"IDAT", &[0x78, 0x9c]));
    out
}

fn encoded(width: u32, height: u32, format: image::ImageFormat) -> Vec<u8> {
    let mut out = std::io::Cursor::new(Vec::new());
    image::DynamicImage::new_rgb8(width, height).write_to(&mut out, format).unwrap();
    out.into_inner()
}

#[test]
fn images_are_told_by_their_extension() {
    for name in ["a.jpg", "a.jpeg", "a.png", "a.gif", "a.bmp", "a.webp", "a.heic", "a.heif"] {
        assert!(is_image(name, false));
        assert!(is_image(&name.to_uppercase(), false));
    }
    for name in ["a.txt", "a", "jpg", ".jpg", "a.jpg.zip", "a.", "", "a.jpg/..", "a.tiff"] {
        assert!(!is_image(name, false));
    }
    assert!(is_image("x/y.JpG", false));
}

#[test]
fn thumbnails_lie_beside_the_files() {
    assert_eq!(show(&thumb_dir(&FilePath::parse("/srv/files", false))), "/srv/thumbnails");
    assert_eq!(show(&thumb_dir(&FilePath::parse("files", false))), "/thumbnails");
    assert_eq!(show(&thumb_dir(&FilePath::parse("/", false))), "/thumbnails");
}

#[test]
fn the_name_of_a_thumbnail_begins_with_the_hash_of_the_directory() {
    let hash = blake3::hash("/srv/files".as_bytes()).to_hex().to_string();
    let expected = format!("{}_a.png", &hash[..16]);
    assert_eq!(thumb_base_name("/srv/files", None, "a.png"), expected);
    assert_eq!(thumb_base_name("ignored", Some("/srv/files"), "a.png"), expected);
    assert_ne!(thumb_base_name("/srv/other", None, "a.png"), expected);
    assert_eq!(thumb_name_for_hash("0123456789abcdef0123", "x"), "0123456789abcdef_x");
}

#[test]
fn a_thumbnail_has_its_own_extension() {
    let dir = FilePath::parse("/srv/thumbnails", false);
    assert_eq!(show(&thumb_path(&dir, "0_a.png", false)), "/srv/thumbnails/0_a.webp");
    assert_eq!(show(&thumb_path(&dir, "0_a", false)), "/srv/thumbnails/0_a.webp");
    assert_eq!(show(&thumb_path(&dir, "0_a.tar.gz", false)), "/srv/thumbnails/0_a.tar.webp");
}

#[test]
fn names_that_differ_in_the_extension_alone_share_a_thumbnail() {
    let dir = FilePath::parse("/t", false);
    let path = |name: &str| show(&thumb_path(&dir, &thumb_base_name("/srv", None, name), false));
    assert_eq!(path("a.png"), path("a.jpg"));
    assert_ne!(path("a.png"), path("b.png"));
    assert_ne!(thumb_base_name("/srv", None, "a.png"), thumb_base_name("/srv", None, "a.jpg"));
}

#[test]
fn heif_images_have_a_decoder_of_their_own() {
    assert_eq!(choose_decoder(&FilePath::parse("/a/b.HEIC", false)), Decoder::Heif);
    assert_eq!(choose_decoder(&FilePath::parse("/a/b.heif", false)), Decoder::Heif);
    assert_eq!(choose_decoder(&FilePath::parse("/a/b.png", false)), Decoder::Image);
    assert_eq!(choose_decoder(&FilePath::parse("/a/b", false)), Decoder::Image);
}

#[test]
fn a_thumbnail_is_a_small_webp_picture() {
    let target = FilePath::parse("/t/0_a.webp", false);
    for (name, format) in [("a.png", image::ImageFormat::Png), ("a.BMP", image::ImageFormat::Bmp)] {
        let content = encoded(400, 100, format);
        let made = thumbnail(name, false, &content, &target).unwrap();
        assert_eq!(&made[0..4], b"RIFF");
        assert_eq!(&made[8..12], b"WEBP");
        let picture = image::load_from_memory_with_format(&made, image::ImageFormat::WebP).unwrap();
        assert_eq!((picture.width(), picture.height()), (200, 50));
    }
}

#[test]
fn a_small_picture_is_enlarged() {
    let content = encoded(10, 20, image::ImageFormat::Png);
    let target = FilePath::parse("0.webp", false);
    let made = thumbnail("a.png", false, &content, &target).unwrap();
    let picture = image::load_from_memory_with_format(&made, image::ImageFormat::WebP).unwrap();
    assert_eq!((picture.width(), picture.height()), (100, 200));
}

#[test]
fn content_that_is_no_image_has_no_thumbnail() {
    let target = FilePath::parse("0.webp", false);
    let content: Vec<u8> = vec![1, 2, 3];
    for name in ["a.png", "a.txt", "a", ".."] {
        match thumbnail(name, false, &content, &target) {
            Err(error) => assert!(error.message().starts_with("无法解码图片: ")),
            Ok(_) => panic!("made"),
        }
    }
}

#[test]
fn the_format_goes_by_the_name_and_not_by_the_content() {
    let content = encoded(4, 4, image::ImageFormat::Png);
    let target = FilePath::parse("0.webp", false);
    assert!(thumbnail("a.bmp", false, &content, &target).is_err());
    let target = FilePath::parse("0.nothing", false);
    match thumbnail("a.png", false, &content, &target) {
        Err(ThumbnailError::Save(_)) => {},
        _ => panic!("made"),
    }
}

fn of_pixels(
    width: u32,
    height: u32,
    channels: Channels,
    pixels: Vec<u8>,
) -> Result<Vec<u8>, ThumbnailError> {
    let target = FilePath::parse("0.webp", false);
    try_make_thumbnail_of_pixels(width, height, channels, pixels, &target).unwrap()
}

#[test]
fn a_thumbnail_of_pixels() {
    let made = of_pixels(2, 1, Channels::Rgb, vec![255, 0, 0, 255, 0, 0]).unwrap();
    let picture = image::load_from_memory_with_format(&made, image::ImageFormat::WebP).unwrap();
    assert_eq!((picture.width(), picture.height()), (200, 100));
    assert_eq!(picture.to_rgb8().get_pixel(0, 0).0, [255, 0, 0]);
    assert!(of_pixels(2, 1, Channels::Rgb, vec![0; 9]).is_ok());
    match of_pixels(2, 1, Channels::Rgb, vec![0; 5]) {
        Err(ThumbnailError::TooFewPixels) => {},
        _ => panic!("made"),
    }
}

#[test]
fn a_thumbnail_of_pixels_with_any_channels() {
    let cases = [
        (Channels::Grey, vec![7], [7, 7, 7, 255]),
        (Channels::GreyAlpha, vec![7, 8], [7, 7, 7, 8]),
        (Channels::Rgb, vec![1, 2, 3], [1, 2, 3, 255]),
        (Channels::Rgba, vec![1, 2, 3, 4], [1, 2, 3, 4]),
    ];
    for (channels, pixel, expected) in cases {
        assert_eq!(channels.number() as usize, pixel.len());
        let made = of_pixels(1, 1, channels, pixel.clone()).unwrap();
        let picture = image::load_from_memory_with_format(&made, image::ImageFormat::WebP).unwrap();
        assert_eq!((picture.width(), picture.height()), (200, 200));
        assert_eq!(picture.to_rgba8().get_pixel(199, 0).0, expected);
        assert!(matches!(
            of_pixels(1, 2, channels, pixel),
            Err(ThumbnailError::TooFewPixels)
        ));
    }
    let target = FilePath::parse("0.webp", false);
    let (wide, none) = (u32::MAX, Vec::new());
    assert!(try_make_thumbnail_of_pixels(wide, wide, Channels::Rgba, none, &target).is_none());
}

/// The number in some bits of four bytes, the lowest first.
fn bits(bytes: &[u8], from: u32) -> u32 {
    let all = u32::from_le_bytes([bytes[0], bytes[1], bytes[2], bytes[3]]);
    (all >> from) % 16384
}

#[test]
fn the_size_of_a_thumbnail_stands_in_its_file() {
    for (width, height, scaled) in [(400, 100, (200, 50)), (3, 7, (86, 200)), (1, 1000, (1, 200))] {
        let content = encoded(width, height, image::ImageFormat::Png);
        let target = FilePath::parse("0.webp", false);
        let made = make_thumbnail(&FilePath::parse("a.png", false), &content, &target).unwrap();
        assert_eq!(&made[12..16], b"VP8L");
        assert_eq!(made[20], 47);
        assert_eq!((bits(&made[21..25], 0) + 1, bits(&made[21..25], 14) + 1), scaled);
    }
}

#[test]
fn files_whose_decoders_can_break_off_are_left_alone() {
    let target = FilePath::parse("0.webp", false);
    let cases = [
        ("a.jpg", image::ImageFormat::Jpeg),
        ("a.JPEG", image::ImageFormat::Jpeg),
        ("a.jfif", image::ImageFormat::Jpeg),
        ("a.tif", image::ImageFormat::Tiff),
        ("a.Tiff", image::ImageFormat::Tiff),
        ("a.webp", image::ImageFormat::WebP),
    ];
    for (name, format) in cases {
        assert!(may_break_off(name));
        let content = encoded(4, 4, format);
        let source = FilePath::parse(name, false);
        assert!(try_make_thumbnail(&source, &content, &target).is_none());
    }
    let cases = [
        ("a.png", image::ImageFormat::Png),
        ("a.apng", image::ImageFormat::Png),
        ("a.bmp", image::ImageFormat::Bmp),
        ("a.GIF", image::ImageFormat::Gif),
        ("a.ico", image::ImageFormat::Ico),
        ("a.ppm", image::ImageFormat::Pnm),
        ("a.tga", image::ImageFormat::Tga),
    ];
    for (name, format) in cases {
        assert!(!may_break_off(name));
        let mut out = std::io::Cursor::new(Vec::new());
        image::DynamicImage::new_rgba8(4, 4).write_to(&mut out, format).unwrap();
        assert!(thumbnail(name, false, &out.into_inner(), &target).is_ok());
    }
    for name in ["a.jpg/", "a.jpg\\", "a.jpg/.", "a.", "/"] {
        assert!(may_break_off(name));
    }
    assert!(!may_break_off("jpg"));
    assert!(!may_break_off("a.jpg.zip"));
    assert!(!may_break_off(""));
}

/// The beginning of a file with one strip for each row of each of three planes, and
/// more rows than 32 bits can count the strips of.
fn countless_strips() -> Vec<u8> {
    let entries: Vec<(u16, u16, u32)> = vec![
        (256, 4, 1),
        (257, 4, 0x8000_0000),
        (258, 3, 8),
        (262, 3, 2),
        (273, 4, 0),
        (277, 3, 3),
        (278, 4, 1),
        (279, 4, 0),
        (284, 3, 2),
    ];
    let mut out: Vec<u8> = vec![0x49, 0x49, 42, 0, 8, 0, 0, 0, entries.len() as u8, 0];
    for (tag, kind, value) in entries {
        out.extend(tag.to_le_bytes());
        out.extend(kind.to_le_bytes());
        out.extend(1u32.to_le_bytes());
        out.extend(value.to_le_bytes());
    }
    out.extend([0, 0, 0, 0]);
    out
}

#[test]
fn an_image_with_too_many_strips_to_count_is_left_alone() {
    let target = FilePath::parse("0.webp", false);
    let source = FilePath::parse("/srv/files/a.tif", false);
    assert!(try_make_thumbnail(&source, &countless_strips(), &target).is_none());
}

#[test]
fn a_name_that_ends_in_a_dot_has_no_format() {
    let target = FilePath::parse("0.webp", false);
    let content = encoded(4, 4, image::ImageFormat::Png);
    let text = |name: &str| match thumbnail(name, false, &content, &target) {
        Err(error) => error.message(),
        Ok(_) => panic!("made"),
    };
    let unknown = "无法解码图片: The image format could not be determined";
    for name in ["a.", "a.png.", "a", "png", ".png", "..."] {
        assert_eq!(text(name), unknown);
    }
    assert_ne!(text("a.txt"), unknown);
}

#[test]
fn what_became_of_an_image_is_told() {
    assert_eq!(thumbnail_from_image(Ok(Ok(vec![1]))).unwrap(), [1]);
    assert!(matches!(thumbnail_from_image(Ok(Err("w".to_string()))), Err(ThumbnailError::Save(_))));
    let unread = thumbnail_from_image(Err("r".to_string()));
    assert!(matches!(unread, Err(ThumbnailError::DecodeImage(_))));
    assert_eq!(thumbnail_from_pixels(Some(Ok(vec![1]))).unwrap(), [1]);
    assert!(matches!(thumbnail_from_pixels(None), Err(ThumbnailError::TooFewPixels)));
    let unsaved = thumbnail_from_pixels(Some(Err("w".to_string())));
    assert!(matches!(unsaved, Err(ThumbnailError::Save(_))));
}

#[test]
fn the_texts_of_the_errors() {
    let e = || "e".to_string();
    let cases = vec![
        (ThumbnailError::PathNotText(e()), "路径包含非 UTF-8 字符: e"),
        (ThumbnailError::ReadHeif(e()), "读取 HEIC 文件失败: e"),
        (ThumbnailError::NoPrimaryImage(e()), "获取主图像失败: e"),
        (ThumbnailError::DecodeHeif(e()), "解码 HEIC 失败: e"),
        (ThumbnailError::NoPixels, "无法获取 interleaved 数据"),
        (ThumbnailError::TooFewPixels, "无法构建 ImageBuffer"),
        (ThumbnailError::DecodeImage(e()), "无法解码图片: e"),
        (ThumbnailError::Save(e()), "e"),
    ];
    for (error, text) in cases {
        assert_eq!(error.message(), text);
    }
}

#[test]
fn the_tag_of_a_thumbnail() {
    assert_eq!(etag(Some(0x65a0bc10), 4660), "\"65a0bc10-1234\"");
    assert_eq!(etag(None, 0), "\"0-0\"");
    assert_eq!(etag(Some(u64::MAX), 255), format!("\"{:x}-ff\"", u64::MAX));
    assert_ne!(etag(Some(0x1), 0x23), etag(Some(0x12), 0x3));
}

#[test]
fn the_headers_of_a_thumbnail() {
    let headers = thumb_headers("image/webp".to_string(), Some(16), 17);
    assert_eq!(headers.content_type, "image/webp");
    assert_eq!(headers.cache_control, "public, max-age=86400");
    assert_eq!(headers.etag, "\"10-11\"");
}

#[test]
fn the_media_type_of_a_file() {
    assert_eq!(content_type_of(&FilePath::parse("/t/a.webp", false)), "image/webp");
    assert_eq!(content_type_of(&FilePath::parse("/t/a.png", false)), "image/png");
    assert_eq!(content_type_of(&FilePath::parse("/t/a", false)), "application/octet-stream");
    assert_eq!(content_type_of(&FilePath::parse("/t/a.nosuch", false)), "application/octet-stream");
}

fn ask(filename: &str) -> (ThumbRequest, ThumbAction) {
    let dir = FilePath::parse("/srv/thumbnails", false);
    thumb_handler(&dir, "/srv/files", None, filename, false)
}

fn advance(request: ThumbRequest, event: ThumbEvent) -> (ThumbRequest, ThumbAction) {
    assert!(request.expects(&event));
    request.step(event)
}

#[test]
fn a_thumbnail_is_served() {
    let (request, action) = ask("a.png");
    let name = thumb_base_name("/srv/files", None, "a.png");
    let expected = thumb_path(&FilePath::parse("/srv/thumbnails", false), &name, false);
    assert!(matches!(&action, ThumbAction::CheckExists(p) if show(p) == show(&expected)));
    let (request, action) = advance(request, ThumbEvent::Exists(true));
    assert!(matches!(&action, ThumbAction::Canonicalize(p) if show(p) == show(&expected)));
    let canonical = FilePath::parse("/srv/thumbnails/x.webp", false);
    let (request, action) = advance(request, ThumbEvent::Canonical(Ok(canonical)));
    assert!(matches!(&action, ThumbAction::ReadFile(p) if show(p) == "/srv/thumbnails/x.webp"));
    let (request, action) = advance(request, ThumbEvent::Content(Ok(17)));
    assert!(matches!(&action, ThumbAction::ReadMetadata(p) if show(p) == "/srv/thumbnails/x.webp"));
    let (request, action) = advance(request, ThumbEvent::Metadata(Ok(Some(16))));
    match action {
        ThumbAction::Reply(headers) => {
            assert_eq!(headers.content_type, "image/webp");
            assert_eq!(headers.etag, "\"10-11\"");
        },
        _ => panic!("not served"),
    }
    assert!(!request.expects(&ThumbEvent::Exists(true)));
}

#[test]
fn a_thumbnail_that_is_missing_is_made() {
    let (request, _) = ask("a.png");
    let (_, action) = advance(request, ThumbEvent::Exists(false));
    assert!(matches!(action, ThumbAction::Generate(AppError::ThumbnailNotReady)));
}

#[test]
fn a_thumbnail_elsewhere_is_refused() {
    let (request, _) = ask("a.png");
    let (request, _) = advance(request, ThumbEvent::Exists(true));
    let canonical = FilePath::parse("/etc/passwd", false);
    let (_, action) = advance(request, ThumbEvent::Canonical(Ok(canonical)));
    match action {
        ThumbAction::Fail(error) => assert_eq!(error.status(), 403),
        _ => panic!("not refused"),
    }
}

#[test]
fn a_thumbnail_that_cannot_be_read() {
    let text = |action: ThumbAction| match action {
        ThumbAction::Fail(error) => error.message(),
        _ => panic!("no error"),
    };
    let (request, _) = ask("a.png");
    let (request, _) = advance(request, ThumbEvent::Exists(true));
    let (_, action) = advance(request, ThumbEvent::Canonical(Err("gone".to_string())));
    assert_eq!(text(action), "内部错误: 无法规范化缩略图路径: gone");
    let reading = || {
        let (request, _) = ask("a.png");
        let (request, _) = advance(request, ThumbEvent::Exists(true));
        let canonical = FilePath::parse("/srv/thumbnails/x.webp", false);
        advance(request, ThumbEvent::Canonical(Ok(canonical))).0
    };
    let (_, action) = advance(reading(), ThumbEvent::Content(Err("busy".to_string())));
    assert_eq!(text(action), "文件 I/O 错误: busy");
    let (request, _) = advance(reading(), ThumbEvent::Content(Ok(1)));
    let (_, action) = advance(request, ThumbEvent::Metadata(Err("busy".to_string())));
    assert_eq!(text(action), "文件 I/O 错误: busy");
}

fn proceed(task: ThumbTask, event: ThumbTaskEvent) -> (ThumbTask, ThumbTaskAction) {
    assert!(task.expects(&event));
    task.step(event)
}

fn outcome(action: ThumbTaskAction) -> ThumbOutcome {
    match action {
        ThumbTaskAction::Stop(outcome) => outcome,
        _ => panic!("not over"),
    }
}

fn looking(filename: &str) -> (ThumbTask, ThumbTaskAction) {
    let (task, action) = spawn_thumbnail(&FilePath::parse("/srv/files", false), filename, false);
    assert!(matches!(action, ThumbTaskAction::AwaitPermit));
    let (task, action) = proceed(task, ThumbTaskEvent::Permit(true));
    assert!(matches!(&action, ThumbTaskAction::CreateDirectory(p) if show(p) == "/srv/thumbnails"));
    let (task, action) = proceed(task, ThumbTaskEvent::Directory(Ok(())));
    assert!(matches!(action, ThumbTaskAction::FindDirectoryText));
    proceed(task, ThumbTaskEvent::DirectoryText("/srv/files".to_string(), None))
}

#[test]
fn a_thumbnail_is_made_where_requests_look_for_it() {
    let (task, action) = looking("a.heic");
    let asked = match ask("a.heic").1 {
        ThumbAction::CheckExists(path) => show(&path),
        _ => panic!("not looked for"),
    };
    assert!(matches!(&action, ThumbTaskAction::CheckExists(p) if show(p) == asked));
    let (task, action) = proceed(task, ThumbTaskEvent::Exists(false));
    match action {
        ThumbTaskAction::Generate { image, thumbnail, decoder } => {
            assert_eq!(show(&image), "/srv/files/a.heic");
            assert_eq!(show(&thumbnail), asked);
            assert_eq!(decoder, Decoder::Heif);
        },
        _ => panic!("not made"),
    }
    let (task, action) = proceed(task, ThumbTaskEvent::Thumbnail(Ok(())));
    assert!(matches!(outcome(action), ThumbOutcome::Made));
    assert!(!task.expects(&ThumbTaskEvent::Thumbnail(Ok(()))));
}

#[test]
fn how_the_making_of_a_thumbnail_ends() {
    let (task, _) = spawn_thumbnail(&FilePath::parse("/srv/files", false), "a.png", false);
    let (_, action) = proceed(task, ThumbTaskEvent::Permit(false));
    assert!(matches!(outcome(action), ThumbOutcome::NoPermit));
    let (task, _) = spawn_thumbnail(&FilePath::parse("/srv/files", false), "a.png", false);
    let (task, _) = proceed(task, ThumbTaskEvent::Permit(true));
    let (_, action) = proceed(task, ThumbTaskEvent::Directory(Err("full".to_string())));
    assert!(matches!(outcome(action), ThumbOutcome::NoDirectory(t) if t == "full"));
    let (task, _) = looking("a.png");
    let (_, action) = proceed(task, ThumbTaskEvent::Exists(true));
    assert!(matches!(outcome(action), ThumbOutcome::AlreadyThere));
    let making = || proceed(looking("a.png").0, ThumbTaskEvent::Exists(false)).0;
    let failure = ThumbTaskEvent::Thumbnail(Err(ThumbnailError::NoPixels));
    let (_, action) = proceed(making(), failure);
    assert!(matches!(outcome(action), ThumbOutcome::Failed(t) if t == "无法获取 interleaved 数据"));
    let (_, action) = proceed(making(), ThumbTaskEvent::BrokeOff("panic".to_string()));
    assert!(matches!(outcome(action), ThumbOutcome::BrokeOff(t) if t == "panic"));
}

#[test]
fn sums_that_fit_and_sums_that_do_not() {
    assert!(can_sum((4000, 3000, 3, 3)));
    assert!(can_sum((4000, 3000, 6, 3)));
    assert!(can_sum((32768, 32768, 3, 3)));
    assert!(can_sum((1_000_000, 10, 3, 3)));
    assert!(can_sum((0, 7, 2, 1)));
    assert!(can_sum((1, 1, 2, 1)));
    assert!(!can_sum((51400, 5140, 2, 1)));
    assert!(can_sum((51400, 5140, 1, 1)));
    assert!(can_sum((50000, 5000, 2, 1)));
    assert!(!can_sum((u32::MAX, u32::MAX, 3, 3)));
}

#[test]
fn an_image_that_cannot_be_summed_has_no_thumbnail() {
    let target = FilePath::parse("0.webp", false);
    let source = FilePath::parse("a.png", false);
    assert!(try_make_thumbnail(&source, &beginning(51400, 5140, 16), &target).is_none());
    match try_make_thumbnail(&source, &beginning(514, 51, 16), &target) {
        Some(Err(ThumbnailError::DecodeImage(_))) => {},
        _ => panic!("made"),
    }
}

#[test]
fn a_thumbnail_of_a_wide_picture_keeps_its_shape() {
    let target = FilePath::parse("0.webp", false);
    let mut out = std::io::Cursor::new(Vec::new());
    image::DynamicImage::new_luma16(1000, 333).write_to(&mut out, image::ImageFormat::Png).unwrap();
    let made = thumbnail("a.png", false, &out.into_inner(), &target).unwrap();
    let picture = image::load_from_memory_with_format(&made, image::ImageFormat::WebP).unwrap();
    assert_eq!((picture.width(), picture.height()), (200, 67));
    let content = encoded(1000, 1, image::ImageFormat::Png);
    let made = thumbnail("a.png", false, &content, &target).unwrap();
    let picture = image::load_from_memory_with_format(&made, image::ImageFormat::WebP).unwrap();
    assert_eq!((picture.width(), picture.height()), (200, 1));
}

#[test]
fn on_windows_a_backslash_separates() {
    assert!(is_image("C:\\dir.x\\pic.JPG", true));
    assert!(!is_image("C:\\dir.jpg\\pic", true));
    assert!(is_image("x/y.JpG", true));
    let dir = FilePath::parse("C:\\t", true);
    let path = thumb_path(&dir, "0_a\\b.png", true);
    assert_eq!(show(&path), "C:/t/0_a/b.webp");
}
