use rosace_widgets::image::{content_hash, path_components_of, CacheKey, Image, ImageCache, ImageFit, ImageSource};

fn png(width: u32, height: u32) -> Vec<u8> {
    let pixmap = tiny_skia::Pixmap::new(width, height).unwrap();
    pixmap.encode_png().unwrap()
}

fn fnv1a(data: &[u8]) -> u64 {
    let mut h: u64 = 0xcbf29ce484222325;
    for b in data {
        h ^= *b as u64;
        h = h.wrapping_mul(0x100000001b3);
    }
    h
}

#[test]
fn image_cache_new_empty() {
    let cache = ImageCache::new();
    assert!(cache.is_empty());
    assert_eq!(cache.len(), 0);
}

#[test]
fn image_cache_contains_after_miss() {
    let cache = ImageCache::new();
    // A non-existent path should NOT end up cached.
    assert!(!cache.contains("/no/such/file.png"));
}

#[test]
fn png_bytes_decode_once_and_are_served_from_the_cache() {
    let mut cache = ImageCache::new();
    let bytes = png(3, 2);
    let first = cache.get_or_decode_bytes(&bytes).expect("a valid PNG decodes");
    assert_eq!((first.width, first.height), (3, 2));
    assert_eq!(first.pixels.len(), 3 * 2 * 4);
    assert_eq!(cache.len(), 1);
    let second = cache.get_or_decode_bytes(&bytes).expect("cached");
    assert_eq!((second.width, second.height), (3, 2));
    assert!(std::sync::Arc::ptr_eq(&first.pixels, &second.pixels));
    assert_eq!(cache.len(), 1);
}

#[test]
fn undecodable_bytes_cache_nothing() {
    let mut cache = ImageCache::new();
    assert!(cache.get_or_decode_bytes(&[1, 2, 3, 4]).is_none());
    assert!(cache.is_empty());
}

#[test]
fn a_file_is_cached_under_its_path() {
    let mut cache = ImageCache::new();
    let img = cache.get_or_load_from("assets/logo.png", &png(5, 7)).expect("decodes");
    assert_eq!((img.width, img.height), (5, 7));
    assert!(cache.contains("assets/logo.png"));
    assert!(!cache.contains("assets/other.png"));
    // Cached: later bytes for the same path are not looked at.
    let again = cache.get_or_load_from("assets/logo.png", &[0u8; 3]).expect("served from cache");
    assert_eq!((again.width, again.height), (5, 7));
    let by_key = cache.cached(&CacheKey::path("assets/logo.png")).expect("cached");
    assert_eq!(by_key.width, 5);
    cache.clear();
    assert!(cache.is_empty());
    assert!(!cache.contains("assets/logo.png"));
}

#[test]
fn paths_are_keyed_by_their_components() {
    let mut cache = ImageCache::new();
    cache.get_or_load_from("img/a.png", &png(2, 3)).expect("decodes");
    assert!(cache.contains("img//a.png"));
    assert!(cache.contains("img/./a.png"));
    assert!(cache.contains("img/a.png/"));
    assert!(!cache.contains("./img/a.png"));
    assert!(!cache.contains("/img/a.png"));
    assert!(!cache.contains("img/b/../a.png"));
    // Served from the cache under an equal path: the bytes are not looked at.
    let again = cache.get_or_load_from("img//a.png", &[0u8; 3]).expect("cached");
    assert_eq!((again.width, again.height), (2, 3));
    assert_eq!(cache.len(), 1);
}

#[test]
fn path_components_follow_std_paths() {
    for p in ["", "a", "/a//b/", "./a/./b/.", ".", "./", "/", "../x", ".hidden/f", "a/b/../c", "//x"] {
        let std_parts: Vec<String> = std::path::Path::new(p)
            .components()
            .map(|c| c.as_os_str().to_string_lossy().into_owned())
            .collect();
        assert_eq!(path_components_of(p), std_parts, "path {:?}", p);
    }
}

#[test]
fn an_unreadable_file_is_not_cached() {
    let mut cache = ImageCache::new();
    assert!(cache.get_or_load_from("broken.png", b"not a png").is_none());
    assert!(!cache.contains("broken.png"));
    assert_eq!(cache.len(), 0);
}

#[test]
fn content_hash_reads_the_length_and_three_windows() {
    // Short input: the three windows are the whole input each time.
    let data = [7u8, 8, 9];
    let mut expect = Vec::new();
    expect.extend_from_slice(&(3u64).to_le_bytes());
    expect.extend_from_slice(&data);
    expect.extend_from_slice(&data[1..]);
    expect.extend_from_slice(&data);
    assert_eq!(content_hash(&data), fnv1a(&expect));
    // Empty input: only the length.
    assert_eq!(content_hash(&[]), fnv1a(&0u64.to_le_bytes()));
    // Long input: first 32, 32 from the middle, last 32.
    let long: Vec<u8> = (0..100u32).map(|i| i as u8).collect();
    let mut expect = Vec::new();
    expect.extend_from_slice(&(100u64).to_le_bytes());
    expect.extend_from_slice(&long[0..32]);
    expect.extend_from_slice(&long[50..82]);
    expect.extend_from_slice(&long[68..100]);
    assert_eq!(content_hash(&long), fnv1a(&expect));
}

#[test]
fn image_builders_record_source_fit_and_alt() {
    let f = Image::file("/tmp/photo.png");
    assert_eq!(f.source, ImageSource::File("/tmp/photo.png".to_string()));
    assert_eq!(f.fit, ImageFit::Contain);
    assert_eq!(f.alt, None);
    let b = Image::bytes(vec![0u8, 1, 2, 3]).fit(ImageFit::Cover).alt("a photo");
    assert_eq!(b.source, ImageSource::Bytes(vec![0u8, 1, 2, 3]));
    assert_eq!(b.fit, ImageFit::Cover);
    assert_eq!(b.alt.as_deref(), Some("a photo"));
}
