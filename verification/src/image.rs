//! Image sources and the decode-once image cache.
//!
//! Decoded images are kept by key: a file path, or a content hash of the
//! encoded bytes (length plus three sampled windows, FNV-1a). A key is
//! decoded at most once; a failed decode caches nothing.
use vstd::prelude::*;
use std::sync::Arc;
use std::collections::HashMap;
use crate::text::{chars_of, push_char, str_equal, string_of};

verus! {

/// How an image is scaled into its box.
#[derive(Debug, Clone, Copy, PartialEq, Eq, Structural)]
pub enum ImageFit {
    /// Stretch to fill the box exactly (may distort).
    Fill,
    /// Scale uniformly to fit inside the box (letterbox).
    Contain,
    /// Scale uniformly to cover the box, cropping the overflow.
    Cover,
    /// Natural size, no scaling.
    Natural,
}

/// Where an image's data comes from.
#[derive(Debug, Clone, PartialEq)]
pub enum ImageSource {
    /// A file path.
    File(String),
    /// Encoded PNG bytes.
    Bytes(Vec<u8>),
    /// No image data: a coloured placeholder.
    Placeholder,
}

/// Model of [`ImageSource`].
pub enum SourceV {
    File(Seq<char>),
    Bytes(Seq<u8>),
    Placeholder,
}

impl View for ImageSource {
    type V = SourceV;

    open spec fn view(&self) -> SourceV {
        match self {
            ImageSource::File(p) => SourceV::File(p@),
            ImageSource::Bytes(b) => SourceV::Bytes(b@),
            ImageSource::Placeholder => SourceV::Placeholder,
        }
    }
}

/// A decoded image: premultiplied RGBA pixels, shared, and its size.
#[derive(Debug)]
pub struct DecodedImage {
    pub width: u32,
    pub height: u32,
    pub pixels: Arc<Vec<u8>>,
}

/// Model of a decoded image: width, height, pixel bytes.
pub type ImageV = (u32, u32, Seq<u8>);

impl View for DecodedImage {
    type V = ImageV;

    open spec fn view(&self) -> ImageV {
        (self.width, self.height, self.pixels@)
    }
}

pub open spec fn opt_image_view(o: Option<DecodedImage>) -> Option<ImageV> {
    match o {
        Some(i) => Some(i@),
        None => None,
    }
}

/// Another handle on the same pixel buffer (`Arc::clone`): no copy, same
/// contents.
#[verifier::external_body]
fn share_pixels(p: &Arc<Vec<u8>>) -> (r: Arc<Vec<u8>>)
    ensures
        r@ == p@,
{
    Arc::clone(p)
}

impl Clone for DecodedImage {
    fn clone(&self) -> (r: Self)
        ensures
            r@ == self@,
    {
        DecodedImage { width: self.width, height: self.height, pixels: share_pixels(&self.pixels) }
    }
}

/// What `tiny_skia::Pixmap::decode_png` yields for `bytes`: `None` where it
/// reports an error, else the pixmap's width, height and data.
pub uninterp spec fn png_decoding(bytes: Seq<u8>) -> Option<ImageV>;

/// Decodes PNG bytes with `tiny_skia::Pixmap::decode_png`. The contract
/// claims only that the outcome is a function of the bytes: an error
/// becomes `None`, a pixmap its width, height and pixel data.
#[verifier::external_body]
fn decode_png(bytes: &[u8]) -> (r: Option<DecodedImage>)
    ensures
        opt_image_view(r) == png_decoding(bytes@),
{
    match tiny_skia::Pixmap::decode_png(bytes) {
        Ok(pixmap) => Some(DecodedImage {
            width: pixmap.width(),
            height: pixmap.height(),
            pixels: Arc::new(pixmap.data().to_vec()),
        }),
        Err(_) => None,
    }
}

/// An image element: where its data comes from, how it is fitted, and its
/// alt text (`None` marks it decorative).
#[derive(Debug, Clone)]
pub struct Image {
    pub source: ImageSource,
    pub fit: ImageFit,
    pub alt: Option<String>,
}

pub open spec fn opt_str_view(o: Option<String>) -> Option<Seq<char>> {
    match o {
        Some(s) => Some(s@),
        None => None,
    }
}

impl Image {
    /// An image read from the file `path`, fitted with `Contain`.
    pub fn file(path: &str) -> (r: Image)
        ensures
            r.source@ == SourceV::File(path@),
            r.fit == ImageFit::Contain,
            r.alt is None,
    {
        Image { source: ImageSource::File(path.to_owned()), fit: ImageFit::Contain, alt: None }
    }

    /// An image decoded from PNG `data`, fitted with `Contain`.
    pub fn bytes(data: Vec<u8>) -> (r: Image)
        ensures
            r.source@ == SourceV::Bytes(data@),
            r.fit == ImageFit::Contain,
            r.alt is None,
    {
        Image { source: ImageSource::Bytes(data), fit: ImageFit::Contain, alt: None }
    }

    /// Sets how the image is fitted.
    pub fn fit(self, f: ImageFit) -> (r: Image)
        ensures
            r.source@ == self.source@,
            r.fit == f,
            opt_str_view(r.alt) == opt_str_view(self.alt),
    {
        Image { source: self.source, fit: f, alt: self.alt }
    }

    /// Sets the alt text.
    pub fn alt(self, alt: &str) -> (r: Image)
        ensures
            r.source@ == self.source@,
            r.fit == self.fit,
            opt_str_view(r.alt) == Some(alt@),
    {
        Image { source: self.source, fit: self.fit, alt: Some(alt.to_owned()) }
    }
}

// ───────────────────────── content hash ─────────────────────────

pub const FNV_OFFSET: u64 = 0xcbf29ce484222325u64;

pub const FNV_PRIME: u64 = 0x100000001b3u64;

/// One FNV-1a step.
pub open spec fn fnv_step(h: u64, b: u8) -> u64 {
    vstd::wrapping::u64_specs::wrapping_mul(h ^ (b as u64), FNV_PRIME)
}

/// FNV-1a of `s`, starting from `h`.
pub open spec fn fnv(h: u64, s: Seq<u8>) -> u64
    decreases s.len(),
{
    if s.len() == 0 {
        h
    } else {
        fnv_step(fnv(h, s.drop_last()), s.last())
    }
}

/// The eight little-endian bytes of `x`.
pub open spec fn le_bytes(x: u64) -> Seq<u8> {
    Seq::new(8, |k: int| ((x >> ((8 * k) as u64)) % 256) as u8)
}

/// Up to 32 bytes of `b` from `start`.
pub open spec fn window(b: Seq<u8>, start: int) -> Seq<u8> {
    b.subrange(start, if start + 32 <= b.len() { start + 32 } else { b.len() as int })
}

/// What the hash reads: the length, then the first 32 bytes, 32 from the
/// middle and the last 32 (windows may overlap).
pub open spec fn sampled(b: Seq<u8>) -> Seq<u8> {
    let n = b.len() as int;
    le_bytes(n as u64) + window(b, 0) + window(b, n / 2) + window(b, if n >= 32 { n - 32 } else { 0 })
}

/// The content key of encoded image bytes.
pub open spec fn content_hash_spec(b: Seq<u8>) -> u64 {
    fnv(FNV_OFFSET, sampled(b))
}

/// Appends `b[start..min(start + 32, len)]` to `out`.
fn push_window(out: &mut Vec<u8>, b: &[u8], start: usize)
    requires
        start <= b@.len(),
    ensures
        final(out)@ == old(out)@ + window(b@, start as int),
{
    let n = b.len();
    let end: usize = if n - start > 32 { start + 32 } else { n };
    let mut j: usize = start;
    while j < end
        invariant
            start <= j <= end,
            end <= n,
            n == b@.len(),
            out@ == old(out)@ + b@.subrange(start as int, j as int),
        decreases end - j,
    {
        out.push(b[j]);
        proof {
            assert(out@ =~= old(out)@ + b@.subrange(start as int, j + 1));
        }
        j = j + 1;
    }
    proof {
        assert(window(b@, start as int) =~= b@.subrange(start as int, end as int));
    }
}

/// The content key of encoded image bytes (FNV-1a over the length and three
/// sampled 32-byte windows).
pub fn content_hash(bytes: &[u8]) -> (r: u64)
    ensures
        r == content_hash_spec(bytes@),
{
    let n = bytes.len();
    let len64 = n as u64;
    let mut data: Vec<u8> = Vec::new();
    let mut k: u64 = 0;
    while k < 8
        invariant
            k <= 8,
            data@ == le_bytes(len64).take(k as int),
        decreases 8 - k,
    {
        let byte = ((len64 >> (8 * k)) % 256) as u8;
        data.push(byte);
        proof {
            assert(data@ =~= le_bytes(len64).take(k + 1));
        }
        k = k + 1;
    }
    proof {
        assert(le_bytes(len64).take(8) =~= le_bytes(len64));
    }
    let tail_start: usize = if n >= 32 { n - 32 } else { 0 };
    push_window(&mut data, bytes, 0);
    push_window(&mut data, bytes, n / 2);
    push_window(&mut data, bytes, tail_start);
    proof {
        assert(data@ =~= sampled(bytes@));
    }
    let mut h: u64 = FNV_OFFSET;
    let mut i: usize = 0;
    while i < data.len()
        invariant
            i <= data@.len(),
            h == fnv(FNV_OFFSET, data@.take(i as int)),
        decreases data@.len() - i,
    {
        proof {
            assert(data@.take(i + 1).drop_last() =~= data@.take(i as int));
        }
        h = (h ^ (data[i] as u64)).wrapping_mul(FNV_PRIME);
        i = i + 1;
    }
    proof {
        assert(data@.take(data@.len() as int) =~= data@);
    }
    h
}

// ───────────────────────── the cache ─────────────────────────

/// The split of `p` at `/`, so far: the names finished, and the one being
/// read. Empty names and `.` are not kept.
pub open spec fn split_names(p: Seq<char>) -> (Seq<Seq<char>>, Seq<char>)
    decreases p.len(),
{
    if p.len() == 0 {
        (Seq::empty(), Seq::empty())
    } else {
        let (done, cur) = split_names(p.drop_last());
        if p.last() == '/' {
            (flush_name(done, cur), Seq::empty())
        } else {
            (done, cur.push(p.last()))
        }
    }
}

/// `done`, with `cur` added unless it is empty or `.`.
pub open spec fn flush_name(done: Seq<Seq<char>>, cur: Seq<char>) -> Seq<Seq<char>> {
    if cur.len() == 0 || cur == seq!['.'] {
        done
    } else {
        done.push(cur)
    }
}

/// The names in `p`: its parts between `/`, leaving out empty ones and `.`.
pub open spec fn path_names(p: Seq<char>) -> Seq<Seq<char>> {
    flush_name(split_names(p).0, split_names(p).1)
}

/// `p` begins with a current-directory mark: `.` alone or before a `/`.
pub open spec fn leads_with_cur_dir(p: Seq<char>) -> bool {
    p.len() >= 1 && p[0] == '.' && (p.len() == 1 || p[1] == '/')
}

/// The components of the path `p`, by which two paths are equal: `/` for a
/// leading root, else `.` for a leading current-directory mark, then the
/// names. So repeated separators, a trailing separator and `.` past the
/// start make no difference; `..` is kept as a name.
pub open spec fn path_components(p: Seq<char>) -> Seq<Seq<char>> {
    let head: Seq<Seq<char>> = if p.len() >= 1 && p[0] == '/' {
        seq![seq!['/']]
    } else if leads_with_cur_dir(p) {
        seq![seq!['.']]
    } else {
        Seq::empty()
    };
    head + path_names(p)
}

pub open spec fn strings_view(v: Seq<String>) -> Seq<Seq<char>> {
    v.map_values(|s: String| s@)
}

fn one_char(c: char) -> (r: String)
    ensures
        r@ == seq![c],
{
    let mut s = String::new();
    push_char(&mut s, c);
    proof {
        assert(s@ =~= seq![c]);
    }
    s
}

/// The components of the path `path`.
pub fn path_components_of(path: &str) -> (r: Vec<String>)
    ensures
        strings_view(r@) == path_components(path@),
{
    let cs = chars_of(path);
    let mut out: Vec<String> = Vec::new();
    if cs.len() >= 1 && cs[0] == '/' {
        out.push(one_char('/'));
    } else if cs.len() >= 1 && cs[0] == '.' && (cs.len() == 1 || cs[1] == '/') {
        out.push(one_char('.'));
    }
    let ghost head = strings_view(out@);
    proof {
        assert(cs@.take(0) =~= Seq::<char>::empty());
        assert(strings_view(out@) =~= head + split_names(cs@.take(0)).0);
    }
    let mut cur: Vec<char> = Vec::new();
    let mut i: usize = 0;
    while i < cs.len()
        invariant
            i <= cs@.len(),
            strings_view(out@) == head + split_names(cs@.take(i as int)).0,
            cur@ == split_names(cs@.take(i as int)).1,
        decreases cs@.len() - i,
    {
        let c = cs[i];
        proof {
            assert(cs@.take(i + 1).drop_last() =~= cs@.take(i as int));
            assert(cs@.take(i + 1).last() == c);
        }
        if c == '/' {
            let keep = !(cur.len() == 0 || (cur.len() == 1 && cur[0] == '.'));
            proof {
                if cur@.len() == 1 && cur@[0] == '.' {
                    assert(cur@ =~= seq!['.']);
                }
            }
            if keep {
                let ghost before = strings_view(out@);
                out.push(string_of(&cur));
                proof {
                    assert(strings_view(out@) =~= before.push(cur@));
                }
            }
            cur = Vec::new();
            proof {
                assert(strings_view(out@) =~= head + split_names(cs@.take(i + 1)).0);
            }
        } else {
            cur.push(c);
        }
        i = i + 1;
    }
    proof {
        assert(cs@.take(cs@.len() as int) =~= cs@);
    }
    let keep = !(cur.len() == 0 || (cur.len() == 1 && cur[0] == '.'));
    proof {
        if cur@.len() == 1 && cur@[0] == '.' {
            assert(cur@ =~= seq!['.']);
        }
    }
    if keep {
        let ghost before = strings_view(out@);
        out.push(string_of(&cur));
        proof {
            assert(strings_view(out@) =~= before.push(cur@));
        }
    }
    proof {
        assert(strings_view(out@) =~= path_components(path@));
    }
    out
}

fn strings_equal(a: &Vec<String>, b: &Vec<String>) -> (r: bool)
    ensures
        r == (strings_view(a@) == strings_view(b@)),
{
    if a.len() != b.len() {
        proof {
            assert(strings_view(a@).len() != strings_view(b@).len());
        }
        return false;
    }
    let mut i: usize = 0;
    while i < a.len()
        invariant
            a.len() == b.len(),
            i <= a.len(),
            forall|j: int| 0 <= j < i ==> a@[j]@ == b@[j]@,
        decreases a.len() - i,
    {
        if !str_equal(a[i].as_str(), b[i].as_str()) {
            proof {
                assert(strings_view(a@)[i as int] != strings_view(b@)[i as int]);
            }
            return false;
        }
        i = i + 1;
    }
    proof {
        assert(strings_view(a@) =~= strings_view(b@));
    }
    true
}

/// What an image is cached under.
#[derive(Debug)]
pub enum CacheKey {
    /// A file path, by its components.
    Path(Vec<String>),
    /// A content hash of encoded bytes.
    Content(u64),
}

/// Model of [`CacheKey`].
pub enum KeyV {
    Path(Seq<Seq<char>>),
    Content(u64),
}

impl View for CacheKey {
    type V = KeyV;

    open spec fn view(&self) -> KeyV {
        match self {
            CacheKey::Path(p) => KeyV::Path(strings_view(p@)),
            CacheKey::Content(h) => KeyV::Content(*h),
        }
    }
}

impl CacheKey {
    /// The key of the file `path`.
    pub fn path(path: &str) -> (r: CacheKey)
        ensures
            r@ == KeyV::Path(path_components(path@)),
    {
        CacheKey::Path(path_components_of(path))
    }
}

fn key_equal(a: &CacheKey, b: &CacheKey) -> (r: bool)
    ensures
        r == (a@ == b@),
{
    match (a, b) {
        (CacheKey::Path(x), CacheKey::Path(y)) => strings_equal(x, y),
        (CacheKey::Content(x), CacheKey::Content(y)) => *x == *y,
        _ => false,
    }
}

/// Some entry of `s` is keyed `k`.
pub open spec fn has_key<K>(s: Seq<(K, ImageV)>, k: K) -> bool {
    exists|i: int| 0 <= i < s.len() && (#[trigger] s[i]).0 == k
}

/// The image cached under `k`, if any.
pub open spec fn lookup<K>(s: Seq<(K, ImageV)>, k: K) -> Option<ImageV> {
    if has_key(s, k) {
        Some(s[choose|i: int| 0 <= i < s.len() && (#[trigger] s[i]).0 == k].1)
    } else {
        None
    }
}

/// No key occurs twice.
pub open spec fn keys_unique<K>(s: Seq<(K, ImageV)>) -> bool {
    forall|i: int, j: int| 0 <= i < j < s.len() ==> (#[trigger] s[i]).0 != (#[trigger] s[j]).0
}

/// The entries after offering them `decoded` under `k`, and what is handed
/// back: an image already cached under `k` wins and nothing changes;
/// otherwise a decoded image is added and returned, and a failed decode
/// changes nothing and returns `None`.
pub open spec fn store<K>(s: Seq<(K, ImageV)>, k: K, decoded: Option<ImageV>) -> (Seq<(K, ImageV)>, Option<ImageV>) {
    match lookup(s, k) {
        Some(img) => (s, Some(img)),
        None => match decoded {
            Some(img) => (s.push((k, img)), Some(img)),
            None => (s, None),
        },
    }
}

/// The same for images kept by content hash.
pub open spec fn store_hashed(m: Map<u64, ImageV>, h: u64, decoded: Option<ImageV>) -> (Map<u64, ImageV>, Option<ImageV>) {
    if m.contains_key(h) {
        (m, Some(m[h]))
    } else {
        match decoded {
            Some(img) => (m.insert(h, img), Some(img)),
            None => (m, None),
        }
    }
}

/// Model of an [`ImageCache`]: the images kept by path (by its components),
/// in the order they were added, and those kept by content hash.
pub struct CacheV {
    pub paths: Seq<(Seq<Seq<char>>, ImageV)>,
    pub bytes: Map<u64, ImageV>,
}

/// A cache holding nothing.
pub open spec fn empty_cache() -> CacheV {
    CacheV { paths: Seq::empty(), bytes: Map::empty() }
}

/// The image cached under `k`, if any.
pub open spec fn lookup_key(c: CacheV, k: KeyV) -> Option<ImageV> {
    match k {
        KeyV::Path(p) => lookup(c.paths, p),
        KeyV::Content(h) => if c.bytes.contains_key(h) { Some(c.bytes[h]) } else { None },
    }
}

/// The cache after offering it `decoded` under `k`, and what is handed back
/// (see [`store`]).
pub open spec fn store_key(c: CacheV, k: KeyV, decoded: Option<ImageV>) -> (CacheV, Option<ImageV>) {
    match k {
        KeyV::Path(p) => {
            let (ps, r) = store(c.paths, p, decoded);
            (CacheV { paths: ps, bytes: c.bytes }, r)
        },
        KeyV::Content(h) => {
            let (m, r) = store_hashed(c.bytes, h, decoded);
            (CacheV { paths: c.paths, bytes: m }, r)
        },
    }
}

/// Decoded images kept by file path (compared by components) or by content
/// hash. Unbounded: it holds each distinct image it is given.
pub struct ImageCache {
    paths: Vec<(Vec<String>, DecodedImage)>,
    by_bytes: HashMap<u64, DecodedImage>,
}

impl View for ImageCache {
    type V = CacheV;

    closed spec fn view(&self) -> CacheV {
        CacheV {
            paths: self.paths@.map_values(|e: (Vec<String>, DecodedImage)| (strings_view(e.0@), e.1@)),
            bytes: self.by_bytes@.map_values(|d: DecodedImage| d@),
        }
    }
}

impl ImageCache {
    #[verifier::type_invariant]
    closed spec fn unique(&self) -> bool {
        keys_unique(self@.paths)
    }

    /// An empty cache.
    pub fn new() -> (r: ImageCache)
        ensures
            r@ == empty_cache(),
    {
        let r = ImageCache { paths: Vec::new(), by_bytes: HashMap::new() };
        proof {
            assert(r@.paths =~= Seq::<(Seq<Seq<char>>, ImageV)>::empty());
            assert(r@.bytes =~= Map::<u64, ImageV>::empty());
        }
        r
    }

    /// Number of cached images (path and byte sources together).
    pub fn len(&self) -> (r: usize)
        requires
            self@.paths.len() + self@.bytes.len() <= usize::MAX,
        ensures
            r == self@.paths.len() + self@.bytes.len(),
    {
        broadcast use vstd::std_specs::hash::group_hash_axioms;
        proof {
            assert(self@.bytes.dom() =~= self.by_bytes@.dom());
        }
        self.paths.len() + self.by_bytes.len()
    }

    /// Whether nothing is cached.
    pub fn is_empty(&self) -> (r: bool)
        ensures
            r == (self@.paths.len() == 0 && self@.bytes.dom().is_empty()),
    {
        broadcast use vstd::std_specs::hash::group_hash_axioms;
        proof {
            assert(self@.bytes.dom() =~= self.by_bytes@.dom());
        }
        self.paths.len() == 0 && self.by_bytes.is_empty()
    }

    /// Drops every cached image.
    pub fn clear(&mut self)
        ensures
            final(self)@ == empty_cache(),
    {
        self.paths = Vec::new();
        self.by_bytes = HashMap::new();
        proof {
            assert(self@.paths =~= Seq::<(Seq<Seq<char>>, ImageV)>::empty());
            assert(self@.bytes =~= Map::<u64, ImageV>::empty());
        }
    }

    /// Where the path with components `key` is cached.
    fn position(&self, key: &Vec<String>) -> (r: Option<usize>)
        ensures
            match r {
                Some(i) => i < self@.paths.len() && self@.paths[i as int].0 == strings_view(key@),
                None => !has_key(self@.paths, strings_view(key@)),
            },
    {
        let mut i: usize = 0;
        while i < self.paths.len()
            invariant
                i <= self.paths@.len(),
                self@.paths.len() == self.paths@.len(),
                forall|j: int| 0 <= j < i ==> (#[trigger] self@.paths[j]).0 != strings_view(key@),
            decreases self.paths@.len() - i,
        {
            if strings_equal(&self.paths[i].0, key) {
                return Some(i);
            }
            i = i + 1;
        }
        None
    }

    /// The image cached under `key`, if any.
    pub fn cached(&self, key: &CacheKey) -> (r: Option<DecodedImage>)
        ensures
            opt_image_view(r) == lookup_key(self@, key@),
    {
        broadcast use vstd::std_specs::hash::group_hash_axioms;
        proof {
            use_type_invariant(self);
        }
        match key {
            CacheKey::Path(p) => match self.position(p) {
                Some(i) => {
                    let img = self.paths[i].1.clone();
                    proof {
                        let c = choose|j: int| 0 <= j < self@.paths.len() && (#[trigger] self@.paths[j]).0 == strings_view(p@);
                        assert(c == i as int);
                    }
                    Some(img)
                },
                None => None,
            },
            CacheKey::Content(h) => match self.by_bytes.get(h) {
                Some(img) => Some(img.clone()),
                None => None,
            },
        }
    }

    /// Whether an image is cached for the file `path`.
    pub fn contains(&self, path: &str) -> (r: bool)
        ensures
            r == has_key(self@.paths, path_components(path@)),
    {
        let key = path_components_of(path);
        self.position(&key).is_some()
    }

    /// Offers `decoded` (the outcome of decoding the source keyed `key`) to
    /// the cache: what is already cached under `key` wins; otherwise a
    /// decoded image is kept and returned, and a failed decode caches
    /// nothing.
    pub fn insert_decoded(&mut self, key: CacheKey, decoded: Option<DecodedImage>) -> (r: Option<DecodedImage>)
        ensures
            (final(self)@, opt_image_view(r)) == store_key(old(self)@, key@, opt_image_view(decoded)),
    {
        broadcast use vstd::std_specs::hash::group_hash_axioms;
        proof {
            use_type_invariant(&*self);
        }
        match key {
            CacheKey::Path(p) => match self.position(&p) {
                Some(i) => {
                    let img = self.paths[i].1.clone();
                    proof {
                        let c = choose|j: int| 0 <= j < self@.paths.len() && (#[trigger] self@.paths[j]).0 == strings_view(p@);
                        assert(c == i as int);
                    }
                    Some(img)
                },
                None => match decoded {
                    Some(img) => {
                        let out = img.clone();
                        let ghost before = self@.paths;
                        let ghost pv = strings_view(p@);
                        let mut es: Vec<(Vec<String>, DecodedImage)> = Vec::new();
                        std::mem::swap(&mut es, &mut self.paths);
                        es.push((p, img));
                        proof {
                            let s = es@.map_values(|e: (Vec<String>, DecodedImage)| (strings_view(e.0@), e.1@));
                            assert(s =~= before.push((pv, out@)));
                            assert forall|a: int, b: int| 0 <= a < b < s.len() implies (#[trigger] s[a]).0 != (#[trigger] s[b]).0 by {
                                if b == s.len() - 1 {
                                    assert(s[a] == before[a]);
                                }
                            }
                        }
                        self.paths = es;
                        proof {
                            assert(self@.paths =~= before.push((pv, out@)));
                        }
                        Some(out)
                    },
                    None => None,
                },
            },
            CacheKey::Content(h) => {
                if let Some(img) = self.by_bytes.get(&h) {
                    return Some(img.clone());
                }
                match decoded {
                    Some(img) => {
                        let out = img.clone();
                        let ghost before = self@.bytes;
                        let mut m: HashMap<u64, DecodedImage> = HashMap::new();
                        std::mem::swap(&mut m, &mut self.by_bytes);
                        m.insert(h, img);
                        self.by_bytes = m;
                        proof {
                            assert(self@.bytes =~= before.insert(h, out@));
                        }
                        Some(out)
                    },
                    None => None,
                }
            },
        }
    }

    /// The image for encoded PNG `bytes`, decoded on first request and
    /// cached under their content hash; `None` if they do not decode (and
    /// then nothing is cached).
    pub fn get_or_decode_bytes(&mut self, bytes: &[u8]) -> (r: Option<DecodedImage>)
        ensures
            (final(self)@, opt_image_view(r)) == store_key(
                old(self)@,
                KeyV::Content(content_hash_spec(bytes@)),
                png_decoding(bytes@),
            ),
    {
        let key = CacheKey::Content(content_hash(bytes));
        if let Some(img) = self.cached(&key) {
            return Some(img);
        }
        let decoded = decode_png(bytes);
        self.insert_decoded(key, decoded)
    }

    /// The image for the file `path`, whose contents are `file_bytes`:
    /// served from the cache when the path is cached, else decoded from
    /// `file_bytes` and cached; `None` if they do not decode.
    pub fn get_or_load_from(&mut self, path: &str, file_bytes: &[u8]) -> (r: Option<DecodedImage>)
        ensures
            (final(self)@, opt_image_view(r)) == store_key(
                old(self)@,
                KeyV::Path(path_components(path@)),
                png_decoding(file_bytes@),
            ),
    {
        let key = CacheKey::path(path);
        if let Some(img) = self.cached(&key) {
            return Some(img);
        }
        let decoded = decode_png(file_bytes);
        self.insert_decoded(key, decoded)
    }
}

impl Default for ImageCache {
    fn default() -> (r: ImageCache)
        ensures
            r@ == empty_cache(),
    {
        ImageCache::new()
    }
}

/// Decoding is done once per key: once a key has an image, offering it
/// again, whatever the new decode gave, returns that same image and leaves
/// the cache as it is.
pub proof fn law_decode_once(c: CacheV, k: KeyV, first: Option<ImageV>, second: Option<ImageV>)
    requires
        keys_unique(c.paths),
        store_key(c, k, first).1 is Some,
    ensures
        store_key(store_key(c, k, first).0, k, second) == store_key(c, k, first),
{
    match k {
        KeyV::Path(p) => {
            let s = c.paths;
            let s1 = store(s, p, first).0;
            match lookup(s, p) {
                Some(img) => {},
                None => {
                    assert(s1[s.len() as int].0 == p);
                    assert(has_key(s1, p));
                    let i = choose|j: int| 0 <= j < s1.len() && (#[trigger] s1[j]).0 == p;
                    if i < s.len() {
                        assert(s1[i] == s[i]);
                        assert(has_key(s, p));
                    }
                    assert(i == s.len() as int);
                },
            }
        },
        KeyV::Content(h) => {},
    }
}

/// A failed decode never adds an entry: the cache is unchanged and nothing
/// is returned unless the key was already cached.
pub proof fn law_failed_decode_caches_nothing(c: CacheV, k: KeyV)
    ensures
        store_key(c, k, None).0 == c,
        store_key(c, k, None).1 == lookup_key(c, k),
{
}

/// A call that changes an image cache: `get_or_load_from` for a path whose
/// bytes decode to the given outcome, `get_or_decode_bytes` for bytes with
/// the given decode outcome, or `clear`.
pub enum CacheCall {
    Load(Seq<char>, Option<ImageV>),
    DecodeBytes(Seq<u8>, Option<ImageV>),
    Clear,
}

/// The cache after `call`.
pub open spec fn after_call(c: CacheV, call: CacheCall) -> CacheV {
    match call {
        CacheCall::Load(p, d) => store_key(c, KeyV::Path(path_components(p)), d).0,
        CacheCall::DecodeBytes(b, d) => store_key(c, KeyV::Content(content_hash_spec(b)), d).0,
        CacheCall::Clear => empty_cache(),
    }
}

/// A new cache after `calls`, in order.
pub open spec fn after_calls(calls: Seq<CacheCall>) -> CacheV
    decreases calls.len(),
{
    if calls.len() == 0 {
        empty_cache()
    } else {
        after_call(after_calls(calls.drop_last()), calls.last())
    }
}

/// `calls[i]` loaded a path equal to `p` (by components) and got an image.
pub open spec fn loaded_at(calls: Seq<CacheCall>, i: int, p: Seq<char>) -> bool {
    calls[i] matches CacheCall::Load(q, d) && d is Some && path_components(q) == path_components(p)
}

/// After any calls on a new cache, a path is cached exactly when some load
/// of an equal path got an image and no `clear` came after it; byte
/// sources never make a path cached.
pub proof fn law_contains_after_calls(calls: Seq<CacheCall>, p: Seq<char>)
    ensures
        has_key(after_calls(calls).paths, path_components(p)) <==> exists|i: int|
            0 <= i < calls.len() && #[trigger] loaded_at(calls, i, p) && forall|j: int|
                i < j < calls.len() ==> !(#[trigger] calls[j] is Clear),
    decreases calls.len(),
{
    let k = path_components(p);
    if calls.len() > 0 {
        let before = calls.drop_last();
        let n = calls.len() - 1;
        law_contains_after_calls(before, p);
        let s = after_calls(before).paths;
        assert forall|i: int| 0 <= i < n implies (#[trigger] loaded_at(calls, i, p)) == loaded_at(before, i, p) by {
            assert(calls[i] == before[i]);
        }
        match calls.last() {
            CacheCall::Clear => {
                assert(!has_key(Seq::<(Seq<Seq<char>>, ImageV)>::empty(), k));
                if exists|i: int| 0 <= i < calls.len() && #[trigger] loaded_at(calls, i, p) && forall|j: int|
                    i < j < calls.len() ==> !(#[trigger] calls[j] is Clear) {
                    let i = choose|i: int| 0 <= i < calls.len() && #[trigger] loaded_at(calls, i, p) && forall|j: int|
                        i < j < calls.len() ==> !(#[trigger] calls[j] is Clear);
                    assert(calls[n] is Clear);
                }
            },
            CacheCall::Load(q, d) => {
                let kq = path_components(q);
                lemma_store_keys(s, kq, d, k);
                if has_key(after_calls(calls).paths, k) {
                    if kq == k && d is Some {
                        assert(loaded_at(calls, n, p));
                    } else {
                        let i = choose|i: int| 0 <= i < before.len() && #[trigger] loaded_at(before, i, p) && forall|j: int|
                            i < j < before.len() ==> !(#[trigger] before[j] is Clear);
                        assert(loaded_at(calls, i, p));
                        assert forall|j: int| i < j < calls.len() implies !(#[trigger] calls[j] is Clear) by {
                            if j < n {
                                assert(calls[j] == before[j]);
                            }
                        }
                    }
                } else {
                    if exists|i: int| 0 <= i < calls.len() && #[trigger] loaded_at(calls, i, p) && forall|j: int|
                        i < j < calls.len() ==> !(#[trigger] calls[j] is Clear) {
                        let i = choose|i: int| 0 <= i < calls.len() && #[trigger] loaded_at(calls, i, p) && forall|j: int|
                            i < j < calls.len() ==> !(#[trigger] calls[j] is Clear);
                        if i < n {
                            assert(loaded_at(before, i, p));
                            assert forall|j: int| i < j < before.len() implies !(#[trigger] before[j] is Clear) by {
                                assert(calls[j] == before[j]);
                            }
                        }
                    }
                }
            },
            CacheCall::DecodeBytes(b, d) => {
                assert(after_calls(calls).paths == s);
                assert(!loaded_at(calls, n, p));
                if has_key(s, k) {
                    let i = choose|i: int| 0 <= i < before.len() && #[trigger] loaded_at(before, i, p) && forall|j: int|
                        i < j < before.len() ==> !(#[trigger] before[j] is Clear);
                    assert(loaded_at(calls, i, p));
                    assert forall|j: int| i < j < calls.len() implies !(#[trigger] calls[j] is Clear) by {
                        if j < n {
                            assert(calls[j] == before[j]);
                        }
                    }
                } else {
                    if exists|i: int| 0 <= i < calls.len() && #[trigger] loaded_at(calls, i, p) && forall|j: int|
                        i < j < calls.len() ==> !(#[trigger] calls[j] is Clear) {
                        let i = choose|i: int| 0 <= i < calls.len() && #[trigger] loaded_at(calls, i, p) && forall|j: int|
                            i < j < calls.len() ==> !(#[trigger] calls[j] is Clear);
                        assert(loaded_at(before, i, p));
                        assert forall|j: int| i < j < before.len() implies !(#[trigger] before[j] is Clear) by {
                            assert(calls[j] == before[j]);
                        }
                    }
                }
            },
        }
    }
}

/// The keys after offering `d` under `k`: those before, and `k` too when
/// something was cached or decoded for it.
proof fn lemma_store_keys<K>(s: Seq<(K, ImageV)>, k: K, d: Option<ImageV>, u: K)
    ensures
        has_key(store(s, k, d).0, u) == (has_key(s, u) || (u == k && d is Some)),
{
    if has_key(s, k) {
        assert(lookup(s, k) is Some);
    } else if d is Some {
        let s2 = s.push((k, d->0));
        assert(s2[s.len() as int].0 == k);
        if has_key(s2, u) {
            let i = choose|i: int| 0 <= i < s2.len() && (#[trigger] s2[i]).0 == u;
            if i < s.len() {
                assert(s2[i] == s[i]);
            }
        }
        if has_key(s, u) {
            let i = choose|i: int| 0 <= i < s.len() && (#[trigger] s[i]).0 == u;
            assert(s2[i] == s[i]);
        }
    }
}

} // verus!
