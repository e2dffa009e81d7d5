//! The preview pipeline: a single-flight, replaceable loading slot with a
//! timeout, an unbounded cache keyed by absolute path, one-time capability
//! probes for the optional extraction backends, and the decode-and-downscale
//! post-processing shared by every backend.

use vstd::prelude::*;
use vstd::string::*;
use crate::text::{lower_of, lowercase};

verus! {

/// Milliseconds an in-flight extraction may run before the slot gives up.
pub const PREVIEW_TIMEOUT_MS: u64 = 10000;

/// Largest thumbnail dimension: anything bigger is scaled down so its
/// larger side is exactly this many pixels.
pub const MAX_PREVIEW_DIM: u32 = 400;

/// A decoded thumbnail: a flat RGBA buffer of `width * height` pixels.
pub struct PreviewImage {
    pub pixels: Vec<u8>,
    pub width: usize,
    pub height: usize,
}

impl PreviewImage {
    /// Four bytes per pixel.
    pub open spec fn wf(self) -> bool {
        self.pixels@.len() == 4 * self.width * self.height
    }
}

/// The one loading slot: empty, or holding the single in-flight request.
pub enum PreviewSlot {
    Idle,
    Loading { path: String, start_ms: u64 },
}

/// The slot is loading exactly this path.
pub open spec fn slot_loading(slot: PreviewSlot, path: Seq<char>) -> bool {
    slot matches PreviewSlot::Loading { path: p, .. } && p@ == path
}

/// The cache holds an entry for this path.
pub open spec fn cache_has(c: Seq<(String, PreviewImage)>, path: Seq<char>) -> bool {
    exists|k: int| 0 <= k < c.len() && c[k].0@ == path
}

/// The image the cache holds for this path: the first matching entry.
pub open spec fn cache_get(c: Seq<(String, PreviewImage)>, path: Seq<char>) -> Option<PreviewImage>
    decreases c.len(),
{
    if c.len() == 0 {
        None
    } else if c[0].0@ == path {
        Some(c[0].1)
    } else {
        cache_get(c.drop_first(), path)
    }
}

/// The per-process preview state: at most one extraction in flight, its
/// results cached per path until the next full re-scan.
pub struct PreviewPipeline {
    pub cache: Vec<(String, PreviewImage)>,
    pub slot: PreviewSlot,
}

impl PreviewPipeline {
    /// No entry is cached for a path the slot is still loading, and every
    /// cached image is well formed.
    pub open spec fn wf(self) -> bool {
        &&& (self.slot matches PreviewSlot::Loading { path: p, .. } ==> !cache_has(
            self.cache@,
            p@,
        ))
        &&& forall|k: int| 0 <= k < self.cache@.len() ==> (#[trigger] self.cache@[k].1).wf()
    }

    pub fn new() -> (p: PreviewPipeline)
        ensures
            p.cache@ =~= Seq::<(String, PreviewImage)>::empty(),
            p.slot is Idle,
            p.wf(),
    {
        PreviewPipeline { cache: Vec::new(), slot: PreviewSlot::Idle }
    }

    /// Whether a thumbnail for this path is already cached.
    pub fn cached(&self, path: &String) -> (r: bool)
        ensures
            r == cache_has(self.cache@, path@),
    {
        let n = self.cache.len();
        let mut i: usize = 0;
        while i < n
            invariant
                n == self.cache@.len(),
                i <= n,
                forall|k: int| 0 <= k < i ==> self.cache@[k].0@ != path@,
            decreases n - i,
        {
            if self.cache[i].0.eq(path) {
                return true;
            }
            i = i + 1;
        }
        false
    }

    /// The cached thumbnail for this path, if any.
    pub fn get(&self, path: &String) -> (r: Option<&PreviewImage>)
        ensures
            match r {
                Some(img) => cache_get(self.cache@, path@) == Some(*img),
                None => cache_get(self.cache@, path@) is None,
            },
    {
        let n = self.cache.len();
        let mut i: usize = 0;
        proof {
            assert(self.cache@.skip(0) =~= self.cache@);
        }
        while i < n
            invariant
                n == self.cache@.len(),
                i <= n,
                cache_get(self.cache@, path@) == cache_get(self.cache@.skip(i as int), path@),
            decreases n - i,
        {
            proof {
                assert(self.cache@.skip(i as int)[0] == self.cache@[i as int]);
                assert(self.cache@.skip(i as int).drop_first() =~= self.cache@.skip(i + 1));
            }
            if self.cache[i].0.eq(path) {
                return Some(&self.cache[i].1);
            }
            i = i + 1;
        }
        None
    }

    /// Asks for a preview of `path`. Nothing happens — no new extraction —
    /// when the path is already cached, when this very path is already
    /// loading, or when the backend the file needs is not ready. Otherwise
    /// the slot is replaced: any previous in-flight load is abandoned, and
    /// the caller must start one extraction for `path`, which began now.
    pub fn request(&mut self, path: &String, backend_ready: bool, now_ms: u64) -> (started: bool)
        requires
            old(self).wf(),
        ensures
            final(self).wf(),
            final(self).cache@ == old(self).cache@,
            started == (!cache_has(old(self).cache@, path@) && !slot_loading(old(self).slot, path@)
                && backend_ready),
            !started ==> final(self).slot == old(self).slot,
            started ==> (final(self).slot matches PreviewSlot::Loading { path: p, start_ms: t }
                && p == *path && t == now_ms),
    {
        if self.cached(path) {
            return false;
        }
        let already = match &self.slot {
            PreviewSlot::Loading { path: p, .. } => p.eq(path),
            PreviewSlot::Idle => false,
        };
        if already {
            return false;
        }
        if !backend_ready {
            return false;
        }
        self.slot = PreviewSlot::Loading { path: path.clone(), start_ms: now_ms };
        true
    }

    /// Times the slot out: when the in-flight load has been running longer
    /// than the timeout window, the slot returns to idle — the cache is
    /// never populated — and a result arriving later will be discarded.
    pub fn tick(&mut self, now_ms: u64) -> (timed_out: bool)
        requires
            old(self).wf(),
        ensures
            final(self).wf(),
            final(self).cache@ == old(self).cache@,
            timed_out == (old(self).slot matches PreviewSlot::Loading { start_ms: t, .. }
                && now_ms >= t && now_ms - t > PREVIEW_TIMEOUT_MS),
            timed_out ==> final(self).slot is Idle,
            !timed_out ==> final(self).slot == old(self).slot,
    {
        let expired = match &self.slot {
            PreviewSlot::Loading { start_ms, .. } => now_ms >= *start_ms && now_ms - *start_ms
                > PREVIEW_TIMEOUT_MS,
            PreviewSlot::Idle => false,
        };
        if expired {
            self.slot = PreviewSlot::Idle;
        }
        expired
    }

    /// Takes one finished extraction. The result is accepted only when the
    /// slot still waits for exactly this path; then it enters the cache and
    /// the slot goes idle. A late result for any other path is discarded.
    pub fn deliver(&mut self, path: String, image: PreviewImage) -> (accepted: bool)
        requires
            old(self).wf(),
            image.wf(),
        ensures
            final(self).wf(),
            accepted == slot_loading(old(self).slot, path@),
            accepted ==> final(self).cache@ == old(self).cache@.push((path, image))
                && final(self).slot is Idle,
            !accepted ==> *final(self) == *old(self),
            accepted ==> cache_has(final(self).cache@, path@),
    {
        let matches_slot = match &self.slot {
            PreviewSlot::Loading { path: p, .. } => p.eq(&path),
            PreviewSlot::Idle => false,
        };
        if !matches_slot {
            return false;
        }
        let ghost c0 = self.cache@;
        self.cache.push((path, image));
        self.slot = PreviewSlot::Idle;
        proof {
            assert(self.cache@[c0.len() as int].0@ == path@);
            assert forall|k: int| 0 <= k < self.cache@.len() implies (#[trigger] self.cache@[k].1).wf() by {
                if k < c0.len() {
                    assert(self.cache@[k] == c0[k]);
                }
            }
        }
        true
    }

    /// How long the current load has been running, in whole seconds.
    pub fn loading_elapsed_secs(&self, now_ms: u64) -> (r: Option<u64>)
        ensures
            r == (match self.slot {
                PreviewSlot::Loading { start_ms: t, .. } => if now_ms >= t {
                    Some((((now_ms - t) as u64) / 1000) as u64)
                } else {
                    Some(0u64)
                },
                PreviewSlot::Idle => None::<u64>,
            }),
    {
        match &self.slot {
            PreviewSlot::Loading { start_ms, .. } => {
                if now_ms >= *start_ms {
                    Some((now_ms - *start_ms) / 1000)
                } else {
                    Some(0)
                }
            },
            PreviewSlot::Idle => None,
        }
    }

    /// Drops every cached thumbnail; a re-scan may have invalidated them.
    pub fn clear_cache(&mut self)
        requires
            old(self).wf(),
        ensures
            final(self).wf(),
            final(self).cache@ =~= Seq::<(String, PreviewImage)>::empty(),
            final(self).slot == old(self).slot,
    {
        self.cache = Vec::new();
    }
}

/// One optional extraction backend's availability: probed once at startup,
/// and possibly fetched in the background after a failed probe.
#[derive(Clone, Copy, PartialEq, Eq, Structural, Debug)]
pub enum Capability {
    Unknown,
    Ready,
    NotReady,
    Fetching,
}

impl Capability {
    pub fn new() -> (c: Capability)
        ensures
            c is Unknown,
    {
        Capability::Unknown
    }

    /// Records the one-time probe result. Once resolved, later probes
    /// change nothing: the flag is write-once.
    pub fn probe_once(&mut self, ok: bool)
        ensures
            *old(self) is Unknown ==> *final(self) == (if ok {
                Capability::Ready
            } else {
                Capability::NotReady
            }),
            !(*old(self) is Unknown) ==> *final(self) == *old(self),
    {
        if let Capability::Unknown = self {
            *self = if ok {
                Capability::Ready
            } else {
                Capability::NotReady
            };
        }
    }

    /// Marks the backend as being fetched; only a missing backend can
    /// start a fetch.
    pub fn begin_fetch(&mut self)
        ensures
            *old(self) is NotReady ==> *final(self) == Capability::Fetching,
            !(*old(self) is NotReady) ==> *final(self) == *old(self),
    {
        if let Capability::NotReady = self {
            *self = Capability::Fetching;
        }
    }

    /// Records the end of a fetch: the backend becomes ready without a
    /// restart, or stays missing.
    pub fn fetch_done(&mut self, ok: bool)
        ensures
            *old(self) is Fetching ==> *final(self) == (if ok {
                Capability::Ready
            } else {
                Capability::NotReady
            }),
            !(*old(self) is Fetching) ==> *final(self) == *old(self),
    {
        if let Capability::Fetching = self {
            *self = if ok {
                Capability::Ready
            } else {
                Capability::NotReady
            };
        }
    }

    pub fn is_ready(&self) -> (r: bool)
        ensures
            r == (*self is Ready),
    {
        matches!(self, Capability::Ready)
    }

    pub fn is_fetching(&self) -> (r: bool)
        ensures
            r == (*self is Fetching),
    {
        matches!(self, Capability::Fetching)
    }
}

/// Extensions decoded directly as images.
pub open spec fn is_image_ext(ext: Seq<char>) -> bool {
    let l = lower_of(ext);
    ||| l == "jpg"@
    ||| l == "jpeg"@
    ||| l == "png"@
    ||| l == "gif"@
    ||| l == "bmp"@
    ||| l == "ico"@
    ||| l == "webp"@
}

/// Extensions handed to the video-frame backend.
pub open spec fn is_video_ext(ext: Seq<char>) -> bool {
    let l = lower_of(ext);
    ||| l == "mp4"@
    ||| l == "avi"@
    ||| l == "mkv"@
    ||| l == "mov"@
    ||| l == "wmv"@
    ||| l == "flv"@
    ||| l == "webm"@
    ||| l == "m4v"@
    ||| l == "mpeg"@
    ||| l == "mpg"@
    ||| l == "3gp"@
}

/// The extension handed to the PDF backend.
pub open spec fn is_pdf_ext(ext: Seq<char>) -> bool {
    lower_of(ext) == "pdf"@
}

fn ext_matches(lowered: &String, lit: &str) -> (r: bool)
    ensures
        r == (lowered@ == lit@),
{
    lowered.eq(&lit.to_owned())
}

/// Whether the extension names an image type.
pub fn is_image_file(extension: &str) -> (r: bool)
    ensures
        r == is_image_ext(extension@),
{
    let l = lowercase(extension);
    ext_matches(&l, "jpg") || ext_matches(&l, "jpeg") || ext_matches(&l, "png") || ext_matches(
        &l,
        "gif",
    ) || ext_matches(&l, "bmp") || ext_matches(&l, "ico") || ext_matches(&l, "webp")
}

/// Whether the extension names a video type.
pub fn is_video_file(extension: &str) -> (r: bool)
    ensures
        r == is_video_ext(extension@),
{
    let l = lowercase(extension);
    ext_matches(&l, "mp4") || ext_matches(&l, "avi") || ext_matches(&l, "mkv") || ext_matches(
        &l,
        "mov",
    ) || ext_matches(&l, "wmv") || ext_matches(&l, "flv") || ext_matches(&l, "webm") || ext_matches(
        &l,
        "m4v",
    ) || ext_matches(&l, "mpeg") || ext_matches(&l, "mpg") || ext_matches(&l, "3gp")
}

/// Whether the extension names a PDF.
pub fn is_pdf_file(extension: &str) -> (r: bool)
    ensures
        r == is_pdf_ext(extension@),
{
    let l = lowercase(extension);
    ext_matches(&l, "pdf")
}

/// Whether a preview can be shown at all: image, video or PDF.
pub fn is_previewable(extension: &str) -> (r: bool)
    ensures
        r == (is_image_ext(extension@) || is_video_ext(extension@) || is_pdf_ext(extension@)),
{
    is_image_file(extension) || is_video_file(extension) || is_pdf_file(extension)
}

/// Which extraction backend a file needs.
#[derive(Clone, Copy, PartialEq, Eq, Structural, Debug)]
pub enum PreviewKind {
    Image,
    Video,
    Pdf,
}

/// The backend for an extension: the video and PDF lists are checked
/// first, everything else previewable decodes directly as an image.
pub open spec fn kind_of_ext(ext: Seq<char>) -> Option<PreviewKind> {
    if is_video_ext(ext) {
        Some(PreviewKind::Video)
    } else if is_pdf_ext(ext) {
        Some(PreviewKind::Pdf)
    } else if is_image_ext(ext) {
        Some(PreviewKind::Image)
    } else {
        None
    }
}

/// Classifies an extension by the backend its previews need.
pub fn classify_extension(extension: &str) -> (r: Option<PreviewKind>)
    ensures
        r == kind_of_ext(extension@),
{
    if is_video_file(extension) {
        Some(PreviewKind::Video)
    } else if is_pdf_file(extension) {
        Some(PreviewKind::Pdf)
    } else if is_image_file(extension) {
        Some(PreviewKind::Image)
    } else {
        None
    }
}

/// The seek offset, in seconds, of each attempt at grabbing a video frame:
/// first at one second in, then — when that yields no data — at the start.
pub fn video_seek_offset(attempt: u8) -> (r: Option<u64>)
    ensures
        attempt == 0 ==> r == Some(1u64),
        attempt == 1 ==> r == Some(0u64),
        attempt >= 2 ==> r is None,
{
    if attempt == 0 {
        Some(1)
    } else if attempt == 1 {
        Some(0)
    } else {
        None
    }
}

/// Whether these bytes decode as an image, a function of the bytes alone.
pub uninterp spec fn decode_ok(bytes: Seq<u8>) -> bool;

/// The width of the decoded image.
pub uninterp spec fn decode_w(bytes: Seq<u8>) -> u32;

/// The height of the decoded image.
pub uninterp spec fn decode_h(bytes: Seq<u8>) -> u32;

/// The decoded image's pixels as a flat RGBA buffer.
pub uninterp spec fn decode_rgba_of(bytes: Seq<u8>) -> Seq<u8>;

/// Relies on image::load_from_memory and DynamicImage::to_rgba8: decoding
/// is a function of the bytes alone, and the RGBA buffer holds exactly
/// width * height pixels of four bytes.
#[verifier::external_body]
fn decode_rgba(bytes: &Vec<u8>) -> (r: Option<PreviewImage>)
    ensures
        r is Some == decode_ok(bytes@),
        r matches Some(p) ==> {
            &&& p.width == decode_w(bytes@) as usize
            &&& p.height == decode_h(bytes@) as usize
            &&& p.pixels@ == decode_rgba_of(bytes@)
            &&& p.wf()
        },
{
    match image::load_from_memory(bytes) {
        Ok(img) => {
            let buf = img.to_rgba8();
            let width = buf.width() as usize;
            let height = buf.height() as usize;
            Some(PreviewImage { pixels: buf.into_raw(), width, height })
        },
        Err(_) => None,
    }
}

/// The RGBA pixels of an image resampled to the target dimensions.
pub uninterp spec fn resized_rgba(
    pixels: Seq<u8>,
    w: u32,
    h: u32,
    tw: u32,
    th: u32,
) -> Seq<u8>;

/// Relies on image::imageops::resize with the triangle filter: the result
/// is a buffer of exactly the target dimensions, a function of the input
/// pixels and the dimensions alone.
#[verifier::external_body]
fn resize_rgba(img: &PreviewImage, tw: u32, th: u32) -> (r: PreviewImage)
    requires
        img.wf(),
        img.width == img.width as u32 as usize,
        img.height == img.height as u32 as usize,
        tw > 0,
        th > 0,
    ensures
        r.width == tw as usize,
        r.height == th as usize,
        r.pixels@ == resized_rgba(
            img.pixels@,
            img.width as u32,
            img.height as u32,
            tw,
            th,
        ),
        r.wf(),
{
    let buf: image::RgbaImage = image::ImageBuffer::from_raw(
        img.width as u32,
        img.height as u32,
        img.pixels.clone(),
    ).unwrap();
    let out = image::imageops::resize(&buf, tw, th, image::imageops::FilterType::Triangle);
    PreviewImage { pixels: out.into_raw(), width: tw as usize, height: th as usize }
}

/// The thumbnail dimensions for a decoded image: unchanged when both sides
/// fit the cap, otherwise scaled down preserving the aspect ratio so the
/// larger side is exactly the cap. Never upscales; a degenerate ratio
/// still keeps a one-pixel strip.
pub open spec fn thumb_dims(w: u32, h: u32) -> (u32, u32) {
    if w <= MAX_PREVIEW_DIM && h <= MAX_PREVIEW_DIM {
        (w, h)
    } else if w >= h {
        let d = ((h as int) * (MAX_PREVIEW_DIM as int)) / (w as int);
        (MAX_PREVIEW_DIM, if d == 0 {
            1u32
        } else {
            d as u32
        })
    } else {
        let d = ((w as int) * (MAX_PREVIEW_DIM as int)) / (h as int);
        (if d == 0 {
            1u32
        } else {
            d as u32
        }, MAX_PREVIEW_DIM)
    }
}

/// Decodes extracted bytes and downscales the result for display: `None`
/// exactly when the bytes do not decode; otherwise the decoded image,
/// resampled only when one dimension exceeds the cap.
pub fn make_thumbnail(bytes: &Vec<u8>) -> (r: Option<PreviewImage>)
    ensures
        r is Some == decode_ok(bytes@),
        r matches Some(p) ==> {
            let w = decode_w(bytes@);
            let h = decode_h(bytes@);
            let (tw, th) = thumb_dims(w, h);
            &&& p.wf()
            &&& p.width == tw as usize && p.height == th as usize
            &&& (w <= MAX_PREVIEW_DIM && h <= MAX_PREVIEW_DIM ==> p.pixels@ == decode_rgba_of(
                bytes@,
            ))
            &&& (!(w <= MAX_PREVIEW_DIM && h <= MAX_PREVIEW_DIM) ==> p.pixels@ == resized_rgba(
                decode_rgba_of(bytes@),
                w,
                h,
                tw,
                th,
            ))
        },
{
    let decoded = match decode_rgba(bytes) {
        Some(p) => p,
        None => {
            return None;
        },
    };
    let w: u32 = decoded.width as u32;
    let h: u32 = decoded.height as u32;
    if w <= MAX_PREVIEW_DIM && h <= MAX_PREVIEW_DIM {
        Some(decoded)
    } else if w >= h {
        // w > MAX_PREVIEW_DIM here, so the division is by a positive
        // number, and the quotient is at most h.
        let th64: u64 = (h as u64) * (MAX_PREVIEW_DIM as u64) / (w as u64);
        proof {
            assert((h as int) * (MAX_PREVIEW_DIM as int) / (w as int) <= h) by (nonlinear_arith)
                requires
                    0 < MAX_PREVIEW_DIM <= w,
                    0 <= h,
            ;
        }
        let th: u32 = if th64 == 0 {
            1
        } else {
            th64 as u32
        };
        Some(resize_rgba(&decoded, MAX_PREVIEW_DIM, th))
    } else {
        let tw64: u64 = (w as u64) * (MAX_PREVIEW_DIM as u64) / (h as u64);
        proof {
            assert((w as int) * (MAX_PREVIEW_DIM as int) / (h as int) <= w) by (nonlinear_arith)
                requires
                    0 < MAX_PREVIEW_DIM <= h,
                    0 <= w,
            ;
        }
        let tw: u32 = if tw64 == 0 {
            1
        } else {
            tw64 as u32
        };
        Some(resize_rgba(&decoded, tw, MAX_PREVIEW_DIM))
    }
}

} // verus!
