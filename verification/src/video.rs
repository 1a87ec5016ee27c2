//! The record model: one history entry, its downloadable variants, and the
//! runtime wrapper that pairs a persisted entry with its assigned row id.

use vstd::prelude::*;

verus! {

/// One logical history entry: the metadata of a video the user processed.
///
/// Duration, and every dimension of a variant, are kept string-encoded and
/// verbatim because the source may supply non-numeric placeholder tokens.
#[derive(Debug)]
pub struct VideoInfo {
    pub video_id: String,
    pub title: String,
    pub author: String,
    pub duration_seconds: String,
    pub thumbnail: Option<String>,
    pub video_formats: Vec<VideoFormat>,
    pub audio_available: bool,
}

/// One downloadable rendition of a [`VideoInfo`]. It has no identity of its
/// own visible to callers: it is owned entirely by its parent entry.
#[derive(Debug)]
pub struct VideoFormat {
    pub container: String,
    pub width: String,
    pub height: String,
    pub fps: String,
}

/// Field-for-field agreement of two variants, comparing the text of each
/// field. Spec-level counterpart of `VideoFormat::eq`.
pub open spec fn format_like(a: VideoFormat, b: VideoFormat) -> bool {
    &&& a.container@ == b.container@
    &&& a.width@ == b.width@
    &&& a.height@ == b.height@
    &&& a.fps@ == b.fps@
}

/// Field-for-field agreement of two history entries, variants included and
/// in order. Spec-level counterpart of `VideoInfo::eq`.
pub open spec fn info_like(a: VideoInfo, b: VideoInfo) -> bool {
    &&& a.video_id@ == b.video_id@
    &&& a.title@ == b.title@
    &&& a.author@ == b.author@
    &&& a.duration_seconds@ == b.duration_seconds@
    &&& match (a.thumbnail, b.thumbnail) {
        (Option::Some(x), Option::Some(y)) => x@ == y@,
        (Option::None, Option::None) => true,
        _ => false,
    }
    &&& a.video_formats@.len() == b.video_formats@.len()
    &&& forall|i: int|
        0 <= i < a.video_formats@.len() ==> format_like(
            #[trigger] a.video_formats@[i],
            b.video_formats@[i],
        )
    &&& a.audio_available == b.audio_available
}

impl PartialEq for VideoFormat {
    fn eq(&self, other: &Self) -> (r: bool) {
        self.container == other.container && self.width == other.width && self.height
            == other.height && self.fps == other.fps
    }
}

impl vstd::std_specs::cmp::PartialEqSpecImpl for VideoFormat {
    open spec fn obeys_eq_spec() -> bool {
        true
    }

    open spec fn eq_spec(&self, other: &Self) -> bool {
        format_like(*self, *other)
    }
}

impl PartialEq for VideoInfo {
    fn eq(&self, other: &Self) -> (r: bool) {
        if self.video_formats.len() != other.video_formats.len() {
            return false;
        }
        let mut i: usize = 0;
        while i < self.video_formats.len()
            invariant
                i <= self.video_formats@.len(),
                self.video_formats@.len() == other.video_formats@.len(),
                forall|j: int|
                    0 <= j < i ==> format_like(
                        #[trigger] self.video_formats@[j],
                        other.video_formats@[j],
                    ),
            decreases self.video_formats@.len() - i,
        {
            if !(self.video_formats[i] == other.video_formats[i]) {
                return false;
            }
            i += 1;
        }
        let thumbnails_agree = match (&self.thumbnail, &other.thumbnail) {
            (Option::Some(x), Option::Some(y)) => *x == *y,
            (Option::None, Option::None) => true,
            _ => false,
        };
        self.video_id == other.video_id && self.title == other.title && self.author == other.author
            && self.duration_seconds == other.duration_seconds && thumbnails_agree
            && self.audio_available == other.audio_available
    }
}

impl vstd::std_specs::cmp::PartialEqSpecImpl for VideoInfo {
    open spec fn obeys_eq_spec() -> bool {
        true
    }

    open spec fn eq_spec(&self, other: &Self) -> bool {
        info_like(*self, *other)
    }
}

/// An exact copy of a variant: every field of the result is equal, as a
/// value, to the corresponding field of the argument.
pub fn copy_format(f: &VideoFormat) -> (r: VideoFormat)
    ensures
        r == *f,
{
    VideoFormat {
        container: f.container.clone(),
        width: f.width.clone(),
        height: f.height.clone(),
        fps: f.fps.clone(),
    }
}

/// An exact copy of an optional thumbnail reference.
pub fn copy_thumbnail(t: &Option<String>) -> (r: Option<String>)
    ensures
        r == *t,
{
    match t {
        Option::Some(s) => Option::Some(s.clone()),
        Option::None => Option::None,
    }
}

/// An exact copy of a history entry, variants included and in order.
pub fn copy_info(v: &VideoInfo) -> (r: VideoInfo)
    ensures
        r.video_id == v.video_id,
        r.title == v.title,
        r.author == v.author,
        r.duration_seconds == v.duration_seconds,
        r.thumbnail == v.thumbnail,
        r.video_formats@ == v.video_formats@,
        r.audio_available == v.audio_available,
{
    let mut formats: Vec<VideoFormat> = Vec::new();
    let mut i: usize = 0;
    while i < v.video_formats.len()
        invariant
            i <= v.video_formats@.len(),
            formats@ == v.video_formats@.take(i as int),
        decreases v.video_formats@.len() - i,
    {
        formats.push(copy_format(&v.video_formats[i]));
        proof {
            assert(formats@ =~= v.video_formats@.take(i + 1));
        }
        i += 1;
    }
    proof {
        assert(formats@ =~= v.video_formats@);
    }
    VideoInfo {
        video_id: v.video_id.clone(),
        title: v.title.clone(),
        author: v.author.clone(),
        duration_seconds: v.duration_seconds.clone(),
        thumbnail: copy_thumbnail(&v.thumbnail),
        video_formats: formats,
        audio_available: v.audio_available,
    }
}

/// The runtime wrapper around a persisted entry: the entry together with the
/// row id the store assigned to it, plus two pieces of bookkeeping that are
/// never persisted (a byte-size hint and the in-progress download marker).
#[derive(Debug)]
pub struct ManagedVideo {
    id: i32,
    video_info: VideoInfo,
    content_size: Option<u64>,
    downloading: bool,
}

impl ManagedVideo {
    /// The row id this wrapper was built from.
    pub closed spec fn spec_id(&self) -> i32 {
        self.id
    }

    /// The wrapped history entry.
    pub closed spec fn spec_info(&self) -> VideoInfo {
        self.video_info
    }

    /// The transient byte-size hint; never persisted.
    pub closed spec fn spec_content_size(&self) -> Option<u64> {
        self.content_size
    }

    /// The transient download-in-progress marker; never persisted.
    pub closed spec fn spec_downloading(&self) -> bool {
        self.downloading
    }

    /// Wrap a fetched or freshly inserted entry together with its row id.
    /// The transient fields start out empty and idle.
    pub fn new(id: i32, video_info: VideoInfo) -> (m: Self)
        ensures
            m.spec_id() == id,
            m.spec_info() == video_info,
            m.spec_content_size() is None,
            !m.spec_downloading(),
    {
        Self { id, video_info, content_size: Option::None, downloading: false }
    }

    /// The wrapped history entry.
    pub fn get_info(&self) -> (r: &VideoInfo)
        ensures
            *r == self.spec_info(),
    {
        &self.video_info
    }

    /// The row id this wrapper was built from.
    pub fn get_id(&self) -> (r: i32)
        ensures
            r == self.spec_id(),
    {
        self.id
    }
}

} // verus!
