//! The transcoding stage: one image is decoded, resampled to a target height
//! preserving aspect ratio, re-encoded, and replaced only if that made it
//! strictly smaller; a whole file set is walked and per-image outcomes are
//! aggregated into processed/skipped counts and a progress position.

use vstd::prelude::*;

use crate::fileset::views_of;
use crate::fileset::FileEntry;
use crate::kinds::SkipReason;
use crate::names::spec_is_image_name;
use crate::names::is_image_name;
use crate::names::spec_webp_name;
use crate::names::webp_name;
use crate::raster::decode_rgb;
use crate::raster::lanczos_rgb;
use crate::raster::resize_lanczos;
use crate::raster::rgb_decoding;
use crate::raster::webp_encode;
use crate::raster::webp_rgb;

verus! {

/// The resampled width: the target height times the aspect ratio, rounded to
/// the nearest integer.
pub open spec fn spec_new_width(w: u32, h: u32, th: u32) -> int {
    (th * w + h / 2) / (h as int)
}

/// Computes the resampled width.
pub fn new_width(w: u32, h: u32, th: u32) -> (r: u64)
    requires
        h >= 1,
    ensures
        r == spec_new_width(w, h, th),
{
    proof {
        assert((th as int) * (w as int) <= 0xffff_ffff * 0xffff_ffff) by (nonlinear_arith)
            requires
                th <= 0xffff_ffffu32,
                w <= 0xffff_ffffu32,
        ;
    }
    let p: u64 = (th as u64) * (w as u64);
    (p + (h as u64) / 2) / (h as u64)
}

/// Whether a decoded raster can be resampled for the given target height:
/// the rounded width must be a positive 32-bit value and the resampled
/// buffer must be addressable.
pub open spec fn dims_ok(w: u32, h: u32, th: u32) -> bool {
    &&& w >= 1
    &&& h >= 1
    &&& 1 <= spec_new_width(w, h, th) <= u32::MAX
    &&& 3 * spec_new_width(w, h, th) * th <= usize::MAX
}

/// Everything the single-image transcode promises, stated relationally over
/// views so the batch stage can carry it per entry: decode failure exactly
/// when the bytes decode to no raster; unusable dimensions exactly as
/// `dims_ok` says; on success the replaced entry's exact name, bytes and
/// strictly smaller size; on the not-smaller skip the exact size comparison;
/// and for a usable decodable image a two-way split in which only the
/// encoder's own failure (a resource error of the outside codec, not a
/// function of the pixels) may stand in for the pinned outcome.
pub open spec fn transcode_post(
    entry: (Seq<u8>, Seq<u8>),
    out: (Seq<u8>, Seq<u8>),
    oc: Result<(), SkipReason>,
    quality: u8,
    target_height: u32,
) -> bool {
    &&& (oc is Err ==> out == entry)
    &&& (oc == Err::<(), SkipReason>(SkipReason::DecodeFailed) <==> rgb_decoding(entry.1) is None)
    &&& (oc == Err::<(), SkipReason>(SkipReason::EncodeFailed) ==> rgb_decoding(entry.1) is Some)
    &&& (rgb_decoding(entry.1) matches Some((w, h, px)) && !dims_ok(w, h, target_height) ==> oc
        == Err::<(), SkipReason>(SkipReason::EncodeFailed))
    &&& (oc is Ok ==> (rgb_decoding(entry.1) matches Some((w, h, px)) && {
        let nw = spec_new_width(w, h, target_height) as u32;
        &&& dims_ok(w, h, target_height)
        &&& out.0 == spec_webp_name(entry.0)
        &&& out.1 == webp_rgb(nw, target_height, lanczos_rgb(w, h, px, nw, target_height), quality)
        &&& out.1.len() < entry.1.len()
    }))
    &&& (oc == Err::<(), SkipReason>(SkipReason::NotSmaller) ==> (rgb_decoding(entry.1)
        matches Some((w, h, px)) && {
        let nw = spec_new_width(w, h, target_height) as u32;
        &&& dims_ok(w, h, target_height)
        &&& webp_rgb(nw, target_height, lanczos_rgb(w, h, px, nw, target_height), quality).len()
            >= entry.1.len()
    }))
    &&& (rgb_decoding(entry.1) matches Some((w, h, px)) ==> dims_ok(w, h, target_height) ==> {
        let nw = spec_new_width(w, h, target_height) as u32;
        if webp_rgb(nw, target_height, lanczos_rgb(w, h, px, nw, target_height), quality).len()
            < entry.1.len() {
            oc is Ok || oc == Err::<(), SkipReason>(SkipReason::EncodeFailed)
        } else {
            oc == Err::<(), SkipReason>(SkipReason::NotSmaller) || oc == Err::<(), SkipReason>(
                SkipReason::EncodeFailed,
            )
        }
    })
}

/// Transcodes one image entry: decode, resample to the target height with
/// the width rounded from the aspect ratio, encode to the lossy target
/// codec, and replace the entry only if the encoding is strictly smaller
/// than the source.  A replaced entry takes the stem's codec name; on every
/// skip the entry comes back byte-identical.  `transcode_post` states the
/// full outcome split.
pub fn transcode_image(entry: FileEntry, quality: u8, target_height: u32) -> (r: (
    FileEntry,
    Result<(), SkipReason>,
))
    requires
        1 <= quality <= 100,
        target_height >= 1,
    ensures
        transcode_post(entry@, r.0@, r.1, quality, target_height),
{
    let decoded = match decode_rgb(&entry.data) {
        Ok(d) => d,
        Err(_) => {
            return (entry, Err(SkipReason::DecodeFailed));
        },
    };
    if decoded.width == 0 || decoded.height == 0 {
        return (entry, Err(SkipReason::EncodeFailed));
    }
    let nw64 = new_width(decoded.width, decoded.height, target_height);
    if nw64 < 1 || nw64 > 0xffff_ffffu64 {
        return (entry, Err(SkipReason::EncodeFailed));
    }
    let nw = nw64 as u32;
    proof {
        assert(3 * (nw as int) * (target_height as int) <= 3 * 0xffff_ffff * 0xffff_ffff)
            by (nonlinear_arith)
            requires
                nw <= 0xffff_ffffu32,
                target_height <= 0xffff_ffffu32,
        ;
    }
    let buf_len: u128 = 3u128 * (nw as u128) * (target_height as u128);
    if buf_len > usize::MAX as u128 {
        return (entry, Err(SkipReason::EncodeFailed));
    }
    let resized = resize_lanczos(&decoded, nw, target_height);
    let encoded = match webp_encode(&resized, quality) {
        Ok(b) => b,
        Err(_) => {
            return (entry, Err(SkipReason::EncodeFailed));
        },
    };
    if encoded.len() < entry.data.len() {
        let name = webp_name(&entry.name);
        (FileEntry { name, data: encoded }, Ok(()))
    } else {
        (entry, Err(SkipReason::NotSmaller))
    }
}

/// How many entries of a file list the transcoder picks up.
pub open spec fn image_count(s: Seq<(Seq<u8>, Seq<u8>)>) -> int
    decreases s.len(),
{
    if s.len() == 0 {
        0
    } else {
        image_count(s.drop_last()) + if spec_is_image_name(s.last().0) {
            1int
        } else {
            0int
        }
    }
}

/// There are no more image entries than entries.
pub proof fn lemma_image_count_bound(s: Seq<(Seq<u8>, Seq<u8>)>)
    ensures
        0 <= image_count(s) <= s.len(),
    decreases s.len(),
{
    if s.len() > 0 {
        lemma_image_count_bound(s.drop_last());
    }
}

/// A prefix holds no more image entries than the whole list.
pub proof fn lemma_image_count_take_le(s: Seq<(Seq<u8>, Seq<u8>)>, i: int)
    requires
        0 <= i <= s.len(),
    ensures
        image_count(s.take(i)) <= image_count(s),
    decreases s.len() - i,
{
    if i == s.len() {
        assert(s.take(i) =~= s);
    } else {
        assert(s.take(i + 1).drop_last() =~= s.take(i));
        assert(s.take(i + 1).last() == s[i]);
        lemma_image_count_take_le(s, i + 1);
    }
}

/// Counts the entries of a file set the transcoder picks up.
pub fn count_images(files: &Vec<FileEntry>) -> (n: usize)
    ensures
        n == image_count(views_of(files@)),
{
    let ghost all = views_of(files@);
    let mut n: usize = 0;
    let mut i: usize = 0;
    proof {
        assert(all.take(0) =~= Seq::<(Seq<u8>, Seq<u8>)>::empty());
    }
    while i < files.len()
        invariant
            i <= files@.len(),
            all == views_of(files@),
            n == image_count(all.take(i as int)),
        decreases files@.len() - i,
    {
        proof {
            lemma_image_count_bound(all.take(i as int));
            assert(all.take(i + 1).drop_last() =~= all.take(i as int));
            assert(all.take(i + 1).last() == all[i as int]);
            assert(all[i as int].0 == files@[i as int].name@);
        }
        if is_image_name(&files[i].name) {
            n = n + 1;
        }
        i = i + 1;
    }
    proof {
        assert(all.take(files@.len() as int) =~= all);
    }
    n
}

/// How one entry may come out of the transcoding stage: a non-image entry is
/// untouched; an image entry is either untouched (skipped) or replaced by a
/// strictly smaller entry under its stem's codec name (processed).
pub open spec fn transcoded_rel(a: (Seq<u8>, Seq<u8>), b: (Seq<u8>, Seq<u8>)) -> bool {
    if spec_is_image_name(a.0) {
        b == a || (b.0 == spec_webp_name(a.0) && b.1.len() < a.1.len())
    } else {
        b == a
    }
}

/// How many outcomes of a batch are successes.
pub open spec fn count_ok(oc: Seq<Option<Result<(), SkipReason>>>) -> int
    decreases oc.len(),
{
    if oc.len() == 0 {
        0
    } else {
        count_ok(oc.drop_last()) + if oc.last() matches Some(o) && o is Ok {
            1int
        } else {
            0int
        }
    }
}

/// How many outcomes of a batch are skips.
pub open spec fn count_skip(oc: Seq<Option<Result<(), SkipReason>>>) -> int
    decreases oc.len(),
{
    if oc.len() == 0 {
        0
    } else {
        count_skip(oc.drop_last()) + if oc.last() matches Some(o) && o is Err {
            1int
        } else {
            0int
        }
    }
}

/// Transcodes every image entry of a file set in order, leaving other
/// entries untouched, and counts outcomes.  The returned outcome list has
/// one `Some` per image entry — standing in the full per-image relation to
/// its input and output entries — and one `None` per untouched non-image
/// entry; the processed count is exactly the number of successes and the
/// skipped count exactly the number of skips, so the two sum to the number
/// of images.
pub fn transcode_all(files: Vec<FileEntry>, quality: u8, target_height: u32) -> (r: (
    Vec<FileEntry>,
    usize,
    usize,
    Ghost<Seq<Option<Result<(), SkipReason>>>>,
))
    requires
        1 <= quality <= 100,
        target_height >= 1,
    ensures
        r.0@.len() == files@.len(),
        r.3@.len() == files@.len(),
        r.1 + r.2 == image_count(views_of(files@)),
        r.1 == count_ok(r.3@),
        r.2 == count_skip(r.3@),
        forall|i: int|
            0 <= i < files@.len() ==> ((#[trigger] r.3@[i]) is Some <==> spec_is_image_name(
                views_of(files@)[i].0,
            )),
        forall|i: int|
            0 <= i < files@.len() ==> match #[trigger] r.3@[i] {
                Some(o) => transcode_post(
                    views_of(files@)[i],
                    views_of(r.0@)[i],
                    o,
                    quality,
                    target_height,
                ),
                None => views_of(r.0@)[i] == views_of(files@)[i],
            },
        forall|i: int|
            0 <= i < files@.len() ==> transcoded_rel(
                #[trigger] views_of(files@)[i],
                views_of(r.0@)[i],
            ),
{
    let total = count_images(&files);
    let mut rest = files;
    let mut out: Vec<FileEntry> = Vec::new();
    let mut agg = Aggregator::new(total);
    let count_all: usize = rest.len();
    let ghost orig = views_of(rest@);
    let ghost mut ocs: Seq<Option<Result<(), SkipReason>>> = Seq::empty();
    proof {
        assert(views_of(rest@) =~= orig.skip(0));
        assert(orig.take(0) =~= Seq::<(Seq<u8>, Seq<u8>)>::empty());
    }
    while rest.len() > 0
        invariant
            1 <= quality <= 100,
            target_height >= 1,
            orig.len() == count_all,
            out@.len() + rest@.len() == orig.len(),
            views_of(rest@) == orig.skip(out@.len() as int),
            agg.total == total,
            total == image_count(orig),
            agg.processed + agg.skipped == image_count(orig.take(out@.len() as int)),
            ocs.len() == out@.len(),
            agg.processed == count_ok(ocs),
            agg.skipped == count_skip(ocs),
            forall|k: int|
                0 <= k < out@.len() ==> ((#[trigger] ocs[k]) is Some <==> spec_is_image_name(
                    orig[k].0,
                )),
            forall|k: int|
                0 <= k < out@.len() ==> match #[trigger] ocs[k] {
                    Some(o) => transcode_post(orig[k], views_of(out@)[k], o, quality, target_height),
                    None => views_of(out@)[k] == orig[k],
                },
            forall|k: int|
                0 <= k < out@.len() ==> transcoded_rel(#[trigger] orig[k], views_of(out@)[k]),
        decreases rest@.len(),
    {
        let ghost i = out@.len() as int;
        let ghost rlist = rest@;
        let ghost rest0 = views_of(rest@);
        let e = rest.remove(0);
        proof {
            assert(views_of(rest@) =~= rest0.skip(1));
            assert(rest0.skip(1) =~= orig.skip(i + 1));
            assert(rest0[0] == rlist[0]@);
            assert(e@ == orig[i]);
            lemma_image_count_bound(orig.take(i));
            assert(orig.take(i + 1).drop_last() =~= orig.take(i));
            assert(orig.take(i + 1).last() == orig[i]);
        }
        if is_image_name(&e.name) {
            let ghost ev = e@;
            let (e2, outcome) = transcode_image(e, quality, target_height);
            proof {
                lemma_image_count_take_le(orig, i + 1);
            }
            agg.record(outcome.is_ok());
            proof {
                assert(transcoded_rel(ev, e2@));
                let prev = ocs;
                ocs = ocs.push(Some(outcome));
                assert(ocs.drop_last() =~= prev);
                assert(ocs.last() == Some(outcome));
            }
            out.push(e2);
        } else {
            proof {
                let prev = ocs;
                ocs = ocs.push(None);
                assert(ocs.drop_last() =~= prev);
                assert(ocs.last() == None::<Result<(), SkipReason>>);
            }
            out.push(e);
        }
        proof {
            assert(ocs.drop_last() =~= ocs.take(ocs.len() - 1));
            assert forall|k: int| 0 <= k < out@.len() implies match #[trigger] ocs[k] {
                Some(o) => transcode_post(orig[k], views_of(out@)[k], o, quality, target_height),
                None => views_of(out@)[k] == orig[k],
            } by {
                if k < out@.len() - 1 {
                    assert(views_of(out@)[k] == views_of(out@.take(out@.len() - 1))[k]);
                }
            }
            assert(forall|k: int|
                0 <= k < out@.len() ==> transcoded_rel(#[trigger] orig[k], views_of(out@)[k]));
        }
    }
    proof {
        assert(orig.take(out@.len() as int) =~= orig);
    }
    (out, agg.processed, agg.skipped, Ghost(ocs))
}

/// The aggregated state of one transcode batch: outcome counts and the batch
/// size, from which the published progress position is computed.  Only one
/// owner ever mutates an instance, so positions never go backwards.
pub struct Aggregator {
    pub processed: usize,
    pub skipped: usize,
    pub total: usize,
}

/// The progress position published while transcoding: a base offset plus the
/// finished fraction of a fifty-point span.
pub open spec fn spec_position(done: int, total: int) -> int {
    30 + (done * 50) / total
}

impl Aggregator {
    /// Counts never outrun the batch.
    pub open spec fn wf(&self) -> bool {
        self.processed + self.skipped <= self.total
    }

    /// A fresh aggregator for a batch of `total` images.
    pub fn new(total: usize) -> (r: Aggregator)
        ensures
            r.wf(),
            r.processed == 0,
            r.skipped == 0,
            r.total == total,
    {
        Aggregator { processed: 0, skipped: 0, total }
    }

    /// Records one outcome: a success bumps the processed count, a failure
    /// the skipped count, and nothing else moves.
    pub fn record(&mut self, succeeded: bool)
        requires
            old(self).wf(),
            old(self).processed + old(self).skipped < old(self).total,
        ensures
            final(self).wf(),
            final(self).total == old(self).total,
            succeeded ==> final(self).processed == old(self).processed + 1 && final(self).skipped
                == old(self).skipped,
            !succeeded ==> final(self).skipped == old(self).skipped + 1 && final(self).processed
                == old(self).processed,
    {
        if succeeded {
            self.processed = self.processed + 1;
        } else {
            self.skipped = self.skipped + 1;
        }
    }

    /// The current progress position: between 30 and 80, exactly per
    /// `spec_position`.
    pub fn position(&self) -> (p: u32)
        requires
            self.wf(),
            self.total >= 1,
        ensures
            p == spec_position(self.processed + self.skipped, self.total as int),
            30 <= p <= 80,
    {
        let done: u128 = (self.processed as u128) + (self.skipped as u128);
        let frac: u128 = (done * 50) / (self.total as u128);
        proof {
            assert((done as int * 50) / (self.total as int) <= 50) by (nonlinear_arith)
                requires
                    done as int <= self.total as int,
                    self.total as int >= 1,
            ;
        }
        30 + (frac as u32)
    }
}

/// Progress positions never go backwards: with more outcomes recorded the
/// position is at least what it was.
pub proof fn lemma_position_monotonic(d1: int, d2: int, total: int)
    requires
        0 <= d1 <= d2,
        total >= 1,
    ensures
        spec_position(d1, total) <= spec_position(d2, total),
{
    vstd::arithmetic::div_mod::lemma_div_is_ordered(d1 * 50, d2 * 50, total);
}

} // verus!
