//! The per-container pipeline: classify, extract, order pages, transcode,
//! repackage, and account sizes and counts; and the batch summary totals.

use vstd::prelude::*;

use crate::archive::extract_archive_b;
use crate::archive::extract_zip;
use crate::archive::repackage;
use crate::archive::zip_contents;
use crate::archive::zip_packable;
use crate::fileset::dedup_by_name;
use crate::fileset::dedup_rel;
use crate::fileset::lemma_dedup_rel_permutation;
use crate::fileset::sort_by_name_entries;
use crate::fileset::unique_names;
use crate::fileset::sorted_by_name;
use crate::fileset::views_of;
use crate::fileset::FileEntry;
use crate::kinds::ComicError;
use crate::kinds::ComicKind;
use crate::names::classify;
use crate::names::output_name;
use crate::names::spec_classify;
use crate::names::spec_output_name;
use crate::names::spec_stem;
use crate::names::stem_of;
use crate::pdf::extract_pdf;
use crate::kinds::SkipReason;
use crate::names::spec_is_image_name;
use crate::transcode::count_ok;
use crate::transcode::count_skip;
use crate::transcode::image_count;
use crate::transcode::transcode_all;
use crate::transcode::transcode_post;
use crate::transcode::transcoded_rel;

verus! {

/// The accounting of one finished pipeline: container size before and after,
/// and the transcode outcome counts.
#[derive(Clone, Copy, Debug, PartialEq, Eq, Structural)]
pub struct ProcessingStats {
    pub original_size: u64,
    pub compressed_size: u64,
    pub images_processed: usize,
    pub images_skipped: usize,
}

/// What one successful pipeline produces: the derived output archive name,
/// the archive bytes, the accounting, and — for the contracts — the ordered
/// file set before and after transcoding.
pub struct PipelineOutput {
    pub output_name: Vec<u8>,
    pub archive: Vec<u8>,
    pub stats: ProcessingStats,
    pub extracted: Ghost<Seq<(Seq<u8>, Seq<u8>)>>,
    pub transcoded: Ghost<Seq<(Seq<u8>, Seq<u8>)>>,
    pub outcomes: Ghost<Seq<Option<Result<(), SkipReason>>>>,
}

/// Runs one container through the whole pipeline, in memory: the name is
/// classified, the container bytes are extracted by kind (the fallback
/// kind's rar-compatible attempt, being path-bound outside work, comes in as
/// `rar_entries`), entries of one name are collapsed to the last as writing
/// them into one scratch directory would, the file set is put in
/// lexicographic name order — which fixes page order in the output — every
/// image entry is transcoded, the set is repackaged, and sizes and counts
/// are accounted.
///
/// The output archive name is a pure function of the input's stem and the
/// quality, so a second run with the same quality derives the same name.
/// Once the configuration, classification and extraction have passed, the
/// only remaining failure is the repackaging of the final file set.
pub fn run_pipeline(
    input_name: &Vec<u8>,
    container: &Vec<u8>,
    rar_entries: Option<Vec<FileEntry>>,
    quality: u8,
    target_height: u32,
) -> (r: Result<PipelineOutput, ComicError>)
    ensures
        (!(1 <= quality <= 100) || target_height == 0) <==> r == Err::<
            PipelineOutput,
            ComicError,
        >(ComicError::ConfigurationError),
        (1 <= quality <= 100 && target_height >= 1) ==> (spec_classify(input_name@) is None <==> r
            == Err::<PipelineOutput, ComicError>(ComicError::UnsupportedFormat)),
        (1 <= quality <= 100 && target_height >= 1 && spec_classify(input_name@) is Some) ==> (r
            is Ok || r == Err::<PipelineOutput, ComicError>(ComicError::ExtractionError) || r
            == Err::<PipelineOutput, ComicError>(ComicError::RepackageError)),
        (1 <= quality <= 100 && target_height >= 1 && spec_classify(input_name@) == Some(
            ComicKind::ArchiveA,
        ) && zip_contents(container@) is None) ==> r == Err::<PipelineOutput, ComicError>(
            ComicError::ExtractionError,
        ),
        (1 <= quality <= 100 && target_height >= 1 && spec_classify(input_name@) == Some(
            ComicKind::ArchiveA,
        ) && zip_contents(container@) is Some) ==> (r is Ok || r == Err::<
            PipelineOutput,
            ComicError,
        >(ComicError::RepackageError)),
        (1 <= quality <= 100 && target_height >= 1 && spec_classify(input_name@) == Some(
            ComicKind::ArchiveB,
        ) && rar_entries is None && zip_contents(container@) is None) ==> r == Err::<
            PipelineOutput,
            ComicError,
        >(ComicError::ExtractionError),
        (1 <= quality <= 100 && target_height >= 1 && spec_classify(input_name@) == Some(
            ComicKind::ArchiveB,
        ) && rar_entries is Some) ==> (r is Ok || r == Err::<PipelineOutput, ComicError>(
            ComicError::RepackageError,
        )),
        (1 <= quality <= 100 && target_height >= 1 && spec_classify(input_name@) == Some(
            ComicKind::ArchiveB,
        ) && rar_entries is None && zip_contents(container@) is Some) ==> (r is Ok || r == Err::<
            PipelineOutput,
            ComicError,
        >(ComicError::RepackageError)),
        r matches Ok(out) ==> {
            &&& out.output_name@ == spec_output_name(spec_stem(input_name@), quality)
            &&& out.stats.original_size == container@.len()
            &&& out.stats.compressed_size == out.archive@.len()
            &&& zip_contents(out.archive@) == Some(out.transcoded@)
            &&& zip_packable(out.transcoded@)
            &&& out.stats.images_processed + out.stats.images_skipped == image_count(
                out.extracted@,
            )
            &&& sorted_by_name(out.extracted@)
            &&& unique_names(out.extracted@)
            &&& out.transcoded@.len() == out.extracted@.len()
            &&& out.outcomes@.len() == out.extracted@.len()
            &&& forall|i: int|
                0 <= i < out.extracted@.len() ==> ((#[trigger] out.outcomes@[i]) is Some
                    <==> spec_is_image_name(out.extracted@[i].0))
            &&& forall|i: int|
                0 <= i < out.extracted@.len() ==> match #[trigger] out.outcomes@[i] {
                    Some(o) => transcode_post(
                        out.extracted@[i],
                        out.transcoded@[i],
                        o,
                        quality,
                        target_height,
                    ),
                    None => out.transcoded@[i] == out.extracted@[i],
                }
            &&& out.stats.images_processed == count_ok(out.outcomes@)
            &&& out.stats.images_skipped == count_skip(out.outcomes@)
            &&& forall|i: int|
                0 <= i < out.extracted@.len() ==> transcoded_rel(
                    #[trigger] out.extracted@[i],
                    out.transcoded@[i],
                )
            &&& spec_classify(input_name@) == Some(ComicKind::ArchiveA)
                ==> (zip_contents(container@) matches Some(es) && dedup_rel(es, out.extracted@))
            &&& spec_classify(input_name@) == Some(ComicKind::ArchiveB) ==> (rar_entries matches
                Some(res) ==> dedup_rel(views_of(res@), out.extracted@))
            &&& (spec_classify(input_name@) == Some(ComicKind::ArchiveB) && rar_entries is None)
                ==> (zip_contents(container@) matches Some(es) && dedup_rel(es, out.extracted@))
            &&& spec_classify(input_name@) == Some(ComicKind::PageDescription)
                ==> out.extracted@.len() >= 1
        },
{
    if quality < 1 || quality > 100 || target_height == 0 {
        return Err(ComicError::ConfigurationError);
    }
    let kind = match classify(input_name) {
        Ok(k) => k,
        Err(e) => {
            return Err(e);
        },
    };
    let files = match kind {
        ComicKind::ArchiveA => {
            match extract_zip(container) {
                Ok(es) => es,
                Err(e) => {
                    return Err(e);
                },
            }
        },
        ComicKind::ArchiveB => {
            match extract_archive_b(container, rar_entries) {
                Ok(es) => es,
                Err(e) => {
                    return Err(e);
                },
            }
        },
        ComicKind::PageDescription => {
            match extract_pdf(container) {
                Ok(x) => x.files,
                Err(e) => {
                    return Err(e);
                },
            }
        },
    };
    let ghost src_views = views_of(files@);
    let deduped = dedup_by_name(files);
    let sorted = sort_by_name_entries(deduped);
    proof {
        lemma_dedup_rel_permutation(src_views, views_of(deduped@), views_of(sorted@));
    }
    let ghost extracted = views_of(sorted@);
    let (transcoded_files, processed, skipped, outcomes) = transcode_all(
        sorted,
        quality,
        target_height,
    );
    let ghost transcoded = views_of(transcoded_files@);
    let archive = match repackage(&transcoded_files) {
        Ok(b) => b,
        Err(e) => {
            return Err(e);
        },
    };
    let stem = stem_of(input_name);
    let out_name = output_name(&stem, quality);
    let original_size = container.len() as u64;
    let compressed_size = archive.len() as u64;
    Ok(
        PipelineOutput {
            output_name: out_name,
            archive,
            stats: ProcessingStats {
                original_size,
                compressed_size,
                images_processed: processed,
                images_skipped: skipped,
            },
            extracted: Ghost(extracted),
            transcoded: Ghost(transcoded),
            outcomes,
        },
    )
}

/// Sum of the original container sizes of a batch.
pub open spec fn sum_original(s: Seq<ProcessingStats>) -> int
    decreases s.len(),
{
    if s.len() == 0 {
        0
    } else {
        sum_original(s.drop_last()) + s.last().original_size
    }
}

/// Sum of the output archive sizes of a batch.
pub open spec fn sum_compressed(s: Seq<ProcessingStats>) -> int
    decreases s.len(),
{
    if s.len() == 0 {
        0
    } else {
        sum_compressed(s.drop_last()) + s.last().compressed_size
    }
}

/// Sum of the processed-image counts of a batch.
pub open spec fn sum_processed(s: Seq<ProcessingStats>) -> int
    decreases s.len(),
{
    if s.len() == 0 {
        0
    } else {
        sum_processed(s.drop_last()) + s.last().images_processed
    }
}

/// Sum of the skipped-image counts of a batch.
pub open spec fn sum_skipped(s: Seq<ProcessingStats>) -> int
    decreases s.len(),
{
    if s.len() == 0 {
        0
    } else {
        sum_skipped(s.drop_last()) + s.last().images_skipped
    }
}

/// Whether one file's savings came out under five percent: either nothing
/// was saved at all, or the saved fraction of the original size is below
/// one twentieth, decided exactly over integers.
pub open spec fn spec_low_savings(st: ProcessingStats) -> bool {
    ||| st.compressed_size >= st.original_size
    ||| 100 * (st.original_size - st.compressed_size) < 5 * st.original_size
}

/// How many files of a batch saved under five percent.
pub open spec fn count_low_savings(s: Seq<ProcessingStats>) -> int
    decreases s.len(),
{
    if s.len() == 0 {
        0
    } else {
        count_low_savings(s.drop_last()) + if spec_low_savings(s.last()) {
            1int
        } else {
            0int
        }
    }
}

/// Every sum of a batch is bounded by the batch length times the largest
/// field value.
proof fn lemma_sums_bounded(s: Seq<ProcessingStats>)
    ensures
        0 <= sum_original(s) <= s.len() * 0xffff_ffff_ffff_ffffu64,
        0 <= sum_compressed(s) <= s.len() * 0xffff_ffff_ffff_ffffu64,
        0 <= sum_processed(s) <= s.len() * 0xffff_ffff_ffff_ffffu64,
        0 <= sum_skipped(s) <= s.len() * 0xffff_ffff_ffff_ffffu64,
        0 <= count_low_savings(s) <= s.len(),
    decreases s.len(),
{
    if s.len() > 0 {
        lemma_sums_bounded(s.drop_last());
    }
}

/// The aggregate view of a finished batch, from which the reporting
/// collaborator derives percentages and byte totals.
#[derive(Clone, Copy, Debug, PartialEq, Eq, Structural)]
pub struct SummaryTotals {
    pub total_original: u128,
    pub total_compressed: u128,
    pub total_images_processed: u128,
    pub total_images_skipped: u128,
    pub files_with_low_savings: usize,
}

/// Totals a batch's statistics: byte sizes before and after, image outcome
/// counts, and how many files saved under five percent.
pub fn summary_totals(stats: &Vec<ProcessingStats>) -> (r: SummaryTotals)
    ensures
        r.total_original == sum_original(stats@),
        r.total_compressed == sum_compressed(stats@),
        r.total_images_processed == sum_processed(stats@),
        r.total_images_skipped == sum_skipped(stats@),
        r.files_with_low_savings == count_low_savings(stats@),
{
    let n = stats.len();
    let mut total_original: u128 = 0;
    let mut total_compressed: u128 = 0;
    let mut total_images_processed: u128 = 0;
    let mut total_images_skipped: u128 = 0;
    let mut files_with_low_savings: usize = 0;
    let mut i: usize = 0;
    proof {
        assert(stats@.take(0) =~= Seq::<ProcessingStats>::empty());
        assert((n as int) * 0xffff_ffff_ffff_ffff <= 0xffff_ffff_ffff_ffff * 0xffff_ffff_ffff_ffff)
            by (nonlinear_arith)
            requires
                0 <= n as int <= 0xffff_ffff_ffff_ffff,
        ;
    }
    while i < n
        invariant
            i <= n,
            n == stats@.len(),
            (n as int) * 0xffff_ffff_ffff_ffff < u128::MAX,
            total_original == sum_original(stats@.take(i as int)),
            total_compressed == sum_compressed(stats@.take(i as int)),
            total_images_processed == sum_processed(stats@.take(i as int)),
            total_images_skipped == sum_skipped(stats@.take(i as int)),
            files_with_low_savings == count_low_savings(stats@.take(i as int)),
        decreases n - i,
    {
        let st = stats[i];
        proof {
            lemma_sums_bounded(stats@.take(i as int));
            assert(stats@.take(i + 1).drop_last() =~= stats@.take(i as int));
            assert(stats@.take(i + 1).last() == stats@[i as int]);
            assert((i as int) * 0xffff_ffff_ffff_ffff + 0xffff_ffff_ffff_ffff == (i + 1)
                * 0xffff_ffff_ffff_ffff);
            assert((i + 1) * 0xffff_ffff_ffff_ffff <= (n as int) * 0xffff_ffff_ffff_ffff)
                by (nonlinear_arith)
                requires
                    i + 1 <= n as int,
            ;
        }
        total_original = total_original + (st.original_size as u128);
        total_compressed = total_compressed + (st.compressed_size as u128);
        total_images_processed = total_images_processed + (st.images_processed as u128);
        total_images_skipped = total_images_skipped + (st.images_skipped as u128);
        let low = if st.compressed_size >= st.original_size {
            true
        } else {
            100u128 * ((st.original_size - st.compressed_size) as u128) < 5u128 * (
            st.original_size as u128)
        };
        if low {
            files_with_low_savings = files_with_low_savings + 1;
        }
        i = i + 1;
    }
    proof {
        assert(stats@.take(n as int) =~= stats@);
    }
    SummaryTotals {
        total_original,
        total_compressed,
        total_images_processed,
        total_images_skipped,
        files_with_low_savings,
    }
}

} // verus!
