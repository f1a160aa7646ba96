//! File-name logic: extensions, container classification, decimal page
//! numbering, and derived output names.  Names are byte strings, as archive
//! entry names are.

use vstd::prelude::*;

use crate::kinds::ComicError;
use crate::kinds::ComicKind;

verus! {

/// ASCII code of `.`, the extension separator.
pub const DOT: u8 = 46;

/// ASCII lowercasing of one byte.
pub open spec fn lower_byte(b: u8) -> u8 {
    if 65 <= b <= 90 {
        (b + 32) as u8
    } else {
        b
    }
}

/// ASCII lowercasing of a byte string.
pub open spec fn lower_seq(s: Seq<u8>) -> Seq<u8> {
    s.map_values(|b: u8| lower_byte(b))
}

/// Index of the last `.` in `s`, or `-1` if there is none.
pub open spec fn last_dot(s: Seq<u8>) -> int
    decreases s.len(),
{
    if s.len() == 0 {
        -1
    } else if s[s.len() - 1] == DOT {
        s.len() - 1
    } else {
        last_dot(s.take(s.len() - 1))
    }
}

/// The extension of a file name: the bytes after the last `.`, provided that
/// dot is preceded by a non-empty stem.  A name without a dot, or whose only
/// dot leads it, has no extension.
pub open spec fn spec_extension(name: Seq<u8>) -> Option<Seq<u8>> {
    if last_dot(name) >= 1 {
        Some(name.skip(last_dot(name) + 1))
    } else {
        None
    }
}

/// The stem of a file name: everything before the last `.` when the name has
/// an extension, the whole name otherwise.
pub open spec fn spec_stem(name: Seq<u8>) -> Seq<u8> {
    if last_dot(name) >= 1 {
        name.take(last_dot(name))
    } else {
        name
    }
}

pub open spec fn ext_cbz() -> Seq<u8> {
    seq![99u8, 98u8, 122u8]
}

pub open spec fn ext_cbr() -> Seq<u8> {
    seq![99u8, 98u8, 114u8]
}

pub open spec fn ext_pdf() -> Seq<u8> {
    seq![112u8, 100u8, 102u8]
}

/// Classification of a file name into a container kind, decided by the
/// lowercased extension alone: `cbz`, `cbr` and `pdf` are the supported ones.
pub open spec fn spec_classify(name: Seq<u8>) -> Option<ComicKind> {
    match spec_extension(name) {
        None => None,
        Some(e) => {
            let le = lower_seq(e);
            if le == ext_cbz() {
                Some(ComicKind::ArchiveA)
            } else if le == ext_cbr() {
                Some(ComicKind::ArchiveB)
            } else if le == ext_pdf() {
                Some(ComicKind::PageDescription)
            } else {
                None
            }
        },
    }
}

/// Classification is a pure function of the lowercased extension: two names
/// whose lowercased extensions agree are classified alike.
pub proof fn lemma_classify_by_lower_extension(a: Seq<u8>, b: Seq<u8>)
    requires
        spec_extension(a) matches Some(ea) ==> (spec_extension(b) matches Some(eb)
            && lower_seq(ea) == lower_seq(eb)),
        spec_extension(a) is None ==> spec_extension(b) is None,
    ensures
        spec_classify(a) == spec_classify(b),
{
}

/// `last_dot` is an index into the name (or `-1`) and points at a dot.
pub proof fn lemma_last_dot_bounds(s: Seq<u8>)
    ensures
        -1 <= last_dot(s) < s.len(),
        last_dot(s) >= 0 ==> s[last_dot(s)] == DOT,
    decreases s.len(),
{
    if s.len() == 0 {
    } else if s[s.len() - 1] == DOT {
    } else {
        lemma_last_dot_bounds(s.take(s.len() - 1));
    }
}

/// A dot that is not at the end of the name and that no later byte of the
/// name repeats.
proof fn lemma_last_dot_take(s: Seq<u8>, i: int)
    requires
        0 <= i <= s.len(),
        forall|k: int| i <= k < s.len() ==> s[k] != DOT,
    ensures
        last_dot(s) == last_dot(s.take(i)),
    decreases s.len() - i,
{
    if i == s.len() {
        assert(s.take(i) =~= s);
    } else {
        let t = s.take(s.len() - 1);
        assert(s[s.len() - 1] != DOT);
        lemma_last_dot_take(t, i);
        assert(t.take(i) =~= s.take(i));
    }
}

/// Finds the last `.` in a byte string.
pub fn find_last_dot(v: &Vec<u8>) -> (r: Option<usize>)
    ensures
        match r {
            Some(i) => i == last_dot(v@),
            None => last_dot(v@) == -1,
        },
{
    let mut i: usize = v.len();
    while i > 0
        invariant
            i <= v.len(),
            forall|k: int| i <= k < v@.len() ==> v@[k] != DOT,
        decreases i,
    {
        if v[i - 1] == DOT {
            proof {
                lemma_last_dot_take(v@, i as int);
                assert(v@.take(i as int).len() == i);
                assert(v@.take(i as int)[i - 1] == DOT);
            }
            return Some(i - 1);
        }
        i = i - 1;
    }
    proof {
        lemma_last_dot_take(v@, 0);
        assert(v@.take(0) =~= Seq::<u8>::empty());
    }
    None
}

/// Copies `v[from..to]` into a fresh byte vector.
pub fn sub_bytes(v: &Vec<u8>, from: usize, to: usize) -> (r: Vec<u8>)
    requires
        from <= to <= v@.len(),
    ensures
        r@ == v@.subrange(from as int, to as int),
{
    let mut r: Vec<u8> = Vec::new();
    let mut j: usize = from;
    while j < to
        invariant
            from <= j <= to <= v@.len(),
            r@ == v@.subrange(from as int, j as int),
        decreases to - j,
    {
        r.push(v[j]);
        proof {
            assert(r@ =~= v@.subrange(from as int, j + 1));
        }
        j = j + 1;
    }
    r
}

/// ASCII lowercasing of one byte.
pub fn byte_to_lower(b: u8) -> (r: u8)
    ensures
        r == lower_byte(b),
{
    if 65 <= b && b <= 90 {
        b + 32
    } else {
        b
    }
}

/// ASCII lowercasing of a byte string.
pub fn bytes_to_lower(v: &Vec<u8>) -> (r: Vec<u8>)
    ensures
        r@ == lower_seq(v@),
{
    let mut r: Vec<u8> = Vec::new();
    let mut j: usize = 0;
    while j < v.len()
        invariant
            j <= v@.len(),
            r@.len() == j,
            forall|k: int| 0 <= k < j ==> r@[k] == lower_byte(v@[k]),
        decreases v@.len() - j,
    {
        r.push(byte_to_lower(v[j]));
        j = j + 1;
    }
    proof {
        assert(r@ =~= lower_seq(v@));
    }
    r
}

/// Equality of two byte vectors.
pub fn bytes_eq(a: &Vec<u8>, b: &Vec<u8>) -> (r: bool)
    ensures
        r == (a@ == b@),
{
    if a.len() != b.len() {
        return false;
    }
    let mut j: usize = 0;
    while j < a.len()
        invariant
            j <= a@.len(),
            a@.len() == b@.len(),
            forall|k: int| 0 <= k < j ==> a@[k] == b@[k],
        decreases a@.len() - j,
    {
        if a[j] != b[j] {
            return false;
        }
        j = j + 1;
    }
    proof {
        assert(a@ =~= b@);
    }
    true
}

/// The extension of a file name, per `spec_extension`.
pub fn extension_of(name: &Vec<u8>) -> (r: Option<Vec<u8>>)
    ensures
        match r {
            Some(e) => spec_extension(name@) == Some(e@),
            None => spec_extension(name@) is None,
        },
{
    proof {
        lemma_last_dot_bounds(name@);
    }
    match find_last_dot(name) {
        Some(i) => {
            if i >= 1 {
                let n = name.len();
                let r = sub_bytes(name, i + 1, n);
                proof {
                    assert(r@ =~= name@.skip(i + 1));
                }
                Some(r)
            } else {
                None
            }
        },
        None => None,
    }
}

/// The stem of a file name, per `spec_stem`.
pub fn stem_of(name: &Vec<u8>) -> (r: Vec<u8>)
    ensures
        r@ == spec_stem(name@),
{
    proof {
        lemma_last_dot_bounds(name@);
    }
    match find_last_dot(name) {
        Some(i) => {
            if i >= 1 {
                proof {
                    assert(name@.subrange(0, i as int) =~= name@.take(i as int));
                }
                sub_bytes(name, 0, i)
            } else {
                proof {
                    assert(name@.subrange(0, name@.len() as int) =~= name@);
                }
                sub_bytes(name, 0, name.len())
            }
        },
        None => {
            proof {
                assert(name@.subrange(0, name@.len() as int) =~= name@);
            }
            sub_bytes(name, 0, name.len())
        },
    }
}

/// Decimal digits of `n`, most significant first, without leading zeros.
pub open spec fn dec_digits(n: nat) -> Seq<u8>
    decreases n,
{
    if n < 10 {
        seq![(48 + n) as u8]
    } else {
        dec_digits(n / 10).push((48 + n % 10) as u8)
    }
}

/// A run of ASCII zeros.
pub open spec fn zeros(k: nat) -> Seq<u8> {
    Seq::new(k, |i: int| 48u8)
}

/// Decimal digits of `n`, left-padded with zeros to at least four digits.
pub open spec fn pad4(n: nat) -> Seq<u8> {
    if dec_digits(n).len() >= 4 {
        dec_digits(n)
    } else {
        zeros((4 - dec_digits(n).len()) as nat) + dec_digits(n)
    }
}

/// Decimal digits of `n`, most significant first.
pub fn u64_decimal(n: u64) -> (r: Vec<u8>)
    ensures
        r@ == dec_digits(n as nat),
    decreases n,
{
    if n < 10 {
        let mut r: Vec<u8> = Vec::new();
        r.push(48 + n as u8);
        proof {
            assert(r@ =~= dec_digits(n as nat));
        }
        r
    } else {
        let mut r = u64_decimal(n / 10);
        r.push(48 + (n % 10) as u8);
        r
    }
}

/// Appends a copy of `src` to `dst`.
pub fn push_all(dst: &mut Vec<u8>, src: &Vec<u8>)
    ensures
        final(dst)@ == old(dst)@ + src@,
{
    let mut j: usize = 0;
    while j < src.len()
        invariant
            j <= src@.len(),
            dst@ == old(dst)@ + src@.take(j as int),
        decreases src@.len() - j,
    {
        dst.push(src[j]);
        proof {
            assert(old(dst)@ + src@.take(j + 1) =~= (old(dst)@ + src@.take(j as int)).push(
                src@[j as int],
            ));
        }
        j = j + 1;
    }
    proof {
        assert(src@.take(src@.len() as int) =~= src@);
    }
}

/// Decimal digits of `n`, left-padded with zeros to at least four digits.
pub fn u64_pad4(n: u64) -> (r: Vec<u8>)
    ensures
        r@ == pad4(n as nat),
{
    let d = u64_decimal(n);
    if d.len() >= 4 {
        d
    } else {
        let mut r: Vec<u8> = Vec::new();
        let k = 4 - d.len();
        let mut j: usize = 0;
        while j < k
            invariant
                j <= k,
                r@ =~= zeros(j as nat),
        decreases k - j,
        {
            r.push(48u8);
            proof {
                assert(r@ =~= zeros((j + 1) as nat));
            }
            j = j + 1;
        }
        push_all(&mut r, &d);
        r
    }
}

/// `page_` as bytes: the prefix of generated page file names.
pub open spec fn page_prefix() -> Seq<u8> {
    seq![112u8, 97u8, 103u8, 101u8, 95u8]
}

/// The name of the `n`-th extracted page image: `page_` + at least four
/// decimal digits + `.` + the given extension.
pub open spec fn spec_page_name(n: nat, ext: Seq<u8>) -> Seq<u8> {
    page_prefix() + pad4(n) + seq![DOT] + ext
}

/// Builds the name of the `n`-th extracted page image.
pub fn page_name(n: u64, ext: &Vec<u8>) -> (r: Vec<u8>)
    ensures
        r@ == spec_page_name(n as nat, ext@),
{
    let mut r: Vec<u8> = Vec::new();
    r.push(112u8);
    r.push(97u8);
    r.push(103u8);
    r.push(101u8);
    r.push(95u8);
    proof {
        assert(r@ =~= page_prefix());
    }
    let d = u64_pad4(n);
    push_all(&mut r, &d);
    r.push(DOT);
    push_all(&mut r, ext);
    proof {
        assert(r@ =~= spec_page_name(n as nat, ext@));
    }
    r
}

/// `webp` as bytes: the extension of the target codec.
pub open spec fn ext_webp() -> Seq<u8> {
    seq![119u8, 101u8, 98u8, 112u8]
}

/// The name an image file takes once transcoded: its stem with the target
/// codec's extension.
pub open spec fn spec_webp_name(name: Seq<u8>) -> Seq<u8> {
    spec_stem(name) + seq![DOT] + ext_webp()
}

/// Builds the transcoded name of an image file.
pub fn webp_name(name: &Vec<u8>) -> (r: Vec<u8>)
    ensures
        r@ == spec_webp_name(name@),
{
    let mut r = stem_of(name);
    r.push(DOT);
    r.push(119u8);
    r.push(101u8);
    r.push(98u8);
    r.push(112u8);
    proof {
        assert(r@ =~= spec_webp_name(name@));
    }
    r
}

/// ` optimized_webp_q` as bytes: the tag of generated output archive names.
pub open spec fn output_tag() -> Seq<u8> {
    seq![
        32u8, 111u8, 112u8, 116u8, 105u8, 109u8, 105u8, 122u8, 101u8, 100u8, 95u8, 119u8, 101u8,
        98u8, 112u8, 95u8, 113u8,
    ]
}

/// The output archive name derived from an input's stem and the quality
/// setting; re-running with the same quality derives the same name.
pub open spec fn spec_output_name(stem: Seq<u8>, quality: u8) -> Seq<u8> {
    stem + output_tag() + dec_digits(quality as nat) + seq![DOT] + ext_cbr()
}

/// Builds the output archive name from an input's stem and the quality
/// setting.  The name is a pure function of the two, so a second run with the
/// same quality yields the same path and overwrites the first output.
pub fn output_name(stem: &Vec<u8>, quality: u8) -> (r: Vec<u8>)
    ensures
        r@ == spec_output_name(stem@, quality),
{
    let mut r: Vec<u8> = Vec::new();
    push_all(&mut r, stem);
    let tag: Vec<u8> = vec![
        32u8, 111u8, 112u8, 116u8, 105u8, 109u8, 105u8, 122u8, 101u8, 100u8, 95u8, 119u8, 101u8,
        98u8, 112u8, 95u8, 113u8,
    ];
    proof {
        assert(tag@ =~= output_tag());
    }
    push_all(&mut r, &tag);
    let d = u64_decimal(quality as u64);
    push_all(&mut r, &d);
    r.push(DOT);
    r.push(99u8);
    r.push(98u8);
    r.push(114u8);
    proof {
        assert(r@ =~= spec_output_name(stem@, quality));
    }
    r
}

/// Whether a file name has one of the raster-image extensions the transcoder
/// picks up, by lowercased extension.
pub open spec fn spec_is_image_name(name: Seq<u8>) -> bool {
    match spec_extension(name) {
        None => false,
        Some(e) => {
            let le = lower_seq(e);
            ||| le == seq![106u8, 112u8, 103u8]  // jpg
            ||| le == seq![106u8, 112u8, 101u8, 103u8]  // jpeg
            ||| le == seq![112u8, 110u8, 103u8]  // png
            ||| le == seq![98u8, 109u8, 112u8]  // bmp
            ||| le == seq![116u8, 105u8, 102u8, 102u8]  // tiff
            ||| le == seq![116u8, 105u8, 102u8]  // tif
        },
    }
}

/// Whether a file name has one of the raster-image extensions.
pub fn is_image_name(name: &Vec<u8>) -> (r: bool)
    ensures
        r == spec_is_image_name(name@),
{
    let ext = match extension_of(name) {
        Some(e) => e,
        None => {
            return false;
        },
    };
    let le = bytes_to_lower(&ext);
    let jpg: Vec<u8> = vec![106u8, 112u8, 103u8];
    let jpeg: Vec<u8> = vec![106u8, 112u8, 101u8, 103u8];
    let png: Vec<u8> = vec![112u8, 110u8, 103u8];
    let bmp: Vec<u8> = vec![98u8, 109u8, 112u8];
    let tiff: Vec<u8> = vec![116u8, 105u8, 102u8, 102u8];
    let tif: Vec<u8> = vec![116u8, 105u8, 102u8];
    bytes_eq(&le, &jpg) || bytes_eq(&le, &jpeg) || bytes_eq(&le, &png) || bytes_eq(&le, &bmp)
        || bytes_eq(&le, &tiff) || bytes_eq(&le, &tif)
}

/// Classifies a file name into a container kind; any other lowercased
/// extension, or a name without one, is unsupported.
pub fn classify(name: &Vec<u8>) -> (r: Result<ComicKind, ComicError>)
    ensures
        match r {
            Ok(kind) => spec_classify(name@) == Some(kind),
            Err(e) => spec_classify(name@) is None && e == ComicError::UnsupportedFormat,
        },
{
    let ext = match extension_of(name) {
        Some(e) => e,
        None => {
            return Err(ComicError::UnsupportedFormat);
        },
    };
    let le = bytes_to_lower(&ext);
    let cbz: Vec<u8> = vec![99u8, 98u8, 122u8];
    let cbr: Vec<u8> = vec![99u8, 98u8, 114u8];
    let pdf: Vec<u8> = vec![112u8, 100u8, 102u8];
    if bytes_eq(&le, &cbz) {
        Ok(ComicKind::ArchiveA)
    } else if bytes_eq(&le, &cbr) {
        Ok(ComicKind::ArchiveB)
    } else if bytes_eq(&le, &pdf) {
        Ok(ComicKind::PageDescription)
    } else {
        Err(ComicError::UnsupportedFormat)
    }
}

} // verus!
