use vstd::prelude::*;

use crate::error::ElfError;
use object::{Object, ObjectSegment};

verus! {

/// A loadable segment: its virtual address, its memory size, and the bytes
/// that the file holds for it (fewer than the memory size for a segment with
/// zero-filled space).
pub struct Segment {
    pub address: u64,
    pub size: u64,
    pub data: Vec<u8>,
}

/// The model of a segment: (virtual address, memory size, file-backed bytes).
pub type SegmentModel = (u64, u64, Seq<u8>);

/// The loadable segments that the executable `data` declares, in table order,
/// or `None` where `data` is no executable that the parser reads.
pub uninterp spec fn elf_segments(data: Seq<u8>) -> Option<Seq<(u64, u64, Seq<u8>)>>;

pub open spec fn segments_view(v: Seq<Segment>) -> Seq<SegmentModel> {
    Seq::new(v.len(), |i: int| (v[i].address, v[i].size, v[i].data@))
}

pub open spec fn zeros(n: nat) -> Seq<u8> {
    Seq::new(n, |i: int| 0u8)
}

/// A segment takes part in the image when its memory size is not zero.
pub open spec fn selected(s: SegmentModel) -> bool {
    s.1 != 0
}

/// The lowest address among the selected segments (`u64::MAX` where none is).
pub open spec fn min_address(segs: Seq<SegmentModel>) -> u64
    decreases segs.len(),
{
    if segs.len() == 0 {
        u64::MAX
    } else {
        let rest = min_address(segs.drop_last());
        let s = segs.last();
        if selected(s) && s.0 < rest {
            s.0
        } else {
            rest
        }
    }
}

/// Offset in the image at which segment `s` starts, for an image based at `base`.
pub open spec fn offset_of(s: SegmentModel, base: u64) -> int {
    s.0 - base
}

/// Whether segment `s` has file-backed bytes to copy.
pub open spec fn copies(s: SegmentModel) -> bool {
    selected(s) && s.2.len() > 0
}

/// Whether the copy of segment `s` writes image index `i`.
pub open spec fn covers(s: SegmentModel, base: u64, i: int) -> bool {
    copies(s) && offset_of(s, base) <= i < offset_of(s, base) + s.2.len()
}

/// Whether the copy of segment `s` lies inside an image of `len` bytes.
pub open spec fn fits(s: SegmentModel, base: u64, len: nat) -> bool {
    copies(s) ==> offset_of(s, base) + s.2.len() <= len
}

pub open spec fn all_fit(segs: Seq<SegmentModel>, base: u64, len: nat) -> bool {
    forall|k: int| 0 <= k < segs.len() ==> fits(#[trigger] segs[k], base, len)
}

/// `img` with `d` written from index `off` on.
pub open spec fn overwrite(img: Seq<u8>, off: int, d: Seq<u8>) -> Seq<u8> {
    Seq::new(img.len(), |i: int| if off <= i < off + d.len() { d[i - off] } else { img[i] })
}

pub open spec fn write_segment(img: Seq<u8>, s: SegmentModel, base: u64) -> Seq<u8> {
    if copies(s) {
        overwrite(img, offset_of(s, base), s.2)
    } else {
        img
    }
}

/// `img` after the file-backed bytes of each segment were copied, in order.
pub open spec fn flatten(img: Seq<u8>, segs: Seq<SegmentModel>, base: u64) -> Seq<u8>
    decreases segs.len(),
{
    if segs.len() == 0 {
        img
    } else {
        write_segment(flatten(img, segs.drop_last(), base), segs.last(), base)
    }
}

/// The flat image of `len` bytes that the executable `data` yields, or
/// `None` where it does not parse or a segment falls outside the image.
pub open spec fn flat_image(data: Seq<u8>, len: nat) -> Option<Seq<u8>> {
    match elf_segments(data) {
        None => None,
        Some(segs) => {
            let base = min_address(segs);
            if all_fit(segs, base, len) {
                Some(flatten(zeros(len), segs, base))
            } else {
                None
            }
        },
    }
}

proof fn lemma_flatten_len(img: Seq<u8>, segs: Seq<SegmentModel>, base: u64)
    ensures
        flatten(img, segs, base).len() == img.len(),
    decreases segs.len(),
{
    if segs.len() > 0 {
        lemma_flatten_len(img, segs.drop_last(), base);
    }
}

/// A flat image of `len` bytes, where there is one, is `len` bytes long.
pub proof fn lemma_flat_image_len(data: Seq<u8>, len: nat)
    requires
        flat_image(data, len) is Some,
    ensures
        flat_image(data, len)->0.len() == len,
{
    let segs = elf_segments(data)->0;
    lemma_flatten_len(zeros(len), segs, min_address(segs));
}

proof fn lemma_min_address_below(segs: Seq<SegmentModel>, k: int)
    requires
        0 <= k < segs.len(),
        selected(segs[k]),
    ensures
        min_address(segs) <= segs[k].0,
    decreases segs.len(),
{
    if k < segs.len() - 1 {
        lemma_min_address_below(segs.drop_last(), k);
    }
}

proof fn lemma_flatten_at(img: Seq<u8>, segs: Seq<SegmentModel>, base: u64, i: int)
    requires
        0 <= i < img.len(),
    ensures
        flatten(img, segs, base).len() == img.len(),
        (forall|k: int| 0 <= k < segs.len() ==> !covers(#[trigger] segs[k], base, i))
            ==> flatten(img, segs, base)[i] == img[i],
        forall|k: int|
            0 <= k < segs.len() && covers(segs[k], base, i) && (forall|j: int|
                k < j < segs.len() ==> !covers(#[trigger] segs[j], base, i)) ==> flatten(
                img,
                segs,
                base,
            )[i] == #[trigger] segs[k].2[i - offset_of(segs[k], base)],
    decreases segs.len(),
{
    if segs.len() > 0 {
        let p = segs.drop_last();
        lemma_flatten_at(img, p, base, i);
        assert forall|k: int| 0 <= k < p.len() implies #[trigger] p[k] == segs[k] by {}
        let n = segs.len() - 1;
        assert(segs.last() == segs[n]);
        if (forall|k: int| 0 <= k < segs.len() ==> !covers(#[trigger] segs[k], base, i)) {
            assert(!covers(segs[n], base, i));
            assert forall|k: int| 0 <= k < p.len() implies !covers(#[trigger] p[k], base, i) by {
                assert(p[k] == segs[k]);
            }
        }
        assert forall|k: int|
            0 <= k < segs.len() && covers(segs[k], base, i) && (forall|j: int|
                k < j < segs.len() ==> !covers(#[trigger] segs[j], base, i)) implies flatten(
            img,
            segs,
            base,
        )[i] == #[trigger] segs[k].2[i - offset_of(segs[k], base)] by {
            if k < n {
                assert(!covers(segs[n], base, i));
                assert(p[k] == segs[k]);
                assert forall|j: int| k < j < p.len() implies !covers(#[trigger] p[j], base, i) by {
                    assert(p[j] == segs[j]);
                }
            }
        }
    }
}

/// Bytes of a flat image that no segment's file-backed data covers are zero.
pub proof fn flat_image_uncovered_is_zero(segs: Seq<SegmentModel>, len: nat, i: int)
    requires
        0 <= i < len,
        forall|k: int| 0 <= k < segs.len() ==> !covers(#[trigger] segs[k], min_address(segs), i),
    ensures
        flatten(zeros(len), segs, min_address(segs))[i] == 0,
{
    lemma_flatten_at(zeros(len), segs, min_address(segs), i);
}

/// A byte of a flat image that segment `k` covers, and no later segment does,
/// is the matching byte of that segment's file-backed data.
pub proof fn flat_image_covered_matches(segs: Seq<SegmentModel>, len: nat, i: int, k: int)
    requires
        0 <= i < len,
        0 <= k < segs.len(),
        covers(segs[k], min_address(segs), i),
        forall|j: int| k < j < segs.len() ==> !covers(#[trigger] segs[j], min_address(segs), i),
    ensures
        flatten(zeros(len), segs, min_address(segs))[i] == segs[k].2[i - offset_of(
            segs[k],
            min_address(segs),
        )],
{
    lemma_flatten_at(zeros(len), segs, min_address(segs), i);
}

/// The space of a segment past its file-backed bytes, up to its memory size,
/// stays zero wherever no segment's file-backed data is copied over it.
pub proof fn flat_image_bss_is_zero(segs: Seq<SegmentModel>, len: nat, k: int, i: int)
    requires
        0 <= k < segs.len(),
        segs[k].1 > segs[k].2.len(),
        offset_of(segs[k], min_address(segs)) + segs[k].2.len() <= i < offset_of(
            segs[k],
            min_address(segs),
        ) + segs[k].1,
        0 <= i < len,
        forall|j: int| 0 <= j < segs.len() ==> !covers(#[trigger] segs[j], min_address(segs), i),
    ensures
        flatten(zeros(len), segs, min_address(segs))[i] == 0,
{
    flat_image_uncovered_is_zero(segs, len, i);
}

/// Relies on `object::File::parse`, `Object::segments` and the segment's
/// `address`, `size` and `data`: the loadable segments of the file, in table
/// order, with no bytes for a segment whose data cannot be read.
#[verifier::external_body]
fn read_segments(data: &[u8]) -> (r: Result<Vec<Segment>, object::read::Error>)
    ensures
        match r {
            Ok(v) => elf_segments(data@) == Some(segments_view(v@)),
            Err(_) => elf_segments(data@) is None,
        },
{
    let file = object::File::parse(data)?;
    Ok(file.segments().map(|s| Segment {
        address: s.address(),
        size: s.size(),
        data: s.data().map(|d| d.to_vec()).unwrap_or_default(),
    }).collect())
}

fn copy_into(image: &mut Vec<u8>, off: usize, d: &Vec<u8>)
    requires
        off + d@.len() <= old(image)@.len(),
    ensures
        final(image)@ == overwrite(old(image)@, off as int, d@),
{
    let ghost orig = image@;
    assert(orig.len() == image.len());
    let mut j: usize = 0;
    while j < d.len()
        invariant
            off + d@.len() <= orig.len(),
            orig.len() <= usize::MAX,
            image@.len() == orig.len(),
            0 <= j <= d@.len(),
            forall|i: int|
                0 <= i < orig.len() ==> #[trigger] image@[i] == (if off <= i < off + j {
                    d@[i - off]
                } else {
                    orig[i]
                }),
        decreases d@.len() - j,
    {
        image.set(off + j, d[j]);
        j = j + 1;
    }
    assert(image@ =~= overwrite(orig, off as int, d@));
}

/// Copies the file-backed bytes of each segment with a non-zero memory size
/// into `image`, at the segment's address less the lowest such address.
/// Fails with `ElfSegment`, and writes nothing past the end of `image`, when
/// a segment's range does not fit.
pub fn place_segments(segs: &Vec<Segment>, image: &mut Vec<u8>) -> (r: Result<(), ElfError>)
    ensures
        final(image)@.len() == old(image)@.len(),
        ({
            let m = segments_view(segs@);
            let base = min_address(m);
            &&& r is Ok <==> all_fit(m, base, old(image)@.len())
            &&& r is Ok ==> final(image)@ == flatten(old(image)@, m, base)
            &&& r is Err ==> r->Err_0.is_segment()
        }),
{
    let ghost m = segments_view(segs@);
    let ghost orig = image@;
    let mut base: u64 = u64::MAX;
    let mut i: usize = 0;
    while i < segs.len()
        invariant
            m == segments_view(segs@),
            0 <= i <= segs@.len(),
            image@ == orig,
            orig == old(image)@,
            base == min_address(m.take(i as int)),
        decreases segs@.len() - i,
    {
        assert(m.take(i as int + 1).drop_last() =~= m.take(i as int));
        let s = &segs[i];
        if s.size != 0 && s.address < base {
            base = s.address;
        }
        i = i + 1;
    }
    assert(m.take(segs@.len() as int) =~= m);
    let mut i: usize = 0;
    while i < segs.len()
        invariant
            m == segments_view(segs@),
            base == min_address(m),
            0 <= i <= segs@.len(),
            image@.len() == orig.len(),
            orig == old(image)@,
            image@ == flatten(orig, m.take(i as int), base),
            all_fit(m.take(i as int), base, orig.len()),
        decreases segs@.len() - i,
    {
        assert(m.take(i as int + 1).drop_last() =~= m.take(i as int));
        let s = &segs[i];
        if s.size != 0 && s.data.len() != 0 {
            proof {
                lemma_min_address_below(m, i as int);
            }
            let off: u64 = s.address - base;
            if s.data.len() > image.len() || off > (image.len() - s.data.len()) as u64 {
                assert(!fits(m[i as int], base, orig.len()));
                return Err(ElfError::ElfSegment);
            }
            copy_into(image, off as usize, &s.data);
        }
        assert forall|k: int| 0 <= k < i + 1 implies fits(#[trigger] m.take(i as int + 1)[k], base, orig.len()) by {
            if k < i {
                assert(m.take(i as int + 1)[k] == m.take(i as int)[k]);
            }
        }
        i = i + 1;
    }
    assert(m.take(segs@.len() as int) =~= m);
    Ok(())
}

/// Flattens the executable `data` into `image`: the file-backed bytes of each
/// loadable segment are copied at the segment's address less the lowest
/// loadable address; the rest of `image` is left as it was.
pub fn elf_to_raw(data: &[u8], image: &mut Vec<u8>) -> (r: Result<(), ElfError>)
    ensures
        final(image)@.len() == old(image)@.len(),
        match elf_segments(data@) {
            None => r is Err && r->Err_0.is_parse() && final(image)@ == old(image)@,
            Some(m) => {
                let base = min_address(m);
                &&& r is Ok <==> all_fit(m, base, old(image)@.len())
                &&& r is Ok ==> final(image)@ == flatten(old(image)@, m, base)
                &&& r is Err ==> r->Err_0.is_segment()
            },
        },
{
    match read_segments(data) {
        Err(e) => Err(ElfError::ElfParse(e)),
        Ok(segs) => place_segments(&segs, image),
    }
}

} // verus!
