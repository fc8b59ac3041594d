use vstd::prelude::*;

use crate::error::{ComposeError, ElfError};
use crate::extract::{elf_segments, elf_to_raw, flat_image, zeros};

verus! {

/// Size of the composite firmware image.
pub const IMAGE_SIZE: usize = 0x40000;

/// Offset of the supervisor's flat image; the loader's starts at 0.
pub const SUPERVISOR_OFFSET: usize = 0x5000;

/// Offset of the system image.
pub const SYSTEM_OFFSET: usize = 0x10000;

pub const LOADER_PATH: &'static str = "target/riscv64imac-unknown-none-elf/release/loader";

pub const SUPERVISOR_PATH: &'static str = "target/riscv64imac-unknown-none-elf/release/supervisor";

pub const SYSTEM_PATH: &'static str = "target/riscv64imac-unknown-none-elf/release/system";

/// The image made of the loader's and the supervisor's flat images and the
/// system image, zero-filled up to `IMAGE_SIZE`.
pub open spec fn composed(loader: Seq<u8>, supervisor: Seq<u8>, system: Seq<u8>) -> Seq<u8> {
    loader + supervisor + system + zeros((IMAGE_SIZE - SYSTEM_OFFSET - system.len()) as nat)
}

pub open spec fn loader_image(loader: Seq<u8>) -> Option<Seq<u8>> {
    flat_image(loader, SUPERVISOR_OFFSET as nat)
}

pub open spec fn supervisor_image(supervisor: Seq<u8>) -> Option<Seq<u8>> {
    flat_image(supervisor, (SYSTEM_OFFSET - SUPERVISOR_OFFSET) as nat)
}

pub open spec fn system_fits(system: Seq<u8>) -> bool {
    system.len() <= IMAGE_SIZE - SYSTEM_OFFSET
}

/// The kind of error that flattening the executable `data` ends in where it
/// fails: a parse error where it does not parse, else a segment error.
pub open spec fn extraction_error(data: Seq<u8>, e: ElfError) -> bool {
    match elf_segments(data) {
        None => e.is_parse(),
        Some(_) => e.is_segment(),
    }
}

/// The error that composing from the three artifacts ends in: it names the
/// first artifact, in the order loader, supervisor, system, that fails.
pub open spec fn compose_error(
    loader: Seq<u8>,
    supervisor: Seq<u8>,
    system: Seq<u8>,
    e: ComposeError,
) -> bool {
    ||| loader_image(loader) is None && e.file@ == LOADER_PATH@ && extraction_error(loader, e.err)
    ||| loader_image(loader) is Some && supervisor_image(supervisor) is None && e.file@
        == SUPERVISOR_PATH@ && extraction_error(supervisor, e.err)
    ||| loader_image(loader) is Some && supervisor_image(supervisor) is Some && !system_fits(
        system,
    ) && e.file@ == SYSTEM_PATH@ && e.err.is_too_small()
}

/// A zero-filled buffer of `n` bytes.
pub fn zeroed(n: usize) -> (v: Vec<u8>)
    ensures
        v@ == zeros(n as nat),
{
    let mut v: Vec<u8> = Vec::new();
    let mut i: usize = 0;
    while i < n
        invariant
            i <= n,
            v@ == zeros(i as nat),
        decreases n - i,
    {
        v.push(0u8);
        i = i + 1;
        assert(v@ =~= zeros(i as nat));
    }
    v
}

fn push_all(image: &mut Vec<u8>, d: &[u8])
    requires
        old(image)@.len() + d@.len() <= usize::MAX,
    ensures
        final(image)@ == old(image)@ + d@,
{
    let ghost orig = image@;
    let mut i: usize = 0;
    while i < d.len()
        invariant
            i <= d@.len(),
            image@ == orig + d@.take(i as int),
        decreases d@.len() - i,
    {
        image.push(d[i]);
        assert(d@.take(i as int + 1) =~= d@.take(i as int).push(d@[i as int]));
        i = i + 1;
        assert((orig + d@.take(i as int - 1)).push(d@[i as int - 1]) =~= orig + d@.take(
            i as int,
        ));
    }
    assert(d@.take(d@.len() as int) =~= d@);
}

/// Composes the firmware image from the loader and supervisor executables and
/// the flat system image: the loader's flat image at 0, the supervisor's at
/// `SUPERVISOR_OFFSET`, the system image at `SYSTEM_OFFSET`, zero elsewhere.
/// An error names the artifact that failed, the first in that order.
pub fn compose_tau_image(loader: &[u8], supervisor: &[u8], system: &[u8]) -> (r: Result<
    Vec<u8>,
    ComposeError,
>)
    ensures
        match r {
            Ok(img) => {
                &&& loader_image(loader@) is Some
                &&& supervisor_image(supervisor@) is Some
                &&& system_fits(system@)
                &&& img@ == composed(
                    loader_image(loader@)->0,
                    supervisor_image(supervisor@)->0,
                    system@,
                )
            },
            Err(e) => compose_error(loader@, supervisor@, system@, e),
        },
{
    let mut image = zeroed(SUPERVISOR_OFFSET);
    match elf_to_raw(loader, &mut image) {
        Ok(()) => {},
        Err(e) => {
            return Err(ComposeError::err(LOADER_PATH, e));
        },
    }
    let mut sup = zeroed(SYSTEM_OFFSET - SUPERVISOR_OFFSET);
    match elf_to_raw(supervisor, &mut sup) {
        Ok(()) => {},
        Err(e) => {
            return Err(ComposeError::err(SUPERVISOR_PATH, e));
        },
    }
    if system.len() > IMAGE_SIZE - SYSTEM_OFFSET {
        return Err(ComposeError::err(SYSTEM_PATH, ElfError::ElfOutputTooSmall));
    }
    image.append(&mut sup);
    push_all(&mut image, system);
    let pad = zeroed(IMAGE_SIZE - SYSTEM_OFFSET - system.len());
    push_all(&mut image, pad.as_slice());
    Ok(image)
}

/// The composite image is exactly `IMAGE_SIZE` bytes: the loader's flat image
/// in `[0, SUPERVISOR_OFFSET)`, the supervisor's in
/// `[SUPERVISOR_OFFSET, SYSTEM_OFFSET)`, the system image from
/// `SYSTEM_OFFSET` on, and zero in every byte after it.
pub proof fn composite_image_layout(loader: Seq<u8>, supervisor: Seq<u8>, system: Seq<u8>)
    requires
        loader.len() == SUPERVISOR_OFFSET,
        supervisor.len() == SYSTEM_OFFSET - SUPERVISOR_OFFSET,
        system_fits(system),
    ensures
        composed(loader, supervisor, system).len() == IMAGE_SIZE,
        composed(loader, supervisor, system).subrange(0, SUPERVISOR_OFFSET as int) == loader,
        composed(loader, supervisor, system).subrange(
            SUPERVISOR_OFFSET as int,
            SYSTEM_OFFSET as int,
        ) == supervisor,
        composed(loader, supervisor, system).subrange(
            SYSTEM_OFFSET as int,
            SYSTEM_OFFSET + system.len(),
        ) == system,
        forall|i: int|
            SYSTEM_OFFSET + system.len() <= i < IMAGE_SIZE ==> #[trigger] composed(
                loader,
                supervisor,
                system,
            )[i] == 0,
{
    let c = composed(loader, supervisor, system);
    assert(c.subrange(0, SUPERVISOR_OFFSET as int) =~= loader);
    assert(c.subrange(SUPERVISOR_OFFSET as int, SYSTEM_OFFSET as int) =~= supervisor);
    assert(c.subrange(SYSTEM_OFFSET as int, SYSTEM_OFFSET + system.len()) =~= system);
}

/// Whenever the three artifacts compose, the image is `IMAGE_SIZE` bytes.
pub proof fn composite_image_size(loader: Seq<u8>, supervisor: Seq<u8>, system: Seq<u8>)
    requires
        loader_image(loader) is Some,
        supervisor_image(supervisor) is Some,
        system_fits(system),
    ensures
        loader_image(loader)->0.len() == SUPERVISOR_OFFSET,
        supervisor_image(supervisor)->0.len() == SYSTEM_OFFSET - SUPERVISOR_OFFSET,
        composed(loader_image(loader)->0, supervisor_image(supervisor)->0, system).len()
            == IMAGE_SIZE,
{
    let m = loader_image(loader)->0;
    let s = supervisor_image(supervisor)->0;
    assert(m.len() == SUPERVISOR_OFFSET) by {
        crate::extract::lemma_flat_image_len(loader, SUPERVISOR_OFFSET as nat);
    }
    assert(s.len() == SYSTEM_OFFSET - SUPERVISOR_OFFSET) by {
        crate::extract::lemma_flat_image_len(supervisor, (SYSTEM_OFFSET - SUPERVISOR_OFFSET) as nat);
    }
}

} // verus!
