use vstd::prelude::*;

verus! {

/// Largest payload that the boot ROM loads.
pub const SPL_MAX_SIZE: usize = 180048;

/// Length of the header that precedes the payload.
pub const SPL_HEADER_SIZE: usize = 0x400;

/// Descriptor word at word 0 of the header.
pub const SPL_DESCRIPTOR: u32 = 0x240;

/// Backup-copy offset used when the caller gives none.
pub const SPL_DEFAULT_BACKUP_OFFSET: u32 = 0x200000;

/// Version word used when the caller gives none.
pub const SPL_DEFAULT_VERSION: u32 = 0x01010101;

/// Why a loader header could not be built.
#[derive(Debug, Clone, Copy, PartialEq, Eq, Structural)]
pub enum SplError {
    /// The payload is longer than `SPL_MAX_SIZE` bytes.
    TooBig,
}

/// The CRC-32 (ISO-HDLC) of `data`.
pub uninterp spec fn crc32_iso_hdlc(data: Seq<u8>) -> u32;

/// Relies on `crc::Crc::<u32>::checksum` with `crc::CRC_32_ISO_HDLC`: the
/// CRC-32 (ISO-HDLC) of the bytes, a function of the bytes alone.
#[verifier::external_body]
fn checksum(data: &[u8]) -> (r: u32)
    ensures
        r == crc32_iso_hdlc(data@),
{
    crc::Crc::<u32>::new(&crc::CRC_32_ISO_HDLC).checksum(data)
}

/// Byte `b` (0 to 3) of `x` in little-endian order.
pub open spec fn le_byte(x: u32, b: int) -> u8 {
    if b == 0 {
        (x % 256) as u8
    } else if b == 1 {
        ((x / 256) % 256) as u8
    } else if b == 2 {
        ((x / 65536) % 256) as u8
    } else {
        ((x / 16777216) % 256) as u8
    }
}

/// The little-endian word at word index `w` of `h`.
pub open spec fn le_word(h: Seq<u8>, w: int) -> int {
    h[4 * w] + h[4 * w + 1] * 256 + h[4 * w + 2] * 65536 + h[4 * w + 3] * 16777216
}

/// The value of word `w` in a header with the given fields.
pub open spec fn header_word(w: int, len: u32, crc: u32, backup: u32, version: u32) -> u32 {
    if w == 0 {
        SPL_DESCRIPTOR
    } else if w == 1 {
        backup
    } else if w == 0xa1 {
        version
    } else if w == 0xa2 {
        len
    } else if w == 0xa3 {
        SPL_HEADER_SIZE as u32
    } else if w == 0xa4 {
        crc
    } else {
        0
    }
}

/// The header for a payload of `len` bytes with checksum `crc`.
pub open spec fn spl_header(len: u32, crc: u32, backup: u32, version: u32) -> Seq<u8> {
    Seq::new(
        SPL_HEADER_SIZE as nat,
        |i: int| le_byte(header_word(i / 4, len, crc, backup, version), i % 4),
    )
}

pub open spec fn backup_or_default(backup_offset: Option<u32>) -> u32 {
    match backup_offset {
        Some(b) => b,
        None => SPL_DEFAULT_BACKUP_OFFSET,
    }
}

pub open spec fn version_or_default(version: Option<u32>) -> u32 {
    match version {
        Some(v) => v,
        None => SPL_DEFAULT_VERSION,
    }
}

proof fn lemma_le_bytes_join(x: u32)
    ensures
        le_byte(x, 0) + le_byte(x, 1) * 256 + le_byte(x, 2) * 65536 + le_byte(x, 3) * 16777216
            == x,
{
    let v = x as int;
    assert(v / 65536 == (v / 256) / 256) by (nonlinear_arith)
        requires
            v >= 0,
    ;
    assert(v / 16777216 == (v / 65536) / 256) by (nonlinear_arith)
        requires
            v >= 0,
    ;
}

fn write_word(header: &mut Vec<u8>, w: usize, x: u32)
    requires
        old(header)@.len() == SPL_HEADER_SIZE,
        w < SPL_HEADER_SIZE / 4,
    ensures
        final(header)@.len() == SPL_HEADER_SIZE,
        forall|i: int|
            0 <= i < SPL_HEADER_SIZE ==> #[trigger] final(header)@[i] == if i / 4 == w {
                le_byte(x, i % 4)
            } else {
                old(header)@[i]
            },
{
    header.set(4 * w, (x % 256) as u8);
    header.set(4 * w + 1, ((x / 256) % 256) as u8);
    header.set(4 * w + 2, ((x / 65536) % 256) as u8);
    header.set(4 * w + 3, ((x / 16777216) % 256) as u8);
}

/// Builds the loader header for a payload of `len` bytes whose checksum is
/// `crc`, with the backup offset and version given or their defaults.
pub fn encode_spl_header(
    len: usize,
    crc: u32,
    backup_offset: Option<u32>,
    version: Option<u32>,
) -> (r: Result<Vec<u8>, SplError>)
    ensures
        match r {
            Ok(h) => len <= SPL_MAX_SIZE && h@ == spl_header(
                len as u32,
                crc,
                backup_or_default(backup_offset),
                version_or_default(version),
            ),
            Err(e) => len > SPL_MAX_SIZE && e == SplError::TooBig,
        },
{
    if len > SPL_MAX_SIZE {
        return Err(SplError::TooBig);
    }
    let backup = match backup_offset {
        Some(b) => b,
        None => SPL_DEFAULT_BACKUP_OFFSET,
    };
    let ver = match version {
        Some(v) => v,
        None => SPL_DEFAULT_VERSION,
    };
    let mut header: Vec<u8> = Vec::new();
    let mut i: usize = 0;
    while i < SPL_HEADER_SIZE
        invariant
            i <= SPL_HEADER_SIZE,
            header@.len() == i,
            forall|k: int| 0 <= k < i ==> #[trigger] header@[k] == 0u8,
        decreases SPL_HEADER_SIZE - i,
    {
        header.push(0u8);
        i = i + 1;
    }
    write_word(&mut header, 0x00, SPL_DESCRIPTOR);
    write_word(&mut header, 0x01, backup);
    write_word(&mut header, 0xa1, ver);
    write_word(&mut header, 0xa2, len as u32);
    write_word(&mut header, 0xa3, SPL_HEADER_SIZE as u32);
    write_word(&mut header, 0xa4, crc);
    let ghost expect = spl_header(len as u32, crc, backup, ver);
    assert forall|i: int| 0 <= i < SPL_HEADER_SIZE implies #[trigger] header@[i] == expect[i] by {
    }
    assert(header@ =~= expect);
    Ok(header)
}

/// Builds the 1024-byte header that the boot ROM reads before loading the
/// payload `spl`: descriptor, backup offset, version, payload length, header
/// length and the payload's CRC-32, each a little-endian word.
pub fn calc_spl_header(spl: &[u8], backup_offset: Option<u32>, version: Option<u32>) -> (r: Result<
    Vec<u8>,
    SplError,
>)
    ensures
        match r {
            Ok(h) => spl@.len() <= SPL_MAX_SIZE && h@ == spl_header(
                spl@.len() as u32,
                crc32_iso_hdlc(spl@),
                backup_or_default(backup_offset),
                version_or_default(version),
            ),
            Err(e) => spl@.len() > SPL_MAX_SIZE && e == SplError::TooBig,
        },
{
    if spl.len() > SPL_MAX_SIZE {
        return Err(SplError::TooBig);
    }
    let crc = checksum(spl);
    encode_spl_header(spl.len(), crc, backup_offset, version)
}

/// Every word of a header reads back, little-endian, as the field written
/// there: the descriptor, the backup offset, the version, the payload length,
/// the header length and the checksum.
pub proof fn spl_header_fields(len: u32, crc: u32, backup: u32, version: u32)
    ensures
        spl_header(len, crc, backup, version).len() == SPL_HEADER_SIZE,
        le_word(spl_header(len, crc, backup, version), 0x00) == SPL_DESCRIPTOR,
        le_word(spl_header(len, crc, backup, version), 0x01) == backup,
        le_word(spl_header(len, crc, backup, version), 0xa1) == version,
        le_word(spl_header(len, crc, backup, version), 0xa2) == len,
        le_word(spl_header(len, crc, backup, version), 0xa3) == SPL_HEADER_SIZE,
        le_word(spl_header(len, crc, backup, version), 0xa4) == crc,
{
    let h = spl_header(len, crc, backup, version);
    assert forall|w: int| 0 <= w < 0x100 implies #[trigger] le_word(h, w) == header_word(
        w,
        len,
        crc,
        backup,
        version,
    ) by {
        let x = header_word(w, len, crc, backup, version);
        assert((4 * w) / 4 == w && (4 * w) % 4 == 0);
        assert((4 * w + 1) / 4 == w && (4 * w + 1) % 4 == 1);
        assert((4 * w + 2) / 4 == w && (4 * w + 2) % 4 == 2);
        assert((4 * w + 3) / 4 == w && (4 * w + 3) % 4 == 3);
        lemma_le_bytes_join(x);
    }
    assert(le_word(h, 0x00) == header_word(0x00, len, crc, backup, version));
    assert(le_word(h, 0x01) == header_word(0x01, len, crc, backup, version));
    assert(le_word(h, 0xa1) == header_word(0xa1, len, crc, backup, version));
    assert(le_word(h, 0xa2) == header_word(0xa2, len, crc, backup, version));
    assert(le_word(h, 0xa3) == header_word(0xa3, len, crc, backup, version));
    assert(le_word(h, 0xa4) == header_word(0xa4, len, crc, backup, version));
}

} // verus!
