use vstd::prelude::*;

use crate::compose::{compose_error, composed, compose_tau_image, loader_image, supervisor_image, system_fits};
use crate::error::ComposeError;
use vstd::slice::slice_to_vec;
use crate::header::{
    backup_or_default, calc_spl_header, crc32_iso_hdlc, spl_header, version_or_default, SplError,
    SPL_MAX_SIZE,
};

verus! {

/// Size of a logical block of the partition table.
pub const LOGICAL_BLOCK_SIZE: u64 = 512;

/// Block count that the protective boot sector declares.
pub const PROTECTIVE_MBR_BLOCKS: u32 = 0xFFFF_FFFF;

/// Device byte offset of the loader header and its payload, and of the
/// composite image on update.
pub const SPL_OFFSET: u64 = 0x200000;

/// Device byte offset of the firmware payload.
pub const FIRMWARE_OFFSET: u64 = 0x400000;

pub const SPL_PARTITION_NAME: &'static str = "starfive_visionfive_2_u-boot-spl";

pub const SPL_PARTITION_TYPE: &'static str = "2E54B353-1271-4842-806F-E436D6AF6985";

pub const FIRMWARE_PARTITION_NAME: &'static str = "starfive_visionfive_2_u-boot";

pub const FIRMWARE_PARTITION_TYPE: &'static str = "5B193300-FC78-40CD-8002-E86C45580B47";

/// One partition of the table: its name, index, first block, length in
/// blocks and type GUID.
pub struct PartitionEntry {
    pub name: String,
    pub index: u32,
    pub first_lba: u64,
    pub length_lba: u64,
    pub type_guid: u128,
}

/// A run of bytes to be written at a byte offset of the device.
pub struct DeviceWrite {
    pub offset: u64,
    pub data: Vec<u8>,
}

pub open spec fn writes_view(v: Seq<DeviceWrite>) -> Seq<(int, Seq<u8>)> {
    Seq::new(v.len(), |i: int| (v[i].offset as int, v[i].data@))
}

/// The value of the GUID that `s` spells, or `None` where `s` spells none.
pub uninterp spec fn guid_of(s: Seq<char>) -> Option<u128>;

/// Relies on `uuid::Uuid::parse_str` and `Uuid::as_u128`: the GUID that the
/// text spells, a function of the text alone.
#[verifier::external_body]
fn parse_guid(s: &str) -> (r: Option<u128>)
    ensures
        r == guid_of(s@),
{
    uuid::Uuid::parse_str(s).ok().map(|u| u.as_u128())
}

/// The platform's two partitions: the loader's at block 4096, 4096 blocks
/// long, and the bootloader's at block 8192, 8192 blocks long; `None` where
/// a type GUID does not parse.
pub fn platform_partitions() -> (r: Option<Vec<PartitionEntry>>)
    ensures
        match r {
            Some(v) => {
                &&& guid_of(SPL_PARTITION_TYPE@) is Some
                &&& guid_of(FIRMWARE_PARTITION_TYPE@) is Some
                &&& v@.len() == 2
                &&& v@[0].name@ == SPL_PARTITION_NAME@ && v@[0].index == 1
                &&& v@[0].first_lba == 4096 && v@[0].length_lba == 4096
                &&& v@[0].type_guid == guid_of(SPL_PARTITION_TYPE@)->0
                &&& v@[1].name@ == FIRMWARE_PARTITION_NAME@ && v@[1].index == 2
                &&& v@[1].first_lba == 8192 && v@[1].length_lba == 8192
                &&& v@[1].type_guid == guid_of(FIRMWARE_PARTITION_TYPE@)->0
            },
            None => guid_of(SPL_PARTITION_TYPE@) is None || guid_of(FIRMWARE_PARTITION_TYPE@) is None,
        },
{
    let spl_ty = match parse_guid(SPL_PARTITION_TYPE) {
        Some(g) => g,
        None => {
            return None;
        },
    };
    let fw_ty = match parse_guid(FIRMWARE_PARTITION_TYPE) {
        Some(g) => g,
        None => {
            return None;
        },
    };
    let mut v: Vec<PartitionEntry> = Vec::new();
    v.push(
        PartitionEntry {
            name: SPL_PARTITION_NAME.to_string(),
            index: 1,
            first_lba: 4096,
            length_lba: 4096,
            type_guid: spl_ty,
        },
    );
    v.push(
        PartitionEntry {
            name: FIRMWARE_PARTITION_NAME.to_string(),
            index: 2,
            first_lba: 8192,
            length_lba: 8192,
            type_guid: fw_ty,
        },
    );
    Some(v)
}

/// The device after `data` is written at `off`: the bytes there replaced,
/// the device grown with zeros where the write reaches past its end.
pub open spec fn apply_write(dev: Seq<u8>, off: int, data: Seq<u8>) -> Seq<u8> {
    let n = if dev.len() < off + data.len() { off + data.len() } else { dev.len() as int };
    Seq::new(
        n as nat,
        |i: int|
            if off <= i < off + data.len() {
                data[i - off]
            } else if i < dev.len() {
                dev[i]
            } else {
                0u8
            },
    )
}

/// The device after each write, in order.
pub open spec fn apply_writes(dev: Seq<u8>, ws: Seq<(int, Seq<u8>)>) -> Seq<u8>
    decreases ws.len(),
{
    if ws.len() == 0 {
        dev
    } else {
        apply_write(apply_writes(dev, ws.drop_last()), ws.last().0, ws.last().1)
    }
}

/// What full provisioning writes after the partition table: the header
/// followed by its payload at `SPL_OFFSET`, the firmware at `FIRMWARE_OFFSET`.
pub open spec fn format_plan(spl: Seq<u8>, firmware: Seq<u8>) -> Seq<(int, Seq<u8>)> {
    seq![
        (
            SPL_OFFSET as int,
            spl_header(
                spl.len() as u32,
                crc32_iso_hdlc(spl),
                backup_or_default(None),
                version_or_default(None),
            ) + spl,
        ),
        (FIRMWARE_OFFSET as int, firmware),
    ]
}

/// What an update writes: the composite image at `SPL_OFFSET`.
pub open spec fn update_plan(image: Seq<u8>) -> Seq<(int, Seq<u8>)> {
    seq![(SPL_OFFSET as int, image)]
}

/// The writes of full provisioning for the loader payload `spl` and the
/// firmware payload `firmware`; fails where `spl` is too large for the loader.
pub fn format_writes(spl: &[u8], firmware: &[u8]) -> (r: Result<Vec<DeviceWrite>, SplError>)
    ensures
        match r {
            Ok(v) => spl@.len() <= SPL_MAX_SIZE && writes_view(v@) == format_plan(spl@, firmware@),
            Err(e) => spl@.len() > SPL_MAX_SIZE && e == SplError::TooBig,
        },
{
    let mut head = match calc_spl_header(spl, None, None) {
        Ok(h) => h,
        Err(e) => {
            return Err(e);
        },
    };
    let mut tail = slice_to_vec(spl);
    head.append(&mut tail);
    let mut v: Vec<DeviceWrite> = Vec::new();
    v.push(DeviceWrite { offset: SPL_OFFSET, data: head });
    v.push(DeviceWrite { offset: FIRMWARE_OFFSET, data: slice_to_vec(firmware) });
    assert(writes_view(v@) =~= format_plan(spl@, firmware@));
    Ok(v)
}

/// The writes of an update: the image composed from the loader and
/// supervisor executables and the system image, at `SPL_OFFSET`.
pub fn update_writes(loader: &[u8], supervisor: &[u8], system: &[u8]) -> (r: Result<
    Vec<DeviceWrite>,
    ComposeError,
>)
    ensures
        match r {
            Ok(v) => {
                &&& loader_image(loader@) is Some
                &&& supervisor_image(supervisor@) is Some
                &&& system_fits(system@)
                &&& writes_view(v@) == update_plan(
                    composed(loader_image(loader@)->0, supervisor_image(supervisor@)->0, system@),
                )
            },
            Err(e) => compose_error(loader@, supervisor@, system@, e),
        },
{
    let image = match compose_tau_image(loader, supervisor, system) {
        Ok(i) => i,
        Err(e) => {
            return Err(e);
        },
    };
    let mut v: Vec<DeviceWrite> = Vec::new();
    v.push(DeviceWrite { offset: SPL_OFFSET, data: image });
    assert(writes_view(v@) =~= update_plan(
        composed(loader_image(loader@)->0, supervisor_image(supervisor@)->0, system@),
    ));
    Ok(v)
}

/// Writing the same bytes at the same offset a second time leaves the device
/// as the first write left it.
pub proof fn apply_write_idempotent(dev: Seq<u8>, off: int, data: Seq<u8>)
    requires
        0 <= off,
    ensures
        apply_write(apply_write(dev, off, data), off, data) == apply_write(dev, off, data),
{
    assert(apply_write(apply_write(dev, off, data), off, data) =~= apply_write(dev, off, data));
}

/// Running an update twice with unchanged artifacts leaves the device
/// byte for byte as after the first run.
pub proof fn update_is_idempotent(
    dev: Seq<u8>,
    loader: Seq<u8>,
    supervisor: Seq<u8>,
    system: Seq<u8>,
)
    requires
        loader_image(loader) is Some,
        supervisor_image(supervisor) is Some,
        system_fits(system),
    ensures
        ({
            let w = update_plan(
                composed(loader_image(loader)->0, supervisor_image(supervisor)->0, system),
            );
            apply_writes(apply_writes(dev, w), w) == apply_writes(dev, w)
        }),
{
    let img = composed(loader_image(loader)->0, supervisor_image(supervisor)->0, system);
    let w = update_plan(img);
    assert(w.len() == 1 && w.last() == (SPL_OFFSET as int, img));
    assert(w.drop_last() =~= Seq::<(int, Seq<u8>)>::empty());
    assert(apply_writes(dev, w.drop_last()) == dev);
    assert(apply_writes(dev, w) == apply_write(dev, SPL_OFFSET as int, img));
    let once = apply_writes(dev, w);
    assert(apply_writes(once, w.drop_last()) == once);
    assert(apply_writes(once, w) == apply_write(once, SPL_OFFSET as int, img));
    apply_write_idempotent(dev, SPL_OFFSET as int, img);
}

} // verus!
