use vstd::prelude::*;
use mbr_nostd::PartitionTable;

verus! {

/// Size of the boot record sector, in bytes.
pub const RECORD_SIZE: usize = 512;

/// Offset of the partition table inside the boot record.
pub const TABLE_OFFSET: usize = 446;

/// Size of one partition table entry.
pub const ENTRY_SIZE: usize = 16;

/// Status byte of an entry marked bootable.
pub const BOOTABLE_FLAG: u8 = 0x80;

/// Byte offset of entry `i` inside the boot record.
pub open spec fn entry_offset(i: int) -> int {
    TABLE_OFFSET + ENTRY_SIZE * i
}

/// The little-endian 32-bit number stored at `off`.
pub open spec fn le_u32(b: Seq<u8>, off: int) -> int {
    b[off] + 256 * b[off + 1] + 65536 * b[off + 2] + 16777216 * b[off + 3]
}

/// The partition type tags that the boot record parser recognises
/// (unused, FAT12, FAT16, FAT32, Linux, NTFS/exFAT, HFS+).
pub open spec fn tag_known(t: u8) -> bool {
    t == 0x00 || t == 0x01 || t == 0x04 || t == 0x06 || t == 0x0e || t == 0x0b || t == 0x0c
        || t == 0x1b || t == 0x1c || t == 0x83 || t == 0x07 || t == 0xaf
}

/// The bytes form a boot record that the parser accepts: at least one sector,
/// the `55 aa` signature, and a recognised type tag in all four entries.
pub open spec fn record_parses(b: Seq<u8>) -> bool {
    &&& b.len() >= RECORD_SIZE
    &&& b[510] == 0x55u8
    &&& b[511] == 0xaau8
    &&& forall|i: int| 0 <= i < 4 ==> tag_known(#[trigger] b[entry_offset(i) + 4])
}

/// One entry of the partition table, as the parser reports it.
#[derive(Clone, Copy, Debug, PartialEq, Eq, Structural)]
pub struct PartitionEntry {
    /// The partition type tag; zero marks an unused entry.
    pub tag: u8,
    pub start_sector: u32,
    pub sector_count: u32,
}

/// The entry that the parser reports for entry `i` of `b`.
pub open spec fn entry_at(b: Seq<u8>, i: int) -> PartitionEntry {
    PartitionEntry {
        tag: b[entry_offset(i) + 4],
        start_sector: le_u32(b, entry_offset(i) + 8) as u32,
        sector_count: le_u32(b, entry_offset(i) + 12) as u32,
    }
}

#[verifier::external_type_specification]
#[verifier::external_body]
pub struct ExMbrError(mbr_nostd::MbrError);

/// Relies on mbr_nostd::MasterBootRecord::from_bytes: it fails on a buffer
/// shorter than 512 bytes, on a missing `55 aa` signature and on an unknown
/// type tag; otherwise it reads the four entries (type tag at +4, start
/// sector at +8, sector count at +12, little-endian). `to_mbr_tag_byte`
/// gives back the tag that was read.
#[verifier::external_body]
fn parse_partition_table(bytes: &[u8]) -> (r: Result<Vec<PartitionEntry>, mbr_nostd::MbrError>)
    ensures
        r is Ok <==> record_parses(bytes@),
        r matches Ok(v) ==> v@.len() == 4 && forall|i: int|
            0 <= i < 4 ==> #[trigger] v@[i] == entry_at(bytes@, i),
{
    let record = mbr_nostd::MasterBootRecord::from_bytes(&bytes)?;
    Ok(record.partition_table_entries().iter().map(|e| PartitionEntry {
        tag: e.partition_type.to_mbr_tag_byte(),
        start_sector: e.logical_block_address,
        sector_count: e.sector_count,
    }).collect())
}

/// Parses the partition table of a boot record; `None` where the parser
/// rejects it.
pub fn partition_entries(bytes: &[u8]) -> (r: Option<Vec<PartitionEntry>>)
    ensures
        r is Some <==> record_parses(bytes@),
        r matches Some(v) ==> v@.len() == 4 && forall|i: int|
            0 <= i < 4 ==> #[trigger] v@[i] == entry_at(bytes@, i),
{
    match parse_partition_table(bytes) {
        Ok(v) => Some(v),
        Err(_) => None,
    }
}

/// Whether entry `i` of the record carries the bootable status flag.
pub fn entry_bootable(bytes: &[u8], i: usize) -> (r: bool)
    requires
        bytes@.len() >= RECORD_SIZE,
        i < 4,
    ensures
        r == (bytes@[entry_offset(i as int)] == BOOTABLE_FLAG),
{
    bytes[TABLE_OFFSET + ENTRY_SIZE * i] == BOOTABLE_FLAG
}

} // verus!
