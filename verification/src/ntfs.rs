//! On-disk volume structures: the boot record and master-file-table file
//! records, parsed from raw bytes, plus the geometry arithmetic and time
//! conversion the raw fast path needs. The raw sector reads themselves are
//! I/O and live outside the library; everything here is a function of the
//! bytes alone.

use vstd::prelude::*;

verus! {

/// Division truncating toward zero, as machine division does.
pub open spec fn trunc_div(a: int, b: int) -> int
    recommends
        b > 0,
{
    if a >= 0 {
        a / b
    } else {
        -((-a) / b)
    }
}

/// Seconds between the 1601 and 1970 epochs.
pub open spec fn epoch_shift() -> int {
    11644473600
}

/// Convert a timestamp in 100-nanosecond intervals since 1601-01-01 to
/// unix epoch seconds.
pub fn windows_time_to_unix_time(windows_time: i64) -> (r: i64)
    ensures
        r == trunc_div(windows_time as int, 10_000_000) - epoch_shift(),
{
    if windows_time >= 0 {
        let q = (windows_time as u64) / 10_000_000;
        (q as i64) - 11644473600
    } else {
        let m = (-(windows_time as i128)) as u64;
        let q = m / 10_000_000;
        proof {
            assert(m == -(windows_time as int));
        }
        -(q as i64) - 11644473600
    }
}

/// The little-endian value of two bytes.
pub open spec fn le16(s: Seq<u8>, off: int) -> u16
    recommends
        0 <= off,
        off + 2 <= s.len(),
{
    (s[off] + s[off + 1] * 0x100) as u16
}

/// The little-endian value of four bytes.
pub open spec fn le32(s: Seq<u8>, off: int) -> u32
    recommends
        0 <= off,
        off + 4 <= s.len(),
{
    (le16(s, off) + le16(s, off + 2) * 0x10000) as u32
}

/// The little-endian value of eight bytes.
pub open spec fn le64(s: Seq<u8>, off: int) -> u64
    recommends
        0 <= off,
        off + 8 <= s.len(),
{
    (le32(s, off) + le32(s, off + 4) * 0x1_0000_0000) as u64
}

/// Read a little-endian two-byte value.
pub fn read_le16(s: &[u8], off: usize) -> (r: u16)
    requires
        off + 2 <= s@.len(),
    ensures
        r == le16(s@, off as int),
{
    let b0 = s[off];
    let b1 = s[off + 1];
    b0 as u16 + (b1 as u16) * 0x100
}

/// Read a little-endian four-byte value.
pub fn read_le32(s: &[u8], off: usize) -> (r: u32)
    requires
        off + 4 <= s@.len(),
    ensures
        r == le32(s@, off as int),
{
    let n = s.len();
    let lo = read_le16(s, off);
    let hi = read_le16(s, off + 2);
    lo as u32 + (hi as u32) * 0x10000
}

/// Read a little-endian eight-byte value.
pub fn read_le64(s: &[u8], off: usize) -> (r: u64)
    requires
        off + 8 <= s@.len(),
    ensures
        r == le64(s@, off as int),
{
    let n = s.len();
    let lo = read_le32(s, off);
    let hi = read_le32(s, off + 4);
    lo as u64 + (hi as u64) * 0x1_0000_0000
}

/// The boot record of a volume: the geometry fields of its first sector.
pub struct NtfsBootRecord {
    /// Bytes per sector.
    pub bytes_per_sector: u16,
    /// Sectors per cluster.
    pub sectors_per_cluster: u8,
    /// Reserved sectors.
    pub reserved_sectors: u16,
    /// Media descriptor byte.
    pub media_descriptor: u8,
    /// Sectors per track.
    pub sectors_per_track: u16,
    /// Number of heads.
    pub number_of_heads: u16,
    /// Hidden sectors preceding the partition.
    pub hidden_sectors: u32,
    /// Total sectors on the volume.
    pub total_sectors: u64,
    /// Logical cluster number of the master file table.
    pub mft_logical_cluster_number: u64,
    /// Logical cluster number of the table's mirror.
    pub mft_mirror_logical_cluster_number: u64,
    /// Clusters per file record segment; negative means a power-of-two
    /// fraction of a cluster.
    pub clusters_per_file_record_segment: i8,
    /// Clusters per index block.
    pub clusters_per_index_block: u8,
    /// The volume's serial number.
    pub volume_serial_number: u64,
    /// Boot sector checksum.
    pub checksum: u32,
}

/// Whether a sector starts a volume of this kind: long enough, with the
/// magic name at offset three.
pub open spec fn boot_sig_ok(s: Seq<u8>) -> bool {
    &&& s.len() >= 512
    &&& s[3] == 0x4eu8
    &&& s[4] == 0x54u8
    &&& s[5] == 0x46u8
    &&& s[6] == 0x53u8
    &&& s[7] == 0x20u8
    &&& s[8] == 0x20u8
    &&& s[9] == 0x20u8
    &&& s[10] == 0x20u8
}

/// Parse a boot sector: `None` unless it is long enough and carries the
/// magic name; otherwise every geometry field read from its place.
pub fn parse_boot_record(s: &[u8]) -> (r: Option<NtfsBootRecord>)
    ensures
        r is Some <==> boot_sig_ok(s@),
        r matches Some(b) ==> {
            &&& b.bytes_per_sector == le16(s@, 11)
            &&& b.sectors_per_cluster == s@[13]
            &&& b.reserved_sectors == le16(s@, 14)
            &&& b.media_descriptor == s@[21]
            &&& b.sectors_per_track == le16(s@, 24)
            &&& b.number_of_heads == le16(s@, 26)
            &&& b.hidden_sectors == le32(s@, 28)
            &&& b.total_sectors == le64(s@, 40)
            &&& b.mft_logical_cluster_number == le64(s@, 48)
            &&& b.mft_mirror_logical_cluster_number == le64(s@, 56)
            &&& b.clusters_per_file_record_segment == s@[64] as i8
            &&& b.clusters_per_index_block == s@[68]
            &&& b.volume_serial_number == le64(s@, 72)
            &&& b.checksum == le32(s@, 80)
        },
{
    if s.len() < 512 {
        return Option::None;
    }
    if !(s[3] == 0x4e && s[4] == 0x54 && s[5] == 0x46 && s[6] == 0x53 && s[7] == 0x20 && s[8]
        == 0x20 && s[9] == 0x20 && s[10] == 0x20) {
        return Option::None;
    }
    Option::Some(
        NtfsBootRecord {
            bytes_per_sector: read_le16(s, 11),
            sectors_per_cluster: s[13],
            reserved_sectors: read_le16(s, 14),
            media_descriptor: s[21],
            sectors_per_track: read_le16(s, 24),
            number_of_heads: read_le16(s, 26),
            hidden_sectors: read_le32(s, 28),
            total_sectors: read_le64(s, 40),
            mft_logical_cluster_number: read_le64(s, 48),
            mft_mirror_logical_cluster_number: read_le64(s, 56),
            clusters_per_file_record_segment: s[64] as i8,
            clusters_per_index_block: s[68],
            volume_serial_number: read_le64(s, 72),
            checksum: read_le32(s, 80),
        },
    )
}

/// The size in bytes of one file record segment: a fixed kilobyte base,
/// scaled by the cluster count, or divided down when the count is the
/// negated exponent of a power of two.
pub fn file_record_size(clusters_per_file_record_segment: i8) -> (r: usize)
    requires
        clusters_per_file_record_segment >= -30,
    ensures
        clusters_per_file_record_segment < 0 ==> r == 0x400int / vstd::arithmetic::power2::pow2(
            (-(clusters_per_file_record_segment as int)) as nat,
        ) as int,
        clusters_per_file_record_segment >= 0 ==> r == 0x400int
            * clusters_per_file_record_segment as int,
{
    if clusters_per_file_record_segment < 0 {
        let sh = (-(clusters_per_file_record_segment as i32)) as u32;
        let mut d: usize = 1;
        let mut q: u32 = 0;
        proof {
            vstd::arithmetic::power2::lemma2_to64();
        }
        while q < sh
            invariant
                q <= sh <= 30,
                d == vstd::arithmetic::power2::pow2(q as nat),
                1 <= d <= 0x4000_0000,
            decreases sh - q,
        {
            proof {
                vstd::arithmetic::power2::lemma_pow2_unfold((q + 1) as nat);
                vstd::arithmetic::power2::lemma_pow2_strictly_increases(
                    q as nat,
                    (q + 1) as nat,
                );
                vstd::arithmetic::power2::lemma_pow2_adds(q as nat, (30 - q) as nat);
                vstd::arithmetic::power2::lemma_pow2_pos((30 - q) as nat);
            }
            assert(vstd::arithmetic::power2::pow2((q + 1) as nat) <= vstd::arithmetic::power2::pow2(
                30,
            )) by {
                if q + 1 < 30 {
                    vstd::arithmetic::power2::lemma_pow2_strictly_increases((q + 1) as nat, 30nat);
                }
            }
            assert(vstd::arithmetic::power2::pow2(30) == 0x4000_0000) by {
                vstd::arithmetic::power2::lemma2_to64();
            }
            d = d * 2;
            q = q + 1;
        }
        0x400 / d
    } else {
        0x400 * (clusters_per_file_record_segment as usize)
    }
}

/// The byte offset of the master file table: its cluster number times the
/// cluster size, clamped to `u64`.
pub fn mft_byte_offset(mft_cluster: u64, bytes_per_cluster: u64) -> (r: u64)
    ensures
        r == crate::scanner::clip64(mft_cluster * bytes_per_cluster),
{
    proof {
        vstd::arithmetic::mul::lemma_mul_upper_bound(
            mft_cluster as int,
            0xffff_ffff_ffff_ffffint,
            bytes_per_cluster as int,
            0xffff_ffff_ffff_ffffint,
        );
    }
    let wide = (mft_cluster as u128) * (bytes_per_cluster as u128);
    if wide > 0xffff_ffff_ffff_ffff {
        u64::MAX
    } else {
        wide as u64
    }
}

/// One file record of the master file table.
pub struct FileRecord {
    /// Whether the record is a directory.
    pub is_directory: bool,
    /// Whether the record is free: its in-use bit is clear.
    pub is_deleted: bool,
    /// Apparent size of the unnamed data stream, in bytes.
    pub file_size: u64,
    /// Allocated size of the unnamed data stream, in bytes.
    pub allocated_size: u64,
    /// The record's file name, decoded code unit by code unit.
    pub file_name: Vec<char>,
    /// The record number of the parent directory, with its sequence bits.
    pub parent_directory_reference: u64,
}

/// The model of a file record.
pub ghost struct FileRecordV {
    pub is_directory: bool,
    pub is_deleted: bool,
    pub file_size: u64,
    pub allocated_size: u64,
    pub file_name: Seq<char>,
    pub parent_directory_reference: u64,
}

impl View for FileRecord {
    type V = FileRecordV;

    open spec fn view(&self) -> FileRecordV {
        FileRecordV {
            is_directory: self.is_directory,
            is_deleted: self.is_deleted,
            file_size: self.file_size,
            allocated_size: self.allocated_size,
            file_name: self.file_name@,
            parent_directory_reference: self.parent_directory_reference,
        }
    }
}

/// A record parse can fail only one way.
#[derive(Clone, Copy, Debug, PartialEq, Eq, Structural)]
pub enum RecordError {
    /// The buffer does not start with a valid record header.
    InvalidSignature,
}

/// Whether a buffer starts a file record: long enough for the header,
/// with the magic name first.
pub open spec fn record_sig_ok(s: Seq<u8>) -> bool {
    &&& s.len() >= 24
    &&& s[0] == 0x46u8
    &&& s[1] == 0x49u8
    &&& s[2] == 0x4cu8
    &&& s[3] == 0x45u8
}

/// A code unit that is a scalar value of its own, not a surrogate half.
pub open spec fn valid_unit(u: u16) -> bool {
    u < 0xD800 || u >= 0xE000
}

/// The characters of `n` little-endian code units at `off`, in order,
/// surrogate halves left out.
pub open spec fn utf16_chars(s: Seq<u8>, off: int, n: int) -> Seq<char>
    decreases n,
{
    if n <= 0 {
        Seq::empty()
    } else {
        let u = le16(s, off + 2 * (n - 1));
        utf16_chars(s, off, n - 1) + if valid_unit(u) {
            seq![(u as u32) as char]
        } else {
            Seq::empty()
        }
    }
}

/// What a resident file-name attribute at `off` contributes: the parent
/// reference and the decoded name, each only as far as the buffer reaches.
pub open spec fn apply_filename(s: Seq<u8>, off: int, fr: FileRecordV) -> FileRecordV {
    if off + 22 <= s.len() {
        let aco = off + le16(s, off + 20);
        if aco + 8 < s.len() {
            let fr1 = FileRecordV { parent_directory_reference: le64(s, aco), ..fr };
            if aco + 64 < s.len() {
                let name_len = s[aco + 64] as int;
                let name_off = aco + 66;
                if name_off + name_len * 2 <= s.len() {
                    FileRecordV { file_name: utf16_chars(s, name_off, name_len), ..fr1 }
                } else {
                    fr1
                }
            } else {
                fr1
            }
        } else {
            fr
        }
    } else {
        fr
    }
}

/// What a data attribute at `off` contributes: for a resident stream its
/// content length as both sizes, for a non-resident one the real and
/// allocated sizes from their places.
pub open spec fn apply_data(s: Seq<u8>, off: int, fr: FileRecordV) -> FileRecordV {
    if s[off + 8] == 0 {
        if off + 20 <= s.len() {
            let cl = le32(s, off + 16) as u64;
            FileRecordV { file_size: cl, allocated_size: cl, ..fr }
        } else {
            fr
        }
    } else {
        if off + 56 < s.len() {
            FileRecordV { file_size: le64(s, off + 48), allocated_size: le64(s, off + 40), ..fr }
        } else {
            fr
        }
    }
}

/// Walk the attribute list from `off`, folding in each file-name and data
/// attribute, stopping at the end marker, a zero length, or the buffer's
/// edge.
pub open spec fn walk_attrs(s: Seq<u8>, off: int, fr: FileRecordV) -> FileRecordV
    decreases s.len() - off,
        when 0 <= off
{
    if !(off < s.len() - 8) {
        fr
    } else {
        let t = le32(s, off);
        if t == 0xFFFF_FFFFu32 {
            fr
        } else {
            let alen = le32(s, off + 4) as int;
            if alen == 0 || off + alen > s.len() {
                fr
            } else {
                let fr2 = if t == 0x30u32 && s[off + 8] == 0 {
                    apply_filename(s, off, fr)
                } else if t == 0x80u32 {
                    apply_data(s, off, fr)
                } else {
                    fr
                };
                walk_attrs(s, off + alen, fr2)
            }
        }
    }
}

/// The parse of a whole file record: `None` unless the header is valid,
/// else the header flags and the attribute walk's result.
pub open spec fn spec_parse_record(s: Seq<u8>) -> Option<FileRecordV> {
    if !record_sig_ok(s) {
        Option::None
    } else {
        let flags = le16(s, 22);
        let fr0 = FileRecordV {
            is_directory: flags & 2 != 0,
            is_deleted: flags & 1 == 0,
            file_size: 0,
            allocated_size: 0,
            file_name: Seq::empty(),
            parent_directory_reference: 0,
        };
        Option::Some(walk_attrs(s, le16(s, 20) as int, fr0))
    }
}

/// Relies on char::from_u32: `Some` exactly for unicode scalar values,
/// and the character's code is the argument.
#[verifier::external_body]
fn char_from_u32(code: u32) -> (r: Option<char>)
    ensures
        r is Some <==> (code < 0xD800 || (0xE000 <= code && code <= 0x10FFFF)),
        r matches Some(c) ==> c as u32 == code,
{
    char::from_u32(code)
}

/// Parse one file record from its raw bytes: the header flags, and the
/// name, parent reference and stream sizes of its attributes. Fails
/// exactly when the buffer does not start with a valid record header.
pub fn parse_file_record(buffer: &[u8]) -> (r: Result<FileRecord, RecordError>)
    ensures
        r is Ok <==> record_sig_ok(buffer@),
        r matches Ok(fr) ==> Option::Some(fr@) == spec_parse_record(buffer@),
{
    broadcast use vstd::utf8::char_u32_cast;

    let s = buffer;
    let n = s.len();
    if n < 24 {
        return Result::Err(RecordError::InvalidSignature);
    }
    if !(s[0] == 0x46 && s[1] == 0x49 && s[2] == 0x4c && s[3] == 0x45) {
        return Result::Err(RecordError::InvalidSignature);
    }
    let flags = read_le16(s, 22);
    let is_directory = flags & 2 != 0;
    let is_deleted = flags & 1 == 0;
    let mut file_size: u64 = 0;
    let mut allocated_size: u64 = 0;
    let mut file_name: Vec<char> = Vec::new();
    let mut parent_ref: u64 = 0;
    let ghost fr0 = FileRecordV {
        is_directory,
        is_deleted,
        file_size: 0,
        allocated_size: 0,
        file_name: Seq::empty(),
        parent_directory_reference: 0,
    };
    let mut offset: usize = read_le16(s, 20) as usize;
    proof {
        assert(file_name@ =~= Seq::<char>::empty());
    }
    while offset < n - 8
        invariant
            n == s@.len(),
            n >= 24,
            walk_attrs(s@, le16(s@, 20) as int, fr0) == walk_attrs(
                s@,
                offset as int,
                FileRecordV {
                    is_directory,
                    is_deleted,
                    file_size,
                    allocated_size,
                    file_name: file_name@,
                    parent_directory_reference: parent_ref,
                },
            ),
        ensures
            walk_attrs(
                s@,
                offset as int,
                FileRecordV {
                    is_directory,
                    is_deleted,
                    file_size,
                    allocated_size,
                    file_name: file_name@,
                    parent_directory_reference: parent_ref,
                },
            ) == (FileRecordV {
                is_directory,
                is_deleted,
                file_size,
                allocated_size,
                file_name: file_name@,
                parent_directory_reference: parent_ref,
            }),
        decreases n - offset,
    {
        let ghost off0 = offset as int;
        let ghost fr_in = FileRecordV {
            is_directory,
            is_deleted,
            file_size,
            allocated_size,
            file_name: file_name@,
            parent_directory_reference: parent_ref,
        };
        let attr_type = read_le32(s, offset);
        if attr_type == 0xFFFF_FFFF {
            break ;
        }
        let attr_length_32 = read_le32(s, offset + 4);
        if attr_length_32 == 0 {
            break ;
        }
        let remaining = n - offset;
        if attr_length_32 as u64 > remaining as u64 {
            proof {
                assert(off0 + le32(s@, off0 + 4) as int > s@.len());
            }
            break ;
        }
        let attr_length = attr_length_32 as usize;
        let non_resident_flag = s[offset + 8];
        if attr_type == 0x30 && non_resident_flag == 0 {
            if remaining >= 22 {
                let content_offset = read_le16(s, offset + 20) as usize;
                let aco_w = offset as u128 + content_offset as u128;
                if aco_w + 8 < n as u128 {
                    let aco = offset + content_offset;
                    parent_ref = read_le64(s, aco);
                    if aco_w + 64 < n as u128 {
                        let name_len = s[aco + 64] as usize;
                        if (aco as u128) + 66 + (name_len as u128) * 2 <= n as u128 {
                            let name_off = aco + 66;
                            let mut name: Vec<char> = Vec::new();
                            proof {
                                assert(name@ =~= utf16_chars(s@, name_off as int, 0));
                            }
                            for q in 0..name_len
                                invariant
                                    n == s@.len(),
                                    name_len < 256,
                                    name_off + name_len * 2 <= n,
                                    name@ =~= utf16_chars(s@, name_off as int, q as int),
                            {
                                let unit = read_le16(s, name_off + q * 2);
                                proof {
                                    assert(unit == le16(
                                        s@,
                                        name_off as int + 2 * (q as int),
                                    ));
                                }
                                match char_from_u32(unit as u32) {
                                    Option::Some(c) => {
                                        proof {
                                            assert(valid_unit(unit));
                                            vstd::utf8::char_u32_cast(c, unit as u32);
                                            assert(c == ((unit as u32) as char));
                                        }
                                        name.push(c);
                                    },
                                    Option::None => {
                                        proof {
                                            assert(!valid_unit(unit));
                                        }
                                    },
                                }
                                proof {
                                    assert(name@ =~= utf16_chars(
                                        s@,
                                        name_off as int,
                                        q as int + 1,
                                    ));
                                }
                            }
                            file_name = name;
                        }
                    }
                }
            }
            proof {
                assert(FileRecordV {
                    is_directory,
                    is_deleted,
                    file_size,
                    allocated_size,
                    file_name: file_name@,
                    parent_directory_reference: parent_ref,
                } == apply_filename(s@, off0, fr_in));
            }
        } else if attr_type == 0x80 {
            if non_resident_flag == 0 {
                if remaining >= 20 {
                    let cl = read_le32(s, offset + 16) as u64;
                    file_size = cl;
                    allocated_size = cl;
                }
            } else {
                if remaining > 56 {
                    file_size = read_le64(s, offset + 48);
                    allocated_size = read_le64(s, offset + 40);
                }
            }
            proof {
                assert(FileRecordV {
                    is_directory,
                    is_deleted,
                    file_size,
                    allocated_size,
                    file_name: file_name@,
                    parent_directory_reference: parent_ref,
                } == apply_data(s@, off0, fr_in));
            }
        }
        offset = offset + attr_length;
        proof {
            let fr_out = FileRecordV {
                is_directory,
                is_deleted,
                file_size,
                allocated_size,
                file_name: file_name@,
                parent_directory_reference: parent_ref,
            };
            assert(walk_attrs(s@, off0, fr_in) == walk_attrs(s@, off0 + le32(s@, off0 + 4) as int, fr_out));
        }
    }
    let fr = FileRecord {
        is_directory,
        is_deleted,
        file_size,
        allocated_size,
        file_name,
        parent_directory_reference: parent_ref,
    };
    Result::Ok(fr)
}

/// One scanned table record, remembered with its record number.
pub struct MftEntry {
    /// The record number in the table.
    pub index: u64,
    /// The record's file name.
    pub name: Vec<char>,
    /// The parent directory reference, with its sequence bits.
    pub parent: u64,
    /// Whether the record is a directory.
    pub is_directory: bool,
    /// Apparent size in bytes.
    pub file_size: u64,
    /// Allocated size in bytes.
    pub allocated_size: u64,
}

/// The model of a scanned record.
pub ghost struct MftEntryV {
    pub index: u64,
    pub name: Seq<char>,
    pub parent: u64,
    pub is_directory: bool,
    pub file_size: u64,
    pub allocated_size: u64,
}

impl View for MftEntry {
    type V = MftEntryV;

    open spec fn view(&self) -> MftEntryV {
        MftEntryV {
            index: self.index,
            name: self.name@,
            parent: self.parent,
            is_directory: self.is_directory,
            file_size: self.file_size,
            allocated_size: self.allocated_size,
        }
    }
}

impl DeepView for MftEntry {
    type V = MftEntryV;

    open spec fn deep_view(&self) -> MftEntryV {
        self.view()
    }
}

/// A parent reference without its sequence bits: the record number alone.
pub open spec fn spec_masked(r: u64) -> u64 {
    r & 0x0000_FFFF_FFFF_FFFF
}

/// The first scanned record with the given record number.
pub open spec fn spec_entry_at(recs: Seq<MftEntryV>, idx: u64, i: int) -> Option<MftEntryV>
    decreases recs.len() - i,
{
    if i < 0 || i >= recs.len() {
        Option::None
    } else if recs[i].index == idx {
        Option::Some(recs[i])
    } else {
        spec_entry_at(recs, idx, i + 1)
    }
}

/// The record number of the root directory.
pub open spec fn root_record() -> u64 {
    5
}

/// Whether walking up from `parent0` matches the path components above
/// `depth`: each step's directory name must equal the component at that
/// level, until the root record or the top of the path is reached.
pub open spec fn chain_matches(
    recs: Seq<MftEntryV>,
    parent0: u64,
    comps: Seq<Seq<char>>,
    depth: int,
) -> bool
    decreases depth,
{
    if parent0 == root_record() || depth <= 0 {
        true
    } else {
        match spec_entry_at(recs, parent0, 0) {
            Option::None => false,
            Option::Some(e) => e.name == comps[depth - 1] && chain_matches(
                recs,
                spec_masked(e.parent),
                comps,
                depth - 1,
            ),
        }
    }
}

/// Whether a scanned record is a candidate for the sought file: a
/// non-directory whose name is the path's last component.
pub open spec fn is_candidate(e: MftEntryV, comps: Seq<Seq<char>>) -> bool {
    !e.is_directory && e.name == comps.last()
}

/// The candidates among the scanned records, in scan order.
pub open spec fn spec_candidates(recs: Seq<MftEntryV>, comps: Seq<Seq<char>>) -> Seq<MftEntryV>
    decreases recs.len(),
{
    if recs.len() == 0 {
        Seq::empty()
    } else {
        let rest = spec_candidates(recs.drop_last(), comps);
        if is_candidate(recs.last(), comps) {
            rest.push(recs.last())
        } else {
            rest
        }
    }
}

/// The sizes of the first candidate whose parent chain matches the path.
pub open spec fn spec_first_chain_match(
    recs: Seq<MftEntryV>,
    cands: Seq<MftEntryV>,
    comps: Seq<Seq<char>>,
    i: int,
) -> Option<(u64, u64)>
    decreases cands.len() - i,
{
    if i < 0 || i >= cands.len() {
        Option::None
    } else if chain_matches(recs, spec_masked(cands[i].parent), comps, comps.len() - 1) {
        Option::Some((cands[i].file_size, cands[i].allocated_size))
    } else {
        spec_first_chain_match(recs, cands, comps, i + 1)
    }
}

/// The sizes the scanned records resolve the path to: with several
/// candidates, the first whose parent chain matches the path; with exactly
/// one, that one unconditionally; with none, nothing.
pub open spec fn spec_resolve(recs: Seq<MftEntryV>, comps: Seq<Seq<char>>) -> Option<(u64, u64)> {
    let cands = spec_candidates(recs, comps);
    if cands.len() > 1 {
        spec_first_chain_match(recs, cands, comps, 0)
    } else if cands.len() == 1 {
        Option::Some((cands[0].file_size, cands[0].allocated_size))
    } else {
        Option::None
    }
}

/// Character-wise name equality.
fn chars_eq(a: &Vec<char>, b: &Vec<char>) -> (r: bool)
    ensures
        r == (a@ == b@),
{
    if a.len() != b.len() {
        return false;
    }
    let n = a.len();
    for i in 0..n
        invariant
            n == a@.len() == b@.len(),
            forall|j: int| 0 <= j < i ==> a@[j] == b@[j],
    {
        if a[i] != b[i] {
            return false;
        }
    }
    proof {
        assert(a@ =~= b@);
    }
    true
}

/// Find the first scanned record with the given record number.
fn entry_at(recs: &Vec<MftEntry>, idx: u64) -> (r: Option<usize>)
    ensures
        match r {
            Option::None => spec_entry_at(recs.deep_view(), idx, 0) is None,
            Option::Some(i) => i < recs@.len() && spec_entry_at(recs.deep_view(), idx, 0)
                == Option::Some(recs.deep_view()[i as int]),
        },
{
    let ghost rv = recs.deep_view();
    let n = recs.len();
    for i in 0..n
        invariant
            n == recs@.len(),
            rv == recs.deep_view(),
            spec_entry_at(rv, idx, 0) == spec_entry_at(rv, idx, i as int),
    {
        proof {
            assert(rv[i as int] == recs@[i as int]@);
        }
        if recs[i].index == idx {
            return Option::Some(i);
        }
    }
    Option::None
}

/// Resolve a relative path against the scanned records: among the
/// non-directory records named like the path's last component, take the
/// first whose chain of parent directories spells the path's components;
/// a single candidate is trusted without walking its chain.
pub fn resolve_file_in_records(recs: &Vec<MftEntry>, components: &Vec<Vec<char>>) -> (r: Option<
    (u64, u64),
>)
    requires
        components@.len() > 0,
    ensures
        r == spec_resolve(recs.deep_view(), components.deep_view()),
{
    let ghost rv = recs.deep_view();
    let ghost cv = components.deep_view();
    let mut cands: Vec<usize> = Vec::new();
    let n = recs.len();
    let lastc = &components[components.len() - 1];
    proof {
        assert(lastc@ == cv.last());
    }
    for i in 0..n
        invariant
            n == recs@.len(),
            rv == recs.deep_view(),
            cv == components.deep_view(),
            lastc@ == cv.last(),
            cands@.len() == spec_candidates(rv.subrange(0, i as int), cv).len(),
            forall|j: int|
                0 <= j < cands@.len() ==> #[trigger] cands@[j] < recs@.len() && rv[cands@[j] as int]
                    == spec_candidates(rv.subrange(0, i as int), cv)[j],
    {
        let ghost pre = rv.subrange(0, i as int);
        let ghost post = rv.subrange(0, i as int + 1);
        proof {
            assert(post.drop_last() =~= pre);
            assert(post.last() == rv[i as int]);
            assert(rv[i as int] == recs@[i as int]@);
        }
        if !recs[i].is_directory && chars_eq(&recs[i].name, lastc) {
            cands.push(i);
        }
    }
    proof {
        assert(rv.subrange(0, n as int) =~= rv);
    }
    let ghost cspec = spec_candidates(rv, cv);
    if cands.len() > 1 {
        let m = cands.len();
        for c in 0..m
            invariant
                m == cands@.len(),
                rv == recs.deep_view(),
                cv == components.deep_view(),
                cv.len() > 0,
                cspec == spec_candidates(rv, cv),
                m == cspec.len(),
                m > 1,
                forall|j: int|
                    0 <= j < cands@.len() ==> #[trigger] cands@[j] < recs@.len()
                        && rv[cands@[j] as int] == cspec[j],
                spec_first_chain_match(rv, cspec, cv, 0) == spec_first_chain_match(
                    rv,
                    cspec,
                    cv,
                    c as int,
                ),
        {
            let ci = cands[c];
            proof {
                assert(rv[ci as int] == cspec[c as int]);
            }
            proof {
                assert(rv[ci as int] == recs@[ci as int]@);
            }
            let mut current_parent = recs[ci].parent & 0x0000_FFFF_FFFF_FFFF;
            let mut depth = components.len() - 1;
            let mut ok = true;
            proof {
                assert(current_parent == spec_masked(cspec[c as int].parent));
            }
            while current_parent != 5 && depth > 0 && ok
                invariant
                    rv == recs.deep_view(),
                    cv == components.deep_view(),
                    cv.len() > 0,
                    0 <= c < cspec.len(),
                    depth <= cv.len() - 1,
                    ok ==> chain_matches(rv, spec_masked(cspec[c as int].parent), cv, cv.len() - 1)
                        == chain_matches(rv, current_parent, cv, depth as int),
                    !ok ==> !chain_matches(
                        rv,
                        spec_masked(cspec[c as int].parent),
                        cv,
                        cv.len() - 1,
                    ),
                decreases depth + if ok {
                    1int
                } else {
                    0int
                },
            {
                let ghost par0 = current_parent;
                let ghost dep0 = depth as int;
                depth = depth - 1;
                match entry_at(recs, current_parent) {
                    Option::None => {
                        ok = false;
                        proof {
                            assert(!chain_matches(rv, par0, cv, dep0));
                        }
                    },
                    Option::Some(pi) => {
                        proof {
                            assert(rv[pi as int] == recs@[pi as int]@);
                            assert(cv[depth as int] == components@[depth as int]@);
                        }
                        if !chars_eq(&recs[pi].name, &components[depth]) {
                            ok = false;
                            proof {
                                assert(rv[pi as int].name != cv[dep0 - 1]);
                                assert(!chain_matches(rv, par0, cv, dep0));
                            }
                        } else {
                            current_parent = recs[pi].parent & 0x0000_FFFF_FFFF_FFFF;
                            proof {
                                assert(current_parent == spec_masked(rv[pi as int].parent));
                                assert(chain_matches(rv, par0, cv, dep0) == chain_matches(
                                    rv,
                                    current_parent,
                                    cv,
                                    dep0 - 1,
                                ));
                            }
                        }
                    },
                }
            }
            if ok {
                proof {
                    assert(chain_matches(rv, current_parent, cv, depth as int));
                    assert(spec_first_chain_match(rv, cspec, cv, c as int) == Option::Some(
                        (cspec[c as int].file_size, cspec[c as int].allocated_size),
                    ));
                }
                return Option::Some((recs[ci].file_size, recs[ci].allocated_size));
            }
            proof {
                assert(spec_first_chain_match(rv, cspec, cv, c as int)
                    == spec_first_chain_match(rv, cspec, cv, c as int + 1));
            }
        }
        Option::None
    } else if cands.len() == 1 {
        let ci = cands[0];
        proof {
            assert(rv[ci as int] == cspec[0]);
            assert(rv[ci as int] == recs@[ci as int]@);
        }
        Option::Some((recs[ci].file_size, recs[ci].allocated_size))
    } else {
        Option::None
    }
}

} // verus!
