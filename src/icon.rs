use vstd::prelude::*;

verus! {

/// Why no icon could be taken out of an executable.
#[derive(Clone, Copy, Debug, PartialEq, Eq, Structural)]
pub enum IconError {
    /// The bytes are not a PE image (signature or optional-header magic).
    NotAPe,
    /// The image has no resource section, icon group or icon to take.
    NoIconResource,
    /// A structure lies, in part or whole, past the end of the image.
    Truncated,
}

/// Little-endian 16-bit value at `off`.
pub open spec fn u16_le(d: Seq<u8>, off: int) -> u16 {
    (d[off] + 256 * d[off + 1]) as u16
}

/// Little-endian 32-bit value at `off`.
pub open spec fn u32_le(d: Seq<u8>, off: int) -> u32 {
    (d[off] + 256 * d[off + 1] + 65536 * d[off + 2] + 16777216 * d[off + 3]) as u32
}

pub open spec fn read16(d: Seq<u8>, off: int) -> Result<u16, IconError> {
    if 0 <= off && off + 2 <= d.len() {
        Ok(u16_le(d, off))
    } else {
        Err(IconError::Truncated)
    }
}

pub open spec fn read32(d: Seq<u8>, off: int) -> Result<u32, IconError> {
    if 0 <= off && off + 4 <= d.len() {
        Ok(u32_le(d, off))
    } else {
        Err(IconError::Truncated)
    }
}

/// "MZ" at the start, "PE\0\0" where the DOS header points: the offset of
/// the PE signature.
pub open spec fn pe_offset_of(d: Seq<u8>) -> Result<u32, IconError> {
    match read16(d, 0) {
        Err(e) => Err(e),
        Ok(mz) => if mz != 0x5A4D {
            Err(IconError::NotAPe)
        } else {
            match read32(d, 0x3C) {
                Err(e) => Err(e),
                Ok(pe) => match read32(d, pe as int) {
                    Err(e) => Err(e),
                    Ok(sig) => if sig != 0x4550 {
                        Err(IconError::NotAPe)
                    } else {
                        Ok(pe)
                    },
                },
            }
        },
    }
}

/// The number of section headers and where their table starts.
pub open spec fn section_table(d: Seq<u8>, pe: u32) -> Result<(u16, int), IconError> {
    let coff = pe + 4;
    match read16(d, coff + 2) {
        Err(e) => Err(e),
        Ok(n) => match read16(d, coff + 16) {
            Err(e) => Err(e),
            Ok(opt) => Ok((n, coff + 20 + opt)),
        },
    }
}

/// A section header: name, virtual size, virtual address, file offset.
pub struct SectionHeader {
    pub name: Seq<u8>,
    pub virtual_size: u32,
    pub virtual_address: u32,
    pub raw_offset: u32,
}

pub open spec fn section_at(d: Seq<u8>, table: int, i: int) -> Result<SectionHeader, IconError> {
    let h = table + 40 * i;
    if h + 24 <= d.len() {
        Ok(
            SectionHeader {
                name: d.subrange(h, h + 8),
                virtual_size: u32_le(d, h + 8),
                virtual_address: u32_le(d, h + 12),
                raw_offset: u32_le(d, h + 20),
            },
        )
    } else {
        Err(IconError::Truncated)
    }
}

pub open spec fn lower_ascii(b: u8) -> u8 {
    if 65 <= b <= 90 {
        (b + 32) as u8
    } else {
        b
    }
}

/// The section name starts with ".rsrc", in any case.
pub open spec fn is_resource_name(name: Seq<u8>) -> bool {
    &&& lower_ascii(name[0]) == 46
    &&& lower_ascii(name[1]) == 114
    &&& lower_ascii(name[2]) == 115
    &&& lower_ascii(name[3]) == 114
    &&& lower_ascii(name[4]) == 99
}

/// The section holds virtual address `rva`.
pub open spec fn holds_rva(s: SectionHeader, rva: u32) -> bool {
    s.virtual_address <= rva < s.virtual_address + s.virtual_size
}

/// The first of the section headers `i..n` that is named ".rsrc".
pub open spec fn named_section_from(d: Seq<u8>, table: int, n: int, i: int) -> Result<
    (u32, u32),
    IconError,
>
    decreases n - i,
{
    if i >= n {
        Err(IconError::NoIconResource)
    } else {
        match section_at(d, table, i) {
            Err(e) => Err(e),
            Ok(s) => if is_resource_name(s.name) {
                Ok((s.raw_offset, s.virtual_address))
            } else {
                named_section_from(d, table, n, i + 1)
            },
        }
    }
}

/// The first of the section headers `i..n` that holds `rva`.
pub open spec fn rva_section_from(d: Seq<u8>, table: int, n: int, i: int, rva: u32) -> Result<
    (u32, u32),
    IconError,
>
    decreases n - i,
{
    if i >= n {
        Err(IconError::NoIconResource)
    } else {
        match section_at(d, table, i) {
            Err(e) => Err(e),
            Ok(s) => if holds_rva(s, rva) {
                Ok((s.raw_offset, s.virtual_address))
            } else {
                rva_section_from(d, table, n, i + 1, rva)
            },
        }
    }
}

/// File offset and virtual address of the section named ".rsrc".
pub open spec fn named_resource_section(d: Seq<u8>, pe: u32) -> Result<(u32, u32), IconError> {
    match section_table(d, pe) {
        Err(e) => Err(e),
        Ok((n, table)) => named_section_from(d, table, n as int, 0),
    }
}

/// File offset and virtual address of the section that holds the resource
/// directory named in the optional header's data directory.
pub open spec fn directory_resource_section(d: Seq<u8>, pe: u32) -> Result<(u32, u32), IconError> {
    let opt = pe + 24;
    match read16(d, opt) {
        Err(e) => Err(e),
        Ok(magic) => if magic != 0x10b && magic != 0x20b {
            Err(IconError::NotAPe)
        } else {
            let entry = opt + (if magic == 0x10b {
                96int
            } else {
                112int
            }) + 16;
            match read32(d, entry) {
                Err(e) => Err(e),
                Ok(rva) => match read32(d, entry + 4) {
                    Err(e) => Err(e),
                    Ok(size) => if rva == 0 || size == 0 {
                        Err(IconError::NoIconResource)
                    } else {
                        match section_table(d, pe) {
                            Err(e) => Err(e),
                            Ok((n, table)) => rva_section_from(d, table, n as int, 0, rva),
                        }
                    },
                },
            }
        },
    }
}

/// What opening an image finds: the PE offset, and the file offset and
/// virtual address of its resource section (by name, else through the
/// data directory).
pub open spec fn located(d: Seq<u8>) -> Result<(u32, u32, u32), IconError> {
    match pe_offset_of(d) {
        Err(e) => Err(e),
        Ok(pe) => match named_resource_section(d, pe) {
            Ok((off, va)) => Ok((pe, off, va)),
            Err(_) => match directory_resource_section(d, pe) {
                Err(e) => Err(e),
                Ok((off, va)) => Ok((pe, off, va)),
            },
        },
    }
}

/// Offsets inside the resource tree drop their top bit, which only marks
/// a subdirectory.
pub open spec fn tree_offset(x: u32) -> int {
    x as int % 0x8000_0000
}

/// Number of entries (named and numbered) of the directory at `off`.
pub open spec fn dir_entry_count(d: Seq<u8>, rso: u32, off: int) -> Result<int, IconError> {
    let base = rso + off;
    if base + 16 <= d.len() {
        Ok(u16_le(d, base + 12) + u16_le(d, base + 14))
    } else {
        Err(IconError::Truncated)
    }
}

/// Number of numbered entries of the directory at `off`.
pub open spec fn dir_id_count(d: Seq<u8>, rso: u32, off: int) -> Result<int, IconError> {
    let base = rso + off;
    if base + 16 <= d.len() {
        Ok(u16_le(d, base + 14) as int)
    } else {
        Err(IconError::Truncated)
    }
}

/// A directory entry: its name or id, and the offset it points to.
pub open spec fn dir_entry(d: Seq<u8>, rso: u32, off: int) -> Result<(u32, u32), IconError> {
    let base = rso + off;
    if base + 8 <= d.len() {
        Ok((u32_le(d, base), u32_le(d, base + 4)))
    } else {
        Err(IconError::Truncated)
    }
}

/// A data entry: the virtual address and size of the data.
pub open spec fn data_entry(d: Seq<u8>, rso: u32, off: int) -> Result<(u32, u32), IconError> {
    let base = rso + off;
    if base + 16 <= d.len() {
        Ok((u32_le(d, base), u32_le(d, base + 4)))
    } else {
        Err(IconError::Truncated)
    }
}

/// The `size` bytes at virtual address `rva` of the resource section.
pub open spec fn resource_data(d: Seq<u8>, rso: u32, va: u32, rva: u32, size: u32) -> Result<
    Seq<u8>,
    IconError,
> {
    let start = rva - va + rso;
    if rva < va || start + size > d.len() {
        Err(IconError::Truncated)
    } else {
        Ok(d.subrange(start, start + size))
    }
}

/// The target of the first of entries `i..n`, laid out from `first`, whose
/// id is `id`.
pub open spec fn entry_with_id(d: Seq<u8>, rso: u32, first: int, n: int, i: int, id: u32) -> Result<
    Option<u32>,
    IconError,
>
    decreases n - i,
{
    if i >= n {
        Ok(None)
    } else {
        match dir_entry(d, rso, first + 8 * i) {
            Err(e) => Err(e),
            Ok((name, target)) => if name == id {
                Ok(Some(target))
            } else {
                entry_with_id(d, rso, first, n, i + 1, id)
            },
        }
    }
}

/// The subdirectory of the root for resource type `kind`, `None` where the
/// root has no such entry.
pub open spec fn type_directory(d: Seq<u8>, rso: u32, kind: u32) -> Result<Option<int>, IconError> {
    match dir_entry_count(d, rso, 0) {
        Err(e) => Err(e),
        Ok(n) => match entry_with_id(d, rso, 16, n, 0, kind) {
            Err(e) => Err(e),
            Ok(None) => Ok(None),
            Ok(Some(t)) => Ok(Some(tree_offset(t))),
        },
    }
}

/// The data of the first language entry under the directory at `off`.
pub open spec fn first_language_data(d: Seq<u8>, rso: u32, va: u32, off: int) -> Result<
    Seq<u8>,
    IconError,
> {
    match dir_entry_count(d, rso, off) {
        Err(e) => Err(e),
        Ok(_) => match dir_entry(d, rso, off + 16) {
            Err(e) => Err(e),
            Ok((_, lang)) => match data_entry(d, rso, lang as int) {
                Err(e) => Err(e),
                Ok((rva, size)) => resource_data(d, rso, va, rva, size),
            },
        },
    }
}

pub const RT_ICON: u32 = 3;

pub const RT_GROUP_ICON: u32 = 14;

/// The data of the first icon group.
pub open spec fn group_data(d: Seq<u8>, rso: u32, va: u32) -> Result<Seq<u8>, IconError> {
    match dir_entry_count(d, rso, 0) {
        Err(e) => Err(e),
        Ok(n) => if rso + 16 + 8 * n > d.len() {
            Err(IconError::Truncated)
        } else {
            match type_directory(d, rso, RT_GROUP_ICON) {
                Err(e) => Err(e),
                Ok(None) => Err(IconError::NoIconResource),
                Ok(Some(groups)) => match dir_id_count(d, rso, groups) {
                    Err(e) => Err(e),
                    Ok(ids) => if ids == 0 {
                        Err(IconError::NoIconResource)
                    } else {
                        match dir_entry(d, rso, groups + 16) {
                            Err(e) => Err(e),
                            Ok((_, group)) => first_language_data(d, rso, va, tree_offset(group)),
                        }
                    },
                },
            }
        },
    }
}

/// The image data of the icon with id `id`.
pub open spec fn icon_image(d: Seq<u8>, rso: u32, va: u32, id: u16) -> Result<Seq<u8>, IconError> {
    match type_directory(d, rso, RT_ICON) {
        Err(e) => Err(e),
        Ok(None) => Err(IconError::NoIconResource),
        Ok(Some(icons)) => match dir_entry_count(d, rso, icons) {
            Err(e) => Err(e),
            Ok(m) => match entry_with_id(d, rso, icons + 16, m, 0, id as u32) {
                Err(e) => Err(e),
                Ok(None) => Err(IconError::NoIconResource),
                Ok(Some(t)) => first_language_data(d, rso, va, tree_offset(t)),
            },
        },
    }
}

/// One entry of an icon group.
#[derive(Clone, Copy, Debug, PartialEq, Eq, Structural)]
pub struct GroupIconEntry {
    pub width: u8,
    pub height: u8,
    pub color_count: u8,
    pub planes: u16,
    pub bit_count: u16,
    pub bytes_in_res: u32,
    pub id: u16,
}

pub open spec fn group_entry_at(g: Seq<u8>, i: int) -> GroupIconEntry {
    let b = 6 + 14 * i;
    GroupIconEntry {
        width: g[b],
        height: g[b + 1],
        color_count: g[b + 2],
        planes: u16_le(g, b + 4),
        bit_count: u16_le(g, b + 6),
        bytes_in_res: u32_le(g, b + 8),
        id: u16_le(g, b + 12),
    }
}

/// The entries of an icon group: as many as its header counts, but no more
/// than its bytes hold.
pub open spec fn group_entries(g: Seq<u8>) -> Seq<GroupIconEntry> {
    let fit = (g.len() - 6) / 14;
    let n = if u16_le(g, 4) < fit {
        u16_le(g, 4) as int
    } else {
        fit
    };
    Seq::new(n as nat, |i: int| group_entry_at(g, i))
}

pub open spec fn area(e: GroupIconEntry) -> int {
    e.width * e.height
}

/// `a` ranks above `b`: more bytes, or as many bytes and a larger area.
pub open spec fn ranks_above(a: GroupIconEntry, b: GroupIconEntry) -> bool {
    a.bytes_in_res > b.bytes_in_res || (a.bytes_in_res == b.bytes_in_res && area(a) > area(b))
}

/// The entry that ranks highest; among entries that tie, the last.
pub open spec fn largest_entry(es: Seq<GroupIconEntry>) -> GroupIconEntry
    decreases es.len(),
{
    if es.len() <= 1 {
        es[0]
    } else {
        let best = largest_entry(es.drop_last());
        if ranks_above(best, es.last()) {
            best
        } else {
            es.last()
        }
    }
}

pub open spec fn le16(x: u16) -> Seq<u8> {
    seq![(x % 256) as u8, (x / 256) as u8]
}

pub open spec fn le32(x: u32) -> Seq<u8> {
    seq![(x % 256) as u8, ((x / 256) % 256) as u8, ((x / 65536) % 256) as u8, (x / 16777216) as u8]
}

/// An ICO file holding one image: header, one directory entry, the image.
pub open spec fn ico_file(e: GroupIconEntry, image: Seq<u8>) -> Seq<u8> {
    seq![0u8, 0, 1, 0, 1, 0, e.width, e.height, e.color_count, 0] + le16(e.planes) + le16(
        e.bit_count,
    ) + le32(image.len() as u32) + le32(22) + image
}

/// The ICO file of the largest icon of the first icon group.
pub open spec fn largest_icon(d: Seq<u8>, rso: u32, va: u32) -> Result<Seq<u8>, IconError> {
    match group_data(d, rso, va) {
        Err(e) => Err(e),
        Ok(g) => if g.len() < 6 {
            Err(IconError::Truncated)
        } else if group_entries(g).len() == 0 {
            Err(IconError::NoIconResource)
        } else {
            let best = largest_entry(group_entries(g));
            match icon_image(d, rso, va, best.id) {
                Err(e) => Err(e),
                Ok(image) => Ok(ico_file(best, image)),
            }
        },
    }
}

fn read_u16(d: &[u8], off: u64) -> (r: Result<u16, IconError>)
    ensures
        r == read16(d@, off as int),
{
    if off > d.len() as u64 || d.len() as u64 - off < 2 {
        return Err(IconError::Truncated);
    }
    let i = off as usize;
    Ok(d[i] as u16 + (d[i + 1] as u16) * 256)
}

fn read_u32(d: &[u8], off: u64) -> (r: Result<u32, IconError>)
    ensures
        r == read32(d@, off as int),
{
    if off > d.len() as u64 || d.len() as u64 - off < 4 {
        return Err(IconError::Truncated);
    }
    let i = off as usize;
    Ok(d[i] as u32 + (d[i + 1] as u32) * 256 + (d[i + 2] as u32) * 65536 + (d[i + 3] as u32)
        * 16777216)
}

fn lower(b: u8) -> (r: u8)
    ensures
        r == lower_ascii(b),
{
    if 65 <= b && b <= 90 {
        b + 32
    } else {
        b
    }
}

/// The fields of a section header that the lookups need.
struct SectionFields {
    is_resource: bool,
    virtual_size: u32,
    virtual_address: u32,
    raw_offset: u32,
}

fn read_section(d: &[u8], table: u64, i: u64) -> (r: Result<SectionFields, IconError>)
    requires
        table <= 0x1_0000_0000_0000,
        i <= 0x1_0000,
    ensures
        match section_at(d@, table as int, i as int) {
            Err(e) => r == Err::<SectionFields, IconError>(e),
            Ok(s) => r matches Ok(f) && f.is_resource == is_resource_name(s.name) && f.virtual_size
                == s.virtual_size && f.virtual_address == s.virtual_address && f.raw_offset
                == s.raw_offset,
        },
{
    let h = table + 40 * i;
    if h > d.len() as u64 || d.len() as u64 - h < 24 {
        return Err(IconError::Truncated);
    }
    let k = h as usize;
    let is_resource = lower(d[k]) == 46 && lower(d[k + 1]) == 114 && lower(d[k + 2]) == 115 && lower(
        d[k + 3],
    ) == 114 && lower(d[k + 4]) == 99;
    let virtual_size = read_u32(d, h + 8)?;
    let virtual_address = read_u32(d, h + 12)?;
    let raw_offset = read_u32(d, h + 20)?;
    Ok(SectionFields { is_resource, virtual_size, virtual_address, raw_offset })
}

fn section_table_of(d: &[u8], pe: u32) -> (r: Result<(u16, u64), IconError>)
    ensures
        match r {
            Ok((n, t)) => section_table(d@, pe) == Ok::<(u16, int), IconError>((n, t as int))
                && t <= 0x1_0000_0000_0000,
            Err(e) => section_table(d@, pe) == Err::<(u16, int), IconError>(e),
        },
{
    let coff = pe as u64 + 4;
    let n = read_u16(d, coff + 2)?;
    let opt = read_u16(d, coff + 16)?;
    Ok((n, coff + 20 + opt as u64))
}

/// The record of a resource directory that the walk reads.
struct ResourceDirectory {
    number_of_name_entries: u16,
    number_of_id_entries: u16,
}

/// A resource directory entry.
struct ResourceDirectoryEntry {
    name_or_id: u32,
    offset_to_data_or_subdirectory: u32,
}

/// A resource data entry.
struct ResourceDataEntry {
    offset_to_data: u32,
    size: u32,
}

/// Reads the icons of a PE image held in memory.
pub struct IconExtractor {
    data: Vec<u8>,
    pe_offset: u32,
    resource_section_offset: u32,
    resource_section_virtual_address: u32,
}

impl IconExtractor {
    /// The image.
    pub closed spec fn image(&self) -> Seq<u8> {
        self.data@
    }

    /// Offset of the PE signature.
    pub closed spec fn pe(&self) -> u32 {
        self.pe_offset
    }

    /// File offset of the resource section.
    pub closed spec fn rso(&self) -> u32 {
        self.resource_section_offset
    }

    /// Virtual address of the resource section.
    pub closed spec fn va(&self) -> u32 {
        self.resource_section_virtual_address
    }

    /// Checks the DOS and PE signatures and finds the resource section: by
    /// its name ".rsrc", or else through the optional header's data
    /// directory.
    pub fn new(data: Vec<u8>) -> (r: Result<IconExtractor, IconError>)
        ensures
            match located(data@) {
                Err(e) => r matches Err(x) && x == e,
                Ok((pe, off, va)) => r matches Ok(x) && x.image() == data@ && x.pe() == pe
                    && x.rso() == off && x.va() == va,
            },
    {
        let pe_offset = match read_u16(data.as_slice(), 0) {
            Err(e) => return Err(e),
            Ok(mz) => {
                if mz != 0x5A4D {
                    return Err(IconError::NotAPe);
                }
                let pe = read_u32(data.as_slice(), 0x3C)?;
                let sig = read_u32(data.as_slice(), pe as u64)?;
                if sig != 0x4550 {
                    return Err(IconError::NotAPe);
                }
                pe
            },
        };
        let (off, va) = match Self::find_resource_section(data.as_slice(), pe_offset) {
            Ok(found) => found,
            Err(_) => Self::try_alternative_resource_detection(data.as_slice(), pe_offset)?,
        };
        Ok(
            IconExtractor {
                data,
                pe_offset,
                resource_section_offset: off,
                resource_section_virtual_address: va,
            },
        )
    }

    fn find_resource_section(d: &[u8], pe: u32) -> (r: Result<(u32, u32), IconError>)
        ensures
            r == named_resource_section(d@, pe),
    {
        let (n, table) = section_table_of(d, pe)?;
        let mut i: u64 = 0;
        while i < n as u64
            invariant
                i <= n,
                table <= 0x1_0000_0000_0000,
                section_table(d@, pe) == Ok::<(u16, int), IconError>((n, table as int)),
                named_resource_section(d@, pe) == named_section_from(
                    d@,
                    table as int,
                    n as int,
                    i as int,
                ),
            decreases n - i,
        {
            let s = read_section(d, table, i)?;
            if s.is_resource {
                return Ok((s.raw_offset, s.virtual_address));
            }
            i = i + 1;
        }
        Err(IconError::NoIconResource)
    }

    fn find_section_for_rva(d: &[u8], pe: u32, rva: u32) -> (r: Result<(u32, u32), IconError>)
        ensures
            match section_table(d@, pe) {
                Err(e) => r == Err::<(u32, u32), IconError>(e),
                Ok((n, table)) => r == rva_section_from(d@, table, n as int, 0, rva),
            },
    {
        let (n, table) = section_table_of(d, pe)?;
        let mut i: u64 = 0;
        while i < n as u64
            invariant
                i <= n,
                table <= 0x1_0000_0000_0000,
                section_table(d@, pe) == Ok::<(u16, int), IconError>((n, table as int)),
                rva_section_from(d@, table as int, n as int, 0, rva) == rva_section_from(
                    d@,
                    table as int,
                    n as int,
                    i as int,
                    rva,
                ),
            decreases n - i,
        {
            let s = read_section(d, table, i)?;
            if s.virtual_address as u64 <= rva as u64 && (rva as u64) < s.virtual_address as u64
                + s.virtual_size as u64 {
                return Ok((s.raw_offset, s.virtual_address));
            }
            i = i + 1;
        }
        Err(IconError::NoIconResource)
    }

    fn try_alternative_resource_detection(d: &[u8], pe: u32) -> (r: Result<(u32, u32), IconError>)
        ensures
            r == directory_resource_section(d@, pe),
    {
        let opt = pe as u64 + 24;
        let magic = read_u16(d, opt)?;
        let dir_offset: u64 = if magic == 0x10b {
            96
        } else if magic == 0x20b {
            112
        } else {
            return Err(IconError::NotAPe);
        };
        let entry = opt + dir_offset + 16;
        let rva = read_u32(d, entry)?;
        let size = read_u32(d, entry + 4)?;
        if rva == 0 || size == 0 {
            return Err(IconError::NoIconResource);
        }
        Self::find_section_for_rva(d, pe, rva)
    }
}

impl IconExtractor {
    fn read_resource_directory(&self, offset: u64) -> (r: Result<ResourceDirectory, IconError>)
        requires
            offset <= 0x1_0000_0000,
        ensures
            match dir_entry_count(self.image(), self.rso(), offset as int) {
                Err(e) => r matches Err(x) && x == e,
                Ok(n) => r matches Ok(dir) && n == dir.number_of_name_entries
                    + dir.number_of_id_entries,
            },
            match dir_id_count(self.image(), self.rso(), offset as int) {
                Err(e) => r matches Err(x) && x == e,
                Ok(n) => r matches Ok(dir) && n == dir.number_of_id_entries,
            },
    {
        let base = self.resource_section_offset as u64 + offset;
        let d = self.data.as_slice();
        if base > d.len() as u64 || d.len() as u64 - base < 16 {
            return Err(IconError::Truncated);
        }
        let number_of_name_entries = read_u16(d, base + 12)?;
        let number_of_id_entries = read_u16(d, base + 14)?;
        Ok(ResourceDirectory { number_of_name_entries, number_of_id_entries })
    }

    fn read_resource_directory_entry(&self, offset: u64) -> (r: Result<
        ResourceDirectoryEntry,
        IconError,
    >)
        requires
            offset <= 0x2_0000_0000,
        ensures
            match dir_entry(self.image(), self.rso(), offset as int) {
                Err(e) => r matches Err(x) && x == e,
                Ok((name, target)) => r matches Ok(en) && en.name_or_id == name
                    && en.offset_to_data_or_subdirectory == target,
            },
    {
        let base = self.resource_section_offset as u64 + offset;
        let d = self.data.as_slice();
        if base > d.len() as u64 || d.len() as u64 - base < 8 {
            return Err(IconError::Truncated);
        }
        let name_or_id = read_u32(d, base)?;
        let offset_to_data_or_subdirectory = read_u32(d, base + 4)?;
        Ok(ResourceDirectoryEntry { name_or_id, offset_to_data_or_subdirectory })
    }

    fn read_resource_data_entry(&self, offset: u64) -> (r: Result<ResourceDataEntry, IconError>)
        requires
            offset <= 0x1_0000_0000,
        ensures
            match data_entry(self.image(), self.rso(), offset as int) {
                Err(e) => r matches Err(x) && x == e,
                Ok((rva, size)) => r matches Ok(en) && en.offset_to_data == rva && en.size == size,
            },
    {
        let base = self.resource_section_offset as u64 + offset;
        let d = self.data.as_slice();
        if base > d.len() as u64 || d.len() as u64 - base < 16 {
            return Err(IconError::Truncated);
        }
        let offset_to_data = read_u32(d, base)?;
        let size = read_u32(d, base + 4)?;
        Ok(ResourceDataEntry { offset_to_data, size })
    }

    fn read_data(&self, rva: u32, size: u32) -> (r: Result<Vec<u8>, IconError>)
        ensures
            match resource_data(self.image(), self.rso(), self.va(), rva, size) {
                Err(e) => r matches Err(x) && x == e,
                Ok(bytes) => r matches Ok(v) && v@ == bytes,
            },
    {
        if rva < self.resource_section_virtual_address {
            return Err(IconError::Truncated);
        }
        let start = (rva - self.resource_section_virtual_address) as u64
            + self.resource_section_offset as u64;
        let d = self.data.as_slice();
        if start > d.len() as u64 || d.len() as u64 - start < size as u64 {
            return Err(IconError::Truncated);
        }
        let a = start as usize;
        let b = a + size as usize;
        let mut out: Vec<u8> = Vec::new();
        let mut i: usize = a;
        while i < b
            invariant
                a <= i <= b <= d@.len(),
                out@ == d@.subrange(a as int, i as int),
            decreases b - i,
        {
            assert(d@.subrange(a as int, i as int + 1) =~= out@.push(d@[i as int]));
            out.push(d[i]);
            i = i + 1;
        }
        Ok(out)
    }

    /// The target of the first of `n` entries, laid out from `first`, whose
    /// id is `id`.
    fn find_entry(&self, first: u64, n: u64, id: u32) -> (r: Result<Option<u32>, IconError>)
        requires
            first <= 0x1_0000_0000,
            n <= 0x2_0000,
        ensures
            match entry_with_id(self.image(), self.rso(), first as int, n as int, 0, id) {
                Err(e) => r matches Err(x) && x == e,
                Ok(found) => r matches Ok(f) && f == found,
            },
    {
        let mut i: u64 = 0;
        while i < n
            invariant
                i <= n <= 0x2_0000,
                first <= 0x1_0000_0000,
                entry_with_id(self.image(), self.rso(), first as int, n as int, 0, id)
                    == entry_with_id(self.image(), self.rso(), first as int, n as int, i as int, id),
            decreases n - i,
        {
            let entry = self.read_resource_directory_entry(first + 8 * i)?;
            if entry.name_or_id == id {
                return Ok(Some(entry.offset_to_data_or_subdirectory));
            }
            i = i + 1;
        }
        Ok(None)
    }

    /// The subdirectory of the root for one resource type.
    fn find_type_directory(&self, kind: u32) -> (r: Result<Option<u64>, IconError>)
        ensures
            match type_directory(self.image(), self.rso(), kind) {
                Err(e) => r matches Err(x) && x == e,
                Ok(None) => r matches Ok(f) && f is None,
                Ok(Some(t)) => r matches Ok(Some(f)) && f == t && f < 0x8000_0000,
            },
    {
        let root = self.read_resource_directory(0)?;
        let n = root.number_of_name_entries as u64 + root.number_of_id_entries as u64;
        match self.find_entry(16, n, kind)? {
            None => Ok(None),
            Some(t) => Ok(Some((t % 0x8000_0000) as u64)),
        }
    }

    /// The data of the first language entry under a directory.
    fn read_first_language_data(&self, offset: u64) -> (r: Result<Vec<u8>, IconError>)
        requires
            offset < 0x8000_0000,
        ensures
            match first_language_data(self.image(), self.rso(), self.va(), offset as int) {
                Err(e) => r matches Err(x) && x == e,
                Ok(bytes) => r matches Ok(v) && v@ == bytes,
            },
    {
        let _dir = self.read_resource_directory(offset)?;
        let lang = self.read_resource_directory_entry(offset + 16)?;
        let entry = self.read_resource_data_entry(lang.offset_to_data_or_subdirectory as u64)?;
        self.read_data(entry.offset_to_data, entry.size)
    }

    /// The resource type ids of the root directory's entries; fails where
    /// an entry lies past the end of the image.
    fn list_resource_types(&self) -> (r: Result<Vec<u32>, IconError>)
        ensures
            match dir_entry_count(self.image(), self.rso(), 0) {
                Err(e) => r matches Err(x) && x == e,
                Ok(n) => if self.rso() + 16 + 8 * n > self.image().len() {
                    r matches Err(x) && x == IconError::Truncated
                } else {
                    r matches Ok(ids) && ids@.len() == n && forall|i: int|
                        0 <= i < n ==> #[trigger] ids@[i] == u32_le(
                            self.image(),
                            self.rso() + 16 + 8 * i,
                        )
                },
            },
    {
        let root = self.read_resource_directory(0)?;
        let n = root.number_of_name_entries as u64 + root.number_of_id_entries as u64;
        let mut ids: Vec<u32> = Vec::new();
        let mut i: u64 = 0;
        while i < n
            invariant
                i <= n <= 0x2_0000,
                dir_entry_count(self.image(), self.rso(), 0) == Ok::<int, IconError>(n as int),
                ids@.len() == i,
                self.rso() + 16 + 8 * i <= self.image().len(),
                forall|j: int|
                    0 <= j < i ==> #[trigger] ids@[j] == u32_le(self.image(), self.rso() + 16 + 8 * j),
            decreases n - i,
        {
            let entry = self.read_resource_directory_entry(16 + 8 * i)?;
            ids.push(entry.name_or_id);
            i = i + 1;
        }
        Ok(ids)
    }
}

fn push_le16(out: &mut Vec<u8>, x: u16)
    ensures
        final(out)@ == old(out)@ + le16(x),
{
    out.push((x % 256) as u8);
    out.push((x / 256) as u8);
    assert(final(out)@ =~= old(out)@ + le16(x));
}

fn push_le32(out: &mut Vec<u8>, x: u32)
    ensures
        final(out)@ == old(out)@ + le32(x),
{
    out.push((x % 256) as u8);
    out.push(((x / 256) % 256) as u8);
    out.push(((x / 65536) % 256) as u8);
    out.push((x / 16777216) as u8);
    assert(final(out)@ =~= old(out)@ + le32(x));
}

/// Builds an ICO file that holds one image.
fn create_ico_file(entry: &GroupIconEntry, image: &[u8]) -> (r: Vec<u8>)
    requires
        image@.len() <= u32::MAX,
    ensures
        r@ == ico_file(*entry, image@),
{
    let mut out: Vec<u8> = vec![0u8, 0, 1, 0, 1, 0];
    out.push(entry.width);
    out.push(entry.height);
    out.push(entry.color_count);
    out.push(0);
    push_le16(&mut out, entry.planes);
    push_le16(&mut out, entry.bit_count);
    push_le32(&mut out, image.len() as u32);
    push_le32(&mut out, 22);
    let ghost head = out@;
    let mut i: usize = 0;
    while i < image.len()
        invariant
            i <= image@.len(),
            out@ == head + image@.subrange(0, i as int),
        decreases image.len() - i,
    {
        assert(image@.subrange(0, i as int + 1) =~= image@.subrange(0, i as int).push(image@[i as int]));
        out.push(image[i]);
        i = i + 1;
    }
    assert(image@.subrange(0, image.len() as int) =~= image@);
    assert(out@ =~= ico_file(*entry, image@));
    out
}

fn read_group_entries(g: &Vec<u8>) -> (r: Vec<GroupIconEntry>)
    requires
        g@.len() >= 6,
    ensures
        r@ == group_entries(g@),
{
    let count = g[4] as u64 + (g[5] as u64) * 256;
    let ghost fit = (g@.len() - 6) / 14;
    let mut out: Vec<GroupIconEntry> = Vec::new();
    let mut i: u64 = 0;
    while i < count
        invariant
            g@.len() >= 6,
            fit == (g@.len() - 6) / 14,
            i <= fit,
            count == u16_le(g@, 4),
            i <= count,
            out@.len() == i,
            6 + 14 * i <= g@.len(),
            forall|j: int| 0 <= j < i ==> #[trigger] out@[j] == group_entry_at(g@, j),
        ensures
            forall|j: int| 0 <= j < out@.len() ==> #[trigger] out@[j] == group_entry_at(g@, j),
            out@.len() == if count < fit {
                count as int
            } else {
                fit
            },
        decreases count - i,
    {
        let b = (6 + 14 * i) as usize;
        if b + 14 > g.len() {
            assert(i == fit) by (nonlinear_arith)
                requires
                    6 + 14 * i <= g@.len(),
                    6 + 14 * i + 14 > g@.len(),
                    fit == (g@.len() - 6) / 14,
            ;
            break;
        }
        assert(i + 1 <= fit) by (nonlinear_arith)
            requires
                6 + 14 * i + 14 <= g@.len(),
                fit == (g@.len() - 6) / 14,
        ;
        let e = GroupIconEntry {
            width: g[b],
            height: g[b + 1],
            color_count: g[b + 2],
            planes: g[b + 4] as u16 + (g[b + 5] as u16) * 256,
            bit_count: g[b + 6] as u16 + (g[b + 7] as u16) * 256,
            bytes_in_res: g[b + 8] as u32 + (g[b + 9] as u32) * 256 + (g[b + 10] as u32) * 65536 + (
            g[b + 11] as u32) * 16777216,
            id: g[b + 12] as u16 + (g[b + 13] as u16) * 256,
        };
        out.push(e);
        i = i + 1;
    }
    assert(out@ =~= group_entries(g@));
    out
}

fn ranks_higher(a: &GroupIconEntry, b: &GroupIconEntry) -> (r: bool)
    ensures
        r == ranks_above(*a, *b),
{
    assert((a.width as u32) * (a.height as u32) <= 65025 && (b.width as u32) * (b.height as u32)
        <= 65025) by (nonlinear_arith)
        requires
            a.width <= 255,
            a.height <= 255,
            b.width <= 255,
            b.height <= 255,
    ;
    let area_a = a.width as u32 * a.height as u32;
    let area_b = b.width as u32 * b.height as u32;
    a.bytes_in_res > b.bytes_in_res || (a.bytes_in_res == b.bytes_in_res && area_a > area_b)
}

/// No entry ranks above the one `largest_entry` picks.
pub proof fn lemma_largest_is_maximal(es: Seq<GroupIconEntry>)
    requires
        es.len() > 0,
    ensures
        forall|i: int| 0 <= i < es.len() ==> !ranks_above(#[trigger] es[i], largest_entry(es)),
        es.contains(largest_entry(es)),
    decreases es.len(),
{
    if es.len() > 1 {
        let prev = es.drop_last();
        lemma_largest_is_maximal(prev);
        let best = largest_entry(prev);
        assert forall|i: int| 0 <= i < es.len() implies !ranks_above(
            #[trigger] es[i],
            largest_entry(es),
        ) by {
            if i < es.len() - 1 {
                assert(es[i] == prev[i]);
            }
        }
        let k = choose|k: int| 0 <= k < prev.len() && prev[k] == best;
        assert(es[k] == best);
        assert(es[es.len() - 1] == es.last());
    } else {
        assert(es[0] == largest_entry(es));
    }
}

fn pick_largest(es: &Vec<GroupIconEntry>) -> (r: GroupIconEntry)
    requires
        es@.len() > 0,
    ensures
        r == largest_entry(es@),
{
    let mut best = es[0];
    let mut i: usize = 1;
    assert(es@.subrange(0, 1) =~= seq![es@[0]]);
    while i < es.len()
        invariant
            1 <= i <= es@.len(),
            best == largest_entry(es@.subrange(0, i as int)),
        decreases es.len() - i,
    {
        assert(es@.subrange(0, i as int + 1).drop_last() =~= es@.subrange(0, i as int));
        if !ranks_higher(&best, &es[i]) {
            best = es[i];
        }
        i = i + 1;
    }
    assert(es@.subrange(0, es.len() as int) =~= es@);
    best
}

impl IconExtractor {
    /// The image data of the icon with id `icon_id`.
    fn find_and_extract_icon(&self, icon_id: u16) -> (r: Result<Vec<u8>, IconError>)
        ensures
            match icon_image(self.image(), self.rso(), self.va(), icon_id) {
                Err(e) => r matches Err(x) && x == e,
                Ok(bytes) => r matches Ok(v) && v@ == bytes,
            },
    {
        let icons = match self.find_type_directory(RT_ICON)? {
            None => return Err(IconError::NoIconResource),
            Some(o) => o,
        };
        let dir = self.read_resource_directory(icons)?;
        let n = dir.number_of_name_entries as u64 + dir.number_of_id_entries as u64;
        match self.find_entry(icons + 16, n, icon_id as u32)? {
            None => Err(IconError::NoIconResource),
            Some(t) => self.read_first_language_data((t % 0x8000_0000) as u64),
        }
    }

    /// Takes the largest icon of the first icon group (most bytes, then
    /// largest area; the last of equals) and returns it as an ICO file.
    pub fn extract_largest_icon(&self) -> (r: Result<Vec<u8>, IconError>)
        ensures
            match largest_icon(self.image(), self.rso(), self.va()) {
                Err(e) => r matches Err(x) && x == e,
                Ok(bytes) => r matches Ok(v) && v@ == bytes,
            },
    {
        // every entry of the root directory must lie inside the image
        let _types = self.list_resource_types()?;
        let groups = match self.find_type_directory(RT_GROUP_ICON)? {
            None => return Err(IconError::NoIconResource),
            Some(o) => o,
        };
        let dir = self.read_resource_directory(groups)?;
        if dir.number_of_id_entries == 0 {
            return Err(IconError::NoIconResource);
        }
        let group = self.read_resource_directory_entry(groups + 16)?;
        let g = self.read_first_language_data(
            (group.offset_to_data_or_subdirectory % 0x8000_0000) as u64,
        )?;
        if g.len() < 6 {
            return Err(IconError::Truncated);
        }
        let entries = read_group_entries(&g);
        if entries.len() == 0 {
            return Err(IconError::NoIconResource);
        }
        let best = pick_largest(&entries);
        let image = self.find_and_extract_icon(best.id)?;
        Ok(create_ico_file(&best, image.as_slice()))
    }
}

} // verus!
