//! The layout of HWiNFO's shared memory (`Global\HWiNFO_SENS_SM2`) and the
//! sensor readings it holds.
//!
//! The memory starts with a packed header of 44 bytes; the sensor entries,
//! packed records of 316 bytes, start at the header's entry offset and follow
//! each other at the header's entry stride. All fields are little-endian.
//! Values are IEEE doubles, kept here as their raw 64-bit patterns.
use vstd::prelude::*;
use crate::text::{
    contains_seq, dec_text, lemma_dec_text_value, lossy_utf8_text, occurs_at, push_chars,
    push_decimal, utf8_lossy,
};

verus! {

/// The magic number at the start of a valid HWiNFO shared memory.
pub const HWINFO_HEADER_MAGIC: u32 = 0x53695748;

/// Size in bytes of the packed header.
pub const HWINFO_HEADER_SIZE: usize = 44;

/// Size in bytes of one packed sensor entry.
pub const HWINFO_ENTRY_SIZE: usize = 316;

// ---------------------------------------------------------------------------
// Sensor types
// ---------------------------------------------------------------------------

/// The kind of a sensor reading.
#[derive(Debug, Clone, Copy, PartialEq, Eq, Structural)]
pub enum SensorType {
    Unset,
    Temp,
    Volt,
    Fan,
    Current,
    Power,
    Clock,
    Usage,
    Other,
}

/// The sensor type that HWiNFO writes as `code`, if it is one.
pub open spec fn sensor_type_of(code: u32) -> Option<SensorType> {
    if code == 0 {
        Some(SensorType::Unset)
    } else if code == 1 {
        Some(SensorType::Temp)
    } else if code == 2 {
        Some(SensorType::Volt)
    } else if code == 3 {
        Some(SensorType::Fan)
    } else if code == 4 {
        Some(SensorType::Current)
    } else if code == 5 {
        Some(SensorType::Power)
    } else if code == 6 {
        Some(SensorType::Clock)
    } else if code == 7 {
        Some(SensorType::Usage)
    } else if code == 8 {
        Some(SensorType::Other)
    } else {
        None
    }
}

/// The code HWiNFO writes for a sensor type.
pub open spec fn sensor_type_code(t: SensorType) -> u32 {
    match t {
        SensorType::Unset => 0,
        SensorType::Temp => 1,
        SensorType::Volt => 2,
        SensorType::Fan => 3,
        SensorType::Current => 4,
        SensorType::Power => 5,
        SensorType::Clock => 6,
        SensorType::Usage => 7,
        SensorType::Other => 8,
    }
}

impl SensorType {
    /// The code HWiNFO writes for this sensor type.
    pub fn code(&self) -> (c: u32)
        ensures
            c == sensor_type_code(*self),
    {
        match self {
            SensorType::Unset => 0,
            SensorType::Temp => 1,
            SensorType::Volt => 2,
            SensorType::Fan => 3,
            SensorType::Current => 4,
            SensorType::Power => 5,
            SensorType::Clock => 6,
            SensorType::Usage => 7,
            SensorType::Other => 8,
        }
    }
}

impl TryFrom<u32> for SensorType {
    type Error = ();

    fn try_from(value: u32) -> (r: Result<Self, Self::Error>) {
        if value == 0 {
            Ok(SensorType::Unset)
        } else if value == 1 {
            Ok(SensorType::Temp)
        } else if value == 2 {
            Ok(SensorType::Volt)
        } else if value == 3 {
            Ok(SensorType::Fan)
        } else if value == 4 {
            Ok(SensorType::Current)
        } else if value == 5 {
            Ok(SensorType::Power)
        } else if value == 6 {
            Ok(SensorType::Clock)
        } else if value == 7 {
            Ok(SensorType::Usage)
        } else if value == 8 {
            Ok(SensorType::Other)
        } else {
            Err(())
        }
    }
}

impl vstd::std_specs::convert::TryFromSpecImpl<u32> for SensorType {
    open spec fn obeys_try_from_spec() -> bool {
        true
    }

    open spec fn try_from_spec(v: u32) -> Result<Self, Self::Error> {
        match sensor_type_of(v) {
            Some(t) => Ok(t),
            None => Err(()),
        }
    }
}

/// HWiNFO's type codes: 0 is an unset entry, 1 a temperature, 2 a voltage,
/// 3 a fan, 4 a current, 5 a power, 6 a clock, 7 a usage, 8 any other
/// reading; no other code names a type. Each type is written as its code.
pub proof fn law_sensor_type_codes(code: u32)
    ensures
        code == 0 <==> sensor_type_of(code) == Some(SensorType::Unset),
        code == 1 <==> sensor_type_of(code) == Some(SensorType::Temp),
        code == 2 <==> sensor_type_of(code) == Some(SensorType::Volt),
        code == 3 <==> sensor_type_of(code) == Some(SensorType::Fan),
        code == 4 <==> sensor_type_of(code) == Some(SensorType::Current),
        code == 5 <==> sensor_type_of(code) == Some(SensorType::Power),
        code == 6 <==> sensor_type_of(code) == Some(SensorType::Clock),
        code == 7 <==> sensor_type_of(code) == Some(SensorType::Usage),
        code == 8 <==> sensor_type_of(code) == Some(SensorType::Other),
        code > 8 <==> sensor_type_of(code) is None,
        sensor_type_code(SensorType::Unset) == 0,
        sensor_type_code(SensorType::Temp) == 1,
        sensor_type_code(SensorType::Volt) == 2,
        sensor_type_code(SensorType::Fan) == 3,
        sensor_type_code(SensorType::Current) == 4,
        sensor_type_code(SensorType::Power) == 5,
        sensor_type_code(SensorType::Clock) == 6,
        sensor_type_code(SensorType::Usage) == 7,
        sensor_type_code(SensorType::Other) == 8,
{
}

/// A sensor type's code reads back as the same sensor type, and a code that
/// reads as a sensor type is that type's code.
pub proof fn law_sensor_type_code_roundtrip(t: SensorType, code: u32)
    ensures
        sensor_type_of(sensor_type_code(t)) == Some(t),
        sensor_type_of(code) matches Some(u) ==> sensor_type_code(u) == code,
{
}

// ---------------------------------------------------------------------------
// Little-endian fields
// ---------------------------------------------------------------------------

pub open spec fn le_u32(b: Seq<u8>, off: int) -> nat {
    b[off] as nat + b[off + 1] as nat * 0x100 + b[off + 2] as nat * 0x1_0000 + b[off + 3] as nat
        * 0x100_0000
}

pub open spec fn le_u64(b: Seq<u8>, off: int) -> nat {
    le_u32(b, off) + le_u32(b, off + 4) * 0x1_0000_0000
}

/// The little-endian `u32` at `off`.
pub fn read_u32(b: &[u8], off: usize) -> (v: u32)
    requires
        off + 4 <= b@.len(),
    ensures
        v as nat == le_u32(b@, off as int),
{
    let v: u64 = b[off] as u64 + (b[off + 1] as u64) * 0x100 + (b[off + 2] as u64) * 0x1_0000
        + (b[off + 3] as u64) * 0x100_0000;
    v as u32
}

/// The little-endian `u64` at `off`.
pub fn read_u64(b: &[u8], off: usize) -> (v: u64)
    requires
        off + 8 <= b@.len(),
    ensures
        v as nat == le_u64(b@, off as int),
{
    assert(off + 8 <= b.len());
    let lo = read_u32(b, off) as u64;
    let hi = read_u32(b, off + 4) as u64;
    lo + hi * 0x1_0000_0000
}

// ---------------------------------------------------------------------------
// Fixed-size text fields
// ---------------------------------------------------------------------------

/// The index of the first zero byte, or the length if there is none.
pub open spec fn zero_index(bytes: Seq<u8>) -> int
    decreases bytes.len(),
{
    if bytes.len() == 0 {
        0
    } else if bytes[0] == 0 {
        0
    } else {
        1 + zero_index(bytes.drop_first())
    }
}

/// The text of a zero-terminated fixed-size field: the bytes before the first
/// zero, decoded as UTF-8 with invalid sequences replaced.
pub open spec fn fixed_text(bytes: Seq<u8>) -> Seq<char> {
    lossy_utf8_text(bytes.take(zero_index(bytes)))
}

pub proof fn lemma_zero_index(bytes: Seq<u8>)
    ensures
        0 <= zero_index(bytes) <= bytes.len(),
        zero_index(bytes) < bytes.len() ==> bytes[zero_index(bytes)] == 0,
        forall|j: int| 0 <= j < zero_index(bytes) ==> bytes[j] != 0,
    decreases bytes.len(),
{
    if bytes.len() > 0 && bytes[0] != 0 {
        lemma_zero_index(bytes.drop_first());
        assert forall|j: int| 0 <= j < zero_index(bytes) implies bytes[j] != 0 by {
            if j > 0 {
                assert(bytes[j] == bytes.drop_first()[j - 1]);
            }
        }
    }
}

/// The text of a zero-terminated fixed-size field.
pub fn parse_fixed_string(bytes: &[u8]) -> (s: String)
    ensures
        s@ == fixed_text(bytes@),
{
    let mut end: usize = 0;
    proof {
        lemma_zero_index(bytes@);
    }
    while end < bytes.len() && bytes[end] != 0
        invariant
            end <= bytes.len(),
            end <= zero_index(bytes@),
            forall|j: int| 0 <= j < zero_index(bytes@) ==> bytes@[j] != 0,
            zero_index(bytes@) < bytes@.len() ==> bytes@[zero_index(bytes@)] == 0,
            zero_index(bytes@) <= bytes@.len(),
        decreases bytes.len() - end,
    {
        end += 1;
    }
    let mut prefix: Vec<u8> = Vec::new();
    let mut i: usize = 0;
    while i < end
        invariant
            i <= end <= bytes.len(),
            prefix@ == bytes@.take(i as int),
        decreases end - i,
    {
        prefix.push(bytes[i]);
        i += 1;
        assert(bytes@.take(i as int) =~= bytes@.take(i - 1).push(bytes@[i - 1]));
    }
    utf8_lossy(prefix.as_slice())
}

/// The text of the `len`-byte field at `off`.
fn read_text(b: &[u8], off: usize, len: usize) -> (s: String)
    requires
        off + len <= b@.len(),
    ensures
        s@ == fixed_text(b@.subrange(off as int, off + len)),
{
    let blen = b.len();
    let mut field: Vec<u8> = Vec::new();
    let mut i: usize = 0;
    while i < len
        invariant
            i <= len,
            off + len <= b@.len(),
            blen == b@.len(),
            field@ == b@.subrange(off as int, off + i),
        decreases len - i,
    {
        field.push(b[off + i]);
        i += 1;
        assert(b@.subrange(off as int, off + i) =~= b@.subrange(off as int, off + i - 1).push(
            b@[off + i - 1],
        ));
    }
    parse_fixed_string(field.as_slice())
}

// ---------------------------------------------------------------------------
// The header
// ---------------------------------------------------------------------------

/// The header of the shared memory.
#[derive(Debug, Clone, Copy, PartialEq, Eq, Structural)]
pub struct HWiNFOHeader {
    pub magic: u32,
    pub version: u32,
    pub version2: u32,
    pub last_update: u64,
    pub sensor_section_offset: u32,
    pub sensor_element_size: u32,
    pub sensor_element_count: u32,
    pub entry_section_offset: u32,
    pub entry_element_size: u32,
    pub entry_element_count: u32,
}

/// The header as the first 44 bytes of `mem` give it; `last_update` is the
/// raw 64-bit pattern of the signed timestamp.
pub open spec fn header_of(mem: Seq<u8>) -> HWiNFOHeader {
    HWiNFOHeader {
        magic: le_u32(mem, 0) as u32,
        version: le_u32(mem, 4) as u32,
        version2: le_u32(mem, 8) as u32,
        last_update: le_u64(mem, 12) as u64,
        sensor_section_offset: le_u32(mem, 20) as u32,
        sensor_element_size: le_u32(mem, 24) as u32,
        sensor_element_count: le_u32(mem, 28) as u32,
        entry_section_offset: le_u32(mem, 32) as u32,
        entry_element_size: le_u32(mem, 36) as u32,
        entry_element_count: le_u32(mem, 40) as u32,
    }
}

/// The header at the start of `mem`.
pub fn read_header(mem: &[u8]) -> (h: HWiNFOHeader)
    requires
        mem@.len() >= HWINFO_HEADER_SIZE,
    ensures
        h == header_of(mem@),
{
    HWiNFOHeader {
        magic: read_u32(mem, 0),
        version: read_u32(mem, 4),
        version2: read_u32(mem, 8),
        last_update: read_u64(mem, 12),
        sensor_section_offset: read_u32(mem, 20),
        sensor_element_size: read_u32(mem, 24),
        sensor_element_count: read_u32(mem, 28),
        entry_section_offset: read_u32(mem, 32),
        entry_element_size: read_u32(mem, 36),
        entry_element_count: read_u32(mem, 40),
    }
}

/// Why a shared memory was not accepted.
#[derive(Debug, Clone, Copy, PartialEq, Eq, Structural)]
pub enum HeaderError {
    /// The memory does not start with `HWINFO_HEADER_MAGIC`; the magic found.
    MagicMismatch(u32),
}

/// The header, if the memory starts with the HWiNFO magic number.
pub fn validate_header(mem: &[u8]) -> (r: Result<HWiNFOHeader, HeaderError>)
    requires
        mem@.len() >= HWINFO_HEADER_SIZE,
    ensures
        header_of(mem@).magic == HWINFO_HEADER_MAGIC ==> r == Ok::<HWiNFOHeader, HeaderError>(
            header_of(mem@),
        ),
        header_of(mem@).magic != HWINFO_HEADER_MAGIC ==> r == Err::<HWiNFOHeader, HeaderError>(
            HeaderError::MagicMismatch(header_of(mem@).magic),
        ),
{
    let h = read_header(mem);
    if h.magic != HWINFO_HEADER_MAGIC {
        Err(HeaderError::MagicMismatch(h.magic))
    } else {
        Ok(h)
    }
}

// ---------------------------------------------------------------------------
// Sensor entries
// ---------------------------------------------------------------------------

/// One sensor reading. Values are the raw bit patterns of IEEE doubles.
#[derive(Debug, Clone)]
pub struct SensorEntry {
    pub sensor_type: SensorType,
    pub sensor_index: u32,
    pub id: u32,
    pub name_original: String,
    pub name_user: String,
    pub unit: String,
    pub value_bits: u64,
    pub value_min_bits: u64,
    pub value_max_bits: u64,
    pub value_avg_bits: u64,
}

impl SensorEntry {
    /// The name to show: the user's name if set, otherwise HWiNFO's.
    pub fn label(&self) -> (r: &str)
        ensures
            r@ == (if self.name_user@.len() > 0 {
                self.name_user@
            } else {
                self.name_original@
            }),
    {
        if self.name_user.as_str().unicode_len() > 0 {
            self.name_user.as_str()
        } else {
            self.name_original.as_str()
        }
    }
}

/// Where entry `i` starts.
pub open spec fn entry_offset(h: HWiNFOHeader, i: int) -> int {
    h.entry_section_offset + i * h.entry_element_size
}

/// Every entry the header announces lies inside `mem`.
pub open spec fn entries_in_bounds(mem: Seq<u8>, h: HWiNFOHeader) -> bool {
    h.entry_element_count == 0 || entry_offset(h, h.entry_element_count - 1)
        + HWINFO_ENTRY_SIZE <= mem.len()
}

/// The raw type code of the entry at `off`.
pub open spec fn entry_type_code(mem: Seq<u8>, off: int) -> u32 {
    le_u32(mem, off) as u32
}

/// `e` is what the entry at `off` holds.
pub open spec fn entry_read_as(mem: Seq<u8>, off: int, e: SensorEntry) -> bool {
    &&& e.sensor_type == (match sensor_type_of(entry_type_code(mem, off)) {
        Some(t) => t,
        None => SensorType::Other,
    })
    &&& e.sensor_index == le_u32(mem, off + 4)
    &&& e.id == le_u32(mem, off + 8)
    &&& e.name_original@ == fixed_text(mem.subrange(off + 12, off + 140))
    &&& e.name_user@ == fixed_text(mem.subrange(off + 140, off + 268))
    &&& e.unit@ == fixed_text(mem.subrange(off + 268, off + 284))
    &&& e.value_bits == le_u64(mem, off + 284)
    &&& e.value_min_bits == le_u64(mem, off + 292)
    &&& e.value_max_bits == le_u64(mem, off + 300)
    &&& e.value_avg_bits == le_u64(mem, off + 308)
}

/// The offsets of the first `n` entries whose type code is not 0, in order.
pub open spec fn kept_entry_offsets(mem: Seq<u8>, h: HWiNFOHeader, n: int) -> Seq<int>
    decreases n,
{
    if n <= 0 {
        Seq::empty()
    } else {
        let rest = kept_entry_offsets(mem, h, n - 1);
        let off = entry_offset(h, n - 1);
        if entry_type_code(mem, off) != 0 {
            rest.push(off)
        } else {
            rest
        }
    }
}

/// The entry at `off`.
fn read_entry(mem: &[u8], off: usize) -> (e: SensorEntry)
    requires
        off + HWINFO_ENTRY_SIZE <= mem@.len(),
    ensures
        entry_read_as(mem@, off as int, e),
{
    assert(off + HWINFO_ENTRY_SIZE <= mem.len());
    let code = read_u32(mem, off);
    let sensor_type = match SensorType::try_from(code) {
        Ok(t) => t,
        Err(_) => SensorType::Other,
    };
    SensorEntry {
        sensor_type,
        sensor_index: read_u32(mem, off + 4),
        id: read_u32(mem, off + 8),
        name_original: read_text(mem, off + 12, 128),
        name_user: read_text(mem, off + 140, 128),
        unit: read_text(mem, off + 268, 16),
        value_bits: read_u64(mem, off + 284),
        value_min_bits: read_u64(mem, off + 292),
        value_max_bits: read_u64(mem, off + 300),
        value_avg_bits: read_u64(mem, off + 308),
    }
}

/// The sensor entries of a shared memory whose header is `h`, skipping those
/// whose type code is 0, in memory order.
pub fn read_entries(mem: &[u8], h: &HWiNFOHeader) -> (entries: Vec<SensorEntry>)
    requires
        entries_in_bounds(mem@, *h),
    ensures
        entries@.len() == kept_entry_offsets(mem@, *h, h.entry_element_count as int).len(),
        forall|j: int|
            0 <= j < entries@.len() ==> entry_read_as(
                mem@,
                #[trigger] kept_entry_offsets(mem@, *h, h.entry_element_count as int)[j],
                entries@[j],
            ),
{
    let mut entries: Vec<SensorEntry> = Vec::new();
    let count = h.entry_element_count as usize;
    let len = mem.len();
    let mut i: usize = 0;
    while i < count
        invariant
            i <= count,
            len == mem@.len(),
            count == h.entry_element_count,
            entries_in_bounds(mem@, *h),
            entries@.len() == kept_entry_offsets(mem@, *h, i as int).len(),
            forall|j: int|
                0 <= j < entries@.len() ==> entry_read_as(
                    mem@,
                    #[trigger] kept_entry_offsets(mem@, *h, i as int)[j],
                    entries@[j],
                ),
        decreases count - i,
    {
        proof {
            assert(entry_offset(*h, i as int) <= entry_offset(*h, count - 1)) by (nonlinear_arith)
                requires
                    i <= count - 1,
                    h.entry_element_size >= 0,
            {
            }
        }
        let off = (h.entry_section_offset as usize) + i * (h.entry_element_size as usize);
        let code = read_u32(mem, off);
        let ghost before = entries@;
        if code != 0 {
            let e = read_entry(mem, off);
            entries.push(e);
        }
        i += 1;
        assert forall|j: int| 0 <= j < entries@.len() implies entry_read_as(
            mem@,
            #[trigger] kept_entry_offsets(mem@, *h, i as int)[j],
            entries@[j],
        ) by {
            if j < before.len() {
                assert(entries@[j] == before[j]);
            }
        }
    }
    entries
}

/// Whether `mem`, of length `mem_len`, holds every entry the header
/// announces.
pub fn entries_fit(mem_len: usize, h: &HWiNFOHeader) -> (b: bool)
    ensures
        b == (h.entry_element_count == 0 || entry_offset(*h, h.entry_element_count - 1)
            + HWINFO_ENTRY_SIZE <= mem_len),
{
    if h.entry_element_count == 0 {
        return true;
    }
    let last = (h.entry_element_count - 1) as u64;
    let size = h.entry_element_size as u64;
    assert(last * size <= 0xffff_ffff * 0xffff_ffff) by (nonlinear_arith)
        requires
            last <= 0xffff_ffff,
            size <= 0xffff_ffff,
    ;
    let end: u64 = h.entry_section_offset as u64 + last * size + 316;
    end <= mem_len as u64
}

/// How many bytes from the start of the memory cover the header and every
/// entry the header announces.
pub fn required_len(h: &HWiNFOHeader) -> (n: u64)
    ensures
        n >= HWINFO_HEADER_SIZE,
        h.entry_element_count > 0 ==> n >= entry_offset(*h, h.entry_element_count - 1)
            + HWINFO_ENTRY_SIZE,
        h.entry_element_count > 0 ==> n == (if entry_offset(*h, h.entry_element_count - 1)
            + HWINFO_ENTRY_SIZE >= HWINFO_HEADER_SIZE {
            entry_offset(*h, h.entry_element_count - 1) + HWINFO_ENTRY_SIZE
        } else {
            HWINFO_HEADER_SIZE as int
        }),
        h.entry_element_count == 0 ==> n == HWINFO_HEADER_SIZE,
{
    if h.entry_element_count == 0 {
        return 44;
    }
    let last = (h.entry_element_count - 1) as u64;
    let size = h.entry_element_size as u64;
    assert(last * size <= 0xffff_ffff * 0xffff_ffff) by (nonlinear_arith)
        requires
            last <= 0xffff_ffff,
            size <= 0xffff_ffff,
    ;
    let end: u64 = h.entry_section_offset as u64 + last * size + 316;
    if end >= 44 {
        end
    } else {
        44
    }
}

// ---------------------------------------------------------------------------
// Readings by name
// ---------------------------------------------------------------------------

/// A reading as the monitor reports it: the raw value and its unit.
#[derive(Debug, Clone)]
pub struct SensorValue {
    pub value_bits: u64,
    pub unit: String,
}

/// How often `x` occurs in `names`.
pub open spec fn occurrences(names: Seq<Seq<char>>, x: Seq<char>) -> nat
    decreases names.len(),
{
    if names.len() == 0 {
        0
    } else {
        occurrences(names.drop_last(), x) + (if names.last() == x {
            1nat
        } else {
            0nat
        })
    }
}

/// The name under which the reading named `base` is reported when `count`
/// readings of that name came before it: the name itself for the first,
/// then `base #2`, `base #3`, and so on.
pub open spec fn numbered_name(base: Seq<char>, count: nat) -> Seq<char> {
    if count == 0 {
        base
    } else {
        base + seq![' ', '#'] + dec_text(count + 1)
    }
}

pub open spec fn original_names(entries: Seq<SensorEntry>) -> Seq<Seq<char>> {
    entries.map_values(|e: SensorEntry| e.name_original@)
}

/// The name under which entry `i` is reported.
pub open spec fn reported_name(entries: Seq<SensorEntry>, i: int) -> Seq<char> {
    let names = original_names(entries);
    numbered_name(names[i], occurrences(names.take(i), names[i]))
}

/// The readings by reported name after the first `n` entries are inserted in
/// order, a later reading replacing an earlier one of the same name.
pub open spec fn reported_values(entries: Seq<SensorEntry>, n: int) -> Map<
    Seq<char>,
    (u64, Seq<char>),
>
    decreases n,
{
    if n <= 0 {
        Map::empty()
    } else {
        reported_values(entries, n - 1).insert(
            reported_name(entries, n - 1),
            (entries[n - 1].value_bits, entries[n - 1].unit@),
        )
    }
}

/// The map that a list of named readings stands for.
pub open spec fn named_values_map(v: Seq<(String, SensorValue)>) -> Map<
    Seq<char>,
    (u64, Seq<char>),
>
    decreases v.len(),
{
    if v.len() == 0 {
        Map::empty()
    } else {
        named_values_map(v.drop_last()).insert(
            v.last().0@,
            (v.last().1.value_bits, v.last().1.unit@),
        )
    }
}

/// No name occurs twice in the list.
pub open spec fn distinct_names(v: Seq<(String, SensorValue)>) -> bool {
    forall|a: int, b: int| 0 <= a < b < v.len() ==> v[a].0@ != v[b].0@
}

proof fn lemma_named_values_update(
    v: Seq<(String, SensorValue)>,
    k: int,
    x: (String, SensorValue),
)
    requires
        distinct_names(v),
        0 <= k < v.len(),
        v[k].0@ == x.0@,
    ensures
        named_values_map(v.update(k, x)) == named_values_map(v).insert(
            x.0@,
            (x.1.value_bits, x.1.unit@),
        ),
    decreases v.len(),
{
    let u = v.update(k, x);
    if k == v.len() - 1 {
        assert(u.drop_last() =~= v.drop_last());
        assert(named_values_map(u) =~= named_values_map(v).insert(
            x.0@,
            (x.1.value_bits, x.1.unit@),
        ));
    } else {
        assert(u.drop_last() =~= v.drop_last().update(k, x));
        lemma_named_values_update(v.drop_last(), k, x);
        assert(v.last().0@ != x.0@);
        assert(named_values_map(u) =~= named_values_map(v).insert(
            x.0@,
            (x.1.value_bits, x.1.unit@),
        ));
    }
}

/// How many of the first `i` entries have the same original name as entry
/// `i`.
fn count_earlier_names(entries: &Vec<SensorEntry>, i: usize) -> (c: u64)
    requires
        i < entries@.len(),
    ensures
        c <= i,
        c == occurrences(original_names(entries@).take(i as int), entries@[i as int].name_original@),
{
    let ghost names = original_names(entries@);
    let mut c: u64 = 0;
    let mut j: usize = 0;
    while j < i
        invariant
            j <= i < entries@.len(),
            names == original_names(entries@),
            c <= j,
            c == occurrences(names.take(j as int), entries@[i as int].name_original@),
        decreases i - j,
    {
        assert(names.take(j + 1).drop_last() =~= names.take(j as int));
        if entries[j].name_original == entries[i].name_original {
            c += 1;
        }
        j += 1;
    }
    c
}

/// The readings by reported name, as inserting every entry in order into a
/// map would leave them: the first reading of a name under that name, later
/// ones under `name #2`, `name #3`, and so on, a later reading replacing an
/// earlier one that ends up under the same name.
pub fn all_entries_by_name(entries: &Vec<SensorEntry>) -> (r: Vec<(String, SensorValue)>)
    ensures
        distinct_names(r@),
        named_values_map(r@) == reported_values(entries@, entries@.len() as int),
{
    let mut r: Vec<(String, SensorValue)> = Vec::new();
    let mut i: usize = 0;
    while i < entries.len()
        invariant
            i <= entries@.len(),
            distinct_names(r@),
            named_values_map(r@) == reported_values(entries@, i as int),
        decreases entries@.len() - i,
    {
        let count = count_earlier_names(entries, i);
        let mut name = String::new();
        push_chars(&mut name, &crate::text::chars_of(entries[i].name_original.as_str()));
        if count > 0 {
            crate::text::push_char(&mut name, ' ');
            crate::text::push_char(&mut name, '#');
            push_decimal(&mut name, count + 1);
        }
        assert(name@ == reported_name(entries@, i as int));
        let value = SensorValue {
            value_bits: entries[i].value_bits,
            unit: entries[i].unit.clone(),
        };
        let ghost before = r@;
        let mut k: usize = 0;
        let mut found = false;
        while k < r.len() && !found
            invariant
                k <= r@.len(),
                r@ == before,
                found ==> k < r@.len() && r@[k as int].0@ == name@,
                forall|a: int| 0 <= a < k ==> r@[a].0@ != name@,
            decreases r@.len() - k + (if found { 0int } else { 1int }),
        {
            if r[k].0 == name {
                found = true;
            } else {
                k += 1;
            }
        }
        let ghost entry = (name, value);
        if found {
            proof {
                lemma_named_values_update(before, k as int, entry);
            }
            r.set(k, (name, value));
            assert forall|a: int, b: int| 0 <= a < b < r@.len() implies r@[a].0@ != r@[b].0@ by {
                assert(r@[k as int].0@ == before[k as int].0@);
            }
        } else {
            r.push((name, value));
            assert(r@.drop_last() =~= before);
        }
        i += 1;
    }
    r
}

// ---------------------------------------------------------------------------
// Laws about the numbering of repeated names
// ---------------------------------------------------------------------------

/// The mark that separates a name from its number.
pub open spec fn number_mark() -> Seq<char> {
    seq![' ', '#']
}

proof fn lemma_occ_step(names: Seq<Seq<char>>, x: Seq<char>, i: int)
    requires
        0 <= i < names.len(),
    ensures
        occurrences(names.take(i + 1), x) == occurrences(names.take(i), x) + (if names[i] == x {
            1nat
        } else {
            0nat
        }),
{
    assert(names.take(i + 1).drop_last() =~= names.take(i));
}

proof fn lemma_occ_mono(names: Seq<Seq<char>>, x: Seq<char>, i: int, j: int)
    requires
        0 <= i <= j <= names.len(),
    ensures
        occurrences(names.take(i), x) <= occurrences(names.take(j), x),
    decreases j - i,
{
    if i < j {
        lemma_occ_mono(names, x, i, j - 1);
        lemma_occ_step(names, x, j - 1);
    }
}

/// `x` followed by the mark and more text cannot equal the longer `y`
/// followed by the mark and more text, unless `y` holds the mark.
proof fn lemma_marked_prefix(x: Seq<char>, y: Seq<char>, dx: Seq<char>, dy: Seq<char>)
    requires
        x.len() < y.len(),
        !contains_seq(y, number_mark()),
    ensures
        x + number_mark() + dx != y + number_mark() + dy,
{
    let n = x + number_mark() + dx;
    let m = y + number_mark() + dy;
    let k = x.len() as int;
    if n == m {
        assert(n[k] == ' ');
        assert(n[k + 1] == '#');
        if k + 1 < y.len() {
            assert(y[k] == m[k]);
            assert(y[k + 1] == m[k + 1]);
            assert(y.subrange(k, k + 2) =~= number_mark());
            assert(occurs_at(y, number_mark(), k));
        } else {
            assert(m[k + 1] == ' ');
        }
    }
}

/// When no HWiNFO name holds ` #`, different entries are reported under
/// different names.
pub proof fn law_reported_names_distinct(entries: Seq<SensorEntry>, i: int, j: int)
    requires
        0 <= i < j < entries.len(),
        forall|k: int|
            0 <= k < entries.len() ==> !contains_seq(
                (#[trigger] entries[k]).name_original@,
                number_mark(),
            ),
    ensures
        reported_name(entries, i) != reported_name(entries, j),
{
    let names = original_names(entries);
    let bi = names[i];
    let bj = names[j];
    assert(bi == entries[i].name_original@);
    assert(bj == entries[j].name_original@);
    let ci = occurrences(names.take(i), bi);
    let cj = occurrences(names.take(j), bj);
    let ni = reported_name(entries, i);
    let nj = reported_name(entries, j);
    if ni == nj {
        if bi == bj {
            lemma_occ_step(names, bi, i);
            lemma_occ_mono(names, bi, i + 1, j);
            assert(cj >= ci + 1);
            if ci == 0 {
                assert(nj.len() > bj.len());
            } else {
                let di = dec_text(ci + 1);
                let dj = dec_text(cj + 1);
                assert(ni.skip(bi.len() + 2int) =~= di);
                assert(nj.skip(bj.len() + 2int) =~= dj);
                lemma_dec_text_value(ci + 1);
                lemma_dec_text_value(cj + 1);
            }
        } else {
            if ci == 0 && cj == 0 {
            } else if ci == 0 {
                let k = bj.len() as int;
                assert(ni == bi);
                assert(bi.subrange(k, k + 2) =~= nj.subrange(k, k + 2));
                assert(nj.subrange(k, k + 2) =~= number_mark());
                assert(occurs_at(bi, number_mark(), k));
            } else if cj == 0 {
                let k = bi.len() as int;
                assert(nj == bj);
                assert(bj.subrange(k, k + 2) =~= ni.subrange(k, k + 2));
                assert(ni.subrange(k, k + 2) =~= number_mark());
                assert(occurs_at(bj, number_mark(), k));
            } else {
                let di = dec_text(ci + 1);
                let dj = dec_text(cj + 1);
                if bi.len() < bj.len() {
                    lemma_marked_prefix(bi, bj, di, dj);
                } else if bj.len() < bi.len() {
                    lemma_marked_prefix(bj, bi, dj, di);
                } else {
                    assert(bi =~= ni.take(bi.len() as int));
                    assert(bj =~= nj.take(bj.len() as int));
                }
            }
        }
    }
}

proof fn lemma_every_reading_kept(entries: Seq<SensorEntry>, n: int, i: int)
    requires
        0 <= i < n <= entries.len(),
        forall|a: int, b: int|
            0 <= a < b < n ==> reported_name(entries, a) != reported_name(entries, b),
    ensures
        reported_values(entries, n).dom().contains(reported_name(entries, i)),
        reported_values(entries, n)[reported_name(entries, i)] == (
            entries[i].value_bits,
            entries[i].unit@,
        ),
    decreases n,
{
    if i < n - 1 {
        lemma_every_reading_kept(entries, n - 1, i);
        assert(reported_name(entries, i) != reported_name(entries, n - 1));
    }
}

/// When no HWiNFO name holds ` #`, numbering keeps every reading: each
/// entry's value and unit are found under its reported name.
pub proof fn law_every_reading_kept(entries: Seq<SensorEntry>, i: int)
    requires
        0 <= i < entries.len(),
        forall|k: int|
            0 <= k < entries.len() ==> !contains_seq(
                (#[trigger] entries[k]).name_original@,
                number_mark(),
            ),
    ensures
        reported_values(entries, entries.len() as int)[reported_name(entries, i)] == (
            entries[i].value_bits,
            entries[i].unit@,
        ),
{
    assert forall|a: int, b: int|
        0 <= a < b < entries.len() implies reported_name(entries, a) != reported_name(
        entries,
        b,
    ) by {
        law_reported_names_distinct(entries, a, b);
    }
    lemma_every_reading_kept(entries, entries.len() as int, i);
}

} // verus!
