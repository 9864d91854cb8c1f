//! The SNES cartridge: ROM layouts, address mapping and the internal header.
use vstd::prelude::*;
use vstd::arithmetic::power2::pow2;
use vstd::bits::lemma_u64_shl_is_mul;

use crate::error::Error;
use crate::protocol::{AddressInfo, MemoryDomain};
use crate::text::{lossy_string, utf8_lossy};
use vstd::utf8::{decode_utf8, valid_utf8};


verus! {

#[derive(Debug, Clone, Copy, PartialEq, Eq, Structural)]
pub enum RomMapping {
    LoROM,
    HiROM,
    SDD1,
    SA1,
    ExHiROM,
    SPC7110,
    Unknown,
}

/// Division rounding toward zero, as machine integers divide.
pub open spec fn trunc_div(a: int, b: int) -> int {
    if a >= 0 { a / b } else { -((-a) / b) }
}

/// The remainder that goes with `trunc_div`; it has the sign of `a`.
pub open spec fn trunc_rem(a: int, b: int) -> int {
    a - b * trunc_div(a, b)
}

/// The SNES bus address of the cartridge-RAM offset `a` in a HiROM layout:
/// 8 KiB pages from bank 0xA0 on, at 0x6000 in each bank.
pub open spec fn hirom_sram(a: i64) -> i64 {
    let bank = (trunc_div(a as int, 0x2000) + 0xA0) as i64;
    let saddr = 0x6000i64 | (trunc_rem(a as int, 0x2000) as i64);
    (bank << 16u64) | saddr
}

/// Where a memory access of the given domain lands on the SNES bus.
pub open spec fn spec_to_snes(m: RomMapping, ai: AddressInfo) -> Result<i64, Error> {
    let a = ai.address;
    match m {
        RomMapping::LoROM => match ai.domain {
            MemoryDomain::WRAM => Ok((0x7E0000 + a) as i64),
            MemoryDomain::CARTRAM => Ok((0x700000 + (((a & 0xFF8000) << 1u64) | (a & 0x7FFF))) as i64),
            MemoryDomain::CARTROM => Ok(
                ((if a < 0x400000 { 0x800000int } else { 0int }) + (((a & 0xFF8000) << 1u64) | (a & 0x7FFF) | 0x8000)) as i64,
            ),
        },
        RomMapping::HiROM => match ai.domain {
            MemoryDomain::WRAM => Ok((0x7E0000 + a) as i64),
            MemoryDomain::CARTRAM => Ok(hirom_sram(a)),
            MemoryDomain::CARTROM => Ok((0xC00000 + a) as i64),
        },
        RomMapping::ExHiROM => match ai.domain {
            MemoryDomain::WRAM => Ok((0x7E0000 + a) as i64),
            MemoryDomain::CARTRAM => Ok(hirom_sram(a)),
            MemoryDomain::CARTROM => Ok(((if a < 0x400000 { 0xC00000int } else { 0int }) + a) as i64),
        },
        _ => Err(Error::UnsupportedRomMapping),
    }
}

/// The mapping's sums stay within `i64`.
pub open spec fn to_snes_fits(m: RomMapping, ai: AddressInfo) -> bool {
    &&& (m == RomMapping::LoROM || m == RomMapping::HiROM || m == RomMapping::ExHiROM) && ai.domain
        == MemoryDomain::WRAM ==> ai.address <= i64::MAX - 0x7E0000
    &&& m == RomMapping::HiROM && ai.domain == MemoryDomain::CARTROM ==> ai.address <= i64::MAX
        - 0xC00000
}

impl RomMapping {
    /// Maps a memory access to the SNES bus address for this ROM layout.
    pub fn to_snes(&self, address: &AddressInfo) -> (r: Result<i64, Error>)
        requires
            to_snes_fits(*self, *address),
        ensures
            r == spec_to_snes(*self, *address),
    {
        let a = address.address;
        match self {
            RomMapping::LoROM => match address.domain {
                MemoryDomain::WRAM => Ok(0x7E0000 + a),
                MemoryDomain::CARTRAM => {
                    let high: i64 = (a & 0xFF8000) << 1u64;
                    assert(0 <= a & 0xFF8000 <= 0xFF8000) by (bit_vector);
                    assert(0 <= a & 0xFF8000 <= 0xFF8000 ==> 0 <= (a & 0xFF8000) << 1u64 <= 0x1FF0000) by (bit_vector);
                    assert(0 <= high <= 0x1FF0000 ==> 0 <= (high | (a & 0x7FFF)) <= 0x1FFFFFF) by (bit_vector);
                    Ok(0x700000 + (high | (a & 0x7FFF)))
                },
                MemoryDomain::CARTROM => {
                    let high: i64 = (a & 0xFF8000) << 1u64;
                    assert(0 <= a & 0xFF8000 <= 0xFF8000) by (bit_vector);
                    assert(0 <= a & 0xFF8000 <= 0xFF8000 ==> 0 <= (a & 0xFF8000) << 1u64 <= 0x1FF0000) by (bit_vector);
                    assert(0 <= high <= 0x1FF0000 ==> 0 <= (high | (a & 0x7FFF) | 0x8000) <= 0x1FFFFFF) by (bit_vector);
                    let base: i64 = if a < 0x400000 { 0x800000 } else { 0 };
                    Ok(base + (high | (a & 0x7FFF) | 0x8000))
                },
            },
            RomMapping::HiROM => match address.domain {
                MemoryDomain::WRAM => Ok(0x7E0000 + a),
                MemoryDomain::CARTRAM => Ok(Self::sram_bus_address(a)),
                MemoryDomain::CARTROM => Ok(0xC00000 + a),
            },
            RomMapping::ExHiROM => match address.domain {
                MemoryDomain::WRAM => Ok(0x7E0000 + a),
                MemoryDomain::CARTRAM => Ok(Self::sram_bus_address(a)),
                MemoryDomain::CARTROM => {
                    let base: i64 = if a < 0x400000 { 0xC00000 } else { 0 };
                    Ok(base + a)
                },
            },
            _ => Err(Error::UnsupportedRomMapping),
        }
    }

    /// Whether mapping `address` stays within `i64`.
    pub fn fits(&self, address: &AddressInfo) -> (r: bool)
        ensures
            r == to_snes_fits(*self, *address),
    {
        let supported = match self {
            RomMapping::LoROM | RomMapping::HiROM | RomMapping::ExHiROM => true,
            _ => false,
        };
        let hirom = match self {
            RomMapping::HiROM => true,
            _ => false,
        };
        let wram = match address.domain {
            MemoryDomain::WRAM => true,
            _ => false,
        };
        let rom = match address.domain {
            MemoryDomain::CARTROM => true,
            _ => false,
        };
        (!(supported && wram) || address.address <= i64::MAX - 0x7E0000) && (!(hirom && rom) || address.address <= i64::MAX
            - 0xC00000)
    }

    fn sram_bus_address(a: i64) -> (r: i64)
        ensures
            r == hirom_sram(a),
    {
        let bank = a / 0x2000 + 0xA0;
        let saddr = 0x6000 | (a % 0x2000);
        (bank << 16u64) | saddr
    }
}

/// In LoROM, cartridge ROM comes in 32 KiB pieces, each in the upper half of
/// its own bank; the first 4 MiB are seen from bank 0x80 on.
pub proof fn lemma_lorom_rom_layout(ai: AddressInfo)
    requires
        ai.domain == MemoryDomain::CARTROM,
        0 <= ai.address < 0x1000000,
    ensures
        spec_to_snes(RomMapping::LoROM, ai) == Ok::<i64, Error>(
            ((if ai.address < 0x400000 { 0x800000int } else { 0int }) + (ai.address / 0x8000) * 0x10000
                + 0x8000 + ai.address % 0x8000) as i64,
        ),
{
    let a = ai.address;
    assert(((a & 0xFF8000) << 1u64) | (a & 0x7FFF) | 0x8000 == (a / 0x8000) * 0x10000 + 0x8000 + a % 0x8000)
        by (bit_vector)
        requires
            0 <= a < 0x1000000,
    ;
}

/// In LoROM, cartridge RAM comes in 32 KiB pieces at the start of the banks
/// from 0x70 on.
pub proof fn lemma_lorom_sram_layout(ai: AddressInfo)
    requires
        ai.domain == MemoryDomain::CARTRAM,
        0 <= ai.address < 0x1000000,
    ensures
        spec_to_snes(RomMapping::LoROM, ai) == Ok::<i64, Error>(
            (0x700000 + (ai.address / 0x8000) * 0x10000 + ai.address % 0x8000) as i64,
        ),
{
    let a = ai.address;
    assert(((a & 0xFF8000) << 1u64) | (a & 0x7FFF) == (a / 0x8000) * 0x10000 + a % 0x8000) by (bit_vector)
        requires
            0 <= a < 0x1000000,
    ;
}

/// In HiROM and ExHiROM, cartridge RAM comes in 8 KiB pieces at 0x6000 of
/// the banks from 0xA0 on.
pub proof fn lemma_hirom_sram_layout(m: RomMapping, ai: AddressInfo)
    requires
        m == RomMapping::HiROM || m == RomMapping::ExHiROM,
        ai.domain == MemoryDomain::CARTRAM,
        0 <= ai.address < 0x100_0000_0000,
    ensures
        spec_to_snes(m, ai) == Ok::<i64, Error>(
            ((0xA0 + ai.address / 0x2000) * 0x10000 + 0x6000 + ai.address % 0x2000) as i64,
        ),
{
    let a = ai.address;
    let bank = (a / 0x2000 + 0xA0) as i64;
    let low = (a % 0x2000) as i64;
    assert(bank == (trunc_div(a as int, 0x2000) + 0xA0) as i64);
    assert(low == trunc_rem(a as int, 0x2000) as i64);
    assert((bank << 16u64) | (0x6000i64 | low) == bank * 0x10000 + 0x6000 + low) by (bit_vector)
        requires
            0xA0 <= bank < 0x100_0000_0000,
            0 <= low < 0x2000,
    ;
}

/// Work RAM sits at 0x7E0000 in every supported layout; HiROM shows its
/// ROM from 0xC00000 on, ExHiROM its first 4 MiB there and the rest from
/// address 0; the other layouts cannot be mapped.
pub proof fn lemma_bus_addresses(m: RomMapping, ai: AddressInfo)
    requires
        to_snes_fits(m, ai),
    ensures
        (m == RomMapping::LoROM || m == RomMapping::HiROM || m == RomMapping::ExHiROM) && ai.domain == MemoryDomain::WRAM
            ==> spec_to_snes(m, ai) == Ok::<i64, Error>((0x7E0000 + ai.address) as i64),
        m == RomMapping::HiROM && ai.domain == MemoryDomain::CARTROM
            ==> spec_to_snes(m, ai) == Ok::<i64, Error>((0xC00000 + ai.address) as i64),
        m == RomMapping::ExHiROM && ai.domain == MemoryDomain::CARTROM ==> spec_to_snes(m, ai) == Ok::<i64, Error>(
            if ai.address < 0x400000 { (0xC00000 + ai.address) as i64 } else { ai.address },
        ),
        !(m == RomMapping::LoROM || m == RomMapping::HiROM || m == RomMapping::ExHiROM)
            ==> spec_to_snes(m, ai) == Err::<i64, Error>(Error::UnsupportedRomMapping),
{
}

#[derive(Debug, Clone, Copy, PartialEq, Eq, Structural)]
pub enum RomChip {
    ROM,
    RAM,
    CoProcessor,
    Battery,
    DSP,
    GSU,
    OBC1,
    SA1,
    SDD1,
    SRTC,
    Other,
    Custom,
    Unknown,
}

#[derive(Debug, Clone, Copy, PartialEq, Eq, Structural)]
pub enum RomSpeed {
    Slow,
    Fast,
}

/// The internal header that a SNES cartridge carries at the end of its first
/// bank (32 bytes from 0xFFC0 in LoROM).
#[derive(Copy, Clone, Debug)]
pub struct RomHeader {
    pub game_title: [u8; 21],
    pub rom_mapping: u8,
    pub rom_chipset: u8,
    pub rom_size: u8,
    pub sram_size: u8,
    pub developer_id: u8,
    pub country: u8,
    pub version: u8,
    pub checksum_comp: u16,
    pub checksum: u16,
}

/// A ROM header as mathematical values.
pub struct RomHeaderModel {
    pub game_title: Seq<u8>,
    pub rom_mapping: u8,
    pub rom_chipset: u8,
    pub rom_size: u8,
    pub sram_size: u8,
    pub developer_id: u8,
    pub country: u8,
    pub version: u8,
    pub checksum_comp: u16,
    pub checksum: u16,
}

impl View for RomHeader {
    type V = RomHeaderModel;

    open spec fn view(&self) -> RomHeaderModel {
        RomHeaderModel {
            game_title: self.game_title@,
            rom_mapping: self.rom_mapping,
            rom_chipset: self.rom_chipset,
            rom_size: self.rom_size,
            sram_size: self.sram_size,
            developer_id: self.developer_id,
            country: self.country,
            version: self.version,
            checksum_comp: self.checksum_comp,
            checksum: self.checksum,
        }
    }
}

/// A little-endian 16-bit number from two bytes.
pub open spec fn le16(lo: u8, hi: u8) -> u16 {
    (lo + hi * 256) as u16
}

/// The header that the 32 bytes `d` hold, field after field, little-endian.
pub open spec fn spec_header_layout(d: Seq<u8>) -> RomHeaderModel {
    RomHeaderModel {
        game_title: d.take(21),
        rom_mapping: d[21],
        rom_chipset: d[22],
        rom_size: d[23],
        sram_size: d[24],
        developer_id: d[25],
        country: d[26],
        version: d[27],
        checksum_comp: le16(d[28], d[29]),
        checksum: le16(d[30], d[31]),
    }
}

/// The checksum and its complement agree.
pub open spec fn checksum_matches(h: RomHeaderModel) -> bool {
    h.checksum_comp ^ 0xFFFFu16 == h.checksum
}

/// The ROM layout that the mapping byte names (only its low three bits count).
pub open spec fn spec_rom_mapping(b: u8) -> RomMapping {
    let m = b & 7u8;
    if m == 0 {
        RomMapping::LoROM
    } else if m == 1 {
        RomMapping::HiROM
    } else if m == 2 {
        RomMapping::SDD1
    } else if m == 3 {
        RomMapping::SA1
    } else if m == 5 {
        RomMapping::ExHiROM
    } else {
        RomMapping::Unknown
    }
}

/// The chips that the low nibble of the chipset byte names.
pub open spec fn spec_base_chips(low: u8) -> Seq<RomChip> {
    if low == 0 {
        seq![RomChip::ROM]
    } else if low == 1 {
        seq![RomChip::ROM, RomChip::RAM]
    } else if low == 2 {
        seq![RomChip::ROM, RomChip::RAM, RomChip::Battery]
    } else if low == 3 {
        seq![RomChip::CoProcessor, RomChip::ROM]
    } else if low == 4 {
        seq![RomChip::CoProcessor, RomChip::ROM, RomChip::RAM]
    } else if low == 5 {
        seq![RomChip::CoProcessor, RomChip::ROM, RomChip::RAM, RomChip::Battery]
    } else if low == 6 {
        seq![RomChip::CoProcessor, RomChip::Battery]
    } else {
        seq![RomChip::Unknown]
    }
}

/// The coprocessor that the high nibble of the chipset byte names.
pub open spec fn spec_coprocessor(high: u8) -> RomChip {
    if high == 0x00 {
        RomChip::DSP
    } else if high == 0x10 {
        RomChip::GSU
    } else if high == 0x20 {
        RomChip::OBC1
    } else if high == 0x30 {
        RomChip::SA1
    } else if high == 0x40 {
        RomChip::SDD1
    } else if high == 0x50 {
        RomChip::SRTC
    } else if high == 0xE0 {
        RomChip::Other
    } else if high == 0xF0 {
        RomChip::Custom
    } else {
        RomChip::Unknown
    }
}

/// The chips of a cartridge: those of the low nibble, then the coprocessor
/// of the high nibble when the low nibble names one.
pub open spec fn spec_chipset(c: u8) -> Seq<RomChip> {
    let base = spec_base_chips(c & 0x0Fu8);
    if base.contains(RomChip::CoProcessor) {
        base.push(spec_coprocessor(c & 0xF0u8))
    } else {
        base
    }
}

/// `2^n` as the machine computes `1 << n` in 64 signed bits.
pub open spec fn spec_shifted_one(n: u8) -> i64 {
    if n < 63 { pow2(n as nat) as i64 } else { i64::MIN }
}

fn shifted_one(n: u8) -> (r: i64)
    requires
        n < 64,
    ensures
        r == spec_shifted_one(n),
{
    if n == 63 {
        i64::MIN
    } else {
        let v: u64 = 1u64 << (n as u64);
        proof {
            vstd::arithmetic::power2::lemma_pow2_strictly_increases(n as nat, 63);
            vstd::arithmetic::power2::lemma2_to64_rest();
            lemma_u64_shl_is_mul(1, n as u64);
        }
        v as i64
    }
}

impl RomHeader {
    /// The all-zero header.
    pub open spec fn spec_default() -> RomHeaderModel {
        RomHeaderModel {
            game_title: Seq::new(21, |i: int| 0u8),
            rom_mapping: 0,
            rom_chipset: 0,
            rom_size: 0,
            sram_size: 0,
            developer_id: 0,
            country: 0,
            version: 0,
            checksum_comp: 0,
            checksum: 0,
        }
    }
}

impl Default for RomHeader {
    fn default() -> (r: RomHeader)
        ensures
            r@ == RomHeader::spec_default(),
    {
        let r = RomHeader {
            game_title: [0u8; 21],
            rom_mapping: 0,
            rom_chipset: 0,
            rom_size: 0,
            sram_size: 0,
            developer_id: 0,
            country: 0,
            version: 0,
            checksum_comp: 0,
            checksum: 0,
        };
        assert(r.game_title@ =~= Seq::new(21, |i: int| 0u8));
        r
    }
}

impl RomHeader {
    /// Reads a header from its 32 bytes; refused when the checksum and its
    /// complement disagree.
    pub fn from_le_bytes(data: &[u8]) -> (r: Result<RomHeader, Error>)
        requires
            data@.len() >= 32,
        ensures
            checksum_matches(spec_header_layout(data@)) ==> (r matches Ok(h) && h@ == spec_header_layout(
                data@,
            )),
            !checksum_matches(spec_header_layout(data@)) ==> r == Err::<RomHeader, Error>(
                Error::InvalidHeader,
            ),
    {
        let game_title: [u8; 21] = [
            data[0], data[1], data[2], data[3], data[4], data[5], data[6],
            data[7], data[8], data[9], data[10], data[11], data[12], data[13],
            data[14], data[15], data[16], data[17], data[18], data[19], data[20],
        ];
        let checksum_comp: u16 = data[28] as u16 + (data[29] as u16) * 256;
        let checksum: u16 = data[30] as u16 + (data[31] as u16) * 256;
        let rom_header = RomHeader {
            game_title,
            rom_mapping: data[21],
            rom_chipset: data[22],
            rom_size: data[23],
            sram_size: data[24],
            developer_id: data[25],
            country: data[26],
            version: data[27],
            checksum_comp,
            checksum,
        };
        assert(rom_header.game_title@ =~= data@.take(21));
        if rom_header.checksum_comp ^ 0xFFFF != rom_header.checksum {
            Err(Error::InvalidHeader)
        } else {
            Ok(rom_header)
        }
    }

    /// The game title, its bytes read as UTF-8 with invalid sequences replaced.
    pub fn game_title(&self) -> (r: String)
        ensures
            r@ == utf8_lossy(self@.game_title),
            valid_utf8(self@.game_title) ==> r@ == decode_utf8(self@.game_title),
    {
        lossy_string(self.game_title.as_slice())
    }

    /// The ROM size, `2^rom_size`.
    pub fn rom_size(&self) -> (r: i64)
        requires
            self@.rom_size < 64,
        ensures
            r == spec_shifted_one(self@.rom_size),
    {
        shifted_one(self.rom_size)
    }

    /// The cartridge RAM size, `2^sram_size`.
    pub fn sram_size(&self) -> (r: i64)
        requires
            self@.sram_size < 64,
        ensures
            r == spec_shifted_one(self@.sram_size),
    {
        shifted_one(self.sram_size)
    }

    /// The ROM layout named by the low bits of the mapping byte.
    pub fn rom_mapping(&self) -> (r: RomMapping)
        ensures
            r == spec_rom_mapping(self@.rom_mapping),
    {
        let m = self.rom_mapping & 0b111;
        if m == 0 {
            RomMapping::LoROM
        } else if m == 1 {
            RomMapping::HiROM
        } else if m == 2 {
            RomMapping::SDD1
        } else if m == 3 {
            RomMapping::SA1
        } else if m == 5 {
            RomMapping::ExHiROM
        } else {
            RomMapping::Unknown
        }
    }

    /// Fast ROM when bit 4 of the mapping byte is set.
    pub fn rom_speed(&self) -> (r: RomSpeed)
        ensures
            r == (if self@.rom_mapping & 0x10u8 == 0 { RomSpeed::Slow } else { RomSpeed::Fast }),
    {
        if self.rom_mapping & 0x10 == 0 {
            RomSpeed::Slow
        } else {
            RomSpeed::Fast
        }
    }

    /// The chips that the chipset byte names.
    pub fn chipset(&self) -> (r: Vec<RomChip>)
        ensures
            r@ == spec_chipset(self@.rom_chipset),
    {
        let low = self.rom_chipset & 0x0F;
        let mut base = if low == 0 {
            vec![RomChip::ROM]
        } else if low == 1 {
            vec![RomChip::ROM, RomChip::RAM]
        } else if low == 2 {
            vec![RomChip::ROM, RomChip::RAM, RomChip::Battery]
        } else if low == 3 {
            vec![RomChip::CoProcessor, RomChip::ROM]
        } else if low == 4 {
            vec![RomChip::CoProcessor, RomChip::ROM, RomChip::RAM]
        } else if low == 5 {
            vec![RomChip::CoProcessor, RomChip::ROM, RomChip::RAM, RomChip::Battery]
        } else if low == 6 {
            vec![RomChip::CoProcessor, RomChip::Battery]
        } else {
            vec![RomChip::Unknown]
        };
        let high = self.rom_chipset & 0xF0;
        let cop = if high == 0x00 {
            RomChip::DSP
        } else if high == 0x10 {
            RomChip::GSU
        } else if high == 0x20 {
            RomChip::OBC1
        } else if high == 0x30 {
            RomChip::SA1
        } else if high == 0x40 {
            RomChip::SDD1
        } else if high == 0x50 {
            RomChip::SRTC
        } else if high == 0xE0 {
            RomChip::Other
        } else if high == 0xF0 {
            RomChip::Custom
        } else {
            RomChip::Unknown
        };
        let ghost b = spec_base_chips(low);
        assert(base@ =~= b);
        // the layouts of 3 to 6 are those that start with a coprocessor
        assert(b.contains(RomChip::CoProcessor) <==> 3 <= low <= 6) by {
            if 3 <= low <= 6 {
                assert(b[0] == RomChip::CoProcessor);
            } else {
                assert(forall|i: int| 0 <= i < b.len() ==> b[i] != RomChip::CoProcessor);
            }
        }
        if 3 <= low && low <= 6 {
            base.push(cop);
        }
        base
    }
}

/// A header is accepted exactly when its checksum and complement add up to
/// 0xFFFF.
pub proof fn lemma_checksum_complement(h: RomHeaderModel)
    ensures
        checksum_matches(h) <==> h.checksum_comp + h.checksum == 0xFFFF,
{
    let c = h.checksum_comp;
    let s = h.checksum;
    assert((c ^ 0xFFFFu16 == s) <==> (c + s == 0xFFFF)) by (bit_vector);
}

} // verus!
