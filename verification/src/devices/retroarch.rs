//! A RetroArch instance reached through its network command interface.
use vstd::prelude::*;
use vstd::utf8::encode_utf8;

use crate::error::Error;
use crate::protocol::{AddressInfo, MemoryDomain};
use crate::util::snes::{RomHeader, RomMapping, spec_to_snes, to_snes_fits};
use crate::hex::{parse_hex_usize, spec_parse_hex_usize};
use crate::text::{is_white, ascii_chars, all_ascii, lemma_ascii_decode, hex_char, trim, trimmed, trim_end, trim_end_len, trimmed_end_len, contains_text, text_contains, lossy_string, utf8_lossy, push_all, push_decimal_i64, push_hex_i64, push_hex_byte, decimal_i64, hex_i64, hex_byte};
use uuid::Uuid;

verus! {

/// The bank (top bits above 16) of a bus address.
pub open spec fn bank_of(x: i64) -> i64 {
    x >> 16u64
}

/// A run of `len` bytes from bus address `x` stays in the bank where it starts.
pub open spec fn same_bank(x: i64, len: i64) -> bool {
    bank_of(x) == bank_of((x + len) as i64)
}

/// Bytes left in the bank of `x`, from `x` on.
pub open spec fn to_bank_end(x: i64) -> i64 {
    (0x10000 - (x & 0xFFFF)) as i64
}

/// `ai` with its address moved to `address`.
pub open spec fn at_address(ai: AddressInfo, address: i64) -> AddressInfo {
    AddressInfo { address, ..ai }
}

/// A piece of a ROM access: `size` bytes from bus address `snes`.
pub open spec fn rom_piece(d: MemoryDomain, snes: i64, size: i64) -> AddressInfo {
    AddressInfo { domain: d, address: snes, orig_address: 0, size }
}

/// The pieces of the ROM access `ai` from cartridge offset `cur` (bus address
/// `snes`) on, `rem` bytes: cut at each bank end.
pub open spec fn rom_pieces(m: RomMapping, ai: AddressInfo, cur: i64, snes: i64, rem: i64) -> Seq<
    AddressInfo,
>
    decreases rem,
{
    if same_bank(snes, rem) {
        seq![rom_piece(ai.domain, snes, rem)]
    } else {
        let split = to_bank_end(snes);
        if 0 < split <= rem {
            let next = (cur + split) as i64;
            match spec_to_snes(m, at_address(ai, next)) {
                Ok(next_snes) => seq![rom_piece(ai.domain, snes, split)] + rom_pieces(
                    m,
                    ai,
                    next,
                    next_snes,
                    (rem - split) as i64,
                ),
                Err(_) => Seq::empty(),
            }
        } else {
            Seq::empty()
        }
    }
}

/// The accesses that one access becomes: RAM accesses stay as they are, a
/// ROM access is mapped to the bus and cut at bank ends.
pub open spec fn spec_map_access(m: RomMapping, ai: AddressInfo) -> Result<Seq<AddressInfo>, Error> {
    if ai.domain == MemoryDomain::CARTROM {
        match spec_to_snes(m, ai) {
            Ok(snes) => Ok(rom_pieces(m, ai, ai.address, snes, ai.size)),
            Err(e) => Err(e),
        }
    } else {
        Ok(seq![ai])
    }
}

/// The accesses that a list of accesses becomes, in order.
pub open spec fn spec_map_addresses(m: RomMapping, addrs: Seq<AddressInfo>) -> Result<
    Seq<AddressInfo>,
    Error,
>
    decreases addrs.len(),
{
    if addrs.len() == 0 {
        Ok(Seq::empty())
    } else {
        match spec_map_addresses(m, addrs.drop_last()) {
            Err(e) => Err(e),
            Ok(prev) => match spec_map_access(m, addrs.last()) {
                Err(e) => Err(e),
                Ok(pieces) => Ok(prev + pieces),
            },
        }
    }
}

/// Every step of cutting the ROM access `ai` from offset `cur` (bus address
/// `snes`, `rem` bytes left) stays within `i64`: the end of the run, the next
/// offset and its mapping. A run that crosses a bank end has at least the
/// bytes to reach it (a negative length that crosses one would never end).
pub open spec fn pieces_fit(m: RomMapping, ai: AddressInfo, cur: i64, snes: i64, rem: i64) -> bool
    decreases rem,
{
    &&& i64::MIN <= snes + rem <= i64::MAX
    &&& (same_bank(snes, rem) || {
        let split = to_bank_end(snes);
        &&& 0 < split <= rem
        &&& cur + split <= i64::MAX
        &&& to_snes_fits(m, at_address(ai, (cur + split) as i64))
        &&& match spec_to_snes(m, at_address(ai, (cur + split) as i64)) {
            Ok(next) => pieces_fit(m, ai, (cur + split) as i64, next, (rem - split) as i64),
            Err(_) => true,
        }
    })
}

/// An access that can be mapped without overflow: a ROM access whose offset
/// maps within `i64` and whose cutting into pieces does too.
pub open spec fn access_mappable(m: RomMapping, ai: AddressInfo) -> bool {
    ai.domain == MemoryDomain::CARTROM ==> {
        &&& to_snes_fits(m, ai)
        &&& spec_to_snes(m, ai) matches Ok(s) ==> pieces_fit(m, ai, ai.address, s, ai.size)
    }
}

/// The layouts whose addresses can be mapped.
pub open spec fn mapping_supported(m: RomMapping) -> bool {
    m == RomMapping::LoROM || m == RomMapping::HiROM || m == RomMapping::ExHiROM
}

proof fn lemma_to_snes_ok(m: RomMapping, ai: AddressInfo)
    ensures
        spec_to_snes(m, ai) is Ok <==> mapping_supported(m),
{
}

/// Appends the pieces of the ROM access `ai`, which starts at bus address `snes`.
fn push_rom_pieces(m: RomMapping, ai: &AddressInfo, snes: i64, out: &mut Vec<AddressInfo>)
    requires
        ai.domain == MemoryDomain::CARTROM,
        mapping_supported(m),
        spec_to_snes(m, *ai) == Ok::<i64, Error>(snes),
        pieces_fit(m, *ai, ai.address, snes, ai.size),
    ensures
        final(out)@ == old(out)@ + rom_pieces(m, *ai, ai.address, snes, ai.size),
{
    let ghost start = out@;
    let mut cur: i64 = ai.address;
    let mut cur_snes: i64 = snes;
    let mut rem: i64 = ai.size;
    loop
        invariant_except_break
            ai.domain == MemoryDomain::CARTROM,
            mapping_supported(m),
            pieces_fit(m, *ai, cur, cur_snes, rem),
            start + rom_pieces(m, *ai, ai.address, snes, ai.size) == out@ + rom_pieces(m, *ai, cur, cur_snes, rem),
        ensures
            out@ == start + rom_pieces(m, *ai, ai.address, snes, ai.size),
        decreases rem,
    {
        let end = cur_snes + rem;
        if (cur_snes >> 16u64) == (end >> 16u64) {
            out.push(AddressInfo { domain: ai.domain, address: cur_snes, orig_address: 0, size: rem });
            proof {
                assert(out@ =~= start + rom_pieces(m, *ai, ai.address, snes, ai.size));
            }
            break;
        }
        assert(0 <= cur_snes & 0xFFFF <= 0xFFFF) by (bit_vector);
        let split: i64 = 0x10000 - (cur_snes & 0xFFFF);
        out.push(AddressInfo { domain: ai.domain, address: cur_snes, orig_address: 0, size: split });
        let ghost old_out = out@;
        let ghost old_pieces = rom_pieces(m, *ai, cur, cur_snes, rem);
        cur = cur + split;
        let cur_ai = AddressInfo { domain: ai.domain, address: cur, orig_address: ai.orig_address, size: ai.size };
        assert(cur_ai == at_address(*ai, cur));
        let next_snes = match m.to_snes(&cur_ai) {
            Ok(s) => s,
            Err(_) => {
                proof {
                    lemma_to_snes_ok(m, cur_ai);
                }
                break;
            },
        };
        cur_snes = next_snes;
        rem = rem - split;
        proof {
            assert(old_pieces == seq![rom_piece(ai.domain, old_out.last().address, split)] + rom_pieces(m, *ai, cur, cur_snes, rem));
            assert(old_out == out@);
            assert(out@.drop_last() + seq![out@.last()] =~= out@);
        }
    }
}

/// Whether the access `ai` can be mapped without overflow.
fn access_fits(m: RomMapping, ai: &AddressInfo) -> (r: bool)
    ensures
        r == access_mappable(m, *ai),
{
    if ai.domain != MemoryDomain::CARTROM {
        return true;
    }
    if !m.fits(ai) {
        return false;
    }
    let snes = match m.to_snes(ai) {
        Ok(s) => s,
        Err(_) => return true,
    };
    let mut cur: i64 = ai.address;
    let mut cur_snes: i64 = snes;
    let mut rem: i64 = ai.size;
    loop
        invariant
            ai.domain == MemoryDomain::CARTROM,
            access_mappable(m, *ai) == pieces_fit(m, *ai, cur, cur_snes, rem),
        decreases rem,
    {
        let end = match cur_snes.checked_add(rem) {
            Some(e) => e,
            None => return false,
        };
        if (cur_snes >> 16u64) == (end >> 16u64) {
            return true;
        }
        assert(0 <= cur_snes & 0xFFFF <= 0xFFFF) by (bit_vector);
        let split: i64 = 0x10000 - (cur_snes & 0xFFFF);
        if split > rem {
            return false;
        }
        let next = match cur.checked_add(split) {
            Some(n) => n,
            None => return false,
        };
        let next_ai = AddressInfo { domain: ai.domain, address: next, orig_address: ai.orig_address, size: ai.size };
        assert(next_ai == at_address(*ai, next));
        if !m.fits(&next_ai) {
            return false;
        }
        match m.to_snes(&next_ai) {
            Ok(s) => {
                cur = next;
                cur_snes = s;
                rem = rem - split;
            },
            Err(_) => return true,
        }
    }
}

/// A RetroArch instance, reached through `socket`.
pub struct Retroarch<S> {
    pub id: Uuid,
    pub name: String,
    pub socket: S,
    pub addr: String,
    pub ra_version: String,
    pub rom_access: bool,
    pub rom_name: String,
    pub rom_header: RomHeader,
}

impl<S> Retroarch<S> {
    /// A device named `RetroArch <version> (<addr>)`.
    pub fn new(
        id: Uuid,
        socket: S,
        addr: String,
        ra_version: &str,
        rom_access: bool,
        rom_name: &str,
        rom_header: RomHeader,
    ) -> (r: Self)
        ensures
            r.id == id,
            r.socket == socket,
            r.name@ == "RetroArch "@ + ra_version@ + " ("@ + addr@ + ")"@,
            r.addr@ == addr@,
            r.ra_version@ == ra_version@,
            r.rom_access == rom_access,
            r.rom_name@ == rom_name@,
            r.rom_header@ == rom_header@,
    {
        let mut name = "RetroArch ".to_owned();
        name.append(ra_version);
        name.append(" (");
        name.append(addr.as_str());
        name.append(")");
        Self {
            id,
            name,
            socket,
            addr,
            ra_version: ra_version.to_owned(),
            rom_access,
            rom_name: rom_name.to_owned(),
            rom_header,
        }
    }

    /// Whether every access can be mapped without overflow.
    pub fn accesses_mappable(&self, addr_info: &[AddressInfo]) -> (r: bool)
        ensures
            r == forall|i: int|
                0 <= i < addr_info@.len() ==> access_mappable(
                    crate::util::snes::spec_rom_mapping(self.rom_header@.rom_mapping),
                    #[trigger] addr_info@[i],
                ),
    {
        let m = self.rom_header.rom_mapping();
        let mut i: usize = 0;
        while i < addr_info.len()
            invariant
                m == crate::util::snes::spec_rom_mapping(self.rom_header@.rom_mapping),
                i <= addr_info@.len(),
                forall|j: int| 0 <= j < i ==> access_mappable(m, #[trigger] addr_info@[j]),
            decreases addr_info.len() - i,
        {
            if !access_fits(m, &addr_info[i]) {
                return false;
            }
            i = i + 1;
        }
        true
    }

    /// The accesses that RetroArch is asked for: RAM accesses as they are, ROM
    /// accesses mapped to the bus with this cartridge's layout and cut at
    /// bank ends.
    pub fn map_addresses(&self, addr_info: &[AddressInfo]) -> (r: Result<Vec<AddressInfo>, Error>)
        requires
            forall|i: int|
                0 <= i < addr_info@.len() ==> access_mappable(
                    crate::util::snes::spec_rom_mapping(self.rom_header@.rom_mapping),
                    #[trigger] addr_info@[i],
                ),
        ensures
            match spec_map_addresses(crate::util::snes::spec_rom_mapping(self.rom_header@.rom_mapping), addr_info@) {
                Ok(v) => r matches Ok(rv) && rv@ == v,
                Err(e) => r == Err::<Vec<AddressInfo>, Error>(e),
            },
    {
        let m = self.rom_header.rom_mapping();
        let mut out: Vec<AddressInfo> = Vec::new();
        let mut i: usize = 0;
        assert(addr_info@.take(0) =~= Seq::<AddressInfo>::empty());
        while i < addr_info.len()
            invariant
                m == crate::util::snes::spec_rom_mapping(self.rom_header@.rom_mapping),
                forall|j: int| 0 <= j < addr_info@.len() ==> access_mappable(m, #[trigger] addr_info@[j]),
                i <= addr_info.len(),
                spec_map_addresses(m, addr_info@.take(i as int)) == Ok::<Seq<AddressInfo>, Error>(out@),
            decreases addr_info.len() - i,
        {
            let ai = addr_info[i];
            proof {
                assert(addr_info@.take(i + 1).drop_last() =~= addr_info@.take(i as int));
                assert(addr_info@.take(i + 1).last() == ai);
            }
            if ai.domain == MemoryDomain::CARTROM {
                let snes = match m.to_snes(&ai) {
                    Ok(s) => s,
                    Err(e) => {
                        proof {
                            lemma_map_addresses_err(m, addr_info@, i as int);
                        }
                        return Err(e);
                    },
                };
                push_rom_pieces(m, &ai, snes, &mut out);
                assert(spec_map_access(m, ai) == Ok::<Seq<AddressInfo>, Error>(rom_pieces(m, ai, ai.address, snes, ai.size)));
            } else {
                let ghost prev = out@;
                out.push(ai);
                assert(out@ =~= prev + seq![ai]);
            }
            i = i + 1;
        }
        assert(addr_info@.take(i as int) =~= addr_info@);
        Ok(out)
    }
}

/// Once an access fails to map, the whole list fails with the same error.
proof fn lemma_map_addresses_err(m: RomMapping, addrs: Seq<AddressInfo>, i: int)
    requires
        0 <= i < addrs.len(),
        spec_map_addresses(m, addrs.take(i)) is Ok,
        spec_map_access(m, addrs[i]) is Err,
    ensures
        spec_map_addresses(m, addrs) == Err::<Seq<AddressInfo>, Error>(spec_map_access(m, addrs[i])->Err_0),
    decreases addrs.len(),
{
    if addrs.len() == i + 1 {
        assert(addrs.drop_last() =~= addrs.take(i));
    } else {
        assert(addrs.drop_last().take(i) =~= addrs.take(i));
        lemma_map_addresses_err(m, addrs.drop_last(), i);
    }
}

/// The bytes that a list of accesses covers, all lengths added.
pub open spec fn total_size(s: Seq<AddressInfo>) -> int
    decreases s.len(),
{
    if s.len() == 0 {
        0
    } else {
        s[0].size + total_size(s.drop_first())
    }
}

/// An access whose bytes all lie in the bank where it starts.
pub open spec fn within_bank(p: AddressInfo) -> bool {
    p.size <= 0 || same_bank(p.address, (p.size - 1) as i64)
}

proof fn lemma_piece_ends(x: i64, r: i64)
    requires
        i64::MIN <= x + r <= i64::MAX,
    ensures
        r >= 1 && same_bank(x, r) ==> same_bank(x, (r - 1) as i64),
        0 < to_bank_end(x) <= r ==> same_bank(x, (to_bank_end(x) - 1) as i64),
{
    let y = (x + r) as i64;
    assert(y == x + r);
    if r >= 1 {
        let z = (x + r - 1) as i64;
        assert(z == x + r - 1);
        assert(r >= 1 && y == x + r && z == y - 1 && (x >> 16u64) == (y >> 16u64) ==> (x >> 16u64) == (z >> 16u64))
            by (bit_vector);
    }
    assert(0 <= x & 0xFFFF <= 0xFFFF) by (bit_vector);
    let e = to_bank_end(x);
    assert(e == 0x10000 - (x & 0xFFFF));
    if 0 < e <= r {
        let w = (x + e - 1) as i64;
        assert(w == x + e - 1);
        assert(e == 0x10000 - (x & 0xFFFF) && w == x + e - 1 ==> (x >> 16u64) == (w >> 16u64)) by (bit_vector);
    }
}

proof fn lemma_rom_pieces(m: RomMapping, ai: AddressInfo, cur: i64, snes: i64, rem: i64)
    requires
        ai.domain == MemoryDomain::CARTROM,
        mapping_supported(m),
        pieces_fit(m, ai, cur, snes, rem),
    ensures
        total_size(rom_pieces(m, ai, cur, snes, rem)) == rem,
        forall|k: int|
            0 <= k < rom_pieces(m, ai, cur, snes, rem).len() ==> {
                &&& within_bank(#[trigger] rom_pieces(m, ai, cur, snes, rem)[k])
                &&& rom_pieces(m, ai, cur, snes, rem)[k].domain == MemoryDomain::CARTROM
            },
    decreases rem,
{
    let pieces = rom_pieces(m, ai, cur, snes, rem);
    lemma_piece_ends(snes, rem);
    if same_bank(snes, rem) {
        assert(pieces.drop_first() =~= Seq::<AddressInfo>::empty());
        assert(total_size(pieces.drop_first()) == 0);
        assert(total_size(pieces) == pieces[0].size + total_size(pieces.drop_first()));
    } else {
        let split = to_bank_end(snes);
        let next = (cur + split) as i64;
        lemma_to_snes_ok(m, at_address(ai, next));
        let next_snes = spec_to_snes(m, at_address(ai, next)).unwrap();
        lemma_rom_pieces(m, ai, next, next_snes, (rem - split) as i64);
        let rest = rom_pieces(m, ai, next, next_snes, (rem - split) as i64);
        assert(pieces.drop_first() =~= rest);
        assert(total_size(pieces) == pieces[0].size + total_size(pieces.drop_first()));
        assert forall|k: int| 0 <= k < pieces.len() implies {
            &&& within_bank(#[trigger] pieces[k])
            &&& pieces[k].domain == MemoryDomain::CARTROM
        } by {
            if k > 0 {
                assert(pieces[k] == rest[k - 1]);
            }
        }
    }
}

/// A ROM access becomes pieces that together cover its length, none of
/// which crosses a bank end.
pub proof fn lemma_rom_access_pieces(m: RomMapping, ai: AddressInfo)
    requires
        ai.domain == MemoryDomain::CARTROM,
        mapping_supported(m),
        access_mappable(m, ai),
    ensures
        spec_map_access(m, ai) is Ok,
        total_size(spec_map_access(m, ai).unwrap()) == ai.size,
        forall|k: int|
            0 <= k < spec_map_access(m, ai).unwrap().len() ==> {
                &&& within_bank(#[trigger] spec_map_access(m, ai).unwrap()[k])
                &&& spec_map_access(m, ai).unwrap()[k].domain == MemoryDomain::CARTROM
            },
{
    lemma_to_snes_ok(m, ai);
    let snes = spec_to_snes(m, ai).unwrap();
    lemma_rom_pieces(m, ai, ai.address, snes, ai.size);
}

/// RAM accesses reach RetroArch as they were asked.
pub proof fn lemma_ram_access_unchanged(m: RomMapping, ai: AddressInfo)
    requires
        ai.domain != MemoryDomain::CARTROM,
    ensures
        spec_map_access(m, ai) == Ok::<Seq<AddressInfo>, Error>(seq![ai]),
{
}

/// The largest number of bytes that one RetroArch command moves.
pub const CMD_SIZE: i64 = 512;

/// Which RetroArch memory command reaches an access.
#[derive(Debug, Clone, Copy, PartialEq, Eq, Structural)]
pub enum CoreTarget {
    /// `READ_CORE_RAM` / `WRITE_CORE_RAM`: the core's RAM map.
    Ram,
    /// `READ_CORE_MEMORY` / `WRITE_CORE_MEMORY`: the SNES bus.
    Memory,
}

/// The command word for reading (or writing) through `t`.
pub open spec fn command_word(t: CoreTarget, write: bool) -> Seq<char> {
    match (t, write) {
        (CoreTarget::Ram, false) => "READ_CORE_RAM"@,
        (CoreTarget::Memory, false) => "READ_CORE_MEMORY"@,
        (CoreTarget::Ram, true) => "WRITE_CORE_RAM"@,
        (CoreTarget::Memory, true) => "WRITE_CORE_MEMORY"@,
    }
}

/// Where RetroArch finds an access: work RAM at its offset, cartridge RAM
/// 0x20000 further in the core's RAM map, ROM on the bus when the core allows it.
pub open spec fn spec_core_target(rom_access: bool, ai: AddressInfo, write: bool) -> Result<(i64, CoreTarget), Error> {
    match ai.domain {
        MemoryDomain::WRAM => Ok((ai.address, CoreTarget::Ram)),
        MemoryDomain::CARTRAM => Ok(((ai.address + 0x20000) as i64, CoreTarget::Ram)),
        MemoryDomain::CARTROM => if !rom_access {
            Err(if write { Error::RomWriteUnsupported } else { Error::RomReadUnsupported })
        } else {
            Ok((ai.address, CoreTarget::Memory))
        },
    }
}

/// A read and a write of one access reach the same place: work RAM and
/// cartridge RAM through the core's RAM map (cartridge RAM 0x20000 past its
/// offset), ROM on the bus and only when the core allows it; a refused ROM
/// access is refused as a read or as a write.
pub proof fn lemma_core_targets(rom_access: bool, ai: AddressInfo)
    ensures
        spec_core_target(rom_access, ai, false) is Ok <==> spec_core_target(rom_access, ai, true) is Ok,
        spec_core_target(rom_access, ai, false) is Ok ==> spec_core_target(rom_access, ai, false) == spec_core_target(rom_access, ai, true),
        spec_core_target(rom_access, ai, false) is Err <==> (ai.domain == MemoryDomain::CARTROM && !rom_access),
        spec_core_target(rom_access, ai, false) is Err ==> spec_core_target(rom_access, ai, false) == Err::<(i64, CoreTarget), Error>(Error::RomReadUnsupported)
            && spec_core_target(rom_access, ai, true) == Err::<(i64, CoreTarget), Error>(Error::RomWriteUnsupported),
        spec_core_target(rom_access, ai, false) matches Ok((addr, t)) ==> {
            &&& (t == CoreTarget::Memory <==> ai.domain == MemoryDomain::CARTROM)
            &&& addr == (ai.address + if ai.domain == MemoryDomain::CARTRAM { 0x20000int } else { 0int }) as i64
        },
{
}

/// The commands that move `size` bytes from `addr`: `CMD_SIZE` bytes at a
/// time, the rest in the last one.
pub open spec fn spec_chunks(addr: int, size: int) -> Seq<(i64, i64)>
    decreases size,
{
    if size <= 0 {
        Seq::empty()
    } else if size > CMD_SIZE {
        seq![(addr as i64, CMD_SIZE)] + spec_chunks(addr + CMD_SIZE, size - CMD_SIZE)
    } else {
        seq![(addr as i64, size as i64)]
    }
}

/// The text of a memory command's head: word, space, address in hex.
pub open spec fn command_head(t: CoreTarget, write: bool, addr: i64) -> Seq<u8> {
    vstd::utf8::encode_utf8(command_word(t, write)) + seq![0x20u8] + hex_i64(addr)
}

/// `<word> <addr hex> <size>\n`: a read of `size` bytes.
pub open spec fn spec_read_command(t: CoreTarget, addr: i64, size: i64) -> Seq<u8> {
    command_head(t, false, addr) + seq![0x20u8] + decimal_i64(size) + seq![0x0Au8]
}

/// The bytes in `{:02X}` form, separated by single spaces.
pub open spec fn hex_bytes_spaced(data: Seq<u8>) -> Seq<u8>
    decreases data.len(),
{
    if data.len() == 0 {
        Seq::empty()
    } else if data.len() == 1 {
        hex_byte(data[0])
    } else {
        hex_bytes_spaced(data.drop_last()) + seq![0x20u8] + hex_byte(data.last())
    }
}

/// `<word> <addr hex> <bytes>\n`: a write of `data`.
pub open spec fn spec_write_command(t: CoreTarget, addr: i64, data: Seq<u8>) -> Seq<u8> {
    command_head(t, true, addr) + seq![0x20u8] + hex_bytes_spaced(data) + seq![0x0Au8]
}

fn command_word_bytes(t: CoreTarget, write: bool) -> (r: &'static str)
    ensures
        r@ == command_word(t, write),
{
    match (t, write) {
        (CoreTarget::Ram, false) => "READ_CORE_RAM",
        (CoreTarget::Memory, false) => "READ_CORE_MEMORY",
        (CoreTarget::Ram, true) => "WRITE_CORE_RAM",
        (CoreTarget::Memory, true) => "WRITE_CORE_MEMORY",
    }
}

/// The head of a memory command: word, space, address in hex.
pub fn core_command_head(t: CoreTarget, write: bool, addr: i64) -> (r: Vec<u8>)
    ensures
        r@ == command_head(t, write, addr),
{
    let mut out: Vec<u8> = Vec::new();
    push_all(&mut out, command_word_bytes(t, write).as_bytes());
    out.push(0x20);
    push_hex_i64(&mut out, addr);
    assert(out@ =~= command_head(t, write, addr));
    out
}

/// The command that reads `size` bytes at `addr`.
pub fn read_command(t: CoreTarget, addr: i64, size: i64) -> (r: Vec<u8>)
    ensures
        r@ == spec_read_command(t, addr, size),
{
    let mut out = core_command_head(t, false, addr);
    out.push(0x20);
    push_decimal_i64(&mut out, size);
    out.push(0x0A);
    assert(out@ =~= spec_read_command(t, addr, size));
    out
}

/// The command that writes `data` at `addr`.
pub fn write_command(t: CoreTarget, addr: i64, data: &[u8]) -> (r: Vec<u8>)
    ensures
        r@ == spec_write_command(t, addr, data@),
{
    let mut out = core_command_head(t, true, addr);
    out.push(0x20);
    let ghost start = out@;
    let mut i: usize = 0;
    assert(data@.take(0) =~= Seq::<u8>::empty());
    while i < data.len()
        invariant
            i <= data.len(),
            out@ == start + hex_bytes_spaced(data@.take(i as int)),
        decreases data.len() - i,
    {
        if i > 0 {
            out.push(0x20);
        }
        push_hex_byte(&mut out, data[i]);
        proof {
            let t = data@.take(i + 1);
            assert(t.drop_last() =~= data@.take(i as int));
            assert(t.last() == data@[i as int]);
            if i == 0 {
                assert(data@.take(0) =~= Seq::<u8>::empty());
            }
            assert(out@ =~= start + hex_bytes_spaced(t));
        }
        i = i + 1;
    }
    assert(data@.take(i as int) =~= data@);
    out.push(0x0A);
    assert(out@ =~= spec_write_command(t, addr, data@));
    out
}

/// Splits a transfer of `size` bytes at `addr` into commands of at most
/// `CMD_SIZE` bytes.
pub fn command_chunks(addr: i64, size: i64) -> (r: Vec<(i64, i64)>)
    requires
        size <= 0 || addr + size <= i64::MAX,
    ensures
        r@ == spec_chunks(addr as int, size as int),
{
    let mut out: Vec<(i64, i64)> = Vec::new();
    let mut a = addr;
    let mut rem = size;
    while rem > 0
        invariant
            rem <= 0 || a + rem <= i64::MAX,
            spec_chunks(addr as int, size as int) == out@ + spec_chunks(a as int, rem as int),
        decreases rem,
    {
        let n = if rem > CMD_SIZE { CMD_SIZE } else { rem };
        let ghost before = out@;
        out.push((a, n));
        proof {
            if rem > CMD_SIZE {
                assert(spec_chunks(a as int, rem as int) == seq![(a, CMD_SIZE)] + spec_chunks(a + CMD_SIZE, rem - CMD_SIZE));
            } else {
                assert(spec_chunks(a as int, rem as int) == seq![(a, rem)]);
                assert(spec_chunks((a + n) as int, (rem - n) as int) =~= Seq::<(i64, i64)>::empty());
            }
            assert(out@ =~= before + seq![(a, n)]);
        }
        rem = rem - n;
        a = a + n;
    }
    assert(out@ =~= out@ + spec_chunks(a as int, rem as int));
    out
}

/// The lengths of a list of commands, added.
pub open spec fn chunks_total(c: Seq<(i64, i64)>) -> int
    decreases c.len(),
{
    if c.len() == 0 { 0 } else { c[0].1 + chunks_total(c.drop_first()) }
}

/// Commands cover the transfer exactly, none moves more than `CMD_SIZE`
/// bytes, and each starts where the previous one ended.
pub proof fn lemma_chunks_cover(addr: int, size: int)
    requires
        size >= 0,
        i64::MIN <= addr,
        addr + size <= i64::MAX,
    ensures
        chunks_total(spec_chunks(addr, size)) == size,
        forall|k: int| 0 <= k < spec_chunks(addr, size).len() ==> 0 < (#[trigger] spec_chunks(addr, size)[k]).1 <= CMD_SIZE,
        spec_chunks(addr, size).len() > 0 ==> spec_chunks(addr, size)[0].0 == addr,
        forall|k: int| 0 < k < spec_chunks(addr, size).len() ==> (#[trigger] spec_chunks(addr, size)[k]).0 == spec_chunks(addr, size)[k - 1].0 + spec_chunks(addr, size)[k - 1].1,
    decreases size,
{
    let c = spec_chunks(addr, size);
    if size > CMD_SIZE {
        lemma_chunks_cover(addr + CMD_SIZE, size - CMD_SIZE);
        let rest = spec_chunks(addr + CMD_SIZE, size - CMD_SIZE);
        assert(c.drop_first() =~= rest);
        assert(chunks_total(c) == c[0].1 + chunks_total(c.drop_first()));
        assert forall|k: int| 0 < k < c.len() implies (#[trigger] c[k]).0 == c[k - 1].0 + c[k - 1].1 by {
            assert(c[k] == rest[k - 1]);
            if k > 1 {
                assert(c[k - 1] == rest[k - 2]);
            }
        }
        assert forall|k: int| 0 <= k < c.len() implies 0 < (#[trigger] c[k]).1 <= CMD_SIZE by {
            if k > 0 {
                assert(c[k] == rest[k - 1]);
            }
        }
    } else if size > 0 {
        assert(c.drop_first() =~= Seq::<(i64, i64)>::empty());
        assert(chunks_total(c) == c[0].1 + chunks_total(c.drop_first()));
    }
}

impl<S> Retroarch<S> {
    /// Where RetroArch finds an access, and with which command.
    pub fn core_target(&self, ai: &AddressInfo, write: bool) -> (r: Result<(i64, CoreTarget), Error>)
        requires
            ai.domain == MemoryDomain::CARTRAM ==> ai.address <= i64::MAX - 0x20000,
        ensures
            r == spec_core_target(self.rom_access, *ai, write),
    {
        match ai.domain {
            MemoryDomain::WRAM => Ok((ai.address, CoreTarget::Ram)),
            MemoryDomain::CARTRAM => Ok((ai.address + 0x20000, CoreTarget::Ram)),
            MemoryDomain::CARTROM => if !self.rom_access {
                Err(if write { Error::RomWriteUnsupported } else { Error::RomReadUnsupported })
            } else {
                Ok((ai.address, CoreTarget::Memory))
            },
        }
    }

    /// The answer to an Info request: version, "0", ROM name, the missing
    /// features, "RetroArch".
    pub fn info_strings(&self) -> (r: Vec<String>)
        ensures
            r@.len() == 5,
            r@[0]@ == self.ra_version@,
            r@[1]@ == "0"@,
            r@[2]@ == self.rom_name@,
            r@[3]@ == "NO_CONTROL_CMD | NO_FILE_CMD"@ + (if !self.rom_access { " | NO_ROM_READ | NO_ROM_WRITE"@ } else { ""@ }),
            r@[4]@ == "RetroArch"@,
    {
        let mut features = "NO_CONTROL_CMD | NO_FILE_CMD".to_owned();
        features.append(if !self.rom_access { " | NO_ROM_READ | NO_ROM_WRITE" } else { "" });
        let mut r: Vec<String> = Vec::new();
        r.push(self.ra_version.clone());
        r.push("0".to_owned());
        r.push(self.rom_name.clone());
        r.push(features);
        r.push("RetroArch".to_owned());
        r
    }
}

/// The pieces of `s` between spaces, read so far: those ended and the one
/// still open.
pub open spec fn space_runs(s: Seq<char>) -> (Seq<Seq<char>>, Seq<char>)
    decreases s.len(),
{
    if s.len() == 0 {
        (Seq::empty(), Seq::empty())
    } else {
        let (done, cur) = space_runs(s.drop_last());
        if s.last() == ' ' {
            (done.push(cur), Seq::empty())
        } else {
            (done, cur.push(s.last()))
        }
    }
}

/// The pieces of `s` between spaces, empty pieces included.
pub open spec fn split_spaces(s: Seq<char>) -> Seq<Seq<char>> {
    space_runs(s).0.push(space_runs(s).1)
}

/// A base-16 byte, as `u8::from_str_radix(_, 16)` reads one.
pub open spec fn spec_hex_u8(tok: Seq<char>) -> Option<u8> {
    match spec_parse_hex_usize(encode_utf8(tok)) {
        Some(v) => if v <= 255 { Some(v as u8) } else { None },
        None => None,
    }
}

/// The bytes that a run of base-16 numbers separated by single spaces
/// gives, trailing white space ignored; `None` when one is not a byte.
pub open spec fn spec_hex_payload(text: Seq<char>) -> Option<Seq<u8>> {
    let toks = split_spaces(trim_end(text));
    if forall|i: int| 0 <= i < toks.len() ==> (#[trigger] spec_hex_u8(toks[i])) is Some {
        Some(toks.map_values(|t: Seq<char>| spec_hex_u8(t).unwrap()))
    } else {
        None
    }
}

/// Reads `text[..end]` as bytes written in base 16 and separated by spaces.
fn hex_tokens(text: &str, end: usize) -> (r: Option<Vec<u8>>)
    requires
        end <= text@.len(),
    ensures
        ({
            let toks = split_spaces(text@.take(end as int));
            if forall|i: int| 0 <= i < toks.len() ==> (#[trigger] spec_hex_u8(toks[i])) is Some {
                r matches Some(v) && v@ == toks.map_values(|t: Seq<char>| spec_hex_u8(t).unwrap())
            } else {
                r is None
            }
        }),
{
    let ghost all = text@.take(end as int);
    let mut out: Vec<u8> = Vec::new();
    let mut start: usize = 0;
    let mut i: usize = 0;
    assert(all.take(0) =~= Seq::<char>::empty());
    while i < end
        invariant
            end <= text@.len(),
            all == text@.take(end as int),
            start <= i <= end,
            space_runs(all.take(i as int)).1 == text@.subrange(start as int, i as int),
            space_runs(all.take(i as int)).0.len() == out@.len(),
            forall|j: int| 0 <= j < out@.len() ==> spec_hex_u8(#[trigger] space_runs(all.take(i as int)).0[j]) == Some(out@[j]),
        decreases end - i,
    {
        let c = text.get_char(i);
        let ghost t = all.take(i + 1);
        assert(t.drop_last() =~= all.take(i as int));
        assert(t.last() == c);
        if c == ' ' {
            let tok = text.substring_char(start, i);
            match parse_hex_usize(tok.as_bytes()) {
                Some(v) => {
                    if v > 255 {
                        proof { lemma_bad_token(all, i as int, text@.subrange(start as int, i as int)); }
                        return None;
                    }
                    out.push(v as u8);
                },
                None => {
                    proof { lemma_bad_token(all, i as int, text@.subrange(start as int, i as int)); }
                    return None;
                },
            }
            start = i + 1;
            assert(text@.subrange(start as int, i + 1) =~= Seq::<char>::empty());
        } else {
            assert(text@.subrange(start as int, i + 1) =~= text@.subrange(start as int, i as int).push(c));
        }
        i = i + 1;
    }
    assert(all.take(end as int) =~= all);
    let tok = text.substring_char(start, end);
    let ghost toks = split_spaces(all);
    match parse_hex_usize(tok.as_bytes()) {
        Some(v) => {
            if v > 255 {
                assert(!(spec_hex_u8(toks[toks.len() - 1]) is Some));
                return None;
            }
            out.push(v as u8);
        },
        None => {
            assert(!(spec_hex_u8(toks[toks.len() - 1]) is Some));
            return None;
        },
    }
    assert(out@ =~= toks.map_values(|t: Seq<char>| spec_hex_u8(t).unwrap()));
    Some(out)
}

/// Once a piece between spaces is not a byte, the whole run is not bytes.
proof fn lemma_bad_token(all: Seq<char>, i: int, tok: Seq<char>)
    requires
        0 <= i < all.len(),
        all[i] == ' ',
        space_runs(all.take(i)).1 == tok,
        !(spec_hex_u8(tok) is Some),
    ensures
        !(forall|j: int| 0 <= j < split_spaces(all).len() ==> (#[trigger] spec_hex_u8(split_spaces(all)[j])) is Some),
{
    let k = space_runs(all.take(i)).0.len();
    lemma_runs_prefix(all, i + 1);
    assert(all.take(i + 1).drop_last() =~= all.take(i));
    assert(space_runs(all.take(i + 1)).0 == space_runs(all.take(i)).0.push(tok));
    assert(split_spaces(all)[k as int] == tok);
}

/// The pieces ended in a prefix stay the first pieces of the whole.
proof fn lemma_runs_prefix(all: Seq<char>, p: int)
    requires
        0 <= p <= all.len(),
    ensures
        space_runs(all.take(p)).0.len() <= space_runs(all).0.len(),
        forall|j: int| 0 <= j < space_runs(all.take(p)).0.len() ==> #[trigger] space_runs(all).0[j] == space_runs(all.take(p)).0[j],
    decreases all.len() - p,
{
    if p < all.len() {
        lemma_runs_prefix(all, p + 1);
        assert(all.take(p + 1).drop_last() =~= all.take(p));
    } else {
        assert(all.take(p) =~= all);
    }
}

/// Reads `data[from..]` as text holding bytes in base 16, separated by
/// single spaces, trailing white space ignored. `None` when a piece is not a
/// byte.
pub fn parse_hex_payload(data: &[u8], from: usize) -> (r: Option<Vec<u8>>)
    requires
        from <= data@.len(),
    ensures
        match spec_hex_payload(utf8_lossy(data@.subrange(from as int, data@.len() as int))) {
            Some(v) => r matches Some(rv) && rv@ == v,
            None => r is None,
        },
{
    let mut tail: Vec<u8> = Vec::new();
    let mut i: usize = from;
    while i < data.len()
        invariant
            from <= i <= data@.len(),
            tail@ == data@.subrange(from as int, i as int),
        decreases data.len() - i,
    {
        tail.push(data[i]);
        i = i + 1;
        assert(tail@ =~= data@.subrange(from as int, i as int));
    }
    let text = lossy_string(tail.as_slice());
    let e = trimmed_end_len(text.as_str());
    hex_tokens(text.as_str(), e)
}

/// What the check of a ROM read says: whether ROM can be read, the game's
/// name, its header.
#[derive(Debug)]
pub struct RomCheck {
    pub rom_access: bool,
    pub rom_name: String,
    pub rom_header: RomHeader,
}

/// The outcome of the ROM check from RetroArch's reply to
/// `READ_CORE_MEMORY FFC0 32`: with "-1" in it no ROM access; else the bytes
/// after the 22-character head are the header, and ROM access holds when its
/// checksum does. `None` when the reply is too short or not bytes.
pub open spec fn spec_rom_check(reply: Seq<u8>) -> Option<(bool, Seq<char>, Option<crate::util::snes::RomHeaderModel>)> {
    if contains_text(utf8_lossy(reply), "-1"@) {
        Some((false, Seq::empty(), None))
    } else if reply.len() < 22 {
        None
    } else {
        match spec_hex_payload(utf8_lossy(reply.subrange(22, reply.len() as int))) {
            None => None,
            Some(bin) => if bin.len() < 32 {
                None
            } else {
                let header = crate::util::snes::spec_header_layout(bin);
                if crate::util::snes::checksum_matches(header) {
                    Some((true, utf8_lossy(bin.take(21)), Some(header)))
                } else {
                    Some((false, Seq::empty(), None))
                }
            },
        }
    }
}

/// ROM access is granted only on a reply without "-1" whose header's
/// checksum agrees with its complement; the ROM name is then the header's
/// title, and a refusal carries no name and no header.
pub proof fn lemma_rom_check_grants(reply: Seq<u8>)
    ensures
        spec_rom_check(reply) matches Some((access, name, header)) ==> {
            &&& access <==> header is Some
            &&& header matches Some(h) ==> crate::util::snes::checksum_matches(h) && name == utf8_lossy(h.game_title)
                && !contains_text(utf8_lossy(reply), "-1"@)
            &&& header is None ==> name == Seq::<char>::empty()
        },
        contains_text(utf8_lossy(reply), "-1"@) ==> spec_rom_check(reply) == Some((false, Seq::<char>::empty(), None::<crate::util::snes::RomHeaderModel>)),
{
    if !contains_text(utf8_lossy(reply), "-1"@) && reply.len() >= 22 {
        match spec_hex_payload(utf8_lossy(reply.subrange(22, reply.len() as int))) {
            None => {},
            Some(bin) => {
                if bin.len() >= 32 {
                    assert(crate::util::snes::spec_header_layout(bin).game_title == bin.take(21));
                }
            },
        }
    }
}

/// Reads RetroArch's reply to the ROM header read.
pub fn rom_check(reply: &[u8]) -> (r: Option<RomCheck>)
    ensures
        match spec_rom_check(reply@) {
            None => r is None,
            Some((access, name, header)) => r matches Some(c) && c.rom_access == access && c.rom_name@ == name && match header {
                Some(h) => c.rom_header@ == h,
                None => c.rom_header@ == RomHeader::spec_default(),
            },
        },
{
    let text = lossy_string(reply);
    if text_contains(text.as_str(), "-1") {
        return Some(RomCheck { rom_access: false, rom_name: String::new(), rom_header: RomHeader::default() });
    }
    if reply.len() < 22 {
        return None;
    }
    let bin = match parse_hex_payload(reply, 22) {
        Some(b) => b,
        None => return None,
    };
    if bin.len() < 32 {
        return None;
    }
    let mut head: Vec<u8> = Vec::new();
    let mut i: usize = 0;
    while i < 21
        invariant
            i <= 21,
            bin@.len() >= 32,
            head@ == bin@.take(i as int),
        decreases 21 - i,
    {
        head.push(bin[i]);
        i = i + 1;
        assert(head@ =~= bin@.take(i as int));
    }
    let rom_name = lossy_string(head.as_slice());
    match RomHeader::from_le_bytes(bin.as_slice()) {
        Ok(rom_header) => Some(RomCheck { rom_access: true, rom_name, rom_header }),
        Err(_) => Some(RomCheck { rom_access: false, rom_name: String::new(), rom_header: RomHeader::default() }),
    }
}


/// What the RetroArch enumerator reports to the manager.
#[derive(Debug)]
pub enum RaInfo {
    /// An instance with content loaded answered at `url`.
    RaAdded { name: String, url: String, version: String, rom_access: bool, rom_name: String, rom_header: RomHeader },
    /// The instance at `url` is gone.
    RaRemoved { name: String, url: String },
}

/// The manager of the RetroArch instances found on the local network port.
pub struct RetroarchManager {}

/// Whether a `GET_STATUS` reply shows content loaded.
pub open spec fn spec_has_content(status: Seq<u8>) -> bool {
    !contains_text(utf8_lossy(status), "CONTENTLESS"@)
}

/// Whether a RAM read reply carries data rather than the `-1` of a refusal.
pub open spec fn spec_readable(reply: Seq<u8>) -> bool {
    !contains_text(utf8_lossy(reply), "-1"@)
}

impl RetroarchManager {
    /// Whether a `GET_STATUS` reply shows content loaded.
    pub fn has_content(status: &[u8]) -> (r: bool)
        ensures
            r == spec_has_content(status@),
    {
        let text = lossy_string(status);
        !text_contains(text.as_str(), "CONTENTLESS")
    }

    /// Whether a `READ_CORE_RAM` reply carries data.
    pub fn ram_readable(reply: &[u8]) -> (r: bool)
        ensures
            r == spec_readable(reply@),
    {
        let text = lossy_string(reply);
        !text_contains(text.as_str(), "-1")
    }

    /// The instance found at `url`: its version is the trimmed `VERSION`
    /// reply, and what the ROM check found comes along.
    pub fn added(version_reply: &[u8], url: &str, check: RomCheck) -> (r: RaInfo)
        ensures
            ({
                let version = trim(utf8_lossy(version_reply@));
                r matches RaInfo::RaAdded { name, url: u, version: v, rom_access, rom_name, rom_header }
                    && v@ == version
                    && name@ == "RetroArch "@ + version + " ("@ + url@ + ")"@
                    && u@ == url@
                    && rom_access == check.rom_access
                    && rom_name@ == check.rom_name@
                    && rom_header@ == check.rom_header@
            }),
    {
        let raw = lossy_string(version_reply);
        let version = trimmed(raw.as_str());
        let mut name = "RetroArch ".to_owned();
        name.append(version.as_str());
        name.append(" (");
        name.append(url);
        name.append(")");
        RaInfo::RaAdded {
            name,
            url: url.to_owned(),
            version,
            rom_access: check.rom_access,
            rom_name: check.rom_name,
            rom_header: check.rom_header,
        }
    }
}


/// A digit of the `{:02X}` form is read back as its value.
proof fn lemma_hex_char(d: int)
    requires
        0 <= d < 16,
    ensures
        hex_char(d) < 128,
        crate::hex::hex_digit_value(hex_char(d)) == Some(d),
        !is_white(hex_char(d) as char),
        hex_char(d) as char != ' ',
        hex_char(d) != 0x2B && hex_char(d) != 0x2D,
{
}

/// The two digits of a byte are read back as the byte.
proof fn lemma_hex_byte(b: u8)
    ensures
        all_ascii(hex_byte(b)),
        spec_hex_u8(ascii_chars(hex_byte(b))) == Some(b),
        forall|i: int| 0 <= i < 2 ==> (#[trigger] ascii_chars(hex_byte(b))[i]) != ' ' && !is_white(ascii_chars(hex_byte(b))[i]),
{
    let h = hex_byte(b);
    lemma_hex_char((b / 16) as int);
    lemma_hex_char((b % 16) as int);
    lemma_ascii_decode(h);
    let h1 = h.drop_last();
    assert(h1 =~= seq![h[0]]);
    assert(h1.drop_last() =~= Seq::<u8>::empty());
    assert(h1.last() == h[0]);
    assert(h.last() == h[1]);
    assert(crate::hex::hex_digits_value(h1.drop_last()) == Some(0int));
    assert(crate::hex::hex_digit_value(h[0]) == Some((b / 16) as int));
    assert(crate::hex::hex_digit_value(h[1]) == Some((b % 16) as int));
    assert(crate::hex::hex_digits_value(h1) == Some((b / 16) as int));
    assert((b / 16) as int * 16 + (b % 16) as int == b as int);
    assert(crate::hex::hex_digits_value(h) == Some(b as int));
    assert(crate::hex::radix16_value(h, false) == Some(b as int));
}

/// Characters without a space only lengthen the run being read.
proof fn lemma_runs_append(s: Seq<char>, w: Seq<char>)
    requires
        forall|i: int| 0 <= i < w.len() ==> #[trigger] w[i] != ' ',
    ensures
        space_runs(s + w) == (space_runs(s).0, space_runs(s).1 + w),
    decreases w.len(),
{
    if w.len() == 0 {
        assert(s + w =~= s);
        assert(space_runs(s).1 + w =~= space_runs(s).1);
    } else {
        let w0 = w.drop_last();
        lemma_runs_append(s, w0);
        assert((s + w).drop_last() =~= s + w0);
        assert((s + w).last() == w.last());
        assert(space_runs(s).1 + w =~= (space_runs(s).1 + w0).push(w.last()));
    }
}

/// The hex text of a write splits into one token per byte.
proof fn lemma_hex_tokens(data: Seq<u8>)
    requires
        data.len() > 0,
    ensures
        all_ascii(hex_bytes_spaced(data)),
        split_spaces(ascii_chars(hex_bytes_spaced(data))) == data.map_values(|b: u8| ascii_chars(hex_byte(b))),
        !is_white(ascii_chars(hex_bytes_spaced(data)).last()),
    decreases data.len(),
{
    let last = data.last();
    lemma_hex_byte(last);
    let w = ascii_chars(hex_byte(last));
    if data.len() == 1 {
        assert(hex_bytes_spaced(data) == hex_byte(data[0]));
        lemma_runs_append(Seq::<char>::empty(), w);
        assert(Seq::<char>::empty() + w =~= w);
        assert(space_runs(Seq::<char>::empty()) == (Seq::<Seq<char>>::empty(), Seq::<char>::empty()));
        assert(Seq::<char>::empty() + w =~= w);
        assert(split_spaces(w) =~= seq![w]);
        assert(data.map_values(|b: u8| ascii_chars(hex_byte(b))) =~= seq![w]);
        assert(ascii_chars(hex_bytes_spaced(data)).last() == w[1]);
    } else {
        let d0 = data.drop_last();
        lemma_hex_tokens(d0);
        let t0 = ascii_chars(hex_bytes_spaced(d0));
        let h = hex_bytes_spaced(data);
        assert(h == hex_bytes_spaced(d0) + seq![0x20u8] + hex_byte(last));
        assert(all_ascii(h));
        let sp = t0.push(' ');
        assert(ascii_chars(h) =~= sp + w);
        assert(sp.drop_last() =~= t0);
        assert(space_runs(sp) == (space_runs(t0).0.push(space_runs(t0).1), Seq::<char>::empty()));
        lemma_runs_append(sp, w);
        assert(Seq::<char>::empty() + w =~= w);
        assert(split_spaces(ascii_chars(h)) =~= split_spaces(t0).push(w));
        assert(data.map_values(|b: u8| ascii_chars(hex_byte(b)))
            =~= d0.map_values(|b: u8| ascii_chars(hex_byte(b))).push(w));
        assert(ascii_chars(h).last() == w[1]);
    }
}

/// What RetroArch answers to a read, from the bytes it read, is read back as
/// those bytes: the payload that a write command carries (its hexadecimal
/// bytes and the closing newline) parses to the data written.
pub proof fn lemma_hex_payload_round_trip(data: Seq<u8>)
    requires
        data.len() > 0,
    ensures
        spec_hex_payload(ascii_chars(hex_bytes_spaced(data) + seq![0x0Au8])) == Some(data),
{
    lemma_hex_tokens(data);
    let t = ascii_chars(hex_bytes_spaced(data));
    let tn = ascii_chars(hex_bytes_spaced(data) + seq![0x0Au8]);
    assert(tn =~= t.push('\n'));
    assert(tn.drop_last() =~= t);
    assert(is_white('\n'));
    assert(trim_end_len(t) == t.len());
    assert(trim_end_len(tn) == t.len());
    assert(trim_end(tn) =~= t);
    let toks = split_spaces(t);
    assert forall|i: int| 0 <= i < toks.len() implies (#[trigger] spec_hex_u8(toks[i])) is Some by {
        lemma_hex_byte(data[i]);
    }
    let vals = toks.map_values(|x: Seq<char>| spec_hex_u8(x).unwrap());
    assert forall|i: int| 0 <= i < data.len() implies #[trigger] vals[i] == data[i] by {
        lemma_hex_byte(data[i]);
    }
    assert(vals =~= data);
}

} // verus!
