//! An SD2SNES (FXPak) cartridge on a USB serial port.
use vstd::prelude::*;
use vstd::utf8::encode_utf8;

use crate::protocol::{
    sum_sizes, data_size, AddressInfo, Command, CommandModel, Request, RequestModel, spec_opcode_of, Flags, Opcode, Space, spec_opcode_code, spec_space_code, FLAG_NONE, FLAG_NORESP,
    FLAG_DATA64B,
};
use crate::text::{starts_with, text_starts_with, join, push_all, push_hex, hex_digits, ascii_chars, ascii_string, lossy_string, utf8_lossy, lemma_hex_ascii};
use vstd::utf8::{decode_utf8, is_char_boundary};
use uuid::Uuid;

verus! {

/// `n` zero bytes.
pub open spec fn zeros(n: int) -> Seq<u8> {
    Seq::new(n as nat, |i: int| 0u8)
}

/// `size` rounded up to a multiple of `block_size`; 0 for a block size of 0.
pub open spec fn spec_pad_size(size: int, block_size: int) -> int {
    if block_size == 0 {
        0
    } else {
        (size / block_size + (if size % block_size == 0 { 0int } else { 1int })) * block_size
    }
}

/// `data` with zeros added up to the next multiple of `block_size`; nothing
/// for a block size of 0.
pub open spec fn padded(data: Seq<u8>, block_size: int) -> Seq<u8> {
    if block_size == 0 {
        Seq::empty()
    } else {
        data + zeros(spec_pad_size(data.len() as int, block_size) - data.len())
    }
}

/// Sizes for which the padding is computed exactly: below 2^53, and the
/// padded size fits `usize`.
pub open spec fn pad_exact(size: int, block_size: int) -> bool {
    block_size == 0 || (0 <= size < 0x20_0000_0000_0000 && spec_pad_size(size, block_size) <= usize::MAX)
}

/// Padding rounds up to the least multiple of the block size that is not
/// below the size.
pub proof fn lemma_pad_size(size: int, block_size: int)
    requires
        size >= 0,
        block_size > 0,
    ensures
        spec_pad_size(size, block_size) % block_size == 0,
        size <= spec_pad_size(size, block_size) < size + block_size,
{
    let q = size / block_size;
    let r = size % block_size;
    assert(size == q * block_size + r && 0 <= r < block_size) by (nonlinear_arith)
        requires
            block_size > 0,
            q == size / block_size,
            r == size % block_size,
    ;
    let k = q + (if r == 0 { 0int } else { 1int });
    assert((k * block_size) % block_size == 0) by (nonlinear_arith)
        requires
            block_size > 0,
    ;
    assert(k * block_size == q * block_size + (if r == 0 { 0int } else { block_size })) by (nonlinear_arith)
        requires
            k == q + (if r == 0 { 0int } else { 1int }),
    ;
}

/// A fresh vector with the first `n` bytes of `data`.
fn copy_prefix(data: &[u8], n: usize) -> (r: Vec<u8>)
    requires
        n <= data@.len(),
    ensures
        r@ == data@.take(n as int),
{
    let mut out: Vec<u8> = Vec::new();
    let mut i: usize = 0;
    while i < n
        invariant
            i <= n <= data@.len(),
            out@ == data@.take(i as int),
        decreases n - i,
    {
        out.push(data[i]);
        i = i + 1;
        assert(out@ =~= data@.take(i as int));
    }
    out
}

/// Appends `n` zero bytes.
fn push_zeros(out: &mut Vec<u8>, n: usize)
    ensures
        final(out)@ == old(out)@ + zeros(n as int),
{
    let mut i: usize = 0;
    while i < n
        invariant
            i <= n,
            out@ == old(out)@ + zeros(i as int),
        decreases n - i,
    {
        out.push(0);
        i = i + 1;
        assert(out@ =~= old(out)@ + zeros(i as int));
    }
}

/// What a command carries besides opcode, space and flags.
pub enum CommandArg<'a> {
    AddressList(&'a Vec<AddressInfo>),
    Filename(String),
    FilenameAndSize((String, usize)),
    Filenames((String, String)),
    Nothing,
}

/// A command argument as mathematical values.
pub enum CommandArgModel {
    AddressList(Seq<AddressInfo>),
    Filename(Seq<char>),
    FilenameAndSize(Seq<char>, usize),
    Filenames(Seq<char>, Seq<char>),
    Nothing,
}

impl<'a> View for CommandArg<'a> {
    type V = CommandArgModel;

    open spec fn view(&self) -> CommandArgModel {
        match self {
            CommandArg::AddressList(l) => CommandArgModel::AddressList(l@),
            CommandArg::Filename(s) => CommandArgModel::Filename(s@),
            CommandArg::FilenameAndSize((s, n)) => CommandArgModel::FilenameAndSize(s@, *n),
            CommandArg::Filenames((a, b)) => CommandArgModel::Filenames(a@, b@),
            CommandArg::Nothing => CommandArgModel::Nothing,
        }
    }
}

/// The seven bytes that open every command: `USBA`, opcode, space, flags.
pub open spec fn command_header(op: Opcode, space: Space, flags: Flags) -> Seq<u8> {
    seq![0x55u8, 0x53u8, 0x42u8, 0x41u8, spec_opcode_code(op), spec_space_code(space), flags.bits]
}

/// `buf` with the low 32 bits of `v` written big-endian at `at`.
pub open spec fn put_be32(buf: Seq<u8>, at: int, v: i64) -> Seq<u8> {
    buf.update(at, ((v >> 24u64) & 0xFF) as u8).update(at + 1, ((v >> 16u64) & 0xFF) as u8).update(
        at + 2,
        ((v >> 8u64) & 0xFF) as u8,
    ).update(at + 3, (v & 0xFF) as u8)
}

/// `buf` with the low 32 bits of `v` written big-endian at `at`.
pub open spec fn put_be32_usize(buf: Seq<u8>, at: int, v: usize) -> Seq<u8> {
    buf.update(at, ((v >> 24u64) & 0xFF) as u8).update(at + 1, ((v >> 16u64) & 0xFF) as u8).update(
        at + 2,
        ((v >> 8u64) & 0xFF) as u8,
    ).update(at + 3, (v & 0xFF) as u8)
}

/// `buf` with the vectored entry `i` for `ai`: one size byte, then the low
/// 24 bits of the address big-endian, from offset 32.
pub open spec fn put_vector_entry(buf: Seq<u8>, i: int, ai: AddressInfo) -> Seq<u8> {
    buf.update(32 + i * 4, (ai.size & 0xFF) as u8).update(33 + i * 4, ((ai.orig_address >> 16u64) & 0xFF) as u8).update(
        34 + i * 4,
        ((ai.orig_address >> 8u64) & 0xFF) as u8,
    ).update(35 + i * 4, (ai.orig_address & 0xFF) as u8)
}

/// `buf` with the vectored entries of all of `l`.
pub open spec fn put_vector_entries(buf: Seq<u8>, l: Seq<AddressInfo>) -> Seq<u8>
    decreases l.len(),
{
    if l.len() == 0 {
        buf
    } else {
        put_vector_entry(put_vector_entries(buf, l.drop_last()), l.len() - 1, l.last())
    }
}

/// `buf` with `src` written over it from `at` on.
pub open spec fn overwrite(buf: Seq<u8>, at: int, src: Seq<u8>) -> Seq<u8> {
    Seq::new(buf.len(), |i: int| if at <= i < at + src.len() { src[i - at] } else { buf[i] })
}

pub open spec fn is_memory_space(space: Space) -> bool {
    space == Space::SNES || space == Space::CMD || space == Space::MSU
}

/// The bytes of a device command, before it is sent.
pub open spec fn spec_command_buffer(op: Opcode, space: Space, flags: Flags, arg: CommandArgModel, block_size: int) -> Seq<u8> {
    let base = padded(command_header(op, space, flags), 256);
    if is_memory_space(space) && (op == Opcode::GET || op == Opcode::PUT) && arg is AddressList {
        let a = arg->AddressList_0[0];
        put_be32(padded(put_be32(base, 252, a.size), block_size), 256, a.orig_address)
    } else if is_memory_space(space) && (op == Opcode::VGET || op == Opcode::VPUT) && arg is AddressList {
        put_vector_entries(base.take(64), arg->AddressList_0)
    } else if space == Space::FILE && (op == Opcode::GET || op == Opcode::LS || op == Opcode::MKDIR || op == Opcode::RM || op == Opcode::BOOT) && arg is Filename {
        padded(base + encode_utf8(arg->Filename_0), block_size)
    } else if space == Space::FILE && op == Opcode::MV && arg is Filenames {
        padded(overwrite(base + encode_utf8(arg->Filenames_0), 8, encode_utf8(arg->Filenames_1)), block_size)
    } else if space == Space::FILE && op == Opcode::PUT && arg is FilenameAndSize {
        padded(put_be32_usize(base + encode_utf8(arg->FilenameAndSize_0), 252, arg->FilenameAndSize_1), block_size)
    } else {
        padded(base, block_size)
    }
}

/// What building a command needs: a block size for which the padding is
/// exact, an address list that is not empty (at most eight entries when
/// vectored) and room after the head for its address, and a target name that
/// fits where it is written.
pub open spec fn command_fits(block_size: int, op: Opcode, space: Space, arg: CommandArgModel) -> bool {
    &&& pad_exact(256, block_size)
    &&& (is_memory_space(space) && (op == Opcode::GET || op == Opcode::PUT) && arg is AddressList) ==> {
        &&& arg->AddressList_0.len() >= 1
        &&& spec_pad_size(256, block_size) >= 260
    }
    &&& (is_memory_space(space) && (op == Opcode::VGET || op == Opcode::VPUT) && arg is AddressList) ==> arg->AddressList_0.len() <= 8
    &&& arg is Filename ==> pad_exact(256 + encode_utf8(arg->Filename_0).len() as int, block_size)
    &&& arg is FilenameAndSize ==> pad_exact(256 + encode_utf8(arg->FilenameAndSize_0).len() as int, block_size)
    &&& arg is Filenames ==> {
        &&& pad_exact(256 + encode_utf8(arg->Filenames_0).len() as int, block_size)
        &&& (space == Space::FILE && op == Opcode::MV) ==> 8 + encode_utf8(arg->Filenames_1).len() <= 256 + encode_utf8(arg->Filenames_0).len()
    }
}

fn set_be32(buf: &mut Vec<u8>, at: usize, v: i64)
    requires
        at + 4 <= old(buf)@.len(),
    ensures
        final(buf)@ == put_be32(old(buf)@, at as int, v),
{
    let n = buf.len();
    assert(at + 4 <= n);
    buf.set(at, ((v >> 24u64) & 0xFF) as u8);
    buf.set(at + 1, ((v >> 16u64) & 0xFF) as u8);
    buf.set(at + 2, ((v >> 8u64) & 0xFF) as u8);
    buf.set(at + 3, (v & 0xFF) as u8);
}

fn set_be32_usize(buf: &mut Vec<u8>, at: usize, v: usize)
    requires
        at + 4 <= old(buf)@.len(),
    ensures
        final(buf)@ == put_be32_usize(old(buf)@, at as int, v),
{
    let n = buf.len();
    assert(at + 4 <= n);
    buf.set(at, ((v >> 24u64) & 0xFF) as u8);
    buf.set(at + 1, ((v >> 16u64) & 0xFF) as u8);
    buf.set(at + 2, ((v >> 8u64) & 0xFF) as u8);
    buf.set(at + 3, (v & 0xFF) as u8);
}

/// An SD2SNES reached through `stream`.
pub struct SD2Snes<S> {
    pub id: Uuid,
    pub port_name: String,
    pub stream: S,
    pub name: String,
    pub block_size: usize,
}

impl<S> SD2Snes<S> {
    /// A device named `SD2SNES <port>`, moving data in 512-byte blocks.
    pub fn new(id: Uuid, port_name: &str, stream: S) -> (r: Self)
        ensures
            r.id == id,
            r.port_name@ == port_name@,
            r.stream == stream,
            r.name@ == "SD2SNES "@ + port_name@,
            r.block_size == 512,
    {
        let mut name = "SD2SNES ".to_owned();
        name.append(port_name);
        Self { id, port_name: port_name.to_owned(), stream, name, block_size: 512 }
    }

    /// `size` rounded up to a multiple of `block_size`.
    pub fn pad_size(&self, size: usize, block_size: usize) -> (r: usize)
        requires
            pad_exact(size as int, block_size as int),
        ensures
            r == spec_pad_size(size as int, block_size as int),
    {
        if block_size == 0 {
            return 0;
        }
        let q = size / block_size;
        let k = if size % block_size == 0 {
            q
        } else {
            assert((q + 1) * block_size <= usize::MAX);
            assert(q + 1 <= usize::MAX) by (nonlinear_arith)
                requires
                    block_size > 0,
                    (q + 1) * block_size <= usize::MAX,
            ;
            q + 1
        };
        assert(k * block_size == spec_pad_size(size as int, block_size as int));
        k * block_size
    }

    /// `data` padded with zeros to a multiple of `block_size`.
    pub fn pad_or_truncate_size(&self, block_size: usize, data: &[u8]) -> (r: Vec<u8>)
        requires
            pad_exact(data@.len() as int, block_size as int),
        ensures
            r@ == padded(data@, block_size as int),
    {
        let pad_size = self.pad_size(data.len(), block_size);
        if data.len() < pad_size {
            let mut padded_data = copy_prefix(data, data.len());
            assert(data@.take(data@.len() as int) =~= data@);
            push_zeros(&mut padded_data, pad_size - data.len());
            padded_data
        } else {
            let truncate_size = if block_size == 0 { 0 } else {
                proof {
                    lemma_pad_size(data@.len() as int, block_size as int);
                }
                assert((data.len() / block_size) * block_size <= data.len()) by (nonlinear_arith)
                    requires
                        block_size > 0,
                ;
                (data.len() / block_size) * block_size
            };
            proof {
                if block_size > 0 {
                    lemma_pad_size(data@.len() as int, block_size as int);
                    let n = data@.len() as int;
                    let b = block_size as int;
                    assert(n % b == 0);
                    assert((n / b) * b == n) by (nonlinear_arith)
                        requires
                            b > 0,
                            n % b == 0,
                    ;
                    assert(data@.take(n) =~= data@ + zeros(0));
                }
            }
            copy_prefix(data, truncate_size)
        }
    }

    /// `data` padded with zeros to a multiple of the device's block size.
    pub fn pad_or_truncate(&self, data: &[u8]) -> (r: Vec<u8>)
        requires
            pad_exact(data@.len() as int, self.block_size as int),
        ensures
            r@ == padded(data@, self.block_size as int),
    {
        self.pad_or_truncate_size(self.block_size, data)
    }
}

impl<S> SD2Snes<S> {
    /// The bytes of a device command: the `USBA` head padded to 256 bytes,
    /// then what the opcode, space and argument call for, padded to whole
    /// blocks (vectored transfers use a single 64-byte block).
    pub fn command_buffer(&self, opcode: Opcode, space: Space, flags: Flags, args: CommandArg<'_>) -> (r: Vec<u8>)
        requires
            command_fits(self.block_size as int, opcode, space, args@),
        ensures
            r@ == spec_command_buffer(opcode, space, flags, args@, self.block_size as int),
    {
        let mut head: Vec<u8> = Vec::new();
        head.push(0x55);
        head.push(0x53);
        head.push(0x42);
        head.push(0x41);
        head.push(opcode.code());
        head.push(space.code());
        head.push(flags.bits());
        assert(head@ =~= command_header(opcode, space, flags));
        proof {
            lemma_pad_size(7, 256);
        }
        let mut buf = self.pad_or_truncate_size(256, head.as_slice());
        let ghost base = buf@;
        assert(base.len() == 256);
        let memory = match space {
            Space::SNES | Space::CMD | Space::MSU => true,
            _ => false,
        };
        let file = match space {
            Space::FILE => true,
            _ => false,
        };
        match args {
            CommandArg::AddressList(addr_list) => {
                if memory && (opcode == Opcode::GET || opcode == Opcode::PUT) {
                    let addr = addr_list[0].orig_address;
                    let size = addr_list[0].size;
                    set_be32(&mut buf, 252, size);
                    proof {
                        lemma_pad_size(256, self.block_size as int);
                    }
                    let mut out = self.pad_or_truncate(buf.as_slice());
                    set_be32(&mut out, 256, addr);
                    out
                } else if memory && (opcode == Opcode::VGET || opcode == Opcode::VPUT) {
                    let mut out = copy_prefix(buf.as_slice(), 64);
                    let ghost start = out@;
                    let mut i: usize = 0;
                    assert(addr_list@.take(0) =~= Seq::<AddressInfo>::empty());
                    while i < addr_list.len()
                        invariant
                            addr_list@.len() <= 8,
                            i <= addr_list@.len(),
                            out@.len() == 64,
                            out@ == put_vector_entries(start, addr_list@.take(i as int)),
                        decreases addr_list.len() - i,
                    {
                        let ai = addr_list[i];
                        out.set(32 + i * 4, (ai.size & 0xFF) as u8);
                        out.set(33 + i * 4, ((ai.orig_address >> 16u64) & 0xFF) as u8);
                        out.set(34 + i * 4, ((ai.orig_address >> 8u64) & 0xFF) as u8);
                        out.set(35 + i * 4, (ai.orig_address & 0xFF) as u8);
                        proof {
                            let t = addr_list@.take(i + 1);
                            assert(t.drop_last() =~= addr_list@.take(i as int));
                            assert(t.last() == ai);
                        }
                        i = i + 1;
                    }
                    assert(addr_list@.take(i as int) =~= addr_list@);
                    out
                } else {
                    self.pad_or_truncate(buf.as_slice())
                }
            },
            CommandArg::Filename(path) => {
                if file && (opcode == Opcode::GET || opcode == Opcode::LS || opcode == Opcode::MKDIR
                    || opcode == Opcode::RM || opcode == Opcode::BOOT) {
                    push_all(&mut buf, path.as_str().as_bytes());
                }
                self.pad_or_truncate(buf.as_slice())
            },
            CommandArg::Filenames((from, to)) => {
                if file && opcode == Opcode::MV {
                    push_all(&mut buf, from.as_str().as_bytes());
                    let ghost extended = buf@;
                    let to_bytes = to.as_str().as_bytes();
                    let mut i: usize = 0;
                    while i < to_bytes.len()
                        invariant
                            i <= to_bytes@.len(),
                            8 + to_bytes@.len() <= extended.len(),
                            buf@.len() == extended.len(),
                            buf@ == overwrite(extended, 8, to_bytes@.take(i as int)),
                        decreases to_bytes.len() - i,
                    {
                        let n = buf.len();
                        buf.set(8 + i, to_bytes[i]);
                        i = i + 1;
                        assert(buf@ =~= overwrite(extended, 8, to_bytes@.take(i as int)));
                    }
                    assert(to_bytes@.take(i as int) =~= to_bytes@);
                }
                self.pad_or_truncate(buf.as_slice())
            },
            CommandArg::FilenameAndSize((path, size)) => {
                if file && opcode == Opcode::PUT {
                    push_all(&mut buf, path.as_str().as_bytes());
                    set_be32_usize(&mut buf, 252, size);
                }
                self.pad_or_truncate(buf.as_slice())
            },
            CommandArg::Nothing => self.pad_or_truncate(buf.as_slice()),
        }
    }
}

proof fn lemma_padded_512(data: Seq<u8>)
    requires
        data.len() >= 7,
        pad_exact(data.len() as int, 512),
    ensures
        padded(data, 512).len() % 512 == 0,
        padded(data, 512).len() >= 512,
        padded(data, 512).len() >= data.len(),
        forall|i: int| 0 <= i < data.len() ==> padded(data, 512)[i] == data[i],
{
    lemma_pad_size(data.len() as int, 512);
}

/// Every command opens with `USBA`, the opcode, the space and the flags;
/// a vectored transfer is one 64-byte block, any other command whole
/// 512-byte blocks.
pub proof fn lemma_command_shape(op: Opcode, space: Space, flags: Flags, arg: CommandArgModel)
    requires
        command_fits(512, op, space, arg),
    ensures
        ({
            let b = spec_command_buffer(op, space, flags, arg, 512);
            &&& b.len() >= 7
            &&& b.take(7) == command_header(op, space, flags)
            &&& if is_memory_space(space) && (op == Opcode::VGET || op == Opcode::VPUT) && arg is AddressList {
                b.len() == 64
            } else {
                b.len() % 512 == 0 && b.len() >= 512
            }
        }),
{
    let h = command_header(op, space, flags);
    lemma_pad_size(7, 256);
    let base = padded(h, 256);
    assert(base.len() == 256);
    assert(forall|i: int| 0 <= i < 7 ==> base[i] == h[i]);
    let b = spec_command_buffer(op, space, flags, arg, 512);
    if is_memory_space(space) && (op == Opcode::GET || op == Opcode::PUT) && arg is AddressList {
        let a = arg->AddressList_0[0];
        let x = put_be32(base, 252, a.size);
        lemma_padded_512(x);
        assert forall|i: int| 0 <= i < 7 implies b[i] == h[i] by {
            assert(padded(x, 512)[i] == x[i]);
        }
    } else if is_memory_space(space) && (op == Opcode::VGET || op == Opcode::VPUT) && arg is AddressList {
        let l = arg->AddressList_0;
        lemma_vector_entries_keep(base.take(64), l);
        assert forall|i: int| 0 <= i < 7 implies b[i] == h[i] by {
            assert(base.take(64)[i] == base[i]);
        }
    } else if space == Space::FILE && (op == Opcode::GET || op == Opcode::LS || op == Opcode::MKDIR || op == Opcode::RM || op == Opcode::BOOT) && arg is Filename {
        let x = base + encode_utf8(arg->Filename_0);
        lemma_padded_512(x);
        assert forall|i: int| 0 <= i < 7 implies b[i] == h[i] by {
            assert(padded(x, 512)[i] == x[i]);
        }
    } else if space == Space::FILE && op == Opcode::MV && arg is Filenames {
        let x = overwrite(base + encode_utf8(arg->Filenames_0), 8, encode_utf8(arg->Filenames_1));
        lemma_padded_512(x);
        assert forall|i: int| 0 <= i < 7 implies b[i] == h[i] by {
            assert(padded(x, 512)[i] == x[i]);
        }
    } else if space == Space::FILE && op == Opcode::PUT && arg is FilenameAndSize {
        let x = put_be32_usize(base + encode_utf8(arg->FilenameAndSize_0), 252, arg->FilenameAndSize_1);
        lemma_padded_512(x);
        assert forall|i: int| 0 <= i < 7 implies b[i] == h[i] by {
            assert(padded(x, 512)[i] == x[i]);
        }
    } else {
        lemma_padded_512(base);
        assert forall|i: int| 0 <= i < 7 implies b[i] == h[i] by {
            assert(padded(base, 512)[i] == base[i]);
        }
    }
    assert(b.take(7) =~= h);
}

proof fn lemma_vector_entries_keep(buf: Seq<u8>, l: Seq<AddressInfo>)
    requires
        l.len() <= 8,
        buf.len() == 64,
    ensures
        put_vector_entries(buf, l).len() == 64,
        forall|i: int| 0 <= i < 32 ==> put_vector_entries(buf, l)[i] == buf[i],
    decreases l.len(),
{
    if l.len() > 0 {
        lemma_vector_entries_keep(buf, l.drop_last());
    }
}

/// The non-empty runs of `s` between NUL characters, in order, as read
/// so far: the runs already closed and the one still open.
pub open spec fn nul_runs(s: Seq<char>) -> (Seq<Seq<char>>, Seq<char>)
    decreases s.len(),
{
    if s.len() == 0 {
        (Seq::empty(), Seq::empty())
    } else {
        let (done, cur) = nul_runs(s.drop_last());
        if s.last() == '\0' {
            (if cur.len() > 0 { done.push(cur) } else { done }, Seq::empty())
        } else {
            (done, cur.push(s.last()))
        }
    }
}

/// The non-empty fields of `s` between NUL characters.
pub open spec fn nul_fields(s: Seq<char>) -> Seq<Seq<char>> {
    let (done, cur) = nul_runs(s);
    if cur.len() > 0 { done.push(cur) } else { done }
}

/// The names of the feature bits set in `f`, lowest bit first.
pub open spec fn info_flag_names(f: u8) -> Seq<Seq<char>> {
    (if f & 0x01u8 != 0 { seq!["FEAT_DSPX"@] } else { Seq::empty() })
        + (if f & 0x02u8 != 0 { seq!["FEAT_ST0010"@] } else { Seq::empty() })
        + (if f & 0x04u8 != 0 { seq!["FEAT_SRTC"@] } else { Seq::empty() })
        + (if f & 0x08u8 != 0 { seq!["FEAT_MSU1"@] } else { Seq::empty() })
        + (if f & 0x10u8 != 0 { seq!["FEAT_213F"@] } else { Seq::empty() })
        + (if f & 0x20u8 != 0 { seq!["FEAT_CMD_UNLOCK"@] } else { Seq::empty() })
        + (if f & 0x40u8 != 0 { seq!["FEAT_USB1"@] } else { Seq::empty() })
        + (if f & 0x80u8 != 0 { seq!["FEAT_DMA1"@] } else { Seq::empty() })
}

/// The feature names differ pairwise, in length or in one of two letters.
proof fn lemma_feature_spellings()
    ensures
        "FEAT_DSPX"@.len() == 9 && "FEAT_DSPX"@[5] == 'D' && "FEAT_DSPX"@[6] == 'S',
        "FEAT_ST0010"@.len() == 11 && "FEAT_ST0010"@[5] == 'S' && "FEAT_ST0010"@[6] == 'T',
        "FEAT_SRTC"@.len() == 9 && "FEAT_SRTC"@[5] == 'S' && "FEAT_SRTC"@[6] == 'R',
        "FEAT_MSU1"@.len() == 9 && "FEAT_MSU1"@[5] == 'M' && "FEAT_MSU1"@[6] == 'S',
        "FEAT_213F"@.len() == 9 && "FEAT_213F"@[5] == '2' && "FEAT_213F"@[6] == '1',
        "FEAT_CMD_UNLOCK"@.len() == 15 && "FEAT_CMD_UNLOCK"@[5] == 'C' && "FEAT_CMD_UNLOCK"@[6] == 'M',
        "FEAT_USB1"@.len() == 9 && "FEAT_USB1"@[5] == 'U' && "FEAT_USB1"@[6] == 'S',
        "FEAT_DMA1"@.len() == 9 && "FEAT_DMA1"@[5] == 'D' && "FEAT_DMA1"@[6] == 'M',
{
    reveal_strlit("FEAT_DSPX");
    reveal_strlit("FEAT_ST0010");
    reveal_strlit("FEAT_SRTC");
    reveal_strlit("FEAT_MSU1");
    reveal_strlit("FEAT_213F");
    reveal_strlit("FEAT_CMD_UNLOCK");
    reveal_strlit("FEAT_USB1");
    reveal_strlit("FEAT_DMA1");
}

/// A concatenation holds what either part holds.
proof fn lemma_concat_contains<A>(a: Seq<A>, b: Seq<A>, x: A)
    ensures
        (a + b).contains(x) <==> (a.contains(x) || b.contains(x)),
{
    if a.contains(x) {
        let i = choose|i: int| 0 <= i < a.len() && a[i] == x;
        assert((a + b)[i] == x);
    }
    if b.contains(x) {
        let i = choose|i: int| 0 <= i < b.len() && b[i] == x;
        assert((a + b)[a.len() + i] == x);
    }
    if (a + b).contains(x) {
        let i = choose|i: int| 0 <= i < (a + b).len() && (a + b)[i] == x;
        if i < a.len() {
            assert(a[i] == x);
        } else {
            assert(b[i - a.len()] == x);
        }
    }
}

/// A one-name part: the name when its bit is set, else nothing.
proof fn lemma_flag_piece(on: bool, n: Seq<char>, x: Seq<char>)
    ensures
        (if on { seq![n] } else { Seq::<Seq<char>>::empty() }).contains(x) <==> (on && n == x),
{
    if on {
        assert(seq![n][0] == n);
    }
}

/// Each feature name of an Info answer stands for its own bit of the
/// feature byte, and for no other: DSPX 0x01, ST0010 0x02, SRTC 0x04,
/// MSU1 0x08, 213F 0x10, CMD_UNLOCK 0x20, USB1 0x40, DMA1 0x80. One name
/// is listed per set bit.
pub proof fn lemma_info_flag_bits(f: u8)
    ensures
        info_flag_names(f).contains("FEAT_DSPX"@) <==> f & 0x01u8 != 0,
        info_flag_names(f).contains("FEAT_ST0010"@) <==> f & 0x02u8 != 0,
        info_flag_names(f).contains("FEAT_SRTC"@) <==> f & 0x04u8 != 0,
        info_flag_names(f).contains("FEAT_MSU1"@) <==> f & 0x08u8 != 0,
        info_flag_names(f).contains("FEAT_213F"@) <==> f & 0x10u8 != 0,
        info_flag_names(f).contains("FEAT_CMD_UNLOCK"@) <==> f & 0x20u8 != 0,
        info_flag_names(f).contains("FEAT_USB1"@) <==> f & 0x40u8 != 0,
        info_flag_names(f).contains("FEAT_DMA1"@) <==> f & 0x80u8 != 0,
        info_flag_names(f).len() == (if f & 0x01u8 != 0 { 1int } else { 0int }) + (if f & 0x02u8 != 0 { 1int } else { 0int })
            + (if f & 0x04u8 != 0 { 1int } else { 0int }) + (if f & 0x08u8 != 0 { 1int } else { 0int })
            + (if f & 0x10u8 != 0 { 1int } else { 0int }) + (if f & 0x20u8 != 0 { 1int } else { 0int })
            + (if f & 0x40u8 != 0 { 1int } else { 0int }) + (if f & 0x80u8 != 0 { 1int } else { 0int }),
{
    lemma_feature_spellings();
    lemma_info_names_hold(f, "FEAT_DSPX"@);
    lemma_info_names_hold(f, "FEAT_ST0010"@);
    lemma_info_names_hold(f, "FEAT_SRTC"@);
    lemma_info_names_hold(f, "FEAT_MSU1"@);
    lemma_info_names_hold(f, "FEAT_213F"@);
    lemma_info_names_hold(f, "FEAT_CMD_UNLOCK"@);
    lemma_info_names_hold(f, "FEAT_USB1"@);
    lemma_info_names_hold(f, "FEAT_DMA1"@);
}

/// A name is among the feature names of `f` exactly when it is the name of
/// a set bit.
proof fn lemma_info_names_hold(f: u8, x: Seq<char>)
    ensures
        info_flag_names(f).contains(x) <==> ((f & 0x01u8 != 0 && x == "FEAT_DSPX"@)
            || (f & 0x02u8 != 0 && x == "FEAT_ST0010"@)
            || (f & 0x04u8 != 0 && x == "FEAT_SRTC"@)
            || (f & 0x08u8 != 0 && x == "FEAT_MSU1"@)
            || (f & 0x10u8 != 0 && x == "FEAT_213F"@)
            || (f & 0x20u8 != 0 && x == "FEAT_CMD_UNLOCK"@)
            || (f & 0x40u8 != 0 && x == "FEAT_USB1"@)
            || (f & 0x80u8 != 0 && x == "FEAT_DMA1"@)),
{
    let p0 = if f & 0x01u8 != 0 { seq!["FEAT_DSPX"@] } else { Seq::<Seq<char>>::empty() };
    let p1 = if f & 0x02u8 != 0 { seq!["FEAT_ST0010"@] } else { Seq::<Seq<char>>::empty() };
    let p2 = if f & 0x04u8 != 0 { seq!["FEAT_SRTC"@] } else { Seq::<Seq<char>>::empty() };
    let p3 = if f & 0x08u8 != 0 { seq!["FEAT_MSU1"@] } else { Seq::<Seq<char>>::empty() };
    let p4 = if f & 0x10u8 != 0 { seq!["FEAT_213F"@] } else { Seq::<Seq<char>>::empty() };
    let p5 = if f & 0x20u8 != 0 { seq!["FEAT_CMD_UNLOCK"@] } else { Seq::<Seq<char>>::empty() };
    let p6 = if f & 0x40u8 != 0 { seq!["FEAT_USB1"@] } else { Seq::<Seq<char>>::empty() };
    let p7 = if f & 0x80u8 != 0 { seq!["FEAT_DMA1"@] } else { Seq::<Seq<char>>::empty() };
    lemma_flag_piece(f & 0x01u8 != 0, "FEAT_DSPX"@, x);
    lemma_flag_piece(f & 0x02u8 != 0, "FEAT_ST0010"@, x);
    lemma_flag_piece(f & 0x04u8 != 0, "FEAT_SRTC"@, x);
    lemma_flag_piece(f & 0x08u8 != 0, "FEAT_MSU1"@, x);
    lemma_flag_piece(f & 0x10u8 != 0, "FEAT_213F"@, x);
    lemma_flag_piece(f & 0x20u8 != 0, "FEAT_CMD_UNLOCK"@, x);
    lemma_flag_piece(f & 0x40u8 != 0, "FEAT_USB1"@, x);
    lemma_flag_piece(f & 0x80u8 != 0, "FEAT_DMA1"@, x);
    lemma_concat_contains(p0, p1, x);
    lemma_concat_contains(p0 + p1, p2, x);
    lemma_concat_contains(p0 + p1 + p2, p3, x);
    lemma_concat_contains(p0 + p1 + p2 + p3, p4, x);
    lemma_concat_contains(p0 + p1 + p2 + p3 + p4, p5, x);
    lemma_concat_contains(p0 + p1 + p2 + p3 + p4 + p5, p6, x);
    lemma_concat_contains(p0 + p1 + p2 + p3 + p4 + p5 + p6, p7, x);
    assert(info_flag_names(f) == p0 + p1 + p2 + p3 + p4 + p5 + p6 + p7);
}

/// A big-endian 32-bit number from four bytes.
pub open spec fn be32_at(d: Seq<u8>, at: int) -> nat {
    (d[at] as nat) * 0x1000000 + (d[at + 1] as nat) * 0x10000 + (d[at + 2] as nat) * 0x100 + (d[at + 3] as nat)
}

/// What an Info response says: firmware version (the second field without
/// its first six bytes), the version number in hex, the device name (the
/// first field), the feature flags, the ROM running (the third field).
/// `None` when the fields are missing.
pub open spec fn spec_information(d: Seq<u8>) -> Option<Seq<Seq<char>>> {
    let f = nul_fields(utf8_lossy(d.subrange(16, d.len() as int)));
    if f.len() < 3 {
        None
    } else {
        let b1 = encode_utf8(f[1]);
        if !is_char_boundary(b1, 6) {
            None
        } else {
            Some(seq![
                decode_utf8(b1.subrange(6, b1.len() as int)),
                ascii_chars(hex_digits(be32_at(d, 256))),
                f[0],
                join(info_flag_names(d[6]), "|"@),
                f[2],
            ])
        }
    }
}

/// A fresh vector with `data[from..]`.
fn copy_from(data: &[u8], from: usize) -> (r: Vec<u8>)
    requires
        from <= data@.len(),
    ensures
        r@ == data@.subrange(from as int, data@.len() as int),
{
    let mut out: Vec<u8> = Vec::new();
    let mut i: usize = from;
    while i < data.len()
        invariant
            from <= i <= data@.len(),
            out@ == data@.subrange(from as int, i as int),
        decreases data.len() - i,
    {
        out.push(data[i]);
        i = i + 1;
        assert(out@ =~= data@.subrange(from as int, i as int));
    }
    out
}

/// The non-empty fields of `s` between NUL characters.
fn split_nul_fields(s: &str) -> (r: Vec<String>)
    ensures
        r@.map_values(|x: String| x@) == nul_fields(s@),
{
    let n = s.unicode_len();
    let mut out: Vec<String> = Vec::new();
    let mut start: usize = 0;
    let mut i: usize = 0;
    assert(s@.take(0) =~= Seq::<char>::empty());
    while i < n
        invariant
            n == s@.len(),
            start <= i <= n,
            nul_runs(s@.take(i as int)) == (out@.map_values(|x: String| x@), s@.subrange(start as int, i as int)),
        decreases n - i,
    {
        let c = s.get_char(i);
        let ghost t = s@.take(i + 1);
        assert(t.drop_last() =~= s@.take(i as int));
        assert(t.last() == c);
        if c == '\0' {
            let ghost before = out@;
            if i > start {
                let piece = s.substring_char(start, i).to_owned();
                out.push(piece);
                assert(out@.map_values(|x: String| x@) =~= before.map_values(|x: String| x@).push(s@.subrange(start as int, i as int)));
            }
            start = i + 1;
            assert(s@.subrange(start as int, i + 1) =~= Seq::<char>::empty());
        } else {
            assert(s@.subrange(start as int, i + 1) =~= s@.subrange(start as int, i as int).push(c));
        }
        i = i + 1;
    }
    assert(s@.take(n as int) =~= s@);
    if i > start {
        let ghost before = out@;
        let piece = s.substring_char(start, i).to_owned();
        out.push(piece);
        assert(out@.map_values(|x: String| x@) =~= before.map_values(|x: String| x@).push(s@.subrange(start as int, i as int)));
    }
    out
}

/// Appends `sep` and `part` to `acc`, or only `part` when `acc` is still
/// empty of parts.
fn join_push(acc: &mut String, first: bool, part: &str, sep: &str)
    ensures
        final(acc)@ == if first { old(acc)@ + part@ } else { old(acc)@ + sep@ + part@ },
{
    if !first {
        acc.append(sep);
    }
    acc.append(part);
}

/// The feature names of `f`, joined by `|`.
fn info_flags_text(f: u8) -> (r: String)
    ensures
        r@ == join(info_flag_names(f), "|"@),
{
    let names: [&str; 8] = [
        "FEAT_DSPX", "FEAT_ST0010", "FEAT_SRTC", "FEAT_MSU1",
        "FEAT_213F", "FEAT_CMD_UNLOCK", "FEAT_USB1", "FEAT_DMA1",
    ];
    let bits: [u8; 8] = [0x01, 0x02, 0x04, 0x08, 0x10, 0x20, 0x40, 0x80];
    let ghost all = info_flag_names(f);
    let ghost sel = |k: int| if f & bits@[k] != 0 { seq![names@[k]@] } else { Seq::<Seq<char>>::empty() };
    assert(all =~= sel(0) + sel(1) + sel(2) + sel(3) + sel(4) + sel(5) + sel(6) + sel(7));
    let mut acc = String::new();
    let mut count: usize = 0;
    let mut k: usize = 0;
    let ghost mut chosen: Seq<Seq<char>> = Seq::empty();
    while k < 8
        invariant
            k <= 8,
            names@.len() == 8,
            bits@.len() == 8,
            count == chosen.len(),
            count <= k,
            acc@ == join(chosen, "|"@),
            sel == (|j: int| if f & bits@[j] != 0 { seq![names@[j]@] } else { Seq::<Seq<char>>::empty() }),
            chosen == flag_prefix(sel, k as int),
        decreases 8 - k,
    {
        if f & bits[k] != 0 {
            let ghost prev = chosen;
            join_push(&mut acc, count == 0, names[k], "|");
            proof {
                chosen = chosen.push(names@[k as int]@);
                if prev.len() > 0 {
                    assert(chosen.drop_last() =~= prev);
                }
                assert(flag_prefix(sel, k + 1) =~= flag_prefix(sel, k as int) + sel(k as int));
                assert(sel(k as int) =~= seq![names@[k as int]@]);
            }
            count = count + 1;
        } else {
            proof {
                assert(flag_prefix(sel, k + 1) =~= flag_prefix(sel, k as int) + sel(k as int));
                assert(sel(k as int) =~= Seq::<Seq<char>>::empty());
            }
        }
        k = k + 1;
    }
    assert(flag_prefix(sel, 8) =~= sel(0) + sel(1) + sel(2) + sel(3) + sel(4) + sel(5) + sel(6) + sel(7)) by {
        reveal_with_fuel(flag_prefix, 9);
    }
    assert(chosen =~= all);
    acc
}

/// The selected names of the first `k` feature bits.
pub open spec fn flag_prefix(sel: spec_fn(int) -> Seq<Seq<char>>, k: int) -> Seq<Seq<char>>
    decreases k,
{
    if k <= 0 { Seq::empty() } else { flag_prefix(sel, k - 1) + sel(k - 1) }
}

impl<S> SD2Snes<S> {
    /// Reads the answer to an Info command. `None` when it has fewer than
    /// three fields or the second field cannot lose its first six bytes.
    pub fn parse_information(data: &[u8]) -> (r: Option<Vec<String>>)
        requires
            data@.len() >= 260,
        ensures
            match spec_information(data@) {
                Some(v) => r matches Some(rv) && rv@.map_values(|x: String| x@) == v,
                None => r is None,
            },
    {
        let tail = copy_from(data, 16);
        let str_data = lossy_string(tail.as_slice());
        let fields = split_nul_fields(str_data.as_str());
        let ghost f = nul_fields(utf8_lossy(data@.subrange(16, data@.len() as int)));
        assert(fields@.map_values(|x: String| x@) == f);
        if fields.len() < 3 {
            return None;
        }
        assert(fields@[1]@ == f[1]);
        let f1 = fields[1].as_str();
        if !f1.is_char_boundary(6) {
            return None;
        }
        let (_, version) = f1.split_at(6);
        proof {
            vstd::utf8::encode_utf8_decode_utf8(version@);
        }
        let mut info: Vec<String> = Vec::new();
        info.push(version.to_owned());
        let v: u64 = (data[256] as u64) * 0x1000000 + (data[257] as u64) * 0x10000 + (data[258] as u64) * 0x100
            + data[259] as u64;
        let mut hex: Vec<u8> = Vec::new();
        push_hex(&mut hex, v);
        proof {
            lemma_hex_ascii(v as nat);
            assert(hex@ =~= hex_digits(be32_at(data@, 256)));
        }
        info.push(ascii_string(hex.as_slice()));
        info.push(fields[0].clone());
        info.push(info_flags_text(data[6]));
        info.push(fields[2].clone());
        assert(info@.map_values(|x: String| x@) =~= spec_information(data@).unwrap());
        Some(info)
    }
}

/// The first index from `j` on where `d` holds a zero byte; -1 if none.
pub open spec fn first_zero_from(d: Seq<u8>, j: int) -> int
    decreases d.len() - j,
{
    if j < 0 || j >= d.len() {
        -1
    } else if d[j] == 0 {
        j
    } else {
        first_zero_from(d, j + 1)
    }
}

/// The entries of a directory-listing block from `ptr` on: a type byte (0 a
/// directory, 1 a file), a NUL-terminated name, and so on, until another
/// type byte; with the last type byte read (`prev` when none). `None` when a
/// name has no terminator.
pub open spec fn list_block(d: Seq<u8>, ptr: int, prev: u8) -> Option<(Seq<(u8, Seq<u8>)>, u8)>
    decreases d.len() - ptr,
{
    if ptr < 0 || ptr >= d.len() {
        Some((Seq::empty(), prev))
    } else {
        let t = d[ptr];
        if t == 0 || t == 1 {
            let z = first_zero_from(d, ptr + 1);
            if z < ptr + 1 || z >= d.len() {
                None
            } else {
                match list_block(d, z + 1, t) {
                    Some((rest, last)) => Some((seq![(t, d.subrange(ptr + 1, z))] + rest, last)),
                    None => None,
                }
            }
        } else {
            Some((Seq::empty(), t))
        }
    }
}

/// The strings of a listing: for each entry its type ("0" or "1") and name.
pub open spec fn list_strings(entries: Seq<(u8, Seq<u8>)>) -> Seq<Seq<char>>
    decreases entries.len(),
{
    if entries.len() == 0 {
        Seq::empty()
    } else {
        seq![if entries[0].0 == 0 { "0"@ } else { "1"@ }, utf8_lossy(entries[0].1)] + list_strings(
            entries.drop_first(),
        )
    }
}

proof fn lemma_first_zero_skip(d: Seq<u8>, a: int, j: int)
    requires
        0 <= a <= j <= d.len(),
        forall|k: int| a <= k < j ==> #[trigger] d[k] != 0,
    ensures
        first_zero_from(d, a) == first_zero_from(d, j),
    decreases j - a,
{
    if a < j {
        assert(d[a] != 0);
        lemma_first_zero_skip(d, a + 1, j);
    }
}

proof fn lemma_first_zero_is_zero(d: Seq<u8>, j: int)
    ensures
        first_zero_from(d, j) == -1 || (j <= first_zero_from(d, j) < d.len() && d[first_zero_from(d, j)] == 0),
    decreases d.len() - j,
{
    if 0 <= j < d.len() && d[j] != 0 {
        lemma_first_zero_is_zero(d, j + 1);
    }
}

proof fn lemma_list_strings_concat(a: Seq<(u8, Seq<u8>)>, b: Seq<(u8, Seq<u8>)>)
    ensures
        list_strings(a + b) == list_strings(a) + list_strings(b),
    decreases a.len(),
{
    if a.len() == 0 {
        assert(a + b =~= b);
    } else {
        assert((a + b).drop_first() =~= a.drop_first() + b);
        lemma_list_strings_concat(a.drop_first(), b);
    }
}

/// How a device writes listing entries: for each, its type byte, its name,
/// then a NUL.
pub open spec fn list_encoding(entries: Seq<(u8, Seq<u8>)>) -> Seq<u8>
    decreases entries.len(),
{
    if entries.len() == 0 {
        Seq::empty()
    } else {
        seq![entries[0].0] + entries[0].1 + seq![0u8] + list_encoding(entries.drop_first())
    }
}

/// Entries that a listing can carry: each a directory (0) or a file (1),
/// with a name free of NUL bytes.
pub open spec fn listable(entries: Seq<(u8, Seq<u8>)>) -> bool {
    forall|i: int| 0 <= i < entries.len() ==> {
        &&& ((#[trigger] entries[i]).0 == 0 || entries[i].0 == 1)
        &&& forall|k: int| 0 <= k < entries[i].1.len() ==> entries[i].1[k] != 0
    }
}

/// A listing block reads back the entries written into it: from where the
/// entries start, reading gives them all, in order, and as last type byte
/// the byte that ends them (another type byte), or the last entry's type
/// when the block ends with them (`prev` when there are none).
pub proof fn lemma_list_block_reads_back(d: Seq<u8>, ptr: int, entries: Seq<(u8, Seq<u8>)>, prev: u8)
    requires
        0 <= ptr,
        listable(entries),
        ptr + list_encoding(entries).len() <= d.len(),
        d.subrange(ptr, ptr + list_encoding(entries).len()) == list_encoding(entries),
        ptr + list_encoding(entries).len() < d.len() ==> d[ptr + list_encoding(entries).len()] != 0
            && d[ptr + list_encoding(entries).len()] != 1,
    ensures
        list_block(d, ptr, prev) == Some((
            entries,
            if ptr + list_encoding(entries).len() < d.len() {
                d[ptr + list_encoding(entries).len()]
            } else if entries.len() > 0 {
                entries.last().0
            } else {
                prev
            },
        )),
    decreases entries.len(),
{
    let enc = list_encoding(entries);
    if entries.len() > 0 {
        let (t, n) = entries[0];
        let rest = entries.drop_first();
        let renc = list_encoding(rest);
        assert(enc == seq![t] + n + seq![0u8] + renc);
        let z = ptr + 1 + n.len();
        assert(d[ptr] == enc[0]);
        assert forall|k: int| ptr + 1 <= k < z implies #[trigger] d[k] != 0 by {
            assert(d[k] == enc[k - ptr]);
            assert(enc[k - ptr] == n[k - ptr - 1]);
        }
        lemma_first_zero_skip(d, ptr + 1, z);
        assert(d[z] == enc[z - ptr]);
        assert(first_zero_from(d, z) == z);
        assert(d.subrange(ptr + 1, z) =~= n) by {
            assert forall|k: int| 0 <= k < n.len() implies d.subrange(ptr + 1, z)[k] == n[k] by {
                assert(d[ptr + 1 + k] == enc[1 + k]);
            }
        }
        assert(listable(rest)) by {
            assert forall|i: int| 0 <= i < rest.len() implies {
                &&& ((#[trigger] rest[i]).0 == 0 || rest[i].0 == 1)
                &&& forall|k: int| 0 <= k < rest[i].1.len() ==> rest[i].1[k] != 0
            } by {
                assert(rest[i] == entries[i + 1]);
            }
        }
        assert(d.subrange(z + 1, z + 1 + renc.len()) =~= renc) by {
            assert forall|k: int| 0 <= k < renc.len() implies d.subrange(z + 1, z + 1 + renc.len())[k] == renc[k] by {
                assert(d[z + 1 + k] == enc[z + 1 + k - ptr]);
            }
        }
        assert(z + 1 + renc.len() == ptr + enc.len());
        lemma_list_block_reads_back(d, z + 1, rest, t);
        assert(seq![(t, n)] + rest =~= entries);
        if rest.len() > 0 {
            assert(rest.last() == entries.last());
        }
    }
}

/// A fresh vector with `data[from..to]`.
fn copy_range(data: &[u8], from: usize, to: usize) -> (r: Vec<u8>)
    requires
        from <= to <= data@.len(),
    ensures
        r@ == data@.subrange(from as int, to as int),
{
    let mut out: Vec<u8> = Vec::new();
    let mut i: usize = from;
    while i < to
        invariant
            from <= i <= to <= data@.len(),
            out@ == data@.subrange(from as int, i as int),
        decreases to - i,
    {
        out.push(data[i]);
        i = i + 1;
        assert(out@ =~= data@.subrange(from as int, i as int));
    }
    out
}

impl<S> SD2Snes<S> {
    /// Reads one block of a directory listing: the strings of its entries,
    /// and the last type byte read (`prev` when the block is empty); a type
    /// byte of 0xFF ends the listing. `None` when a name has no terminator.
    pub fn parse_list_block(data: &[u8], prev: u8) -> (r: Option<(Vec<String>, u8)>)
        ensures
            match list_block(data@, 0, prev) {
                Some((entries, last)) => r matches Some((v, t)) && v@.map_values(|x: String| x@) == list_strings(entries) && t == last,
                None => r is None,
            },
    {
        let mut out: Vec<String> = Vec::new();
        let mut ptr: usize = 0;
        let mut ls_type: u8 = prev;
        let ghost mut done: Seq<(u8, Seq<u8>)> = Seq::empty();
        while ptr < data.len()
            invariant
                ptr <= data@.len(),
                out@.map_values(|x: String| x@) == list_strings(done),
                match list_block(data@, 0, prev) {
                    Some((all, last)) => list_block(data@, ptr as int, ls_type) matches Some((rest, l2)) && all == done + rest && last == l2,
                    None => list_block(data@, ptr as int, ls_type) is None,
                },
            decreases data.len() - ptr,
        {
            ls_type = data[ptr];
            if ls_type == 0 || ls_type == 1 {
                let mut j: usize = ptr + 1;
                while j < data.len() && data[j] != 0
                    invariant
                        ptr + 1 <= j <= data@.len(),
                        forall|k: int| ptr + 1 <= k < j ==> #[trigger] data@[k] != 0,
                    decreases data.len() - j,
                {
                    j = j + 1;
                }
                proof {
                    lemma_first_zero_skip(data@, ptr + 1, j as int);
                }
                if j >= data.len() {
                    return None;
                }
                let name = lossy_string(copy_range(data, ptr + 1, j).as_slice());
                let ghost entry = (ls_type, data@.subrange(ptr + 1, j as int));
                out.push(if ls_type == 0 { "0".to_owned() } else { "1".to_owned() });
                out.push(name);
                proof {
                    lemma_list_strings_concat(done, seq![entry]);
                    assert(seq![entry].drop_first() =~= Seq::<(u8, Seq<u8>)>::empty());
                    assert(list_strings(seq![entry].drop_first()) =~= Seq::<Seq<char>>::empty());
                    assert(list_strings(seq![entry]) =~= seq![if entry.0 == 0 { "0"@ } else { "1"@ }, utf8_lossy(entry.1)]);
                    assert(out@.map_values(|x: String| x@) =~= list_strings(done) + list_strings(seq![entry]));
                    let old_done = done;
                    done = done.push(entry);
                    assert(old_done + seq![entry] =~= done);
                    match list_block(data@, 0, prev) {
                        Some((all, last)) => {
                            let rest = list_block(data@, j + 1, ls_type).unwrap().0;
                            assert(all == old_done + (seq![entry] + rest));
                            assert(old_done + (seq![entry] + rest) =~= done + rest);
                        },
                        None => {},
                    }
                }
                ptr = j + 1;
            } else {
                proof {
                    match list_block(data@, 0, prev) {
                        Some((all, last)) => {
                            assert(all =~= done + Seq::<(u8, Seq<u8>)>::empty());
                        },
                        None => {},
                    }
                }
                return Some((out, ls_type));
            }
        }
        proof {
            match list_block(data@, 0, prev) {
                Some((all, last)) => {
                    assert(all =~= done + Seq::<(u8, Seq<u8>)>::empty());
                },
                None => {},
            }
        }
        Some((out, ls_type))
    }
}

/// The lengths of the accesses, each padded to `block_size`, added.
pub open spec fn sum_padded(l: Seq<AddressInfo>, block_size: int) -> int
    decreases l.len(),
{
    if l.len() == 0 {
        0
    } else {
        sum_padded(l.drop_last(), block_size) + spec_pad_size((l.last().size as usize) as int, block_size)
    }
}

/// The block size of a transfer: 64 bytes when vectored, else 512.
pub open spec fn spec_block_size_for(op: Opcode) -> usize {
    if op == Opcode::VGET || op == Opcode::VPUT { 64 } else { 512 }
}

/// The flags of a memory transfer: those asked for, plus no-response, plus
/// 64-byte data when vectored.
pub open spec fn spec_transfer_flags(flags: Option<Flags>, op: Opcode) -> Flags {
    let asked = match flags {
        Some(f) => f.bits,
        None => FLAG_NONE,
    };
    Flags { bits: asked | FLAG_NORESP | (if op == Opcode::VGET || op == Opcode::VPUT { FLAG_DATA64B } else { FLAG_NONE }) }
}

/// Sizes of a read: a plain GET reads its one access padded to 512 bytes; a
/// vectored read pads each access to 64 bytes.
pub open spec fn spec_get_sizes(op: Opcode, l: Seq<AddressInfo>) -> (int, int) {
    if op == Opcode::GET {
        ((l[0].size as usize) as int, spec_pad_size((l[0].size as usize) as int, 512))
    } else {
        (sum_sizes(l), sum_padded(l, 64))
    }
}

/// Sizes of a write: a plain PUT writes its one access, a vectored write
/// all of them, padded as a whole to `block_size`.
pub open spec fn spec_put_sizes(op: Opcode, l: Seq<AddressInfo>, block_size: int) -> (int, int) {
    if op == Opcode::PUT {
        ((l[0].size as usize) as int, spec_pad_size((l[0].size as usize) as int, block_size))
    } else {
        (sum_sizes(l), spec_pad_size(sum_sizes(l), block_size))
    }
}

/// The partial sums of lengths never exceed the whole.
proof fn lemma_sums_grow(l: Seq<AddressInfo>, k: int, block_size: int)
    requires
        0 <= k <= l.len(),
        block_size >= 0,
    ensures
        sum_sizes(l.take(k)) <= sum_sizes(l),
        sum_padded(l.take(k), block_size) <= sum_padded(l, block_size),
        sum_sizes(l.take(k)) >= 0,
        sum_padded(l.take(k), block_size) >= 0,
    decreases l.len(),
{
    if k == l.len() {
        assert(l.take(k) =~= l);
        if l.len() > 0 {
            lemma_sums_grow(l.drop_last(), l.len() - 1, block_size);
            assert(l.drop_last().take(l.len() - 1) =~= l.drop_last());
            lemma_pad_nonneg((l.last().size as usize) as int, block_size);
        }
    } else {
        lemma_sums_grow(l.drop_last(), k, block_size);
        assert(l.drop_last().take(k) =~= l.take(k));
        lemma_pad_nonneg((l.last().size as usize) as int, block_size);
    }
}

proof fn lemma_pad_nonneg(size: int, block_size: int)
    requires
        size >= 0,
        block_size >= 0,
    ensures
        spec_pad_size(size, block_size) >= 0,
{
    if block_size > 0 {
        lemma_pad_size(size, block_size);
    }
}

impl<S> SD2Snes<S> {
    /// The block size of a transfer.
    pub fn block_size_for(opcode: Opcode) -> (r: usize)
        ensures
            r == spec_block_size_for(opcode),
    {
        if opcode == Opcode::VGET || opcode == Opcode::VPUT { 64 } else { 512 }
    }

    /// The flags sent with a memory transfer.
    pub fn transfer_flags(flags: Option<Flags>, opcode: Opcode) -> (r: Flags)
        ensures
            r == spec_transfer_flags(flags, opcode),
    {
        let asked = match flags {
            Some(f) => f,
            None => Flags::none(),
        };
        let extra = if opcode == Opcode::VGET || opcode == Opcode::VPUT { Flags::data64b() } else { Flags::none() };
        asked.union(Flags::noresp()).union(extra)
    }

    /// Data size and padded size of a read of `addr_info`.
    pub fn get_address_sizes(&self, opcode: Opcode, addr_info: &Vec<AddressInfo>) -> (r: (usize, usize))
        requires
            opcode == Opcode::GET ==> addr_info@.len() >= 1 && pad_exact((addr_info@[0].size as usize) as int, 512),
            opcode != Opcode::GET ==> {
                &&& sum_sizes(addr_info@) <= usize::MAX
                &&& sum_padded(addr_info@, 64) <= usize::MAX
                &&& forall|k: int| 0 <= k < addr_info@.len() ==> pad_exact(((#[trigger] addr_info@[k]).size as usize) as int, 64)
            },
        ensures
            r.0 == spec_get_sizes(opcode, addr_info@).0,
            r.1 == spec_get_sizes(opcode, addr_info@).1,
    {
        if opcode == Opcode::GET {
            let s = addr_info[0].size as usize;
            (s, self.pad_size(s, 512))
        } else {
            let mut data: usize = 0;
            let mut padded_total: usize = 0;
            let mut i: usize = 0;
            assert(addr_info@.take(0) =~= Seq::<AddressInfo>::empty());
            while i < addr_info.len()
                invariant
                    i <= addr_info@.len(),
                    sum_sizes(addr_info@) <= usize::MAX,
                    sum_padded(addr_info@, 64) <= usize::MAX,
                    forall|k: int| 0 <= k < addr_info@.len() ==> pad_exact(((#[trigger] addr_info@[k]).size as usize) as int, 64),
                    data == sum_sizes(addr_info@.take(i as int)),
                    padded_total == sum_padded(addr_info@.take(i as int), 64),
                decreases addr_info.len() - i,
            {
                let s = addr_info[i].size as usize;
                let p = self.pad_size(s, 64);
                proof {
                    let t = addr_info@.take(i + 1);
                    assert(t.drop_last() =~= addr_info@.take(i as int));
                    assert(t.last() == addr_info@[i as int]);
                    lemma_sums_grow(addr_info@, i + 1, 64);
                }
                data = data + s;
                padded_total = padded_total + p;
                i = i + 1;
            }
            assert(addr_info@.take(i as int) =~= addr_info@);
            (data, padded_total)
        }
    }

    /// Data size and padded size of a write of `addr_info` in blocks of
    /// `block_size`.
    pub fn put_address_sizes(&self, opcode: Opcode, addr_info: &Vec<AddressInfo>, block_size: usize) -> (r: (usize, usize))
        requires
            opcode == Opcode::PUT ==> addr_info@.len() >= 1 && pad_exact((addr_info@[0].size as usize) as int, block_size as int),
            opcode != Opcode::PUT ==> {
                &&& sum_sizes(addr_info@) <= usize::MAX
                &&& pad_exact(sum_sizes(addr_info@), block_size as int)
            },
        ensures
            r.0 == spec_put_sizes(opcode, addr_info@, block_size as int).0,
            r.1 == spec_put_sizes(opcode, addr_info@, block_size as int).1,
    {
        if opcode == Opcode::PUT {
            let s = addr_info[0].size as usize;
            (s, self.pad_size(s, block_size))
        } else {
            let data = data_size(addr_info);
            (data, self.pad_size(data, block_size))
        }
    }

    /// The size of a file, as the answer to a GET in the file space gives it
    /// big-endian at 252.
    pub fn file_size(response: &[u8]) -> (r: usize)
        requires
            response@.len() >= 256,
        ensures
            r == be32_at(response@, 252),
    {
        let v: u64 = (response[252] as u64) * 0x1000000 + (response[253] as u64) * 0x10000
            + (response[254] as u64) * 0x100 + response[255] as u64;
        assert(v <= 0xFFFF_FFFF);
        v as usize
    }

    /// How many of `bytes` bytes just read after `read_len` bytes belong to
    /// the `data_size` bytes asked for; the rest is padding.
    pub fn forward_len(read_len: usize, bytes: usize, data_size: usize) -> (r: usize)
        requires
            read_len + bytes <= usize::MAX,
        ensures
            r == spec_forward_len(read_len as int, bytes as int, data_size as int),
    {
        if read_len > data_size {
            0
        } else if (read_len + bytes) > data_size {
            bytes - ((read_len + bytes) - data_size)
        } else {
            bytes
        }
    }
}

/// What the device does for a request.
#[derive(Debug, Clone, Copy, PartialEq, Eq, Structural)]
pub enum Sd2Action {
    /// Answer with the device information.
    Info,
    /// Send a command (its path arguments, if any, taken from the request)
    /// and answer with nothing.
    Command { opcode: Opcode, space: Space, flags: Flags },
    /// Send a listing command and read the listing blocks.
    List { opcode: Opcode, flags: Flags },
    /// Read memory: `data_size` bytes for the client, `padded_size` from the
    /// device.
    Read { opcode: Opcode, space: Space, flags: Flags, data_size: usize, padded_size: usize },
    /// Write memory: `data_size` bytes from the client, padded to
    /// `padded_size` for the device in blocks of `block_size`.
    Write { opcode: Opcode, space: Space, flags: Flags, data_size: usize, padded_size: usize, block_size: usize },
    /// Read a file, whose size the device answers.
    FileRead { opcode: Opcode, flags: Flags, block_size: usize },
    /// Write a file of `data_size` bytes, padded to `padded_size`.
    FileWrite { opcode: Opcode, flags: Flags, data_size: usize, padded_size: usize, block_size: usize },
    /// Answer with nothing.
    Empty,
}

/// The flags a request asks for; none when it names none.
pub open spec fn asked_flags(flags: Option<Flags>) -> Flags {
    match flags {
        Some(f) => f,
        None => Flags { bits: FLAG_NONE },
    }
}

/// What the device does for a request.
pub open spec fn spec_sd2_action(req: RequestModel) -> Sd2Action {
    let opcode = spec_opcode_of(req.command);
    let block_size = spec_block_size_for(opcode);
    let asked = asked_flags(req.flags);
    match req.command {
        CommandModel::Info => Sd2Action::Info,
        CommandModel::Menu | CommandModel::Reset => Sd2Action::Command { opcode, space: req.space, flags: asked },
        CommandModel::Remove(_) | CommandModel::MakeDir(_) | CommandModel::Boot(_) | CommandModel::Rename(_, _) =>
            Sd2Action::Command { opcode, space: Space::FILE, flags: asked },
        CommandModel::List(_) => Sd2Action::List { opcode, flags: Flags { bits: asked.bits | FLAG_NORESP } },
        CommandModel::GetAddress(l) => Sd2Action::Read {
            opcode,
            space: req.space,
            flags: spec_transfer_flags(req.flags, opcode),
            data_size: spec_get_sizes(opcode, l).0 as usize,
            padded_size: spec_get_sizes(opcode, l).1 as usize,
        },
        CommandModel::PutAddress(l) => Sd2Action::Write {
            opcode,
            space: req.space,
            flags: spec_transfer_flags(req.flags, opcode),
            data_size: spec_put_sizes(opcode, l, block_size as int).0 as usize,
            padded_size: spec_put_sizes(opcode, l, block_size as int).1 as usize,
            block_size,
        },
        CommandModel::GetFile(_) => Sd2Action::FileRead { opcode, flags: asked, block_size },
        CommandModel::PutFile(_, n) => Sd2Action::FileWrite {
            opcode,
            flags: Flags { bits: asked.bits | FLAG_NORESP },
            data_size: n,
            padded_size: spec_pad_size(n as int, block_size as int) as usize,
            block_size,
        },
        _ => Sd2Action::Empty,
    }
}

/// The sizes of a request can be computed: they fit `usize` and their
/// padding is exact.
pub open spec fn sd2_request_fits(req: RequestModel) -> bool {
    let opcode = spec_opcode_of(req.command);
    match req.command {
        CommandModel::GetAddress(l) => if opcode == Opcode::GET {
            pad_exact((l[0].size as usize) as int, 512)
        } else {
            &&& sum_sizes(l) <= usize::MAX
            &&& sum_padded(l, 64) <= usize::MAX
            &&& forall|k: int| 0 <= k < l.len() ==> pad_exact(((#[trigger] l[k]).size as usize) as int, 64)
        },
        CommandModel::PutAddress(l) => if opcode == Opcode::PUT {
            pad_exact((l[0].size as usize) as int, 512)
        } else {
            &&& sum_sizes(l) <= usize::MAX
            &&& pad_exact(sum_sizes(l), 64)
        },
        CommandModel::PutFile(_, n) => pad_exact(n as int, 512),
        _ => true,
    }
}

impl<S> SD2Snes<S> {
    /// What the device does for `req`.
    pub fn plan(&self, req: &Request) -> (r: Sd2Action)
        requires
            sd2_request_fits(req@),
        ensures
            r == spec_sd2_action(req@),
    {
        let opcode = Opcode::from_request(req);
        let block_size = Self::block_size_for(opcode);
        let asked = match req.flags {
            Some(f) => f,
            None => Flags::none(),
        };
        match &req.command {
            Command::Info => Sd2Action::Info,
            Command::Menu | Command::Reset => Sd2Action::Command { opcode, space: req.space, flags: asked },
            Command::Remove(_) | Command::MakeDir(_) | Command::Boot(_) | Command::Rename(_) =>
                Sd2Action::Command { opcode, space: Space::FILE, flags: asked },
            Command::List(_) => Sd2Action::List { opcode, flags: asked.union(Flags::noresp()) },
            Command::GetAddress(addr_info) => {
                let (data_size, padded_size) = self.get_address_sizes(opcode, addr_info);
                Sd2Action::Read {
                    opcode,
                    space: req.space,
                    flags: Self::transfer_flags(req.flags, opcode),
                    data_size,
                    padded_size,
                }
            },
            Command::PutAddress(addr_info) => {
                let (data_size, padded_size) = self.put_address_sizes(opcode, addr_info, block_size);
                Sd2Action::Write {
                    opcode,
                    space: req.space,
                    flags: Self::transfer_flags(req.flags, opcode),
                    data_size,
                    padded_size,
                    block_size,
                }
            },
            Command::GetFile(_) => Sd2Action::FileRead { opcode, flags: asked, block_size },
            Command::PutFile((_, data_size)) => Sd2Action::FileWrite {
                opcode,
                flags: asked.union(Flags::noresp()),
                data_size: *data_size,
                padded_size: self.pad_size(*data_size, block_size),
                block_size,
            },
            _ => Sd2Action::Empty,
        }
    }
}


/// The device is left alone exactly for the requests that carry no device
/// opcode, and for streaming; every file command is sent as a command in
/// the FILE space with the flags the request asks for: Remove as RM,
/// MakeDir as MKDIR, Boot as BOOT and Rename as MV. Menu and Reset are
/// sent in the request's own space. A listing is LS without a response
/// block, a download GET and an upload PUT of the announced size without a
/// response block, both in 512-byte blocks. A memory read or write stays in
/// the request's space, asks for no response block, and is a plain GET or
/// PUT for one access, a vectored one (in 64-byte blocks when writing) for
/// several.
pub proof fn lemma_plan_kinds(req: RequestModel)
    ensures
        spec_sd2_action(req) is Empty <==> (spec_opcode_of(req.command) == Opcode::NONE
            || spec_opcode_of(req.command) == Opcode::STREAM),
        req.command is Remove ==> spec_sd2_action(req) == (Sd2Action::Command {
            opcode: Opcode::RM, space: Space::FILE, flags: asked_flags(req.flags) }),
        req.command is MakeDir ==> spec_sd2_action(req) == (Sd2Action::Command {
            opcode: Opcode::MKDIR, space: Space::FILE, flags: asked_flags(req.flags) }),
        req.command is Boot ==> spec_sd2_action(req) == (Sd2Action::Command {
            opcode: Opcode::BOOT, space: Space::FILE, flags: asked_flags(req.flags) }),
        req.command is Rename ==> spec_sd2_action(req) == (Sd2Action::Command {
            opcode: Opcode::MV, space: Space::FILE, flags: asked_flags(req.flags) }),
        req.command is Menu ==> spec_sd2_action(req) == (Sd2Action::Command {
            opcode: Opcode::MENU_RESET, space: req.space, flags: asked_flags(req.flags) }),
        req.command is Reset ==> spec_sd2_action(req) == (Sd2Action::Command {
            opcode: Opcode::RESET, space: req.space, flags: asked_flags(req.flags) }),
        req.command is Info ==> spec_sd2_action(req) == Sd2Action::Info,
        req.command is List ==> spec_sd2_action(req) == (Sd2Action::List {
            opcode: Opcode::LS, flags: Flags { bits: asked_flags(req.flags).bits | FLAG_NORESP } }),
        req.command is GetFile ==> spec_sd2_action(req) == (Sd2Action::FileRead {
            opcode: Opcode::GET, flags: asked_flags(req.flags), block_size: 512 }),
        req.command matches CommandModel::PutFile(_, n) ==> spec_sd2_action(req) == (Sd2Action::FileWrite {
            opcode: Opcode::PUT,
            flags: Flags { bits: asked_flags(req.flags).bits | FLAG_NORESP },
            data_size: n,
            padded_size: spec_pad_size(n as int, 512) as usize,
            block_size: 512,
        }),
        req.command matches CommandModel::GetAddress(l) ==> spec_sd2_action(req) matches Sd2Action::Read {
            opcode, space, flags, ..
        } && space == req.space && opcode == (if l.len() == 1 { Opcode::GET } else { Opcode::VGET })
            && flags.bits & FLAG_NORESP == FLAG_NORESP,
        req.command matches CommandModel::PutAddress(l) ==> spec_sd2_action(req) matches Sd2Action::Write {
            opcode, space, flags, block_size, ..
        } && space == req.space && opcode == (if l.len() == 1 { Opcode::PUT } else { Opcode::VPUT })
            && block_size == (if l.len() == 1 { 512usize } else { 64usize })
            && flags.bits & FLAG_NORESP == FLAG_NORESP,
{
    let asked: u8 = match req.flags {
        Some(f) => f.bits,
        None => FLAG_NONE,
    };
    assert((asked | 64u8 | 0u8) & 64u8 == 64u8 && (asked | 64u8 | 128u8) & 64u8 == 64u8) by (bit_vector);
}


/// A change among the serial ports that the enumerator watches.
#[derive(Debug)]
pub enum PortInfo {
    /// A cartridge appeared on this port.
    PortAdded(String),
    /// The cartridge on this port is gone.
    PortRemoved(String),
}

/// A port change as a value: whether it is an addition, and the port's name.
pub open spec fn port_info_view(p: PortInfo) -> (bool, Seq<char>) {
    match p {
        PortInfo::PortAdded(n) => (true, n@),
        PortInfo::PortRemoved(n) => (false, n@),
    }
}

/// The manager of the cartridges found on serial ports.
pub struct SD2SnesManager {}

/// The USB vendor id of the cartridge's serial interface.
pub const SD2SNES_VID: u16 = 4617;

/// The USB product id of the cartridge's serial interface.
pub const SD2SNES_PID: u16 = 23074;

/// A USB serial port as the enumerator sees it: its name and its USB
/// identity.
#[derive(Debug)]
pub struct UsbPort {
    pub name: String,
    pub vid: u16,
    pub pid: u16,
    pub serial_number: Option<String>,
    pub manufacturer: Option<String>,
    pub product: Option<String>,
}

/// A USB serial port as values.
pub struct UsbPortModel {
    pub name: Seq<char>,
    pub vid: u16,
    pub pid: u16,
    pub serial_number: Option<Seq<char>>,
    pub manufacturer: Option<Seq<char>>,
    pub product: Option<Seq<char>>,
}

/// An optional text as a value.
pub open spec fn opt_text(t: Option<String>) -> Option<Seq<char>> {
    match t {
        Some(s) => Some(s@),
        None => None,
    }
}

impl View for UsbPort {
    type V = UsbPortModel;

    open spec fn view(&self) -> UsbPortModel {
        UsbPortModel {
            name: self.name@,
            vid: self.vid,
            pid: self.pid,
            serial_number: opt_text(self.serial_number),
            manufacturer: opt_text(self.manufacturer),
            product: opt_text(self.product),
        }
    }
}

/// A list of ports as values.
pub open spec fn ports_view(v: Vec<UsbPort>) -> Seq<UsbPortModel> {
    v@.map_values(|p: UsbPort| p@)
}

/// The elements of `a`, in order, that `b` does not hold.
pub open spec fn missing_from<A>(a: Seq<A>, b: Seq<A>) -> Seq<A>
    decreases a.len(),
{
    if a.len() == 0 {
        Seq::empty()
    } else {
        let rest = missing_from(a.drop_last(), b);
        if b.contains(a.last()) {
            rest
        } else {
            rest.push(a.last())
        }
    }
}

/// The changes from the ports `current` to the ports `available`: first the
/// name of each port that is gone, then of each port that is new. A port
/// that keeps its name but changes its USB identity is both.
pub open spec fn spec_port_changes(current: Seq<UsbPortModel>, available: Seq<UsbPortModel>) -> Seq<(bool, Seq<char>)> {
    missing_from(current, available).map_values(|p: UsbPortModel| (false, p.name))
        + missing_from(available, current).map_values(|p: UsbPortModel| (true, p.name))
}

/// Whether two optional texts are the same.
fn same_text(a: &Option<String>, b: &Option<String>) -> (r: bool)
    ensures
        r == (opt_text(*a) == opt_text(*b)),
{
    match (a, b) {
        (Some(x), Some(y)) => *x == *y,
        (None, None) => true,
        _ => false,
    }
}

/// Whether two ports are the same port.
fn same_port(a: &UsbPort, b: &UsbPort) -> (r: bool)
    ensures
        r == (a@ == b@),
{
    a.name == b.name && a.vid == b.vid && a.pid == b.pid && same_text(&a.serial_number, &b.serial_number)
        && same_text(&a.manufacturer, &b.manufacturer) && same_text(&a.product, &b.product)
}

/// Whether `v` holds the port `x`.
fn ports_contain(v: &Vec<UsbPort>, x: &UsbPort) -> (r: bool)
    ensures
        r == ports_view(*v).contains(x@),
{
    let mut i: usize = 0;
    while i < v.len()
        invariant
            i <= v@.len(),
            forall|j: int| 0 <= j < i ==> (#[trigger] ports_view(*v)[j]) != x@,
        decreases v.len() - i,
    {
        if same_port(&v[i], x) {
            assert(ports_view(*v)[i as int] == x@);
            return true;
        }
        i = i + 1;
    }
    false
}

/// Pushes, as events made by `added`, the names of the ports of `a` that
/// `b` lacks.
fn push_missing(out: &mut Vec<PortInfo>, a: &Vec<UsbPort>, b: &Vec<UsbPort>, added: bool)
    ensures
        final(out)@.map_values(|p: PortInfo| port_info_view(p))
            == old(out)@.map_values(|p: PortInfo| port_info_view(p))
            + missing_from(ports_view(*a), ports_view(*b)).map_values(|p: UsbPortModel| (added, p.name)),
{
    let ghost start = out@.map_values(|p: PortInfo| port_info_view(p));
    let mut i: usize = 0;
    assert(ports_view(*a).take(0) =~= Seq::<UsbPortModel>::empty());
    assert(out@.map_values(|p: PortInfo| port_info_view(p)) =~= start + missing_from(ports_view(*a).take(0), ports_view(*b)).map_values(|p: UsbPortModel| (added, p.name)));
    while i < a.len()
        invariant
            i <= a@.len(),
            out@.map_values(|p: PortInfo| port_info_view(p))
                == start + missing_from(ports_view(*a).take(i as int), ports_view(*b)).map_values(|p: UsbPortModel| (added, p.name)),
        decreases a.len() - i,
    {
        let ghost t = ports_view(*a).take(i + 1);
        assert(t.drop_last() =~= ports_view(*a).take(i as int));
        assert(t.last() == a@[i as int]@);
        let ghost before = missing_from(ports_view(*a).take(i as int), ports_view(*b));
        if !ports_contain(b, &a[i]) {
            let name = a[i].name.clone();
            let ev = if added { PortInfo::PortAdded(name) } else { PortInfo::PortRemoved(name) };
            assert(port_info_view(ev) == (added, a@[i as int]@.name));
            let ghost prev_out = out@;
            out.push(ev);
            assert(out@.map_values(|p: PortInfo| port_info_view(p))
                =~= prev_out.map_values(|p: PortInfo| port_info_view(p)).push((added, a@[i as int]@.name)));
            assert(missing_from(t, ports_view(*b)) == before.push(a@[i as int]@));
            assert(out@.map_values(|p: PortInfo| port_info_view(p))
                =~= start + missing_from(t, ports_view(*b)).map_values(|p: UsbPortModel| (added, p.name)));
        } else {
            assert(missing_from(t, ports_view(*b)) == before);
        }
        i = i + 1;
    }
    assert(ports_view(*a).take(i as int) =~= ports_view(*a));
}

impl SD2SnesManager {
    /// Whether a USB serial port with these ids and this name is a
    /// cartridge: the ids must match, and on macOS only the `/dev/cu.` twin
    /// of each port counts.
    pub fn is_cartridge_port(vid: u16, pid: u16, port_name: &str, macos: bool) -> (r: bool)
        ensures
            r == (vid == SD2SNES_VID && pid == SD2SNES_PID && (macos ==> starts_with(port_name@, "/dev/cu."@))),
    {
        if vid == SD2SNES_VID && pid == SD2SNES_PID {
            if macos {
                text_starts_with(port_name, "/dev/cu.")
            } else {
                true
            }
        } else {
            false
        }
    }

    /// The changes to report when the ports `current` become `available`:
    /// first each port that is gone, then each port that is new, ports being
    /// compared by name and USB identity.
    pub fn port_changes(current: &Vec<UsbPort>, available: &Vec<UsbPort>) -> (r: Vec<PortInfo>)
        ensures
            r@.map_values(|p: PortInfo| port_info_view(p)) == spec_port_changes(ports_view(*current), ports_view(*available)),
    {
        let mut out: Vec<PortInfo> = Vec::new();
        assert(out@.map_values(|p: PortInfo| port_info_view(p)) =~= Seq::<(bool, Seq<char>)>::empty());
        push_missing(&mut out, current, available, false);
        push_missing(&mut out, available, current, true);
        assert(out@.map_values(|p: PortInfo| port_info_view(p)) =~= spec_port_changes(ports_view(*current), ports_view(*available)));
        out
    }
}


/// How many of `bytes` bytes read after `read_len` bytes belong to the
/// first `data_size` bytes.
pub open spec fn spec_forward_len(read_len: int, bytes: int, data_size: int) -> int {
    if read_len > data_size {
        0
    } else if read_len + bytes > data_size {
        data_size - read_len
    } else {
        bytes
    }
}

/// The bytes of reads of the given lengths, added.
pub open spec fn read_total(lens: Seq<usize>) -> int
    decreases lens.len(),
{
    if lens.len() == 0 { 0 } else { read_total(lens.drop_last()) + lens.last() }
}

/// The bytes forwarded over reads of the given lengths, one after another.
pub open spec fn forwarded_total(lens: Seq<usize>, data_size: int) -> int
    decreases lens.len(),
{
    if lens.len() == 0 {
        0
    } else {
        forwarded_total(lens.drop_last(), data_size) + spec_forward_len(read_total(lens.drop_last()), lens.last() as int, data_size)
    }
}

/// However the device's reply is cut into reads, exactly the first
/// `data_size` bytes of it are forwarded, or all of it when shorter: the
/// padding never reaches the client.
pub proof fn lemma_forwarded_total(lens: Seq<usize>, data_size: usize)
    ensures
        forwarded_total(lens, data_size as int) == if read_total(lens) < data_size { read_total(lens) } else { data_size as int },
    decreases lens.len(),
{
    if lens.len() > 0 {
        lemma_forwarded_total(lens.drop_last(), data_size);
        lemma_read_total_nonneg(lens.drop_last());
    }
}

proof fn lemma_read_total_nonneg(lens: Seq<usize>)
    ensures
        read_total(lens) >= 0,
    decreases lens.len(),
{
    if lens.len() > 0 {
        lemma_read_total_nonneg(lens.drop_last());
    }
}

/// `x` is among what `missing_from(a, b)` gives just when `a` has it and
/// `b` does not.
proof fn lemma_missing_from<A>(a: Seq<A>, b: Seq<A>, x: A)
    ensures
        missing_from(a, b).contains(x) <==> (a.contains(x) && !b.contains(x)),
    decreases a.len(),
{
    if a.len() > 0 {
        lemma_missing_from(a.drop_last(), b, x);
        let rest = missing_from(a.drop_last(), b);
        if a.contains(x) && !a.drop_last().contains(x) {
            let i = choose|i: int| 0 <= i < a.len() && a[i] == x;
            if i < a.len() - 1 {
                assert(a.drop_last()[i] == x);
            }
            assert(a.last() == x);
        }
        if a.drop_last().contains(x) {
            let i = choose|i: int| 0 <= i < a.len() - 1 && a.drop_last()[i] == x;
            assert(a[i] == x);
        }
        if !b.contains(a.last()) {
            let m = rest.push(a.last());
            assert(m[m.len() - 1] == a.last());
            if rest.contains(x) {
                let i = choose|i: int| 0 <= i < rest.len() && rest[i] == x;
                assert(m[i] == x);
            }
            if m.contains(x) && x != a.last() {
                let i = choose|i: int| 0 <= i < m.len() && m[i] == x;
                assert(rest[i] == x);
            }
        }
    }
}

/// After the changes the watched ports are what is available: a port is
/// reported gone just when it was watched and is no longer available, and
/// reported new just when it is available and was not watched.
pub proof fn lemma_port_changes(current: Seq<UsbPortModel>, available: Seq<UsbPortModel>, port: UsbPortModel)
    ensures
        missing_from(current, available).contains(port) <==> (current.contains(port) && !available.contains(port)),
        missing_from(available, current).contains(port) <==> (available.contains(port) && !current.contains(port)),
        spec_port_changes(current, available) == missing_from(current, available).map_values(|p: UsbPortModel| (false, p.name))
            + missing_from(available, current).map_values(|p: UsbPortModel| (true, p.name)),
{
    lemma_missing_from(current, available, port);
    lemma_missing_from(available, current, port);
}

/// Every memory transfer is sent without a response, and a vectored one
/// with 64-byte data blocks; the flags asked for are kept.
pub proof fn lemma_transfer_flags(flags: Option<Flags>, op: Opcode)
    ensures
        spec_transfer_flags(flags, op).bits & FLAG_NORESP == FLAG_NORESP,
        (op == Opcode::VGET || op == Opcode::VPUT) ==> spec_transfer_flags(flags, op).bits & FLAG_DATA64B == FLAG_DATA64B,
        spec_transfer_flags(flags, op).bits & asked_flags(flags).bits == asked_flags(flags).bits,
{
    let a = asked_flags(flags).bits;
    let r = spec_transfer_flags(flags, op).bits;
    assert(spec_transfer_flags(flags, op).bits == (match flags { Some(f) => f.bits, None => FLAG_NONE }) | FLAG_NORESP | (if op == Opcode::VGET || op == Opcode::VPUT { FLAG_DATA64B } else { FLAG_NONE }));
    let d: u8 = if op == Opcode::VGET || op == Opcode::VPUT { FLAG_DATA64B } else { FLAG_NONE };
    assert(r == a | 64u8 | d);
    assert((a | 64u8 | d) & 64u8 == 64u8) by (bit_vector);
    assert((a | 64u8 | 128u8) & 128u8 == 128u8) by (bit_vector);
    assert((a | 64u8 | d) & a == a) by (bit_vector);
}

/// A size written big-endian at an offset reads back the same there, for
/// sizes below 2^32: what a file-write command announces is what a file
/// size read from the same place gives.
pub proof fn lemma_be32_round_trip(buf: Seq<u8>, at: int, n: usize)
    requires
        0 <= at,
        at + 4 <= buf.len(),
        n < 0x1_0000_0000,
    ensures
        be32_at(put_be32_usize(buf, at, n), at) == n,
{
    let b = put_be32_usize(buf, at, n);
    assert(b[at] == ((n >> 24u64) & 0xFF) as u8);
    assert(b[at + 1] == ((n >> 16u64) & 0xFF) as u8);
    assert(b[at + 2] == ((n >> 8u64) & 0xFF) as u8);
    assert(b[at + 3] == (n & 0xFF) as u8);
    assert(((n >> 24u64) & 0xFF) as u8 == (n >> 24u64) & 0xFF) by (bit_vector);
    assert(((n >> 16u64) & 0xFF) as u8 == (n >> 16u64) & 0xFF) by (bit_vector);
    assert(((n >> 8u64) & 0xFF) as u8 == (n >> 8u64) & 0xFF) by (bit_vector);
    assert((n & 0xFF) as u8 == n & 0xFF) by (bit_vector);
    assert(((n >> 24u64) & 0xFF) * 0x1000000 + ((n >> 16u64) & 0xFF) * 0x10000 + ((n >> 8u64) & 0xFF) * 0x100 + (n & 0xFF) == n) by (bit_vector)
        requires
            n < 0x1_0000_0000,
    ;
}


/// A file-write command announces its size where the device's file-read
/// answer carries it: reading the size back from the command gives the
/// size written, for sizes below 2^32.
pub proof fn lemma_put_file_size(flags: Flags, name: Seq<char>, n: usize)
    requires
        command_fits(512, Opcode::PUT, Space::FILE, CommandArgModel::FilenameAndSize(name, n)),
        n < 0x1_0000_0000,
    ensures
        be32_at(spec_command_buffer(Opcode::PUT, Space::FILE, flags, CommandArgModel::FilenameAndSize(name, n), 512), 252) == n,
{
    lemma_pad_size(7, 256);
    let base = padded(command_header(Opcode::PUT, Space::FILE, flags), 256);
    let body = base + encode_utf8(name);
    let x = put_be32_usize(body, 252, n);
    assert(x.len() == body.len());
    lemma_padded_512(x);
    lemma_be32_round_trip(body, 252, n);
    let b = spec_command_buffer(Opcode::PUT, Space::FILE, flags, CommandArgModel::FilenameAndSize(name, n), 512);
    assert(b == padded(x, 512));
    assert(b[252] == x[252] && b[253] == x[253] && b[254] == x[254] && b[255] == x[255]);
}


/// `b` holds `x` from `at` on.
pub open spec fn holds_at(b: Seq<u8>, at: int, x: Seq<u8>) -> bool {
    at + x.len() <= b.len() && b.subrange(at, at + x.len() as int) == x
}

/// `data` padded to a block size keeps `data` in front and zeros behind it.
proof fn lemma_padded_layout(data: Seq<u8>, block_size: int)
    requires
        block_size > 0,
    ensures
        padded(data, block_size).len() as int % block_size == 0,
        data.len() <= padded(data, block_size).len() < data.len() + block_size,
        forall|i: int| 0 <= i < data.len() ==> padded(data, block_size)[i] == data[i],
        forall|i: int| data.len() <= i < padded(data, block_size).len() ==> padded(data, block_size)[i] == 0,
{
    lemma_pad_size(data.len() as int, block_size);
}

/// The 256-byte head of every command: the seven opening bytes, then zeros.
proof fn lemma_command_base(op: Opcode, space: Space, flags: Flags)
    ensures
        padded(command_header(op, space, flags), 256).len() == 256,
        padded(command_header(op, space, flags), 256).take(7) == command_header(op, space, flags),
        forall|i: int| 7 <= i < 256 ==> padded(command_header(op, space, flags), 256)[i] == 0,
{
    let h = command_header(op, space, flags);
    lemma_padded_layout(h, 256);
    assert(padded(h, 256).take(7) =~= h);
}

/// A file command names its path in the second half of the head: the
/// buffer opens with `USBA`, the opcode, the space and the flags, holds
/// only zeros up to offset 256, then the path's UTF-8 bytes, then zeros up
/// to the end of the last block. A rename writes the new name at offset 8
/// and the old one at offset 256 (the new name wins where a long one
/// reaches that far); an upload writes the file's size big-endian at
/// offset 252, before the path.
pub proof fn lemma_command_paths(op: Opcode, flags: Flags, arg: CommandArgModel, block_size: int)
    requires
        block_size > 0,
        command_fits(block_size, op, Space::FILE, arg),
    ensures
        ({
            let b = spec_command_buffer(op, Space::FILE, flags, arg, block_size);
            &&& b.len() as int % block_size == 0
            &&& b.len() >= 256
            &&& b.take(7) == command_header(op, Space::FILE, flags)
            &&& ((op == Opcode::GET || op == Opcode::LS || op == Opcode::MKDIR || op == Opcode::RM
                || op == Opcode::BOOT) && arg is Filename) ==> {
                let e = encode_utf8(arg->Filename_0);
                &&& holds_at(b, 256, e)
                &&& b.len() < 256 + e.len() + block_size
                &&& forall|i: int| 7 <= i < 256 ==> b[i] == 0
                &&& forall|i: int| 256 + e.len() <= i < b.len() ==> b[i] == 0
            }
            &&& (op == Opcode::MV && arg is Filenames) ==> {
                let src = encode_utf8(arg->Filenames_0);
                let dst = encode_utf8(arg->Filenames_1);
                &&& holds_at(b, 8, dst)
                &&& b.len() < 256 + src.len() + block_size
                &&& b[7] == 0
                &&& forall|i: int| 8 + dst.len() <= i < 256 ==> b[i] == 0
                &&& forall|i: int| 256 <= i < 256 + src.len() && 8 + dst.len() <= i ==> b[i] == src[i - 256]
                &&& forall|i: int| 256 + src.len() <= i < b.len() ==> b[i] == 0
            }
            &&& (op == Opcode::PUT && arg is FilenameAndSize) ==> {
                let e = encode_utf8(arg->FilenameAndSize_0);
                let n = arg->FilenameAndSize_1;
                &&& holds_at(b, 256, e)
                &&& b.len() < 256 + e.len() + block_size
                &&& b[252] == ((n >> 24u64) & 0xFF) as u8
                &&& b[253] == ((n >> 16u64) & 0xFF) as u8
                &&& b[254] == ((n >> 8u64) & 0xFF) as u8
                &&& b[255] == (n & 0xFF) as u8
                &&& forall|i: int| 7 <= i < 252 ==> b[i] == 0
                &&& forall|i: int| 256 + e.len() <= i < b.len() ==> b[i] == 0
            }
        }),
{
    let h = command_header(op, Space::FILE, flags);
    let base = padded(h, 256);
    lemma_command_base(op, Space::FILE, flags);
    let b = spec_command_buffer(op, Space::FILE, flags, arg, block_size);
    let x = if (op == Opcode::GET || op == Opcode::LS || op == Opcode::MKDIR || op == Opcode::RM
        || op == Opcode::BOOT) && arg is Filename {
        base + encode_utf8(arg->Filename_0)
    } else if op == Opcode::MV && arg is Filenames {
        overwrite(base + encode_utf8(arg->Filenames_0), 8, encode_utf8(arg->Filenames_1))
    } else if op == Opcode::PUT && arg is FilenameAndSize {
        put_be32_usize(base + encode_utf8(arg->FilenameAndSize_0), 252, arg->FilenameAndSize_1)
    } else {
        base
    };
    assert(b == padded(x, block_size));
    assert(x.len() >= 256);
    lemma_padded_layout(x, block_size);
    assert forall|i: int| 0 <= i < 7 implies b[i] == h[i] by {
        assert(base.take(7)[i] == h[i]);
    }
    assert(b.take(7) =~= h);
    if (op == Opcode::GET || op == Opcode::LS || op == Opcode::MKDIR || op == Opcode::RM
        || op == Opcode::BOOT) && arg is Filename {
        let e = encode_utf8(arg->Filename_0);
        assert(b.subrange(256, 256 + e.len() as int) =~= e);
    } else if op == Opcode::MV && arg is Filenames {
        let dst = encode_utf8(arg->Filenames_1);
        assert(b.subrange(8, 8 + dst.len() as int) =~= dst);
    } else if op == Opcode::PUT && arg is FilenameAndSize {
        let e = encode_utf8(arg->FilenameAndSize_0);
        assert(b.subrange(256, 256 + e.len() as int) =~= e);
    }
}


/// The vectored entries stand at 32 + 4k, one per access, and leave every
/// other byte as it was.
proof fn lemma_vector_entries_layout(buf: Seq<u8>, l: Seq<AddressInfo>)
    requires
        l.len() <= 8,
        buf.len() == 64,
    ensures
        put_vector_entries(buf, l).len() == 64,
        forall|k: int| 0 <= k < l.len() ==> {
            &&& #[trigger] put_vector_entries(buf, l)[32 + 4 * k] == (l[k].size & 0xFF) as u8
            &&& put_vector_entries(buf, l)[33 + 4 * k] == ((l[k].orig_address >> 16u64) & 0xFF) as u8
            &&& put_vector_entries(buf, l)[34 + 4 * k] == ((l[k].orig_address >> 8u64) & 0xFF) as u8
            &&& put_vector_entries(buf, l)[35 + 4 * k] == (l[k].orig_address & 0xFF) as u8
        },
        forall|i: int| 0 <= i < 64 && !(32 <= i < 32 + 4 * l.len()) ==> #[trigger] put_vector_entries(buf, l)[i] == buf[i],
    decreases l.len(),
{
    if l.len() > 0 {
        let init = l.drop_last();
        lemma_vector_entries_layout(buf, init);
        let n = l.len() - 1;
        assert forall|k: int| 0 <= k < l.len() implies {
            &&& #[trigger] put_vector_entries(buf, l)[32 + 4 * k] == (l[k].size & 0xFF) as u8
            &&& put_vector_entries(buf, l)[33 + 4 * k] == ((l[k].orig_address >> 16u64) & 0xFF) as u8
            &&& put_vector_entries(buf, l)[34 + 4 * k] == ((l[k].orig_address >> 8u64) & 0xFF) as u8
            &&& put_vector_entries(buf, l)[35 + 4 * k] == (l[k].orig_address & 0xFF) as u8
        } by {
            if k < n {
                assert(init[k] == l[k]);
                assert(put_vector_entries(buf, init)[32 + 4 * k] == (init[k].size & 0xFF) as u8);
            }
        }
    }
}

/// A memory command carries its access in the head. A plain read or write
/// has the size big-endian at offset 252 and the address big-endian at 256,
/// in a buffer of whole blocks with nothing else but the opening bytes. A
/// vectored one is a single 64-byte block with, from offset 32, one entry
/// of four bytes per access: the size's low byte, then the address's low 24
/// bits big-endian; the rest is zero.
pub proof fn lemma_memory_command_layout(op: Opcode, space: Space, flags: Flags, l: Seq<AddressInfo>, block_size: int)
    requires
        block_size > 0,
        is_memory_space(space),
        command_fits(block_size, op, space, CommandArgModel::AddressList(l)),
    ensures
        ({
            let b = spec_command_buffer(op, space, flags, CommandArgModel::AddressList(l), block_size);
            &&& (op == Opcode::GET || op == Opcode::PUT) ==> {
                &&& b.len() == spec_pad_size(256, block_size)
                &&& b.take(7) == command_header(op, space, flags)
                &&& b[252] == ((l[0].size >> 24u64) & 0xFF) as u8
                &&& b[253] == ((l[0].size >> 16u64) & 0xFF) as u8
                &&& b[254] == ((l[0].size >> 8u64) & 0xFF) as u8
                &&& b[255] == (l[0].size & 0xFF) as u8
                &&& b[256] == ((l[0].orig_address >> 24u64) & 0xFF) as u8
                &&& b[257] == ((l[0].orig_address >> 16u64) & 0xFF) as u8
                &&& b[258] == ((l[0].orig_address >> 8u64) & 0xFF) as u8
                &&& b[259] == (l[0].orig_address & 0xFF) as u8
                &&& forall|i: int| (7 <= i < 252 || 260 <= i < b.len()) ==> b[i] == 0
            }
            &&& (op == Opcode::VGET || op == Opcode::VPUT) ==> {
                &&& b.len() == 64
                &&& b.take(7) == command_header(op, space, flags)
                &&& forall|k: int| 0 <= k < l.len() ==> {
                    &&& #[trigger] b[32 + 4 * k] == (l[k].size & 0xFF) as u8
                    &&& b[33 + 4 * k] == ((l[k].orig_address >> 16u64) & 0xFF) as u8
                    &&& b[34 + 4 * k] == ((l[k].orig_address >> 8u64) & 0xFF) as u8
                    &&& b[35 + 4 * k] == (l[k].orig_address & 0xFF) as u8
                }
                &&& forall|i: int| (7 <= i < 32 || 32 + 4 * l.len() <= i < 64) ==> b[i] == 0
            }
        }),
{
    let h = command_header(op, space, flags);
    let base = padded(h, 256);
    lemma_command_base(op, space, flags);
    let arg = CommandArgModel::AddressList(l);
    let b = spec_command_buffer(op, space, flags, arg, block_size);
    assert forall|i: int| 0 <= i < 7 implies base[i] == h[i] by {
        assert(base.take(7)[i] == h[i]);
    }
    if op == Opcode::GET || op == Opcode::PUT {
        let x = put_be32(base, 252, l[0].size);
        lemma_padded_layout(x, block_size);
        assert(b.take(7) =~= h);
    } else if op == Opcode::VGET || op == Opcode::VPUT {
        let t = base.take(64);
        lemma_vector_entries_layout(t, l);
        assert(b.take(7) =~= h);
    }
}


/// What a command sends to the device besides opcode, space and flags: its
/// address list, its path, its path and size, or its two paths.
pub open spec fn spec_command_arg(c: CommandModel) -> CommandArgModel {
    match c {
        CommandModel::GetAddress(l) | CommandModel::PutAddress(l) => CommandArgModel::AddressList(l),
        CommandModel::Remove(p) | CommandModel::MakeDir(p) | CommandModel::Boot(p) | CommandModel::List(p) | CommandModel::GetFile(p) =>
            CommandArgModel::Filename(p),
        CommandModel::PutFile(p, n) => CommandArgModel::FilenameAndSize(p, n),
        CommandModel::Rename(a, b) => CommandArgModel::Filenames(a, b),
        _ => CommandArgModel::Nothing,
    }
}

impl<S> SD2Snes<S> {
    /// The argument that `command` sends to the device.
    pub fn command_arg(command: &Command) -> (r: CommandArg<'_>)
        ensures
            r@ == spec_command_arg(command@),
    {
        match command {
            Command::GetAddress(l) | Command::PutAddress(l) => CommandArg::AddressList(l),
            Command::Remove(p) | Command::MakeDir(p) | Command::Boot(p) | Command::List(p) | Command::GetFile(p) =>
                CommandArg::Filename(p.clone()),
            Command::PutFile((p, n)) => CommandArg::FilenameAndSize((p.clone(), *n)),
            Command::Rename((a, b)) => CommandArg::Filenames((a.clone(), b.clone())),
            _ => CommandArg::Nothing,
        }
    }
}


/// Whether padding `size` to `block_size` is exact.
pub fn pad_exact_check(size: usize, block_size: usize) -> (r: bool)
    ensures
        r == pad_exact(size as int, block_size as int),
{
    if block_size == 0 {
        return true;
    }
    if size as u64 >= 0x20_0000_0000_0000u64 {
        return false;
    }
    let q = size / block_size;
    assert(q <= size) by (nonlinear_arith)
        requires
            block_size > 0,
            q == size / block_size,
    ;
    let k: usize = if size % block_size == 0 {
        q
    } else {
        assert(q < size) by (nonlinear_arith)
            requires
                block_size > 1 || size % block_size == 0,
                size % block_size != 0,
                q == size / block_size,
        ;
        q + 1
    };
    assert(k == size / block_size + (if size % block_size == 0 { 0int } else { 1int }));
    k.checked_mul(block_size).is_some()
}

/// Whether the lengths of `l`, each read as a `usize`, add up within `usize`;
/// with `padded`, each padded to 64 bytes, and each padding exact.
fn sums_fit(l: &Vec<AddressInfo>, padded: bool) -> (r: bool)
    ensures
        r == if padded {
            &&& sum_padded(l@, 64) <= usize::MAX
            &&& forall|k: int| 0 <= k < l@.len() ==> pad_exact(((#[trigger] l@[k]).size as usize) as int, 64)
        } else {
            sum_sizes(l@) <= usize::MAX
        },
{
    let mut total: usize = 0;
    let mut i: usize = 0;
    assert(l@.take(0) =~= Seq::<AddressInfo>::empty());
    while i < l.len()
        invariant
            i <= l@.len(),
            total == if padded { sum_padded(l@.take(i as int), 64) } else { sum_sizes(l@.take(i as int)) },
            padded ==> forall|k: int| 0 <= k < i ==> pad_exact(((#[trigger] l@[k]).size as usize) as int, 64),
        decreases l.len() - i,
    {
        let s = l[i].size as usize;
        let ghost t = l@.take(i + 1);
        proof {
            assert(t.drop_last() =~= l@.take(i as int));
            assert(t.last() == l@[i as int]);
            lemma_sums_grow(l@, i + 1, 64);
        }
        let add = if padded {
            if !pad_exact_check(s, 64) {
                return false;
            }
            let q = s / 64;
            let k: usize = if s % 64 == 0 { q } else { q + 1 };
            assert(k * 64 == spec_pad_size(s as int, 64));
            k * 64
        } else {
            s
        };
        match total.checked_add(add) {
            Some(n) => total = n,
            None => return false,
        }
        i = i + 1;
    }
    assert(l@.take(i as int) =~= l@);
    true
}

impl<S> SD2Snes<S> {
    /// Whether the sizes of `req` can be computed: what `plan` needs.
    pub fn request_fits(req: &Request) -> (r: bool)
        ensures
            r == sd2_request_fits(req@),
    {
        match &req.command {
            Command::GetAddress(l) => if l.len() == 1 {
                pad_exact_check(l[0].size as usize, 512)
            } else {
                sums_fit(l, false) && sums_fit(l, true)
            },
            Command::PutAddress(l) => if l.len() == 1 {
                pad_exact_check(l[0].size as usize, 512)
            } else {
                if sums_fit(l, false) {
                    pad_exact_check(data_size(l), 64)
                } else {
                    false
                }
            },
            Command::PutFile((_, n)) => pad_exact_check(*n, 512),
            _ => true,
        }
    }
}


/// Whether padding a command head of 256 bytes and `len` more to
/// `block_size` is exact.
fn pad_exact_after_head(len: usize, block_size: usize) -> (r: bool)
    ensures
        r == pad_exact(256 + len, block_size as int),
{
    if block_size == 0 {
        return true;
    }
    match 256usize.checked_add(len) {
        Some(n) => pad_exact_check(n, block_size),
        None => {
            proof {
                lemma_pad_size(256 + len, block_size as int);
            }
            false
        },
    }
}

impl<S> SD2Snes<S> {
    /// Whether a command with these parts can be built: what `command_buffer`
    /// needs.
    pub fn command_fits_check(&self, opcode: Opcode, space: Space, args: &CommandArg<'_>) -> (r: bool)
        ensures
            r == command_fits(self.block_size as int, opcode, space, args@),
    {
        if !pad_exact_check(256, self.block_size) {
            return false;
        }
        let memory = match space {
            Space::SNES | Space::CMD | Space::MSU => true,
            _ => false,
        };
        let file = match space {
            Space::FILE => true,
            _ => false,
        };
        match args {
            CommandArg::AddressList(l) => {
                if memory && (opcode == Opcode::GET || opcode == Opcode::PUT) {
                    l.len() >= 1 && self.pad_size(256, self.block_size) >= 260
                } else if memory && (opcode == Opcode::VGET || opcode == Opcode::VPUT) {
                    l.len() <= 8
                } else {
                    true
                }
            },
            CommandArg::Filename(p) => pad_exact_after_head(p.as_str().as_bytes().len(), self.block_size),
            CommandArg::FilenameAndSize((p, _)) => pad_exact_after_head(p.as_str().as_bytes().len(), self.block_size),
            CommandArg::Filenames((a, b)) => {
                let la = a.as_str().as_bytes().len();
                let lb = b.as_str().as_bytes().len();
                if !pad_exact_after_head(la, self.block_size) {
                    false
                } else if file && opcode == Opcode::MV {
                    lb <= 248 || lb - 248 <= la
                } else {
                    true
                }
            },
            CommandArg::Nothing => true,
        }
    }
}


/// The bytes of reads, one after another.
pub open spec fn concat_reads(reads: Seq<Seq<u8>>) -> Seq<u8>
    decreases reads.len(),
{
    if reads.len() == 0 { Seq::empty() } else { concat_reads(reads.drop_last()) + reads.last() }
}

/// The bytes forwarded over the given reads, one after another: of each,
/// what `forward_len` lets through.
pub open spec fn forwarded_bytes(reads: Seq<Seq<u8>>, data_size: int) -> Seq<u8>
    decreases reads.len(),
{
    if reads.len() == 0 {
        Seq::empty()
    } else {
        let prev = reads.drop_last();
        forwarded_bytes(prev, data_size) + reads.last().take(
            spec_forward_len(concat_reads(prev).len() as int, reads.last().len() as int, data_size),
        )
    }
}

/// However the device's reply is cut into reads, what is forwarded is
/// exactly the reply's first `data_size` bytes (all of it when shorter): the
/// data, in order, without the padding.
pub proof fn lemma_forwarded_bytes(reads: Seq<Seq<u8>>, data_size: usize)
    ensures
        forwarded_bytes(reads, data_size as int) == concat_reads(reads).take(
            if concat_reads(reads).len() < data_size { concat_reads(reads).len() as int } else { data_size as int },
        ),
    decreases reads.len(),
{
    let c = concat_reads(reads);
    if reads.len() == 0 {
        assert(c.take(0) =~= Seq::<u8>::empty());
    } else {
        let prev = reads.drop_last();
        let last = reads.last();
        lemma_forwarded_bytes(prev, data_size);
        let cp = concat_reads(prev);
        let ds = data_size as int;
        let n = spec_forward_len(cp.len() as int, last.len() as int, ds);
        assert(c == cp + last);
        if cp.len() > ds {
            assert(n == 0);
            assert(last.take(0) =~= Seq::<u8>::empty());
            assert(cp.take(ds) + last.take(0) =~= c.take(ds));
        } else if cp.len() + last.len() > ds {
            assert(cp.take(cp.len() as int) =~= cp);
            assert(cp + last.take(ds - cp.len()) =~= c.take(ds));
        } else {
            assert(cp.take(cp.len() as int) =~= cp);
            assert(last.take(last.len() as int) =~= last);
            assert(c.take(c.len() as int) =~= c);
        }
    }
}

impl<S> SD2Snes<S> {
    /// The part of `buf`, just read after `read_len` bytes, that belongs to
    /// the first `data_size` bytes.
    pub fn forward_part(read_len: usize, buf: &[u8], data_size: usize) -> (r: Vec<u8>)
        requires
            read_len + buf@.len() <= usize::MAX,
        ensures
            r@ == buf@.take(spec_forward_len(read_len as int, buf@.len() as int, data_size as int)),
    {
        let n = Self::forward_len(read_len, buf.len(), data_size);
        let mut out: Vec<u8> = Vec::new();
        let mut i: usize = 0;
        while i < n
            invariant
                n <= buf@.len(),
                i <= n,
                out@ == buf@.take(i as int),
            decreases n - i,
        {
            out.push(buf[i]);
            i = i + 1;
            assert(out@ =~= buf@.take(i as int));
        }
        out
    }
}

} // verus!
