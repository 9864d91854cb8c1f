//! USB2SNES protocol definitions: opcodes, spaces, flags, addresses and the
//! requests that a websocket client sends.
use vstd::prelude::*;
use vstd::utf8::encode_utf8;

use crate::error::Error;
use crate::hex::{parse_hex_i64, parse_hex_usize, spec_parse_hex_i64, spec_parse_hex_usize};
use crate::text::{owned, str_is};

verus! {

#[allow(non_camel_case_types)]
#[derive(Debug, PartialEq, Eq, Clone, Copy, Structural)]
pub enum Opcode {
    GET,
    PUT,
    VGET,
    VPUT,
    // file system operations
    LS,
    MKDIR,
    RM,
    MV,
    // special operations
    RESET,
    BOOT,
    POWER_CYCLE,
    INFO,
    MENU_RESET,
    STREAM,
    TIME,
    // response
    RESPONSE,
    NONE,
}

/// The byte by which the device knows an opcode: its position in the list.
pub open spec fn spec_opcode_code(op: Opcode) -> u8 {
    match op {
        Opcode::GET => 0,
        Opcode::PUT => 1,
        Opcode::VGET => 2,
        Opcode::VPUT => 3,
        Opcode::LS => 4,
        Opcode::MKDIR => 5,
        Opcode::RM => 6,
        Opcode::MV => 7,
        Opcode::RESET => 8,
        Opcode::BOOT => 9,
        Opcode::POWER_CYCLE => 10,
        Opcode::INFO => 11,
        Opcode::MENU_RESET => 12,
        Opcode::STREAM => 13,
        Opcode::TIME => 14,
        Opcode::RESPONSE => 15,
        Opcode::NONE => 16,
    }
}

/// The opcode that carries a command to a device.
pub open spec fn spec_opcode_of(c: CommandModel) -> Opcode {
    match c {
        CommandModel::Info => Opcode::INFO,
        CommandModel::Boot(_) => Opcode::BOOT,
        CommandModel::Menu => Opcode::MENU_RESET,
        CommandModel::Reset => Opcode::RESET,
        CommandModel::Stream => Opcode::STREAM,
        CommandModel::GetAddress(a) => if a.len() == 1 { Opcode::GET } else { Opcode::VGET },
        CommandModel::PutAddress(a) => if a.len() == 1 { Opcode::PUT } else { Opcode::VPUT },
        CommandModel::GetFile(_) => Opcode::GET,
        CommandModel::PutFile(_, _) => Opcode::PUT,
        CommandModel::List(_) => Opcode::LS,
        CommandModel::Remove(_) => Opcode::RM,
        CommandModel::Rename(_, _) => Opcode::MV,
        CommandModel::MakeDir(_) => Opcode::MKDIR,
        _ => Opcode::NONE,
    }
}

impl Opcode {
    /// The opcode's byte in a device command.
    pub fn code(self) -> (r: u8)
        ensures
            r == spec_opcode_code(self),
    {
        match self {
            Opcode::GET => 0,
            Opcode::PUT => 1,
            Opcode::VGET => 2,
            Opcode::VPUT => 3,
            Opcode::LS => 4,
            Opcode::MKDIR => 5,
            Opcode::RM => 6,
            Opcode::MV => 7,
            Opcode::RESET => 8,
            Opcode::BOOT => 9,
            Opcode::POWER_CYCLE => 10,
            Opcode::INFO => 11,
            Opcode::MENU_RESET => 12,
            Opcode::STREAM => 13,
            Opcode::TIME => 14,
            Opcode::RESPONSE => 15,
            Opcode::NONE => 16,
        }
    }

    /// The opcode that carries `req` to a device: a single address is a plain
    /// GET/PUT, several addresses the vectored VGET/VPUT.
    pub fn from_request(req: &Request) -> (r: Opcode)
        ensures
            r == spec_opcode_of(req.command@),
    {
        match &req.command {
            Command::Info => Opcode::INFO,
            Command::Boot(_) => Opcode::BOOT,
            Command::Menu => Opcode::MENU_RESET,
            Command::Reset => Opcode::RESET,
            Command::Stream => Opcode::STREAM,
            Command::GetAddress(a) => if a.len() == 1 { Opcode::GET } else { Opcode::VGET },
            Command::PutAddress(a) => if a.len() == 1 { Opcode::PUT } else { Opcode::VPUT },
            Command::GetFile(_) => Opcode::GET,
            Command::PutFile(_) => Opcode::PUT,
            Command::List(_) => Opcode::LS,
            Command::Remove(_) => Opcode::RM,
            Command::Rename(_) => Opcode::MV,
            Command::MakeDir(_) => Opcode::MKDIR,
            _ => Opcode::NONE,
        }
    }
}

#[allow(non_camel_case_types)]
#[derive(Debug, PartialEq, Eq, Clone, Copy, Structural)]
pub enum Space {
    FILE,
    SNES,
    MSU,
    CMD,
    CONFIG,
}

/// The space named by `s`, spelled exactly as the variant.
pub open spec fn spec_space_named(s: Seq<char>) -> Option<Space> {
    if s == "FILE"@ {
        Some(Space::FILE)
    } else if s == "SNES"@ {
        Some(Space::SNES)
    } else if s == "MSU"@ {
        Some(Space::MSU)
    } else if s == "CMD"@ {
        Some(Space::CMD)
    } else if s == "CONFIG"@ {
        Some(Space::CONFIG)
    } else {
        None
    }
}

/// The byte by which the device knows a space: its position in the list.
pub open spec fn spec_space_code(s: Space) -> u8 {
    match s {
        Space::FILE => 0,
        Space::SNES => 1,
        Space::MSU => 2,
        Space::CMD => 3,
        Space::CONFIG => 4,
    }
}

impl Space {
    /// The space whose name is `s`.
    pub fn from_str(s: &str) -> (r: Result<Space, Error>)
        ensures
            match spec_space_named(s@) {
                Some(sp) => r == Ok::<Space, Error>(sp),
                None => r == Err::<Space, Error>(Error::InvalidSpace),
            },
    {
        if str_is(s, "FILE") {
            Ok(Space::FILE)
        } else if str_is(s, "SNES") {
            Ok(Space::SNES)
        } else if str_is(s, "MSU") {
            Ok(Space::MSU)
        } else if str_is(s, "CMD") {
            Ok(Space::CMD)
        } else if str_is(s, "CONFIG") {
            Ok(Space::CONFIG)
        } else {
            Err(Error::InvalidSpace)
        }
    }

    /// The space's byte in a device command.
    pub fn code(self) -> (r: u8)
        ensures
            r == spec_space_code(self),
    {
        match self {
            Space::FILE => 0,
            Space::SNES => 1,
            Space::MSU => 2,
            Space::CMD => 3,
            Space::CONFIG => 4,
        }
    }
}

/// A set of request flags, one bit each.
#[derive(Debug, PartialEq, Eq, Clone, Copy, Structural)]
pub struct Flags {
    pub bits: u8,
}

pub const FLAG_NONE: u8 = 0;
pub const FLAG_SKIPRESET: u8 = 1;
pub const FLAG_ONLYRESET: u8 = 2;
pub const FLAG_CLRX: u8 = 4;
pub const FLAG_SETX: u8 = 8;
pub const FLAG_STREAM_BURST: u8 = 16;
pub const FLAG_NORESP: u8 = 64;
pub const FLAG_DATA64B: u8 = 128;

/// The bits of the flag named by `s`, spelled exactly as the constant.
pub open spec fn spec_flag_named(s: Seq<char>) -> Option<u8> {
    if s == "NONE"@ {
        Some(FLAG_NONE)
    } else if s == "SKIPRESET"@ {
        Some(FLAG_SKIPRESET)
    } else if s == "ONLYRESET"@ {
        Some(FLAG_ONLYRESET)
    } else if s == "CLRX"@ {
        Some(FLAG_CLRX)
    } else if s == "SETX"@ {
        Some(FLAG_SETX)
    } else if s == "STREAM_BURST"@ {
        Some(FLAG_STREAM_BURST)
    } else if s == "NORESP"@ {
        Some(FLAG_NORESP)
    } else if s == "DATA64B"@ {
        Some(FLAG_DATA64B)
    } else {
        None
    }
}

impl Flags {
    /// The set with exactly the bits `bits`.
    pub fn from_bits(bits: u8) -> (r: Flags)
        ensures
            r.bits == bits,
    {
        Flags { bits }
    }

    pub fn none() -> (r: Flags)
        ensures
            r.bits == FLAG_NONE,
    {
        Flags { bits: FLAG_NONE }
    }

    pub fn noresp() -> (r: Flags)
        ensures
            r.bits == FLAG_NORESP,
    {
        Flags { bits: FLAG_NORESP }
    }

    pub fn data64b() -> (r: Flags)
        ensures
            r.bits == FLAG_DATA64B,
    {
        Flags { bits: FLAG_DATA64B }
    }

    /// The raw bits.
    pub fn bits(&self) -> (r: u8)
        ensures
            r == self.bits,
    {
        self.bits
    }

    /// Whether every bit of `other` is set here.
    pub fn contains(&self, other: Flags) -> (r: bool)
        ensures
            r == (self.bits & other.bits == other.bits),
    {
        self.bits & other.bits == other.bits
    }

    /// The bits set in either.
    pub fn union(self, other: Flags) -> (r: Flags)
        ensures
            r.bits == self.bits | other.bits,
    {
        Flags { bits: self.bits | other.bits }
    }

    /// The flag named `str`.
    pub fn from_str(str: &str) -> (r: Result<Flags, Error>)
        ensures
            match spec_flag_named(str@) {
                Some(b) => r == Ok::<Flags, Error>(Flags { bits: b }),
                None => r == Err::<Flags, Error>(Error::InvalidFlag),
            },
    {
        if str_is(str, "NONE") {
            Ok(Flags { bits: FLAG_NONE })
        } else if str_is(str, "SKIPRESET") {
            Ok(Flags { bits: FLAG_SKIPRESET })
        } else if str_is(str, "ONLYRESET") {
            Ok(Flags { bits: FLAG_ONLYRESET })
        } else if str_is(str, "CLRX") {
            Ok(Flags { bits: FLAG_CLRX })
        } else if str_is(str, "SETX") {
            Ok(Flags { bits: FLAG_SETX })
        } else if str_is(str, "STREAM_BURST") {
            Ok(Flags { bits: FLAG_STREAM_BURST })
        } else if str_is(str, "NORESP") {
            Ok(Flags { bits: FLAG_NORESP })
        } else if str_is(str, "DATA64B") {
            Ok(Flags { bits: FLAG_DATA64B })
        } else {
            Err(Error::InvalidFlag)
        }
    }
}

#[allow(non_camel_case_types)]
#[derive(Debug, PartialEq, Eq, Clone, Copy, Structural)]
pub enum FileType {
    DIRECTORY,
    FILE,
}

#[allow(non_camel_case_types)]
#[derive(Debug, PartialEq, Eq, Clone, Copy, Structural)]
pub enum MemoryDomain {
    WRAM,
    CARTROM,
    CARTRAM,
}

/// Where a USB2SNES address falls: `address` is the offset inside `domain`,
/// `orig_address` the address as the client wrote it.
#[derive(Debug, PartialEq, Eq, Clone, Copy, Structural)]
pub struct AddressInfo {
    pub domain: MemoryDomain,
    pub address: i64,
    pub orig_address: i64,
    pub size: i64,
}

/// First address of cartridge RAM in the USB2SNES address space.
pub const CARTRAM_BASE: i64 = 0xE00000;
/// First address of work RAM in the USB2SNES address space.
pub const WRAM_BASE: i64 = 0xF50000;

/// Where the domain starts in the USB2SNES address space.
pub open spec fn domain_base(d: MemoryDomain) -> int {
    match d {
        MemoryDomain::CARTROM => 0,
        MemoryDomain::CARTRAM => CARTRAM_BASE as int,
        MemoryDomain::WRAM => WRAM_BASE as int,
    }
}

/// The address information for USB2SNES address `a` and length `size`:
/// below 0xE00000 cartridge ROM, below 0xF50000 cartridge RAM, then work RAM.
pub open spec fn spec_classify(a: i64, size: i64) -> AddressInfo {
    if a < CARTRAM_BASE {
        AddressInfo { domain: MemoryDomain::CARTROM, orig_address: a, address: a, size }
    } else if a < WRAM_BASE {
        AddressInfo { domain: MemoryDomain::CARTRAM, orig_address: a, address: (a - CARTRAM_BASE) as i64, size }
    } else {
        AddressInfo { domain: MemoryDomain::WRAM, orig_address: a, address: (a - WRAM_BASE) as i64, size }
    }
}

/// The address information that the base-16 texts `address` and `size` denote.
pub open spec fn spec_create(address: Seq<u8>, size: Seq<u8>) -> Result<AddressInfo, Error> {
    match (spec_parse_hex_i64(address), spec_parse_hex_i64(size)) {
        (Some(a), Some(s)) => Ok(spec_classify(a, s)),
        _ => Err(Error::InvalidNumber),
    }
}

/// The address list that operands `(address, size)` pairs denote; a lone
/// trailing operand adds nothing.
pub open spec fn spec_from_operands(ops: Seq<Seq<char>>) -> Result<Seq<AddressInfo>, Error>
    decreases ops.len(),
{
    if ops.len() < 2 {
        Ok(Seq::empty())
    } else {
        match spec_create(encode_utf8(ops[0]), encode_utf8(ops[1])) {
            Err(e) => Err(e),
            Ok(a) => match spec_from_operands(ops.skip(2)) {
                Err(e) => Err(e),
                Ok(rest) => Ok(seq![a] + rest),
            },
        }
    }
}

/// Reading the operands in pairs meets a lone trailing operand: every pair
/// before it is valid and its count is odd.
pub open spec fn operands_lone_last(ops: Seq<Seq<char>>) -> bool {
    ops.len() % 2 == 1 && spec_from_operands(ops) is Ok
}

impl AddressInfo {
    /// Parses a base-16 address and size and sorts the address into its
    /// memory domain.
    pub fn create(address: &str, size: &str) -> (r: Result<AddressInfo, Error>)
        ensures
            r == spec_create(encode_utf8(address@), encode_utf8(size@)),
            r matches Ok(ai) ==> ai.orig_address == ai.address + domain_base(ai.domain),
    {
        let address_int = match parse_hex_i64(address.as_bytes()) {
            Some(a) => a,
            None => return Err(Error::InvalidNumber),
        };
        let size_int = match parse_hex_i64(size.as_bytes()) {
            Some(s) => s,
            None => return Err(Error::InvalidNumber),
        };
        let a = address_int;
        if a < CARTRAM_BASE {
            Ok(AddressInfo { domain: MemoryDomain::CARTROM, orig_address: a, address: a, size: size_int })
        } else if a < WRAM_BASE {
            Ok(AddressInfo { domain: MemoryDomain::CARTRAM, orig_address: a, address: a - CARTRAM_BASE, size: size_int })
        } else {
            Ok(AddressInfo { domain: MemoryDomain::WRAM, orig_address: a, address: a - WRAM_BASE, size: size_int })
        }
    }

    /// Reads operands as `(address, size)` pairs; the first invalid pair
    /// decides the error.
    pub fn from_operands(operands: &[String]) -> (r: Result<Vec<AddressInfo>, Error>)
        requires
            !operands_lone_last(operands@.map_values(|s: String| s@)),
        ensures
            match spec_from_operands(operands@.map_values(|s: String| s@)) {
                Ok(v) => r matches Ok(rv) && rv@ == v,
                Err(e) => r == Err::<Vec<AddressInfo>, Error>(e),
            },
    {
        let ghost ops = operands@.map_values(|s: String| s@);
        let mut out: Vec<AddressInfo> = Vec::new();
        let mut i: usize = 0;
        proof {
            assert(ops.skip(0) =~= ops);
        }
        while i + 1 < operands.len()
            invariant
                ops == operands@.map_values(|s: String| s@),
                i <= operands.len(),
                i % 2 == 0,
                !operands_lone_last(ops),
                match spec_from_operands(ops) {
                    Ok(v) => match spec_from_operands(ops.skip(i as int)) {
                        Ok(rest) => v == out@ + rest,
                        Err(_) => false,
                    },
                    Err(e) => spec_from_operands(ops.skip(i as int)) == Err::<Seq<AddressInfo>, Error>(e),
                },
            decreases operands.len() - i,
        {
            let ghost tail = ops.skip(i as int);
            assert(tail[0] == operands@[i as int]@);
            assert(tail[1] == operands@[i + 1]@);
            assert(tail.skip(2) =~= ops.skip(i + 2));
            let ai = match AddressInfo::create(operands[i].as_str(), operands[i + 1].as_str()) {
                Ok(ai) => ai,
                Err(e) => return Err(e),
            };
            out.push(ai);
            i = i + 2;
            proof {
                match spec_from_operands(ops) {
                    Ok(v) => {
                        assert(v == out@ + spec_from_operands(ops.skip(i as int)).unwrap());
                    },
                    Err(e) => {},
                }
            }
        }
        proof {
            let tail = ops.skip(i as int);
            assert(tail.len() < 2);
            if i < operands.len() {
                // one operand left over: its pairs were all valid, so the count is odd
                assert(operands.len() % 2 == 1);
            }
        }
        Ok(out)
    }
}

/// What a client asks of the server or of the device it is attached to.
#[derive(Debug)]
pub enum Command {
    DeviceList,
    Attach(String),
    AppVersion,
    Name(String),
    Close,
    Info,
    Boot(String),
    Menu,
    Reset,
    Binary,
    Stream,
    Fence,
    GetAddress(Vec<AddressInfo>),
    PutAddress(Vec<AddressInfo>),
    PutIPS,
    GetFile(String),
    PutFile((String, usize)),
    List(String),
    Remove(String),
    Rename((String, String)),
    MakeDir(String),
}

/// A command as mathematical values.
pub enum CommandModel {
    DeviceList,
    Attach(Seq<char>),
    AppVersion,
    Name(Seq<char>),
    Close,
    Info,
    Boot(Seq<char>),
    Menu,
    Reset,
    Binary,
    Stream,
    Fence,
    GetAddress(Seq<AddressInfo>),
    PutAddress(Seq<AddressInfo>),
    PutIPS,
    GetFile(Seq<char>),
    PutFile(Seq<char>, usize),
    List(Seq<char>),
    Remove(Seq<char>),
    Rename(Seq<char>, Seq<char>),
    MakeDir(Seq<char>),
}

impl View for Command {
    type V = CommandModel;

    open spec fn view(&self) -> CommandModel {
        match self {
            Command::DeviceList => CommandModel::DeviceList,
            Command::Attach(s) => CommandModel::Attach(s@),
            Command::AppVersion => CommandModel::AppVersion,
            Command::Name(s) => CommandModel::Name(s@),
            Command::Close => CommandModel::Close,
            Command::Info => CommandModel::Info,
            Command::Boot(s) => CommandModel::Boot(s@),
            Command::Menu => CommandModel::Menu,
            Command::Reset => CommandModel::Reset,
            Command::Binary => CommandModel::Binary,
            Command::Stream => CommandModel::Stream,
            Command::Fence => CommandModel::Fence,
            Command::GetAddress(a) => CommandModel::GetAddress(a@),
            Command::PutAddress(a) => CommandModel::PutAddress(a@),
            Command::PutIPS => CommandModel::PutIPS,
            Command::GetFile(s) => CommandModel::GetFile(s@),
            Command::PutFile((s, n)) => CommandModel::PutFile(s@, *n),
            Command::List(s) => CommandModel::List(s@),
            Command::Remove(s) => CommandModel::Remove(s@),
            Command::Rename((a, b)) => CommandModel::Rename(a@, b@),
            Command::MakeDir(s) => CommandModel::MakeDir(s@),
        }
    }
}

/// A parsed client request.
#[derive(Debug)]
pub struct Request {
    pub command: Command,
    pub space: Space,
    pub flags: Option<Flags>,
}

/// A request as mathematical values.
pub struct RequestModel {
    pub command: CommandModel,
    pub space: Space,
    pub flags: Option<Flags>,
}

impl View for Request {
    type V = RequestModel;

    open spec fn view(&self) -> RequestModel {
        RequestModel { command: self.command@, space: self.space, flags: self.flags }
    }
}

/// A request as it arrives in JSON: opcode, space, flag names, operands.
pub struct WSRequest {
    pub opcode: String,
    pub space: String,
    pub flags: Option<Vec<String>>,
    pub operands: Option<Vec<String>>,
}

/// The reply to a request, as it leaves in JSON.
pub struct WSResponse {
    pub results: Vec<String>,
}

/// The texts of an optional list of strings; no list reads as an empty one.
pub open spec fn texts(v: Option<Vec<String>>) -> Seq<Seq<char>> {
    match v {
        Some(v) => v@.map_values(|s: String| s@),
        None => Seq::empty(),
    }
}

/// The command that opcode `op` with operands `ops` denotes.
pub open spec fn spec_command(op: Seq<char>, ops: Seq<Seq<char>>) -> Result<CommandModel, Error> {
    if op == "DeviceList"@ {
        Ok(CommandModel::DeviceList)
    } else if op == "Attach"@ && ops.len() == 1 {
        Ok(CommandModel::Attach(ops[0]))
    } else if op == "AppVersion"@ {
        Ok(CommandModel::AppVersion)
    } else if op == "Name"@ && ops.len() == 1 {
        Ok(CommandModel::Name(ops[0]))
    } else if op == "Close"@ {
        Ok(CommandModel::Close)
    } else if op == "Info"@ {
        Ok(CommandModel::Info)
    } else if op == "Boot"@ && ops.len() == 1 {
        Ok(CommandModel::Boot(ops[0]))
    } else if op == "Menu"@ {
        Ok(CommandModel::Menu)
    } else if op == "Reset"@ {
        Ok(CommandModel::Reset)
    } else if op == "Binary"@ {
        Ok(CommandModel::Binary)
    } else if op == "Stream"@ {
        Ok(CommandModel::Stream)
    } else if op == "Fence"@ {
        Ok(CommandModel::Fence)
    } else if op == "GetAddress"@ && ops.len() >= 2 {
        match spec_from_operands(ops) {
            Ok(a) => Ok(CommandModel::GetAddress(a)),
            Err(e) => Err(e),
        }
    } else if op == "PutAddress"@ && ops.len() >= 2 {
        match spec_from_operands(ops) {
            Ok(a) => Ok(CommandModel::PutAddress(a)),
            Err(e) => Err(e),
        }
    } else if op == "PutIPS"@ {
        Ok(CommandModel::PutIPS)
    } else if op == "GetFile"@ && ops.len() == 1 {
        Ok(CommandModel::GetFile(ops[0]))
    } else if op == "PutFile"@ && ops.len() == 2 {
        match spec_parse_hex_usize(encode_utf8(ops[1])) {
            Some(n) => Ok(CommandModel::PutFile(ops[0], n)),
            None => Err(Error::InvalidNumber),
        }
    } else if op == "List"@ && ops.len() == 1 {
        Ok(CommandModel::List(ops[0]))
    } else if op == "Remove"@ && ops.len() == 1 {
        Ok(CommandModel::Remove(ops[0]))
    } else if op == "Rename"@ && ops.len() == 2 {
        Ok(CommandModel::Rename(ops[0], ops[1]))
    } else if op == "MakeDir"@ && ops.len() == 1 {
        Ok(CommandModel::MakeDir(ops[0]))
    } else {
        Err(Error::InvalidOpcode)
    }
}

/// The flags of a list of flag names: the union of the named flags, an
/// unknown name counting as no flag.
pub open spec fn spec_flags_union(names: Seq<Seq<char>>) -> u8
    decreases names.len(),
{
    if names.len() == 0 {
        0
    } else {
        let last = match spec_flag_named(names.last()) {
            Some(b) => b,
            None => FLAG_NONE,
        };
        if names.len() == 1 {
            last
        } else {
            spec_flags_union(names.drop_last()) | last
        }
    }
}

/// The flags of a request: none when no name is given.
pub open spec fn spec_request_flags(flags: Option<Vec<String>>) -> Option<Flags> {
    match flags {
        Some(v) => if v@.len() == 0 {
            None
        } else {
            Some(Flags { bits: spec_flags_union(v@.map_values(|s: String| s@)) })
        },
        None => None,
    }
}

/// The request that `wr` denotes: the opcode and its operands are checked
/// first, then the space.
pub open spec fn spec_from_wsrequest(wr: WSRequest) -> Result<RequestModel, Error> {
    match spec_command(wr.opcode@, texts(wr.operands)) {
        Err(e) => Err(e),
        Ok(c) => match spec_space_named(wr.space@) {
            None => Err(Error::InvalidSpace),
            Some(sp) => Ok(RequestModel { command: c, space: sp, flags: spec_request_flags(wr.flags) }),
        },
    }
}

/// Reading the address operands of `wr` would meet a lone trailing operand.
pub open spec fn wsrequest_lone_operand(wr: WSRequest) -> bool {
    &&& (wr.opcode@ == "GetAddress"@ || wr.opcode@ == "PutAddress"@)
    &&& texts(wr.operands).len() >= 2
    &&& operands_lone_last(texts(wr.operands))
}

/// The union of the flags named in `names`; unknown names add nothing.
fn flags_union(names: &Vec<String>) -> (r: Flags)
    requires
        names@.len() > 0,
    ensures
        r.bits == spec_flags_union(names@.map_values(|s: String| s@)),
{
    let ghost ns = names@.map_values(|s: String| s@);
    let mut acc = match Flags::from_str(names[0].as_str()) {
        Ok(f) => f,
        Err(_) => Flags { bits: FLAG_NONE },
    };
    let mut i: usize = 1;
    assert(ns.take(1).drop_last() =~= Seq::<Seq<char>>::empty());
    assert(ns.take(1).last() == ns[0]);
    while i < names.len()
        invariant
            ns == names@.map_values(|s: String| s@),
            1 <= i <= names.len(),
            acc.bits == spec_flags_union(ns.take(i as int)),
        decreases names.len() - i,
    {
        let f = match Flags::from_str(names[i].as_str()) {
            Ok(f) => f,
            Err(_) => Flags { bits: FLAG_NONE },
        };
        acc = acc.union(f);
        proof {
            assert(ns.take(i + 1).drop_last() =~= ns.take(i as int));
            assert(ns.take(i + 1).last() == ns[i as int]);
        }
        i = i + 1;
    }
    assert(ns.take(i as int) =~= ns);
    acc
}

impl Request {
    /// Checks and converts a request as it arrived in JSON.
    pub fn from_wsrequest(wr: &WSRequest) -> (r: Result<Request, Error>)
        requires
            !wsrequest_lone_operand(*wr),
        ensures
            match spec_from_wsrequest(*wr) {
                Ok(m) => r matches Ok(req) && req@ == m,
                Err(e) => r matches Err(re) && re == e,
            },
    {
        let empty: Vec<String> = Vec::new();
        let operands: &Vec<String> = match &wr.operands {
            Some(v) => v,
            None => &empty,
        };
        let ghost ops = operands@.map_values(|s: String| s@);
        assert(ops =~= texts(wr.operands));
        let n = operands.len();
        let op = wr.opcode.as_str();
        let command = if str_is(op, "DeviceList") {
            Command::DeviceList
        } else if str_is(op, "Attach") && n == 1 {
            Command::Attach(owned(operands[0].as_str()))
        } else if str_is(op, "AppVersion") {
            Command::AppVersion
        } else if str_is(op, "Name") && n == 1 {
            Command::Name(owned(operands[0].as_str()))
        } else if str_is(op, "Close") {
            Command::Close
        } else if str_is(op, "Info") {
            Command::Info
        } else if str_is(op, "Boot") && n == 1 {
            Command::Boot(owned(operands[0].as_str()))
        } else if str_is(op, "Menu") {
            Command::Menu
        } else if str_is(op, "Reset") {
            Command::Reset
        } else if str_is(op, "Binary") {
            Command::Binary
        } else if str_is(op, "Stream") {
            Command::Stream
        } else if str_is(op, "Fence") {
            Command::Fence
        } else if str_is(op, "GetAddress") && n >= 2 {
            match AddressInfo::from_operands(operands.as_slice()) {
                Ok(a) => Command::GetAddress(a),
                Err(e) => return Err(e),
            }
        } else if str_is(op, "PutAddress") && n >= 2 {
            match AddressInfo::from_operands(operands.as_slice()) {
                Ok(a) => Command::PutAddress(a),
                Err(e) => return Err(e),
            }
        } else if str_is(op, "PutIPS") {
            Command::PutIPS
        } else if str_is(op, "GetFile") && n == 1 {
            Command::GetFile(owned(operands[0].as_str()))
        } else if str_is(op, "PutFile") && n == 2 {
            match parse_hex_usize(operands[1].as_str().as_bytes()) {
                Some(size) => Command::PutFile((owned(operands[0].as_str()), size)),
                None => return Err(Error::InvalidNumber),
            }
        } else if str_is(op, "List") && n == 1 {
            Command::List(owned(operands[0].as_str()))
        } else if str_is(op, "Remove") && n == 1 {
            Command::Remove(owned(operands[0].as_str()))
        } else if str_is(op, "Rename") && n == 2 {
            Command::Rename((owned(operands[0].as_str()), owned(operands[1].as_str())))
        } else if str_is(op, "MakeDir") && n == 1 {
            Command::MakeDir(owned(operands[0].as_str()))
        } else {
            return Err(Error::InvalidOpcode);
        };
        let space = match Space::from_str(wr.space.as_str()) {
            Ok(s) => s,
            Err(e) => return Err(e),
        };
        let flags = match &wr.flags {
            Some(fl) => if fl.len() == 0 {
                None
            } else {
                Some(flags_union(fl))
            },
            None => None,
        };
        Ok(Request { command, space, flags })
    }
}

/// The lengths of the accesses, each read as a `usize`, added.
pub open spec fn sum_sizes(l: Seq<AddressInfo>) -> int
    decreases l.len(),
{
    if l.len() == 0 {
        0
    } else {
        sum_sizes(l.drop_last()) + (l.last().size as usize) as int
    }
}

proof fn lemma_sum_sizes_prefix(l: Seq<AddressInfo>, k: int)
    requires
        0 <= k <= l.len(),
    ensures
        0 <= sum_sizes(l.take(k)) <= sum_sizes(l),
    decreases l.len(),
{
    if k == l.len() {
        assert(l.take(k) =~= l);
        if l.len() > 0 {
            lemma_sum_sizes_prefix(l.drop_last(), l.len() - 1);
            assert(l.drop_last().take(l.len() - 1) =~= l.drop_last());
        }
    } else {
        lemma_sum_sizes_prefix(l.drop_last(), k);
        assert(l.drop_last().take(k) =~= l.take(k));
    }
}

/// The number of bytes that a list of accesses moves: their lengths, each
/// read as a `usize`, added.
pub fn data_size(addr_info: &Vec<AddressInfo>) -> (r: usize)
    requires
        sum_sizes(addr_info@) <= usize::MAX,
    ensures
        r == sum_sizes(addr_info@),
{
    let mut data: usize = 0;
    let mut i: usize = 0;
    assert(addr_info@.take(0) =~= Seq::<AddressInfo>::empty());
    while i < addr_info.len()
        invariant
            i <= addr_info@.len(),
            sum_sizes(addr_info@) <= usize::MAX,
            data == sum_sizes(addr_info@.take(i as int)),
        decreases addr_info.len() - i,
    {
        let s = addr_info[i].size as usize;
        proof {
            let t = addr_info@.take(i + 1);
            assert(t.drop_last() =~= addr_info@.take(i as int));
            assert(t.last() == addr_info@[i as int]);
            lemma_sum_sizes_prefix(addr_info@, i + 1);
        }
        data = data + s;
        i = i + 1;
    }
    assert(addr_info@.take(i as int) =~= addr_info@);
    data
}


proof fn lemma_from_operands_step(ops: Seq<Seq<char>>, i: int)
    requires
        0 <= i,
        i + 2 <= ops.len(),
    ensures
        (spec_from_operands(ops.skip(i)) is Ok) == (spec_create(encode_utf8(ops[i]), encode_utf8(ops[i + 1])) is Ok
            && spec_from_operands(ops.skip(i + 2)) is Ok),
{
    let tail = ops.skip(i);
    assert(tail[0] == ops[i]);
    assert(tail[1] == ops[i + 1]);
    assert(tail.skip(2) =~= ops.skip(i + 2));
}

/// Whether every `(address, size)` pair of `operands` is valid.
fn pairs_valid(operands: &[String]) -> (r: bool)
    ensures
        r == (spec_from_operands(operands@.map_values(|s: String| s@)) is Ok),
{
    let ghost ops = operands@.map_values(|s: String| s@);
    let mut i: usize = 0;
    assert(ops.skip(0) =~= ops);
    while i < operands.len() && operands.len() - i >= 2
        invariant
            ops == operands@.map_values(|s: String| s@),
            i <= operands@.len(),
            (spec_from_operands(ops) is Ok) == (spec_from_operands(ops.skip(i as int)) is Ok),
        decreases operands.len() - i,
    {
        proof {
            lemma_from_operands_step(ops, i as int);
        }
        match AddressInfo::create(operands[i].as_str(), operands[i + 1].as_str()) {
            Ok(_) => {},
            Err(_) => return false,
        }
        i = i + 2;
    }
    assert(ops.skip(i as int).len() < 2);
    true
}

impl Request {
    /// Whether the request is an address list whose pairs are all valid but
    /// whose last operand has no size: what `from_wsrequest` cannot read.
    pub fn has_lone_operand(wr: &WSRequest) -> (r: bool)
        ensures
            r == wsrequest_lone_operand(*wr),
    {
        let is_addr = str_is(wr.opcode.as_str(), "GetAddress") || str_is(wr.opcode.as_str(), "PutAddress");
        match &wr.operands {
            None => false,
            Some(v) => is_addr && v.len() >= 2 && v.len() % 2 == 1 && pairs_valid(v.as_slice()),
        }
    }
}


/// The address that an operand pair denotes, when it denotes one.
pub open spec fn pair_create(ops: Seq<Seq<char>>, i: int) -> Result<AddressInfo, Error> {
    spec_create(encode_utf8(ops[2 * i]), encode_utf8(ops[2 * i + 1]))
}

/// Operands read in pairs, none left over: they are accepted just when
/// every pair is a valid address and size, and then each pair becomes one
/// access, in order, half as many accesses as operands.
pub proof fn lemma_operands_pairwise(ops: Seq<Seq<char>>)
    requires
        ops.len() % 2 == 0,
    ensures
        (spec_from_operands(ops) is Ok) <==> (forall|i: int| 0 <= i < ops.len() / 2 ==> #[trigger] pair_create(ops, i) is Ok),
        spec_from_operands(ops) matches Ok(v) ==> {
            &&& v.len() == ops.len() / 2
            &&& forall|i: int| 0 <= i < v.len() ==> #[trigger] v[i] == pair_create(ops, i)->Ok_0
        },
    decreases ops.len(),
{
    if ops.len() > 0 {
        let rest = ops.skip(2);
        lemma_operands_pairwise(rest);
        assert forall|j: int| 0 <= j < rest.len() / 2 implies #[trigger] pair_create(rest, j) == pair_create(ops, j + 1) by {
            assert(rest[2 * j] == ops[2 * j + 2]);
            assert(rest[2 * j + 1] == ops[2 * j + 3]);
        }
        assert(rest.len() / 2 == ops.len() / 2 - 1);
        match pair_create(ops, 0) {
            Err(_) => {},
            Ok(a) => {
                match spec_from_operands(rest) {
                    Err(_) => {
                        let j = choose|j: int| 0 <= j < rest.len() / 2 && !(#[trigger] pair_create(rest, j) is Ok);
                        assert(!(pair_create(ops, j + 1) is Ok));
                    },
                    Ok(rv) => {
                        assert forall|i: int| 0 <= i < ops.len() / 2 implies #[trigger] pair_create(ops, i) is Ok by {
                            if i > 0 {
                                assert(pair_create(rest, i - 1) is Ok);
                            }
                        }
                        let v = spec_from_operands(ops).unwrap();
                        assert(v == seq![a] + rv);
                        assert forall|i: int| 0 <= i < v.len() implies #[trigger] v[i] == pair_create(ops, i)->Ok_0 by {
                            if i > 0 {
                                assert(v[i] == rv[i - 1]);
                                assert(pair_create(rest, i - 1) == pair_create(ops, i));
                            }
                        }
                    },
                }
            },
        }
    }
}


/// The opcode name under which a client sends a command.
pub open spec fn command_name(c: CommandModel) -> Seq<char> {
    match c {
        CommandModel::DeviceList => "DeviceList"@,
        CommandModel::Attach(_) => "Attach"@,
        CommandModel::AppVersion => "AppVersion"@,
        CommandModel::Name(_) => "Name"@,
        CommandModel::Close => "Close"@,
        CommandModel::Info => "Info"@,
        CommandModel::Boot(_) => "Boot"@,
        CommandModel::Menu => "Menu"@,
        CommandModel::Reset => "Reset"@,
        CommandModel::Binary => "Binary"@,
        CommandModel::Stream => "Stream"@,
        CommandModel::Fence => "Fence"@,
        CommandModel::GetAddress(_) => "GetAddress"@,
        CommandModel::PutAddress(_) => "PutAddress"@,
        CommandModel::PutIPS => "PutIPS"@,
        CommandModel::GetFile(_) => "GetFile"@,
        CommandModel::PutFile(_, _) => "PutFile"@,
        CommandModel::List(_) => "List"@,
        CommandModel::Remove(_) => "Remove"@,
        CommandModel::Rename(_, _) => "Rename"@,
        CommandModel::MakeDir(_) => "MakeDir"@,
    }
}

/// The operands with which a client sends a command, for the commands whose
/// operands are texts taken as they are.
pub open spec fn command_texts(c: CommandModel) -> Option<Seq<Seq<char>>> {
    match c {
        CommandModel::Attach(n) | CommandModel::Name(n) | CommandModel::Boot(n) | CommandModel::GetFile(n)
        | CommandModel::List(n) | CommandModel::Remove(n) | CommandModel::MakeDir(n) => Some(seq![n]),
        CommandModel::Rename(a, b) => Some(seq![a, b]),
        CommandModel::GetAddress(_) | CommandModel::PutAddress(_) | CommandModel::PutFile(_, _) => None,
        _ => Some(Seq::empty()),
    }
}

/// The opcode name fixes the command: whatever a request's operands, the
/// command read from it is the one that travels under that name.
pub proof fn lemma_opcode_names(op: Seq<char>, ops: Seq<Seq<char>>)
    ensures
        spec_command(op, ops) matches Ok(c) ==> command_name(c) == op,
{
}

/// The opcode names differ pairwise, each in its length or in one letter.
proof fn lemma_opcode_spellings()
    ensures
        "DeviceList"@.len() == 10 && "DeviceList"@[0] == 'D',
        "Attach"@.len() == 6 && "Attach"@[0] == 'A',
        "AppVersion"@.len() == 10 && "AppVersion"@[0] == 'A',
        "Name"@.len() == 4 && "Name"@[0] == 'N',
        "Close"@.len() == 5 && "Close"@[0] == 'C',
        "Info"@.len() == 4 && "Info"@[0] == 'I',
        "Boot"@.len() == 4 && "Boot"@[0] == 'B',
        "Menu"@.len() == 4 && "Menu"@[0] == 'M',
        "Reset"@.len() == 5 && "Reset"@[0] == 'R',
        "Binary"@.len() == 6 && "Binary"@[0] == 'B',
        "Stream"@.len() == 6 && "Stream"@[0] == 'S',
        "Fence"@.len() == 5 && "Fence"@[0] == 'F',
        "GetAddress"@.len() == 10 && "GetAddress"@[0] == 'G',
        "PutAddress"@.len() == 10 && "PutAddress"@[0] == 'P',
        "PutIPS"@.len() == 6 && "PutIPS"@[0] == 'P',
        "GetFile"@.len() == 7 && "GetFile"@[0] == 'G',
        "PutFile"@.len() == 7 && "PutFile"@[0] == 'P',
        "List"@.len() == 4 && "List"@[0] == 'L',
        "Remove"@.len() == 6 && "Remove"@[0] == 'R' && "Remove"@[2] == 'm',
        "Rename"@.len() == 6 && "Rename"@[0] == 'R' && "Rename"@[2] == 'n',
        "MakeDir"@.len() == 7 && "MakeDir"@[0] == 'M',
{
    reveal_strlit("DeviceList");
    reveal_strlit("Attach");
    reveal_strlit("AppVersion");
    reveal_strlit("Name");
    reveal_strlit("Close");
    reveal_strlit("Info");
    reveal_strlit("Boot");
    reveal_strlit("Menu");
    reveal_strlit("Reset");
    reveal_strlit("Binary");
    reveal_strlit("Stream");
    reveal_strlit("Fence");
    reveal_strlit("GetAddress");
    reveal_strlit("PutAddress");
    reveal_strlit("PutIPS");
    reveal_strlit("GetFile");
    reveal_strlit("PutFile");
    reveal_strlit("List");
    reveal_strlit("Remove");
    reveal_strlit("Rename");
    reveal_strlit("MakeDir");
}

/// A command sent under its own name, with its text operands, is read back
/// as that very command.
pub proof fn lemma_command_round_trip(c: CommandModel)
    requires
        command_texts(c) is Some,
    ensures
        spec_command(command_name(c), command_texts(c).unwrap()) == Ok::<CommandModel, Error>(c),
{
    lemma_opcode_spellings();
    match c {
        CommandModel::Attach(n) | CommandModel::Name(n) | CommandModel::Boot(n) | CommandModel::GetFile(n)
        | CommandModel::List(n) | CommandModel::Remove(n) | CommandModel::MakeDir(n) => {
            assert(seq![n].len() == 1 && seq![n][0] == n);
        },
        CommandModel::Rename(a, b) => {
            assert(seq![a, b].len() == 2 && seq![a, b][0] == a && seq![a, b][1] == b);
        },
        _ => {},
    }
}


/// Where an address falls: below 0xE00000 it is cartridge ROM at the same
/// offset, from 0xE00000 below 0xF50000 cartridge RAM, from 0xF50000 on work
/// RAM, each at its offset from the start of its domain. The address as
/// written and the size are kept.
pub proof fn lemma_address_domains(a: i64, size: i64)
    ensures
        spec_classify(a, size).orig_address == a,
        spec_classify(a, size).size == size,
        a < 0xE00000 ==> spec_classify(a, size).domain == MemoryDomain::CARTROM
            && spec_classify(a, size).address == a,
        0xE00000 <= a < 0xF50000 ==> spec_classify(a, size).domain == MemoryDomain::CARTRAM
            && spec_classify(a, size).address == a - 0xE00000,
        0xF50000 <= a ==> spec_classify(a, size).domain == MemoryDomain::WRAM
            && spec_classify(a, size).address == a - 0xF50000,
{
}

/// The name under which a client asks for a space.
pub open spec fn space_name(sp: Space) -> Seq<char> {
    match sp {
        Space::FILE => "FILE"@,
        Space::SNES => "SNES"@,
        Space::MSU => "MSU"@,
        Space::CMD => "CMD"@,
        Space::CONFIG => "CONFIG"@,
    }
}

/// The space names differ pairwise, in length or first letter.
proof fn lemma_space_spellings()
    ensures
        "FILE"@.len() == 4 && "FILE"@[0] == 'F',
        "SNES"@.len() == 4 && "SNES"@[0] == 'S',
        "MSU"@.len() == 3 && "MSU"@[0] == 'M',
        "CMD"@.len() == 3 && "CMD"@[0] == 'C',
        "CONFIG"@.len() == 6 && "CONFIG"@[0] == 'C',
{
    reveal_strlit("FILE");
    reveal_strlit("SNES");
    reveal_strlit("MSU");
    reveal_strlit("CMD");
    reveal_strlit("CONFIG");
}

/// Each space is read back from its own name, and a name that is read as a
/// space is that space's name.
pub proof fn lemma_space_names(sp: Space, s: Seq<char>)
    ensures
        spec_space_named(space_name(sp)) == Some(sp),
        spec_space_named(s) matches Some(t) ==> s == space_name(t),
{
    lemma_space_spellings();
}

/// The flag names differ pairwise, in length or first letter.
proof fn lemma_flag_spellings()
    ensures
        "NONE"@.len() == 4 && "NONE"@[0] == 'N',
        "SKIPRESET"@.len() == 9 && "SKIPRESET"@[0] == 'S',
        "ONLYRESET"@.len() == 9 && "ONLYRESET"@[0] == 'O',
        "CLRX"@.len() == 4 && "CLRX"@[0] == 'C',
        "SETX"@.len() == 4 && "SETX"@[0] == 'S',
        "STREAM_BURST"@.len() == 12 && "STREAM_BURST"@[0] == 'S',
        "NORESP"@.len() == 6 && "NORESP"@[0] == 'N',
        "DATA64B"@.len() == 7 && "DATA64B"@[0] == 'D',
{
    reveal_strlit("NONE");
    reveal_strlit("SKIPRESET");
    reveal_strlit("ONLYRESET");
    reveal_strlit("CLRX");
    reveal_strlit("SETX");
    reveal_strlit("STREAM_BURST");
    reveal_strlit("NORESP");
    reveal_strlit("DATA64B");
}

/// Each flag name stands for its own bit: NONE for no bit, SKIPRESET 0x01,
/// ONLYRESET 0x02, CLRX 0x04, SETX 0x08, STREAM_BURST 0x10, NORESP 0x40 and
/// DATA64B 0x80; two different names share no bit.
pub proof fn lemma_flag_names(s: Seq<char>, t: Seq<char>)
    ensures
        spec_flag_named("NONE"@) == Some(0u8),
        spec_flag_named("SKIPRESET"@) == Some(1u8),
        spec_flag_named("ONLYRESET"@) == Some(2u8),
        spec_flag_named("CLRX"@) == Some(4u8),
        spec_flag_named("SETX"@) == Some(8u8),
        spec_flag_named("STREAM_BURST"@) == Some(16u8),
        spec_flag_named("NORESP"@) == Some(64u8),
        spec_flag_named("DATA64B"@) == Some(128u8),
        (spec_flag_named(s) is Some && spec_flag_named(t) is Some && s != t)
            ==> spec_flag_named(s).unwrap() & spec_flag_named(t).unwrap() == 0,
{
    lemma_flag_spellings();
    let b: u8 = match spec_flag_named(s) {
        Some(b) => b,
        None => 0,
    };
    let c: u8 = match spec_flag_named(t) {
        Some(c) => c,
        None => 0,
    };
    assert(b & c == 0 || b == c || !((b == 0 || b == 1 || b == 2 || b == 4 || b == 8 || b == 16 || b == 64 || b == 128)
        && (c == 0 || c == 1 || c == 2 || c == 4 || c == 8 || c == 16 || c == 64 || c == 128))) by (bit_vector);
}

/// The bits of a name, or none for an unknown name.
pub open spec fn named_bits(s: Seq<char>) -> u8 {
    match spec_flag_named(s) {
        Some(b) => b,
        None => 0,
    }
}

proof fn lemma_or_facts(a: u8, b: u8, x: u8, m: u8)
    ensures
        a & x == x ==> (a | b) & x == x,
        (a | b) & b == b,
        (a | m == m && b | m == m) ==> (a | b) | m == m,
        0u8 | m == m,
{
    assert(a & x == x ==> (a | b) & x == x) by (bit_vector);
    assert((a | b) & b == b) by (bit_vector);
    assert((a | m == m && b | m == m) ==> (a | b) | m == m) by (bit_vector);
    assert(0u8 | m == m) by (bit_vector);
}

/// The flags of a list of names are exactly the bits that its names stand
/// for: every named flag is among them, and no bit is set that no name
/// stands for (any set of bits that holds every named flag holds them all).
pub proof fn lemma_flags_union(names: Seq<Seq<char>>, m: u8)
    ensures
        forall|i: int| 0 <= i < names.len() ==> spec_flags_union(names) & #[trigger] named_bits(names[i]) == named_bits(names[i]),
        (forall|i: int| 0 <= i < names.len() ==> #[trigger] named_bits(names[i]) | m == m) ==> spec_flags_union(names) | m == m,
    decreases names.len(),
{
    if names.len() == 0 {
        lemma_or_facts(0, 0, 0, m);
    } else if names.len() == 1 {
        lemma_or_facts(0, named_bits(names[0]), 0, m);
        assert(named_bits(names[0]) & named_bits(names[0]) == named_bits(names[0])) by (bit_vector);
    } else {
        let init = names.drop_last();
        let last = named_bits(names.last());
        lemma_flags_union(init, m);
        let u = spec_flags_union(init);
        assert(spec_flags_union(names) == u | last);
        assert forall|i: int| 0 <= i < names.len() implies spec_flags_union(names) & #[trigger] named_bits(names[i]) == named_bits(names[i]) by {
            if i < names.len() - 1 {
                assert(init[i] == names[i]);
                lemma_or_facts(u, last, named_bits(names[i]), m);
            } else {
                lemma_or_facts(u, last, 0, m);
            }
        }
        if forall|i: int| 0 <= i < names.len() ==> #[trigger] named_bits(names[i]) | m == m {
            assert forall|i: int| 0 <= i < init.len() implies #[trigger] named_bits(init[i]) | m == m by {
                assert(init[i] == names[i]);
            }
            assert(named_bits(names[names.len() - 1]) | m == m);
            lemma_or_facts(u, last, 0, m);
        }
    }
}

/// The opcodes in the order in which the device numbers them.
pub open spec fn opcode_list() -> Seq<Opcode> {
    seq![Opcode::GET, Opcode::PUT, Opcode::VGET, Opcode::VPUT, Opcode::LS, Opcode::MKDIR, Opcode::RM, Opcode::MV, Opcode::RESET, Opcode::BOOT, Opcode::POWER_CYCLE, Opcode::INFO, Opcode::MENU_RESET, Opcode::STREAM, Opcode::TIME, Opcode::RESPONSE, Opcode::NONE]
}

/// The spaces in the order in which the device numbers them.
pub open spec fn space_list() -> Seq<Space> {
    seq![Space::FILE, Space::SNES, Space::MSU, Space::CMD, Space::CONFIG]
}

/// The byte of an opcode in a device command is its position in the
/// device's list, and the byte of a space likewise; so no two opcodes, and
/// no two spaces, share a byte.
pub proof fn lemma_device_codes(op: Opcode, other: Opcode, sp: Space, other_sp: Space)
    ensures
        forall|i: int| 0 <= i < opcode_list().len() ==> spec_opcode_code(#[trigger] opcode_list()[i]) == i,
        forall|i: int| 0 <= i < space_list().len() ==> spec_space_code(#[trigger] space_list()[i]) == i,
        opcode_list().contains(op),
        space_list().contains(sp),
        spec_opcode_code(op) == spec_opcode_code(other) ==> op == other,
        spec_space_code(sp) == spec_space_code(other_sp) ==> sp == other_sp,
{
    assert(opcode_list().len() == 17);
    assert(space_list().len() == 5);
    assert(opcode_list()[spec_opcode_code(op) as int] == op);
    assert(space_list()[spec_space_code(sp) as int] == sp);
}

} // verus!
