//! A device run by a Lua script that connects to the local Lua port.
use vstd::prelude::*;

use crate::protocol::AddressInfo;
use crate::text::{all_ascii, ascii_chars, ascii_string};
use crate::hex::{hex_digit_value, hex_digits_value};
use vstd::arithmetic::power::pow;

verus! {

/// The local TCP port on which Lua scripts connect.
pub const LUA_PORT: u16 = 4141;

/// A lower-case hexadecimal digit.
pub open spec fn lower_hex_char(d: int) -> u8 {
    if d < 10 { (0x30 + d) as u8 } else { (0x61 + d - 10) as u8 }
}

/// The last `n` hexadecimal digits of `v`, most significant first, with
/// leading zeros.
pub open spec fn hex_digits_n(v: nat, n: nat) -> Seq<u8>
    decreases n,
{
    if n == 0 {
        Seq::empty()
    } else {
        hex_digits_n(v / 16, (n - 1) as nat).push(lower_hex_char((v % 16) as int))
    }
}

/// How an id prints in its hyphenated form: its 32 lower-case hexadecimal
/// digits, most significant first, in groups of 8, 4, 4, 4 and 12.
pub open spec fn spec_hyphenated(id: u128) -> Seq<u8> {
    let d = hex_digits_n(id as nat, 32);
    d.subrange(0, 8) + seq![0x2Du8] + d.subrange(8, 12) + seq![0x2Du8] + d.subrange(12, 16) + seq![0x2Du8]
        + d.subrange(16, 20) + seq![0x2Du8] + d.subrange(20, 32)
}

proof fn lemma_hex_digits_n(v: nat, n: nat)
    ensures
        hex_digits_n(v, n).len() == n,
        all_ascii(hex_digits_n(v, n)),
    decreases n,
{
    if n > 0 {
        lemma_hex_digits_n(v / 16, (n - 1) as nat);
    }
}

/// The last `n` digits of `v` are worth `v` modulo `16^n`.
proof fn lemma_hex_digits_n_value(v: nat, n: nat)
    ensures
        hex_digits_value(hex_digits_n(v, n)) == Some(v as int % pow(16, n)),
        pow(16, n) > 0,
    decreases n,
{
    reveal(pow);
    if n == 0 {
        assert(hex_digits_n(v, n) =~= Seq::<u8>::empty());
        assert(v as int % 1 == 0);
    } else {
        let m = (n - 1) as nat;
        lemma_hex_digits_n_value(v / 16, m);
        let d = hex_digits_n(v, n);
        assert(d.drop_last() =~= hex_digits_n(v / 16, m));
        assert(hex_digit_value(lower_hex_char((v % 16) as int)) == Some((v % 16) as int));
        vstd::arithmetic::div_mod::lemma_breakdown(v as int, 16, pow(16, m));
        assert(pow(16, n) == 16 * pow(16, m));
    }
}

/// An id's hyphenated form is 36 characters: hyphens at 8, 13, 18 and 23,
/// and between them the 32 hexadecimal digits that read back as the id; so
/// two different ids never print alike.
pub proof fn lemma_hyphenated_reads_back(id: u128, other: u128)
    ensures
        spec_hyphenated(id).len() == 36,
        spec_hyphenated(id)[8] == 0x2D && spec_hyphenated(id)[13] == 0x2D && spec_hyphenated(id)[18] == 0x2D
            && spec_hyphenated(id)[23] == 0x2D,
        ({
            let s = spec_hyphenated(id);
            hex_digits_value(s.subrange(0, 8) + s.subrange(9, 13) + s.subrange(14, 18) + s.subrange(19, 23) + s.subrange(24, 36))
                == Some(id as int)
        }),
        spec_hyphenated(id) == spec_hyphenated(other) ==> id == other,
{
    assert forall|x: u128| #![trigger spec_hyphenated(x)] {
        let s = spec_hyphenated(x);
        &&& s.len() == 36
        &&& hex_digits_value(s.subrange(0, 8) + s.subrange(9, 13) + s.subrange(14, 18) + s.subrange(19, 23) + s.subrange(24, 36))
            == Some(x as int)
    } by {
        let s = spec_hyphenated(x);
        lemma_hex_digits_n(x as nat, 32);
        lemma_hex_digits_n_value(x as nat, 32);
        assert(pow(16, 32) == 0x1_0000_0000_0000_0000_0000_0000_0000_0000) by {
            reveal_with_fuel(pow, 33);
        }
        assert(s.subrange(0, 8) + s.subrange(9, 13) + s.subrange(14, 18) + s.subrange(19, 23) + s.subrange(24, 36)
            =~= hex_digits_n(x as nat, 32));
    }
    lemma_hex_digits_n(id as nat, 32);
}

/// Appends the last `n` hexadecimal digits of `v`.
fn push_hex_n(out: &mut Vec<u8>, v: u128, n: usize)
    ensures
        final(out)@ == old(out)@ + hex_digits_n(v as nat, n as nat),
    decreases n,
{
    if n > 0 {
        push_hex_n(out, v / 16, n - 1);
        let d = (v % 16) as u8;
        out.push(if d < 10 { 0x30 + d } else { 0x61 + d - 10 });
        assert(out@ =~= old(out)@ + hex_digits_n(v as nat, n as nat));
    }
}

/// Appends `d[from..to]`.
fn push_range(out: &mut Vec<u8>, d: &Vec<u8>, from: usize, to: usize)
    requires
        from <= to <= d@.len(),
    ensures
        final(out)@ == old(out)@ + d@.subrange(from as int, to as int),
{
    let mut i = from;
    while i < to
        invariant
            from <= i <= to <= d@.len(),
            out@ == old(out)@ + d@.subrange(from as int, i as int),
        decreases to - i,
    {
        out.push(d[i]);
        i = i + 1;
        assert(out@ =~= old(out)@ + d@.subrange(from as int, i as int));
    }
}

/// The hyphenated form of an id.
pub fn hyphenated(id: u128) -> (r: String)
    ensures
        r@ == ascii_chars(spec_hyphenated(id)),
        r@.len() == 36,
{
    let mut d: Vec<u8> = Vec::new();
    push_hex_n(&mut d, id, 32);
    proof {
        lemma_hex_digits_n(id as nat, 32);
        assert(d@ =~= hex_digits_n(id as nat, 32));
    }
    let mut out: Vec<u8> = Vec::new();
    push_range(&mut out, &d, 0, 8);
    out.push(0x2D);
    push_range(&mut out, &d, 8, 12);
    out.push(0x2D);
    push_range(&mut out, &d, 12, 16);
    out.push(0x2D);
    push_range(&mut out, &d, 16, 20);
    out.push(0x2D);
    push_range(&mut out, &d, 20, 32);
    assert(out@ =~= spec_hyphenated(id));
    assert(all_ascii(out@)) by {
        assert forall|i: int| 0 <= i < out@.len() implies out@[i] < 128 by {
            if i < 8 {
                assert(out@[i] == d@[i]);
            } else if 8 < i < 13 {
                assert(out@[i] == d@[i - 1]);
            } else if 13 < i < 18 {
                assert(out@[i] == d@[i - 2]);
            } else if 18 < i < 23 {
                assert(out@[i] == d@[i - 3]);
            } else if 23 < i {
                assert(out@[i] == d@[i - 4]);
            }
        }
    }
    ascii_string(out.as_slice())
}

/// A Lua script's connection: it answers an info request and reads of
/// memory with zeros.
pub struct Lua<S> {
    pub id: u128,
    pub name: String,
    pub stream: S,
    pub addr: String,
}

/// The manager of the Lua connections.
pub struct LuaManager {}

impl<S> Lua<S> {
    /// A device named `LuaDevice <id> :: <addr>`: the id in its hyphenated
    /// form, `addr` the text of the peer's socket address.
    pub fn new(id: u128, stream: S, addr: String) -> (r: Self)
        ensures
            r.id == id,
            r.stream == stream,
            r.addr@ == addr@,
            r.name@ == "LuaDevice "@ + ascii_chars(spec_hyphenated(id)) + " :: "@ + addr@,
    {
        let text = hyphenated(id);
        let mut name = "LuaDevice ".to_owned();
        name.append(text.as_str());
        name.append(" :: ");
        name.append(addr.as_str());
        Self { id, name, stream, addr }
    }

    /// The answer to an info request.
    pub fn info_strings(&self) -> (r: Vec<String>)
        ensures
            r@.map_values(|s: String| s@) == seq!["1.0"@, "0000"@, "n/a"@, self.name@],
    {
        let mut v: Vec<String> = Vec::new();
        v.push("1.0".to_owned());
        v.push("0000".to_owned());
        v.push("n/a".to_owned());
        v.push(self.name.clone());
        assert(v@.map_values(|s: String| s@) =~= seq!["1.0"@, "0000"@, "n/a"@, self.name@]);
        v
    }

    /// The answer to a read: as many zero bytes as the first access asks for.
    pub fn read_reply(addr_info: &Vec<AddressInfo>) -> (r: Vec<u8>)
        requires
            addr_info@.len() > 0,
            0 <= addr_info@[0].size <= usize::MAX,
        ensures
            r@ == Seq::new(addr_info@[0].size as nat, |i: int| 0u8),
    {
        let n = addr_info[0].size as usize;
        let mut v: Vec<u8> = Vec::new();
        let mut i: usize = 0;
        while i < n
            invariant
                i <= n,
                v@ == Seq::new(i as nat, |j: int| 0u8),
            decreases n - i,
        {
            v.push(0);
            i = i + 1;
            assert(v@ =~= Seq::new(i as nat, |j: int| 0u8));
        }
        v
    }
}

} // verus!
