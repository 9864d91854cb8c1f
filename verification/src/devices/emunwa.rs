//! An emulator that speaks the EmuNWA network protocol.
use vstd::prelude::*;
use vstd::utf8::encode_utf8;

use crate::error::Error;
use crate::protocol::{AddressInfo, Command, CommandModel, MemoryDomain};
use crate::text::{is_white, white_char, join, ascii_chars, ascii_string, decimal_i64, decimal_digits, lemma_decimal_ascii, push_decimal_i64};
use uuid::Uuid;

verus! {

/// A record of an ASCII reply: its `key:value` pairs, keys all different.
pub type Record = Vec<(String, String)>;

/// A record as mathematical values.
pub open spec fn record_view(r: Vec<(String, String)>) -> Seq<(Seq<char>, Seq<char>)> {
    r@.map_values(|p: (String, String)| (p.0@, p.1@))
}

/// Records as mathematical values.
pub open spec fn records_view(rs: Vec<Vec<(String, String)>>) -> Seq<Seq<(Seq<char>, Seq<char>)>> {
    rs@.map_values(|r: Vec<(String, String)>| record_view(r))
}

/// The reply to a command.
#[derive(Debug)]
pub enum CommandResponse {
    /// `key:value` lines, grouped into records.
    Ascii(Vec<Vec<(String, String)>>),
    /// A binary block of this many bytes follows.
    Binary(usize),
    /// No reply was asked for.
    Nothing,
}

/// Every character is white space (so the line trims to nothing).
pub open spec fn blank(l: Seq<char>) -> bool {
    forall|i: int| 0 <= i < l.len() ==> is_white(#[trigger] l[i])
}

/// The index of the first `:` in `l`, if any.
pub open spec fn first_colon(l: Seq<char>) -> Option<int>
    decreases l.len(),
{
    if l.len() == 0 {
        None
    } else if l[0] == ':' {
        Some(0)
    } else {
        match first_colon(l.drop_first()) {
            Some(k) => Some(k + 1),
            None => None,
        }
    }
}

/// Whether some pair of `r` has the key `k`.
pub open spec fn has_key(r: Seq<(Seq<char>, Seq<char>)>, k: Seq<char>) -> bool {
    exists|i: int| 0 <= i < r.len() && (#[trigger] r[i]).0 == k
}

/// Records read so far: those complete, the one being filled.
pub type Reading = (Seq<Seq<(Seq<char>, Seq<char>)>>, Seq<(Seq<char>, Seq<char>)>);

/// Takes one line into the records: blank lines are skipped; any other line
/// is `key:value` at its first colon, and a key already in the current record
/// starts a new one.
pub open spec fn take_line(st: Reading, l: Seq<char>) -> Result<Reading, Error> {
    if blank(l) {
        Ok(st)
    } else {
        match first_colon(l) {
            None => Err(Error::ResponseLineWithoutKey),
            Some(k) => {
                let pair = (l.take(k), l.skip(k + 1));
                if has_key(st.1, pair.0) {
                    Ok((st.0.push(st.1), seq![pair]))
                } else {
                    Ok((st.0, st.1.push(pair)))
                }
            },
        }
    }
}

/// Reads `s` character by character: the records so far and the line not
/// yet ended.
pub open spec fn scan_reply(s: Seq<char>) -> Result<(Reading, Seq<char>), Error>
    decreases s.len(),
{
    if s.len() == 0 {
        Ok(((Seq::empty(), Seq::empty()), Seq::empty()))
    } else {
        match scan_reply(s.drop_last()) {
            Err(e) => Err(e),
            Ok((st, line)) => if s.last() == '\n' {
                match take_line(st, line) {
                    Err(e) => Err(e),
                    Ok(st2) => Ok((st2, Seq::empty())),
                }
            } else {
                Ok((st, line.push(s.last())))
            },
        }
    }
}

/// The records of an ASCII reply; the reply must end with a newline.
pub open spec fn spec_parse_ascii(s: Seq<char>) -> Result<Seq<Seq<(Seq<char>, Seq<char>)>>, Error> {
    if s.len() == 0 || s.last() != '\n' {
        Err(Error::ResponseNotTerminated)
    } else {
        match scan_reply(s) {
            Err(e) => Err(e),
            Ok((st, _)) => Ok(if st.1.len() > 0 { st.0.push(st.1) } else { st.0 }),
        }
    }
}

/// Whether `l` is blank.
fn is_blank(l: &str) -> (r: bool)
    ensures
        r == blank(l@),
{
    let n = l.unicode_len();
    let mut i: usize = 0;
    while i < n
        invariant
            n == l@.len(),
            i <= n,
            forall|j: int| 0 <= j < i ==> is_white(#[trigger] l@[j]),
        decreases n - i,
    {
        if !white_char(l.get_char(i)) {
            return false;
        }
        i = i + 1;
    }
    true
}

proof fn lemma_first_colon(l: Seq<char>, k: int)
    requires
        0 <= k <= l.len(),
        forall|j: int| 0 <= j < k ==> #[trigger] l[j] != ':',
    ensures
        k < l.len() && l[k] == ':' ==> first_colon(l) == Some(k),
        k == l.len() ==> first_colon(l) is None,
    decreases k,
{
    if k > 0 {
        assert forall|j: int| 0 <= j < k - 1 implies #[trigger] l.drop_first()[j] != ':' by {
            assert(l.drop_first()[j] == l[j + 1]);
        }
        lemma_first_colon(l.drop_first(), k - 1);
    }
}

/// The index of the first `:` in `l`, if any.
fn find_colon(l: &str) -> (r: Option<usize>)
    ensures
        r matches Some(k) ==> k < l@.len() && first_colon(l@) == Some(k as int),
        r is None ==> first_colon(l@) is None,
{
    let n = l.unicode_len();
    let mut i: usize = 0;
    while i < n
        invariant
            n == l@.len(),
            i <= n,
            forall|j: int| 0 <= j < i ==> #[trigger] l@[j] != ':',
        decreases n - i,
    {
        if l.get_char(i) == ':' {
            proof {
                lemma_first_colon(l@, i as int);
            }
            return Some(i);
        }
        i = i + 1;
    }
    proof {
        lemma_first_colon(l@, i as int);
    }
    None
}

/// Whether some pair of `r` has the key `k`.
fn record_has_key(r: &Vec<(String, String)>, k: &String) -> (b: bool)
    ensures
        b == has_key(record_view(*r), k@),
{
    let mut i: usize = 0;
    while i < r.len()
        invariant
            i <= r@.len(),
            forall|j: int| 0 <= j < i ==> (#[trigger] record_view(*r)[j]).0 != k@,
        decreases r.len() - i,
    {
        if r[i].0 == *k {
            assert(record_view(*r)[i as int].0 == k@);
            return true;
        }
        i = i + 1;
    }
    false
}

/// Takes one line into the records.
fn take_reply_line(
    done: &mut Vec<Vec<(String, String)>>,
    cur: &mut Vec<(String, String)>,
    l: &str,
) -> (r: Result<(), Error>)
    ensures
        match take_line((records_view(*old(done)), record_view(*old(cur))), l@) {
            Ok(st) => r is Ok && records_view(*final(done)) == st.0 && record_view(*final(cur)) == st.1,
            Err(e) => r == Err::<(), Error>(e),
        },
{
    let ghost st0: Reading = (records_view(*done), record_view(*cur));
    if is_blank(l) {
        return Ok(());
    }
    let k = match find_colon(l) {
        Some(k) => k,
        None => return Err(Error::ResponseLineWithoutKey),
    };
    let n = l.unicode_len();
    let key = l.substring_char(0, k).to_owned();
    let value = l.substring_char(k + 1, n).to_owned();
    assert(key@ =~= l@.take(k as int));
    assert(value@ =~= l@.skip(k + 1));
    if record_has_key(cur, &key) {
        let mut fresh: Vec<(String, String)> = Vec::new();
        fresh.push((key, value));
        std::mem::swap(cur, &mut fresh);
        done.push(fresh);
        assert(records_view(*done) =~= records_view(*old(done)).push(record_view(*old(cur))));
        assert(record_view(*cur) =~= seq![(l@.take(k as int), l@.skip(k + 1))]);
        assert(take_line(st0, l@) == Ok::<Reading, Error>((records_view(*done), record_view(*cur))));
    } else {
        cur.push((key, value));
        assert(record_view(*cur) =~= record_view(*old(cur)).push((l@.take(k as int), l@.skip(k + 1))));
        assert(take_line(st0, l@) == Ok::<Reading, Error>((records_view(*done), record_view(*cur))));
    }
    Ok(())
}

/// An EmuNWA emulator reached through `stream`.
pub struct EmuNwa<S> {
    pub id: Uuid,
    pub name: String,
    pub stream: S,
}

impl<S> EmuNwa<S> {
    /// A device with the given name.
    pub fn new(id: Uuid, stream: S, name: &str) -> (r: Self)
        ensures
            r.id == id,
            r.stream == stream,
            r.name@ == name@,
    {
        Self { id, stream, name: name.to_owned() }
    }

    /// The emulator's name of a memory domain.
    pub fn domain_to_str(domain: &MemoryDomain) -> (r: String)
        ensures
            r@ == match *domain {
                MemoryDomain::CARTROM => "CARTROM"@,
                MemoryDomain::CARTRAM => "SRAM"@,
                MemoryDomain::WRAM => "WRAM"@,
            },
    {
        match domain {
            MemoryDomain::CARTROM => "CARTROM",
            MemoryDomain::CARTRAM => "SRAM",
            MemoryDomain::WRAM => "WRAM",
        }.to_owned()
    }

    /// Reads an ASCII reply into records of `key:value` pairs.
    pub fn parse_ascii_response(response: &str) -> (r: Result<Vec<Vec<(String, String)>>, Error>)
        ensures
            match spec_parse_ascii(response@) {
                Ok(v) => r matches Ok(rv) && records_view(rv) == v,
                Err(e) => r matches Err(re) && re == e,
            },
    {
        let n = response.unicode_len();
        if n == 0 || response.get_char(n - 1) != '\n' {
            return Err(Error::ResponseNotTerminated);
        }
        let mut list: Vec<Vec<(String, String)>> = Vec::new();
        let mut lines: Vec<(String, String)> = Vec::new();
        let mut start: usize = 0;
        let mut i: usize = 0;
        assert(response@.take(0) =~= Seq::<char>::empty());
        assert(records_view(list) =~= Seq::<Seq<(Seq<char>, Seq<char>)>>::empty());
        assert(record_view(lines) =~= Seq::<(Seq<char>, Seq<char>)>::empty());
        while i < n
            invariant
                n == response@.len(),
                n > 0 && response@[n - 1] == '\n',
                start <= i <= n,
                scan_reply(response@.take(i as int)) == Ok::<(Reading, Seq<char>), Error>(
                    ((records_view(list), record_view(lines)), response@.subrange(start as int, i as int)),
                ),
            decreases n - i,
        {
            let c = response.get_char(i);
            let ghost t = response@.take(i + 1);
            assert(t.drop_last() =~= response@.take(i as int));
            assert(t.last() == c);
            if c == '\n' {
                let line = response.substring_char(start, i);
                match take_reply_line(&mut list, &mut lines, line) {
                    Ok(()) => {},
                    Err(e) => {
                        proof {
                            assert(scan_reply(t) == Err::<(Reading, Seq<char>), Error>(e));
                            lemma_scan_err(response@, i + 1);
                        }
                        return Err(e);
                    },
                }
                start = i + 1;
                assert(response@.subrange(start as int, i + 1) =~= Seq::<char>::empty());
            } else {
                assert(response@.subrange(start as int, i + 1) =~= response@.subrange(start as int, i as int).push(c));
            }
            i = i + 1;
        }
        assert(response@.take(n as int) =~= response@);
        if lines.len() > 0 {
            let ghost before = list@;
            list.push(lines);
            assert(records_view(list) =~= records_view_of(before).push(record_view(list@.last())));
        }
        Ok(list)
    }
}

/// Records as mathematical values.
pub open spec fn records_view_of(rs: Seq<Vec<(String, String)>>) -> Seq<Seq<(Seq<char>, Seq<char>)>> {
    rs.map_values(|r: Vec<(String, String)>| record_view(r))
}

/// Once a prefix of the reply fails, the whole reply fails the same way.
proof fn lemma_scan_err(s: Seq<char>, k: int)
    requires
        0 <= k <= s.len(),
        scan_reply(s.take(k)) is Err,
    ensures
        scan_reply(s) == scan_reply(s.take(k)),
    decreases s.len(),
{
    if k == s.len() {
        assert(s.take(k) =~= s);
    } else {
        assert(s.drop_last().take(k) =~= s.take(k));
        lemma_scan_err(s.drop_last(), k);
    }
}

/// No key occurs twice in the record.
pub open spec fn distinct_keys(r: Seq<(Seq<char>, Seq<char>)>) -> bool {
    forall|i: int, j: int| 0 <= i < j < r.len() ==> (#[trigger] r[i]).0 != (#[trigger] r[j]).0
}

/// Every record read so far, and the one being filled, has distinct keys,
/// and the complete ones are not empty.
pub open spec fn reading_ok(st: Reading) -> bool {
    &&& forall|i: int| 0 <= i < st.0.len() ==> distinct_keys(#[trigger] st.0[i]) && st.0[i].len() > 0
    &&& distinct_keys(st.1)
}

proof fn lemma_take_line_ok(st: Reading, l: Seq<char>)
    requires
        reading_ok(st),
    ensures
        take_line(st, l) matches Ok(st2) ==> reading_ok(st2),
{
    if let Ok(st2) = take_line(st, l) {
        if !blank(l) {
            let k = first_colon(l).unwrap();
            let pair = (l.take(k), l.skip(k + 1));
            if has_key(st.1, pair.0) {
                assert(st.1.len() > 0);
                assert forall|i: int| 0 <= i < st2.0.len() implies distinct_keys(#[trigger] st2.0[i]) && st2.0[i].len() > 0 by {
                    if i < st.0.len() {
                        assert(st2.0[i] == st.0[i]);
                    }
                }
            } else {
                assert forall|i: int, j: int| 0 <= i < j < st2.1.len() implies (#[trigger] st2.1[i]).0 != (#[trigger] st2.1[j]).0 by {
                    if j == st.1.len() {
                        assert(st2.1[i] == st.1[i]);
                    } else {
                        assert(st2.1[i] == st.1[i]);
                        assert(st2.1[j] == st.1[j]);
                    }
                }
            }
        }
    }
}

proof fn lemma_scan_ok(s: Seq<char>)
    ensures
        scan_reply(s) matches Ok((st, _)) ==> reading_ok(st),
    decreases s.len(),
{
    if s.len() > 0 {
        lemma_scan_ok(s.drop_last());
        if let Ok((st, line)) = scan_reply(s.drop_last()) {
            lemma_take_line_ok(st, line);
        }
    }
}

/// Every record of a reply is non-empty and has no key twice.
pub proof fn lemma_reply_records(s: Seq<char>)
    ensures
        spec_parse_ascii(s) matches Ok(v) ==> forall|i: int| 0 <= i < v.len() ==> (distinct_keys(#[trigger] v[i]) && v[i].len() > 0),
{
    lemma_scan_ok(s);
    if let Ok(v) = spec_parse_ascii(s) {
        let (st, _) = scan_reply(s).unwrap();
        assert forall|i: int| 0 <= i < v.len() implies (distinct_keys(#[trigger] v[i]) && v[i].len() > 0) by {
            if i < st.0.len() {
                assert(v[i] == st.0[i]);
            }
        }
    }
}

/// The value of the first pair of `r` with key `k`.
pub open spec fn lookup(r: Seq<(Seq<char>, Seq<char>)>, k: Seq<char>) -> Option<Seq<char>>
    decreases r.len(),
{
    if r.len() == 0 {
        None
    } else if r[0].0 == k {
        Some(r[0].1)
    } else {
        lookup(r.drop_first(), k)
    }
}

/// The value of the key `key` in the record.
pub fn record_get(r: &Vec<(String, String)>, key: &str) -> (v: Option<String>)
    ensures
        match lookup(record_view(*r), key@) {
            Some(x) => v matches Some(s) && s@ == x,
            None => v is None,
        },
{
    let k = key.to_owned();
    let mut i: usize = 0;
    assert(record_view(*r).skip(0) =~= record_view(*r));
    while i < r.len()
        invariant
            i <= r@.len(),
            k@ == key@,
            lookup(record_view(*r), key@) == lookup(record_view(*r).skip(i as int), key@),
        decreases r.len() - i,
    {
        let ghost rest = record_view(*r).skip(i as int);
        assert(rest[0] == (r@[i as int].0@, r@[i as int].1@));
        if r[i].0 == k {
            return Some(r[i].1.clone());
        }
        assert(rest.drop_first() =~= record_view(*r).skip(i + 1));
        i = i + 1;
    }
    None
}

/// Whether a reply has been read to its end: a lone newline, or a blank
/// line at the end.
pub open spec fn spec_reply_complete(b: Seq<u8>) -> bool {
    (b.len() == 1 && b[0] == 0x0A) || (b.len() >= 2 && b[b.len() - 2] == 0x0A && b[b.len() - 1] == 0x0A)
}

/// The text of a command: its name, then when there are arguments a space
/// and the arguments separated by `;`, then a newline.
pub open spec fn spec_command_text(command: Seq<char>, args: Option<Seq<Seq<char>>>) -> Seq<char> {
    match args {
        Some(a) => command + " "@ + join(a, ";"@) + "\n"@,
        None => command + "\n"@,
    }
}

/// The memory groups of a read: each run of accesses to one domain becomes
/// one request, the domain's name followed by address and size of each
/// access, in decimal.
pub open spec fn read_groups(l: Seq<AddressInfo>) -> Seq<(MemoryDomain, Seq<Seq<char>>)>
    decreases l.len(),
{
    if l.len() == 0 {
        Seq::empty()
    } else {
        let prev = read_groups(l.drop_last());
        let a = l.last();
        let entry = seq![ascii_chars(decimal_i64(a.address)), ascii_chars(decimal_i64(a.size))];
        if prev.len() > 0 && prev.last().0 == a.domain {
            prev.drop_last().push((a.domain, prev.last().1 + entry))
        } else {
            prev.push((a.domain, seq![domain_name(a.domain)] + entry))
        }
    }
}

/// The emulator's name of a memory domain.
pub open spec fn domain_name(d: MemoryDomain) -> Seq<char> {
    match d {
        MemoryDomain::CARTROM => "CARTROM"@,
        MemoryDomain::CARTRAM => "SRAM"@,
        MemoryDomain::WRAM => "WRAM"@,
    }
}

/// The answer to an Info request from the emulator's and game's records:
/// `<name> v<version> (EmuNWA v<nwa_version>)`, "0", the game file, "".
pub open spec fn spec_info_strings(emu: Seq<(Seq<char>, Seq<char>)>, game: Seq<(Seq<char>, Seq<char>)>) -> Result<Seq<Seq<char>>, Error> {
    match (lookup(emu, "name"@), lookup(emu, "version"@), lookup(emu, "nwa_version"@), lookup(game, "file"@)) {
        (Some(name), Some(version), Some(nwa), Some(file)) => Ok(seq![
            name + " v"@ + version + " (EmuNWA v"@ + nwa + ")"@,
            "0"@,
            file,
            ""@,
        ]),
        _ => Err(Error::MissingField),
    }
}

/// The decimal text of `v`.
fn decimal_string(v: i64) -> (r: String)
    ensures
        r@ == ascii_chars(decimal_i64(v)),
{
    let mut b: Vec<u8> = Vec::new();
    push_decimal_i64(&mut b, v);
    proof {
        lemma_decimal_ascii(if v < 0 { (-v) as nat } else { v as nat });
        assert(b@ =~= decimal_i64(v));
        assert forall|i: int| 0 <= i < b@.len() implies b@[i] < 128 by {
            if v < 0 && i > 0 {
                assert(b@[i] == decimal_digits((-v) as nat)[i - 1]);
            }
        }
    }
    ascii_string(b.as_slice())
}

impl<S> EmuNwa<S> {
    /// Whether a reply has been read to its end.
    pub fn reply_complete(response: &str) -> (r: bool)
        ensures
            r == spec_reply_complete(encode_utf8(response@)),
    {
        let b = response.as_bytes();
        let n = b.len();
        (n == 1 && b[0] == 0x0A) || (n >= 2 && b[n - 2] == 0x0A && b[n - 1] == 0x0A)
    }

    /// The text of a command.
    pub fn command_text(command: &str, args: Option<&[&str]>) -> (r: String)
        ensures
            r@ == spec_command_text(command@, match args {
                Some(a) => Some(a@.map_values(|s: &str| s@)),
                None => None,
            }),
    {
        let mut out = command.to_owned();
        match args {
            Some(a) => {
                out.append(" ");
                let ghost start = out@;
                let ghost parts = a@.map_values(|s: &str| s@);
                let mut i: usize = 0;
                assert(parts.take(0) =~= Seq::<Seq<char>>::empty());
                while i < a.len()
                    invariant
                        i <= a@.len(),
                        parts == a@.map_values(|s: &str| s@),
                        out@ == start + join(parts.take(i as int), ";"@),
                    decreases a.len() - i,
                {
                    if i > 0 {
                        out.append(";");
                    }
                    out.append(a[i]);
                    proof {
                        let t = parts.take(i + 1);
                        assert(t.drop_last() =~= parts.take(i as int));
                        assert(t.last() == a@[i as int]@);
                        if i == 0 {
                            assert(parts.take(0) =~= Seq::<Seq<char>>::empty());
                        }
                        assert(out@ =~= start + join(t, ";"@));
                    }
                    i = i + 1;
                }
                assert(parts.take(i as int) =~= parts);
                out.append("\n");
            },
            None => {
                out.append("\n");
            },
        }
        out
    }

    /// The answer to an Info request, from the emulator's record and the
    /// game's.
    pub fn info_strings(emulator_info: &Vec<(String, String)>, game_info: &Vec<(String, String)>) -> (r: Result<Vec<String>, Error>)
        ensures
            match spec_info_strings(record_view(*emulator_info), record_view(*game_info)) {
                Ok(v) => r matches Ok(rv) && rv@.map_values(|x: String| x@) == v,
                Err(e) => r matches Err(re) && re == e,
            },
    {
        let name = record_get(emulator_info, "name");
        let version = record_get(emulator_info, "version");
        let nwa = record_get(emulator_info, "nwa_version");
        let file = record_get(game_info, "file");
        match (name, version, nwa, file) {
            (Some(name), Some(version), Some(nwa), Some(file)) => {
                let mut first = name;
                first.append(" v");
                first.append(version.as_str());
                first.append(" (EmuNWA v");
                first.append(nwa.as_str());
                first.append(")");
                let mut v: Vec<String> = Vec::new();
                v.push(first);
                v.push("0".to_owned());
                v.push(file);
                v.push("".to_owned());
                assert(v@.map_values(|x: String| x@) =~= spec_info_strings(record_view(*emulator_info), record_view(*game_info)).unwrap());
                Ok(v)
            },
            _ => Err(Error::MissingField),
        }
    }

    /// The size of the binary block that a reply to a read announces.
    pub fn read_reply_size(response: &CommandResponse) -> (r: Result<usize, Error>)
        ensures
            match *response {
                CommandResponse::Binary(s) => if s == 0 { r == Err::<usize, Error>(Error::InvalidReadSize) } else { r == Ok::<usize, Error>(s) },
                _ => r == Err::<usize, Error>(Error::UnexpectedResponse),
            },
    {
        match response {
            CommandResponse::Binary(s) => if *s == 0 { Err(Error::InvalidReadSize) } else { Ok(*s) },
            _ => Err(Error::UnexpectedResponse),
        }
    }

    /// Groups a read into one request per run of accesses to a domain.
    pub fn group_read_requests(addr_info: &Vec<AddressInfo>) -> (r: Vec<(MemoryDomain, Vec<String>)>)
        ensures
            r@.map_values(|g: (MemoryDomain, Vec<String>)| (g.0, g.1@.map_values(|x: String| x@))) == read_groups(addr_info@),
    {
        let mut requests: Vec<(MemoryDomain, Vec<String>)> = Vec::new();
        let ghost view = |g: (MemoryDomain, Vec<String>)| (g.0, g.1@.map_values(|x: String| x@));
        let mut i: usize = 0;
        assert(addr_info@.take(0) =~= Seq::<AddressInfo>::empty());
        while i < addr_info.len()
            invariant
                i <= addr_info@.len(),
                view == (|g: (MemoryDomain, Vec<String>)| (g.0, g.1@.map_values(|x: String| x@))),
                requests@.map_values(view) == read_groups(addr_info@.take(i as int)),
            decreases addr_info.len() - i,
        {
            let ai = addr_info[i];
            let ghost prev = requests@.map_values(view);
            let ghost t = addr_info@.take(i + 1);
            assert(t.drop_last() =~= addr_info@.take(i as int));
            assert(t.last() == ai);
            let address = decimal_string(ai.address);
            let size = decimal_string(ai.size);
            let n = requests.len();
            if n > 0 && requests[n - 1].0 == ai.domain {
                let mut last = requests.pop().unwrap();
                let ghost last_before = last.1@.map_values(|x: String| x@);
                assert(last_before == prev.last().1);
                last.1.push(address);
                last.1.push(size);
                assert(last.1@.map_values(|x: String| x@) =~= last_before + seq![ascii_chars(decimal_i64(ai.address)), ascii_chars(decimal_i64(ai.size))]);
                requests.push(last);
                assert(requests@.map_values(view) =~= prev.drop_last().push((ai.domain, last_before + seq![ascii_chars(decimal_i64(ai.address)), ascii_chars(decimal_i64(ai.size))])));
            } else {
                let mut names: Vec<String> = Vec::new();
                names.push(Self::domain_to_str(&ai.domain));
                names.push(address);
                names.push(size);
                assert(names@.map_values(|x: String| x@) =~= seq![domain_name(ai.domain)] + seq![ascii_chars(decimal_i64(ai.address)), ascii_chars(decimal_i64(ai.size))]);
                requests.push((ai.domain, names));
                assert(requests@.map_values(view) =~= prev.push((ai.domain, seq![domain_name(ai.domain)] + seq![ascii_chars(decimal_i64(ai.address)), ascii_chars(decimal_i64(ai.size))])));
            }
            i = i + 1;
        }
        assert(addr_info@.take(i as int) =~= addr_info@);
        requests
    }
}


/// What the port enumerator reports to the emulator manager.
#[derive(Debug)]
pub enum EmuInfo {
    /// An emulator answered on `port`; `address` is where to connect.
    EmuAdded { name: String, port: u16, address: String },
    /// The emulator on `port` is gone.
    EmuRemoved { name: String, port: u16 },
}

/// The manager of the emulators found on local ports.
pub struct EmuNwaManager {}

/// The first of the ports that the enumerator probes.
pub const EMUNWA_BASE_PORT: u16 = 0xbeef;

/// How many ports, from the first, the enumerator probes.
pub const EMUNWA_PORT_COUNT: u16 = 8;

/// The device name and the address of an emulator whose `EMULATOR_INFO`
/// reply begins with `first`: none unless the reply has a `name`.
pub open spec fn spec_enumerated(first: Seq<(Seq<char>, Seq<char>)>, port: u16) -> Option<(Seq<char>, Seq<char>)> {
    match lookup(first, "name"@) {
        None => None,
        Some(name) => Some((
            name + " (127.0.0.1:"@ + lookup(first, "id"@).unwrap() + ")"@,
            "localhost:"@ + ascii_chars(decimal_i64(port as i64)),
        )),
    }
}

impl EmuNwaManager {
    /// What an `EMULATOR_INFO` reply on `port` tells the enumerator: an
    /// emulator to add when the first record has a `name`.
    pub fn enumerated(emulator_info: &Vec<Vec<(String, String)>>, port: u16) -> (r: Option<EmuInfo>)
        requires
            emulator_info@.len() > 0,
            lookup(record_view(emulator_info@[0]), "name"@) is Some ==> lookup(record_view(emulator_info@[0]), "id"@) is Some,
        ensures
            match spec_enumerated(record_view(emulator_info@[0]), port) {
                None => r is None,
                Some((name, address)) => r matches Some(EmuInfo::EmuAdded { name: n, port: p, address: a })
                    && n@ == name && p == port && a@ == address,
            },
    {
        let first = &emulator_info[0];
        match record_get(first, "name") {
            None => None,
            Some(name) => {
                let id = match record_get(first, "id") {
                    Some(id) => id,
                    None => return None,
                };
                let mut n = name;
                n.append(" (127.0.0.1:");
                n.append(id.as_str());
                n.append(")");
                let mut address = "localhost:".to_owned();
                let digits = decimal_string(port as i64);
                address.append(digits.as_str());
                Some(EmuInfo::EmuAdded { name: n, port, address })
            },
        }
    }
}


/// What follows the first byte of a reply.
#[derive(Debug, Clone, Copy, PartialEq, Eq, Structural)]
pub enum ReplyKind {
    /// A 32-bit big-endian length, then that many bytes.
    Binary,
    /// `key:value` lines up to an empty line.
    Ascii,
}

impl<S> EmuNwa<S> {
    /// The kind of reply that its first byte announces: 0 binary, a newline
    /// ASCII; any other byte is refused.
    pub fn reply_kind(first: u8) -> (r: Result<ReplyKind, Error>)
        ensures
            r == if first == 0 {
                Ok::<ReplyKind, Error>(ReplyKind::Binary)
            } else if first == 10 {
                Ok(ReplyKind::Ascii)
            } else {
                Err(Error::InvalidResponseStart)
            },
    {
        if first == 0 {
            Ok(ReplyKind::Binary)
        } else if first == 10 {
            Ok(ReplyKind::Ascii)
        } else {
            Err(Error::InvalidResponseStart)
        }
    }
}


/// The operands that the read groups carry beyond their domain names, added.
pub open spec fn group_operands(g: Seq<(MemoryDomain, Seq<Seq<char>>)>) -> int
    decreases g.len(),
{
    if g.len() == 0 { 0 } else { group_operands(g.drop_last()) + g.last().1.len() - 1 }
}

/// Reads are grouped by runs of one memory domain: each group opens with
/// its domain's name, two neighbouring groups differ in domain, and every
/// access brings exactly its address and its size.
pub proof fn lemma_read_groups(l: Seq<AddressInfo>)
    ensures
        ({
            let g = read_groups(l);
            &&& forall|i: int| 0 <= i < g.len() ==> (#[trigger] g[i]).1.len() >= 3 && g[i].1[0] == domain_name(g[i].0)
            &&& forall|i: int| 0 <= i < g.len() - 1 ==> (#[trigger] g[i]).0 != g[i + 1].0
            &&& group_operands(g) == 2 * l.len()
            &&& l.len() > 0 ==> g.len() > 0 && g.last().0 == l.last().domain
        }),
    decreases l.len(),
{
    if l.len() > 0 {
        lemma_read_groups(l.drop_last());
        let prev = read_groups(l.drop_last());
        let g = read_groups(l);
        let a = l.last();
        if prev.len() > 0 && prev.last().0 == a.domain {
            assert(g.drop_last() =~= prev.drop_last());
            assert(group_operands(prev) == group_operands(prev.drop_last()) + prev.last().1.len() - 1);
            assert forall|i: int| 0 <= i < g.len() implies (#[trigger] g[i]).1.len() >= 3 && g[i].1[0] == domain_name(g[i].0) by {
                if i < g.len() - 1 {
                    assert(g[i] == prev[i]);
                } else {
                    assert(g[i].1 == prev.last().1 + seq![ascii_chars(decimal_i64(a.address)), ascii_chars(decimal_i64(a.size))]);
                    assert(g[i].1[0] == prev.last().1[0]);
                }
            }
            assert forall|i: int| 0 <= i < g.len() - 1 implies (#[trigger] g[i]).0 != g[i + 1].0 by {
                assert(g[i] == prev[i]);
                assert(g[i + 1].0 == prev[i + 1].0);
            }
        } else {
            assert(g.drop_last() =~= prev);
            assert forall|i: int| 0 <= i < g.len() implies (#[trigger] g[i]).1.len() >= 3 && g[i].1[0] == domain_name(g[i].0) by {
                if i < g.len() - 1 {
                    assert(g[i] == prev[i]);
                }
            }
            assert forall|i: int| 0 <= i < g.len() - 1 implies (#[trigger] g[i]).0 != g[i + 1].0 by {
                assert(g[i] == prev[i]);
                if i + 1 < g.len() - 1 {
                    assert(g[i + 1] == prev[i + 1]);
                }
            }
        }
    }
}


/// The command text that boots a game or resets the emulator, for the
/// commands that do so.
pub open spec fn spec_control_command(c: CommandModel) -> Option<Seq<char>> {
    match c {
        CommandModel::Boot(path) => Some(spec_command_text("LOAD_GAME"@, Some(seq![path]))),
        CommandModel::Reset => Some(spec_command_text("EMULATION_RESET"@, None)),
        _ => None,
    }
}

impl<S> EmuNwa<S> {
    /// The text sent for a boot or a reset request; none for other commands.
    pub fn control_command(command: &Command) -> (r: Option<String>)
        ensures
            match spec_control_command(command@) {
                Some(t) => r matches Some(s) && s@ == t,
                None => r is None,
            },
    {
        match command {
            Command::Boot(path) => {
                let args: [&str; 1] = [path.as_str()];
                let text = Self::command_text("LOAD_GAME", Some(args.as_slice()));
                assert(args@.map_values(|s: &str| s@) =~= seq![path@]);
                Some(text)
            },
            Command::Reset => Some(Self::command_text("EMULATION_RESET", None)),
            _ => None,
        }
    }
}


impl<S> EmuNwa<S> {
    /// The arguments of a `bCORE_WRITE` for `ai`: domain, address and size
    /// in decimal.
    pub fn write_args(ai: &AddressInfo) -> (r: Vec<String>)
        ensures
            r@.map_values(|x: String| x@) == seq![
                domain_name(ai.domain),
                ascii_chars(decimal_i64(ai.address)),
                ascii_chars(decimal_i64(ai.size)),
            ],
    {
        let mut v: Vec<String> = Vec::new();
        v.push(Self::domain_to_str(&ai.domain));
        v.push(decimal_string(ai.address));
        v.push(decimal_string(ai.size));
        assert(v@.map_values(|x: String| x@) =~= seq![
            domain_name(ai.domain),
            ascii_chars(decimal_i64(ai.address)),
            ascii_chars(decimal_i64(ai.size)),
        ]);
        v
    }
}

} // verus!
