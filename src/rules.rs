//! The rules reply, and the mod list that some servers hide in a leading
//! run of disguised rules.

use vstd::prelude::*;
use crate::reader::{
    spec_read_bytes, spec_read_cstr, spec_read_u16, spec_read_u32, spec_read_u8, strict_utf8,
    decode_strict, DecodeError, PacketBytes,
};

verus! {

/// The escape marker of the mod-list blob.
pub const ESCAPE_BYTE: u8 = 0x01;

/// A key/value pair of a rules reply.
pub struct Rule {
    pub name: String,
    pub value: String,
}

/// An installed modification announced in the hidden mod list.
pub struct Mod {
    pub id: u32,
    pub name: String,
}

/// A mod as the contracts see it: its id and the characters of its name.
pub open spec fn mod_view(m: Mod) -> (u32, Seq<char>) {
    (m.id, m.name@)
}

/// The contract view of a list of mods.
pub open spec fn mods_view(v: Seq<Mod>) -> Seq<(u32, Seq<char>)> {
    v.map_values(|m: Mod| mod_view(m))
}

/// `a` followed by the sequence of `r`, or the error of `r`.
pub open spec fn prefixed<T>(a: Seq<T>, r: Result<Seq<T>, DecodeError>) -> Result<Seq<T>, DecodeError> {
    match r {
        Ok(t) => Ok(a + t),
        Err(e) => Err(e),
    }
}

/// The byte that an escape marker followed by `b` stands for.
pub open spec fn escaped(b: u8) -> u8 {
    if b == 0x01 {
        0x01
    } else if b == 0x02 {
        0x00
    } else if b == 0x03 {
        0xFF
    } else {
        b
    }
}

/// The blob with each escape pair replaced by the byte it stands for; a
/// marker at the very end has no byte to escape and falls short.
pub open spec fn spec_unescape(d: Seq<u8>) -> Result<Seq<u8>, DecodeError>
    decreases d.len(),
{
    if d.len() == 0 {
        Ok(Seq::empty())
    } else if d[0] == ESCAPE_BYTE {
        if d.len() < 2 {
            Err(DecodeError::ShortRead)
        } else {
            prefixed(seq![escaped(d[1])], spec_unescape(d.subrange(2, d.len() as int)))
        }
    } else {
        prefixed(seq![d[0]], spec_unescape(d.subrange(1, d.len() as int)))
    }
}

/// Removes the escaping from a mod-list blob.
pub fn unescape(data: &Vec<u8>) -> (r: Result<Vec<u8>, DecodeError>)
    ensures
        match spec_unescape(data@) {
            Ok(t) => r matches Ok(v) && v@ == t,
            Err(e) => r matches Err(f) && f == e,
        },
{
    let ghost d = data@;
    let len = data.len();
    let mut out: Vec<u8> = Vec::new();
    let mut i: usize = 0;
    proof {
        assert(d.subrange(0, len as int) =~= d);
        match spec_unescape(d) {
            Ok(t) => assert(Seq::<u8>::empty() + t =~= t),
            Err(_) => {},
        }
    }
    while i < len
        invariant
            i <= len,
            len == d.len(),
            d == data@,
            spec_unescape(d) == prefixed(out@, spec_unescape(d.subrange(i as int, len as int))),
        decreases len - i,
    {
        let ghost rest = d.subrange(i as int, len as int);
        let ghost before = out@;
        let cur = data[i];
        if cur == ESCAPE_BYTE {
            if i + 1 >= len {
                return Err(DecodeError::ShortRead);
            }
            let next = data[i + 1];
            let b: u8 = if next == 0x01 {
                0x01
            } else if next == 0x02 {
                0x00
            } else if next == 0x03 {
                0xFF
            } else {
                next
            };
            out.push(b);
            proof {
                assert(rest.subrange(2, rest.len() as int) =~= d.subrange(i + 2, len as int));
                assert(out@ =~= before + seq![escaped(next)]);
                match spec_unescape(d.subrange(i + 2, len as int)) {
                    Ok(t) => assert(before + (seq![escaped(next)] + t) =~= out@ + t),
                    Err(_) => {},
                }
            }
            i = i + 2;
        } else {
            out.push(cur);
            proof {
                assert(rest.subrange(1, rest.len() as int) =~= d.subrange(i + 1, len as int));
                assert(out@ =~= before + seq![cur]);
                match spec_unescape(d.subrange(i + 1, len as int)) {
                    Ok(t) => assert(before + (seq![cur] + t) =~= out@ + t),
                    Err(_) => {},
                }
            }
            i = i + 1;
        }
    }
    proof {
        assert(d.subrange(len as int, len as int) =~= Seq::<u8>::empty());
        assert(out@ + Seq::<u8>::empty() =~= out@);
    }
    Ok(out)
}

/// Bytes that may not stand in a mod name: ASCII control characters.
pub open spec fn is_forbidden_byte(b: u8) -> bool {
    b == 0x08 || b == 0x09 || b == 0x0A || b == 0x0C || b == 0x0D
}

/// Whether a raw mod name holds a forbidden byte.
pub open spec fn has_forbidden(name: Seq<u8>) -> bool {
    exists|k: int| 0 <= k < name.len() && is_forbidden_byte(#[trigger] name[k])
}

/// One mod record at `p` of the cleaned blob: five skipped bytes, a
/// little-endian `u32` id, a length byte and that many name bytes. A name
/// that holds a forbidden byte leaves the record out (`None`); a kept name
/// must be UTF-8.
pub open spec fn spec_mod_record(b: Seq<u8>, p: int) -> Result<(Option<(u32, Seq<char>)>, int), DecodeError> {
    match spec_read_bytes(b, p, 5) {
        Err(e) => Err(e),
        Ok((_, p1)) => match spec_read_u32(b, p1) {
            Err(e) => Err(e),
            Ok((id, p2)) => match spec_read_u8(b, p2) {
                Err(e) => Err(e),
                Ok((len, p3)) => match spec_read_bytes(b, p3, len as int) {
                    Err(e) => Err(e),
                    Ok((name, p4)) => if has_forbidden(name) {
                        Ok((None, p4))
                    } else {
                        match strict_utf8(name) {
                            None => Err(DecodeError::InvalidUtf8),
                            Some(t) => Ok((Some((id, t)), p4)),
                        }
                    },
                },
            },
        },
    }
}

/// The `n` mod records that start at `p`, without those left out.
pub open spec fn spec_mod_records(b: Seq<u8>, p: int, n: int) -> Result<Seq<(u32, Seq<char>)>, DecodeError>
    decreases n,
{
    if n <= 0 {
        Ok(Seq::empty())
    } else {
        match spec_mod_record(b, p) {
            Err(e) => Err(e),
            Ok((None, q)) => spec_mod_records(b, q, n - 1),
            Ok((Some(m), q)) => prefixed(seq![m], spec_mod_records(b, q, n - 1)),
        }
    }
}

/// Where the mod records of a cleaned blob start, and how many there are:
/// two skipped bytes, a flag byte, five more skipped bytes where the flag is
/// set and one where it is not, then the record count.
pub open spec fn spec_mod_header(b: Seq<u8>) -> Result<(u8, int), DecodeError> {
    match spec_read_bytes(b, 0, 2) {
        Err(e) => Err(e),
        Ok((_, p1)) => match spec_read_u8(b, p1) {
            Err(e) => Err(e),
            Ok((flag, p2)) => match spec_read_bytes(b, p2, if flag > 0 { 5 } else { 1 }) {
                Err(e) => Err(e),
                Ok((_, p3)) => spec_read_u8(b, p3),
            },
        },
    }
}

/// The mods listed in a cleaned blob.
pub open spec fn spec_mod_list(b: Seq<u8>) -> Result<Seq<(u32, Seq<char>)>, DecodeError> {
    match spec_mod_header(b) {
        Err(e) => Err(e),
        Ok((n, p)) => spec_mod_records(b, p, n as int),
    }
}

/// Whether the rule at index `i` is a disguised mod chunk: a two-byte name
/// whose first byte is `i + 1` and whose second, the declared chunk count,
/// is at least `i + 1`.
pub open spec fn is_mod_chunk(name: Seq<u8>, i: int) -> bool {
    name.len() == 2 && name[0] as int == i + 1 && i + 1 <= name[1] as int
}

/// Rules `i` to `n` starting at `p`: the values of the chunks among them,
/// joined in order, and where they end. Chunks are recognised only while
/// `on` holds, and the first rule that is no chunk turns it off for good.
pub open spec fn spec_rule_entries(s: Seq<u8>, p: int, i: int, n: int, on: bool) -> Result<(Seq<u8>, int), DecodeError>
    decreases n - i,
{
    if i >= n {
        Ok((Seq::empty(), p))
    } else {
        match spec_read_cstr(s, p) {
            Err(e) => Err(e),
            Ok((name, q)) => match spec_read_cstr(s, q) {
                Err(e) => Err(e),
                Ok((value, r)) => {
                    let chunk = on && is_mod_chunk(name, i);
                    blob_prefixed(if chunk { value } else { Seq::empty() }, spec_rule_entries(s, r, i + 1, n, chunk))
                },
            },
        }
    }
}

/// Once a rule has failed to be a mod chunk, no later rule is taken for
/// one: with recognition off, the rules that remain add nothing to the blob
/// whatever their names.
pub proof fn lemma_recognition_never_resumes(s: Seq<u8>, p: int, i: int, n: int)
    ensures
        spec_rule_entries(s, p, i, n, false) matches Ok((blob, _)) ==> blob.len() == 0,
    decreases n - i,
{
    if i < n {
        if let Ok((name, q)) = spec_read_cstr(s, p) {
            if let Ok((value, r)) = spec_read_cstr(s, q) {
                lemma_recognition_never_resumes(s, r, i + 1, n);
                if let Ok((blob, e)) = spec_rule_entries(s, r, i + 1, n, false) {
                    assert(Seq::<u8>::empty() + blob =~= blob);
                }
            }
        }
    }
}

/// `a` in front of the blob of `r`, or the error of `r`.
pub open spec fn blob_prefixed(a: Seq<u8>, r: Result<(Seq<u8>, int), DecodeError>) -> Result<(Seq<u8>, int), DecodeError> {
    match r {
        Ok((b, e)) => Ok((a + b, e)),
        Err(e) => Err(e),
    }
}

/// The mod chunks of the rules that start at `p`, joined, and where the
/// rules end.
pub open spec fn spec_rules_blob(s: Seq<u8>, p: int) -> Result<(Seq<u8>, int), DecodeError> {
    match spec_read_u16(s, p) {
        Err(e) => Err(e),
        Ok((n, q)) => spec_rule_entries(s, q, 0, n as int, true),
    }
}

/// What a rules reply body at `p` decodes to: its mod list.
pub open spec fn spec_rules_body(s: Seq<u8>, p: int) -> Result<Seq<(u32, Seq<char>)>, DecodeError> {
    match spec_rules_blob(s, p) {
        Err(e) => Err(e),
        Ok((blob, _)) => match spec_unescape(blob) {
            Err(e) => Err(e),
            Ok(clean) => spec_mod_list(clean),
        },
    }
}

/// Whether a raw mod name holds a forbidden byte.
pub fn has_forbidden_byte(name: &Vec<u8>) -> (r: bool)
    ensures
        r == has_forbidden(name@),
{
    let mut k: usize = 0;
    while k < name.len()
        invariant
            k <= name.len(),
            forall|j: int| 0 <= j < k ==> !is_forbidden_byte(#[trigger] name@[j]),
        decreases name.len() - k,
    {
        let b = name[k];
        if b == 0x08 || b == 0x09 || b == 0x0A || b == 0x0C || b == 0x0D {
            return true;
        }
        k = k + 1;
    }
    false
}

/// Reads one mod record; `None` where its name holds a forbidden byte.
pub fn read_mod_record(rd: &mut PacketBytes) -> (r: Result<Option<Mod>, DecodeError>)
    ensures
        final(rd).data() == old(rd).data(),
        match spec_mod_record(old(rd).data(), old(rd).pos()) {
            Ok((None, q)) => r matches Ok(None) && final(rd).pos() == q,
            Ok((Some(m), q)) => r matches Ok(Some(v)) && mod_view(v) == m && final(rd).pos() == q,
            Err(e) => r matches Err(f) && f == e,
        },
{
    rd.skip(5)?;
    let id = rd.read_u32()?;
    let len = rd.read_u8()?;
    let name = rd.read_bytes(len as usize)?;
    if has_forbidden_byte(&name) {
        return Ok(None);
    }
    match decode_strict(name) {
        None => Err(DecodeError::InvalidUtf8),
        Some(t) => Ok(Some(Mod { id, name: t })),
    }
}

/// Parses the mod list out of a cleaned blob.
pub fn parse_mods(blob: Vec<u8>) -> (r: Result<Vec<Mod>, DecodeError>)
    ensures
        match spec_mod_list(blob@) {
            Ok(m) => r matches Ok(v) && mods_view(v@) == m,
            Err(e) => r matches Err(f) && f == e,
        },
{
    let ghost b = blob@;
    let mut rd = PacketBytes::new(blob);
    rd.skip(2)?;
    let flag = rd.read_u8()?;
    rd.skip(if flag > 0 { 5 } else { 1 })?;
    let n = rd.read_u8()?;
    let ghost p0 = rd.pos();
    let mut mods: Vec<Mod> = Vec::new();
    let mut k: u8 = 0;
    proof {
        assert(mods_view(mods@) =~= Seq::empty());
        match spec_mod_records(b, p0, n as int) {
            Ok(t) => assert(Seq::<(u32, Seq<char>)>::empty() + t =~= t),
            Err(_) => {},
        }
    }
    while k < n
        invariant
            k <= n,
            b == blob@,
            rd.data() == b,
            spec_mod_list(b) == spec_mod_records(b, p0, n as int),
            spec_mod_records(b, p0, n as int) == prefixed(mods_view(mods@), spec_mod_records(b, rd.pos(), (n - k) as int)),
        decreases n - k,
    {
        let ghost before = mods_view(mods@);
        let ghost pk = rd.pos();
        let found = match read_mod_record(&mut rd) {
            Ok(f) => f,
            Err(e) => {
                assert(spec_mod_records(b, pk, (n - k) as int) == Err::<Seq<(u32, Seq<char>)>, DecodeError>(e));
                return Err(e);
            },
        };
        if let Some(m) = found {
            let ghost mv = mod_view(m);
            mods.push(m);
            proof {
                assert(mods_view(mods@) =~= before + seq![mv]);
                match spec_mod_records(b, rd.pos(), (n - k - 1) as int) {
                    Ok(rest) => assert(before + (seq![mv] + rest) =~= mods_view(mods@) + rest),
                    Err(_) => {},
                }
            }
        }
        k = k + 1;
    }
    proof {
        assert(mods_view(mods@) + Seq::<(u32, Seq<char>)>::empty() =~= mods_view(mods@));
    }
    Ok(mods)
}

/// Reads `num_rules` rules and joins the values of the leading run of mod
/// chunks among them, in order. The first rule that is no chunk ends the
/// run for good; ordinary rules are read past.
pub fn read_mod_chunks(rd: &mut PacketBytes, num_rules: u16) -> (r: Result<Vec<u8>, DecodeError>)
    ensures
        final(rd).data() == old(rd).data(),
        match spec_rule_entries(old(rd).data(), old(rd).pos(), 0, num_rules as int, true) {
            Ok((b, q)) => r matches Ok(v) && v@ == b && final(rd).pos() == q,
            Err(e) => r matches Err(f) && f == e,
        },
{
    let ghost s = rd.data();
    let ghost p1 = rd.pos();
    let mut on = true;
    let mut blob: Vec<u8> = Vec::new();
    let mut i: u32 = 0;
    proof {
        match spec_rule_entries(s, p1, 0, num_rules as int, true) {
            Ok((t, e)) => assert(Seq::<u8>::empty() + t =~= t),
            Err(_) => {},
        }
    }
    while i < num_rules as u32
        invariant
            i <= num_rules,
            rd.data() == s,
            s == old(rd).data(),
            p1 == old(rd).pos(),
            spec_rule_entries(s, p1, 0, num_rules as int, true) == blob_prefixed(
                blob@,
                spec_rule_entries(s, rd.pos(), i as int, num_rules as int, on),
            ),
        decreases num_rules - i,
    {
        let ghost before = blob@;
        let ghost pi = rd.pos();
        let name = match rd.read_until_zero() {
            Ok(v) => v,
            Err(e) => {
                assert(spec_rule_entries(s, pi, i as int, num_rules as int, on) == Err::<(Seq<u8>, int), DecodeError>(e));
                return Err(e);
            },
        };
        let mut value = match rd.read_until_zero() {
            Ok(v) => v,
            Err(e) => {
                assert(spec_rule_entries(s, pi, i as int, num_rules as int, on) == Err::<(Seq<u8>, int), DecodeError>(e));
                return Err(e);
            },
        };
        let chunk = on && name.len() == 2 && name[0] as u32 == i + 1 && i + 1 <= name[1] as u32;
        let ghost added = if chunk { value@ } else { Seq::<u8>::empty() };
        if chunk {
            blob.append(&mut value);
        }
        proof {
            assert(chunk == (on && is_mod_chunk(name@, i as int)));
            assert(blob@ =~= before + added);
            match spec_rule_entries(s, rd.pos(), i + 1, num_rules as int, chunk) {
                Ok((t, e)) => assert(before + (added + t) =~= blob@ + t),
                Err(_) => {},
            }
        }
        on = chunk;
        i = i + 1;
    }
    proof {
        match spec_rule_entries(s, rd.pos(), i as int, num_rules as int, on) {
            Ok((t, e)) => assert(blob@ + Seq::<u8>::empty() =~= blob@),
            Err(_) => {},
        }
    }
    Ok(blob)
}

/// A decoded rules reply.
#[allow(non_camel_case_types)]
pub struct Packet_Rules {
    bytes: PacketBytes,
    rules: Vec<Rule>,
    mods: Vec<Mod>,
}

impl Packet_Rules {
    /// The bytes of the reply.
    pub closed spec fn raw(&self) -> Seq<u8> {
        self.bytes.data()
    }

    /// The ordinary rules kept.
    pub closed spec fn rules_view(&self) -> Seq<Rule> {
        self.rules@
    }

    /// The mods found in the hidden mod list.
    pub closed spec fn mods_model(&self) -> Seq<(u32, Seq<char>)> {
        mods_view(self.mods@)
    }

    /// Decodes a rules body from the position of `bytes`: the rule count
    /// and the rules, whose leading run of mod chunks carries the escaped
    /// mod list. Ordinary rules are read past and not kept.
    pub fn decode(bytes: PacketBytes) -> (r: Result<Packet_Rules, DecodeError>)
        ensures
            match spec_rules_body(bytes.data(), bytes.pos()) {
                Ok(m) => r matches Ok(p) && p.raw() == bytes.data() && p.mods_model() == m
                    && p.rules_view().len() == 0,
                Err(e) => r matches Err(f) && f == e,
            },
    {
        let mut rd = bytes;
        let num_rules = rd.read_u16()?;
        let blob = read_mod_chunks(&mut rd, num_rules)?;
        let clean = unescape(&blob)?;
        let mods = parse_mods(clean)?;
        Ok(Packet_Rules { bytes: rd, rules: Vec::new(), mods })
    }

    /// The bytes of the reply.
    pub fn bytes(&self) -> (r: &PacketBytes)
        ensures
            r.data() == self.raw(),
    {
        &self.bytes
    }

    /// The ordinary rules kept.
    pub fn rules(&self) -> (r: &Vec<Rule>)
        ensures
            r@ == self.rules_view(),
    {
        &self.rules
    }

    /// The mods found in the hidden mod list, in the order they were listed.
    pub fn mods(&self) -> (r: &Vec<Mod>)
        ensures
            mods_view(r@) == self.mods_model(),
    {
        &self.mods
    }
}

} // verus!
