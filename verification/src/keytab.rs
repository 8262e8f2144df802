//! Kerberos keytab parsing and serialization (MIT file format, versions 1
//! and 2).

use vstd::prelude::*;
use vstd::string::StringExecFns;
use vstd::utf8::{decode_utf8, encode_utf8, valid_utf8};

use crate::file_name;
use crate::ccache::{file_types, spec_file_types};
use crate::client::UnixTime;
use crate::crypto::{spec_etype_from_id, KerberosEtype};
use crate::text::{
    concat_after, copy_string, copy_strings, join_strings, join_strs, spec_concat, spec_join,
    spec_str_views, spec_string_views, str_eq, str_from_utf8, strings_match,
};
use crate::wire::{
    decode_u16, decode_u32, extend_bytes, host_is_little_endian, lemma_signed_casts,
    lemma_u16_roundtrip, lemma_u32_roundtrip, push_i32, push_u16, push_u32, spec_decode_u16,
    spec_decode_u32, spec_i32_bytes, spec_u16_bytes, spec_u32_bytes, Endian,
};

verus! {

/// First byte of every keytab file.
pub const KEYTAB_FIRST_BYTE: u8 = 5;

/// Keytab parsing and serialization error.
#[derive(Clone, Debug, Eq, PartialEq)]
pub enum Error {
    /// A keytab name was empty or did not include a path.
    InvalidKeytabName,
    /// The keytab name uses a keytab type this module cannot parse.
    UnsupportedKeytabType {
        /// Keytab type prefix before the first colon.
        keytab_type: String,
    },
    /// Input is too short to contain the keytab header.
    TooShort {
        /// Actual input length.
        actual: usize,
    },
    /// Keytab does not start with the required first byte.
    InvalidFirstByte(u8),
    /// Unsupported keytab version.
    InvalidVersion(u8),
    /// A read would exceed the input length.
    Truncated {
        /// Offset where the read started.
        offset: usize,
        /// Bytes needed.
        needed: usize,
        /// Bytes remaining from offset.
        remaining: usize,
    },
    /// A signed length was negative where the field cannot be negative.
    NegativeLength(i32),
    /// A length cannot fit in the target integer type.
    LengthOverflow,
    /// Principal strings must be valid UTF-8.
    InvalidString,
    /// The encryption type is not implemented.
    UnsupportedEtype(i32),
    /// Key derivation failed.
    Crypto(crate::crypto::Error),
    /// Key lookup did not find a matching entry.
    NoMatchingKey {
        /// Principal components joined by `/`.
        principal: String,
        /// Principal realm.
        realm: String,
        /// Requested kvno, or 0 for latest.
        kvno: u32,
        /// Requested encryption type.
        etype: i32,
    },
}

/// Keytab principal.
#[derive(Clone, Debug, Eq, PartialEq)]
pub struct Principal {
    /// Principal realm.
    pub realm: String,
    /// Principal name components.
    pub components: Vec<String>,
    /// Kerberos name type. Version 1 keytabs omit this and parse as `0`.
    pub name_type: i32,
}

/// A keytab principal as plain values.
pub struct PrincipalModel {
    pub realm: Seq<char>,
    pub components: Seq<Seq<char>>,
    pub name_type: i32,
}

impl View for Principal {
    type V = PrincipalModel;

    open spec fn view(&self) -> PrincipalModel {
        PrincipalModel {
            realm: self.realm@,
            components: spec_string_views(self.components@),
            name_type: self.name_type,
        }
    }
}

/// Kerberos encryption key as stored in a keytab.
#[derive(Clone, Debug, Eq, PartialEq)]
pub struct EncryptionKey {
    /// Kerberos encryption type id.
    pub etype: i32,
    /// Raw key bytes.
    pub value: Vec<u8>,
}

/// A key as plain values.
pub struct EncryptionKeyModel {
    pub etype: i32,
    pub value: Seq<u8>,
}

impl View for EncryptionKey {
    type V = EncryptionKeyModel;

    open spec fn view(&self) -> EncryptionKeyModel {
        EncryptionKeyModel { etype: self.etype, value: self.value@ }
    }
}

/// A keytab entry.
#[derive(Clone, Debug, Eq, PartialEq)]
pub struct Entry {
    /// Principal for the key.
    pub principal: Principal,
    /// POSIX timestamp in seconds.
    pub timestamp: u32,
    /// 8-bit key version number stored in the fixed entry fields.
    pub kvno8: u8,
    /// Long-term key material.
    pub key: EncryptionKey,
    /// 32-bit key version number, falling back to `kvno8` when absent or zero.
    pub kvno: u32,
}

impl Entry {
    /// The entry timestamp as a point in time: whole seconds after the Unix
    /// epoch.
    pub fn system_time(&self) -> (r: UnixTime)
        ensures
            r == (UnixTime { seconds: self.timestamp as i64, nanos: 0 }),
    {
        UnixTime { seconds: self.timestamp as i64, nanos: 0 }
    }
}

/// An entry as plain values.
pub struct EntryModel {
    pub principal: PrincipalModel,
    pub timestamp: u32,
    pub kvno8: u8,
    pub key: EncryptionKeyModel,
    pub kvno: u32,
}

impl View for Entry {
    type V = EntryModel;

    open spec fn view(&self) -> EntryModel {
        EntryModel {
            principal: self.principal@,
            timestamp: self.timestamp,
            kvno8: self.kvno8,
            key: self.key@,
            kvno: self.kvno,
        }
    }
}

/// Parsed keytab file.
#[derive(Clone, Debug, Eq, PartialEq)]
pub struct Keytab {
    version: u8,
    entries: Vec<Entry>,
}

/// A keytab as plain values.
pub struct KeytabModel {
    pub version: u8,
    pub entries: Seq<EntryModel>,
}

impl View for Keytab {
    type V = KeytabModel;

    closed spec fn view(&self) -> KeytabModel {
        KeytabModel { version: self.version, entries: self.entries@.map_values(|e: Entry| e@) }
    }
}

// ---------------------------------------------------------------------------
// Byte order

/// Byte order of a keytab version: version 1 uses the host's order,
/// version 2 big-endian.
pub open spec fn spec_endian(version: u8, host_little: bool) -> Endian {
    if version == 1 && host_little {
        Endian::Little
    } else {
        Endian::Big
    }
}

fn endian_for(version: u8, host_little: bool) -> (r: Endian)
    ensures
        r == spec_endian(version, host_little),
{
    if version == 1 && host_little {
        Endian::Little
    } else {
        Endian::Big
    }
}

// ---------------------------------------------------------------------------
// Reading

/// Outcome of a read at offset `off`: the value and the offset after it.
pub type SpecRead<T> = Result<(T, int), Error>;

/// A read result with the value taken by its view.
pub open spec fn lift<T: View>(r: Result<T, Error>, off: usize) -> SpecRead<T::V> {
    match r {
        Ok(v) => Ok((v@, off as int)),
        Err(e) => Err(e),
    }
}

/// The offset after `len` more bytes from `off`, or the error that a read of
/// them gives.
pub open spec fn spec_checked_end(s: Seq<u8>, off: int, len: int) -> Result<int, Error> {
    if off + len > usize::MAX {
        Err(Error::LengthOverflow)
    } else if off + len > s.len() {
        Err(
            Error::Truncated {
                offset: off as usize,
                needed: len as usize,
                remaining: (if s.len() > off {
                    s.len() - off
                } else {
                    0
                }) as usize,
            },
        )
    } else {
        Ok(off + len)
    }
}

/// `len` raw bytes.
pub open spec fn spec_read_bytes(s: Seq<u8>, off: int, len: int) -> SpecRead<Seq<u8>> {
    match spec_checked_end(s, off, len) {
        Ok(end) => Ok((s.subrange(off, end), end)),
        Err(e) => Err(e),
    }
}

/// One byte.
pub open spec fn spec_read_u8(s: Seq<u8>, off: int) -> SpecRead<u8> {
    match spec_read_bytes(s, off, 1) {
        Ok((b, end)) => Ok((b[0], end)),
        Err(e) => Err(e),
    }
}

/// A 16-bit signed integer.
pub open spec fn spec_read_i16(s: Seq<u8>, off: int, endian: Endian) -> SpecRead<i16> {
    match spec_read_bytes(s, off, 2) {
        Ok((b, end)) => Ok((spec_decode_u16(b[0], b[1], endian) as i16, end)),
        Err(e) => Err(e),
    }
}

/// A 32-bit unsigned integer.
pub open spec fn spec_read_u32(s: Seq<u8>, off: int, endian: Endian) -> SpecRead<u32> {
    match spec_read_bytes(s, off, 4) {
        Ok((b, end)) => Ok((spec_decode_u32(b[0], b[1], b[2], b[3], endian), end)),
        Err(e) => Err(e),
    }
}

/// A 32-bit signed integer.
pub open spec fn spec_read_i32(s: Seq<u8>, off: int, endian: Endian) -> SpecRead<i32> {
    match spec_read_u32(s, off, endian) {
        Ok((v, end)) => Ok((v as i32, end)),
        Err(e) => Err(e),
    }
}

/// UTF-8 text after a 16-bit length, which must not be negative.
pub open spec fn spec_read_counted_string(s: Seq<u8>, off: int, endian: Endian) -> SpecRead<
    Seq<char>,
> {
    match spec_read_i16(s, off, endian) {
        Err(e) => Err(e),
        Ok((len, o1)) => if len < 0 {
            Err(Error::NegativeLength(len as i32))
        } else {
            match spec_read_bytes(s, o1, len as int) {
                Err(e) => Err(e),
                Ok((raw, o2)) => if valid_utf8(raw) {
                    Ok((decode_utf8(raw), o2))
                } else {
                    Err(Error::InvalidString)
                },
            }
        },
    }
}

fn checked_end(bytes: &[u8], offset: usize, len: usize) -> (r: Result<usize, Error>)
    requires
        offset <= bytes@.len(),
    ensures
        match r {
            Ok(end) => spec_checked_end(bytes@, offset as int, len as int) == Ok::<int, Error>(
                end as int,
            ),
            Err(e) => spec_checked_end(bytes@, offset as int, len as int) == Err::<int, Error>(e),
        },
{
    if len > usize::MAX - offset {
        return Err(Error::LengthOverflow);
    }
    let end = offset + len;
    if end > bytes.len() {
        return Err(Error::Truncated { offset, needed: len, remaining: bytes.len() - offset });
    }
    Ok(end)
}

fn read_bytes<'a>(bytes: &'a [u8], offset: &mut usize, len: usize) -> (r: Result<&'a [u8], Error>)
    requires
        *old(offset) <= bytes@.len(),
    ensures
        spec_read_bytes(bytes@, *old(offset) as int, len as int) == lift(r, *final(offset)),
        *final(offset) <= bytes@.len(),
{
    let start = *offset;
    let end = checked_end(bytes, start, len)?;
    *offset = end;
    Ok(&bytes[start..end])
}

fn read_u8(bytes: &[u8], offset: &mut usize) -> (r: Result<u8, Error>)
    requires
        *old(offset) <= bytes@.len(),
    ensures
        spec_read_u8(bytes@, *old(offset) as int) == lift(r, *final(offset)),
        *final(offset) <= bytes@.len(),
{
    let raw = read_bytes(bytes, offset, 1)?;
    Ok(raw[0])
}

fn read_i16(bytes: &[u8], offset: &mut usize, endian: Endian) -> (r: Result<i16, Error>)
    requires
        *old(offset) <= bytes@.len(),
    ensures
        spec_read_i16(bytes@, *old(offset) as int, endian) == lift(r, *final(offset)),
        *final(offset) <= bytes@.len(),
{
    let raw = read_bytes(bytes, offset, 2)?;
    Ok(decode_u16(raw[0], raw[1], endian) as i16)
}

fn read_u32(bytes: &[u8], offset: &mut usize, endian: Endian) -> (r: Result<u32, Error>)
    requires
        *old(offset) <= bytes@.len(),
    ensures
        spec_read_u32(bytes@, *old(offset) as int, endian) == lift(r, *final(offset)),
        *final(offset) <= bytes@.len(),
{
    let raw = read_bytes(bytes, offset, 4)?;
    Ok(decode_u32(raw[0], raw[1], raw[2], raw[3], endian))
}

fn read_i32(bytes: &[u8], offset: &mut usize, endian: Endian) -> (r: Result<i32, Error>)
    requires
        *old(offset) <= bytes@.len(),
    ensures
        spec_read_i32(bytes@, *old(offset) as int, endian) == lift(r, *final(offset)),
        *final(offset) <= bytes@.len(),
{
    let v = read_u32(bytes, offset, endian)?;
    Ok(v as i32)
}

fn read_counted_string(bytes: &[u8], offset: &mut usize, endian: Endian) -> (r: Result<
    String,
    Error,
>)
    requires
        *old(offset) <= bytes@.len(),
    ensures
        spec_read_counted_string(bytes@, *old(offset) as int, endian) == lift(r, *final(offset)),
        *final(offset) <= bytes@.len(),
{
    let len = read_i16(bytes, offset, endian)?;
    if len < 0 {
        return Err(Error::NegativeLength(len as i32));
    }
    let raw = read_bytes(bytes, offset, len as usize)?;
    match str_from_utf8(raw) {
        Some(s) => Ok(s.to_owned()),
        None => Err(Error::InvalidString),
    }
}


/// `n` length-prefixed strings in a row.
pub open spec fn spec_read_strings(s: Seq<u8>, off: int, n: nat, endian: Endian) -> SpecRead<
    Seq<Seq<char>>,
>
    decreases n,
{
    if n == 0 {
        Ok((Seq::empty(), off))
    } else {
        match spec_read_strings(s, off, (n - 1) as nat, endian) {
            Ok((xs, o)) => match spec_read_counted_string(s, o, endian) {
                Ok((x, o2)) => Ok((xs.push(x), o2)),
                Err(e) => Err(e),
            },
            Err(e) => Err(e),
        }
    }
}

pub(crate) proof fn lemma_read_strings_err(s: Seq<u8>, off: int, k: nat, n: nat, endian: Endian)
    requires
        k <= n,
        spec_read_strings(s, off, k, endian) is Err,
    ensures
        spec_read_strings(s, off, n, endian) == spec_read_strings(s, off, k, endian),
    decreases n,
{
    if n > k {
        lemma_read_strings_err(s, off, k, (n - 1) as nat, endian);
    }
}

/// Component count of a principal: version 1 stores one more than the number
/// of name components.
pub open spec fn spec_component_count(raw: i16, version: u8) -> Result<int, Error> {
    if version == 1 {
        if raw == i16::MIN {
            Err(Error::LengthOverflow)
        } else {
            Ok(raw - 1)
        }
    } else {
        Ok(raw as int)
    }
}

/// A principal: component count, realm, components, and name type (absent
/// in version 1).
#[verifier::opaque]
pub open spec fn spec_read_principal(s: Seq<u8>, off: int, version: u8, endian: Endian) -> SpecRead<
    PrincipalModel,
> {
    match spec_read_i16(s, off, endian) {
        Err(e) => Err(e),
        Ok((raw, o1)) => match spec_component_count(raw, version) {
            Err(e) => Err(e),
            Ok(count) => if count < 0 {
                Err(Error::NegativeLength(count as i32))
            } else {
                match spec_read_counted_string(s, o1, endian) {
                    Err(e) => Err(e),
                    Ok((realm, o2)) => match spec_read_strings(s, o2, count as nat, endian) {
                        Err(e) => Err(e),
                        Ok((components, o3)) => {
                            let name_type = if version == 1 {
                                Ok((0i32, o3))
                            } else {
                                spec_read_i32(s, o3, endian)
                            };
                            match name_type {
                                Err(e) => Err(e),
                                Ok((name_type, o4)) => Ok(
                                    (PrincipalModel { realm, components, name_type }, o4),
                                ),
                            }
                        },
                    }
                }
            },
        },
    }
}

/// One entry, read from its own bytes `s`: principal, timestamp, 8-bit
/// kvno, encryption type, key, and an optional 32-bit kvno that falls back
/// to the 8-bit one when absent or zero.
#[verifier::opaque]
pub open spec fn spec_read_entry(s: Seq<u8>, version: u8, endian: Endian) -> Result<
    EntryModel,
    Error,
> {
    match spec_read_principal(s, 0, version, endian) {
        Err(e) => Err(e),
        Ok((principal, o1)) => match spec_read_u32(s, o1, endian) {
            Err(e) => Err(e),
            Ok((timestamp, o2)) => match spec_read_u8(s, o2) {
                Err(e) => Err(e),
                Ok((kvno8, o3)) => match spec_read_i16(s, o3, endian) {
                    Err(e) => Err(e),
                    Ok((etype, o4)) => match spec_read_i16(s, o4, endian) {
                        Err(e) => Err(e),
                        Ok((key_len, o5)) => if key_len < 0 {
                            Err(Error::NegativeLength(key_len as i32))
                        } else {
                            match spec_read_bytes(s, o5, key_len as int) {
                                Err(e) => Err(e),
                                Ok((value, o6)) => {
                                    let kvno = if s.len() - o6 >= 4 {
                                        spec_read_u32(s, o6, endian)
                                    } else {
                                        Ok((kvno8 as u32, o6))
                                    };
                                    match kvno {
                                        Err(e) => Err(e),
                                        Ok((kvno, _)) => Ok(
                                            EntryModel {
                                                principal,
                                                timestamp,
                                                kvno8,
                                                key: EncryptionKeyModel { etype: etype as i32, value },
                                                kvno: if kvno == 0 {
                                                    kvno8 as u32
                                                } else {
                                                    kvno
                                                },
                                            },
                                        ),
                                    }
                                },
                            }
                        },
                    },
                },
            },
        },
    }
}

/// Prefix every parsed item of a successful read with `acc`.
pub open spec fn spec_prepend<T>(acc: Seq<T>, r: SpecRead<Seq<T>>) -> SpecRead<Seq<T>> {
    match r {
        Ok((xs, o)) => Ok((acc + xs, o)),
        Err(e) => Err(e),
    }
}

proof fn lemma_prepend_empty<T>(r: SpecRead<Seq<T>>)
    ensures
        spec_prepend(Seq::<T>::empty(), r) == r,
{
    if let Ok((xs, o)) = r {
        assert(Seq::<T>::empty() + xs =~= xs);
    }
}

proof fn lemma_prepend_step<T>(acc: Seq<T>, x: T, r: SpecRead<Seq<T>>)
    ensures
        spec_prepend(acc, match r {
            Ok((xs, o)) => Ok((seq![x] + xs, o)),
            Err(e) => Err(e),
        }) == spec_prepend(acc.push(x), r),
{
    if let Ok((xs, o)) = r {
        assert(acc + (seq![x] + xs) =~= acc.push(x) + xs);
    }
}

pub proof fn lemma_checked_end(s: Seq<u8>, off: int, len: int)
    ensures
        spec_checked_end(s, off, len) matches Ok(end) ==> end == off + len && end <= s.len(),
{
}

/// Entries from `off` while at least four bytes remain: a 32-bit length,
/// then the entry. A zero length ends the list, and a negative one marks a
/// hole of that many bytes to skip.
pub open spec fn spec_read_entries(s: Seq<u8>, off: int, version: u8, endian: Endian) -> SpecRead<
    Seq<EntryModel>,
>
    decreases s.len() - off,
{
    if off > s.len() || s.len() - off < 4 {
        Ok((Seq::empty(), off))
    } else {
        match spec_read_i32(s, off, endian) {
            Err(e) => Err(e),
            Ok((entry_len, o1)) => if entry_len == 0 {
                Ok((Seq::empty(), o1))
            } else if entry_len < 0 {
                if entry_len == i32::MIN {
                    Err(Error::LengthOverflow)
                } else {
                    match spec_checked_end(s, o1, -entry_len) {
                        Err(e) => Err(e),
                        Ok(end) => {
                            proof {
                                lemma_checked_end(s, o1, -entry_len);
                            }
                            spec_read_entries(s, end, version, endian)
                        },
                    }
                }
            } else {
                match spec_checked_end(s, o1, entry_len as int) {
                    Err(e) => Err(e),
                    Ok(end) => match spec_read_entry(s.subrange(o1, end), version, endian) {
                        Err(e) => Err(e),
                        Ok(entry) => {
                            proof {
                                lemma_checked_end(s, o1, entry_len as int);
                            }
                            match spec_read_entries(s, end, version, endian) {
                                Ok((es, o2)) => Ok((seq![entry] + es, o2)),
                                Err(e) => Err(e),
                            }
                        },
                    },
                }
            },
        }
    }
}

/// A whole keytab file, read with the host byte order given by
/// `host_little` (it matters for version 1 only).
pub open spec fn spec_parse_keytab(s: Seq<u8>, host_little: bool) -> Result<KeytabModel, Error> {
    if s.len() < 2 {
        Err(Error::TooShort { actual: s.len() as usize })
    } else if s[0] != KEYTAB_FIRST_BYTE {
        Err(Error::InvalidFirstByte(s[0]))
    } else if s[1] != 1 && s[1] != 2 {
        Err(Error::InvalidVersion(s[1]))
    } else {
        match spec_read_entries(s, 2, s[1], spec_endian(s[1], host_little)) {
            Err(e) => Err(e),
            Ok((entries, _)) => Ok(KeytabModel { version: s[1], entries }),
        }
    }
}

/// A parse result taken by its view.
pub open spec fn spec_keytab_result(r: Result<Keytab, Error>) -> Result<KeytabModel, Error> {
    match r {
        Ok(k) => Ok(k@),
        Err(e) => Err(e),
    }
}

impl Principal {
    #[verifier::loop_isolation(false)]
    fn parse(bytes: &[u8], offset: &mut usize, version: u8, endian: Endian) -> (r: Result<
        Self,
        Error,
    >)
        requires
            *old(offset) <= bytes@.len(),
        ensures
            spec_read_principal(bytes@, *old(offset) as int, version, endian) == lift(
                r,
                *final(offset),
            ),
            *final(offset) <= bytes@.len(),
    {
        reveal(spec_read_principal);
        let mut component_count = read_i16(bytes, offset, endian)?;
        if version == 1 {
            if component_count == i16::MIN {
                return Err(Error::LengthOverflow);
            }
            component_count = component_count - 1;
        }
        if component_count < 0 {
            return Err(Error::NegativeLength(component_count as i32));
        }
        let realm = read_counted_string(bytes, offset, endian)?;
        let ghost start = *offset;
        let mut components: Vec<String> = Vec::new();
        assert(spec_string_views(components@) =~= Seq::<Seq<char>>::empty());
        let mut i: i16 = 0;
        while i < component_count
            invariant
                0 <= i <= component_count,
                *offset <= bytes@.len(),
                spec_read_strings(bytes@, start as int, i as nat, endian) == Ok::<
                    (Seq<Seq<char>>, int),
                    Error,
                >((spec_string_views(components@), *offset as int)),
            decreases component_count - i,
        {
            let ghost before = components@;
            let c = match read_counted_string(bytes, offset, endian) {
                Ok(c) => c,
                Err(e) => {
                    proof {
                        lemma_read_strings_err(bytes@, start as int, (i + 1) as nat,
                            component_count as nat, endian);
                    }
                    return Err(e);
                },
            };
            components.push(c);
            i = i + 1;
            assert(spec_string_views(components@) =~= spec_string_views(before).push(c@));
        }
        let name_type = if version == 1 {
            0
        } else {
            read_i32(bytes, offset, endian)?
        };
        Ok(Principal { realm, components, name_type })
    }
}

impl Entry {
    fn parse(bytes: &[u8], version: u8, endian: Endian) -> (r: Result<Self, Error>)
        ensures
            match r {
                Ok(e) => spec_read_entry(bytes@, version, endian) == Ok::<EntryModel, Error>(e@),
                Err(e) => spec_read_entry(bytes@, version, endian) == Err::<EntryModel, Error>(e),
            },
    {
        reveal(spec_read_entry);
        let mut offset: usize = 0;
        let principal = Principal::parse(bytes, &mut offset, version, endian)?;
        let timestamp = read_u32(bytes, &mut offset, endian)?;
        let kvno8 = read_u8(bytes, &mut offset)?;
        let etype = read_i16(bytes, &mut offset, endian)? as i32;
        let key_len = read_i16(bytes, &mut offset, endian)?;
        if key_len < 0 {
            return Err(Error::NegativeLength(key_len as i32));
        }
        let key_value = vstd::slice::slice_to_vec(read_bytes(bytes, &mut offset, key_len as usize)?);
        let mut kvno = if bytes.len() - offset >= 4 {
            read_u32(bytes, &mut offset, endian)?
        } else {
            kvno8 as u32
        };
        if kvno == 0 {
            kvno = kvno8 as u32;
        }
        Ok(Entry { principal, timestamp, kvno8, key: EncryptionKey { etype, value: key_value }, kvno })
    }
}

impl Keytab {
    /// Create an empty version 2 keytab.
    pub fn new() -> (r: Self)
        ensures
            r@.version == 2,
            r@.entries.len() == 0,
    {
        Keytab { version: 2, entries: Vec::new() }
    }

    /// Parse keytab bytes.
    ///
    /// Version 1 stores integers in the host's byte order; the result is the
    /// parse under that order.
    #[verifier::loop_isolation(false)]
    pub fn parse(bytes: &[u8]) -> (r: Result<Self, Error>)
        ensures
            exists|host_little: bool| spec_parse_keytab(bytes@, host_little) == spec_keytab_result(r),
    {
        Self::parse_with_host_order(bytes, host_is_little_endian())
    }

    /// Parse bytes written by a host of the given byte order (it matters
    /// for the versions that store integers in host order).
    #[verifier::loop_isolation(false)]
    pub fn parse_with_host_order(bytes: &[u8], host_little: bool) -> (r: Result<Self, Error>)
        ensures
            spec_parse_keytab(bytes@, host_little) == spec_keytab_result(r),
    {
        if bytes.len() < 2 {
            assert(spec_parse_keytab(bytes@, host_little) == spec_keytab_result(
                Err::<Keytab, Error>(Error::TooShort { actual: bytes.len() }),
            ));
            return Err(Error::TooShort { actual: bytes.len() });
        }
        if bytes[0] != KEYTAB_FIRST_BYTE {
            assert(spec_parse_keytab(bytes@, host_little) == spec_keytab_result(
                Err::<Keytab, Error>(Error::InvalidFirstByte(bytes[0])),
            ));
            return Err(Error::InvalidFirstByte(bytes[0]));
        }
        let version = bytes[1];
        if version != 1 && version != 2 {
            assert(spec_parse_keytab(bytes@, host_little) == spec_keytab_result(
                Err::<Keytab, Error>(Error::InvalidVersion(version)),
            ));
            return Err(Error::InvalidVersion(version));
        }
        let endian = endian_for(version, host_little);
        let mut offset: usize = 2;
        let mut entries: Vec<Entry> = Vec::new();
        proof {
            lemma_prepend_empty(spec_read_entries(bytes@, 2, version, endian));
        }
        while bytes.len() - offset >= 4
            invariant
                2 <= offset <= bytes@.len(),
                spec_read_entries(bytes@, 2, version, endian) == spec_prepend(
                    entries@.map_values(|e: Entry| e@),
                    spec_read_entries(bytes@, offset as int, version, endian),
                ),
            decreases bytes@.len() - offset,
        {
            let ghost o = offset;
            let ghost before = entries@;
            let entry_len = match read_i32(bytes, &mut offset, endian) {
                Ok(v) => v,
                Err(e) => {
                    assert(spec_parse_keytab(bytes@, host_little) == spec_keytab_result(
                        Err::<Keytab, Error>(e),
                    ));
                    return Err(e);
                },
            };
            if entry_len == 0 {
                break;
            }
            if entry_len < 0 {
                if entry_len == i32::MIN {
                    assert(spec_parse_keytab(bytes@, host_little) == spec_keytab_result(
                        Err::<Keytab, Error>(Error::LengthOverflow),
                    ));
                    return Err(Error::LengthOverflow);
                }
                let skip = (-entry_len) as usize;
                offset = match checked_end(bytes, offset, skip) {
                    Ok(end) => end,
                    Err(e) => {
                        assert(spec_parse_keytab(bytes@, host_little) == spec_keytab_result(
                            Err::<Keytab, Error>(e),
                        ));
                        return Err(e);
                    },
                };
                continue;
            }
            let end = match checked_end(bytes, offset, entry_len as usize) {
                Ok(end) => end,
                Err(e) => {
                    assert(spec_parse_keytab(bytes@, host_little) == spec_keytab_result(
                        Err::<Keytab, Error>(e),
                    ));
                    return Err(e);
                },
            };
            let entry_bytes = &bytes[offset..end];
            let entry = match Entry::parse(entry_bytes, version, endian) {
                Ok(entry) => entry,
                Err(e) => {
                    assert(spec_parse_keytab(bytes@, host_little) == spec_keytab_result(
                        Err::<Keytab, Error>(e),
                    ));
                    return Err(e);
                },
            };
            proof {
                lemma_prepend_step(
                    before.map_values(|e: Entry| e@),
                    entry@,
                    spec_read_entries(bytes@, end as int, version, endian),
                );
            }
            offset = end;
            entries.push(entry);
            assert(entries@.map_values(|e: Entry| e@) =~= before.map_values(|e: Entry| e@).push(
                entry@,
            ));
        }
        let k = Keytab { version, entries };
        assert(spec_parse_keytab(bytes@, host_little) == spec_keytab_result(Ok::<Keytab, Error>(k)));
        Ok(k)
    }
}


// ---------------------------------------------------------------------------
// Writing

/// Outcome of serializing a part: its bytes, or the error that stops it.
pub type SpecWrite = Result<Seq<u8>, Error>;

/// `a` followed by `b`; the first error wins.
pub open spec fn spec_then(a: SpecWrite, b: SpecWrite) -> SpecWrite {
    match a {
        Err(e) => Err(e),
        Ok(x) => match b {
            Err(e) => Err(e),
            Ok(y) => Ok(x + y),
        },
    }
}

/// A value that must fit in a `u16`.
pub open spec fn spec_u16_checked(v: int, endian: Endian) -> SpecWrite {
    if 0 <= v <= u16::MAX {
        Ok(spec_u16_bytes(v as u16, endian))
    } else {
        Err(Error::LengthOverflow)
    }
}

/// UTF-8 text after its 16-bit length.
pub open spec fn spec_string_bytes(text: Seq<char>, endian: Endian) -> SpecWrite {
    spec_then(spec_u16_checked(encode_utf8(text).len() as int, endian), Ok(encode_utf8(text)))
}

/// Several length-prefixed strings in a row.
pub open spec fn spec_strings_bytes(xs: Seq<Seq<char>>, endian: Endian) -> SpecWrite
    decreases xs.len(),
{
    if xs.len() == 0 {
        Ok(Seq::empty())
    } else {
        spec_then(spec_strings_bytes(xs.drop_last(), endian), spec_string_bytes(xs.last(), endian))
    }
}

/// A principal as stored by `version`.
#[verifier::opaque]
pub open spec fn spec_principal_bytes(p: PrincipalModel, version: u8, endian: Endian) -> SpecWrite {
    let count: int = if version == 1 {
        p.components.len() as int + 1
    } else {
        p.components.len() as int
    };
    spec_then(
        spec_u16_checked(count, endian),
        spec_then(
            spec_string_bytes(p.realm, endian),
            spec_then(
                spec_strings_bytes(p.components, endian),
                Ok(
                    if version != 1 {
                        spec_i32_bytes(p.name_type, endian)
                    } else {
                        Seq::empty()
                    },
                ),
            ),
        ),
    )
}

/// The body of an entry.
#[verifier::opaque]
pub open spec fn spec_entry_body(en: EntryModel, version: u8, endian: Endian) -> SpecWrite {
    spec_then(
        spec_principal_bytes(en.principal, version, endian),
        spec_then(
            Ok(spec_u32_bytes(en.timestamp, endian).push(en.kvno8)),
            spec_then(
                spec_u16_checked(en.key.etype as int, endian),
                spec_then(
                    spec_u16_checked(en.key.value.len() as int, endian),
                    Ok(en.key.value + spec_u32_bytes(en.kvno, endian)),
                ),
            ),
        ),
    )
}

/// An entry: its body's 32-bit length, then the body.
pub open spec fn spec_entry_bytes(en: EntryModel, version: u8, endian: Endian) -> SpecWrite {
    match spec_entry_body(en, version, endian) {
        Err(e) => Err(e),
        Ok(body) => if body.len() > i32::MAX {
            Err(Error::LengthOverflow)
        } else {
            Ok(spec_i32_bytes(body.len() as i32, endian) + body)
        },
    }
}

/// Entries in a row.
pub open spec fn spec_entries_bytes(es: Seq<EntryModel>, version: u8, endian: Endian) -> SpecWrite
    decreases es.len(),
{
    if es.len() == 0 {
        Ok(Seq::empty())
    } else {
        spec_then(
            spec_entries_bytes(es.drop_last(), version, endian),
            spec_entry_bytes(es.last(), version, endian),
        )
    }
}

/// A whole keytab file, written with the host byte order given by
/// `host_little` (it matters for version 1 only).
pub open spec fn spec_keytab_bytes(k: KeytabModel, host_little: bool) -> SpecWrite {
    spec_then(
        Ok(seq![KEYTAB_FIRST_BYTE, k.version]),
        spec_entries_bytes(k.entries, k.version, spec_endian(k.version, host_little)),
    )
}

/// Whether a call that appended to a buffer did what `expected` says.
pub open spec fn spec_appended(
    before: Seq<u8>,
    after: Seq<u8>,
    r: Result<(), Error>,
    expected: SpecWrite,
) -> bool {
    match (r, expected) {
        (Ok(_), Ok(b)) => after == before + b,
        (Err(e1), Err(e2)) => e1 == e2,
        _ => false,
    }
}

fn write_u16_checked(out: &mut Vec<u8>, value: i64, endian: Endian) -> (r: Result<(), Error>)
    ensures
        spec_appended(old(out)@, final(out)@, r, spec_u16_checked(value as int, endian)),
{
    if value < 0 || value > 65535 {
        return Err(Error::LengthOverflow);
    }
    push_u16(out, value as u16, endian);
    Ok(())
}

fn write_counted_string(out: &mut Vec<u8>, value: &str, endian: Endian) -> (r: Result<
    (),
    Error,
>)
    ensures
        spec_appended(old(out)@, final(out)@, r, spec_string_bytes(value@, endian)),
{
    let bytes = value.as_bytes();
    if bytes.len() > 65535 {
        return Err(Error::LengthOverflow);
    }
    write_u16_checked(out, bytes.len() as i64, endian)?;
    extend_bytes(out, bytes);
    assert(out@ =~= old(out)@ + spec_string_bytes(value@, endian)->Ok_0);
    Ok(())
}

pub(crate) proof fn lemma_strings_bytes_err(xs: Seq<Seq<char>>, k: int, endian: Endian)
    requires
        0 <= k <= xs.len(),
        spec_strings_bytes(xs.subrange(0, k), endian) is Err,
    ensures
        spec_strings_bytes(xs, endian) == spec_strings_bytes(xs.subrange(0, k), endian),
    decreases xs.len() - k,
{
    if k < xs.len() {
        assert(xs.subrange(0, xs.len() - 1).subrange(0, k) =~= xs.subrange(0, k));
        assert(xs.drop_last() =~= xs.subrange(0, xs.len() - 1));
        lemma_strings_bytes_err(xs.subrange(0, xs.len() - 1), k, endian);
    } else {
        assert(xs.subrange(0, k) =~= xs);
    }
}

proof fn lemma_entries_bytes_err(xs: Seq<EntryModel>, k: int, version: u8, endian: Endian)
    requires
        0 <= k <= xs.len(),
        spec_entries_bytes(xs.subrange(0, k), version, endian) is Err,
    ensures
        spec_entries_bytes(xs, version, endian) == spec_entries_bytes(xs.subrange(0, k), version, endian),
    decreases xs.len() - k,
{
    if k < xs.len() {
        assert(xs.subrange(0, xs.len() - 1).subrange(0, k) =~= xs.subrange(0, k));
        assert(xs.drop_last() =~= xs.subrange(0, xs.len() - 1));
        lemma_entries_bytes_err(xs.subrange(0, xs.len() - 1), k, version, endian);
    } else {
        assert(xs.subrange(0, k) =~= xs);
    }
}

impl Principal {
    #[verifier::loop_isolation(false)]
    #[verifier::spinoff_prover]
    #[verifier::rlimit(80)]
    fn write_to(&self, out: &mut Vec<u8>, version: u8, endian: Endian) -> (r: Result<(), Error>)
        ensures
            spec_appended(old(out)@, final(out)@, r, spec_principal_bytes(self@, version, endian)),
    {
        reveal(spec_principal_bytes);
        let ghost start = out@;
        if self.components.len() > 65535 {
            return Err(Error::LengthOverflow);
        }
        let component_count = if version == 1 {
            self.components.len() + 1
        } else {
            self.components.len()
        };
        write_u16_checked(out, component_count as i64, endian)?;
        write_counted_string(out, self.realm.as_str(), endian)?;
        let ghost after_realm = out@;
        let ghost comps = spec_string_views(self.components@);
        let mut i: usize = 0;
        assert(comps.subrange(0, 0) =~= Seq::<Seq<char>>::empty());
        assert(after_realm =~= after_realm + Seq::<u8>::empty());
        while i < self.components.len()
            invariant
                i <= self.components@.len(),
                comps == spec_string_views(self.components@),
                spec_strings_bytes(comps.subrange(0, i as int), endian) is Ok,
                out@ == after_realm + spec_strings_bytes(comps.subrange(0, i as int), endian)->Ok_0,
            decreases self.components@.len() - i,
        {
            assert(comps.subrange(0, i + 1).drop_last() =~= comps.subrange(0, i as int));
            match write_counted_string(out, self.components[i].as_str(), endian) {
                Ok(()) => {},
                Err(e) => {
                    proof {
                        lemma_strings_bytes_err(comps, i + 1, endian);
                    }
                    return Err(e);
                },
            }
            i = i + 1;
            assert(out@ =~= after_realm + spec_strings_bytes(comps.subrange(0, i as int), endian)->Ok_0);
        }
        assert(comps.subrange(0, self.components@.len() as int) =~= comps);
        let ghost after_comps = out@;
        if version != 1 {
            push_i32(out, self.name_type, endian);
        }
        assert(out@ =~= start + spec_principal_bytes(self@, version, endian)->Ok_0);
        Ok(())
    }
}

impl Entry {
    #[verifier::spinoff_prover]
    fn write_body(&self, out: &mut Vec<u8>, version: u8, endian: Endian) -> (r: Result<(), Error>)
        ensures
            spec_appended(old(out)@, final(out)@, r, spec_entry_body(self@, version, endian)),
    {
        reveal(spec_entry_body);
        self.principal.write_to(out, version, endian)?;
        let ghost m1 = out@;
        push_u32(out, self.timestamp, endian);
        out.push(self.kvno8);
        let ghost m2 = out@;
        write_u16_checked(out, self.key.etype as i64, endian)?;
        let ghost m3 = out@;
        if self.key.value.len() > 65535 {
            return Err(Error::LengthOverflow);
        }
        write_u16_checked(out, self.key.value.len() as i64, endian)?;
        let ghost m4 = out@;
        extend_bytes(out, self.key.value.as_slice());
        push_u32(out, self.kvno, endian);
        assert(out@ =~= old(out)@ + spec_entry_body(self@, version, endian)->Ok_0);
        Ok(())
    }
}

impl Keytab {
    /// Serialize the keytab to bytes.
    ///
    /// Version 1 stores integers in the host's byte order.
    #[verifier::loop_isolation(false)]
    pub fn to_bytes(&self) -> (r: Result<Vec<u8>, Error>)
        ensures
            exists|host_little: bool|
                match (r, #[trigger] spec_keytab_bytes(self@, host_little)) {
                    (Ok(b), Ok(x)) => b@ == x,
                    (Err(e1), Err(e2)) => e1 == e2,
                    _ => false,
                },
    {
        let little = host_is_little_endian();
        let r = self.to_bytes_with_host_order(little);
        assert(match (r, spec_keytab_bytes(self@, little)) {
            (Ok(b), Ok(x)) => b@ == x,
            (Err(e1), Err(e2)) => e1 == e2,
            _ => false,
        });
        r
    }

    /// Serialize for a host of the given byte order (it matters for the
    /// versions that store integers in host order).
    #[verifier::loop_isolation(false)]
    pub fn to_bytes_with_host_order(&self, host_little: bool) -> (r: Result<Vec<u8>, Error>)
        ensures
            match (r, spec_keytab_bytes(self@, host_little)) {
                (Ok(b), Ok(x)) => b@ == x,
                (Err(e1), Err(e2)) => e1 == e2,
                _ => false,
            },
    {
        let endian = endian_for(self.version, host_little);
        let ghost model = self@;
        let mut out: Vec<u8> = Vec::new();
        out.push(KEYTAB_FIRST_BYTE);
        out.push(self.version);
        let ghost m0 = out@;
        let ghost es = model.entries;
        let mut i: usize = 0;
        assert(es.subrange(0, 0) =~= Seq::<EntryModel>::empty());
        assert(m0 =~= m0 + Seq::<u8>::empty());
        while i < self.entries.len()
            invariant
                i <= self.entries@.len(),
                es == self.entries@.map_values(|e: Entry| e@),
                spec_entries_bytes(es.subrange(0, i as int), self.version, endian) is Ok,
                out@ == m0 + spec_entries_bytes(es.subrange(0, i as int), self.version, endian)->Ok_0,
            decreases self.entries@.len() - i,
        {
            assert(es.subrange(0, i + 1).drop_last() =~= es.subrange(0, i as int));
            assert(es.subrange(0, i + 1).last() == self.entries@[i as int]@);
            let mut body: Vec<u8> = Vec::new();
            let r = self.entries[i].write_body(&mut body, self.version, endian);
            assert(body@ =~= Seq::<u8>::empty() + body@);
            let failure = match r {
                Ok(()) => if body.len() > 0x7fff_ffff {
                    Some(Error::LengthOverflow)
                } else {
                    None
                },
                Err(e) => Some(e),
            };
            if let Some(e) = failure {
                proof {
                    lemma_entries_bytes_err(es, i + 1, self.version, endian);
                }
                assert(spec_keytab_bytes(model, host_little) == Err::<Seq<u8>, Error>(e));
                return Err(e);
            }
            push_i32(&mut out, body.len() as i32, endian);
            extend_bytes(&mut out, body.as_slice());
            i = i + 1;
            assert(out@ =~= m0 + spec_entries_bytes(es.subrange(0, i as int), self.version, endian)->Ok_0);
        }
        assert(es.subrange(0, self.entries@.len() as int) =~= es);
        assert(out@ =~= spec_keytab_bytes(model, host_little)->Ok_0);
        Ok(out)
    }
}


// ---------------------------------------------------------------------------
// Reading back what was written

/// `s` holds `b` at `off`, and is short enough to be held in memory.
pub open spec fn spec_holds_at(s: Seq<u8>, off: int, b: Seq<u8>) -> bool {
    0 <= off && off + b.len() <= s.len() && s.len() <= usize::MAX && s.subrange(off, off + b.len())
        == b
}

proof fn lemma_holds_split(s: Seq<u8>, off: int, a: Seq<u8>, b: Seq<u8>)
    requires
        spec_holds_at(s, off, a + b),
    ensures
        spec_holds_at(s, off, a),
        spec_holds_at(s, off + a.len(), b),
{
    assert(s.subrange(off, off + a.len()) =~= (a + b).subrange(0, a.len() as int));
    assert((a + b).subrange(0, a.len() as int) =~= a);
    assert(s.subrange(off + a.len(), off + a.len() + b.len()) =~= (a + b).subrange(
        a.len() as int,
        (a + b).len() as int,
    ));
    assert((a + b).subrange(a.len() as int, (a + b).len() as int) =~= b);
}

proof fn lemma_then_assoc(a: SpecWrite, b: SpecWrite, c: SpecWrite)
    ensures
        spec_then(spec_then(a, b), c) == spec_then(a, spec_then(b, c)),
{
    if let (Ok(x), Ok(y), Ok(z)) = (a, b, c) {
        assert((x + y) + z =~= x + (y + z));
    }
}

proof fn lemma_read_back_bytes(s: Seq<u8>, off: int, b: Seq<u8>)
    requires
        spec_holds_at(s, off, b),
    ensures
        spec_read_bytes(s, off, b.len() as int) == Ok::<(Seq<u8>, int), Error>((b, off + b.len())),
{
}

proof fn lemma_read_back_small_u16(s: Seq<u8>, off: int, v: u16, endian: Endian)
    requires
        v <= 32767,
        spec_holds_at(s, off, spec_u16_bytes(v, endian)),
    ensures
        spec_read_i16(s, off, endian) == Ok::<(i16, int), Error>((v as i16, off + 2)),
        v as i16 == v as int,
{
    lemma_read_back_bytes(s, off, spec_u16_bytes(v, endian));
    lemma_u16_roundtrip(v, endian);
}

proof fn lemma_read_back_u32(s: Seq<u8>, off: int, v: u32, endian: Endian)
    requires
        spec_holds_at(s, off, spec_u32_bytes(v, endian)),
    ensures
        spec_read_u32(s, off, endian) == Ok::<(u32, int), Error>((v, off + 4)),
{
    lemma_read_back_bytes(s, off, spec_u32_bytes(v, endian));
    lemma_u32_roundtrip(v, endian);
}

proof fn lemma_read_back_i32(s: Seq<u8>, off: int, v: i32, endian: Endian)
    requires
        spec_holds_at(s, off, spec_i32_bytes(v, endian)),
    ensures
        spec_read_i32(s, off, endian) == Ok::<(i32, int), Error>((v, off + 4)),
{
    lemma_read_back_u32(s, off, v as u32, endian);
    lemma_signed_casts(0, v);
}

/// Whether text survives a 16-bit signed length: at most 32767 bytes.
pub open spec fn spec_string_representable(text: Seq<char>) -> bool {
    encode_utf8(text).len() <= i16::MAX
}

proof fn lemma_read_back_string(s: Seq<u8>, off: int, x: Seq<char>, endian: Endian)
    requires
        spec_string_representable(x),
        spec_holds_at(s, off, spec_string_bytes(x, endian)->Ok_0),
    ensures
        spec_read_counted_string(s, off, endian) == Ok::<(Seq<char>, int), Error>(
            (x, off + spec_string_bytes(x, endian)->Ok_0.len()),
        ),
{
    let b = encode_utf8(x);
    let lb = spec_u16_bytes(b.len() as u16, endian);
    lemma_holds_split(s, off, lb, b);
    lemma_read_back_small_u16(s, off, b.len() as u16, endian);
    lemma_read_back_bytes(s, off + 2, b);
    vstd::utf8::encode_utf8_valid_utf8(x);
    vstd::utf8::encode_utf8_decode_utf8(x);
}

proof fn lemma_read_back_strings(s: Seq<u8>, off: int, xs: Seq<Seq<char>>, endian: Endian)
    requires
        forall|i: int| 0 <= i < xs.len() ==> spec_string_representable(#[trigger] xs[i]),
        spec_strings_bytes(xs, endian) is Ok,
        spec_holds_at(s, off, spec_strings_bytes(xs, endian)->Ok_0),
    ensures
        spec_read_strings(s, off, xs.len(), endian) == Ok::<(Seq<Seq<char>>, int), Error>(
            (xs, off + spec_strings_bytes(xs, endian)->Ok_0.len()),
        ),
    decreases xs.len(),
{
    if xs.len() > 0 {
        let prefix = spec_strings_bytes(xs.drop_last(), endian)->Ok_0;
        let last = spec_string_bytes(xs.last(), endian)->Ok_0;
        lemma_holds_split(s, off, prefix, last);
        assert(forall|i: int| 0 <= i < xs.drop_last().len() ==> xs.drop_last()[i] == xs[i]);
        lemma_read_back_strings(s, off, xs.drop_last(), endian);
        assert(spec_string_representable(xs[xs.len() - 1]));
        lemma_read_back_string(s, off + prefix.len(), xs.last(), endian);
        assert(xs.drop_last().push(xs.last()) =~= xs);
    } else {
        assert(xs =~= Seq::<Seq<char>>::empty());
    }
}

/// Whether a principal survives writing and reading back in `version`:
/// its component count and its strings fit 16-bit signed lengths, and
/// version 1, which stores no name type, has it 0.
pub open spec fn spec_principal_representable(p: PrincipalModel, version: u8) -> bool {
    &&& version == 1 ==> p.name_type == 0
    &&& p.components.len() + (if version == 1 { 1int } else { 0int }) <= i16::MAX
    &&& spec_string_representable(p.realm)
    &&& forall|i: int| 0 <= i < p.components.len() ==> spec_string_representable(
        #[trigger] p.components[i],
    )
}

#[verifier::spinoff_prover]
#[verifier::rlimit(60)]
proof fn lemma_read_back_principal(s: Seq<u8>, off: int, p: PrincipalModel, version: u8, endian: Endian)
    requires
        spec_principal_representable(p, version),
        spec_principal_bytes(p, version, endian) is Ok,
        spec_holds_at(s, off, spec_principal_bytes(p, version, endian)->Ok_0),
    ensures
        spec_read_principal(s, off, version, endian) == Ok::<(PrincipalModel, int), Error>(
            (p, off + spec_principal_bytes(p, version, endian)->Ok_0.len()),
        ),
{
    reveal(spec_principal_bytes);
    reveal(spec_read_principal);
    let count: int = if version == 1 {
        p.components.len() as int + 1
    } else {
        p.components.len() as int
    };
    let cb = spec_u16_bytes(count as u16, endian);
    let rb = spec_string_bytes(p.realm, endian)->Ok_0;
    let csb = spec_strings_bytes(p.components, endian)->Ok_0;
    let nt = if version != 1 {
        spec_i32_bytes(p.name_type, endian)
    } else {
        Seq::empty()
    };
    assert(spec_principal_bytes(p, version, endian)->Ok_0 =~= cb + (rb + (csb + nt)));
    lemma_holds_split(s, off, cb, rb + (csb + nt));
    lemma_holds_split(s, off + 2, rb, csb + nt);
    lemma_holds_split(s, off + 2 + rb.len(), csb, nt);
    lemma_read_back_small_u16(s, off, count as u16, endian);
    lemma_read_back_string(s, off + 2, p.realm, endian);
    lemma_read_back_strings(s, off + 2 + rb.len(), p.components, endian);
    if version != 1 {
        lemma_read_back_i32(s, off + 2 + rb.len() + csb.len(), p.name_type, endian);
    }
    assert(spec_component_count(count as u16 as i16, version) == Ok::<int, Error>(
        p.components.len() as int,
    ));
}

/// Whether an entry survives writing and reading back in `version`: its
/// principal does, its encryption type and key length fit 16-bit signed
/// fields, and a zero 32-bit kvno (read back as the 8-bit one) goes with a
/// zero 8-bit kvno.
pub open spec fn spec_entry_representable(en: EntryModel, version: u8) -> bool {
    &&& spec_principal_representable(en.principal, version)
    &&& en.key.etype <= i16::MAX
    &&& en.key.value.len() <= i16::MAX
    &&& (en.kvno != 0 || en.kvno8 == 0)
}

/// The bytes of an entry after its principal.
pub open spec fn spec_entry_tail(en: EntryModel, endian: Endian) -> Seq<u8> {
    spec_u32_bytes(en.timestamp, endian).push(en.kvno8) + (spec_u16_bytes(
        en.key.etype as u16,
        endian,
    ) + (spec_u16_bytes(en.key.value.len() as u16, endian) + (en.key.value + spec_u32_bytes(
        en.kvno,
        endian,
    ))))
}

#[verifier::spinoff_prover]
#[verifier::rlimit(60)]
proof fn lemma_read_back_entry_tail(s: Seq<u8>, o1: int, en: EntryModel, endian: Endian)
    requires
        0 <= en.key.etype <= i16::MAX,
        en.key.value.len() <= i16::MAX,
        spec_holds_at(s, o1, spec_entry_tail(en, endian)),
        s.len() == o1 + spec_entry_tail(en, endian).len(),
    ensures
        spec_read_u32(s, o1, endian) == Ok::<(u32, int), Error>((en.timestamp, o1 + 4)),
        spec_read_u8(s, o1 + 4) == Ok::<(u8, int), Error>((en.kvno8, o1 + 5)),
        spec_read_i16(s, o1 + 5, endian) == Ok::<(i16, int), Error>(
            (en.key.etype as u16 as i16, o1 + 7),
        ),
        en.key.etype as u16 as i16 as i32 == en.key.etype,
        spec_read_i16(s, o1 + 7, endian) == Ok::<(i16, int), Error>(
            (en.key.value.len() as u16 as i16, o1 + 9),
        ),
        en.key.value.len() as u16 as i16 == en.key.value.len(),
        spec_read_bytes(s, o1 + 9, en.key.value.len() as int) == Ok::<(Seq<u8>, int), Error>(
            (en.key.value, o1 + 9 + en.key.value.len()),
        ),
        s.len() - (o1 + 9 + en.key.value.len()) == 4,
        spec_read_u32(s, o1 + 9 + en.key.value.len(), endian) == Ok::<(u32, int), Error>(
            (en.kvno, o1 + 13 + en.key.value.len()),
        ),
{
    let tb = spec_u32_bytes(en.timestamp, endian);
    let eb = spec_u16_bytes(en.key.etype as u16, endian);
    let lb = spec_u16_bytes(en.key.value.len() as u16, endian);
    let kb = en.key.value;
    let vb = spec_u32_bytes(en.kvno, endian);
    assert(tb.push(en.kvno8) =~= tb + seq![en.kvno8]);
    assert(spec_entry_tail(en, endian) =~= tb + (seq![en.kvno8] + (eb + (lb + (kb + vb)))));
    lemma_holds_split(s, o1, tb, seq![en.kvno8] + (eb + (lb + (kb + vb))));
    lemma_holds_split(s, o1 + 4, seq![en.kvno8], eb + (lb + (kb + vb)));
    lemma_holds_split(s, o1 + 5, eb, lb + (kb + vb));
    lemma_holds_split(s, o1 + 7, lb, kb + vb);
    lemma_holds_split(s, o1 + 9, kb, vb);
    lemma_read_back_u32(s, o1, en.timestamp, endian);
    lemma_read_back_bytes(s, o1 + 4, seq![en.kvno8]);
    lemma_read_back_small_u16(s, o1 + 5, en.key.etype as u16, endian);
    lemma_read_back_small_u16(s, o1 + 7, en.key.value.len() as u16, endian);
    lemma_read_back_bytes(s, o1 + 9, kb);
    lemma_read_back_u32(s, o1 + 9 + kb.len(), en.kvno, endian);
}

#[verifier::spinoff_prover]
#[verifier::rlimit(60)]
proof fn lemma_read_back_entry(s: Seq<u8>, en: EntryModel, version: u8, endian: Endian)
    requires
        spec_entry_representable(en, version),
        spec_entry_body(en, version, endian) == Ok::<Seq<u8>, Error>(s),
        s.len() <= usize::MAX,
    ensures
        spec_read_entry(s, version, endian) == Ok::<EntryModel, Error>(en),
{
    reveal(spec_entry_body);
    let pb = spec_principal_bytes(en.principal, version, endian)->Ok_0;
    let tail = spec_entry_tail(en, endian);
    assert(s =~= pb + tail);
    assert(s.subrange(0, s.len() as int) =~= s);
    lemma_holds_split(s, 0, pb, tail);
    lemma_read_back_principal(s, 0, en.principal, version, endian);
    lemma_read_back_entry_tail(s, pb.len() as int, en, endian);
    reveal(spec_read_entry);
}

proof fn lemma_entry_body_len(en: EntryModel, version: u8, endian: Endian)
    requires
        spec_entry_body(en, version, endian) is Ok,
    ensures
        spec_entry_body(en, version, endian)->Ok_0.len() >= 13,
{
    reveal(spec_entry_body);
}

proof fn lemma_entries_bytes_front(es: Seq<EntryModel>, version: u8, endian: Endian)
    requires
        es.len() > 0,
    ensures
        spec_entries_bytes(es, version, endian) == spec_then(
            spec_entry_bytes(es[0], version, endian),
            spec_entries_bytes(es.drop_first(), version, endian),
        ),
    decreases es.len(),
{
    if es.len() == 1 {
        assert(es.drop_last() =~= Seq::<EntryModel>::empty());
        assert(es.drop_first() =~= Seq::<EntryModel>::empty());
        if let Ok(x) = spec_entry_bytes(es[0], version, endian) {
            assert(Seq::<u8>::empty() + x =~= x + Seq::<u8>::empty());
        }
    } else {
        lemma_entries_bytes_front(es.drop_last(), version, endian);
        assert(es.drop_last().drop_first() =~= es.drop_first().drop_last());
        assert(es.drop_last()[0] == es[0]);
        assert(es.drop_first().last() == es.last());
        lemma_then_assoc(
            spec_entry_bytes(es[0], version, endian),
            spec_entries_bytes(es.drop_first().drop_last(), version, endian),
            spec_entry_bytes(es.last(), version, endian),
        );
    }
}

#[verifier::spinoff_prover]
#[verifier::rlimit(60)]
proof fn lemma_read_back_first_entry(s: Seq<u8>, off: int, en: EntryModel, version: u8, endian: Endian)
    requires
        spec_entry_representable(en, version),
        spec_entry_bytes(en, version, endian) is Ok,
        spec_holds_at(s, off, spec_entry_bytes(en, version, endian)->Ok_0),
    ensures
        ({
            let body = spec_entry_body(en, version, endian)->Ok_0;
            &&& spec_read_i32(s, off, endian) == Ok::<(i32, int), Error>((body.len() as i32, off + 4))
            &&& body.len() as i32 > 0
            &&& body.len() as i32 as int == body.len()
            &&& spec_checked_end(s, off + 4, body.len() as i32 as int) == Ok::<int, Error>(
                off + 4 + body.len(),
            )
            &&& s.subrange(off + 4, off + 4 + body.len()) == body
            &&& spec_read_entry(body, version, endian) == Ok::<EntryModel, Error>(en)
        }),
{
    let body = spec_entry_body(en, version, endian)->Ok_0;
    let lb = spec_i32_bytes(body.len() as i32, endian);
    lemma_holds_split(s, off, lb, body);
    lemma_read_back_i32(s, off, body.len() as i32, endian);
    lemma_entry_body_len(en, version, endian);
    lemma_read_back_entry(body, en, version, endian);
}

proof fn lemma_read_back_entries(s: Seq<u8>, off: int, es: Seq<EntryModel>, version: u8, endian: Endian)
    requires
        forall|i: int| 0 <= i < es.len() ==> spec_entry_representable(#[trigger] es[i], version),
        spec_entries_bytes(es, version, endian) is Ok,
        spec_holds_at(s, off, spec_entries_bytes(es, version, endian)->Ok_0),
        off + spec_entries_bytes(es, version, endian)->Ok_0.len() == s.len(),
    ensures
        spec_read_entries(s, off, version, endian) == Ok::<(Seq<EntryModel>, int), Error>(
            (es, s.len() as int),
        ),
    decreases es.len(),
{
    if es.len() == 0 {
        assert(es =~= Seq::<EntryModel>::empty());
    } else {
        lemma_entries_bytes_front(es, version, endian);
        let first = spec_entry_bytes(es[0], version, endian)->Ok_0;
        let rest = spec_entries_bytes(es.drop_first(), version, endian)->Ok_0;
        lemma_holds_split(s, off, first, rest);
        lemma_read_back_first_entry(s, off, es[0], version, endian);
        assert forall|i: int| 0 <= i < es.drop_first().len() implies spec_entry_representable(
            #[trigger] es.drop_first()[i],
            version,
        ) by {
            assert(es.drop_first()[i] == es[i + 1]);
        }
        lemma_read_back_entries(s, off + first.len(), es.drop_first(), version, endian);
        assert(seq![es[0]] + es.drop_first() =~= es);
    }
}

/// Whether a keytab survives writing and reading back: its version is 1 or
/// 2 and each entry does.
pub open spec fn spec_keytab_representable(k: KeytabModel) -> bool {
    &&& (k.version == 1 || k.version == 2)
    &&& forall|i: int| 0 <= i < k.entries.len() ==> spec_entry_representable(
        #[trigger] k.entries[i],
        k.version,
    )
}

/// Parsing what serialization writes gives the same keytab back, for every
/// keytab that the file format can represent and that serializes without
/// error, under either host byte order.
#[verifier::spinoff_prover]
pub proof fn lemma_keytab_roundtrip(k: KeytabModel, host_little: bool)
    requires
        spec_keytab_representable(k),
        spec_keytab_bytes(k, host_little) is Ok,
        spec_keytab_bytes(k, host_little)->Ok_0.len() <= usize::MAX,
    ensures
        spec_parse_keytab(spec_keytab_bytes(k, host_little)->Ok_0, host_little) == Ok::<
            KeytabModel,
            Error,
        >(k),
{
    let endian = spec_endian(k.version, host_little);
    let s = spec_keytab_bytes(k, host_little)->Ok_0;
    let eb = spec_entries_bytes(k.entries, k.version, endian)->Ok_0;
    assert(s =~= seq![KEYTAB_FIRST_BYTE, k.version] + eb);
    assert(s.subrange(0, s.len() as int) =~= s);
    lemma_holds_split(s, 0, seq![KEYTAB_FIRST_BYTE, k.version], eb);
    lemma_read_back_entries(s, 2, k.entries, k.version, endian);
}


// ---------------------------------------------------------------------------
// Names, accessors and lookup

/// Resolution of a keytab name to a file path, in the terms of
/// `file_name::spec_file_path_from_name`: an empty name or path is
/// `InvalidKeytabName` and another store type `UnsupportedKeytabType`.
pub open spec fn spec_keytab_name_matches(name: Seq<char>, r: Result<String, Error>) -> bool {
    match (r, file_name::spec_file_path_from_name(name, spec_file_types())) {
        (Ok(p), Ok(q)) => p@ == q,
        (Err(Error::InvalidKeytabName), Err(None)) => true,
        (Err(Error::UnsupportedKeytabType { keytab_type }), Err(Some(t))) => keytab_type@ == t,
        _ => false,
    }
}

/// Whether entry `e` is for `components@realm` with encryption type
/// `etype`, and for `kvno` unless that is 0.
pub open spec fn spec_key_matches(
    e: EntryModel,
    components: Seq<Seq<char>>,
    realm: Seq<char>,
    kvno: u32,
    etype: i32,
) -> bool {
    &&& e.principal.realm == realm
    &&& e.principal.components == components
    &&& e.key.etype == etype
    &&& (kvno == 0 || e.kvno == kvno)
}

/// Whether `i` is the entry `find_key` selects: it matches, no matching
/// entry is newer, and every matching entry before it is older.
pub open spec fn spec_is_newest_match(
    es: Seq<EntryModel>,
    i: int,
    components: Seq<Seq<char>>,
    realm: Seq<char>,
    kvno: u32,
    etype: i32,
) -> bool {
    &&& 0 <= i < es.len()
    &&& spec_key_matches(es[i], components, realm, kvno, etype)
    &&& forall|j: int|
        0 <= j < es.len() && spec_key_matches(#[trigger] es[j], components, realm, kvno, etype)
            ==> es[j].timestamp <= es[i].timestamp
    &&& forall|j: int|
        0 <= j < i && spec_key_matches(#[trigger] es[j], components, realm, kvno, etype)
            ==> es[j].timestamp < es[i].timestamp
}

/// The newest matching entry, the first of them on a tie; `None` when no
/// entry matches.
pub open spec fn spec_newest_match(
    es: Seq<EntryModel>,
    components: Seq<Seq<char>>,
    realm: Seq<char>,
    kvno: u32,
    etype: i32,
) -> Option<int> {
    if exists|i: int| spec_is_newest_match(es, i, components, realm, kvno, etype) {
        Some(choose|i: int| spec_is_newest_match(es, i, components, realm, kvno, etype))
    } else {
        None
    }
}

proof fn lemma_newest_match_unique(
    es: Seq<EntryModel>,
    i: int,
    components: Seq<Seq<char>>,
    realm: Seq<char>,
    kvno: u32,
    etype: i32,
)
    requires
        spec_is_newest_match(es, i, components, realm, kvno, etype),
    ensures
        spec_newest_match(es, components, realm, kvno, etype) == Some(i),
{
    let k = choose|k: int| spec_is_newest_match(es, k, components, realm, kvno, etype);
    assert(spec_is_newest_match(es, k, components, realm, kvno, etype));
    assert(spec_key_matches(es[k], components, realm, kvno, etype));
    assert(spec_key_matches(es[i], components, realm, kvno, etype));
    if k < i {
        assert(es[k].timestamp < es[i].timestamp);
    }
    if k > i {
        assert(es[i].timestamp < es[k].timestamp);
    }
}

/// The default Kerberos password salt: the realm, then every component.
pub open spec fn spec_password_salt(p: PrincipalModel) -> Seq<char> {
    p.realm + spec_concat(p.components)
}

/// A principal written as `name@REALM`.
pub open spec fn spec_principal_string(p: PrincipalModel) -> Seq<char> {
    spec_join(p.components, seq!['/']) + seq!['@'] + p.realm
}

impl Principal {
    /// Create a keytab principal.
    pub fn new(realm: String, name_type: i32, components: Vec<String>) -> (r: Self)
        ensures
            r.realm == realm,
            r.name_type == name_type,
            r.components == components,
    {
        Principal { realm, components, name_type }
    }

    /// Return the default Kerberos password salt for this principal.
    pub fn default_password_salt(&self) -> (r: String)
        ensures
            r@ == spec_password_salt(self@),
    {
        concat_after(&self.realm, &self.components)
    }

    /// Principal components joined by `/`.
    pub fn name_string(&self) -> (r: String)
        ensures
            r@ == spec_join(self@.components, seq!['/']),
    {
        let sep = "/";
        proof {
            reveal_strlit("/");
        }
        assert(sep@ =~= seq!['/']);
        join_strings(&self.components, sep)
    }

    /// Principal as `name@REALM`.
    pub fn principal_string(&self) -> (r: String)
        ensures
            r@ == spec_principal_string(self@),
    {
        let mut out = self.name_string();
        let at = "@";
        proof {
            reveal_strlit("@");
        }
        assert(at@ =~= seq!['@']);
        out.append(at);
        out.append(self.realm.as_str());
        out
    }
}

impl Keytab {
    /// Resolve a MIT-style keytab name to a file path.
    ///
    /// This does not touch the filesystem; it only validates that the name
    /// denotes a keytab format backed by this module.
    pub fn file_path_from_keytab_name(name: &str) -> (r: Result<String, Error>)
        ensures
            spec_keytab_name_matches(name@, r),
    {
        let types = file_types();
        match file_name::file_path_from_name(name, &types) {
            Ok(path) => Ok(path),
            Err(file_name::Error::Empty) => Err(Error::InvalidKeytabName),
            Err(file_name::Error::UnsupportedType { name_type }) => Err(
                Error::UnsupportedKeytabType { keytab_type: name_type },
            ),
        }
    }

    /// Keytab file format version.
    pub fn version(&self) -> (r: u8)
        ensures
            r == self@.version,
    {
        self.version
    }

    /// Parsed entries.
    pub fn entries(&self) -> (r: &[Entry])
        ensures
            r@.map_values(|e: Entry| e@) == self@.entries,
    {
        self.entries.as_slice()
    }

    /// Mutable parsed entries, useful for tests and construction.
    pub fn entries_mut(&mut self) -> (r: &mut Vec<Entry>)
        ensures
            r@.map_values(|e: Entry| e@) == old(self)@.entries,
            final(self)@ == (KeytabModel {
                entries: final(r)@.map_values(|e: Entry| e@),
                ..old(self)@
            }),
    {
        &mut self.entries
    }

    /// Find the newest key matching principal components, realm, kvno, and
    /// encryption type. A `kvno` of `0` matches any kvno.
    pub fn find_key(&self, principal_components: &[&str], realm: &str, kvno: u32, etype: i32) -> (r:
        Result<(&EncryptionKey, u32), Error>)
        ensures
            match spec_newest_match(
                self@.entries,
                spec_str_views(principal_components@),
                realm@,
                kvno,
                etype,
            ) {
                Some(i) => r matches Ok((key, v)) && key@ == self@.entries[i].key && v
                    == self@.entries[i].kvno,
                None => r matches Err(
                    Error::NoMatchingKey { principal, realm: rr, kvno: k, etype: t },
                ) && principal@ == spec_join(spec_str_views(principal_components@), seq!['/'])
                    && rr@ == realm@ && k == kvno && t == etype,
            },
    {
        let ghost es = self@.entries;
        let ghost comps = spec_str_views(principal_components@);
        let mut selected: Option<usize> = None;
        let mut i: usize = 0;
        while i < self.entries.len()
            invariant
                i <= self.entries@.len(),
                es == self.entries@.map_values(|e: Entry| e@),
                comps == spec_str_views(principal_components@),
                match selected {
                    Some(k) => {
                        &&& k < i
                        &&& spec_key_matches(es[k as int], comps, realm@, kvno, etype)
                        &&& forall|j: int|
                            0 <= j < i && spec_key_matches(#[trigger] es[j], comps, realm@, kvno, etype)
                                ==> es[j].timestamp <= es[k as int].timestamp
                        &&& forall|j: int|
                            0 <= j < k && spec_key_matches(#[trigger] es[j], comps, realm@, kvno, etype)
                                ==> es[j].timestamp < es[k as int].timestamp
                    },
                    None => forall|j: int|
                        0 <= j < i ==> !spec_key_matches(#[trigger] es[j], comps, realm@, kvno, etype),
                },
            decreases self.entries@.len() - i,
        {
            let entry = &self.entries[i];
            assert(es[i as int] == entry@);
            let matches = str_eq(entry.principal.realm.as_str(), realm) && strings_match(
                &entry.principal.components,
                principal_components,
            ) && entry.key.etype == etype && (kvno == 0 || entry.kvno == kvno);
            assert(matches == spec_key_matches(es[i as int], comps, realm@, kvno, etype));
            if matches {
                match selected {
                    Some(k) => {
                        if self.entries[k].timestamp < entry.timestamp {
                            selected = Some(i);
                        }
                    },
                    None => {
                        selected = Some(i);
                    },
                }
            }
            i = i + 1;
        }
        match selected {
            Some(k) => {
                proof {
                    lemma_newest_match_unique(es, k as int, comps, realm@, kvno, etype);
                }
                let entry = &self.entries[k];
                Ok((&entry.key, entry.kvno))
            },
            None => {
                let sep = "/";
                proof {
                    reveal_strlit("/");
                    if exists|x: int| spec_is_newest_match(es, x, comps, realm@, kvno, etype) {
                        let x = choose|x: int| spec_is_newest_match(es, x, comps, realm@, kvno, etype);
                        assert(spec_key_matches(es[x], comps, realm@, kvno, etype));
                    }
                }
                assert(sep@ =~= seq!['/']);
                Err(
                    Error::NoMatchingKey {
                        principal: join_strs(principal_components, sep),
                        realm: realm.to_owned(),
                        kvno,
                        etype,
                    },
                )
            },
        }
    }
}

/// Redacted keytab entry metadata: no key bytes.
#[derive(Clone, Debug, Eq, PartialEq)]
pub struct KeytabEntryMetadata {
    /// Principal as `name@REALM`.
    pub principal: String,
    /// Principal realm.
    pub realm: String,
    /// Principal name components.
    pub components: Vec<String>,
    /// Kerberos name type.
    pub name_type: i32,
    /// Entry timestamp as POSIX seconds.
    pub timestamp: u32,
    /// 8-bit key version number.
    pub kvno8: u8,
    /// 32-bit key version number.
    pub kvno: u32,
    /// Kerberos encryption type id.
    pub etype: i32,
    /// Length of the key value in bytes.
    pub key_length: usize,
}

/// Whether `m` describes entry `e`.
pub open spec fn spec_entry_metadata_of(m: KeytabEntryMetadata, e: EntryModel) -> bool {
    &&& m.principal@ == spec_principal_string(e.principal)
    &&& m.realm@ == e.principal.realm
    &&& spec_string_views(m.components@) == e.principal.components
    &&& m.name_type == e.principal.name_type
    &&& m.timestamp == e.timestamp
    &&& m.kvno8 == e.kvno8
    &&& m.kvno == e.kvno
    &&& m.etype == e.key.etype
    &&& m.key_length == e.key.value.len()
}

impl KeytabEntryMetadata {
    /// Describe an entry without its key bytes.
    pub fn from_entry(entry: &Entry) -> (r: Self)
        ensures
            spec_entry_metadata_of(r, entry@),
    {
        KeytabEntryMetadata {
            principal: entry.principal.principal_string(),
            realm: copy_string(&entry.principal.realm),
            components: copy_strings(&entry.principal.components),
            name_type: entry.principal.name_type,
            timestamp: entry.timestamp,
            kvno8: entry.kvno8,
            kvno: entry.kvno,
            etype: entry.key.etype,
            key_length: entry.key.value.len(),
        }
    }
}

impl Keytab {
    /// Redacted metadata of every entry, in order.
    pub fn entry_metadata(&self) -> (r: Vec<KeytabEntryMetadata>)
        ensures
            r@.len() == self@.entries.len(),
            forall|i: int|
                0 <= i < r@.len() ==> spec_entry_metadata_of(#[trigger] r@[i], self@.entries[i]),
    {
        let ghost es = self@.entries;
        let mut out: Vec<KeytabEntryMetadata> = Vec::new();
        let mut i: usize = 0;
        while i < self.entries.len()
            invariant
                i <= self.entries@.len(),
                es == self.entries@.map_values(|e: Entry| e@),
                out@.len() == i,
                forall|j: int| 0 <= j < i ==> spec_entry_metadata_of(#[trigger] out@[j], es[j]),
            decreases self.entries@.len() - i,
        {
            out.push(KeytabEntryMetadata::from_entry(&self.entries[i]));
            i = i + 1;
        }
        out
    }
}

impl Keytab {
    /// Add an entry by deriving key material from a password.
    ///
    /// The default Kerberos password salt is `realm + principal components`,
    /// and the selected encryption type's default string-to-key parameters
    /// are used. `timestamp` is in POSIX seconds.
    pub fn add_entry_from_password(
        &mut self,
        principal: Principal,
        password: &[u8],
        timestamp: u32,
        kvno: u8,
        etype: i32,
    ) -> (r: Result<(), Error>)
        requires
            spec_etype_from_id(etype) matches Some(e) ==> e.spec_string_to_key_fits(
                password@,
                encode_utf8(spec_password_salt(principal@)),
            ),
        ensures
            match spec_etype_from_id(etype) {
                None => r == Err::<(), Error>(Error::UnsupportedEtype(etype)) && final(self)@
                    == old(self)@,
                Some(e) => match e.spec_string_to_key(
                    password@,
                    encode_utf8(spec_password_salt(principal@)),
                    encode_utf8(e.spec_default_s2kparams()),
                ) {
                    Err(ce) => r == Err::<(), Error>(Error::Crypto(ce)) && final(self)@ == old(
                        self,
                    )@,
                    Ok(key) => r is Ok && final(self)@ == (KeytabModel {
                        entries: old(self)@.entries.push(
                            EntryModel {
                                principal: principal@,
                                timestamp,
                                kvno8: kvno,
                                key: EncryptionKeyModel { etype, value: key },
                                kvno: kvno as u32,
                            },
                        ),
                        ..old(self)@
                    }),
                },
            },
    {
        let etype_impl = match KerberosEtype::from_etype_id(etype) {
            Some(e) => e,
            None => return Err(Error::UnsupportedEtype(etype)),
        };
        let salt = principal.default_password_salt();
        let params = etype_impl.default_s2kparams();
        let key = match etype_impl.string_to_key(password, salt.as_str().as_bytes(), params) {
            Ok(k) => k,
            Err(e) => return Err(Error::Crypto(e)),
        };
        let entry = Entry {
            principal,
            timestamp,
            kvno8: kvno,
            key: EncryptionKey { etype, value: key },
            kvno: kvno as u32,
        };
        let ghost old_entries = self.entries@;
        self.entries.push(entry);
        proof {
            assert(self.entries@.map_values(|e: Entry| e@) =~= old_entries.map_values(
                |e: Entry| e@,
            ).push(entry@));
        }
        Ok(())
    }
}

} // verus!
