//! MIT credential cache parsing and serialization.
//!
//! Ticket bodies stay opaque DER bytes; this module reads and writes the
//! file layout around them (versions 1 to 4).

use vstd::prelude::*;
use vstd::string::StringExecFns;
use vstd::utf8::{decode_utf8, encode_utf8, valid_utf8};

use crate::file_name;
use crate::text::{
    copy_string, copy_strings, join_strings, spec_has_prefix, spec_join, spec_string_views, str_eq,
    str_from_utf8, str_starts_with,
};
use crate::wire::{
    decode_u16, decode_u32, extend_bytes, host_is_little_endian, lemma_signed_casts,
    lemma_u16_roundtrip, lemma_u32_roundtrip, push_i16, push_i32, push_u16, push_u32,
    spec_decode_u16, spec_decode_u32, spec_i16_bytes, spec_i32_bytes, spec_u16_bytes,
    spec_u32_bytes, Endian,
};

verus! {

/// First byte of every credential cache file.
pub const CCACHE_FIRST_BYTE: u8 = 5;

/// Header field tag of the KDC time offset, whose value is eight bytes.
pub const HEADER_FIELD_TAG_KDC_OFFSET: u16 = 1;

/// Credential cache parsing and serialization error.
#[derive(Clone, Debug, Eq, PartialEq)]
pub enum Error {
    /// A cache name was empty or did not include a path.
    InvalidCacheName,
    /// The cache name uses a cache type this module cannot parse.
    UnsupportedCacheType {
        /// Cache type prefix before the first colon.
        cache_type: String,
    },
    /// Input is too short to contain the ccache header.
    TooShort {
        /// Actual input length.
        actual: usize,
    },
    /// CCache does not start with the required first byte.
    InvalidFirstByte(u8),
    /// Unsupported ccache version.
    InvalidVersion(u8),
    /// A read would exceed the input length.
    Truncated {
        /// Offset where the read started.
        offset: usize,
        /// Bytes needed.
        needed: usize,
        /// Bytes remaining from offset.
        remaining: usize,
    },
    /// A signed length was negative where the field cannot be negative.
    NegativeLength(i32),
    /// A length cannot fit in the target integer type.
    LengthOverflow,
    /// Principal strings must be valid UTF-8.
    InvalidString,
    /// A v4 header field is malformed.
    InvalidHeaderField {
        /// Field tag.
        tag: u16,
        /// Field value length.
        length: usize,
    },
    /// The v4 header length did not match parsed fields.
    InvalidHeaderLength,
}

// ---------------------------------------------------------------------------
// Data types and their views

/// One version 4 ccache header field.
#[derive(Clone, Debug, Eq, PartialEq)]
pub struct HeaderField {
    /// Field tag.
    pub tag: u16,
    /// Raw field value.
    pub value: Vec<u8>,
}

/// A header field as plain values.
pub struct HeaderFieldModel {
    pub tag: u16,
    pub value: Seq<u8>,
}

impl View for HeaderField {
    type V = HeaderFieldModel;

    open spec fn view(&self) -> HeaderFieldModel {
        HeaderFieldModel { tag: self.tag, value: self.value@ }
    }
}

/// Version 4 ccache header.
#[derive(Clone, Debug, Default, Eq, PartialEq)]
pub struct Header {
    /// Header fields in file order.
    pub fields: Vec<HeaderField>,
}

impl View for Header {
    type V = Seq<HeaderFieldModel>;

    open spec fn view(&self) -> Seq<HeaderFieldModel> {
        self.fields@.map_values(|f: HeaderField| f@)
    }
}

/// Principal stored in a credential cache.
#[derive(Clone, Debug, Eq, PartialEq)]
pub struct Principal {
    /// Principal realm.
    pub realm: String,
    /// Principal name type.
    pub name_type: i32,
    /// Principal components.
    pub components: Vec<String>,
}

/// A principal as plain values.
pub struct PrincipalModel {
    pub realm: Seq<char>,
    pub name_type: i32,
    pub components: Seq<Seq<char>>,
}

impl View for Principal {
    type V = PrincipalModel;

    open spec fn view(&self) -> PrincipalModel {
        PrincipalModel {
            realm: self.realm@,
            name_type: self.name_type,
            components: spec_string_views(self.components@),
        }
    }
}

/// Kerberos encryption key stored in a ccache credential.
#[derive(Clone, Debug, Eq, PartialEq)]
pub struct EncryptionKey {
    /// Kerberos encryption type id.
    pub etype: i32,
    /// Raw key bytes.
    pub value: Vec<u8>,
}

/// A key as plain values.
pub struct EncryptionKeyModel {
    pub etype: i32,
    pub value: Seq<u8>,
}

impl View for EncryptionKey {
    type V = EncryptionKeyModel;

    open spec fn view(&self) -> EncryptionKeyModel {
        EncryptionKeyModel { etype: self.etype, value: self.value@ }
    }
}

/// Credential timestamp fields as POSIX seconds.
#[derive(Clone, Copy, Debug, Default, Eq, PartialEq)]
pub struct CredentialTimes {
    /// Initial authentication time.
    pub auth_time: u32,
    /// Ticket start time.
    pub start_time: u32,
    /// Ticket expiration time.
    pub end_time: u32,
    /// Renewable-until time.
    pub renew_till: u32,
}

/// Host address stored in a ccache credential.
#[derive(Clone, Debug, Eq, PartialEq)]
pub struct HostAddress {
    /// Kerberos address type id.
    pub addr_type: i32,
    /// Raw address bytes.
    pub address: Vec<u8>,
}

/// A typed byte string (an address or an authorization-data entry) as
/// plain values.
pub struct TypedDataModel {
    pub data_type: i32,
    pub data: Seq<u8>,
}

impl View for HostAddress {
    type V = TypedDataModel;

    open spec fn view(&self) -> TypedDataModel {
        TypedDataModel { data_type: self.addr_type, data: self.address@ }
    }
}

/// Authorization data entry stored in a ccache credential.
#[derive(Clone, Debug, Eq, PartialEq)]
pub struct AuthorizationDataEntry {
    /// Authorization data type id.
    pub ad_type: i32,
    /// Raw authorization data bytes.
    pub data: Vec<u8>,
}

impl View for AuthorizationDataEntry {
    type V = TypedDataModel;

    open spec fn view(&self) -> TypedDataModel {
        TypedDataModel { data_type: self.ad_type, data: self.data@ }
    }
}

/// Credential cache entry.
#[derive(Clone, Debug, Eq, PartialEq)]
pub struct Credential {
    /// Client principal.
    pub client: Principal,
    /// Server principal.
    pub server: Principal,
    /// Session key.
    pub key: EncryptionKey,
    /// Credential timestamps as POSIX seconds.
    pub times: CredentialTimes,
    /// Whether the ticket is encrypted in the session key.
    pub is_skey: bool,
    /// Kerberos ticket flags as the raw four bytes stored in ccache.
    pub ticket_flags: [u8; 4],
    /// Client addresses.
    pub addresses: Vec<HostAddress>,
    /// Authorization data entries.
    pub auth_data: Vec<AuthorizationDataEntry>,
    /// Primary ticket DER bytes.
    pub ticket: Vec<u8>,
    /// Second ticket DER bytes.
    pub second_ticket: Vec<u8>,
}

/// A credential as plain values.
pub struct CredentialModel {
    pub client: PrincipalModel,
    pub server: PrincipalModel,
    pub key: EncryptionKeyModel,
    pub times: CredentialTimes,
    pub is_skey: bool,
    pub ticket_flags: Seq<u8>,
    pub addresses: Seq<TypedDataModel>,
    pub auth_data: Seq<TypedDataModel>,
    pub ticket: Seq<u8>,
    pub second_ticket: Seq<u8>,
}

impl View for Credential {
    type V = CredentialModel;

    open spec fn view(&self) -> CredentialModel {
        CredentialModel {
            client: self.client@,
            server: self.server@,
            key: self.key@,
            times: self.times,
            is_skey: self.is_skey,
            ticket_flags: self.ticket_flags@,
            addresses: self.addresses@.map_values(|a: HostAddress| a@),
            auth_data: self.auth_data@.map_values(|a: AuthorizationDataEntry| a@),
            ticket: self.ticket@,
            second_ticket: self.second_ticket@,
        }
    }
}

/// Parsed MIT credential cache file.
#[derive(Clone, Debug, Eq, PartialEq)]
pub struct CCache {
    version: u8,
    header: Header,
    default_principal: Principal,
    credentials: Vec<Credential>,
}

/// A credential cache as plain values.
pub struct CCacheModel {
    pub version: u8,
    pub header: Seq<HeaderFieldModel>,
    pub default_principal: PrincipalModel,
    pub credentials: Seq<CredentialModel>,
}

impl View for CCache {
    type V = CCacheModel;

    closed spec fn view(&self) -> CCacheModel {
        CCacheModel {
            version: self.version,
            header: self.header@,
            default_principal: self.default_principal@,
            credentials: self.credentials@.map_values(|c: Credential| c@),
        }
    }
}

// ---------------------------------------------------------------------------
// Byte order

/// Byte order of a cache version: versions 1 and 2 use the host's order,
/// later versions big-endian.
pub open spec fn spec_endian(version: u8, host_little: bool) -> Endian {
    if (version == 1 || version == 2) && host_little {
        Endian::Little
    } else {
        Endian::Big
    }
}

fn endian_for(version: u8, host_little: bool) -> (r: Endian)
    ensures
        r == spec_endian(version, host_little),
{
    if (version == 1 || version == 2) && host_little {
        Endian::Little
    } else {
        Endian::Big
    }
}

// ---------------------------------------------------------------------------
// Reading

/// Outcome of a read at offset `off`: the value and the offset after it.
pub type SpecRead<T> = Result<(T, int), Error>;

/// A read result with the value taken by its view.
pub open spec fn lift<T: View>(r: Result<T, Error>, off: usize) -> SpecRead<T::V> {
    match r {
        Ok(v) => Ok((v@, off as int)),
        Err(e) => Err(e),
    }
}

/// The offset after `len` more bytes from `off`, or the error that a read of
/// them gives.
pub open spec fn spec_checked_end(s: Seq<u8>, off: int, len: int) -> Result<int, Error> {
    if off + len > usize::MAX {
        Err(Error::LengthOverflow)
    } else if off + len > s.len() {
        Err(
            Error::Truncated {
                offset: off as usize,
                needed: len as usize,
                remaining: (if s.len() > off {
                    s.len() - off
                } else {
                    0
                }) as usize,
            },
        )
    } else {
        Ok(off + len)
    }
}

/// `len` raw bytes.
pub open spec fn spec_read_bytes(s: Seq<u8>, off: int, len: int) -> SpecRead<Seq<u8>> {
    match spec_checked_end(s, off, len) {
        Ok(end) => Ok((s.subrange(off, end), end)),
        Err(e) => Err(e),
    }
}

/// One byte.
pub open spec fn spec_read_u8(s: Seq<u8>, off: int) -> SpecRead<u8> {
    match spec_read_bytes(s, off, 1) {
        Ok((b, end)) => Ok((b[0], end)),
        Err(e) => Err(e),
    }
}

/// A 16-bit unsigned integer.
pub open spec fn spec_read_u16(s: Seq<u8>, off: int, endian: Endian) -> SpecRead<u16> {
    match spec_read_bytes(s, off, 2) {
        Ok((b, end)) => Ok((spec_decode_u16(b[0], b[1], endian), end)),
        Err(e) => Err(e),
    }
}

/// A 16-bit signed integer.
pub open spec fn spec_read_i16(s: Seq<u8>, off: int, endian: Endian) -> SpecRead<i16> {
    match spec_read_u16(s, off, endian) {
        Ok((v, end)) => Ok((v as i16, end)),
        Err(e) => Err(e),
    }
}

/// A 32-bit unsigned integer.
pub open spec fn spec_read_u32(s: Seq<u8>, off: int, endian: Endian) -> SpecRead<u32> {
    match spec_read_bytes(s, off, 4) {
        Ok((b, end)) => Ok((spec_decode_u32(b[0], b[1], b[2], b[3], endian), end)),
        Err(e) => Err(e),
    }
}

/// A 32-bit signed integer.
pub open spec fn spec_read_i32(s: Seq<u8>, off: int, endian: Endian) -> SpecRead<i32> {
    match spec_read_u32(s, off, endian) {
        Ok((v, end)) => Ok((v as i32, end)),
        Err(e) => Err(e),
    }
}

/// A non-negative 32-bit count.
pub open spec fn spec_read_count(s: Seq<u8>, off: int, endian: Endian) -> SpecRead<usize> {
    match spec_read_i32(s, off, endian) {
        Ok((v, end)) => if v < 0 {
            Err(Error::NegativeLength(v))
        } else {
            Ok((v as usize, end))
        },
        Err(e) => Err(e),
    }
}

/// A 32-bit length followed by that many bytes.
pub open spec fn spec_read_data(s: Seq<u8>, off: int, endian: Endian) -> SpecRead<Seq<u8>> {
    match spec_read_count(s, off, endian) {
        Ok((n, end)) => spec_read_bytes(s, end, n as int),
        Err(e) => Err(e),
    }
}

/// Length-prefixed UTF-8 text.
pub open spec fn spec_read_counted_string(s: Seq<u8>, off: int, endian: Endian) -> SpecRead<
    Seq<char>,
> {
    match spec_read_data(s, off, endian) {
        Ok((raw, end)) => if valid_utf8(raw) {
            Ok((decode_utf8(raw), end))
        } else {
            Err(Error::InvalidString)
        },
        Err(e) => Err(e),
    }
}

fn checked_end(bytes: &[u8], offset: usize, len: usize) -> (r: Result<usize, Error>)
    requires
        offset <= bytes@.len(),
    ensures
        match r {
            Ok(end) => spec_checked_end(bytes@, offset as int, len as int) == Ok::<int, Error>(end as int),
            Err(e) => spec_checked_end(bytes@, offset as int, len as int) == Err::<int, Error>(e),
        },
{
    if len > usize::MAX - offset {
        return Err(Error::LengthOverflow);
    }
    let end = offset + len;
    if end > bytes.len() {
        return Err(Error::Truncated { offset, needed: len, remaining: bytes.len() - offset });
    }
    Ok(end)
}

fn read_bytes<'a>(bytes: &'a [u8], offset: &mut usize, len: usize) -> (r: Result<&'a [u8], Error>)
    requires
        *old(offset) <= bytes@.len(),
    ensures
        spec_read_bytes(bytes@, *old(offset) as int, len as int) == lift(r, *final(offset)),
        *final(offset) <= bytes@.len(),
{
    let start = *offset;
    let end = checked_end(bytes, start, len)?;
    *offset = end;
    Ok(&bytes[start..end])
}

fn read_u8(bytes: &[u8], offset: &mut usize) -> (r: Result<u8, Error>)
    requires
        *old(offset) <= bytes@.len(),
    ensures
        spec_read_u8(bytes@, *old(offset) as int) == lift(r, *final(offset)),
        *final(offset) <= bytes@.len(),
{
    let raw = read_bytes(bytes, offset, 1)?;
    Ok(raw[0])
}

fn read_i16(bytes: &[u8], offset: &mut usize, endian: Endian) -> (r: Result<i16, Error>)
    requires
        *old(offset) <= bytes@.len(),
    ensures
        spec_read_i16(bytes@, *old(offset) as int, endian) == lift(r, *final(offset)),
        *final(offset) <= bytes@.len(),
{
    let v = read_u16(bytes, offset, endian)?;
    Ok(v as i16)
}

fn read_u16(bytes: &[u8], offset: &mut usize, endian: Endian) -> (r: Result<u16, Error>)
    requires
        *old(offset) <= bytes@.len(),
    ensures
        spec_read_u16(bytes@, *old(offset) as int, endian) == lift(r, *final(offset)),
        *final(offset) <= bytes@.len(),
{
    let raw = read_bytes(bytes, offset, 2)?;
    Ok(decode_u16(raw[0], raw[1], endian))
}

fn read_i32(bytes: &[u8], offset: &mut usize, endian: Endian) -> (r: Result<i32, Error>)
    requires
        *old(offset) <= bytes@.len(),
    ensures
        spec_read_i32(bytes@, *old(offset) as int, endian) == lift(r, *final(offset)),
        *final(offset) <= bytes@.len(),
{
    let v = read_u32(bytes, offset, endian)?;
    Ok(v as i32)
}

fn read_u32(bytes: &[u8], offset: &mut usize, endian: Endian) -> (r: Result<u32, Error>)
    requires
        *old(offset) <= bytes@.len(),
    ensures
        spec_read_u32(bytes@, *old(offset) as int, endian) == lift(r, *final(offset)),
        *final(offset) <= bytes@.len(),
{
    let raw = read_bytes(bytes, offset, 4)?;
    Ok(decode_u32(raw[0], raw[1], raw[2], raw[3], endian))
}

fn read_count(bytes: &[u8], offset: &mut usize, endian: Endian) -> (r: Result<usize, Error>)
    requires
        *old(offset) <= bytes@.len(),
    ensures
        spec_read_count(bytes@, *old(offset) as int, endian) == lift(r, *final(offset)),
        *final(offset) <= bytes@.len(),
{
    let count = read_i32(bytes, offset, endian)?;
    if count < 0 {
        return Err(Error::NegativeLength(count));
    }
    Ok(count as usize)
}

fn read_data(bytes: &[u8], offset: &mut usize, endian: Endian) -> (r: Result<Vec<u8>, Error>)
    requires
        *old(offset) <= bytes@.len(),
    ensures
        spec_read_data(bytes@, *old(offset) as int, endian) == lift(r, *final(offset)),
        *final(offset) <= bytes@.len(),
{
    let len = read_count(bytes, offset, endian)?;
    let raw = read_bytes(bytes, offset, len)?;
    Ok(vstd::slice::slice_to_vec(raw))
}

fn read_counted_string(bytes: &[u8], offset: &mut usize, endian: Endian) -> (r: Result<
    String,
    Error,
>)
    requires
        *old(offset) <= bytes@.len(),
    ensures
        spec_read_counted_string(bytes@, *old(offset) as int, endian) == lift(r, *final(offset)),
        *final(offset) <= bytes@.len(),
{
    let raw = read_data(bytes, offset, endian)?;
    match str_from_utf8(raw.as_slice()) {
        Some(s) => Ok(s.to_owned()),
        None => Err(Error::InvalidString),
    }
}


/// `n` length-prefixed strings in a row.
pub open spec fn spec_read_strings(s: Seq<u8>, off: int, n: nat, endian: Endian) -> SpecRead<
    Seq<Seq<char>>,
>
    decreases n,
{
    if n == 0 {
        Ok((Seq::empty(), off))
    } else {
        match spec_read_strings(s, off, (n - 1) as nat, endian) {
            Ok((xs, o)) => match spec_read_counted_string(s, o, endian) {
                Ok((x, o2)) => Ok((xs.push(x), o2)),
                Err(e) => Err(e),
            },
            Err(e) => Err(e),
        }
    }
}

proof fn lemma_read_strings_err(s: Seq<u8>, off: int, k: nat, n: nat, endian: Endian)
    requires
        k <= n,
        spec_read_strings(s, off, k, endian) is Err,
    ensures
        spec_read_strings(s, off, n, endian) == spec_read_strings(s, off, k, endian),
    decreases n,
{
    if n > k {
        lemma_read_strings_err(s, off, k, (n - 1) as nat, endian);
    }
}

/// Component count of a principal: version 1 stores one more than the number
/// of name components.
pub open spec fn spec_component_count(raw: i32, version: u8) -> Result<int, Error> {
    if version == 1 {
        if raw == i32::MIN {
            Err(Error::LengthOverflow)
        } else {
            Ok(raw - 1)
        }
    } else {
        Ok(raw as int)
    }
}

/// The part of a principal after its name type: component count, realm,
/// and components.
#[verifier::opaque]
pub open spec fn spec_read_principal_body(s: Seq<u8>, off: int, version: u8, endian: Endian) -> SpecRead<
    (Seq<char>, Seq<Seq<char>>),
> {
    match spec_read_i32(s, off, endian) {
        Err(e) => Err(e),
        Ok((raw_count, o2)) => match spec_component_count(raw_count, version) {
            Err(e) => Err(e),
            Ok(count) => if count < 0 {
                Err(Error::NegativeLength(count as i32))
            } else {
                match spec_read_counted_string(s, o2, endian) {
                    Err(e) => Err(e),
                    Ok((realm, o3)) => match spec_read_strings(s, o3, count as nat, endian) {
                        Err(e) => Err(e),
                        Ok((components, o4)) => Ok(((realm, components), o4)),
                    },
                }
            },
        },
    }
}

/// A principal: name type (absent in version 1), component count, realm,
/// and components.
#[verifier::opaque]
pub open spec fn spec_read_principal(s: Seq<u8>, off: int, version: u8, endian: Endian) -> SpecRead<
    PrincipalModel,
> {
    let name_type = if version == 1 {
        Ok((0i32, off))
    } else {
        spec_read_i32(s, off, endian)
    };
    match name_type {
        Err(e) => Err(e),
        Ok((name_type, o1)) => match spec_read_principal_body(s, o1, version, endian) {
            Err(e) => Err(e),
            Ok(((realm, components), o4)) => Ok(
                (PrincipalModel { realm, name_type, components }, o4),
            ),
        },
    }
}

impl Principal {
    /// Create a principal.
    pub fn new(realm: String, name_type: i32, components: Vec<String>) -> (r: Self)
        ensures
            r.realm == realm,
            r.name_type == name_type,
            r.components == components,
    {
        Principal { realm, name_type, components }
    }

    /// Principal components joined by `/`.
    pub fn name_string(&self) -> (r: String)
        ensures
            r@ == spec_join(spec_string_views(self.components@), seq!['/']),
    {
        let sep = "/";
        proof {
            reveal_strlit("/");
        }
        assert(sep@ =~= seq!['/']);
        join_strings(&self.components, sep)
    }

    /// Principal as `name@REALM`.
    pub fn principal_string(&self) -> (r: String)
        ensures
            r@ == spec_join(spec_string_views(self.components@), seq!['/']) + seq!['@'] + self.realm@,
    {
        let mut out = self.name_string();
        let at = "@";
        proof {
            reveal_strlit("@");
        }
        assert(at@ =~= seq!['@']);
        out.append(at);
        out.append(self.realm.as_str());
        out
    }

    /// Compare principal components, ignoring name type and realm.
    pub fn matches_components(&self, components: &[&str]) -> (r: bool)
        ensures
            r == (spec_string_views(self.components@) == components@.map_values(|c: &str| c@)),
    {
        let ghost mine = spec_string_views(self.components@);
        let ghost theirs = components@.map_values(|c: &str| c@);
        if self.components.len() != components.len() {
            assert(mine.len() != theirs.len());
            return false;
        }
        let mut i: usize = 0;
        while i < components.len()
            invariant
                i <= components@.len(),
                self.components@.len() == components@.len(),
                mine == spec_string_views(self.components@),
                theirs == components@.map_values(|c: &str| c@),
                forall|j: int| 0 <= j < i ==> mine[j] == theirs[j],
            decreases components@.len() - i,
        {
            if !str_eq(self.components[i].as_str(), components[i]) {
                assert(mine[i as int] != theirs[i as int]);
                return false;
            }
            i = i + 1;
        }
        assert(mine =~= theirs);
        true
    }

    #[verifier::loop_isolation(false)]
    fn parse(bytes: &[u8], offset: &mut usize, version: u8, endian: Endian) -> (r: Result<
        Self,
        Error,
    >)
        requires
            *old(offset) <= bytes@.len(),
        ensures
            spec_read_principal(bytes@, *old(offset) as int, version, endian) == lift(
                r,
                *final(offset),
            ),
            *final(offset) <= bytes@.len(),
    {
        reveal(spec_read_principal);
        reveal(spec_read_principal_body);
        let name_type = if version == 1 {
            0
        } else {
            read_i32(bytes, offset, endian)?
        };
        let mut component_count = read_i32(bytes, offset, endian)?;
        if version == 1 {
            if component_count == i32::MIN {
                return Err(Error::LengthOverflow);
            }
            component_count = component_count - 1;
        }
        if component_count < 0 {
            return Err(Error::NegativeLength(component_count));
        }
        let realm = read_counted_string(bytes, offset, endian)?;
        let ghost start = *offset;
        let mut components: Vec<String> = Vec::new();
        assert(spec_string_views(components@) =~= Seq::<Seq<char>>::empty());
        let mut i: i32 = 0;
        while i < component_count
            invariant
                0 <= i <= component_count,
                *offset <= bytes@.len(),
                spec_read_strings(bytes@, start as int, i as nat, endian) == Ok::<
                    (Seq<Seq<char>>, int),
                    Error,
                >((spec_string_views(components@), *offset as int)),
            decreases component_count - i,
        {
            let ghost before = components@;
            let c = match read_counted_string(bytes, offset, endian) {
                Ok(c) => c,
                Err(e) => {
                    proof {
                        lemma_read_strings_err(bytes@, start as int, (i + 1) as nat,
                            component_count as nat, endian);
                    }
                    return Err(e);
                },
            };
            components.push(c);
            i = i + 1;
            assert(spec_string_views(components@) =~= spec_string_views(before).push(c@));
        }
        Ok(Principal { realm, name_type, components })
    }
}


// ---------------------------------------------------------------------------
// Header

/// Prefix every parsed item of a successful read with `acc`.
pub open spec fn spec_prepend<T>(acc: Seq<T>, r: SpecRead<Seq<T>>) -> SpecRead<Seq<T>> {
    match r {
        Ok((xs, o)) => Ok((acc + xs, o)),
        Err(e) => Err(e),
    }
}

proof fn lemma_prepend_empty<T>(r: SpecRead<Seq<T>>)
    ensures
        spec_prepend(Seq::<T>::empty(), r) == r,
{
    if let Ok((xs, o)) = r {
        assert(Seq::<T>::empty() + xs =~= xs);
    }
}

proof fn lemma_prepend_step<T>(acc: Seq<T>, x: T, r: SpecRead<Seq<T>>)
    ensures
        spec_prepend(acc, match r {
            Ok((xs, o)) => Ok((seq![x] + xs, o)),
            Err(e) => Err(e),
        }) == spec_prepend(acc.push(x), r),
{
    if let Ok((xs, o)) = r {
        assert(acc + (seq![x] + xs) =~= acc.push(x) + xs);
    }
}

/// One header field: tag, length, and value. A KDC offset field must hold
/// exactly eight bytes.
pub open spec fn spec_read_header_field(s: Seq<u8>, off: int, endian: Endian) -> SpecRead<
    HeaderFieldModel,
> {
    match spec_read_u16(s, off, endian) {
        Err(e) => Err(e),
        Ok((tag, o1)) => match spec_read_u16(s, o1, endian) {
            Err(e) => Err(e),
            Ok((len, o2)) => match spec_read_bytes(s, o2, len as int) {
                Err(e) => Err(e),
                Ok((value, o3)) => if tag == HEADER_FIELD_TAG_KDC_OFFSET && value.len() != 8 {
                    Err(Error::InvalidHeaderField { tag, length: value.len() as usize })
                } else {
                    Ok((HeaderFieldModel { tag, value }, o3))
                },
            },
        },
    }
}

pub proof fn lemma_header_field_advances(s: Seq<u8>, off: int, endian: Endian)
    ensures
        spec_read_header_field(s, off, endian) matches Ok((_, o)) ==> off + 4 <= o <= s.len(),
{
}

/// Header fields from `off` until the offset reaches `end`.
pub open spec fn spec_read_header_fields(s: Seq<u8>, off: int, end: int, endian: Endian) -> SpecRead<
    Seq<HeaderFieldModel>,
>
    decreases s.len() - off,
{
    if off >= end {
        Ok((Seq::empty(), off))
    } else {
        match spec_read_header_field(s, off, endian) {
            Err(e) => Err(e),
            Ok((f, o)) => {
                proof {
                    lemma_header_field_advances(s, off, endian);
                }
                match spec_read_header_fields(s, o, end, endian) {
                    Ok((fs, o2)) => Ok((seq![f] + fs, o2)),
                    Err(e) => Err(e),
                }
            },
        }
    }
}

/// A version 4 header: a 16-bit length and then fields filling exactly that
/// many bytes.
pub open spec fn spec_read_header(s: Seq<u8>, off: int, endian: Endian) -> SpecRead<
    Seq<HeaderFieldModel>,
> {
    match spec_read_u16(s, off, endian) {
        Err(e) => Err(e),
        Ok((len, o1)) => match spec_checked_end(s, o1, len as int) {
            Err(e) => Err(e),
            Ok(end) => match spec_read_header_fields(s, o1, end, endian) {
                Err(e) => Err(e),
                Ok((fields, o2)) => if o2 != end {
                    Err(Error::InvalidHeaderLength)
                } else {
                    Ok((fields, o2))
                },
            },
        },
    }
}

/// Whether a header field is well formed: a KDC offset holds eight bytes.
pub open spec fn spec_header_field_valid(f: HeaderFieldModel) -> bool {
    !(f.tag == HEADER_FIELD_TAG_KDC_OFFSET && f.value.len() != 8)
}

impl HeaderField {
    /// Check that a KDC offset field holds eight bytes.
    pub fn validate(&self) -> (r: Result<(), Error>)
        ensures
            r is Ok <==> spec_header_field_valid(self@),
            r matches Err(e) ==> e == (Error::InvalidHeaderField {
                tag: self.tag,
                length: self.value@.len() as usize,
            }),
    {
        if self.tag == HEADER_FIELD_TAG_KDC_OFFSET && self.value.len() != 8 {
            return Err(Error::InvalidHeaderField { tag: self.tag, length: self.value.len() });
        }
        Ok(())
    }

    fn parse(bytes: &[u8], offset: &mut usize, endian: Endian) -> (r: Result<Self, Error>)
        requires
            *old(offset) <= bytes@.len(),
        ensures
            spec_read_header_field(bytes@, *old(offset) as int, endian) == lift(r, *final(offset)),
            *final(offset) <= bytes@.len(),
    {
        let tag = read_u16(bytes, offset, endian)?;
        let field_length = read_u16(bytes, offset, endian)? as usize;
        let value = vstd::slice::slice_to_vec(read_bytes(bytes, offset, field_length)?);
        let field = HeaderField { tag, value };
        field.validate()?;
        Ok(field)
    }
}

impl Header {
    #[verifier::loop_isolation(false)]
    fn parse(bytes: &[u8], offset: &mut usize, endian: Endian) -> (r: Result<Self, Error>)
        requires
            *old(offset) <= bytes@.len(),
        ensures
            spec_read_header(bytes@, *old(offset) as int, endian) == lift(r, *final(offset)),
            *final(offset) <= bytes@.len(),
    {
        let length = read_u16(bytes, offset, endian)? as usize;
        let end = checked_end(bytes, *offset, length)?;
        let ghost start = *offset;
        let mut fields: Vec<HeaderField> = Vec::new();
        proof {
            lemma_prepend_empty(spec_read_header_fields(bytes@, start as int, end as int, endian));
        }
        while *offset < end
            invariant
                *offset <= bytes@.len(),
                end <= bytes@.len(),
                spec_read_header_fields(bytes@, start as int, end as int, endian) == spec_prepend(
                    fields@.map_values(|f: HeaderField| f@),
                    spec_read_header_fields(bytes@, *offset as int, end as int, endian),
                ),
            decreases bytes@.len() - *offset,
        {
            let ghost before = fields@;
            let ghost o = *offset;
            let field = HeaderField::parse(bytes, offset, endian)?;
            proof {
                lemma_header_field_advances(bytes@, o as int, endian);
                lemma_prepend_step(
                    before.map_values(|f: HeaderField| f@),
                    field@,
                    spec_read_header_fields(bytes@, *offset as int, end as int, endian),
                );
            }
            fields.push(field);
            assert(fields@.map_values(|f: HeaderField| f@) =~= before.map_values(
                |f: HeaderField| f@,
            ).push(field@));
        }
        if *offset != end {
            return Err(Error::InvalidHeaderLength);
        }
        Ok(Header { fields })
    }
}


// ---------------------------------------------------------------------------
// Credentials

/// A 16-bit type id followed by length-prefixed data.
pub open spec fn spec_read_typed(s: Seq<u8>, off: int, endian: Endian) -> SpecRead<TypedDataModel> {
    match spec_read_i16(s, off, endian) {
        Err(e) => Err(e),
        Ok((t, o1)) => match spec_read_data(s, o1, endian) {
            Err(e) => Err(e),
            Ok((d, o2)) => Ok((TypedDataModel { data_type: t as i32, data: d }, o2)),
        },
    }
}

/// `n` typed data items in a row.
pub open spec fn spec_read_typed_seq(s: Seq<u8>, off: int, n: nat, endian: Endian) -> SpecRead<
    Seq<TypedDataModel>,
>
    decreases n,
{
    if n == 0 {
        Ok((Seq::empty(), off))
    } else {
        match spec_read_typed_seq(s, off, (n - 1) as nat, endian) {
            Ok((xs, o)) => match spec_read_typed(s, o, endian) {
                Ok((x, o2)) => Ok((xs.push(x), o2)),
                Err(e) => Err(e),
            },
            Err(e) => Err(e),
        }
    }
}

proof fn lemma_read_typed_seq_err(s: Seq<u8>, off: int, k: nat, n: nat, endian: Endian)
    requires
        k <= n,
        spec_read_typed_seq(s, off, k, endian) is Err,
    ensures
        spec_read_typed_seq(s, off, n, endian) == spec_read_typed_seq(s, off, k, endian),
    decreases n,
{
    if n > k {
        lemma_read_typed_seq_err(s, off, k, (n - 1) as nat, endian);
    }
}

/// A 32-bit count followed by that many typed data items.
pub open spec fn spec_read_typed_list(s: Seq<u8>, off: int, endian: Endian) -> SpecRead<
    Seq<TypedDataModel>,
> {
    match spec_read_count(s, off, endian) {
        Err(e) => Err(e),
        Ok((n, o)) => spec_read_typed_seq(s, o, n as nat, endian),
    }
}

/// A session key: the encryption type (stored twice in version 3, where the
/// second copy counts) and the key bytes.
#[verifier::opaque]
pub open spec fn spec_read_key(s: Seq<u8>, off: int, version: u8, endian: Endian) -> SpecRead<
    EncryptionKeyModel,
> {
    match spec_read_i16(s, off, endian) {
        Err(e) => Err(e),
        Ok((etype1, o1)) => {
            let etype = if version == 3 {
                spec_read_i16(s, o1, endian)
            } else {
                Ok((etype1, o1))
            };
            match etype {
                Err(e) => Err(e),
                Ok((etype, o2)) => match spec_read_data(s, o2, endian) {
                    Err(e) => Err(e),
                    Ok((value, o3)) => Ok((EncryptionKeyModel { etype: etype as i32, value }, o3)),
                },
            }
        },
    }
}

/// Four 32-bit timestamps.
pub open spec fn spec_read_times(s: Seq<u8>, off: int, endian: Endian) -> SpecRead<CredentialTimes> {
    match spec_read_u32(s, off, endian) {
        Err(e) => Err(e),
        Ok((auth_time, o1)) => match spec_read_u32(s, o1, endian) {
            Err(e) => Err(e),
            Ok((start_time, o2)) => match spec_read_u32(s, o2, endian) {
                Err(e) => Err(e),
                Ok((end_time, o3)) => match spec_read_u32(s, o3, endian) {
                    Err(e) => Err(e),
                    Ok((renew_till, o4)) => Ok(
                        (CredentialTimes { auth_time, start_time, end_time, renew_till }, o4),
                    ),
                },
            },
        },
    }
}

/// The part of a credential after the principals, key, and times: the
/// session-key flag, ticket flags, addresses, authorization data, and the
/// two tickets.
#[verifier::opaque]
pub open spec fn spec_read_credential_tail(s: Seq<u8>, off: int, endian: Endian) -> SpecRead<
    (bool, Seq<u8>, Seq<TypedDataModel>, Seq<TypedDataModel>, Seq<u8>, Seq<u8>),
> {
    match spec_read_u8(s, off) {
        Err(e) => Err(e),
        Ok((skey, o1)) => match spec_read_bytes(s, o1, 4) {
            Err(e) => Err(e),
            Ok((flags, o2)) => match spec_read_typed_list(s, o2, endian) {
                Err(e) => Err(e),
                Ok((addresses, o3)) => match spec_read_typed_list(s, o3, endian) {
                    Err(e) => Err(e),
                    Ok((auth_data, o4)) => match spec_read_data(s, o4, endian) {
                        Err(e) => Err(e),
                        Ok((ticket, o5)) => match spec_read_data(s, o5, endian) {
                            Err(e) => Err(e),
                            Ok((second_ticket, o6)) => Ok(
                                (
                                    (skey != 0, flags, addresses, auth_data, ticket, second_ticket),
                                    o6,
                                ),
                            ),
                        },
                    },
                },
            },
        },
    }
}


/// A whole credential.
#[verifier::opaque]
pub open spec fn spec_read_credential(s: Seq<u8>, off: int, version: u8, endian: Endian) -> SpecRead<
    CredentialModel,
> {
    match spec_read_principal(s, off, version, endian) {
        Err(e) => Err(e),
        Ok((client, o1)) => match spec_read_principal(s, o1, version, endian) {
            Err(e) => Err(e),
            Ok((server, o2)) => match spec_read_key(s, o2, version, endian) {
                Err(e) => Err(e),
                Ok((key, o3)) => match spec_read_times(s, o3, endian) {
                    Err(e) => Err(e),
                    Ok((times, o4)) => match spec_read_credential_tail(s, o4, endian) {
                        Err(e) => Err(e),
                        Ok((t, o5)) => Ok(
                            (
                                CredentialModel {
                                    client,
                                    server,
                                    key,
                                    times,
                                    is_skey: t.0,
                                    ticket_flags: t.1,
                                    addresses: t.2,
                                    auth_data: t.3,
                                    ticket: t.4,
                                    second_ticket: t.5,
                                },
                                o5,
                            ),
                        ),
                    },
                },
            },
        },
    }
}

pub proof fn lemma_read_strings_mono(s: Seq<u8>, off: int, n: nat, endian: Endian)
    requires
        off <= s.len(),
    ensures
        spec_read_strings(s, off, n, endian) matches Ok((_, o)) ==> off <= o <= s.len(),
    decreases n,
{
    if n > 0 {
        lemma_read_strings_mono(s, off, (n - 1) as nat, endian);
    }
}

pub proof fn lemma_read_typed_seq_mono(s: Seq<u8>, off: int, n: nat, endian: Endian)
    requires
        off <= s.len(),
    ensures
        spec_read_typed_seq(s, off, n, endian) matches Ok((_, o)) ==> off <= o <= s.len(),
    decreases n,
{
    if n > 0 {
        lemma_read_typed_seq_mono(s, off, (n - 1) as nat, endian);
    }
}

pub proof fn lemma_principal_advances(s: Seq<u8>, off: int, version: u8, endian: Endian)
    ensures
        spec_read_principal(s, off, version, endian) matches Ok((_, o)) ==> off + 4 <= o <= s.len(),
{
    reveal(spec_read_principal);
    reveal(spec_read_principal_body);
    if let Ok((_, o)) = spec_read_principal(s, off, version, endian) {
        let name_type = if version == 1 {
            Ok((0i32, off))
        } else {
            spec_read_i32(s, off, endian)
        };
        let (_, o1) = name_type.unwrap();
        let (raw, o2) = spec_read_i32(s, o1, endian).unwrap();
        let (_, o3) = spec_read_counted_string(s, o2, endian).unwrap();
        let count = spec_component_count(raw, version).unwrap();
        lemma_read_strings_mono(s, o3, count as nat, endian);
    }
}

pub proof fn lemma_credential_advances(s: Seq<u8>, off: int, version: u8, endian: Endian)
    ensures
        spec_read_credential(s, off, version, endian) matches Ok((_, o)) ==> off < o <= s.len(),
{
    reveal(spec_read_credential);
    reveal(spec_read_credential_tail);
    reveal(spec_read_key);
    if let Ok((_, o)) = spec_read_credential(s, off, version, endian) {
        lemma_principal_advances(s, off, version, endian);
        let (_, o1) = spec_read_principal(s, off, version, endian).unwrap();
        lemma_principal_advances(s, o1, version, endian);
        let (_, o2) = spec_read_principal(s, o1, version, endian).unwrap();
        let (_, o3) = spec_read_key(s, o2, version, endian).unwrap();
        let (_, o4) = spec_read_times(s, o3, endian).unwrap();
        let (_, t1) = spec_read_u8(s, o4).unwrap();
        let (_, t2) = spec_read_bytes(s, t1, 4).unwrap();
        let (n1, t3) = spec_read_count(s, t2, endian).unwrap();
        lemma_read_typed_seq_mono(s, t3, n1 as nat, endian);
        let (_, t4) = spec_read_typed_list(s, t2, endian).unwrap();
        let (n2, t5) = spec_read_count(s, t4, endian).unwrap();
        lemma_read_typed_seq_mono(s, t5, n2 as nat, endian);
    }
}

/// Credentials from `off` to the end of the input.
pub open spec fn spec_read_credentials(s: Seq<u8>, off: int, version: u8, endian: Endian) -> SpecRead<
    Seq<CredentialModel>,
>
    decreases s.len() - off,
{
    if off >= s.len() {
        Ok((Seq::empty(), off))
    } else {
        match spec_read_credential(s, off, version, endian) {
            Err(e) => Err(e),
            Ok((c, o)) => {
                proof {
                    lemma_credential_advances(s, off, version, endian);
                }
                match spec_read_credentials(s, o, version, endian) {
                    Ok((cs, o2)) => Ok((seq![c] + cs, o2)),
                    Err(e) => Err(e),
                }
            },
        }
    }
}

/// A whole credential cache file, read with the host byte order given by
/// `host_little` (it matters for versions 1 and 2 only).
pub open spec fn spec_parse_ccache(s: Seq<u8>, host_little: bool) -> Result<CCacheModel, Error> {
    if s.len() < 2 {
        Err(Error::TooShort { actual: s.len() as usize })
    } else if s[0] != CCACHE_FIRST_BYTE {
        Err(Error::InvalidFirstByte(s[0]))
    } else if !(1 <= s[1] <= 4) {
        Err(Error::InvalidVersion(s[1]))
    } else {
        let version = s[1];
        let endian = spec_endian(version, host_little);
        let header = if version == 4 {
            spec_read_header(s, 2, endian)
        } else {
            Ok((Seq::empty(), 2))
        };
        match header {
            Err(e) => Err(e),
            Ok((header, o1)) => match spec_read_principal(s, o1, version, endian) {
                Err(e) => Err(e),
                Ok((default_principal, o2)) => match spec_read_credentials(
                    s,
                    o2,
                    version,
                    endian,
                ) {
                    Err(e) => Err(e),
                    Ok((credentials, _)) => Ok(
                        CCacheModel { version, header, default_principal, credentials },
                    ),
                },
            },
        }
    }
}

/// A parse result taken by its view.
pub open spec fn spec_ccache_result(r: Result<CCache, Error>) -> Result<CCacheModel, Error> {
    match r {
        Ok(c) => Ok(c@),
        Err(e) => Err(e),
    }
}

impl HostAddress {
    fn parse(bytes: &[u8], offset: &mut usize, endian: Endian) -> (r: Result<Self, Error>)
        requires
            *old(offset) <= bytes@.len(),
        ensures
            spec_read_typed(bytes@, *old(offset) as int, endian) == lift(r, *final(offset)),
            *final(offset) <= bytes@.len(),
    {
        let addr_type = read_i16(bytes, offset, endian)? as i32;
        let address = read_data(bytes, offset, endian)?;
        Ok(HostAddress { addr_type, address })
    }
}

impl AuthorizationDataEntry {
    fn parse(bytes: &[u8], offset: &mut usize, endian: Endian) -> (r: Result<Self, Error>)
        requires
            *old(offset) <= bytes@.len(),
        ensures
            spec_read_typed(bytes@, *old(offset) as int, endian) == lift(r, *final(offset)),
            *final(offset) <= bytes@.len(),
    {
        let ad_type = read_i16(bytes, offset, endian)? as i32;
        let data = read_data(bytes, offset, endian)?;
        Ok(AuthorizationDataEntry { ad_type, data })
    }
}

#[verifier::loop_isolation(false)]
fn read_addresses(bytes: &[u8], offset: &mut usize, endian: Endian) -> (r: Result<
    Vec<HostAddress>,
    Error,
>)
    requires
        *old(offset) <= bytes@.len(),
    ensures
        spec_read_typed_list(bytes@, *old(offset) as int, endian) == (match r {
            Ok(v) => Ok((v@.map_values(|a: HostAddress| a@), *final(offset) as int)),
            Err(e) => Err(e),
        }),
        *final(offset) <= bytes@.len(),
{
    let count = read_count(bytes, offset, endian)?;
    let ghost start = *offset;
    let mut out: Vec<HostAddress> = Vec::new();
    assert(out@.map_values(|a: HostAddress| a@) =~= Seq::<TypedDataModel>::empty());
    let mut i: usize = 0;
    while i < count
        invariant
            i <= count,
            *offset <= bytes@.len(),
            spec_read_typed_seq(bytes@, start as int, i as nat, endian) == Ok::<
                (Seq<TypedDataModel>, int),
                Error,
            >((out@.map_values(|a: HostAddress| a@), *offset as int)),
        decreases count - i,
    {
        let ghost before = out@;
        let a = match HostAddress::parse(bytes, offset, endian) {
            Ok(a) => a,
            Err(e) => {
                proof {
                    lemma_read_typed_seq_err(bytes@, start as int, (i + 1) as nat, count as nat, endian);
                }
                return Err(e);
            },
        };
        out.push(a);
        i = i + 1;
        assert(out@.map_values(|a: HostAddress| a@) =~= before.map_values(|a: HostAddress| a@).push(
            a@,
        ));
    }
    Ok(out)
}

#[verifier::loop_isolation(false)]
fn read_auth_data(bytes: &[u8], offset: &mut usize, endian: Endian) -> (r: Result<
    Vec<AuthorizationDataEntry>,
    Error,
>)
    requires
        *old(offset) <= bytes@.len(),
    ensures
        spec_read_typed_list(bytes@, *old(offset) as int, endian) == (match r {
            Ok(v) => Ok((v@.map_values(|a: AuthorizationDataEntry| a@), *final(offset) as int)),
            Err(e) => Err(e),
        }),
        *final(offset) <= bytes@.len(),
{
    let count = read_count(bytes, offset, endian)?;
    let ghost start = *offset;
    let mut out: Vec<AuthorizationDataEntry> = Vec::new();
    assert(out@.map_values(|a: AuthorizationDataEntry| a@) =~= Seq::<TypedDataModel>::empty());
    let mut i: usize = 0;
    while i < count
        invariant
            i <= count,
            *offset <= bytes@.len(),
            spec_read_typed_seq(bytes@, start as int, i as nat, endian) == Ok::<
                (Seq<TypedDataModel>, int),
                Error,
            >((out@.map_values(|a: AuthorizationDataEntry| a@), *offset as int)),
        decreases count - i,
    {
        let ghost before = out@;
        let a = match AuthorizationDataEntry::parse(bytes, offset, endian) {
            Ok(a) => a,
            Err(e) => {
                proof {
                    lemma_read_typed_seq_err(bytes@, start as int, (i + 1) as nat, count as nat, endian);
                }
                return Err(e);
            },
        };
        out.push(a);
        i = i + 1;
        assert(out@.map_values(|a: AuthorizationDataEntry| a@) =~= before.map_values(
            |a: AuthorizationDataEntry| a@,
        ).push(a@));
    }
    Ok(out)
}

fn read_key(bytes: &[u8], offset: &mut usize, version: u8, endian: Endian) -> (r: Result<
    EncryptionKey,
    Error,
>)
    requires
        *old(offset) <= bytes@.len(),
    ensures
        spec_read_key(bytes@, *old(offset) as int, version, endian) == lift(r, *final(offset)),
        *final(offset) <= bytes@.len(),
{
    reveal(spec_read_key);
    let mut etype = read_i16(bytes, offset, endian)? as i32;
    if version == 3 {
        etype = read_i16(bytes, offset, endian)? as i32;
    }
    let value = read_data(bytes, offset, endian)?;
    Ok(EncryptionKey { etype, value })
}

fn read_times(bytes: &[u8], offset: &mut usize, endian: Endian) -> (r: Result<
    CredentialTimes,
    Error,
>)
    requires
        *old(offset) <= bytes@.len(),
    ensures
        spec_read_times(bytes@, *old(offset) as int, endian) == (match r {
            Ok(t) => Ok((t, *final(offset) as int)),
            Err(e) => Err(e),
        }),
        *final(offset) <= bytes@.len(),
{
    let auth_time = read_u32(bytes, offset, endian)?;
    let start_time = read_u32(bytes, offset, endian)?;
    let end_time = read_u32(bytes, offset, endian)?;
    let renew_till = read_u32(bytes, offset, endian)?;
    Ok(CredentialTimes { auth_time, start_time, end_time, renew_till })
}

/// The parsed tail of a credential.
struct CredentialTail {
    is_skey: bool,
    ticket_flags: [u8; 4],
    addresses: Vec<HostAddress>,
    auth_data: Vec<AuthorizationDataEntry>,
    ticket: Vec<u8>,
    second_ticket: Vec<u8>,
}

spec fn spec_tail_view(t: CredentialTail) -> (
    bool,
    Seq<u8>,
    Seq<TypedDataModel>,
    Seq<TypedDataModel>,
    Seq<u8>,
    Seq<u8>,
) {
    (
        t.is_skey,
        t.ticket_flags@,
        t.addresses@.map_values(|a: HostAddress| a@),
        t.auth_data@.map_values(|a: AuthorizationDataEntry| a@),
        t.ticket@,
        t.second_ticket@,
    )
}

fn read_tail(bytes: &[u8], offset: &mut usize, endian: Endian) -> (r: Result<
    CredentialTail,
    Error,
>)
    requires
        *old(offset) <= bytes@.len(),
    ensures
        spec_read_credential_tail(bytes@, *old(offset) as int, endian) == (match r {
            Ok(t) => Ok((spec_tail_view(t), *final(offset) as int)),
            Err(e) => Err(e),
        }),
        *final(offset) <= bytes@.len(),
{
    reveal(spec_read_credential_tail);
    let is_skey = read_u8(bytes, offset)? != 0;
    let raw = read_bytes(bytes, offset, 4)?;
    let ticket_flags: [u8; 4] = [raw[0], raw[1], raw[2], raw[3]];
    assert(ticket_flags@ =~= raw@);
    let addresses = read_addresses(bytes, offset, endian)?;
    let auth_data = read_auth_data(bytes, offset, endian)?;
    let ticket = read_data(bytes, offset, endian)?;
    let second_ticket = read_data(bytes, offset, endian)?;
    Ok(CredentialTail { is_skey, ticket_flags, addresses, auth_data, ticket, second_ticket })
}

impl Credential {
    fn parse(bytes: &[u8], offset: &mut usize, version: u8, endian: Endian) -> (r: Result<
        Self,
        Error,
    >)
        requires
            *old(offset) <= bytes@.len(),
        ensures
            spec_read_credential(bytes@, *old(offset) as int, version, endian) == lift(
                r,
                *final(offset),
            ),
            *final(offset) <= bytes@.len(),
    {
        reveal(spec_read_credential);
        let client = Principal::parse(bytes, offset, version, endian)?;
        let server = Principal::parse(bytes, offset, version, endian)?;
        let key = read_key(bytes, offset, version, endian)?;
        let times = read_times(bytes, offset, endian)?;
        let tail = read_tail(bytes, offset, endian)?;
        let CredentialTail { is_skey, ticket_flags, addresses, auth_data, ticket, second_ticket } =
            tail;
        Ok(
            Credential {
                client,
                server,
                key,
                times,
                is_skey,
                ticket_flags,
                addresses,
                auth_data,
                ticket,
                second_ticket,
            },
        )
    }
}


impl CCache {
    /// Create an empty version 4 credential cache.
    pub fn new(default_principal: Principal) -> (r: Self)
        ensures
            r@.version == 4,
            r@.header.len() == 0,
            r@.default_principal == default_principal@,
            r@.credentials.len() == 0,
    {
        let c = CCache {
            version: 4,
            header: Header { fields: Vec::new() },
            default_principal,
            credentials: Vec::new(),
        };
        assert(c@.header =~= Seq::<HeaderFieldModel>::empty());
        c
    }

    /// Parse credential cache bytes.
    ///
    /// Versions 1 and 2 store integers in the host's byte order; the result
    /// is the parse under that order.
    #[verifier::loop_isolation(false)]
    pub fn parse(bytes: &[u8]) -> (r: Result<Self, Error>)
        ensures
            exists|host_little: bool| spec_parse_ccache(bytes@, host_little) == spec_ccache_result(r),
    {
        Self::parse_with_host_order(bytes, host_is_little_endian())
    }

    /// Parse bytes written by a host of the given byte order (it matters
    /// for the versions that store integers in host order).
    #[verifier::loop_isolation(false)]
    pub fn parse_with_host_order(bytes: &[u8], host_little: bool) -> (r: Result<Self, Error>)
        ensures
            spec_parse_ccache(bytes@, host_little) == spec_ccache_result(r),
    {
        if bytes.len() < 2 {
            assert(spec_parse_ccache(bytes@, host_little) == spec_ccache_result(
                Err::<CCache, Error>(Error::TooShort { actual: bytes.len() }),
            ));
            return Err(Error::TooShort { actual: bytes.len() });
        }
        if bytes[0] != CCACHE_FIRST_BYTE {
            assert(spec_parse_ccache(bytes@, host_little) == spec_ccache_result(
                Err::<CCache, Error>(Error::InvalidFirstByte(bytes[0])),
            ));
            return Err(Error::InvalidFirstByte(bytes[0]));
        }
        let version = bytes[1];
        if !(1 <= version && version <= 4) {
            assert(spec_parse_ccache(bytes@, host_little) == spec_ccache_result(
                Err::<CCache, Error>(Error::InvalidVersion(version)),
            ));
            return Err(Error::InvalidVersion(version));
        }
        let endian = endian_for(version, host_little);
        let mut offset: usize = 2;
        let header = if version == 4 {
            match Header::parse(bytes, &mut offset, endian) {
                Ok(h) => h,
                Err(e) => {
                    assert(spec_parse_ccache(bytes@, host_little) == spec_ccache_result(
                        Err::<CCache, Error>(e),
                    ));
                    return Err(e);
                },
            }
        } else {
            let h = Header { fields: Vec::new() };
            assert(h@ =~= Seq::<HeaderFieldModel>::empty());
            h
        };
        let default_principal = match Principal::parse(bytes, &mut offset, version, endian) {
            Ok(p) => p,
            Err(e) => {
                assert(spec_parse_ccache(bytes@, host_little) == spec_ccache_result(
                    Err::<CCache, Error>(e),
                ));
                return Err(e);
            },
        };
        let ghost start = offset;
        let mut credentials: Vec<Credential> = Vec::new();
        proof {
            lemma_prepend_empty(spec_read_credentials(bytes@, start as int, version, endian));
        }
        while offset < bytes.len()
            invariant
                offset <= bytes@.len(),
                spec_read_credentials(bytes@, start as int, version, endian) == spec_prepend(
                    credentials@.map_values(|c: Credential| c@),
                    spec_read_credentials(bytes@, offset as int, version, endian),
                ),
            decreases bytes@.len() - offset,
        {
            let ghost before = credentials@;
            let ghost o = offset;
            let c = match Credential::parse(bytes, &mut offset, version, endian) {
                Ok(c) => c,
                Err(e) => {
                    assert(spec_parse_ccache(bytes@, host_little) == spec_ccache_result(
                        Err::<CCache, Error>(e),
                    ));
                    return Err(e);
                },
            };
            proof {
                lemma_credential_advances(bytes@, o as int, version, endian);
                lemma_prepend_step(
                    before.map_values(|c: Credential| c@),
                    c@,
                    spec_read_credentials(bytes@, offset as int, version, endian),
                );
            }
            credentials.push(c);
            assert(credentials@.map_values(|c: Credential| c@) =~= before.map_values(
                |c: Credential| c@,
            ).push(c@));
        }
        let cache = CCache { version, header, default_principal, credentials };
        assert(spec_parse_ccache(bytes@, host_little) == spec_ccache_result(
            Ok::<CCache, Error>(cache),
        ));
        Ok(cache)
    }
}


// ---------------------------------------------------------------------------
// Writing

/// Outcome of serializing a part: its bytes, or the error that stops it.
pub type SpecWrite = Result<Seq<u8>, Error>;

/// `a` followed by `b`; the first error wins.
pub open spec fn spec_then(a: SpecWrite, b: SpecWrite) -> SpecWrite {
    match a {
        Err(e) => Err(e),
        Ok(x) => match b {
            Err(e) => Err(e),
            Ok(y) => Ok(x + y),
        },
    }
}

/// A value that must fit in an `i16`.
pub open spec fn spec_i16_checked(v: int, endian: Endian) -> SpecWrite {
    if i16::MIN <= v <= i16::MAX {
        Ok(spec_i16_bytes(v as i16, endian))
    } else {
        Err(Error::LengthOverflow)
    }
}

/// A length that must fit in a `u16`.
pub open spec fn spec_u16_len(n: int, endian: Endian) -> SpecWrite {
    if n <= u16::MAX {
        Ok(spec_u16_bytes(n as u16, endian))
    } else {
        Err(Error::LengthOverflow)
    }
}

/// A length or count that must fit in an `i32`.
pub open spec fn spec_i32_len(n: int, endian: Endian) -> SpecWrite {
    if n <= i32::MAX {
        Ok(spec_i32_bytes(n as i32, endian))
    } else {
        Err(Error::LengthOverflow)
    }
}

/// Length-prefixed bytes.
pub open spec fn spec_data_bytes(d: Seq<u8>, endian: Endian) -> SpecWrite {
    spec_then(spec_i32_len(d.len() as int, endian), Ok(d))
}

/// Length-prefixed UTF-8 text.
pub open spec fn spec_string_bytes(text: Seq<char>, endian: Endian) -> SpecWrite {
    spec_data_bytes(encode_utf8(text), endian)
}

/// Several length-prefixed strings in a row.
pub open spec fn spec_strings_bytes(xs: Seq<Seq<char>>, endian: Endian) -> SpecWrite
    decreases xs.len(),
{
    if xs.len() == 0 {
        Ok(Seq::empty())
    } else {
        spec_then(spec_strings_bytes(xs.drop_last(), endian), spec_string_bytes(xs.last(), endian))
    }
}

/// The part of a principal after its name type: component count, realm,
/// and components.
pub open spec fn spec_principal_count_bytes(p: PrincipalModel, version: u8, endian: Endian) -> SpecWrite {
    let count: int = if version == 1 {
        p.components.len() as int + 1
    } else {
        p.components.len() as int
    };
    spec_then(
        spec_i32_len(count, endian),
        spec_then(spec_string_bytes(p.realm, endian), spec_strings_bytes(p.components, endian)),
    )
}

/// A principal as stored by `version`.
#[verifier::opaque]
pub open spec fn spec_principal_bytes(p: PrincipalModel, version: u8, endian: Endian) -> SpecWrite {
    let name_type = if version != 1 {
        Ok(spec_i32_bytes(p.name_type, endian))
    } else {
        Ok(Seq::empty())
    };
    spec_then(name_type, spec_principal_count_bytes(p, version, endian))
}

/// One header field, which must be valid.
pub open spec fn spec_header_field_bytes(f: HeaderFieldModel, endian: Endian) -> SpecWrite {
    if !spec_header_field_valid(f) {
        Err(Error::InvalidHeaderField { tag: f.tag, length: f.value.len() as usize })
    } else {
        spec_then(
            Ok(spec_u16_bytes(f.tag, endian)),
            spec_then(spec_u16_len(f.value.len() as int, endian), Ok(f.value)),
        )
    }
}

/// Header fields in a row.
pub open spec fn spec_header_fields_bytes(fs: Seq<HeaderFieldModel>, endian: Endian) -> SpecWrite
    decreases fs.len(),
{
    if fs.len() == 0 {
        Ok(Seq::empty())
    } else {
        spec_then(
            spec_header_fields_bytes(fs.drop_last(), endian),
            spec_header_field_bytes(fs.last(), endian),
        )
    }
}

/// A version 4 header: the 16-bit length of the fields, then the fields.
pub open spec fn spec_header_bytes(fs: Seq<HeaderFieldModel>, endian: Endian) -> SpecWrite {
    match spec_header_fields_bytes(fs, endian) {
        Err(e) => Err(e),
        Ok(body) => spec_then(spec_u16_len(body.len() as int, endian), Ok(body)),
    }
}

/// One address or authorization-data item.
pub open spec fn spec_typed_bytes(t: TypedDataModel, endian: Endian) -> SpecWrite {
    spec_then(spec_i16_checked(t.data_type as int, endian), spec_data_bytes(t.data, endian))
}

/// Items in a row.
pub open spec fn spec_typed_seq_bytes(ts: Seq<TypedDataModel>, endian: Endian) -> SpecWrite
    decreases ts.len(),
{
    if ts.len() == 0 {
        Ok(Seq::empty())
    } else {
        spec_then(spec_typed_seq_bytes(ts.drop_last(), endian), spec_typed_bytes(ts.last(), endian))
    }
}

/// A count followed by the items.
pub open spec fn spec_typed_list_bytes(ts: Seq<TypedDataModel>, endian: Endian) -> SpecWrite {
    spec_then(spec_i32_len(ts.len() as int, endian), spec_typed_seq_bytes(ts, endian))
}

/// The session key: its type (twice in version 3) and bytes.
#[verifier::opaque]
pub open spec fn spec_key_bytes(k: EncryptionKeyModel, version: u8, endian: Endian) -> SpecWrite {
    spec_then(
        spec_i16_checked(k.etype as int, endian),
        spec_then(
            if version == 3 {
                spec_i16_checked(k.etype as int, endian)
            } else {
                Ok(Seq::empty())
            },
            spec_data_bytes(k.value, endian),
        ),
    )
}

/// The four timestamps.
pub open spec fn spec_times_bytes(t: CredentialTimes, endian: Endian) -> Seq<u8> {
    spec_u32_bytes(t.auth_time, endian) + spec_u32_bytes(t.start_time, endian) + spec_u32_bytes(
        t.end_time,
        endian,
    ) + spec_u32_bytes(t.renew_till, endian)
}

/// The credential fields after the times.
#[verifier::opaque]
pub open spec fn spec_credential_tail_bytes(c: CredentialModel, endian: Endian) -> SpecWrite {
    spec_then(
        Ok(seq![if c.is_skey { 1u8 } else { 0u8 }] + c.ticket_flags),
        spec_then(
            spec_typed_list_bytes(c.addresses, endian),
            spec_then(
                spec_typed_list_bytes(c.auth_data, endian),
                spec_then(spec_data_bytes(c.ticket, endian), spec_data_bytes(c.second_ticket, endian)),
            ),
        ),
    )
}

/// A whole credential.
#[verifier::opaque]
pub open spec fn spec_credential_bytes(c: CredentialModel, version: u8, endian: Endian) -> SpecWrite {
    spec_then(
        spec_principal_bytes(c.client, version, endian),
        spec_then(
            spec_principal_bytes(c.server, version, endian),
            spec_then(
                spec_key_bytes(c.key, version, endian),
                spec_then(Ok(spec_times_bytes(c.times, endian)), spec_credential_tail_bytes(c, endian)),
            ),
        ),
    )
}

/// Credentials in a row.
pub open spec fn spec_credentials_bytes(cs: Seq<CredentialModel>, version: u8, endian: Endian) -> SpecWrite
    decreases cs.len(),
{
    if cs.len() == 0 {
        Ok(Seq::empty())
    } else {
        spec_then(
            spec_credentials_bytes(cs.drop_last(), version, endian),
            spec_credential_bytes(cs.last(), version, endian),
        )
    }
}

/// A whole credential cache file, written with the host byte order given by
/// `host_little` (it matters for versions 1 and 2 only).
pub open spec fn spec_ccache_bytes(c: CCacheModel, host_little: bool) -> SpecWrite {
    let endian = spec_endian(c.version, host_little);
    spec_then(
        Ok(seq![CCACHE_FIRST_BYTE, c.version]),
        spec_then(
            if c.version == 4 {
                spec_header_bytes(c.header, endian)
            } else {
                Ok(Seq::empty())
            },
            spec_then(
                spec_principal_bytes(c.default_principal, c.version, endian),
                spec_credentials_bytes(c.credentials, c.version, endian),
            ),
        ),
    )
}

/// Whether a call that appended to a buffer did what `expected` says: on
/// success the buffer grew by exactly those bytes, on failure the error is
/// the expected one.
pub open spec fn spec_appended(
    before: Seq<u8>,
    after: Seq<u8>,
    r: Result<(), Error>,
    expected: SpecWrite,
) -> bool {
    match (r, expected) {
        (Ok(_), Ok(b)) => after == before + b,
        (Err(e1), Err(e2)) => e1 == e2,
        _ => false,
    }
}

fn write_i16_checked(out: &mut Vec<u8>, value: i32, endian: Endian) -> (r: Result<(), Error>)
    ensures
        spec_appended(old(out)@, final(out)@, r, spec_i16_checked(value as int, endian)),
{
    if value < -32768 || value > 32767 {
        return Err(Error::LengthOverflow);
    }
    push_i16(out, value as i16, endian);
    Ok(())
}

fn write_u16_checked(out: &mut Vec<u8>, value: usize, endian: Endian) -> (r: Result<(), Error>)
    ensures
        spec_appended(old(out)@, final(out)@, r, spec_u16_len(value as int, endian)),
{
    if value > 65535 {
        return Err(Error::LengthOverflow);
    }
    push_u16(out, value as u16, endian);
    Ok(())
}

fn write_i32_len_checked(out: &mut Vec<u8>, value: usize, endian: Endian) -> (r: Result<
    (),
    Error,
>)
    ensures
        spec_appended(old(out)@, final(out)@, r, spec_i32_len(value as int, endian)),
{
    if value > 0x7fff_ffff {
        return Err(Error::LengthOverflow);
    }
    push_i32(out, value as i32, endian);
    Ok(())
}

fn write_data(out: &mut Vec<u8>, value: &[u8], endian: Endian) -> (r: Result<(), Error>)
    ensures
        spec_appended(old(out)@, final(out)@, r, spec_data_bytes(value@, endian)),
{
    write_i32_len_checked(out, value.len(), endian)?;
    let ghost mid = out@;
    extend_bytes(out, value);
    assert(out@ =~= old(out)@ + (spec_i32_bytes(value@.len() as i32, endian) + value@));
    Ok(())
}

fn write_counted_string(out: &mut Vec<u8>, value: &str, endian: Endian) -> (r: Result<
    (),
    Error,
>)
    ensures
        spec_appended(old(out)@, final(out)@, r, spec_string_bytes(value@, endian)),
{
    write_data(out, value.as_bytes(), endian)
}


pub(crate) proof fn lemma_strings_bytes_err(xs: Seq<Seq<char>>, k: int, endian: Endian)
    requires
        0 <= k <= xs.len(),
        spec_strings_bytes(xs.subrange(0, k), endian) is Err,
    ensures
        spec_strings_bytes(xs, endian) == spec_strings_bytes(xs.subrange(0, k), endian),
    decreases xs.len() - k,
{
    if k < xs.len() {
        assert(xs.subrange(0, xs.len() - 1).subrange(0, k) =~= xs.subrange(0, k));
        assert(xs.drop_last() =~= xs.subrange(0, xs.len() - 1));
        lemma_strings_bytes_err(xs.subrange(0, xs.len() - 1), k, endian);
    } else {
        assert(xs.subrange(0, k) =~= xs);
    }
}

proof fn lemma_typed_seq_bytes_err(xs: Seq<TypedDataModel>, k: int, endian: Endian)
    requires
        0 <= k <= xs.len(),
        spec_typed_seq_bytes(xs.subrange(0, k), endian) is Err,
    ensures
        spec_typed_seq_bytes(xs, endian) == spec_typed_seq_bytes(xs.subrange(0, k), endian),
    decreases xs.len() - k,
{
    if k < xs.len() {
        assert(xs.subrange(0, xs.len() - 1).subrange(0, k) =~= xs.subrange(0, k));
        assert(xs.drop_last() =~= xs.subrange(0, xs.len() - 1));
        lemma_typed_seq_bytes_err(xs.subrange(0, xs.len() - 1), k, endian);
    } else {
        assert(xs.subrange(0, k) =~= xs);
    }
}

proof fn lemma_header_fields_bytes_err(xs: Seq<HeaderFieldModel>, k: int, endian: Endian)
    requires
        0 <= k <= xs.len(),
        spec_header_fields_bytes(xs.subrange(0, k), endian) is Err,
    ensures
        spec_header_fields_bytes(xs, endian) == spec_header_fields_bytes(xs.subrange(0, k), endian),
    decreases xs.len() - k,
{
    if k < xs.len() {
        assert(xs.subrange(0, xs.len() - 1).subrange(0, k) =~= xs.subrange(0, k));
        assert(xs.drop_last() =~= xs.subrange(0, xs.len() - 1));
        lemma_header_fields_bytes_err(xs.subrange(0, xs.len() - 1), k, endian);
    } else {
        assert(xs.subrange(0, k) =~= xs);
    }
}

proof fn lemma_credentials_bytes_err(xs: Seq<CredentialModel>, k: int, version: u8, endian: Endian)
    requires
        0 <= k <= xs.len(),
        spec_credentials_bytes(xs.subrange(0, k), version, endian) is Err,
    ensures
        spec_credentials_bytes(xs, version, endian) == spec_credentials_bytes(
            xs.subrange(0, k),
            version,
            endian,
        ),
    decreases xs.len() - k,
{
    if k < xs.len() {
        assert(xs.subrange(0, xs.len() - 1).subrange(0, k) =~= xs.subrange(0, k));
        assert(xs.drop_last() =~= xs.subrange(0, xs.len() - 1));
        lemma_credentials_bytes_err(xs.subrange(0, xs.len() - 1), k, version, endian);
    } else {
        assert(xs.subrange(0, k) =~= xs);
    }
}

impl Principal {
    #[verifier::loop_isolation(false)]
    #[verifier::spinoff_prover]
    #[verifier::rlimit(60)]
    fn write_to(&self, out: &mut Vec<u8>, version: u8, endian: Endian) -> (r: Result<(), Error>)
        ensures
            spec_appended(old(out)@, final(out)@, r, spec_principal_bytes(self@, version, endian)),
    {
        reveal(spec_principal_bytes);
        let ghost start = out@;
        if version != 1 {
            push_i32(out, self.name_type, endian);
        }
        let ghost after_nt = out@;
        let component_count = if version == 1 {
            if self.components.len() == usize::MAX {
                return Err(Error::LengthOverflow);
            }
            self.components.len() + 1
        } else {
            self.components.len()
        };
        write_i32_len_checked(out, component_count, endian)?;
        let ghost after_count = out@;
        write_counted_string(out, self.realm.as_str(), endian)?;
        let ghost after_realm = out@;
        let ghost comps = spec_string_views(self.components@);
        let mut i: usize = 0;
        assert(comps.subrange(0, 0) =~= Seq::<Seq<char>>::empty());
        assert(after_realm =~= after_realm + Seq::<u8>::empty());
        while i < self.components.len()
            invariant
                i <= self.components@.len(),
                comps == spec_string_views(self.components@),
                spec_strings_bytes(comps.subrange(0, i as int), endian) is Ok,
                out@ == after_realm + spec_strings_bytes(comps.subrange(0, i as int), endian)->Ok_0,
            decreases self.components@.len() - i,
        {
            let ghost before = out@;
            assert(comps.subrange(0, i + 1).drop_last() =~= comps.subrange(0, i as int));
            match write_counted_string(out, self.components[i].as_str(), endian) {
                Ok(()) => {},
                Err(e) => {
                    proof {
                        lemma_strings_bytes_err(comps, i + 1, endian);
                    }
                    return Err(e);
                },
            }
            i = i + 1;
            assert(out@ =~= after_realm + spec_strings_bytes(comps.subrange(0, i as int), endian)->Ok_0);
        }
        assert(comps.subrange(0, self.components@.len() as int) =~= comps);
        assert(out@ =~= start + spec_principal_bytes(self@, version, endian)->Ok_0);
        Ok(())
    }
}


impl HeaderField {
    fn write_to(&self, out: &mut Vec<u8>, endian: Endian) -> (r: Result<(), Error>)
        ensures
            spec_appended(old(out)@, final(out)@, r, spec_header_field_bytes(self@, endian)),
    {
        self.validate()?;
        push_u16(out, self.tag, endian);
        write_u16_checked(out, self.value.len(), endian)?;
        extend_bytes(out, self.value.as_slice());
        assert(out@ =~= old(out)@ + spec_header_field_bytes(self@, endian)->Ok_0);
        Ok(())
    }
}

impl Header {
    #[verifier::loop_isolation(false)]
    fn write_to(&self, out: &mut Vec<u8>, endian: Endian) -> (r: Result<(), Error>)
        ensures
            spec_appended(old(out)@, final(out)@, r, spec_header_bytes(self@, endian)),
    {
        let ghost fs = self@;
        let mut body: Vec<u8> = Vec::new();
        let mut i: usize = 0;
        assert(fs.subrange(0, 0) =~= Seq::<HeaderFieldModel>::empty());
        while i < self.fields.len()
            invariant
                i <= self.fields@.len(),
                fs == self@,
                spec_header_fields_bytes(fs.subrange(0, i as int), endian) is Ok,
                body@ == spec_header_fields_bytes(fs.subrange(0, i as int), endian)->Ok_0,
            decreases self.fields@.len() - i,
        {
            assert(fs.subrange(0, i + 1).drop_last() =~= fs.subrange(0, i as int));
            assert(fs.subrange(0, i + 1).last() == self.fields@[i as int]@);
            match self.fields[i].write_to(&mut body, endian) {
                Ok(()) => {},
                Err(e) => {
                    proof {
                        lemma_header_fields_bytes_err(fs, i + 1, endian);
                    }
                    return Err(e);
                },
            }
            i = i + 1;
        }
        assert(fs.subrange(0, self.fields@.len() as int) =~= fs);
        write_u16_checked(out, body.len(), endian)?;
        extend_bytes(out, body.as_slice());
        assert(out@ =~= old(out)@ + spec_header_bytes(fs, endian)->Ok_0);
        Ok(())
    }
}

impl HostAddress {
    fn write_to(&self, out: &mut Vec<u8>, endian: Endian) -> (r: Result<(), Error>)
        ensures
            spec_appended(old(out)@, final(out)@, r, spec_typed_bytes(self@, endian)),
    {
        write_i16_checked(out, self.addr_type, endian)?;
        write_data(out, self.address.as_slice(), endian)?;
        assert(out@ =~= old(out)@ + spec_typed_bytes(self@, endian)->Ok_0);
        Ok(())
    }
}

impl AuthorizationDataEntry {
    fn write_to(&self, out: &mut Vec<u8>, endian: Endian) -> (r: Result<(), Error>)
        ensures
            spec_appended(old(out)@, final(out)@, r, spec_typed_bytes(self@, endian)),
    {
        write_i16_checked(out, self.ad_type, endian)?;
        write_data(out, self.data.as_slice(), endian)?;
        assert(out@ =~= old(out)@ + spec_typed_bytes(self@, endian)->Ok_0);
        Ok(())
    }
}

#[verifier::loop_isolation(false)]
fn write_addresses(out: &mut Vec<u8>, items: &Vec<HostAddress>, endian: Endian) -> (r: Result<
    (),
    Error,
>)
    ensures
        spec_appended(
            old(out)@,
            final(out)@,
            r,
            spec_typed_list_bytes(items@.map_values(|a: HostAddress| a@), endian),
        ),
{
    let ghost ts = items@.map_values(|a: HostAddress| a@);
    write_i32_len_checked(out, items.len(), endian)?;
    let ghost mid = out@;
    let mut i: usize = 0;
    assert(ts.subrange(0, 0) =~= Seq::<TypedDataModel>::empty());
    assert(mid =~= mid + Seq::<u8>::empty());
    while i < items.len()
        invariant
            i <= items@.len(),
            ts == items@.map_values(|a: HostAddress| a@),
            spec_typed_seq_bytes(ts.subrange(0, i as int), endian) is Ok,
            out@ == mid + spec_typed_seq_bytes(ts.subrange(0, i as int), endian)->Ok_0,
        decreases items@.len() - i,
    {
        assert(ts.subrange(0, i + 1).drop_last() =~= ts.subrange(0, i as int));
        assert(ts.subrange(0, i + 1).last() == items@[i as int]@);
        match items[i].write_to(out, endian) {
            Ok(()) => {},
            Err(e) => {
                proof {
                    lemma_typed_seq_bytes_err(ts, i + 1, endian);
                }
                return Err(e);
            },
        }
        i = i + 1;
        assert(out@ =~= mid + spec_typed_seq_bytes(ts.subrange(0, i as int), endian)->Ok_0);
    }
    assert(ts.subrange(0, items@.len() as int) =~= ts);
    assert(out@ =~= old(out)@ + spec_typed_list_bytes(ts, endian)->Ok_0);
    Ok(())
}

#[verifier::loop_isolation(false)]
fn write_auth_data(out: &mut Vec<u8>, items: &Vec<AuthorizationDataEntry>, endian: Endian) -> (r:
    Result<(), Error>)
    ensures
        spec_appended(
            old(out)@,
            final(out)@,
            r,
            spec_typed_list_bytes(items@.map_values(|a: AuthorizationDataEntry| a@), endian),
        ),
{
    let ghost ts = items@.map_values(|a: AuthorizationDataEntry| a@);
    write_i32_len_checked(out, items.len(), endian)?;
    let ghost mid = out@;
    let mut i: usize = 0;
    assert(ts.subrange(0, 0) =~= Seq::<TypedDataModel>::empty());
    assert(mid =~= mid + Seq::<u8>::empty());
    while i < items.len()
        invariant
            i <= items@.len(),
            ts == items@.map_values(|a: AuthorizationDataEntry| a@),
            spec_typed_seq_bytes(ts.subrange(0, i as int), endian) is Ok,
            out@ == mid + spec_typed_seq_bytes(ts.subrange(0, i as int), endian)->Ok_0,
        decreases items@.len() - i,
    {
        assert(ts.subrange(0, i + 1).drop_last() =~= ts.subrange(0, i as int));
        assert(ts.subrange(0, i + 1).last() == items@[i as int]@);
        match items[i].write_to(out, endian) {
            Ok(()) => {},
            Err(e) => {
                proof {
                    lemma_typed_seq_bytes_err(ts, i + 1, endian);
                }
                return Err(e);
            },
        }
        i = i + 1;
        assert(out@ =~= mid + spec_typed_seq_bytes(ts.subrange(0, i as int), endian)->Ok_0);
    }
    assert(ts.subrange(0, items@.len() as int) =~= ts);
    assert(out@ =~= old(out)@ + spec_typed_list_bytes(ts, endian)->Ok_0);
    Ok(())
}


fn write_key(out: &mut Vec<u8>, key: &EncryptionKey, version: u8, endian: Endian) -> (r: Result<
    (),
    Error,
>)
    ensures
        spec_appended(old(out)@, final(out)@, r, spec_key_bytes(key@, version, endian)),
{
    reveal(spec_key_bytes);
    write_i16_checked(out, key.etype, endian)?;
    let ghost mid = out@;
    if version == 3 {
        write_i16_checked(out, key.etype, endian)?;
    }
    let ghost mid2 = out@;
    write_data(out, key.value.as_slice(), endian)?;
    assert(out@ =~= old(out)@ + spec_key_bytes(key@, version, endian)->Ok_0);
    Ok(())
}

fn write_times(out: &mut Vec<u8>, times: &CredentialTimes, endian: Endian)
    ensures
        final(out)@ == old(out)@ + spec_times_bytes(*times, endian),
{
    push_u32(out, times.auth_time, endian);
    push_u32(out, times.start_time, endian);
    push_u32(out, times.end_time, endian);
    push_u32(out, times.renew_till, endian);
    assert(out@ =~= old(out)@ + spec_times_bytes(*times, endian));
}

#[verifier::spinoff_prover]
#[verifier::rlimit(60)]
fn write_tail(out: &mut Vec<u8>, c: &Credential, endian: Endian) -> (r: Result<(), Error>)
    ensures
        spec_appended(old(out)@, final(out)@, r, spec_credential_tail_bytes(c@, endian)),
{
    reveal(spec_credential_tail_bytes);
    out.push(if c.is_skey { 1u8 } else { 0u8 });
    extend_bytes(out, &c.ticket_flags);
    let ghost m1 = out@;
    write_addresses(out, &c.addresses, endian)?;
    let ghost m2 = out@;
    write_auth_data(out, &c.auth_data, endian)?;
    let ghost m3 = out@;
    write_data(out, c.ticket.as_slice(), endian)?;
    let ghost m4 = out@;
    write_data(out, c.second_ticket.as_slice(), endian)?;
    assert(out@ =~= old(out)@ + spec_credential_tail_bytes(c@, endian)->Ok_0);
    Ok(())
}

impl Credential {
    fn write_to(&self, out: &mut Vec<u8>, version: u8, endian: Endian) -> (r: Result<(), Error>)
        ensures
            spec_appended(old(out)@, final(out)@, r, spec_credential_bytes(self@, version, endian)),
    {
        reveal(spec_credential_bytes);
        self.client.write_to(out, version, endian)?;
        let ghost m1 = out@;
        self.server.write_to(out, version, endian)?;
        let ghost m2 = out@;
        write_key(out, &self.key, version, endian)?;
        let ghost m3 = out@;
        write_times(out, &self.times, endian);
        let ghost m4 = out@;
        write_tail(out, self, endian)?;
        assert(out@ =~= old(out)@ + spec_credential_bytes(self@, version, endian)->Ok_0);
        Ok(())
    }
}

impl CCache {
    /// Serialize the credential cache to bytes.
    ///
    /// Versions 1 and 2 store integers in the host's byte order.
    #[verifier::loop_isolation(false)]
    pub fn to_bytes(&self) -> (r: Result<Vec<u8>, Error>)
        ensures
            exists|host_little: bool|
                match (r, #[trigger] spec_ccache_bytes(self@, host_little)) {
                    (Ok(b), Ok(x)) => b@ == x,
                    (Err(e1), Err(e2)) => e1 == e2,
                    _ => false,
                },
    {
        let little = host_is_little_endian();
        let r = self.to_bytes_with_host_order(little);
        assert(match (r, spec_ccache_bytes(self@, little)) {
            (Ok(b), Ok(x)) => b@ == x,
            (Err(e1), Err(e2)) => e1 == e2,
            _ => false,
        });
        r
    }

    /// Serialize for a host of the given byte order (it matters for the
    /// versions that store integers in host order).
    #[verifier::loop_isolation(false)]
    pub fn to_bytes_with_host_order(&self, host_little: bool) -> (r: Result<Vec<u8>, Error>)
        ensures
            match (r, spec_ccache_bytes(self@, host_little)) {
                (Ok(b), Ok(x)) => b@ == x,
                (Err(e1), Err(e2)) => e1 == e2,
                _ => false,
            },
    {
        let endian = endian_for(self.version, host_little);
        let ghost model = self@;
        let mut out: Vec<u8> = Vec::new();
        out.push(CCACHE_FIRST_BYTE);
        out.push(self.version);
        let ghost m0 = out@;
        if self.version == 4 {
            match self.header.write_to(&mut out, endian) {
                Ok(()) => {},
                Err(e) => {
                    assert(spec_ccache_bytes(model, host_little) == Err::<Seq<u8>, Error>(e));
                    return Err(e);
                },
            }
        }
        let ghost m1 = out@;
        match self.default_principal.write_to(&mut out, self.version, endian) {
            Ok(()) => {},
            Err(e) => {
                assert(spec_ccache_bytes(model, host_little) == Err::<Seq<u8>, Error>(e));
                return Err(e);
            },
        }
        let ghost m2 = out@;
        let ghost cs = model.credentials;
        let mut i: usize = 0;
        assert(cs.subrange(0, 0) =~= Seq::<CredentialModel>::empty());
        assert(m2 =~= m2 + Seq::<u8>::empty());
        while i < self.credentials.len()
            invariant
                i <= self.credentials@.len(),
                cs == self.credentials@.map_values(|c: Credential| c@),
                spec_credentials_bytes(cs.subrange(0, i as int), self.version, endian) is Ok,
                out@ == m2 + spec_credentials_bytes(cs.subrange(0, i as int), self.version, endian)->Ok_0,
            decreases self.credentials@.len() - i,
        {
            assert(cs.subrange(0, i + 1).drop_last() =~= cs.subrange(0, i as int));
            assert(cs.subrange(0, i + 1).last() == self.credentials@[i as int]@);
            match self.credentials[i].write_to(&mut out, self.version, endian) {
                Ok(()) => {},
                Err(e) => {
                    proof {
                        lemma_credentials_bytes_err(cs, i + 1, self.version, endian);
                    }
                    assert(spec_ccache_bytes(model, host_little) == Err::<Seq<u8>, Error>(e));
                    return Err(e);
                },
            }
            i = i + 1;
            assert(out@ =~= m2 + spec_credentials_bytes(cs.subrange(0, i as int), self.version, endian)->Ok_0);
        }
        assert(cs.subrange(0, self.credentials@.len() as int) =~= cs);
        assert(out@ =~= spec_ccache_bytes(model, host_little)->Ok_0);
        Ok(out)
    }
}


// ---------------------------------------------------------------------------
// Reading back what was written

/// `s` holds `b` at `off`, and is short enough to be held in memory.
pub open spec fn spec_holds_at(s: Seq<u8>, off: int, b: Seq<u8>) -> bool {
    0 <= off && off + b.len() <= s.len() && s.len() <= usize::MAX && s.subrange(off, off + b.len())
        == b
}

proof fn lemma_holds_split(s: Seq<u8>, off: int, a: Seq<u8>, b: Seq<u8>)
    requires
        spec_holds_at(s, off, a + b),
    ensures
        spec_holds_at(s, off, a),
        spec_holds_at(s, off + a.len(), b),
{
    assert(s.subrange(off, off + a.len()) =~= (a + b).subrange(0, a.len() as int));
    assert((a + b).subrange(0, a.len() as int) =~= a);
    assert(s.subrange(off + a.len(), off + a.len() + b.len()) =~= (a + b).subrange(
        a.len() as int,
        (a + b).len() as int,
    ));
    assert((a + b).subrange(a.len() as int, (a + b).len() as int) =~= b);
}

proof fn lemma_then_assoc(a: SpecWrite, b: SpecWrite, c: SpecWrite)
    ensures
        spec_then(spec_then(a, b), c) == spec_then(a, spec_then(b, c)),
{
    if let (Ok(x), Ok(y), Ok(z)) = (a, b, c) {
        assert((x + y) + z =~= x + (y + z));
    }
}

proof fn lemma_read_back_bytes(s: Seq<u8>, off: int, b: Seq<u8>)
    requires
        spec_holds_at(s, off, b),
    ensures
        spec_read_bytes(s, off, b.len() as int) == Ok::<(Seq<u8>, int), Error>((b, off + b.len())),
{
}

proof fn lemma_read_back_u16(s: Seq<u8>, off: int, v: u16, endian: Endian)
    requires
        spec_holds_at(s, off, spec_u16_bytes(v, endian)),
    ensures
        spec_read_u16(s, off, endian) == Ok::<(u16, int), Error>((v, off + 2)),
{
    lemma_read_back_bytes(s, off, spec_u16_bytes(v, endian));
    lemma_u16_roundtrip(v, endian);
}

proof fn lemma_read_back_u32(s: Seq<u8>, off: int, v: u32, endian: Endian)
    requires
        spec_holds_at(s, off, spec_u32_bytes(v, endian)),
    ensures
        spec_read_u32(s, off, endian) == Ok::<(u32, int), Error>((v, off + 4)),
{
    lemma_read_back_bytes(s, off, spec_u32_bytes(v, endian));
    lemma_u32_roundtrip(v, endian);
}

proof fn lemma_read_back_i16(s: Seq<u8>, off: int, v: i16, endian: Endian)
    requires
        spec_holds_at(s, off, spec_i16_bytes(v, endian)),
    ensures
        spec_read_i16(s, off, endian) == Ok::<(i16, int), Error>((v, off + 2)),
{
    lemma_read_back_u16(s, off, v as u16, endian);
    lemma_signed_casts(v, 0);
}

proof fn lemma_read_back_i32(s: Seq<u8>, off: int, v: i32, endian: Endian)
    requires
        spec_holds_at(s, off, spec_i32_bytes(v, endian)),
    ensures
        spec_read_i32(s, off, endian) == Ok::<(i32, int), Error>((v, off + 4)),
{
    lemma_read_back_u32(s, off, v as u32, endian);
    lemma_signed_casts(0, v);
}

proof fn lemma_read_back_data(s: Seq<u8>, off: int, d: Seq<u8>, endian: Endian)
    requires
        spec_data_bytes(d, endian) is Ok,
        spec_holds_at(s, off, spec_data_bytes(d, endian)->Ok_0),
    ensures
        spec_read_data(s, off, endian) == Ok::<(Seq<u8>, int), Error>(
            (d, off + spec_data_bytes(d, endian)->Ok_0.len()),
        ),
{
    let len_bytes = spec_i32_bytes(d.len() as i32, endian);
    lemma_holds_split(s, off, len_bytes, d);
    lemma_read_back_i32(s, off, d.len() as i32, endian);
    lemma_read_back_bytes(s, off + 4, d);
}

proof fn lemma_read_back_string(s: Seq<u8>, off: int, x: Seq<char>, endian: Endian)
    requires
        spec_string_bytes(x, endian) is Ok,
        spec_holds_at(s, off, spec_string_bytes(x, endian)->Ok_0),
    ensures
        spec_read_counted_string(s, off, endian) == Ok::<(Seq<char>, int), Error>(
            (x, off + spec_string_bytes(x, endian)->Ok_0.len()),
        ),
{
    lemma_read_back_data(s, off, encode_utf8(x), endian);
    vstd::utf8::encode_utf8_valid_utf8(x);
    vstd::utf8::encode_utf8_decode_utf8(x);
}

proof fn lemma_read_back_strings(s: Seq<u8>, off: int, xs: Seq<Seq<char>>, endian: Endian)
    requires
        spec_strings_bytes(xs, endian) is Ok,
        spec_holds_at(s, off, spec_strings_bytes(xs, endian)->Ok_0),
    ensures
        spec_read_strings(s, off, xs.len(), endian) == Ok::<(Seq<Seq<char>>, int), Error>(
            (xs, off + spec_strings_bytes(xs, endian)->Ok_0.len()),
        ),
    decreases xs.len(),
{
    if xs.len() > 0 {
        let prefix = spec_strings_bytes(xs.drop_last(), endian)->Ok_0;
        let last = spec_string_bytes(xs.last(), endian)->Ok_0;
        lemma_holds_split(s, off, prefix, last);
        lemma_read_back_strings(s, off, xs.drop_last(), endian);
        lemma_read_back_string(s, off + prefix.len(), xs.last(), endian);
        assert(xs.drop_last().push(xs.last()) =~= xs);
    } else {
        assert(xs =~= Seq::<Seq<char>>::empty());
    }
}

/// Whether a principal survives writing and reading back in `version`:
/// version 1 stores no name type, so it must be 0.
pub open spec fn spec_principal_representable(p: PrincipalModel, version: u8) -> bool {
    version == 1 ==> p.name_type == 0
}

#[verifier::spinoff_prover]
#[verifier::rlimit(100)]
proof fn lemma_read_back_principal_body(
    s: Seq<u8>,
    off: int,
    p: PrincipalModel,
    version: u8,
    endian: Endian,
)
    requires
        spec_principal_count_bytes(p, version, endian) is Ok,
        spec_holds_at(s, off, spec_principal_count_bytes(p, version, endian)->Ok_0),
    ensures
        spec_read_principal_body(s, off, version, endian) == Ok::<
            ((Seq<char>, Seq<Seq<char>>), int),
            Error,
        >(((p.realm, p.components), off + spec_principal_count_bytes(p, version, endian)->Ok_0.len())),
{
    reveal(spec_read_principal_body);
    let count: int = if version == 1 {
        p.components.len() as int + 1
    } else {
        p.components.len() as int
    };
    let cb = spec_i32_bytes(count as i32, endian);
    let rb = spec_string_bytes(p.realm, endian)->Ok_0;
    let csb = spec_strings_bytes(p.components, endian)->Ok_0;
    assert(spec_principal_count_bytes(p, version, endian)->Ok_0 =~= cb + (rb + csb));
    lemma_holds_split(s, off, cb, rb + csb);
    lemma_holds_split(s, off + 4, rb, csb);
    lemma_read_back_i32(s, off, count as i32, endian);
    lemma_read_back_string(s, off + 4, p.realm, endian);
    lemma_read_back_strings(s, off + 4 + rb.len(), p.components, endian);
    assert(spec_component_count(count as i32, version) == Ok::<int, Error>(
        p.components.len() as int,
    ));
}

proof fn lemma_read_back_principal(s: Seq<u8>, off: int, p: PrincipalModel, version: u8, endian: Endian)
    requires
        spec_principal_representable(p, version),
        spec_principal_bytes(p, version, endian) is Ok,
        spec_holds_at(s, off, spec_principal_bytes(p, version, endian)->Ok_0),
    ensures
        spec_read_principal(s, off, version, endian) == Ok::<(PrincipalModel, int), Error>(
            (p, off + spec_principal_bytes(p, version, endian)->Ok_0.len()),
        ),
{
    reveal(spec_read_principal);
    reveal(spec_principal_bytes);
    let nt = if version != 1 {
        spec_i32_bytes(p.name_type, endian)
    } else {
        Seq::empty()
    };
    let body = spec_principal_count_bytes(p, version, endian)->Ok_0;
    assert(spec_principal_bytes(p, version, endian)->Ok_0 =~= nt + body);
    lemma_holds_split(s, off, nt, body);
    if version != 1 {
        lemma_read_back_i32(s, off, p.name_type, endian);
    }
    lemma_read_back_principal_body(s, off + nt.len(), p, version, endian);
}

proof fn lemma_read_back_header_field(s: Seq<u8>, off: int, f: HeaderFieldModel, endian: Endian)
    requires
        spec_header_field_bytes(f, endian) is Ok,
        spec_holds_at(s, off, spec_header_field_bytes(f, endian)->Ok_0),
    ensures
        spec_read_header_field(s, off, endian) == Ok::<(HeaderFieldModel, int), Error>(
            (f, off + spec_header_field_bytes(f, endian)->Ok_0.len()),
        ),
{
    let tb = spec_u16_bytes(f.tag, endian);
    let lb = spec_u16_bytes(f.value.len() as u16, endian);
    assert(spec_header_field_bytes(f, endian)->Ok_0 =~= tb + (lb + f.value));
    lemma_holds_split(s, off, tb, lb + f.value);
    lemma_holds_split(s, off + 2, lb, f.value);
    lemma_read_back_u16(s, off, f.tag, endian);
    lemma_read_back_u16(s, off + 2, f.value.len() as u16, endian);
    lemma_read_back_bytes(s, off + 4, f.value);
}

proof fn lemma_header_fields_bytes_front(fs: Seq<HeaderFieldModel>, endian: Endian)
    requires
        fs.len() > 0,
    ensures
        spec_header_fields_bytes(fs, endian) == spec_then(
            spec_header_field_bytes(fs[0], endian),
            spec_header_fields_bytes(fs.drop_first(), endian),
        ),
    decreases fs.len(),
{
    if fs.len() == 1 {
        assert(fs.drop_last() =~= Seq::<HeaderFieldModel>::empty());
        assert(fs.drop_first() =~= Seq::<HeaderFieldModel>::empty());
        if let Ok(x) = spec_header_field_bytes(fs[0], endian) {
            assert(Seq::<u8>::empty() + x =~= x + Seq::<u8>::empty());
        }
    } else {
        lemma_header_fields_bytes_front(fs.drop_last(), endian);
        assert(fs.drop_last().drop_first() =~= fs.drop_first().drop_last());
        assert(fs.drop_last()[0] == fs[0]);
        assert(fs.drop_first().last() == fs.last());
        lemma_then_assoc(
            spec_header_field_bytes(fs[0], endian),
            spec_header_fields_bytes(fs.drop_first().drop_last(), endian),
            spec_header_field_bytes(fs.last(), endian),
        );
    }
}

proof fn lemma_read_back_header_fields(s: Seq<u8>, off: int, fs: Seq<HeaderFieldModel>, endian: Endian)
    requires
        spec_header_fields_bytes(fs, endian) is Ok,
        spec_holds_at(s, off, spec_header_fields_bytes(fs, endian)->Ok_0),
    ensures
        spec_read_header_fields(
            s,
            off,
            off + spec_header_fields_bytes(fs, endian)->Ok_0.len(),
            endian,
        ) == Ok::<(Seq<HeaderFieldModel>, int), Error>(
            (fs, off + spec_header_fields_bytes(fs, endian)->Ok_0.len()),
        ),
    decreases fs.len(),
{
    let total = spec_header_fields_bytes(fs, endian)->Ok_0;
    if fs.len() == 0 {
        assert(fs =~= Seq::<HeaderFieldModel>::empty());
    } else {
        lemma_header_fields_bytes_front(fs, endian);
        let first = spec_header_field_bytes(fs[0], endian)->Ok_0;
        let rest = spec_header_fields_bytes(fs.drop_first(), endian)->Ok_0;
        assert(total == first + rest);
        lemma_holds_split(s, off, first, rest);
        lemma_read_back_header_field(s, off, fs[0], endian);
        lemma_header_field_advances(s, off, endian);
        lemma_read_back_header_fields(s, off + first.len(), fs.drop_first(), endian);
        assert(seq![fs[0]] + fs.drop_first() =~= fs);
    }
}

proof fn lemma_read_back_header(s: Seq<u8>, off: int, fs: Seq<HeaderFieldModel>, endian: Endian)
    requires
        spec_header_bytes(fs, endian) is Ok,
        spec_holds_at(s, off, spec_header_bytes(fs, endian)->Ok_0),
    ensures
        spec_read_header(s, off, endian) == Ok::<(Seq<HeaderFieldModel>, int), Error>(
            (fs, off + spec_header_bytes(fs, endian)->Ok_0.len()),
        ),
{
    let body = spec_header_fields_bytes(fs, endian)->Ok_0;
    let lb = spec_u16_bytes(body.len() as u16, endian);
    lemma_holds_split(s, off, lb, body);
    lemma_read_back_u16(s, off, body.len() as u16, endian);
    lemma_read_back_header_fields(s, off + 2, fs, endian);
}

proof fn lemma_read_back_typed(s: Seq<u8>, off: int, t: TypedDataModel, endian: Endian)
    requires
        spec_typed_bytes(t, endian) is Ok,
        spec_holds_at(s, off, spec_typed_bytes(t, endian)->Ok_0),
    ensures
        spec_read_typed(s, off, endian) == Ok::<(TypedDataModel, int), Error>(
            (t, off + spec_typed_bytes(t, endian)->Ok_0.len()),
        ),
{
    let tb = spec_i16_bytes(t.data_type as i16, endian);
    let db = spec_data_bytes(t.data, endian)->Ok_0;
    lemma_holds_split(s, off, tb, db);
    lemma_read_back_i16(s, off, t.data_type as i16, endian);
    lemma_read_back_data(s, off + 2, t.data, endian);
}

proof fn lemma_read_back_typed_seq(s: Seq<u8>, off: int, ts: Seq<TypedDataModel>, endian: Endian)
    requires
        spec_typed_seq_bytes(ts, endian) is Ok,
        spec_holds_at(s, off, spec_typed_seq_bytes(ts, endian)->Ok_0),
    ensures
        spec_read_typed_seq(s, off, ts.len(), endian) == Ok::<(Seq<TypedDataModel>, int), Error>(
            (ts, off + spec_typed_seq_bytes(ts, endian)->Ok_0.len()),
        ),
    decreases ts.len(),
{
    if ts.len() > 0 {
        let prefix = spec_typed_seq_bytes(ts.drop_last(), endian)->Ok_0;
        let last = spec_typed_bytes(ts.last(), endian)->Ok_0;
        lemma_holds_split(s, off, prefix, last);
        lemma_read_back_typed_seq(s, off, ts.drop_last(), endian);
        lemma_read_back_typed(s, off + prefix.len(), ts.last(), endian);
        assert(ts.drop_last().push(ts.last()) =~= ts);
    } else {
        assert(ts =~= Seq::<TypedDataModel>::empty());
    }
}

proof fn lemma_read_back_typed_list(s: Seq<u8>, off: int, ts: Seq<TypedDataModel>, endian: Endian)
    requires
        spec_typed_list_bytes(ts, endian) is Ok,
        spec_holds_at(s, off, spec_typed_list_bytes(ts, endian)->Ok_0),
    ensures
        spec_read_typed_list(s, off, endian) == Ok::<(Seq<TypedDataModel>, int), Error>(
            (ts, off + spec_typed_list_bytes(ts, endian)->Ok_0.len()),
        ),
{
    let cb = spec_i32_bytes(ts.len() as i32, endian);
    let body = spec_typed_seq_bytes(ts, endian)->Ok_0;
    lemma_holds_split(s, off, cb, body);
    lemma_read_back_i32(s, off, ts.len() as i32, endian);
    lemma_read_back_typed_seq(s, off + 4, ts, endian);
}


proof fn lemma_read_back_key(s: Seq<u8>, off: int, k: EncryptionKeyModel, version: u8, endian: Endian)
    requires
        spec_key_bytes(k, version, endian) is Ok,
        spec_holds_at(s, off, spec_key_bytes(k, version, endian)->Ok_0),
    ensures
        spec_read_key(s, off, version, endian) == Ok::<(EncryptionKeyModel, int), Error>(
            (k, off + spec_key_bytes(k, version, endian)->Ok_0.len()),
        ),
{
    reveal(spec_read_key);
    reveal(spec_key_bytes);
    let eb = spec_i16_bytes(k.etype as i16, endian);
    let eb2 = if version == 3 {
        eb
    } else {
        Seq::empty()
    };
    let db = spec_data_bytes(k.value, endian)->Ok_0;
    assert(spec_key_bytes(k, version, endian)->Ok_0 =~= eb + (eb2 + db));
    lemma_holds_split(s, off, eb, eb2 + db);
    lemma_holds_split(s, off + 2, eb2, db);
    lemma_read_back_i16(s, off, k.etype as i16, endian);
    if version == 3 {
        lemma_read_back_i16(s, off + 2, k.etype as i16, endian);
    }
    lemma_read_back_data(s, off + 2 + eb2.len(), k.value, endian);
}

proof fn lemma_read_back_times(s: Seq<u8>, off: int, t: CredentialTimes, endian: Endian)
    requires
        spec_holds_at(s, off, spec_times_bytes(t, endian)),
    ensures
        spec_read_times(s, off, endian) == Ok::<(CredentialTimes, int), Error>((t, off + 16)),
{
    let a = spec_u32_bytes(t.auth_time, endian);
    let b = spec_u32_bytes(t.start_time, endian);
    let c = spec_u32_bytes(t.end_time, endian);
    let d = spec_u32_bytes(t.renew_till, endian);
    assert(spec_times_bytes(t, endian) =~= a + (b + (c + d)));
    lemma_holds_split(s, off, a, b + (c + d));
    lemma_holds_split(s, off + 4, b, c + d);
    lemma_holds_split(s, off + 8, c, d);
    lemma_read_back_u32(s, off, t.auth_time, endian);
    lemma_read_back_u32(s, off + 4, t.start_time, endian);
    lemma_read_back_u32(s, off + 8, t.end_time, endian);
    lemma_read_back_u32(s, off + 12, t.renew_till, endian);
}

#[verifier::spinoff_prover]
#[verifier::rlimit(60)]
proof fn lemma_read_back_tail(s: Seq<u8>, off: int, c: CredentialModel, endian: Endian)
    requires
        c.ticket_flags.len() == 4,
        spec_credential_tail_bytes(c, endian) is Ok,
        spec_holds_at(s, off, spec_credential_tail_bytes(c, endian)->Ok_0),
    ensures
        spec_read_credential_tail(s, off, endian) == Ok::<
            (
                (bool, Seq<u8>, Seq<TypedDataModel>, Seq<TypedDataModel>, Seq<u8>, Seq<u8>),
                int,
            ),
            Error,
        >(
            (
                (c.is_skey, c.ticket_flags, c.addresses, c.auth_data, c.ticket, c.second_ticket),
                off + spec_credential_tail_bytes(c, endian)->Ok_0.len(),
            ),
        ),
{
    reveal(spec_read_credential_tail);
    reveal(spec_credential_tail_bytes);
    let sk = seq![if c.is_skey { 1u8 } else { 0u8 }];
    let fl = c.ticket_flags;
    let ab = spec_typed_list_bytes(c.addresses, endian)->Ok_0;
    let adb = spec_typed_list_bytes(c.auth_data, endian)->Ok_0;
    let tb = spec_data_bytes(c.ticket, endian)->Ok_0;
    let stb = spec_data_bytes(c.second_ticket, endian)->Ok_0;
    assert(spec_credential_tail_bytes(c, endian)->Ok_0 =~= sk + (fl + (ab + (adb + (tb + stb)))));
    lemma_holds_split(s, off, sk, fl + (ab + (adb + (tb + stb))));
    lemma_holds_split(s, off + 1, fl, ab + (adb + (tb + stb)));
    lemma_holds_split(s, off + 5, ab, adb + (tb + stb));
    lemma_holds_split(s, off + 5 + ab.len(), adb, tb + stb);
    lemma_holds_split(s, off + 5 + ab.len() + adb.len(), tb, stb);
    lemma_read_back_bytes(s, off, sk);
    lemma_read_back_bytes(s, off + 1, fl);
    lemma_read_back_typed_list(s, off + 5, c.addresses, endian);
    lemma_read_back_typed_list(s, off + 5 + ab.len(), c.auth_data, endian);
    lemma_read_back_data(s, off + 5 + ab.len() + adb.len(), c.ticket, endian);
    lemma_read_back_data(s, off + 5 + ab.len() + adb.len() + tb.len(), c.second_ticket, endian);
}

/// Whether a credential survives writing and reading back in `version`.
pub open spec fn spec_credential_representable(c: CredentialModel, version: u8) -> bool {
    &&& spec_principal_representable(c.client, version)
    &&& spec_principal_representable(c.server, version)
    &&& c.ticket_flags.len() == 4
}

#[verifier::spinoff_prover]
proof fn lemma_read_back_credential(
    s: Seq<u8>,
    off: int,
    c: CredentialModel,
    version: u8,
    endian: Endian,
)
    requires
        spec_credential_representable(c, version),
        spec_credential_bytes(c, version, endian) is Ok,
        spec_holds_at(s, off, spec_credential_bytes(c, version, endian)->Ok_0),
    ensures
        spec_read_credential(s, off, version, endian) == Ok::<(CredentialModel, int), Error>(
            (c, off + spec_credential_bytes(c, version, endian)->Ok_0.len()),
        ),
{
    reveal(spec_read_credential);
    reveal(spec_credential_bytes);
    let cb = spec_principal_bytes(c.client, version, endian)->Ok_0;
    let sb = spec_principal_bytes(c.server, version, endian)->Ok_0;
    let kb = spec_key_bytes(c.key, version, endian)->Ok_0;
    let tb = spec_times_bytes(c.times, endian);
    let rb = spec_credential_tail_bytes(c, endian)->Ok_0;
    assert(spec_credential_bytes(c, version, endian)->Ok_0 =~= cb + (sb + (kb + (tb + rb))));
    lemma_holds_split(s, off, cb, sb + (kb + (tb + rb)));
    lemma_holds_split(s, off + cb.len(), sb, kb + (tb + rb));
    lemma_holds_split(s, off + cb.len() + sb.len(), kb, tb + rb);
    lemma_holds_split(s, off + cb.len() + sb.len() + kb.len(), tb, rb);
    lemma_read_back_principal(s, off, c.client, version, endian);
    lemma_read_back_principal(s, off + cb.len(), c.server, version, endian);
    lemma_read_back_key(s, off + cb.len() + sb.len(), c.key, version, endian);
    lemma_read_back_times(s, off + cb.len() + sb.len() + kb.len(), c.times, endian);
    lemma_read_back_tail(s, off + cb.len() + sb.len() + kb.len() + 16, c, endian);
}

proof fn lemma_credentials_bytes_front(cs: Seq<CredentialModel>, version: u8, endian: Endian)
    requires
        cs.len() > 0,
    ensures
        spec_credentials_bytes(cs, version, endian) == spec_then(
            spec_credential_bytes(cs[0], version, endian),
            spec_credentials_bytes(cs.drop_first(), version, endian),
        ),
    decreases cs.len(),
{
    if cs.len() == 1 {
        assert(cs.drop_last() =~= Seq::<CredentialModel>::empty());
        assert(cs.drop_first() =~= Seq::<CredentialModel>::empty());
        if let Ok(x) = spec_credential_bytes(cs[0], version, endian) {
            assert(Seq::<u8>::empty() + x =~= x + Seq::<u8>::empty());
        }
    } else {
        lemma_credentials_bytes_front(cs.drop_last(), version, endian);
        assert(cs.drop_last().drop_first() =~= cs.drop_first().drop_last());
        assert(cs.drop_last()[0] == cs[0]);
        assert(cs.drop_first().last() == cs.last());
        lemma_then_assoc(
            spec_credential_bytes(cs[0], version, endian),
            spec_credentials_bytes(cs.drop_first().drop_last(), version, endian),
            spec_credential_bytes(cs.last(), version, endian),
        );
    }
}

proof fn lemma_read_back_credentials(
    s: Seq<u8>,
    off: int,
    cs: Seq<CredentialModel>,
    version: u8,
    endian: Endian,
)
    requires
        forall|i: int| 0 <= i < cs.len() ==> spec_credential_representable(#[trigger] cs[i], version),
        spec_credentials_bytes(cs, version, endian) is Ok,
        spec_holds_at(s, off, spec_credentials_bytes(cs, version, endian)->Ok_0),
        off + spec_credentials_bytes(cs, version, endian)->Ok_0.len() == s.len(),
    ensures
        spec_read_credentials(s, off, version, endian) == Ok::<(Seq<CredentialModel>, int), Error>(
            (cs, s.len() as int),
        ),
    decreases cs.len(),
{
    if cs.len() == 0 {
        assert(cs =~= Seq::<CredentialModel>::empty());
    } else {
        lemma_credentials_bytes_front(cs, version, endian);
        let first = spec_credential_bytes(cs[0], version, endian)->Ok_0;
        let rest = spec_credentials_bytes(cs.drop_first(), version, endian)->Ok_0;
        lemma_holds_split(s, off, first, rest);
        lemma_read_back_credential(s, off, cs[0], version, endian);
        lemma_credential_advances(s, off, version, endian);
        assert forall|i: int| 0 <= i < cs.drop_first().len() implies spec_credential_representable(
            #[trigger] cs.drop_first()[i],
            version,
        ) by {
            assert(cs.drop_first()[i] == cs[i + 1]);
        }
        lemma_read_back_credentials(s, off + first.len(), cs.drop_first(), version, endian);
        assert(seq![cs[0]] + cs.drop_first() =~= cs);
    }
}


/// Whether a cache survives writing and reading back: its version is 1 to
/// 4, versions before 4 carry no header, version 1 principals have name
/// type 0 (that version stores none), and ticket flags are four bytes.
pub open spec fn spec_ccache_representable(c: CCacheModel) -> bool {
    &&& 1 <= c.version <= 4
    &&& c.version < 4 ==> c.header.len() == 0
    &&& spec_principal_representable(c.default_principal, c.version)
    &&& forall|i: int|
        0 <= i < c.credentials.len() ==> spec_credential_representable(
            #[trigger] c.credentials[i],
            c.version,
        )
}

proof fn lemma_read_header_fields_valid(s: Seq<u8>, off: int, end: int, endian: Endian)
    ensures
        spec_read_header_fields(s, off, end, endian) matches Ok((fs, _)) ==> forall|i: int|
            0 <= i < fs.len() ==> spec_header_field_valid(#[trigger] fs[i]),
    decreases s.len() - off,
{
    if off < end {
        lemma_header_field_advances(s, off, endian);
        if let Ok((f, o)) = spec_read_header_field(s, off, endian) {
            lemma_read_header_fields_valid(s, o, end, endian);
            if let Ok((fs, _)) = spec_read_header_fields(s, o, end, endian) {
                let all = seq![f] + fs;
                assert forall|i: int| 0 <= i < all.len() implies spec_header_field_valid(
                    #[trigger] all[i],
                ) by {
                    if i > 0 {
                        assert(all[i] == fs[i - 1]);
                    }
                }
            }
        }
    }
}

/// The header of a parsed cache: empty unless the file is version 4; in a
/// version 4 file, every field is well formed (a KDC time offset holds
/// eight bytes), under either host byte order.
pub proof fn lemma_parsed_header_fields(s: Seq<u8>, host_little: bool)
    requires
        spec_parse_ccache(s, host_little) is Ok,
    ensures
        s[1] != 4 ==> spec_parse_ccache(s, host_little)->Ok_0.header.len() == 0,
        forall|i: int|
            0 <= i < spec_parse_ccache(s, host_little)->Ok_0.header.len() ==> spec_header_field_valid(
                #[trigger] spec_parse_ccache(s, host_little)->Ok_0.header[i],
            ),
{
    if s[1] == 4 {
        let endian = spec_endian(4, host_little);
        if let Ok((len, o1)) = spec_read_u16(s, 2, endian) {
            if let Ok(end) = spec_checked_end(s, o1, len as int) {
                lemma_read_header_fields_valid(s, o1, end, endian);
            }
        }
    }
}

/// Parsing what serialization writes gives the same cache back, for every
/// cache that the file format can represent and that serializes without
/// error, under either host byte order.
#[verifier::spinoff_prover]
pub proof fn lemma_ccache_roundtrip(c: CCacheModel, host_little: bool)
    requires
        spec_ccache_representable(c),
        spec_ccache_bytes(c, host_little) is Ok,
        spec_ccache_bytes(c, host_little)->Ok_0.len() <= usize::MAX,
    ensures
        spec_parse_ccache(spec_ccache_bytes(c, host_little)->Ok_0, host_little) == Ok::<
            CCacheModel,
            Error,
        >(c),
{
    let endian = spec_endian(c.version, host_little);
    let s = spec_ccache_bytes(c, host_little)->Ok_0;
    let hb = if c.version == 4 {
        spec_header_bytes(c.header, endian)->Ok_0
    } else {
        Seq::empty()
    };
    let pb = spec_principal_bytes(c.default_principal, c.version, endian)->Ok_0;
    let cb = spec_credentials_bytes(c.credentials, c.version, endian)->Ok_0;
    assert(s =~= seq![CCACHE_FIRST_BYTE, c.version] + (hb + (pb + cb)));
    assert(s.subrange(0, s.len() as int) =~= s);
    lemma_holds_split(s, 0, seq![CCACHE_FIRST_BYTE, c.version], hb + (pb + cb));
    lemma_holds_split(s, 2, hb, pb + cb);
    lemma_holds_split(s, 2 + hb.len() as int, pb, cb);
    if c.version == 4 {
        lemma_read_back_header(s, 2, c.header, endian);
    } else {
        assert(c.header =~= Seq::<HeaderFieldModel>::empty());
    }
    lemma_read_back_principal(s, 2 + hb.len() as int, c.default_principal, c.version, endian);
    lemma_read_back_credentials(s, 2 + hb.len() as int + pb.len(), c.credentials, c.version, endian);
}


// ---------------------------------------------------------------------------
// Names and queries

/// Parsed MIT-style credential cache name: file-backed caches only.
#[derive(Clone, Debug, Eq, PartialEq)]
#[non_exhaustive]
pub enum CacheName {
    /// A file-backed credential cache, by path.
    File(String),
}

/// The store types a file cache name may carry: `FILE` and `WRFILE`.
pub open spec fn spec_file_types() -> Seq<Seq<char>> {
    seq![seq!['F', 'I', 'L', 'E'], seq!['W', 'R', 'F', 'I', 'L', 'E']]
}

/// The prefix of realms that hold cache configuration, not tickets.
pub open spec fn spec_cacheconf_prefix() -> Seq<char> {
    seq!['X', '-', 'C', 'A', 'C', 'H', 'E', 'C', 'O', 'N', 'F']
}

/// Whether a credential is an `X-CACHECONF` configuration entry.
pub open spec fn spec_is_config_entry(c: CredentialModel) -> bool {
    spec_has_prefix(c.server.realm, spec_cacheconf_prefix())
}

/// Resolution of a cache name to a file path, in the terms of
/// `file_name::spec_file_path_from_name`: an empty name or path is
/// `InvalidCacheName` and another store type `UnsupportedCacheType`.
pub open spec fn spec_cache_name_matches(name: Seq<char>, r: Result<String, Error>) -> bool {
    match (r, file_name::spec_file_path_from_name(name, spec_file_types())) {
        (Ok(p), Ok(q)) => p@ == q,
        (Err(Error::InvalidCacheName), Err(None)) => true,
        (Err(Error::UnsupportedCacheType { cache_type }), Err(Some(t))) => cache_type@ == t,
        _ => false,
    }
}

pub(crate) fn file_types() -> (r: [&'static str; 2])
    ensures
        r@.map_values(|t: &str| t@) == spec_file_types(),
{
    let a = "FILE";
    let b = "WRFILE";
    proof {
        reveal_strlit("FILE");
        reveal_strlit("WRFILE");
    }
    assert(a@ =~= seq!['F', 'I', 'L', 'E']);
    assert(b@ =~= seq!['W', 'R', 'F', 'I', 'L', 'E']);
    let r = [a, b];
    assert(r@.map_values(|t: &str| t@) =~= spec_file_types());
    r
}

fn is_config_realm(realm: &String) -> (r: bool)
    ensures
        r == spec_has_prefix(realm@, spec_cacheconf_prefix()),
{
    let prefix = "X-CACHECONF";
    proof {
        reveal_strlit("X-CACHECONF");
    }
    assert(prefix@ =~= spec_cacheconf_prefix());
    str_starts_with(realm.as_str(), prefix)
}

impl CacheName {
    /// Parse a MIT-style credential cache name.
    ///
    /// Bare paths, `FILE:path`, and `WRFILE:path` are supported; other store
    /// types are rejected.
    pub fn parse(name: &str) -> (r: Result<Self, Error>)
        ensures
            spec_cache_name_matches(
                name@,
                match r {
                    Ok(CacheName::File(p)) => Ok(p),
                    Err(e) => Err(e),
                },
            ),
    {
        match CCache::file_path_from_cache_name(name) {
            Ok(path) => Ok(CacheName::File(path)),
            Err(e) => Err(e),
        }
    }

    /// File path for this cache name.
    pub fn file_path(&self) -> (r: &str)
        ensures
            match self {
                CacheName::File(p) => r@ == p@,
            },
    {
        match self {
            CacheName::File(path) => path.as_str(),
        }
    }

    /// Consume this cache name and return its file path.
    pub fn into_file_path(self) -> (r: String)
        ensures
            match self {
                CacheName::File(p) => r == p,
            },
    {
        match self {
            CacheName::File(path) => path,
        }
    }
}

/// Whether two principals name the same identity: same realm and
/// components, whatever their name types.
pub open spec fn spec_same_identity(a: PrincipalModel, b: PrincipalModel) -> bool {
    a.realm == b.realm && a.components == b.components
}

pub(crate) fn strings_eq(a: &Vec<String>, b: &Vec<String>) -> (r: bool)
    ensures
        r == (spec_string_views(a@) == spec_string_views(b@)),
{
    let ghost va = spec_string_views(a@);
    let ghost vb = spec_string_views(b@);
    if a.len() != b.len() {
        assert(va.len() != vb.len());
        return false;
    }
    let mut i: usize = 0;
    while i < a.len()
        invariant
            i <= a@.len(),
            a@.len() == b@.len(),
            va == spec_string_views(a@),
            vb == spec_string_views(b@),
            forall|j: int| 0 <= j < i ==> va[j] == vb[j],
        decreases a@.len() - i,
    {
        if a[i] != b[i] {
            assert(va[i as int] != vb[i as int]);
            return false;
        }
        i = i + 1;
    }
    assert(va =~= vb);
    true
}

/// Whether two principals name the same identity (realm and components).
pub fn same_principal_identity(left: &Principal, right: &Principal) -> (r: bool)
    ensures
        r == spec_same_identity(left@, right@),
{
    left.realm == right.realm && strings_eq(&left.components, &right.components)
}

fn principal_eq(left: &Principal, right: &Principal) -> (r: bool)
    ensures
        r == (left@ == right@),
{
    left.name_type == right.name_type && same_principal_identity(left, right)
}

/// Whether a credential holds a ticket for `client` that is not a
/// configuration entry: what `remove_entries_for_client` takes out.
pub open spec fn spec_removable(c: CredentialModel, client: PrincipalModel) -> bool {
    spec_same_identity(c.client, client) && !spec_is_config_entry(c)
}

/// The credentials that `keep` selects (or, with `keep` false, rejects)
/// for `client`, in order.
pub open spec fn spec_partition(cs: Seq<CredentialModel>, client: PrincipalModel, keep: bool) -> Seq<
    CredentialModel,
>
    decreases cs.len(),
{
    if cs.len() == 0 {
        Seq::empty()
    } else {
        let rest = spec_partition(cs.drop_last(), client, keep);
        if spec_removable(cs.last(), client) != keep {
            rest.push(cs.last())
        } else {
            rest
        }
    }
}

/// Removing a client's entries takes exactly its ticket credentials: what
/// stays holds none of them and keeps every other credential, in
/// particular every `X-CACHECONF` configuration entry; what is taken is
/// only such tickets; and nothing is lost or added.
pub proof fn lemma_remove_entries_for_client(cs: Seq<CredentialModel>, client: PrincipalModel)
    ensures
        ({
            let kept = spec_partition(cs, client, true);
            let removed = spec_partition(cs, client, false);
            &&& kept.len() + removed.len() == cs.len()
            &&& forall|i: int| 0 <= i < kept.len() ==> !spec_removable(#[trigger] kept[i], client)
            &&& forall|i: int| 0 <= i < removed.len() ==> spec_removable(#[trigger] removed[i], client)
            &&& forall|i: int| 0 <= i < cs.len() && !spec_removable(#[trigger] cs[i], client) ==> kept.contains(cs[i])
            &&& forall|i: int| 0 <= i < cs.len() && spec_is_config_entry(#[trigger] cs[i]) ==> kept.contains(cs[i])
        }),
    decreases cs.len(),
{
    if cs.len() > 0 {
        let init = cs.drop_last();
        lemma_remove_entries_for_client(init, client);
        let kept0 = spec_partition(init, client, true);
        let kept = spec_partition(cs, client, true);
        assert forall|i: int| 0 <= i < cs.len() && !spec_removable(#[trigger] cs[i], client) implies kept.contains(cs[i]) by {
            if i < cs.len() - 1 {
                assert(init[i] == cs[i]);
                assert(kept0.contains(init[i]));
                let k = choose|k: int| 0 <= k < kept0.len() && kept0[k] == init[i];
                if !spec_removable(cs.last(), client) {
                    assert(kept[k] == kept0[k]);
                }
            } else {
                assert(kept[kept.len() - 1] == cs.last());
            }
        }
        assert forall|i: int| 0 <= i < cs.len() && spec_is_config_entry(#[trigger] cs[i]) implies kept.contains(cs[i]) by {
            assert(!spec_removable(cs[i], client));
        }
    }
}

/// The credentials that are not configuration entries, in order.
pub open spec fn spec_ticket_entries(cs: Seq<CredentialModel>) -> Seq<CredentialModel>
    decreases cs.len(),
{
    if cs.len() == 0 {
        Seq::empty()
    } else if spec_is_config_entry(cs.last()) {
        spec_ticket_entries(cs.drop_last())
    } else {
        spec_ticket_entries(cs.drop_last()).push(cs.last())
    }
}

/// Index of the first credential for exactly `client` and `server`, if any.
pub open spec fn spec_find_credential(
    cs: Seq<CredentialModel>,
    client: PrincipalModel,
    server: PrincipalModel,
) -> Option<int> {
    if exists|i: int| 0 <= i < cs.len() && cs[i].client == client && cs[i].server == server {
        Some(
            choose|i: int|
                0 <= i < cs.len() && cs[i].client == client && cs[i].server == server && forall|
                    j: int,
                |
                    0 <= j < i ==> !(cs[j].client == client && cs[j].server == server),
        )
    } else {
        None
    }
}

proof fn lemma_find_credential_at(
    cs: Seq<CredentialModel>,
    client: PrincipalModel,
    server: PrincipalModel,
    i: int,
)
    requires
        0 <= i < cs.len(),
        cs[i].client == client && cs[i].server == server,
        forall|j: int| 0 <= j < i ==> !(cs[j].client == client && cs[j].server == server),
    ensures
        spec_find_credential(cs, client, server) == Some(i),
{
    let k = choose|k: int|
        0 <= k < cs.len() && cs[k].client == client && cs[k].server == server && forall|j: int|
            0 <= j < k ==> !(cs[j].client == client && cs[j].server == server);
    if k < i {
    }
    if k > i {
        assert(!(cs[i].client == client && cs[i].server == server));
    }
}

/// Index of the first credential whose server has `components`, if any.
pub open spec fn spec_find_server(cs: Seq<CredentialModel>, components: Seq<Seq<char>>) -> Option<
    int,
> {
    if exists|i: int| 0 <= i < cs.len() && cs[i].server.components == components {
        Some(
            choose|i: int|
                0 <= i < cs.len() && cs[i].server.components == components && forall|j: int|
                    0 <= j < i ==> cs[j].server.components != components,
        )
    } else {
        None
    }
}


impl CCache {
    /// Resolve a MIT-style cache name to a file path.
    ///
    /// This does not touch the filesystem; it only validates that the name
    /// denotes a cache format backed by this module.
    pub fn file_path_from_cache_name(name: &str) -> (r: Result<String, Error>)
        ensures
            spec_cache_name_matches(name@, r),
    {
        let types = file_types();
        match file_name::file_path_from_name(name, &types) {
            Ok(path) => Ok(path),
            Err(file_name::Error::Empty) => Err(Error::InvalidCacheName),
            Err(file_name::Error::UnsupportedType { name_type }) => Err(
                Error::UnsupportedCacheType { cache_type: name_type },
            ),
        }
    }

    /// Credential cache file format version.
    pub fn version(&self) -> (r: u8)
        ensures
            r == self@.version,
    {
        self.version
    }

    /// Version 4 header.
    pub fn header(&self) -> (r: &Header)
        ensures
            r@ == self@.header,
    {
        &self.header
    }

    /// Mutable version 4 header, useful for construction.
    pub fn header_mut(&mut self) -> (r: &mut Header)
        ensures
            r@ == old(self)@.header,
            final(self)@ == (CCacheModel { header: final(r)@, ..old(self)@ }),
    {
        &mut self.header
    }

    /// Default client principal.
    pub fn default_principal(&self) -> (r: &Principal)
        ensures
            r@ == self@.default_principal,
    {
        &self.default_principal
    }

    /// Mutable default client principal, useful for construction.
    pub fn default_principal_mut(&mut self) -> (r: &mut Principal)
        ensures
            r@ == old(self)@.default_principal,
            final(self)@ == (CCacheModel { default_principal: final(r)@, ..old(self)@ }),
    {
        &mut self.default_principal
    }

    /// Default client realm.
    pub fn client_realm(&self) -> (r: &str)
        ensures
            r@ == self@.default_principal.realm,
    {
        self.default_principal.realm.as_str()
    }

    /// Default client principal components joined by `/`.
    pub fn client_name(&self) -> (r: String)
        ensures
            r@ == spec_join(self@.default_principal.components, seq!['/']),
    {
        self.default_principal.name_string()
    }

    /// Parsed credentials, including configuration entries.
    pub fn credentials(&self) -> (r: &[Credential])
        ensures
            r@.map_values(|c: Credential| c@) == self@.credentials,
    {
        self.credentials.as_slice()
    }

    /// Mutable parsed credentials, useful for tests and construction.
    pub fn credentials_mut(&mut self) -> (r: &mut Vec<Credential>)
        ensures
            r@.map_values(|c: Credential| c@) == old(self)@.credentials,
            final(self)@ == (CCacheModel {
                credentials: final(r)@.map_values(|c: Credential| c@),
                ..old(self)@
            }),
    {
        &mut self.credentials
    }

    /// Insert a credential, replacing an existing credential for the same
    /// exact client and server principals; the replaced one is returned.
    pub fn upsert_credential(&mut self, credential: Credential) -> (r: Option<Credential>)
        ensures
            final(self)@.version == old(self)@.version,
            final(self)@.header == old(self)@.header,
            final(self)@.default_principal == old(self)@.default_principal,
            match spec_find_credential(
                old(self)@.credentials,
                credential@.client,
                credential@.server,
            ) {
                Some(i) => r matches Some(prev) && prev@ == old(self)@.credentials[i]
                    && final(self)@.credentials == old(self)@.credentials.update(i, credential@),
                None => r is None && final(self)@.credentials == old(self)@.credentials.push(
                    credential@,
                ),
            },
    {
        let ghost cs = self@.credentials;
        let mut i: usize = 0;
        while i < self.credentials.len()
            invariant
                i <= self.credentials@.len(),
                *self == *old(self),
                cs == self.credentials@.map_values(|c: Credential| c@),
                forall|j: int|
                    0 <= j < i ==> !(cs[j].client == credential@.client && cs[j].server
                        == credential@.server),
            decreases self.credentials@.len() - i,
        {
            if principal_eq(&self.credentials[i].client, &credential.client) && principal_eq(
                &self.credentials[i].server,
                &credential.server,
            ) {
                proof {
                    lemma_find_credential_at(cs, credential@.client, credential@.server, i as int);
                }
                let ghost new_model = credential@;
                let mut replaced = credential;
                std::mem::swap(&mut self.credentials[i], &mut replaced);
                assert(self@.credentials =~= cs.update(i as int, new_model));
                return Some(replaced);
            }
            i = i + 1;
        }
        let ghost new_model = credential@;
        self.credentials.push(credential);
        assert(self@.credentials =~= cs.push(new_model));
        None
    }

    /// Remove non-configuration credentials for a client principal, matched
    /// by realm and components; they are returned in the order they had in the cache.
    ///
    /// `X-CACHECONF` entries are preserved because they carry cache metadata
    /// rather than Kerberos tickets.
    pub fn remove_entries_for_client(&mut self, client: &Principal) -> (r: Vec<Credential>)
        ensures
            final(self)@.version == old(self)@.version,
            final(self)@.header == old(self)@.header,
            final(self)@.default_principal == old(self)@.default_principal,
            final(self)@.credentials == spec_partition(old(self)@.credentials, client@, true),
            r@.map_values(|c: Credential| c@) == spec_partition(
                old(self)@.credentials,
                client@,
                false,
            ),
    {
        let ghost cs = self@.credentials;
        let mut pending: Vec<Credential> = Vec::new();
        std::mem::swap(&mut pending, &mut self.credentials);
        assert(pending@.map_values(|c: Credential| c@) == cs);
        let mut kept: Vec<Credential> = Vec::new();
        let mut removed: Vec<Credential> = Vec::new();
        let ghost mut done: Seq<CredentialModel> = Seq::empty();
        assert(kept@.map_values(|c: Credential| c@) =~= spec_partition(done, client@, true));
        assert(removed@.map_values(|c: Credential| c@) =~= spec_partition(done, client@, false));
        while pending.len() > 0
            invariant
                cs == done + pending@.map_values(|c: Credential| c@),
                kept@.map_values(|c: Credential| c@) == spec_partition(done, client@, true),
                removed@.map_values(|c: Credential| c@) == spec_partition(done, client@, false),
            decreases pending@.len(),
        {
            let c = pending.remove(0);
            let ghost m = c@;
            let ghost done2 = done.push(m);
            assert(done2.drop_last() =~= done);
            let take = same_principal_identity(&c.client, client) && !is_config_realm(
                &c.server.realm,
            );
            if take {
                let ghost before = removed@;
                removed.push(c);
                assert(removed@.map_values(|c: Credential| c@) =~= before.map_values(
                    |c: Credential| c@,
                ).push(m));
            } else {
                let ghost before = kept@;
                kept.push(c);
                assert(kept@.map_values(|c: Credential| c@) =~= before.map_values(
                    |c: Credential| c@,
                ).push(m));
            }
            proof {
                done = done2;
            }
            assert(cs =~= done + pending@.map_values(|c: Credential| c@));
        }
        assert(done =~= cs);
        self.credentials = kept;
        removed
    }

    /// Return credentials excluding `X-CACHECONF` configuration entries.
    pub fn entries(&self) -> (r: Vec<&Credential>)
        ensures
            r@.map_values(|c: &Credential| c@) == spec_ticket_entries(self@.credentials),
    {
        let ghost cs = self@.credentials;
        let mut out: Vec<&Credential> = Vec::new();
        let mut i: usize = 0;
        assert(out@.map_values(|c: &Credential| c@) =~= spec_ticket_entries(cs.subrange(0, 0)));
        while i < self.credentials.len()
            invariant
                i <= self.credentials@.len(),
                cs == self.credentials@.map_values(|c: Credential| c@),
                out@.map_values(|c: &Credential| c@) == spec_ticket_entries(cs.subrange(0, i as int)),
            decreases self.credentials@.len() - i,
        {
            let c = &self.credentials[i];
            assert(cs.subrange(0, i + 1).drop_last() =~= cs.subrange(0, i as int));
            if !is_config_realm(&c.server.realm) {
                let ghost before = out@;
                out.push(c);
                assert(out@.map_values(|c: &Credential| c@) =~= before.map_values(
                    |c: &Credential| c@,
                ).push(c@));
            }
            i = i + 1;
        }
        assert(cs.subrange(0, self.credentials@.len() as int) =~= cs);
        out
    }

    /// Return the first credential whose server principal has these
    /// components; name type and realm are not significant.
    pub fn get_entry(&self, components: &[&str]) -> (r: Option<&Credential>)
        ensures
            match spec_find_server(self@.credentials, components@.map_values(|c: &str| c@)) {
                Some(i) => r matches Some(c) && c@ == self@.credentials[i],
                None => r is None,
            },
    {
        let ghost cs = self@.credentials;
        let ghost want = components@.map_values(|c: &str| c@);
        let mut i: usize = 0;
        while i < self.credentials.len()
            invariant
                i <= self.credentials@.len(),
                cs == self.credentials@.map_values(|c: Credential| c@),
                want == components@.map_values(|c: &str| c@),
                forall|j: int| 0 <= j < i ==> cs[j].server.components != want,
            decreases self.credentials@.len() - i,
        {
            if self.credentials[i].server.matches_components(components) {
                assert(spec_find_server(cs, want) == Some(i as int)) by {
                    assert(cs[i as int].server.components == want);
                    let k = choose|k: int|
                        0 <= k < cs.len() && cs[k].server.components == want && forall|j: int|
                            0 <= j < k ==> cs[j].server.components != want;
                    if k < i {
                    }
                    if k > i {
                    }
                }
                return Some(&self.credentials[i]);
            }
            i = i + 1;
        }
        None
    }

    /// Whether the cache contains a server principal with these components;
    /// name type and realm are not significant.
    pub fn contains_server(&self, components: &[&str]) -> (r: bool)
        ensures
            r == spec_find_server(self@.credentials, components@.map_values(|c: &str| c@)) is Some,
    {
        self.get_entry(components).is_some()
    }
}


/// Redacted credential cache entry metadata: no key bytes, no ticket DER.
#[derive(Clone, Debug, Eq, PartialEq)]
pub struct CredentialMetadata {
    /// Client principal as `name@REALM`.
    pub client: String,
    /// Server principal as `name@REALM`.
    pub server: String,
    /// Client realm.
    pub client_realm: String,
    /// Server realm.
    pub server_realm: String,
    /// Client principal components.
    pub client_components: Vec<String>,
    /// Server principal components.
    pub server_components: Vec<String>,
    /// Kerberos encryption type id.
    pub etype: i32,
    /// Length of the session key in bytes.
    pub key_length: usize,
    /// Credential timestamps as POSIX seconds.
    pub times: CredentialTimes,
    /// Whether the ticket is encrypted in the session key.
    pub is_skey: bool,
    /// Kerberos ticket flags as raw bytes.
    pub ticket_flags: [u8; 4],
    /// Number of client addresses.
    pub address_count: usize,
    /// Number of authorization-data entries.
    pub auth_data_count: usize,
    /// Primary ticket length in bytes.
    pub ticket_length: usize,
    /// Second ticket length in bytes.
    pub second_ticket_length: usize,
    /// Whether this is an `X-CACHECONF` metadata entry.
    pub is_config_entry: bool,
}

/// A principal written as `name@REALM`.
pub open spec fn spec_principal_string(p: PrincipalModel) -> Seq<char> {
    spec_join(p.components, seq!['/']) + seq!['@'] + p.realm
}

/// Whether `m` describes credential `c`.
pub open spec fn spec_metadata_of(m: CredentialMetadata, c: CredentialModel) -> bool {
    &&& m.client@ == spec_principal_string(c.client)
    &&& m.server@ == spec_principal_string(c.server)
    &&& m.client_realm@ == c.client.realm
    &&& m.server_realm@ == c.server.realm
    &&& spec_string_views(m.client_components@) == c.client.components
    &&& spec_string_views(m.server_components@) == c.server.components
    &&& m.etype == c.key.etype
    &&& m.key_length == c.key.value.len()
    &&& m.times == c.times
    &&& m.is_skey == c.is_skey
    &&& m.ticket_flags@ == c.ticket_flags
    &&& m.address_count == c.addresses.len()
    &&& m.auth_data_count == c.auth_data.len()
    &&& m.ticket_length == c.ticket.len()
    &&& m.second_ticket_length == c.second_ticket.len()
    &&& m.is_config_entry == spec_is_config_entry(c)
}

impl CredentialMetadata {
    /// Describe a credential without its secrets.
    pub fn from_credential(credential: &Credential) -> (r: Self)
        ensures
            spec_metadata_of(r, credential@),
    {
        CredentialMetadata {
            client: credential.client.principal_string(),
            server: credential.server.principal_string(),
            client_realm: copy_string(&credential.client.realm),
            server_realm: copy_string(&credential.server.realm),
            client_components: copy_strings(&credential.client.components),
            server_components: copy_strings(&credential.server.components),
            etype: credential.key.etype,
            key_length: credential.key.value.len(),
            times: credential.times,
            is_skey: credential.is_skey,
            ticket_flags: credential.ticket_flags,
            address_count: credential.addresses.len(),
            auth_data_count: credential.auth_data.len(),
            ticket_length: credential.ticket.len(),
            second_ticket_length: credential.second_ticket.len(),
            is_config_entry: is_config_realm(&credential.server.realm),
        }
    }
}

impl CCache {
    /// Redacted metadata of every credential, in order.
    pub fn credential_metadata(&self) -> (r: Vec<CredentialMetadata>)
        ensures
            r@.len() == self@.credentials.len(),
            forall|i: int|
                0 <= i < r@.len() ==> spec_metadata_of(#[trigger] r@[i], self@.credentials[i]),
    {
        let ghost cs = self@.credentials;
        let mut out: Vec<CredentialMetadata> = Vec::new();
        let mut i: usize = 0;
        while i < self.credentials.len()
            invariant
                i <= self.credentials@.len(),
                cs == self.credentials@.map_values(|c: Credential| c@),
                out@.len() == i,
                forall|j: int| 0 <= j < i ==> spec_metadata_of(#[trigger] out@[j], cs[j]),
            decreases self.credentials@.len() - i,
        {
            out.push(CredentialMetadata::from_credential(&self.credentials[i]));
            i = i + 1;
        }
        out
    }
}

} // verus!
