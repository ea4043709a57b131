//! Autonomous system numbers looked up in a MaxMind database with the
//! `maxminddb` crate. A database is kept together with the bytes it was read
//! from, so that what a lookup gives is stated over those bytes.
use vstd::prelude::*;
use crate::config::settings::IpAddress;

verus! {

/// A `maxminddb::Reader` over owned bytes, held opaque: Verus refuses a
/// declaration of `maxminddb::Reader`, whose parameter is bound by `AsRef`.
#[verifier::external_body]
pub struct AsnReader {
    reader: maxminddb::Reader<Vec<u8>>,
}

/// What `Reader::from_source` reports for these bytes: `None` where they
/// hold a database, else the error's message.
pub uninterp spec fn database_error(bytes: Seq<u8>) -> Option<Seq<char>>;

/// What looking `ip` up in the database read from `bytes` and decoding the
/// record as `geoip2::Asn` gives: its autonomous system number, `None` where
/// the database has no such record or number, or the error's message.
pub uninterp spec fn asn_record(bytes: Seq<u8>, ip: IpAddress) -> Result<Option<u32>, Seq<char>>;

/// `maxminddb::Reader::from_source`: reads a database from its bytes; on
/// failure, the error's message.
#[verifier::external_body]
fn open_reader(bytes: Vec<u8>) -> (r: Result<AsnReader, String>)
    ensures
        match r {
            Ok(_) => database_error(bytes@) is None,
            Err(m) => database_error(bytes@) == Some(m@),
        },
{
    match maxminddb::Reader::from_source(bytes) {
        Ok(reader) => Ok(AsnReader { reader }),
        Err(e) => Err(e.to_string()),
    }
}

/// An ASN database and the bytes it was read from.
pub struct AsnDatabase {
    reader: AsnReader,
    bytes: Ghost<Seq<u8>>,
}

impl AsnDatabase {
    /// The bytes the database was read from.
    pub closed spec fn bytes(&self) -> Seq<u8> {
        self.bytes@
    }

    /// Reads a database from its bytes; on failure, the error's message.
    pub fn from_bytes(bytes: Vec<u8>) -> (r: Result<AsnDatabase, String>)
        ensures
            match r {
                Ok(db) => database_error(bytes@) is None && db.bytes() == bytes@,
                Err(m) => database_error(bytes@) == Some(m@),
            },
    {
        let ghost source = bytes@;
        match open_reader(bytes) {
            Ok(reader) => Ok(AsnDatabase { reader, bytes: Ghost(source) }),
            Err(m) => Err(m),
        }
    }

    /// `Reader::lookup` of `ip`, with the record decoded as `geoip2::Asn`:
    /// its autonomous system number where the database has one for the
    /// address; on failure, the error's message.
    #[verifier::external_body]
    pub fn lookup(&self, ip: IpAddress) -> (r: Result<Option<u32>, String>)
        ensures
            match r {
                Ok(n) => asn_record(self.bytes(), ip) == Ok::<Option<u32>, Seq<char>>(n),
                Err(m) => asn_record(self.bytes(), ip) == Err::<Option<u32>, Seq<char>>(m@),
            },
    {
        let address = match ip {
            IpAddress::V4(b) => core::net::IpAddr::from(core::net::Ipv4Addr::from_bits(b)),
            IpAddress::V6(b) => core::net::IpAddr::from(core::net::Ipv6Addr::from_bits(b)),
        };
        let found = match self.reader.reader.lookup(address) {
            Ok(found) => found,
            Err(e) => return Err(e.to_string()),
        };
        match found.decode::<maxminddb::geoip2::Asn>() {
            Ok(asn) => Ok(asn.and_then(|a| a.autonomous_system_number)),
            Err(e) => Err(e.to_string()),
        }
    }
}

/// The network that a lookup of `ip` in the database read from `bytes`
/// finds: its number where the database has a record with one; `None`
/// where it has none or the lookup fails.
pub open spec fn asn_found(bytes: Seq<u8>, ip: IpAddress) -> Option<u32> {
    match asn_record(bytes, ip) {
        Ok(Some(n)) => Some(n),
        _ => None,
    }
}

} // verus!
