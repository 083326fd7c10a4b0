//! Numbers that the registries of the protocol give a name.

use vstd::prelude::*;

verus! {

/// The response code of a message header: four bits.
#[derive(Clone, Copy, Debug)]
pub enum Rcode {
    /// No error condition. (0)
    NoError,
    /// The query was malformed. (1)
    FormErr,
    /// The server failed. (2)
    ServFail,
    /// The name does not exist. (3)
    NXDomain,
    /// The kind of query is not implemented. (4)
    NotImp,
    /// The query was refused. (5)
    Refused,
    /// A name exists that should not. (6)
    YXDomain,
    /// A record set exists that should not. (7)
    YXRRSet,
    /// A record set that should exist does not. (8)
    NXRRSet,
    /// The server is not authoritative for the zone. (9)
    NotAuth,
    /// The name is not within the zone. (10)
    NotZone,
    /// Any value, by its number.
    Int(u8),
}

impl Rcode {
    /// The number that the value stands for.
    pub open spec fn number(self) -> u8 {
        match self {
            Rcode::NoError => 0,
            Rcode::FormErr => 1,
            Rcode::ServFail => 2,
            Rcode::NXDomain => 3,
            Rcode::NotImp => 4,
            Rcode::Refused => 5,
            Rcode::YXDomain => 6,
            Rcode::YXRRSet => 7,
            Rcode::NXRRSet => 8,
            Rcode::NotAuth => 9,
            Rcode::NotZone => 10,
            Rcode::Int(value) => value,
        }
    }

    /// The value that stands for a number: the named one where the
    /// number has a name.
    pub open spec fn of_number(value: u8) -> Rcode {
        if value == 0 {
            Rcode::NoError
        } else if value == 1 {
            Rcode::FormErr
        } else if value == 2 {
            Rcode::ServFail
        } else if value == 3 {
            Rcode::NXDomain
        } else if value == 4 {
            Rcode::NotImp
        } else if value == 5 {
            Rcode::Refused
        } else if value == 6 {
            Rcode::YXDomain
        } else if value == 7 {
            Rcode::YXRRSet
        } else if value == 8 {
            Rcode::NXRRSet
        } else if value == 9 {
            Rcode::NotAuth
        } else if value == 10 {
            Rcode::NotZone
        } else {
            Rcode::Int(value)
        }
    }

    /// The value for a number. Only the lower four bits count.
    pub fn from_int(value: u8) -> (r: Rcode)
        ensures
            r == Rcode::of_number(value % 16),
            r.number() == value % 16,
    {
        let low: u8 = value % 16;
        match low {
            0 => Rcode::NoError,
            1 => Rcode::FormErr,
            2 => Rcode::ServFail,
            3 => Rcode::NXDomain,
            4 => Rcode::NotImp,
            5 => Rcode::Refused,
            6 => Rcode::YXDomain,
            7 => Rcode::YXRRSet,
            8 => Rcode::NXRRSet,
            9 => Rcode::NotAuth,
            10 => Rcode::NotZone,
            _ => Rcode::Int(low),
        }
    }

    /// The number of the value.
    pub fn to_int(self) -> (r: u8)
        ensures
            r == self.number(),
    {
        match self {
            Rcode::NoError => 0,
            Rcode::FormErr => 1,
            Rcode::ServFail => 2,
            Rcode::NXDomain => 3,
            Rcode::NotImp => 4,
            Rcode::Refused => 5,
            Rcode::YXDomain => 6,
            Rcode::YXRRSet => 7,
            Rcode::NXRRSet => 8,
            Rcode::NotAuth => 9,
            Rcode::NotZone => 10,
            Rcode::Int(value) => value,
        }
    }
}

impl PartialEq for Rcode {
    fn eq(&self, other: &Self) -> (r: bool) {
        self.to_int() == other.to_int()
    }
}

impl vstd::std_specs::cmp::PartialEqSpecImpl for Rcode {
    open spec fn obeys_eq_spec() -> bool {
        true
    }

    open spec fn eq_spec(&self, other: &Self) -> bool {
        self.number() == other.number()
    }
}

impl Eq for Rcode {

}

/// The response code of a message with an OPT record: twelve bits.
#[derive(Clone, Copy, Debug)]
pub enum OptRcode {
    /// No error condition. (0)
    NoError,
    /// The query was malformed. (1)
    FormErr,
    /// The server failed. (2)
    ServFail,
    /// The name does not exist. (3)
    NXDomain,
    /// The kind of query is not implemented. (4)
    NotImp,
    /// The query was refused. (5)
    Refused,
    /// A name exists that should not. (6)
    YXDomain,
    /// A record set exists that should not. (7)
    YXRRSet,
    /// A record set that should exist does not. (8)
    NXRRSet,
    /// The server is not authoritative for the zone. (9)
    NotAuth,
    /// The name is not within the zone. (10)
    NotZone,
    /// The EDNS version is not supported. (16)
    BadVers,
    /// The cookie is bad or missing. (23)
    BadCookie,
    /// Any value, by its number.
    Int(u16),
}

impl OptRcode {
    /// The number that the value stands for.
    pub open spec fn number(self) -> u16 {
        match self {
            OptRcode::NoError => 0,
            OptRcode::FormErr => 1,
            OptRcode::ServFail => 2,
            OptRcode::NXDomain => 3,
            OptRcode::NotImp => 4,
            OptRcode::Refused => 5,
            OptRcode::YXDomain => 6,
            OptRcode::YXRRSet => 7,
            OptRcode::NXRRSet => 8,
            OptRcode::NotAuth => 9,
            OptRcode::NotZone => 10,
            OptRcode::BadVers => 16,
            OptRcode::BadCookie => 23,
            OptRcode::Int(value) => value,
        }
    }

    /// The value that stands for a number: the named one where the
    /// number has a name.
    pub open spec fn of_number(value: u16) -> OptRcode {
        if value == 0 {
            OptRcode::NoError
        } else if value == 1 {
            OptRcode::FormErr
        } else if value == 2 {
            OptRcode::ServFail
        } else if value == 3 {
            OptRcode::NXDomain
        } else if value == 4 {
            OptRcode::NotImp
        } else if value == 5 {
            OptRcode::Refused
        } else if value == 6 {
            OptRcode::YXDomain
        } else if value == 7 {
            OptRcode::YXRRSet
        } else if value == 8 {
            OptRcode::NXRRSet
        } else if value == 9 {
            OptRcode::NotAuth
        } else if value == 10 {
            OptRcode::NotZone
        } else if value == 16 {
            OptRcode::BadVers
        } else if value == 23 {
            OptRcode::BadCookie
        } else {
            OptRcode::Int(value)
        }
    }

    /// The value for a number. Only the lower twelve bits count.
    pub fn from_int(value: u16) -> (r: OptRcode)
        ensures
            r == OptRcode::of_number(value % 4096),
            r.number() == value % 4096,
    {
        let low: u16 = value % 4096;
        match low {
            0 => OptRcode::NoError,
            1 => OptRcode::FormErr,
            2 => OptRcode::ServFail,
            3 => OptRcode::NXDomain,
            4 => OptRcode::NotImp,
            5 => OptRcode::Refused,
            6 => OptRcode::YXDomain,
            7 => OptRcode::YXRRSet,
            8 => OptRcode::NXRRSet,
            9 => OptRcode::NotAuth,
            10 => OptRcode::NotZone,
            16 => OptRcode::BadVers,
            23 => OptRcode::BadCookie,
            _ => OptRcode::Int(low),
        }
    }

    /// The number of the value.
    pub fn to_int(self) -> (r: u16)
        ensures
            r == self.number(),
    {
        match self {
            OptRcode::NoError => 0,
            OptRcode::FormErr => 1,
            OptRcode::ServFail => 2,
            OptRcode::NXDomain => 3,
            OptRcode::NotImp => 4,
            OptRcode::Refused => 5,
            OptRcode::YXDomain => 6,
            OptRcode::YXRRSet => 7,
            OptRcode::NXRRSet => 8,
            OptRcode::NotAuth => 9,
            OptRcode::NotZone => 10,
            OptRcode::BadVers => 16,
            OptRcode::BadCookie => 23,
            OptRcode::Int(value) => value,
        }
    }

    /// The response code made of the four bits of a message header and
    /// the eight bits of an OPT record.
    pub open spec fn of_parts(rcode: Rcode, ext: u8) -> OptRcode {
        OptRcode::of_number((ext * 16 + rcode.number() % 16) as u16)
    }

    /// Puts the four bits of a message header and the eight bits of an
    /// OPT record together.
    pub fn from_parts(rcode: Rcode, ext: u8) -> (r: OptRcode)
        ensures
            r == OptRcode::of_parts(rcode, ext),
            r.number() == ext * 16 + rcode.number() % 16,
    {
        let low: u16 = (rcode.to_int() % 16) as u16;
        let high: u16 = ext as u16 * 16;
        OptRcode::from_int(high + low)
    }

    /// The four bits that go into the message header.
    pub fn rcode(self) -> (r: Rcode)
        ensures
            r == Rcode::of_number((self.number() % 16) as u8),
    {
        Rcode::from_int((self.to_int() % 16) as u8)
    }

    /// The eight bits that go into the OPT record.
    pub fn ext(self) -> (r: u8)
        ensures
            r == (self.number() / 16) % 256,
    {
        ((self.to_int() / 16) % 256) as u8
    }
}

impl PartialEq for OptRcode {
    fn eq(&self, other: &Self) -> (r: bool) {
        self.to_int() == other.to_int()
    }
}

impl vstd::std_specs::cmp::PartialEqSpecImpl for OptRcode {
    open spec fn obeys_eq_spec() -> bool {
        true
    }

    open spec fn eq_spec(&self, other: &Self) -> bool {
        self.number() == other.number()
    }
}

impl Eq for OptRcode {

}

/// The code of an option of an OPT record.
#[derive(Clone, Copy, Debug)]
pub enum OptionCode {
    /// Long-lived queries. (1)
    Llq,
    /// Update leases. (2)
    Ul,
    /// Name server identifier. (3)
    Nsid,
    /// DNSSEC algorithms understood. (5)
    Dau,
    /// DS hashes understood. (6)
    Dhu,
    /// NSEC3 hashes understood. (7)
    N3u,
    /// Client subnet. (8)
    ClientSubnet,
    /// Zone expiry. (9)
    Expire,
    /// Cookie. (10)
    Cookie,
    /// How long to keep a TCP connection. (11)
    TcpKeepalive,
    /// Padding. (12)
    Padding,
    /// Chain query. (13)
    Chain,
    /// Key tags. (14)
    KeyTag,
    /// Any value, by its number.
    Int(u16),
}

impl OptionCode {
    /// The number that the value stands for.
    pub open spec fn number(self) -> u16 {
        match self {
            OptionCode::Llq => 1,
            OptionCode::Ul => 2,
            OptionCode::Nsid => 3,
            OptionCode::Dau => 5,
            OptionCode::Dhu => 6,
            OptionCode::N3u => 7,
            OptionCode::ClientSubnet => 8,
            OptionCode::Expire => 9,
            OptionCode::Cookie => 10,
            OptionCode::TcpKeepalive => 11,
            OptionCode::Padding => 12,
            OptionCode::Chain => 13,
            OptionCode::KeyTag => 14,
            OptionCode::Int(value) => value,
        }
    }

    /// The value that stands for a number: the named one where the
    /// number has a name.
    pub open spec fn of_number(value: u16) -> OptionCode {
        if value == 1 {
            OptionCode::Llq
        } else if value == 2 {
            OptionCode::Ul
        } else if value == 3 {
            OptionCode::Nsid
        } else if value == 5 {
            OptionCode::Dau
        } else if value == 6 {
            OptionCode::Dhu
        } else if value == 7 {
            OptionCode::N3u
        } else if value == 8 {
            OptionCode::ClientSubnet
        } else if value == 9 {
            OptionCode::Expire
        } else if value == 10 {
            OptionCode::Cookie
        } else if value == 11 {
            OptionCode::TcpKeepalive
        } else if value == 12 {
            OptionCode::Padding
        } else if value == 13 {
            OptionCode::Chain
        } else if value == 14 {
            OptionCode::KeyTag
        } else {
            OptionCode::Int(value)
        }
    }

    /// The value for a number.
    pub fn from_int(value: u16) -> (r: OptionCode)
        ensures
            r == OptionCode::of_number(value),
            r.number() == value,
    {
        match value {
            1 => OptionCode::Llq,
            2 => OptionCode::Ul,
            3 => OptionCode::Nsid,
            5 => OptionCode::Dau,
            6 => OptionCode::Dhu,
            7 => OptionCode::N3u,
            8 => OptionCode::ClientSubnet,
            9 => OptionCode::Expire,
            10 => OptionCode::Cookie,
            11 => OptionCode::TcpKeepalive,
            12 => OptionCode::Padding,
            13 => OptionCode::Chain,
            14 => OptionCode::KeyTag,
            _ => OptionCode::Int(value),
        }
    }

    /// The number of the value.
    pub fn to_int(self) -> (r: u16)
        ensures
            r == self.number(),
    {
        match self {
            OptionCode::Llq => 1,
            OptionCode::Ul => 2,
            OptionCode::Nsid => 3,
            OptionCode::Dau => 5,
            OptionCode::Dhu => 6,
            OptionCode::N3u => 7,
            OptionCode::ClientSubnet => 8,
            OptionCode::Expire => 9,
            OptionCode::Cookie => 10,
            OptionCode::TcpKeepalive => 11,
            OptionCode::Padding => 12,
            OptionCode::Chain => 13,
            OptionCode::KeyTag => 14,
            OptionCode::Int(value) => value,
        }
    }
}

impl PartialEq for OptionCode {
    fn eq(&self, other: &Self) -> (r: bool) {
        self.to_int() == other.to_int()
    }
}

impl vstd::std_specs::cmp::PartialEqSpecImpl for OptionCode {
    open spec fn obeys_eq_spec() -> bool {
        true
    }

    open spec fn eq_spec(&self, other: &Self) -> bool {
        self.number() == other.number()
    }
}

impl Eq for OptionCode {

}

/// The number of a security algorithm.
#[derive(Clone, Copy, Debug)]
pub enum SecAlg {
    /// Delete DS. (0)
    DeleteDs,
    /// RSA/MD5. (1)
    RsaMd5,
    /// Diffie-Hellman. (2)
    Dh,
    /// DSA/SHA-1. (3)
    Dsa,
    /// RSA/SHA-1. (5)
    RsaSha1,
    /// DSA-NSEC3-SHA1. (6)
    DsaNsec3Sha1,
    /// RSASHA1-NSEC3-SHA1. (7)
    RsaSha1Nsec3Sha1,
    /// RSA/SHA-256. (8)
    RsaSha256,
    /// RSA/SHA-512. (10)
    RsaSha512,
    /// GOST R 34.10-2001. (12)
    EccGost,
    /// ECDSA Curve P-256 with SHA-256. (13)
    EcdsaP256Sha256,
    /// ECDSA Curve P-384 with SHA-384. (14)
    EcdsaP384Sha384,
    /// ED25519. (15)
    Ed25519,
    /// ED448. (16)
    Ed448,
    /// Reserved for indirect keys. (252)
    Indirect,
    /// A private algorithm named by a domain name. (253)
    PrivateDns,
    /// A private algorithm named by an ISO OID. (254)
    PrivateOid,
    /// Any value, by its number.
    Int(u8),
}

impl SecAlg {
    /// The number that the value stands for.
    pub open spec fn number(self) -> u8 {
        match self {
            SecAlg::DeleteDs => 0,
            SecAlg::RsaMd5 => 1,
            SecAlg::Dh => 2,
            SecAlg::Dsa => 3,
            SecAlg::RsaSha1 => 5,
            SecAlg::DsaNsec3Sha1 => 6,
            SecAlg::RsaSha1Nsec3Sha1 => 7,
            SecAlg::RsaSha256 => 8,
            SecAlg::RsaSha512 => 10,
            SecAlg::EccGost => 12,
            SecAlg::EcdsaP256Sha256 => 13,
            SecAlg::EcdsaP384Sha384 => 14,
            SecAlg::Ed25519 => 15,
            SecAlg::Ed448 => 16,
            SecAlg::Indirect => 252,
            SecAlg::PrivateDns => 253,
            SecAlg::PrivateOid => 254,
            SecAlg::Int(value) => value,
        }
    }

    /// The value that stands for a number: the named one where the
    /// number has a name.
    pub open spec fn of_number(value: u8) -> SecAlg {
        if value == 0 {
            SecAlg::DeleteDs
        } else if value == 1 {
            SecAlg::RsaMd5
        } else if value == 2 {
            SecAlg::Dh
        } else if value == 3 {
            SecAlg::Dsa
        } else if value == 5 {
            SecAlg::RsaSha1
        } else if value == 6 {
            SecAlg::DsaNsec3Sha1
        } else if value == 7 {
            SecAlg::RsaSha1Nsec3Sha1
        } else if value == 8 {
            SecAlg::RsaSha256
        } else if value == 10 {
            SecAlg::RsaSha512
        } else if value == 12 {
            SecAlg::EccGost
        } else if value == 13 {
            SecAlg::EcdsaP256Sha256
        } else if value == 14 {
            SecAlg::EcdsaP384Sha384
        } else if value == 15 {
            SecAlg::Ed25519
        } else if value == 16 {
            SecAlg::Ed448
        } else if value == 252 {
            SecAlg::Indirect
        } else if value == 253 {
            SecAlg::PrivateDns
        } else if value == 254 {
            SecAlg::PrivateOid
        } else {
            SecAlg::Int(value)
        }
    }

    /// The value for a number.
    pub fn from_int(value: u8) -> (r: SecAlg)
        ensures
            r == SecAlg::of_number(value),
            r.number() == value,
    {
        match value {
            0 => SecAlg::DeleteDs,
            1 => SecAlg::RsaMd5,
            2 => SecAlg::Dh,
            3 => SecAlg::Dsa,
            5 => SecAlg::RsaSha1,
            6 => SecAlg::DsaNsec3Sha1,
            7 => SecAlg::RsaSha1Nsec3Sha1,
            8 => SecAlg::RsaSha256,
            10 => SecAlg::RsaSha512,
            12 => SecAlg::EccGost,
            13 => SecAlg::EcdsaP256Sha256,
            14 => SecAlg::EcdsaP384Sha384,
            15 => SecAlg::Ed25519,
            16 => SecAlg::Ed448,
            252 => SecAlg::Indirect,
            253 => SecAlg::PrivateDns,
            254 => SecAlg::PrivateOid,
            _ => SecAlg::Int(value),
        }
    }

    /// The number of the value.
    pub fn to_int(self) -> (r: u8)
        ensures
            r == self.number(),
    {
        match self {
            SecAlg::DeleteDs => 0,
            SecAlg::RsaMd5 => 1,
            SecAlg::Dh => 2,
            SecAlg::Dsa => 3,
            SecAlg::RsaSha1 => 5,
            SecAlg::DsaNsec3Sha1 => 6,
            SecAlg::RsaSha1Nsec3Sha1 => 7,
            SecAlg::RsaSha256 => 8,
            SecAlg::RsaSha512 => 10,
            SecAlg::EccGost => 12,
            SecAlg::EcdsaP256Sha256 => 13,
            SecAlg::EcdsaP384Sha384 => 14,
            SecAlg::Ed25519 => 15,
            SecAlg::Ed448 => 16,
            SecAlg::Indirect => 252,
            SecAlg::PrivateDns => 253,
            SecAlg::PrivateOid => 254,
            SecAlg::Int(value) => value,
        }
    }
}

impl PartialEq for SecAlg {
    fn eq(&self, other: &Self) -> (r: bool) {
        self.to_int() == other.to_int()
    }
}

impl vstd::std_specs::cmp::PartialEqSpecImpl for SecAlg {
    open spec fn obeys_eq_spec() -> bool {
        true
    }

    open spec fn eq_spec(&self, other: &Self) -> bool {
        self.number() == other.number()
    }
}

impl Eq for SecAlg {

}

/// The class of a record.
#[derive(Clone, Copy, Debug)]
pub enum Class {
    /// Internet. (1)
    In,
    /// Chaosnet. (3)
    Ch,
    /// Hesiod. (4)
    Hs,
    /// The class of no class. (254)
    NoClass,
    /// Any class. (255)
    Any,
    /// Any value, by its number.
    Int(u16),
}

impl Class {
    /// The number that the value stands for.
    pub open spec fn number(self) -> u16 {
        match self {
            Class::In => 1,
            Class::Ch => 3,
            Class::Hs => 4,
            Class::NoClass => 254,
            Class::Any => 255,
            Class::Int(value) => value,
        }
    }

    /// The value that stands for a number: the named one where the
    /// number has a name.
    pub open spec fn of_number(value: u16) -> Class {
        if value == 1 {
            Class::In
        } else if value == 3 {
            Class::Ch
        } else if value == 4 {
            Class::Hs
        } else if value == 254 {
            Class::NoClass
        } else if value == 255 {
            Class::Any
        } else {
            Class::Int(value)
        }
    }

    /// The value for a number.
    pub fn from_int(value: u16) -> (r: Class)
        ensures
            r == Class::of_number(value),
            r.number() == value,
    {
        match value {
            1 => Class::In,
            3 => Class::Ch,
            4 => Class::Hs,
            254 => Class::NoClass,
            255 => Class::Any,
            _ => Class::Int(value),
        }
    }

    /// The number of the value.
    pub fn to_int(self) -> (r: u16)
        ensures
            r == self.number(),
    {
        match self {
            Class::In => 1,
            Class::Ch => 3,
            Class::Hs => 4,
            Class::NoClass => 254,
            Class::Any => 255,
            Class::Int(value) => value,
        }
    }
}

impl PartialEq for Class {
    fn eq(&self, other: &Self) -> (r: bool) {
        self.to_int() == other.to_int()
    }
}

impl vstd::std_specs::cmp::PartialEqSpecImpl for Class {
    open spec fn obeys_eq_spec() -> bool {
        true
    }

    open spec fn eq_spec(&self, other: &Self) -> bool {
        self.number() == other.number()
    }
}

impl Eq for Class {

}

/// The type of a record.
#[derive(Clone, Copy, Debug)]
pub enum Rtype {
    /// A host address. (1)
    A,
    /// An authoritative name server. (2)
    Ns,
    /// The canonical name for an alias. (5)
    Cname,
    /// The start of a zone of authority. (6)
    Soa,
    /// A domain name pointer. (12)
    Ptr,
    /// Mail exchange. (15)
    Mx,
    /// Text strings. (16)
    Txt,
    /// An IPv6 host address. (28)
    Aaaa,
    /// Options. (41)
    Opt,
    /// Any value, by its number.
    Int(u16),
}

impl Rtype {
    /// The number that the value stands for.
    pub open spec fn number(self) -> u16 {
        match self {
            Rtype::A => 1,
            Rtype::Ns => 2,
            Rtype::Cname => 5,
            Rtype::Soa => 6,
            Rtype::Ptr => 12,
            Rtype::Mx => 15,
            Rtype::Txt => 16,
            Rtype::Aaaa => 28,
            Rtype::Opt => 41,
            Rtype::Int(value) => value,
        }
    }

    /// The value that stands for a number: the named one where the
    /// number has a name.
    pub open spec fn of_number(value: u16) -> Rtype {
        if value == 1 {
            Rtype::A
        } else if value == 2 {
            Rtype::Ns
        } else if value == 5 {
            Rtype::Cname
        } else if value == 6 {
            Rtype::Soa
        } else if value == 12 {
            Rtype::Ptr
        } else if value == 15 {
            Rtype::Mx
        } else if value == 16 {
            Rtype::Txt
        } else if value == 28 {
            Rtype::Aaaa
        } else if value == 41 {
            Rtype::Opt
        } else {
            Rtype::Int(value)
        }
    }

    /// The value for a number.
    pub fn from_int(value: u16) -> (r: Rtype)
        ensures
            r == Rtype::of_number(value),
            r.number() == value,
    {
        match value {
            1 => Rtype::A,
            2 => Rtype::Ns,
            5 => Rtype::Cname,
            6 => Rtype::Soa,
            12 => Rtype::Ptr,
            15 => Rtype::Mx,
            16 => Rtype::Txt,
            28 => Rtype::Aaaa,
            41 => Rtype::Opt,
            _ => Rtype::Int(value),
        }
    }

    /// The number of the value.
    pub fn to_int(self) -> (r: u16)
        ensures
            r == self.number(),
    {
        match self {
            Rtype::A => 1,
            Rtype::Ns => 2,
            Rtype::Cname => 5,
            Rtype::Soa => 6,
            Rtype::Ptr => 12,
            Rtype::Mx => 15,
            Rtype::Txt => 16,
            Rtype::Aaaa => 28,
            Rtype::Opt => 41,
            Rtype::Int(value) => value,
        }
    }
}

impl PartialEq for Rtype {
    fn eq(&self, other: &Self) -> (r: bool) {
        self.to_int() == other.to_int()
    }
}

impl vstd::std_specs::cmp::PartialEqSpecImpl for Rtype {
    open spec fn obeys_eq_spec() -> bool {
        true
    }

    open spec fn eq_spec(&self, other: &Self) -> bool {
        self.number() == other.number()
    }
}

impl Eq for Rtype {

}

} // verus!
