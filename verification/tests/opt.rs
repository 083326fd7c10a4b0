use bytes::Bytes;
use domain_core::compose::Compose;
use domain_core::header::Header;
use domain_core::iana::{Class, OptRcode, OptionCode, Rcode, Rtype, SecAlg};
use domain_core::message_builder::OptBuilder;
use domain_core::opt::rfc6975::{Dau, Dhu, N3u, SecAlgsIter};
use domain_core::opt::rfc7828::TcpKeepalive;
use domain_core::opt::rfc7830::{Padding, PaddingMode};
use domain_core::opt::rfc7871::{ClientSubnet, OptionParseError, SubnetAddr};
use domain_core::opt::rfc7873::Cookie;
use domain_core::opt::{
    same_octets, CodeOptData, Opt, OptData, OptHeader, OptRecord, OptionHeader, UnknownOptData,
};
use domain_core::parse::{Parse, ParseAll, ParseAllError, Parser, ShortBuf};
use domain_core::rdata::rfc3596::Aaaa;
use domain_core::record::{ParsedRecord, Record, RecordError};
use domain_core::dname::{Dname, DnameError};

#[test]
fn opt_record_header() {
    let mut header = OptHeader::default();
    header.set_udp_payload_size(0x1234);
    header.set_rcode(OptRcode::BadVers);
    header.set_version(0xbd);
    header.set_dnssec_ok(true);
    let mut buf = Vec::with_capacity(11);
    header.compose(&mut buf);
    0u16.compose(&mut buf);
    let mut buf = Parser::from_octets(buf.as_slice());
    let record = ParsedRecord::parse(&mut buf)
        .unwrap()
        .into_record::<Opt<_>>()
        .unwrap()
        .unwrap();
    let record = OptRecord::from_record(record);
    assert_eq!(record.udp_payload_size(), 0x1234);
    assert_eq!(record.ext_rcode(), OptRcode::BadVers.ext());
    assert_eq!(record.version(), 0xbd);
    assert!(record.dnssec_ok());
}

#[test]
fn opt_header_fields() {
    let mut header = OptHeader::default();
    assert_eq!(header.as_slice(), &[0, 0, 41, 0, 0, 0, 0, 0, 0]);
    assert_eq!(header.udp_payload_size(), 0);
    assert_eq!(header.version(), 0);
    assert!(!header.dnssec_ok());
    header.set_udp_payload_size(0x04d0);
    assert_eq!(header.udp_payload_size(), 1232);
    header.set_version(3);
    header.set_dnssec_ok(true);
    assert!(header.dnssec_ok());
    assert_eq!(header.as_slice(), &[0, 0, 41, 0x04, 0xd0, 0, 3, 0x80, 0]);
    header.set_dnssec_ok(false);
    assert!(!header.dnssec_ok());
    assert_eq!(header.as_slice()[7], 0);
    header.set_rcode(OptRcode::BadCookie);
    assert_eq!(header.as_slice()[5], 1);
    let mut plain = Header::new();
    plain.set_rcode(Rcode::from_int(7));
    assert_eq!(header.rcode(plain), OptRcode::BadCookie);
    assert_eq!(header.rcode(plain).to_int(), 23);
    assert_eq!(header.compose_len(), 9);

    let other = OptHeader::for_record_slice(&[0, 0, 41, 1, 2, 3, 4, 0xff, 6, 7, 8]);
    assert_eq!(other.udp_payload_size(), 0x0102);
    assert_eq!(other.version(), 4);
    assert!(other.dnssec_ok());
    let mut other = other;
    other.set_dnssec_ok(false);
    assert_eq!(other.as_slice()[7], 0x7f);
    other.set_dnssec_ok(true);
    assert_eq!(other.as_slice()[7], 0xff);
}

#[test]
fn header_fields() {
    let mut header = Header::new();
    assert_eq!(header.as_slice(), &[0, 0, 0, 0]);
    header.set_id(0x1234);
    assert_eq!(header.id(), 0x1234);
    let mut header = Header::from_octets([1, 2, 3, 0xf5]);
    assert_eq!(header.id(), 0x0102);
    assert_eq!(header.rcode(), Rcode::Refused);
    header.set_rcode(Rcode::NXDomain);
    assert_eq!(header.as_slice(), &[1, 2, 3, 0xf3]);
    assert_eq!(header.rcode().to_int(), 3);
}

#[test]
fn opt_rcode_parts() {
    assert_eq!(OptRcode::from_parts(Rcode::NoError, 1), OptRcode::BadVers);
    assert_eq!(OptRcode::BadVers.ext(), 1);
    assert_eq!(OptRcode::BadVers.rcode(), Rcode::NoError);
    assert_eq!(OptRcode::from_parts(Rcode::Refused, 0), OptRcode::Refused);
    assert_eq!(OptRcode::from_parts(Rcode::Int(15), 0xff).to_int(), 0x0fff);
    assert_eq!(OptRcode::from_int(0xf010), OptRcode::BadVers);
    assert_eq!(OptRcode::Int(0x123).ext(), 0x12);
    assert_eq!(OptRcode::Int(0x123).rcode().to_int(), 3);
    assert_eq!(Rcode::from_int(0x13), Rcode::NXDomain);
    assert_eq!(Rcode::from_int(11).to_int(), 11);
}

#[test]
fn registry_numbers() {
    assert_eq!(OptionCode::from_int(11), OptionCode::TcpKeepalive);
    assert_eq!(OptionCode::from_int(4).to_int(), 4);
    assert_eq!(OptionCode::Int(12), OptionCode::Padding);
    assert_eq!(OptionCode::Cookie.to_int(), 10);
    assert_eq!(SecAlg::from_int(8), SecAlg::RsaSha256);
    assert_eq!(SecAlg::from_int(4).to_int(), 4);
    assert_eq!(SecAlg::PrivateOid.to_int(), 254);
    assert_eq!(Class::from_int(1), Class::In);
    assert_eq!(Class::from_int(0x1234).to_int(), 0x1234);
    assert_eq!(Rtype::from_int(41), Rtype::Opt);
    assert_eq!(Rtype::Aaaa.to_int(), 28);
    for value in 0..=255u8 {
        assert_eq!(SecAlg::from_int(value).to_int(), value);
    }
}

#[test]
fn opt_from_octets() {
    assert!(Opt::from_octets(&b""[..]).is_ok());
    let data: &[u8] = b"\x00\x0b\x00\x02\x01\x02\x00\x0c\x00\x00";
    let opt = Opt::from_octets(data).unwrap();
    assert_eq!(opt.as_slice(), data);
    assert_eq!(opt.compose_len(), 10);
    assert_eq!(opt.clone(), opt);
    assert_eq!(Opt::from_octets(&b"\x00"[..]).map(|_| ()), Err(ShortBuf));
    assert_eq!(Opt::from_octets(&b"\x00\x0b\x00"[..]).map(|_| ()), Err(ShortBuf));
    assert_eq!(
        Opt::from_octets(&b"\x00\x0b\x00\x02\x01"[..]).map(|_| ()),
        Err(ShortBuf)
    );
    assert_eq!(
        Opt::from_octets(&b"\x00\x0b\x00\x01\x01\x00"[..]).map(|_| ()),
        Err(ShortBuf)
    );
    assert!(Opt::from_octets(Bytes::from_static(data)).is_ok());
    assert!(opt == Opt::from_octets(Bytes::from_static(data)).unwrap());
    assert!(opt != Opt::from_octets(&b""[..]).unwrap());
    assert!(same_octets(b"ab", b"ab"));
    assert!(!same_octets(b"ab", b"ac"));
    assert!(!same_octets(b"ab", b"a"));
}

#[test]
fn opt_iter_unknown() {
    let data: &[u8] = b"\x00\x0b\x00\x02\x01\x02\x00\x0c\x00\x00\x00\x63\x00\x01\x07";
    let opt = Opt::from_octets(data).unwrap();
    let mut iter = opt.iter::<UnknownOptData<&[u8]>>();
    let first = iter.next().unwrap().unwrap();
    assert_eq!(first.code(), OptionCode::TcpKeepalive);
    assert_eq!(*first.data(), b"\x01\x02");
    assert_eq!(OptData::<&[u8]>::code(&first), OptionCode::TcpKeepalive);
    let second = iter.next().unwrap().unwrap();
    assert_eq!(second.code(), OptionCode::Padding);
    assert_eq!(*second.data(), b"");
    let third = iter.next().unwrap().unwrap();
    assert_eq!(third.code().to_int(), 0x63);
    assert_eq!(*third.data(), b"\x07");
    assert_eq!(third.compose_len(), 1);
    let mut out = Vec::new();
    third.compose(&mut out);
    assert_eq!(out, [7]);
    assert!(iter.next().is_none());
    assert!(iter.next().is_none());
}

#[test]
fn opt_iter_passes_over_other_options() {
    let data: &[u8] =
        b"\x00\x0c\x00\x03\x00\x00\x00\x00\x0b\x00\x02\x01\x02\x00\x63\x00\x00\x00\x0b\x00\x02\x00\x05";
    let opt = Opt::from_octets(data).unwrap();
    let mut iter = opt.iter::<TcpKeepalive>();
    assert_eq!(iter.next(), Some(Ok(TcpKeepalive::new(0x0102))));
    assert_eq!(iter.next(), Some(Ok(TcpKeepalive::new(5))));
    assert_eq!(iter.next(), None);
    let mut iter = opt.iter::<Padding>();
    assert_eq!(
        iter.next(),
        Some(Ok(Padding::new(3, PaddingMode::Zero)))
    );
    assert_eq!(iter.next(), None);
    let mut iter = opt.iter::<Cookie>();
    assert_eq!(iter.next(), None);
}

#[test]
fn opt_iter_hands_out_errors_and_goes_on() {
    let data: &[u8] = b"\x00\x0b\x00\x03\x01\x02\x03\x00\x0b\x00\x02\x00\x05";
    let opt = Opt::from_octets(data).unwrap();
    let mut iter = opt.iter::<TcpKeepalive>();
    assert_eq!(iter.next(), Some(Err(ParseAllError::TrailingData)));
    assert_eq!(iter.next(), Some(Ok(TcpKeepalive::new(5))));
    assert_eq!(iter.next(), None);
}

#[test]
fn tcp_keepalive() {
    let option = TcpKeepalive::new(600);
    assert_eq!(option.timeout(), 600);
    assert_eq!(option.compose_len(), 2);
    assert_eq!(OptData::<&[u8]>::code(&option), OptionCode::TcpKeepalive);
    assert_eq!(<TcpKeepalive as CodeOptData>::CODE, OptionCode::from_int(11));
    let mut out = Vec::new();
    option.compose(&mut out);
    assert_eq!(out, [0x02, 0x58]);
    let mut parser = Parser::from_octets(&out[..]);
    assert_eq!(TcpKeepalive::parse_all(&mut parser, 2), Ok(option));
    assert_eq!(parser.remaining(), 0);
    let mut parser = Parser::from_octets(&b"\x02\x58\x00"[..]);
    assert_eq!(
        TcpKeepalive::parse_all(&mut parser, 3),
        Err(ParseAllError::TrailingData)
    );
    assert_eq!(
        TcpKeepalive::parse_all(&mut parser, 1),
        Err(ParseAllError::ShortField)
    );
    let mut parser = Parser::from_octets(&b"\x02"[..]);
    assert_eq!(
        TcpKeepalive::parse_all(&mut parser, 2),
        Err(ParseAllError::ShortBuf)
    );
}

#[test]
fn push_options() {
    let mut builder = OptBuilder::new();
    assert_eq!(TcpKeepalive::push(&mut builder, 0x0102), Ok(()));
    assert_eq!(builder.as_slice(), b"\x00\x0b\x00\x02\x01\x02");
    assert_eq!(Cookie::push(&mut builder, [1, 2, 3, 4, 5, 6, 7, 8]), Ok(()));
    assert_eq!(Padding::push(&mut builder, 3, PaddingMode::Zero), Ok(()));
    assert_eq!(
        ClientSubnet::push(&mut builder, 24, 0, SubnetAddr::V4([192, 0, 2, 0])),
        Ok(())
    );
    let expected: &[u8] = b"\x00\x0b\x00\x02\x01\x02\
        \x00\x0a\x00\x08\x01\x02\x03\x04\x05\x06\x07\x08\
        \x00\x0c\x00\x03\x00\x00\x00\
        \x00\x08\x00\x08\x00\x01\x18\x00\xc0\x00\x02\x00";
    assert_eq!(builder.as_slice(), expected);
    let opt = builder.finish();
    assert_eq!(opt.as_slice(), expected);
    let mut iter = opt.iter::<Cookie>();
    assert_eq!(
        iter.next(),
        Some(Ok(Cookie::new([1, 2, 3, 4, 5, 6, 7, 8])))
    );
    assert_eq!(iter.next(), None);
    let mut iter = opt.iter::<ClientSubnet>();
    assert_eq!(
        iter.next(),
        Some(Ok(ClientSubnet::new(24, 0, SubnetAddr::V4([192, 0, 2, 0]))))
    );
}

#[test]
fn push_keeps_the_record_short_enough() {
    let mut builder = OptBuilder::new();
    assert_eq!(Padding::push(&mut builder, 65531, PaddingMode::Zero), Ok(()));
    assert_eq!(builder.as_slice().len(), 65535);
    assert_eq!(Padding::push(&mut builder, 0, PaddingMode::Zero), Err(ShortBuf));
    assert_eq!(TcpKeepalive::push(&mut builder, 1), Err(ShortBuf));
    assert_eq!(builder.as_slice().len(), 65535);
    let mut builder = OptBuilder::new();
    assert_eq!(Padding::push(&mut builder, 65532, PaddingMode::Zero), Err(ShortBuf));
    assert_eq!(builder.as_slice().len(), 0);
    assert_eq!(builder.push::<&[u8], _>(&TcpKeepalive::new(7)), Ok(()));
    assert_eq!(builder.as_slice(), b"\x00\x0b\x00\x02\x00\x07");
}

#[test]
fn padding() {
    let zero = Padding::new(5, PaddingMode::Zero);
    assert_eq!(zero.len(), 5);
    assert_eq!(zero.mode(), PaddingMode::Zero);
    assert_eq!(zero.compose_len(), 5);
    let mut out = vec![9u8];
    zero.compose(&mut out);
    assert_eq!(out, [9, 0, 0, 0, 0, 0]);

    let random = Padding::new(300, PaddingMode::Random);
    assert_eq!(random.mode(), PaddingMode::Random);
    let mut out = vec![9u8];
    random.compose(&mut out);
    assert_eq!(out.len(), 301);
    assert_eq!(out[0], 9);
    // Three hundred random octets are not all the same.
    assert!(out[1..].iter().any(|x| *x != out[1]));

    let none = Padding::new(0, PaddingMode::Random);
    let mut out = Vec::new();
    none.compose(&mut out);
    assert!(out.is_empty());

    let mut parser = Parser::from_octets(&b"\x01\x02\x03"[..]);
    assert_eq!(
        Padding::parse_all(&mut parser, 2),
        Ok(Padding::new(2, PaddingMode::Zero))
    );
    assert_eq!(parser.pos(), 2);
    assert_eq!(Padding::parse_all(&mut parser, 2), Err(ShortBuf));
    assert_eq!(parser.pos(), 2);
}

#[test]
fn cookie() {
    let cookie = Cookie::new([1, 2, 3, 4, 5, 6, 7, 8]);
    assert_eq!(cookie.cookie(), &[1, 2, 3, 4, 5, 6, 7, 8]);
    assert_eq!(cookie.compose_len(), 8);
    let mut out = Vec::new();
    cookie.compose(&mut out);
    assert_eq!(out, [1, 2, 3, 4, 5, 6, 7, 8]);
    let mut parser = Parser::from_octets(&b"\x08\x07\x06\x05\x04\x03\x02\x01\x00"[..]);
    assert_eq!(
        Cookie::parse_all(&mut parser, 8),
        Ok(Cookie::new([8, 7, 6, 5, 4, 3, 2, 1]))
    );
    assert_eq!(parser.pos(), 8);
    assert_eq!(
        Cookie::parse_all(&mut parser, 8),
        Err(ParseAllError::ShortBuf)
    );
    assert_eq!(
        Cookie::parse_all(&mut parser, 7),
        Err(ParseAllError::ShortField)
    );
    assert_eq!(
        Cookie::parse_all(&mut parser, 9),
        Err(ParseAllError::TrailingData)
    );
}

#[test]
fn client_subnet() {
    let v4 = ClientSubnet::new(24, 16, SubnetAddr::V4([192, 0, 2, 1]));
    assert_eq!(v4.source_prefix_len(), 24);
    assert_eq!(v4.scope_prefix_len(), 16);
    assert_eq!(v4.addr(), SubnetAddr::V4([192, 0, 2, 1]));
    assert_eq!(v4.compose_len(), 8);
    let mut out = Vec::new();
    v4.compose(&mut out);
    assert_eq!(out, [0, 1, 24, 16, 192, 0, 2, 1]);
    let mut parser = Parser::from_octets(&out[..]);
    assert_eq!(ClientSubnet::parse_all(&mut parser, 8), Ok(v4));
    assert_eq!(parser.remaining(), 0);

    let addr = [0x20, 0x01, 0x0d, 0xb8, 0, 0, 0, 0, 0, 0, 0, 0, 0, 0, 0, 1];
    let v6 = ClientSubnet::new(56, 0, SubnetAddr::V6(addr));
    assert_eq!(v6.compose_len(), 20);
    let mut out = Vec::new();
    v6.compose(&mut out);
    assert_eq!(out.len(), 20);
    assert_eq!(&out[..4], &[0, 2, 56, 0]);
    assert_eq!(&out[4..], &addr[..]);
    let mut parser = Parser::from_octets(&out[..]);
    assert_eq!(ClientSubnet::parse_all(&mut parser, 20), Ok(v6));
}

#[test]
fn client_subnet_errors() {
    let mut parser = Parser::from_octets(&b"\x00\x01\x18\x00\xc0\x00\x02\x01"[..]);
    assert_eq!(
        ClientSubnet::parse_all(&mut parser, 7),
        Err(OptionParseError::InvalidV4Length(7))
    );
    let mut parser = Parser::from_octets(&b"\x00\x02\x18\x00\xc0\x00\x02\x01"[..]);
    assert_eq!(
        ClientSubnet::parse_all(&mut parser, 8),
        Err(OptionParseError::InvalidV6Length(8))
    );
    let mut parser = Parser::from_octets(&b"\x00\x03\x18\x00\xc0\x00\x02\x01"[..]);
    assert_eq!(
        ClientSubnet::parse_all(&mut parser, 8),
        Err(OptionParseError::InvalidFamily(3))
    );
    let mut parser = Parser::from_octets(&b"\x00\x01\x18"[..]);
    assert_eq!(
        ClientSubnet::parse_all(&mut parser, 8),
        Err(OptionParseError::ShortBuf)
    );
    let mut parser = Parser::from_octets(&b"\x00\x01\x18\x00\xc0\x00"[..]);
    assert_eq!(
        ClientSubnet::parse_all(&mut parser, 8),
        Err(OptionParseError::ShortBuf)
    );
    assert_eq!(OptionParseError::from(ShortBuf), OptionParseError::ShortBuf);
}

#[test]
fn algorithm_lists() {
    let dau = Dau::from_octets(&b"\x08\x0d\x04"[..]);
    let mut iter = dau.iter();
    assert_eq!(iter.next(), Some(SecAlg::RsaSha256));
    assert_eq!(iter.next(), Some(SecAlg::EcdsaP256Sha256));
    assert_eq!(iter.next(), Some(SecAlg::Int(4)));
    assert_eq!(iter.next(), None);
    assert_eq!(dau.compose_len(), 3);
    let mut out = Vec::new();
    dau.compose(&mut out);
    assert_eq!(out, [8, 13, 4]);

    let mut parser = Parser::from_octets(&b"\x01\x02\x03"[..]);
    let dhu = Dhu::parse_all(&mut parser, 2).unwrap();
    assert_eq!(dhu.iter().next(), Some(SecAlg::RsaMd5));
    assert!(N3u::parse_all(&mut parser, 2).is_err());
    let n3u = N3u::parse_all(&mut parser, 1).unwrap();
    assert_eq!(n3u.iter().next(), Some(SecAlg::Dsa));
    assert_eq!(<Dau<&[u8]> as CodeOptData>::CODE, OptionCode::Dau);
    assert_eq!(<Dhu<&[u8]> as CodeOptData>::CODE, OptionCode::Dhu);
    assert_eq!(<N3u<&[u8]> as CodeOptData>::CODE, OptionCode::N3u);
    let mut iter = SecAlgsIter::new(b"");
    assert_eq!(iter.next(), None);
}

#[test]
fn option_header() {
    let header = OptionHeader::new(11, 2);
    assert_eq!(header.code(), 11);
    assert_eq!(header.len(), 2);
    let mut out = Vec::new();
    header.compose(&mut out);
    assert_eq!(out, [0, 11, 0, 2]);
    assert_eq!(header.compose_len(), 4);
    let mut parser = Parser::from_octets(&b"\x01\x02\x03\x04\x05"[..]);
    assert_eq!(
        OptionHeader::parse(&mut parser),
        Ok(OptionHeader::new(0x0102, 0x0304))
    );
    assert_eq!(parser.pos(), 4);
    assert_eq!(OptionHeader::parse(&mut parser), Err(ShortBuf));
    assert_eq!(OptionHeader::skip(&mut parser), Err(ShortBuf));
    assert_eq!(parser.pos(), 4);
    parser.seek(1).unwrap();
    assert_eq!(OptionHeader::skip(&mut parser), Ok(()));
    assert_eq!(parser.pos(), 5);
}

#[test]
fn parser_steps() {
    let data: &[u8] = b"\x01\x02\x03\x04\x05\x06";
    let mut parser = Parser::from_octets(data);
    assert_eq!(parser.pos(), 0);
    assert_eq!(parser.remaining(), 6);
    assert_eq!(parser.peek_all(), data);
    assert_eq!(parser.peek(2), Ok(&data[..2]));
    assert_eq!(parser.peek(7), Err(ShortBuf));
    assert_eq!(parser.check_len(6), Ok(()));
    assert_eq!(parser.check_len(7), Err(ShortBuf));
    assert_eq!(parser.parse_u8(), Ok(1));
    assert_eq!(parser.parse_u16(), Ok(0x0203));
    assert_eq!(parser.parse_octets(2), Ok(&data[3..5]));
    assert_eq!(parser.parse_u16(), Err(ShortBuf));
    assert_eq!(parser.parse_octets(2), Err(ShortBuf));
    assert_eq!(parser.advance(2), Err(ShortBuf));
    assert_eq!(parser.pos(), 5);
    assert_eq!(parser.advance(1), Ok(()));
    assert_eq!(parser.parse_u8(), Err(ShortBuf));
    assert_eq!(parser.seek(7), Err(ShortBuf));
    assert_eq!(parser.seek(2), Ok(()));
    let mut buf = [0u8; 3];
    assert_eq!(parser.parse_buf(&mut buf), Ok(()));
    assert_eq!(buf, [3, 4, 5]);
    let mut buf = [9u8; 2];
    assert_eq!(parser.parse_buf(&mut buf), Err(ShortBuf));
    assert_eq!(buf, [9, 9]);
    assert_eq!(parser.pos(), 5);
    assert_eq!(parser.into_octets(), data);
    assert_eq!(ParseAllError::check(2, 2), Ok(()));
    assert_eq!(ParseAllError::check(2, 3), Err(ParseAllError::TrailingData));
    assert_eq!(ParseAllError::check(2, 1), Err(ParseAllError::ShortField));
    assert_eq!(ParseAllError::from(ShortBuf), ParseAllError::ShortBuf);
    let mut parser = Parser::from_octets(Bytes::from_static(data));
    assert_eq!(parser.parse_octets(2).unwrap().as_ref(), &data[..2]);
    assert_eq!(<u16 as ParseAll<Bytes>>::parse_all(&mut parser, 2), Ok(0x0304));
}

#[test]
fn parsed_record() {
    let data: &[u8] = b"\x03www\x00\x00\x1c\x00\x01\x00\x01\x51\x80\x00\x10\
        \x20\x01\x0d\xb8\x00\x00\x00\x00\x00\x00\x00\x00\x00\x00\x00\x01rest";
    let mut parser = Parser::from_octets(data);
    let parsed = ParsedRecord::parse(&mut parser).unwrap();
    assert_eq!(parser.remaining(), 4);
    assert_eq!(parsed.rtype(), Rtype::Aaaa);
    let mut again = Parser::from_octets(data);
    let other = ParsedRecord::parse(&mut again).unwrap();
    assert!(other.into_record::<Opt<&[u8]>>().unwrap().is_none());
    let record: Record<Dname<&[u8]>, Aaaa> = parsed.into_record().unwrap().unwrap();
    assert_eq!(record.owner().as_slice(), b"\x03www\0");
    assert_eq!(record.class(), Class::In);
    assert_eq!(record.ttl(), 86400);
    assert_eq!(record.data().addr()[0], 0x20);
    assert_eq!(record.into_data().addr()[15], 1);

    let mut parser = Parser::from_octets(&b"\x03www"[..]);
    assert_eq!(
        ParsedRecord::parse(&mut parser).map(|_| ()),
        Err(RecordError::Name(DnameError::ShortData))
    );
    let mut parser = Parser::from_octets(&b"\x00\x00\x29\x00"[..]);
    assert_eq!(
        ParsedRecord::parse(&mut parser).map(|_| ()),
        Err(RecordError::ShortBuf)
    );
    let mut parser = Parser::from_octets(&b"\x00\x00\x29\x00\x00\x00\x00\x00\x00\x00\x01"[..]);
    assert_eq!(
        ParsedRecord::parse(&mut parser).map(|_| ()),
        Err(RecordError::ShortBuf)
    );
}

#[test]
fn opt_record_from_record() {
    let opt = Opt::from_octets(&b"\x00\x0b\x00\x02\x01\x02"[..]).unwrap();
    let root: Dname<&'static [u8]> = Dname::root();
    let record = Record::new(root, Class::from_int(1232), 0x1203_8001, opt);
    let record = OptRecord::from_record(record);
    assert_eq!(record.udp_payload_size(), 1232);
    assert_eq!(record.ext_rcode(), 0x12);
    assert_eq!(record.version(), 3);
    assert!(record.dnssec_ok());
    assert_eq!(record.as_opt().as_slice(), b"\x00\x0b\x00\x02\x01\x02");
    let mut header = Header::new();
    header.set_rcode(Rcode::from_int(5));
    assert_eq!(record.rcode(header).to_int(), 0x125);

    let opt = Opt::from_octets(&b""[..]).unwrap();
    let root: Dname<&'static [u8]> = Dname::root();
    let record = OptRecord::from_record(Record::new(root, Class::In, 0x0000_7fff, opt));
    assert!(!record.dnssec_ok());
    assert_eq!(record.ext_rcode(), 0);
    assert_eq!(record.version(), 0);
}

#[test]
fn aaaa() {
    let mut aaaa = Aaaa::new([1; 16]);
    assert_eq!(aaaa.addr(), [1; 16]);
    aaaa.set_addr([2; 16]);
    assert_eq!(aaaa.addr(), [2; 16]);
    assert_eq!(aaaa.compose_len(), 16);
    let mut out = Vec::new();
    aaaa.compose(&mut out);
    assert_eq!(out, [2; 16]);
    let mut parser = Parser::from_octets(&out[..]);
    assert_eq!(Aaaa::parse(&mut parser), Ok(Aaaa::new([2; 16])));
    assert_eq!(Aaaa::parse(&mut parser), Err(ShortBuf));
    assert_eq!(Aaaa::skip(&mut parser), Err(ShortBuf));
    parser.seek(0).unwrap();
    assert_eq!(Aaaa::skip(&mut parser), Ok(()));
    parser.seek(0).unwrap();
    assert_eq!(
        Aaaa::parse_all(&mut parser, 15),
        Err(ParseAllError::ShortField)
    );
    assert_eq!(
        Aaaa::parse_all(&mut parser, 17),
        Err(ParseAllError::TrailingData)
    );
    assert_eq!(Aaaa::parse_all(&mut parser, 16), Ok(Aaaa::new([2; 16])));
    assert_eq!(
        Aaaa::parse_all(&mut parser, 16),
        Err(ParseAllError::ShortBuf)
    );
}
