use bytes::Bytes;
use domain_core::dname::{Dname, DnameError};
use domain_core::label::LabelTypeError;
use domain_core::parse::{Parse, ParseAll, Parser};
use domain_core::relative::{RelativeDname, StripSuffixError};
use std::cmp::Ordering;
use std::collections::hash_map::DefaultHasher;
use std::hash::Hasher;

fn wecr() -> Dname<&'static [u8]> {
    Dname::from_slice(b"\x03www\x07example\x03com\0").unwrap()
}

#[test]
fn dname_root() {
    let root: Dname<&'static [u8]> = Dname::root();
    assert_eq!(root.as_slice(), b"\0");
    assert!(root.is_root());
    assert_eq!(root.len(), 1);
    assert_eq!(root.label_count(), 1);
    assert!(root.first().is_root());
    let root: Dname<Bytes> = Dname::root();
    assert_eq!(root.as_slice(), b"\0");
}

#[test]
fn dname_from_slice_good() {
    assert_eq!(Dname::from_slice(b"\0").unwrap().as_slice(), b"\0");
    assert_eq!(
        Dname::from_slice(b"\x03www\0").unwrap().as_slice(),
        b"\x03www\0"
    );
    assert_eq!(wecr().as_slice(), b"\x03www\x07example\x03com\0");
    assert_eq!(wecr().len(), 17);
    assert!(!wecr().is_root());
}

#[test]
fn dname_from_slice_errors() {
    assert_eq!(Dname::from_slice(b""), Err(DnameError::ShortData));
    assert_eq!(
        Dname::from_slice(b"\x03www"),
        Err(DnameError::RelativeName)
    );
    assert_eq!(
        Dname::from_slice(b"\x03www\x07example\x03com"),
        Err(DnameError::RelativeName)
    );
    assert_eq!(
        Dname::from_slice(b"\x03www\0\x03com\0"),
        Err(DnameError::TrailingData)
    );
    assert_eq!(Dname::from_slice(b"\0\0"), Err(DnameError::TrailingData));
    assert_eq!(
        Dname::from_slice(b"\x03www\x07exa"),
        Err(DnameError::ShortData)
    );
    assert_eq!(
        Dname::from_slice(b"\x03www\xc0\x0c"),
        Err(DnameError::CompressedName)
    );
    assert_eq!(
        Dname::from_slice(b"\x03www\x41a\0"),
        Err(DnameError::BadLabel(LabelTypeError::Extended(0x41)))
    );
    assert_eq!(
        Dname::from_slice(b"\x03www\x81a\0"),
        Err(DnameError::BadLabel(LabelTypeError::Undefined))
    );
}

#[test]
fn dname_length_limits() {
    let mut buf = Vec::new();
    for _ in 0..25 {
        buf.extend_from_slice(b"\x09123456789");
    }
    let mut ok = buf.clone();
    ok.extend_from_slice(b"\x03123\0");
    assert_eq!(ok.len(), 255);
    assert!(Dname::from_slice(&ok).is_ok());
    let mut long = buf.clone();
    long.extend_from_slice(b"\x041234\0");
    assert_eq!(long.len(), 256);
    assert_eq!(Dname::from_slice(&long), Err(DnameError::LongName));
}

#[test]
fn dname_from_bytes() {
    let name = Dname::from_bytes(Bytes::from_static(b"\x03www\x07example\x03com\0")).unwrap();
    assert_eq!(name.as_slice(), b"\x03www\x07example\x03com\0");
    assert_eq!(name.as_bytes().as_ref(), b"\x03www\x07example\x03com\0");
    assert_eq!(name.range_from(4).as_slice(), b"\x07example\x03com\0");
    assert_eq!(name.range_to(4).as_slice(), b"\x03www");
    assert_eq!(name.clone().into_bytes().as_ref(), b"\x03www\x07example\x03com\0");
    assert!(Dname::from_bytes(Bytes::from_static(b"\x03www")).is_err());
}

#[test]
fn dname_labels() {
    let name = wecr();
    assert_eq!(name.label_count(), 4);
    assert_eq!(name.first().as_slice(), b"www");
    assert!(name.last().is_root());
    let mut iter = name.iter();
    assert_eq!(iter.next().unwrap().as_slice(), b"www");
    assert_eq!(iter.next_back().unwrap().as_slice(), b"");
    assert_eq!(iter.next_back().unwrap().as_slice(), b"com");
    assert_eq!(iter.next().unwrap().as_slice(), b"example");
    assert!(iter.next().is_none());
    assert!(iter.next_back().is_none());
}

#[test]
fn dname_is_label_start() {
    let name = wecr();
    for i in 0..20 {
        assert_eq!(
            name.is_label_start(i),
            i == 0 || i == 4 || i == 12 || i == 16,
            "i={}",
            i
        );
    }
}

#[test]
fn dname_ranges() {
    let name = wecr();
    assert_eq!(name.range_from(0).as_slice(), b"\x03www\x07example\x03com\0");
    assert_eq!(name.range_from(12).as_slice(), b"\x03com\0");
    assert_eq!(name.range_from(16).as_slice(), b"\0");
    assert_eq!(name.range_to(0).as_slice(), b"");
    assert_eq!(name.range_to(12).as_slice(), b"\x03www\x07example");
    assert_eq!(name.range_to(16).as_slice(), b"\x03www\x07example\x03com");
    assert_eq!(name.range(4, 12).as_slice(), b"\x07example");
    assert_eq!(name.range(4, 4).as_slice(), b"");
    assert_eq!(
        name.into_relative().as_slice(),
        b"\x03www\x07example\x03com"
    );
}

#[test]
fn dname_split_first_and_parent() {
    let mut name = wecr();
    assert_eq!(name.split_first().unwrap().as_slice(), b"\x03www");
    assert_eq!(name.as_slice(), b"\x07example\x03com\0");
    assert!(name.parent());
    assert_eq!(name.as_slice(), b"\x03com\0");
    assert!(name.parent());
    assert_eq!(name.as_slice(), b"\0");
    assert!(!name.parent());
    assert_eq!(name.as_slice(), b"\0");
    assert!(name.split_first().is_none());
    assert_eq!(name.as_slice(), b"\0");
}

#[test]
fn dname_affixes() {
    let name = wecr();
    let root: Dname<&'static [u8]> = Dname::root();
    let ec = Dname::from_slice(b"\x07EXAMPLE\x03com\0").unwrap();
    let en = Dname::from_slice(b"\x07example\x03net\0").unwrap();
    let w = RelativeDname::from_slice(b"\x03WWW").unwrap();
    assert!(name.ends_with(&root));
    assert!(name.ends_with(&ec));
    assert!(name.ends_with(&name));
    assert!(!name.ends_with(&en));
    assert!(!ec.ends_with(&name));
    assert!(name.starts_with(&w));
    assert!(name.starts_with(&name));
    assert!(!name.starts_with(&ec));
    assert!(name.starts_with(&RelativeDname::static_empty()));
}

#[test]
fn dname_strip_suffix() {
    let ec = Dname::from_slice(b"\x07example\x03com\0").unwrap();
    let en = Dname::from_slice(b"\x07example\x03net\0").unwrap();
    let root: Dname<&'static [u8]> = Dname::root();
    assert_eq!(wecr().strip_suffix(&ec).unwrap().as_slice(), b"\x03www");
    assert_eq!(
        wecr().strip_suffix(&root).unwrap().as_slice(),
        b"\x03www\x07example\x03com"
    );
    assert_eq!(wecr().strip_suffix(&wecr()).unwrap().as_slice(), b"");
    assert_eq!(wecr().strip_suffix(&en).map(|_| ()), Err(StripSuffixError));
}

#[test]
fn dname_eq_and_order() {
    let a = wecr();
    let b = Dname::from_slice(b"\x03wWw\x07eXAMple\x03Com\0").unwrap();
    let c = Dname::from_slice(b"\x07example\x03com\0").unwrap();
    assert_eq!(a, b);
    assert_ne!(a, c);
    assert_eq!(a.cmp(&b), Ordering::Equal);
    assert_eq!(a.partial_cmp(&b), Some(Ordering::Equal));
    assert_eq!(c.cmp(&a), Ordering::Less);
    assert_eq!(a.cmp(&c), Ordering::Greater);
    let root: Dname<&'static [u8]> = Dname::root();
    assert_eq!(root.cmp(&c), Ordering::Less);
}

#[test]
fn dname_hash() {
    let mut s1 = DefaultHasher::new();
    let mut s2 = DefaultHasher::new();
    let mut s3 = DefaultHasher::new();
    wecr().hash(&mut s1);
    Dname::from_slice(b"\x03wWw\x07eXAMple\x03Com\0")
        .unwrap()
        .hash(&mut s2);
    Dname::from_slice(b"\x03ww4\x07example\x03com\0")
        .unwrap()
        .hash(&mut s3);
    assert_eq!(s1.finish(), s2.finish());
    assert_ne!(s1.finish(), s3.finish());
}

#[test]
fn dname_parse_from_parser() {
    let data: &[u8] = b"\x03www\x07example\x03com\0\x01a\0tail";
    let mut parser = Parser::from_octets(data);
    let first = Dname::parse(&mut parser).unwrap();
    assert_eq!(first.as_slice(), b"\x03www\x07example\x03com\0");
    assert_eq!(parser.pos(), 17);
    Dname::skip(&mut parser).unwrap();
    assert_eq!(parser.pos(), 20);
    assert_eq!(parser.remaining(), 4);
    // "tail" starts with the octet 0x74, an extended label type.
    assert_eq!(
        Dname::parse(&mut parser),
        Err(DnameError::BadLabel(LabelTypeError::Extended(0x74)))
    );
    assert_eq!(parser.pos(), 20);
}

#[test]
fn dname_parse_errors() {
    let mut parser = Parser::from_octets(&b""[..]);
    assert_eq!(Dname::parse(&mut parser), Err(DnameError::ShortData));
    let mut parser = Parser::from_octets(&b"\x03www"[..]);
    assert_eq!(Dname::parse(&mut parser), Err(DnameError::ShortData));
    assert_eq!(parser.pos(), 0);
    let mut parser = Parser::from_octets(&b"\x03www\xc0\x0c"[..]);
    assert_eq!(Dname::parse(&mut parser), Err(DnameError::CompressedName));
    let mut buf = Vec::new();
    for _ in 0..26 {
        buf.extend_from_slice(b"\x09123456789");
    }
    buf.push(0);
    let mut parser = Parser::from_octets(buf.as_slice());
    assert_eq!(Dname::parse(&mut parser), Err(DnameError::LongName));
    assert_eq!(Dname::skip(&mut parser), Err(DnameError::LongName));
    assert_eq!(parser.pos(), 0);
}

#[test]
fn names_as_text() {
    assert_eq!(RelativeDname::static_empty().to_text(), b"");
    assert_eq!(RelativeDname::static_wildcard().to_text(), b"*");
    assert_eq!(
        RelativeDname::from_slice(b"\x03www\x07example\x03com")
            .unwrap()
            .to_text(),
        b"www.example.com"
    );
    assert_eq!(
        RelativeDname::from_slice(b"\x03w.w\x01\x07")
            .unwrap()
            .to_text(),
        b"w\\.w.\\007"
    );
    assert_eq!(wecr().to_text(), b"www.example.com.");
    let root: Dname<&'static [u8]> = Dname::root();
    assert_eq!(root.to_text(), b"");
    assert_eq!(
        RelativeDname::from_slice(b"\x03www")
            .unwrap()
            .chain(wecr())
            .unwrap()
            .to_text(),
        b"www.www.example.com."
    );
}

#[test]
fn names_of_fixed_length_from_parser() {
    let data: &[u8] = b"\x03www\x07example\x03com\0";
    let mut parser = Parser::from_octets(data);
    let name = <RelativeDname<&[u8]> as ParseAll<&[u8]>>::parse_all(&mut parser, 4).unwrap();
    assert_eq!(name.as_slice(), b"\x03www");
    assert_eq!(parser.pos(), 4);
    let name = <Dname<&[u8]> as ParseAll<&[u8]>>::parse_all(&mut parser, 13).unwrap();
    assert_eq!(name.as_slice(), b"\x07example\x03com\0");
    parser.seek(0).unwrap();
    assert_eq!(
        <RelativeDname<&[u8]> as ParseAll<&[u8]>>::parse_all(&mut parser, 17),
        Err(domain_core::relative::RelativeDnameError::AbsoluteName)
    );
    parser.seek(0).unwrap();
    assert_eq!(
        <RelativeDname<&[u8]> as ParseAll<&[u8]>>::parse_all(&mut parser, 18),
        Err(domain_core::relative::RelativeDnameError::ShortData)
    );
    parser.seek(0).unwrap();
    assert_eq!(
        <Dname<&[u8]> as ParseAll<&[u8]>>::parse_all(&mut parser, 16),
        Err(DnameError::RelativeName)
    );
    assert_eq!(
        <Dname<&[u8]> as ParseAll<&[u8]>>::parse_all(&mut parser, 18),
        Err(DnameError::ShortData)
    );
    let name = RelativeDname::from_slice(b"\x03www").unwrap();
    assert_eq!(name.to_name().as_slice(), b"\x03www");
    assert_eq!(name.as_flat_slice(), Some(&b"\x03www"[..]));
    assert_eq!(wecr().to_name().as_slice(), wecr().as_slice());
    assert_eq!(wecr().as_flat_slice(), Some(wecr().as_slice()));
}
