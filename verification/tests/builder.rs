use bytes::{Bytes, BytesMut};
use domain_core::builder::{DnameBuilder, PushError, PushNameError};
use domain_core::compose::{compose_u16, compose_u8, Compose, ComposeTarget};
use domain_core::dname::Dname;
use domain_core::octets::Octets;
use domain_core::relative::RelativeDname;

#[test]
fn builder_starts_empty() {
    let builder = DnameBuilder::new();
    assert!(builder.is_empty());
    assert_eq!(builder.len(), 0);
    assert_eq!(builder.as_slice(), b"");
    assert_eq!(builder.finish().as_slice(), b"");
    assert_eq!(DnameBuilder::new().into_dname().unwrap().as_slice(), b"\0");
}

#[test]
fn builder_appends_labels() {
    let mut builder = DnameBuilder::new();
    assert_eq!(builder.append_label(b"www"), Ok(()));
    assert_eq!(builder.as_slice(), b"\x03www");
    assert_eq!(builder.append_label(b"example"), Ok(()));
    assert_eq!(builder.append_label(b""), Ok(()));
    assert_eq!(builder.append_label(b"com"), Ok(()));
    assert_eq!(builder.len(), 16);
    assert!(!builder.is_empty());
    assert_eq!(builder.finish().as_slice(), b"\x03www\x07example\x03com");
}

#[test]
fn builder_refuses_long_label() {
    let mut builder = DnameBuilder::new();
    let label = [b'a'; 64];
    assert_eq!(builder.append_label(&label[..63]), Ok(()));
    assert_eq!(builder.len(), 64);
    assert_eq!(builder.append_label(&label[..]), Err(PushError::LongLabel));
    assert_eq!(builder.len(), 64);
}

#[test]
fn builder_refuses_long_name() {
    let mut builder = DnameBuilder::new();
    for _ in 0..25 {
        assert_eq!(builder.append_label(b"123456789"), Ok(()));
    }
    assert_eq!(builder.len(), 250);
    assert_eq!(builder.append_label(b"1234"), Err(PushError::LongName));
    assert_eq!(builder.len(), 250);
    assert_eq!(builder.append_label(b"123"), Ok(()));
    assert_eq!(builder.len(), 254);
    assert_eq!(builder.append_label(b"1"), Err(PushError::LongName));
    let name = builder.into_dname().unwrap();
    assert_eq!(name.len(), 255);
    assert_eq!(name.as_slice()[254], 0);
}

#[test]
fn builder_appends_names() {
    let www = RelativeDname::from_slice(b"\x03www").unwrap();
    let ec = RelativeDname::from_slice(b"\x07example\x03com").unwrap();
    let mut builder = DnameBuilder::new();
    assert_eq!(builder.append_name(&www), Ok(()));
    assert_eq!(builder.append_name(&RelativeDname::static_empty()), Ok(()));
    assert_eq!(builder.append_name(&ec.clone().chain(www.clone()).unwrap()), Ok(()));
    assert_eq!(builder.as_slice(), b"\x03www\x07example\x03com\x03www");

    let mut long = Vec::new();
    for _ in 0..24 {
        long.extend_from_slice(b"\x09123456789");
    }
    let long = RelativeDname::from_slice(&long).unwrap();
    assert_eq!(builder.append_name(&long), Err(PushNameError));
    assert_eq!(builder.as_slice(), b"\x03www\x07example\x03com\x03www");
}

#[test]
fn builder_appends_origin() {
    let origin = Dname::from_slice(b"\x07example\x03com\0").unwrap();
    let mut builder = DnameBuilder::new();
    builder.append_label(b"www").unwrap();
    let name = builder.append_origin(&origin).unwrap();
    assert_eq!(name.as_slice(), b"\x03www\x07example\x03com\0");

    let mut builder = DnameBuilder::new();
    for _ in 0..25 {
        builder.append_label(b"123456789").unwrap();
    }
    assert_eq!(
        builder.append_origin(&origin).map(|_| ()),
        Err(PushNameError)
    );
    let mut builder = DnameBuilder::new();
    for _ in 0..25 {
        builder.append_label(b"123456789").unwrap();
    }
    builder.append_label(b"123").unwrap();
    let root: Dname<&'static [u8]> = Dname::root();
    assert_eq!(builder.append_origin(&root).unwrap().len(), 255);
}

#[test]
fn into_builder_goes_on_from_the_name() {
    let name = RelativeDname::from_bytes(Bytes::from(&b"\x03www\x07example"[..])).unwrap();
    let mut builder = name.into_builder();
    assert_eq!(builder.as_slice(), b"\x03www\x07example");
    builder.append_label(b"com").unwrap();
    assert_eq!(builder.finish().as_slice(), b"\x03www\x07example\x03com");
}

#[test]
fn into_builder_leaves_shared_octets_alone() {
    // Long enough that the buffer is shared by reference counting.
    let mut octets = Vec::new();
    for _ in 0..8 {
        octets.extend_from_slice(b"\x09123456789");
    }
    let name = RelativeDname::from_bytes(Bytes::from(octets.clone())).unwrap();
    let kept = name.clone();
    let part = name.range_to(10);
    let mut builder = name.into_builder();
    builder.append_label(b"com").unwrap();
    let built = builder.finish();
    assert_eq!(built.len(), 84);
    assert_eq!(&built.as_slice()[..80], &octets[..]);
    assert_eq!(&built.as_slice()[80..], b"\x03com");
    assert_eq!(kept.as_slice(), &octets[..]);
    assert_eq!(part.as_slice(), b"\x09123456789");
}

#[test]
fn into_builder_with_static_octets() {
    let name = RelativeDname::from_bytes(Bytes::from_static(b"\x03www")).unwrap();
    let mut builder = name.into_builder();
    builder.append_label(b"com").unwrap();
    assert_eq!(builder.finish().as_slice(), b"\x03www\x03com");
}

#[test]
fn bytes_backed_names_slice_like_borrowed_ones() {
    let name = RelativeDname::from_bytes(Bytes::from_static(b"\x03www\x07example\x03com")).unwrap();
    assert_eq!(name.len(), 16);
    assert_eq!(name.range(4, 12).as_slice(), b"\x07example");
    assert_eq!(name.range_from(12).as_slice(), b"\x03com");
    assert_eq!(name.range_to(4).as_slice(), b"\x03www");
    assert_eq!(name.slice(4, 16).as_slice(), b"\x07example\x03com");
    assert_eq!(name.slice_from(4).as_slice(), b"\x07example\x03com");
    assert_eq!(name.slice_to(12).as_slice(), b"\x03www\x07example");
    let (left, right) = name.clone().split_at(4);
    assert_eq!(left.as_slice(), b"\x03www");
    assert_eq!(right.as_slice(), b"\x07example\x03com");
    assert_eq!(name.as_bytes().as_ref(), b"\x03www\x07example\x03com");
    assert_eq!(name.as_octets().len(), 16);
    assert_eq!(name.clone().unwrap().as_ref(), b"\x03www\x07example\x03com");
    assert_eq!(name.into_bytes().as_ref(), b"\x03www\x07example\x03com");
}

#[test]
fn octets_of_both_kinds() {
    let bytes = Bytes::from_static(b"hello world");
    assert_eq!(Octets::len(&bytes), 11);
    assert_eq!(Octets::as_slice(&bytes), b"hello world");
    assert_eq!(bytes.range(2, 5).as_ref(), b"llo");
    assert_eq!(bytes.range_from(6).as_ref(), b"world");
    assert_eq!(bytes.range_to(5).as_ref(), b"hello");
    assert_eq!(bytes.to_bytes().as_ref(), b"hello world");
    assert_eq!(bytes.duplicate().as_ref(), b"hello world");
    assert_eq!(<Bytes as Octets>::from_static(b"abc").as_ref(), b"abc");

    let slice: &[u8] = b"hello world";
    assert_eq!(Octets::len(&slice), 11);
    assert_eq!(slice.range(2, 5), b"llo");
    assert_eq!(slice.range_from(6), b"world");
    assert_eq!(slice.range_to(5), b"hello");
    assert_eq!(slice.to_bytes().as_ref(), b"hello world");
    assert_eq!(slice.duplicate(), b"hello world");
    assert_eq!(<&[u8] as Octets>::from_static(b"abc"), b"abc");
}

#[test]
fn compose_targets() {
    let mut vec: Vec<u8> = vec![1];
    vec.append_slice(b"ab");
    compose_u8(&mut vec, 7);
    compose_u16(&mut vec, 0x1234);
    0xabcdu16.compose(&mut vec);
    9u8.compose(&mut vec);
    assert_eq!(vec, [1, b'a', b'b', 7, 0x12, 0x34, 0xab, 0xcd, 9]);

    let mut buf = BytesMut::new();
    buf.append_slice(b"ab");
    compose_u16(&mut buf, 0x0102);
    RelativeDname::from_slice(b"\x03www")
        .unwrap()
        .compose(&mut buf);
    assert_eq!(buf.as_ref(), b"ab\x01\x02\x03www");
    assert_eq!(0u16.compose_len(), 2);
    assert_eq!(0u8.compose_len(), 1);
}

#[test]
fn compose_gives_back_what_was_parsed() {
    let inputs: [&[u8]; 4] = [
        b"",
        b"\x01*",
        b"\x03www\x07example\x03com",
        b"\x03wWw\x07eXAMple\x03Com",
    ];
    for input in inputs.iter() {
        let name = RelativeDname::from_slice(input).unwrap();
        let mut out = Vec::new();
        name.compose(&mut out);
        assert_eq!(&out[..], *input);
        assert_eq!(name.compose_len(), input.len());
    }
}

#[test]
fn into_absolute_is_the_name_with_the_root() {
    let inputs: [&'static [u8]; 3] = [b"", b"\x01*", b"\x03www\x07example\x03com"];
    for input in inputs.iter() {
        let name = RelativeDname::from_bytes(Bytes::from_static(input)).unwrap();
        let mut with_root = input.to_vec();
        with_root.push(0);
        let absolute = name.clone().into_absolute();
        assert_eq!(absolute.len(), input.len() + 1);
        assert_eq!(absolute, Dname::from_slice(&with_root).unwrap());
        assert_eq!(absolute.as_slice(), &with_root[..]);
        let chained = name.chain_root();
        assert_eq!(chained.compose_len(), input.len() + 1);
        assert_eq!(Dname::from_slice(&with_root).unwrap(), chained);
    }
}
