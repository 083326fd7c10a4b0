use bytes::Bytes;
use std::cmp::Ordering;
use std::collections::hash_map::DefaultHasher;
use std::hash::Hasher;
use domain_core::dname::Dname;
use domain_core::label::LabelTypeError;
use domain_core::parse::ShortBuf;
use domain_core::relative::{DnameIter, RelativeDname, RelativeDnameError, StripSuffixError};

fn wec() -> RelativeDname<&'static [u8]> {
    RelativeDname::from_slice(b"\x03www\x07example\x03com").unwrap()
}

fn is_range(name: &RelativeDname<&'static [u8]>, start: usize, end: usize) -> bool {
    start <= end && name.is_label_start(start) && name.is_label_start(end)
}

fn cmp_iter(mut iter: DnameIter, labels: &[&[u8]]) {
    let mut labels = labels.iter();
    loop {
        match (iter.next(), labels.next()) {
            (Some(left), Some(right)) => assert_eq!(left.as_slice(), *right),
            (None, None) => break,
            (_, None) => panic!("extra items in iterator"),
            (None, _) => panic!("missing items in iterator"),
        }
    }
}

fn cmp_iter_back(mut iter: DnameIter, labels: &[&[u8]]) {
    let mut labels = labels.iter();
    loop {
        match (iter.next_back(), labels.next()) {
            (Some(left), Some(right)) => assert_eq!(left.as_slice(), *right),
            (None, None) => break,
            (_, None) => panic!("extra items in iterator"),
            (None, _) => panic!("missing items in iterator"),
        }
    }
}

#[test]
fn empty() {
    assert_eq!(RelativeDname::static_empty().as_slice(), b"");
}

#[test]
fn wildcard() {
    assert_eq!(RelativeDname::static_wildcard().as_slice(), b"\x01*");
}

#[test]
fn from_slice() {
    // good names
    assert_eq!(RelativeDname::from_slice(b"").unwrap().as_slice(), b"");
    assert_eq!(
        RelativeDname::from_slice(b"\x03www").unwrap().as_slice(),
        b"\x03www"
    );
    assert_eq!(
        RelativeDname::from_slice(b"\x03www\x07example")
            .unwrap()
            .as_slice(),
        b"\x03www\x07example"
    );

    // absolute names
    assert_eq!(
        RelativeDname::from_slice(b"\x03www\x07example\x03com\0"),
        Err(RelativeDnameError::AbsoluteName)
    );
    assert_eq!(
        RelativeDname::from_slice(b"\0"),
        Err(RelativeDnameError::AbsoluteName)
    );

    // bytes shorter than what label length says.
    assert_eq!(Dname::from_slice(b"\x03www\x07exa"), Err(ShortBuf.into()));

    // label 63 long ok, 64 bad.
    let mut slice = [0u8; 64];
    slice[0] = 63;
    assert!(RelativeDname::from_slice(&slice[..]).is_ok());
    let mut slice = [0u8; 65];
    slice[0] = 64;
    assert!(RelativeDname::from_slice(&slice[..]).is_err());

    // name 254 long ok, 255 bad.
    let mut buf = Vec::new();
    for _ in 0..25 {
        buf.extend_from_slice(b"\x09123456789");
    }
    assert_eq!(buf.len(), 250);
    let mut tmp = buf.clone();
    tmp.extend_from_slice(b"\x03123");
    assert_eq!(RelativeDname::from_slice(&tmp).map(|_| ()), Ok(()));
    buf.extend_from_slice(b"\x041234");
    assert!(RelativeDname::from_slice(&buf).is_err());

    // bad label heads: compressed, other types.
    assert_eq!(
        RelativeDname::from_slice(b"\xa2asdasds"),
        Err(LabelTypeError::Undefined.into())
    );
    assert_eq!(
        RelativeDname::from_slice(b"\x62asdasds"),
        Err(LabelTypeError::Extended(0x62).into())
    );
    assert_eq!(
        RelativeDname::from_slice(b"\xccasdasds"),
        Err(RelativeDnameError::CompressedName.into())
    );
}

#[test]
fn into_absolute() {
    assert_eq!(
        RelativeDname::from_bytes(Bytes::from_static(b"\x03www\x07example\x03com"))
            .unwrap()
            .into_absolute()
            .as_slice(),
        b"\x03www\x07example\x03com\0"
    );
}

#[test]
fn chain_root() {
    assert_eq!(
        Dname::from_slice(b"\x03www\x07example\x03com\0").unwrap(),
        RelativeDname::from_slice(b"\x03www\x07example\x03com")
            .unwrap()
            .chain_root()
    );
}

#[test]
fn iter() {
    cmp_iter(RelativeDname::static_empty().iter(), &[]);
    cmp_iter(RelativeDname::static_wildcard().iter(), &[b"*"]);
    cmp_iter(
        RelativeDname::from_slice(b"\x03www\x07example\x03com")
            .unwrap()
            .iter(),
        &[b"www", b"example", b"com"],
    );
}

#[test]
fn iter_back() {
    cmp_iter_back(RelativeDname::static_empty().iter(), &[]);
    cmp_iter_back(RelativeDname::static_wildcard().iter(), &[b"*"]);
    cmp_iter_back(
        RelativeDname::from_slice(b"\x03www\x07example\x03com")
            .unwrap()
            .iter(),
        &[b"com", b"example", b"www"],
    );
}

#[test]
fn label_count() {
    assert_eq!(RelativeDname::static_empty().label_count(), 0);
    assert_eq!(RelativeDname::static_wildcard().label_count(), 1);
    assert_eq!(
        RelativeDname::from_slice(b"\x03www\x07example\x03com")
            .unwrap()
            .label_count(),
        3
    );
}

#[test]
fn first() {
    assert_eq!(RelativeDname::static_empty().first(), None);
    assert_eq!(
        RelativeDname::from_slice(b"\x03www")
            .unwrap()
            .first()
            .unwrap()
            .as_slice(),
        b"www"
    );
    assert_eq!(
        RelativeDname::from_slice(b"\x03www\x07example")
            .unwrap()
            .first()
            .unwrap()
            .as_slice(),
        b"www"
    );
}

#[test]
fn last() {
    assert_eq!(RelativeDname::static_empty().last(), None);
    assert_eq!(
        RelativeDname::from_slice(b"\x03www")
            .unwrap()
            .last()
            .unwrap()
            .as_slice(),
        b"www"
    );
    assert_eq!(
        RelativeDname::from_slice(b"\x03www\x07example")
            .unwrap()
            .last()
            .unwrap()
            .as_slice(),
        b"example"
    );
}

#[test]
fn ndots() {
    assert_eq!(RelativeDname::static_empty().ndots(), 0);
    assert_eq!(RelativeDname::from_slice(b"\x03www").unwrap().ndots(), 0);
    assert_eq!(
        RelativeDname::from_slice(b"\x03www\x07example")
            .unwrap()
            .ndots(),
        1
    );
}

#[test]
fn starts_with() {
    let matrix = [
        (
            RelativeDname::static_empty(),
            [true, false, false, false, false, false],
        ),
        (
            RelativeDname::from_slice(b"\x03www").unwrap(),
            [true, true, false, false, false, false],
        ),
        (
            RelativeDname::from_slice(b"\x03www\x07example").unwrap(),
            [true, true, true, false, false, false],
        ),
        (
            RelativeDname::from_slice(b"\x03www\x07example\x03com").unwrap(),
            [true, true, true, true, false, false],
        ),
        (
            RelativeDname::from_slice(b"\x07example\x03com").unwrap(),
            [true, false, false, false, true, false],
        ),
        (
            RelativeDname::from_slice(b"\x03com").unwrap(),
            [true, false, false, false, false, true],
        ),
    ];
    for i in 0..6 {
        for j in 0..6 {
            assert_eq!(
                matrix[i].0.starts_with(&matrix[j].0),
                matrix[i].1[j],
                "i={}, j={}",
                i,
                j
            )
        }
    }
}

#[test]
fn ends_with() {
    let matrix = [
        (
            RelativeDname::static_empty(),
            [true, false, false, false, false, false],
        ),
        (
            RelativeDname::from_slice(b"\x03www").unwrap(),
            [true, true, false, false, false, false],
        ),
        (
            RelativeDname::from_slice(b"\x03www\x07example").unwrap(),
            [true, false, true, false, false, false],
        ),
        (
            RelativeDname::from_slice(b"\x03www\x07example\x03com").unwrap(),
            [true, false, false, true, true, true],
        ),
        (
            RelativeDname::from_slice(b"\x07example\x03com").unwrap(),
            [true, false, false, false, true, true],
        ),
        (
            RelativeDname::from_slice(b"\x03com").unwrap(),
            [true, false, false, false, false, true],
        ),
    ];
    for i in 0..matrix.len() {
        for j in 0..matrix.len() {
            assert_eq!(
                matrix[i].0.ends_with(&matrix[j].0),
                matrix[i].1[j],
                "i={}, j={}",
                i,
                j
            )
        }
    }
}

#[test]
fn is_label_start() {
    let wec = wec();

    assert!(wec.is_label_start(0)); // \x03
    assert!(!wec.is_label_start(1)); // w
    assert!(!wec.is_label_start(2)); // w
    assert!(!wec.is_label_start(3)); // w
    assert!(wec.is_label_start(4)); // \x07
    assert!(!wec.is_label_start(5)); // e
    assert!(!wec.is_label_start(6)); // x
    assert!(!wec.is_label_start(7)); // a
    assert!(!wec.is_label_start(8)); // m
    assert!(!wec.is_label_start(9)); // p
    assert!(!wec.is_label_start(10)); // l
    assert!(!wec.is_label_start(11)); // e
    assert!(wec.is_label_start(12)); // \x03
    assert!(!wec.is_label_start(13)); // c
    assert!(!wec.is_label_start(14)); // o
    assert!(!wec.is_label_start(15)); // m
    assert!(wec.is_label_start(16)); // empty label
    assert!(!wec.is_label_start(17)); //
}

#[test]
fn range() {
    let wec = wec();
    assert_eq!(wec.range(0, 4).as_slice(), b"\x03www");
    assert_eq!(wec.range(0, 12).as_slice(), b"\x03www\x07example");
    assert_eq!(wec.range(4, 12).as_slice(), b"\x07example");
    assert_eq!(wec.range(4, 16).as_slice(), b"\x07example\x03com");

    // These offsets are refused: no call may be made with them.
    assert!(!is_range(&wec, 0, 3));
    assert!(!is_range(&wec, 1, 4));
    assert!(!is_range(&wec, 0, 11));
    assert!(!is_range(&wec, 1, 12));
    assert!(!is_range(&wec, 0, 17));
    assert!(!is_range(&wec, 4, 17));
    assert!(!is_range(&wec, 0, 18));
}

#[test]
fn range_from() {
    let wec = wec();

    assert_eq!(
        wec.range_from(0).as_slice(),
        b"\x03www\x07example\x03com"
    );
    assert_eq!(wec.range_from(4).as_slice(), b"\x07example\x03com");
    assert_eq!(wec.range_from(12).as_slice(), b"\x03com");
    assert_eq!(wec.range_from(16).as_slice(), b"");

    assert!(!wec.is_label_start(17));
    assert!(!wec.is_label_start(18));
}

#[test]
fn range_to() {
    let wec = wec();

    assert_eq!(wec.range_to(0).as_slice(), b"");
    assert_eq!(wec.range_to(4).as_slice(), b"\x03www");
    assert_eq!(wec.range_to(12).as_slice(), b"\x03www\x07example");
    assert_eq!(wec.range_to(16).as_slice(), b"\x03www\x07example\x03com");

    assert!(!wec.is_label_start(17));
    assert!(!wec.is_label_start(18));
}

#[test]
fn split_off() {
    let wec = wec();

    let mut tmp = wec.clone();
    assert_eq!(tmp.split_off(0).as_slice(), b"\x03www\x07example\x03com");
    assert_eq!(tmp.as_slice(), b"");

    let mut tmp = wec.clone();
    assert_eq!(tmp.split_off(4).as_slice(), b"\x07example\x03com");
    assert_eq!(tmp.as_slice(), b"\x03www");

    let mut tmp = wec.clone();
    assert_eq!(tmp.split_off(12).as_slice(), b"\x03com");
    assert_eq!(tmp.as_slice(), b"\x03www\x07example");

    let mut tmp = wec.clone();
    assert_eq!(tmp.split_off(16).as_slice(), b"");
    assert_eq!(tmp.as_slice(), b"\x03www\x07example\x03com");

    assert!(!wec.clone().is_label_start(1));
    assert!(!wec.clone().is_label_start(14));
    assert!(!wec.clone().is_label_start(17));
    assert!(!wec.clone().is_label_start(18));
}

#[test]
fn split_to() {
    let wec = wec();

    let mut tmp = wec.clone();
    assert_eq!(tmp.split_to(0).as_slice(), b"");
    assert_eq!(tmp.as_slice(), b"\x03www\x07example\x03com");

    let mut tmp = wec.clone();
    assert_eq!(tmp.split_to(4).as_slice(), b"\x03www");
    assert_eq!(tmp.as_slice(), b"\x07example\x03com");

    let mut tmp = wec.clone();
    assert_eq!(tmp.split_to(12).as_slice(), b"\x03www\x07example");
    assert_eq!(tmp.as_slice(), b"\x03com");

    let mut tmp = wec.clone();
    assert_eq!(tmp.split_to(16).as_slice(), b"\x03www\x07example\x03com");
    assert_eq!(tmp.as_slice(), b"");

    assert!(!wec.clone().is_label_start(1));
    assert!(!wec.clone().is_label_start(14));
    assert!(!wec.clone().is_label_start(17));
    assert!(!wec.clone().is_label_start(18));
}

#[test]
fn truncate() {
    let wec = wec();

    let mut tmp = wec.clone();
    tmp.truncate(0);
    assert_eq!(tmp.as_slice(), b"");

    let mut tmp = wec.clone();
    tmp.truncate(4);
    assert_eq!(tmp.as_slice(), b"\x03www");

    let mut tmp = wec.clone();
    tmp.truncate(12);
    assert_eq!(tmp.as_slice(), b"\x03www\x07example");

    let mut tmp = wec.clone();
    tmp.truncate(16);
    assert_eq!(tmp.as_slice(), b"\x03www\x07example\x03com");

    assert!(!wec.clone().is_label_start(1));
    assert!(!wec.clone().is_label_start(14));
    assert!(!wec.clone().is_label_start(17));
    assert!(!wec.clone().is_label_start(18));
}

#[test]
fn split_first() {
    let mut wec = wec();

    assert_eq!(wec.split_first().unwrap().as_slice(), b"\x03www");
    assert_eq!(wec.as_slice(), b"\x07example\x03com");
    assert_eq!(wec.split_first().unwrap().as_slice(), b"\x07example");
    assert_eq!(wec.as_slice(), b"\x03com");
    assert_eq!(wec.split_first().unwrap().as_slice(), b"\x03com");
    assert_eq!(wec.as_slice(), b"");
    assert!(wec.split_first().is_none());
    assert_eq!(wec.as_slice(), b"");
    assert!(wec.split_first().is_none());
    assert_eq!(wec.as_slice(), b"");
}

#[test]
fn parent() {
    let mut wec = wec();

    assert!(wec.parent());
    assert_eq!(wec.as_slice(), b"\x07example\x03com");
    assert!(wec.parent());
    assert_eq!(wec.as_slice(), b"\x03com");
    assert!(wec.parent());
    assert_eq!(wec.as_slice(), b"");
    assert!(!wec.parent());
    assert_eq!(wec.as_slice(), b"");
    assert!(!wec.parent());
    assert_eq!(wec.as_slice(), b"");
}

#[test]
fn strip_suffix() {
    let wec = wec();
    let ec = RelativeDname::from_slice(b"\x07example\x03com").unwrap();
    let c = RelativeDname::from_slice(b"\x03com").unwrap();
    let wen = RelativeDname::from_slice(b"\x03www\x07example\x03net").unwrap();
    let en = RelativeDname::from_slice(b"\x07example\x03net").unwrap();
    let n = RelativeDname::from_slice(b"\x03net").unwrap();

    let mut tmp = wec.clone();
    assert_eq!(tmp.strip_suffix(&wec), Ok(()));
    assert_eq!(tmp.as_slice(), b"");

    let mut tmp = wec.clone();
    assert_eq!(tmp.strip_suffix(&ec), Ok(()));
    assert_eq!(tmp.as_slice(), b"\x03www");

    let mut tmp = wec.clone();
    assert_eq!(tmp.strip_suffix(&c), Ok(()));
    assert_eq!(tmp.as_slice(), b"\x03www\x07example");

    let mut tmp = wec.clone();
    assert_eq!(tmp.strip_suffix(&RelativeDname::static_empty()), Ok(()));
    assert_eq!(tmp.as_slice(), b"\x03www\x07example\x03com");

    assert_eq!(wec.clone().strip_suffix(&wen), Err(StripSuffixError));
    assert_eq!(wec.clone().strip_suffix(&en), Err(StripSuffixError));
    assert_eq!(wec.clone().strip_suffix(&n), Err(StripSuffixError));
}

#[test]
fn eq() {
    assert_eq!(
        RelativeDname::from_slice(b"\x03www\x07example\x03com").unwrap(),
        RelativeDname::from_slice(b"\x03www\x07example\x03com").unwrap()
    );
    assert_eq!(
        RelativeDname::from_slice(b"\x03www\x07example\x03com").unwrap(),
        RelativeDname::from_slice(b"\x03wWw\x07eXAMple\x03Com").unwrap()
    );
    assert_eq!(
        RelativeDname::from_slice(b"\x03www\x07example\x03com").unwrap(),
        RelativeDname::from_slice(b"\x03www")
            .unwrap()
            .chain(RelativeDname::from_slice(b"\x07example\x03com").unwrap())
            .unwrap()
    );
    assert_eq!(
        RelativeDname::from_slice(b"\x03www\x07example\x03com").unwrap(),
        RelativeDname::from_slice(b"\x03wWw")
            .unwrap()
            .chain(RelativeDname::from_slice(b"\x07eXAMple\x03coM").unwrap())
            .unwrap()
    );

    assert_ne!(
        RelativeDname::from_slice(b"\x03www\x07example\x03com").unwrap(),
        RelativeDname::from_slice(b"\x03ww4\x07example\x03com").unwrap()
    );
    assert_ne!(
        RelativeDname::from_slice(b"\x03www\x07example\x03com").unwrap(),
        RelativeDname::from_slice(b"\x03www")
            .unwrap()
            .chain(RelativeDname::from_slice(b"\x073xample\x03com").unwrap())
            .unwrap()
    );
}

#[test]
fn cmp() {
    // The following is taken from section 6.1 of RFC 4034.
    let names = [
        RelativeDname::from_slice(b"\x07example").unwrap(),
        RelativeDname::from_slice(b"\x01a\x07example").unwrap(),
        RelativeDname::from_slice(b"\x08yljkjljk\x01a\x07example").unwrap(),
        RelativeDname::from_slice(b"\x01Z\x01a\x07example").unwrap(),
        RelativeDname::from_slice(b"\x04zABC\x01a\x07example").unwrap(),
        RelativeDname::from_slice(b"\x01z\x07example").unwrap(),
        RelativeDname::from_slice(b"\x01\x01\x01z\x07example").unwrap(),
        RelativeDname::from_slice(b"\x01*\x01z\x07example").unwrap(),
        RelativeDname::from_slice(b"\x01\xc8\x01z\x07example").unwrap(),
    ];
    for i in 0..names.len() {
        for j in 0..names.len() {
            let ord = if i < j {
                Ordering::Less
            } else if i == j {
                Ordering::Equal
            } else {
                Ordering::Greater
            };
            assert_eq!(names[i].partial_cmp(&names[j]), Some(ord));
            assert_eq!(names[i].cmp(&names[j]), ord);
        }
    }

    let n1 = RelativeDname::from_slice(b"\x03www\x07example\x03com").unwrap();
    let n2 = RelativeDname::from_slice(b"\x03wWw\x07eXAMple\x03Com").unwrap();
    assert_eq!(n1.partial_cmp(&n2), Some(Ordering::Equal));
    assert_eq!(n1.cmp(&n2), Ordering::Equal);
}

#[test]
fn hash() {
    let mut s1 = DefaultHasher::new();
    let mut s2 = DefaultHasher::new();
    RelativeDname::from_slice(b"\x03www\x07example\x03com")
        .unwrap()
        .hash(&mut s1);
    RelativeDname::from_slice(b"\x03wWw\x07eXAMple\x03Com")
        .unwrap()
        .hash(&mut s2);
    assert_eq!(s1.finish(), s2.finish());
}
