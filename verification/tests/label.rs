use domain_core::compose::Compose;
use domain_core::label::{
    fold_octet, Label, LabelTypeError, LongLabelError, Order, SplitLabelError,
};
use std::cmp::Ordering;

#[test]
fn split_from_takes_one_label() {
    let (label, rest) = Label::split_from(b"\x03www\x07example").unwrap();
    assert_eq!(label.as_slice(), b"www");
    assert_eq!(rest, b"\x07example");
    assert_eq!(label.len(), 3);
    assert!(!label.is_root());
    assert!(!label.is_empty());
    assert_eq!(label.compose_len(), 4);
}

#[test]
fn split_from_takes_the_root_label() {
    let (label, rest) = Label::split_from(b"\0rest").unwrap();
    assert!(label.is_root());
    assert!(label.is_empty());
    assert_eq!(label.as_slice(), b"");
    assert_eq!(rest, b"rest");
}

#[test]
fn split_from_empty_is_short() {
    assert_eq!(
        Label::split_from(b"").map(|_| ()),
        Err(SplitLabelError::ShortBuf)
    );
}

#[test]
fn split_from_short_payload_is_short() {
    assert_eq!(
        Label::split_from(b"\x04abc").map(|_| ()),
        Err(SplitLabelError::ShortBuf)
    );
}

#[test]
fn split_from_kinds_of_first_octet() {
    assert_eq!(
        Label::split_from(b"\x40").map(|_| ()),
        Err(SplitLabelError::BadType(LabelTypeError::Extended(0x40)))
    );
    assert_eq!(
        Label::split_from(b"\x7fabc").map(|_| ()),
        Err(SplitLabelError::BadType(LabelTypeError::Extended(0x7f)))
    );
    assert_eq!(
        Label::split_from(b"\x80abc").map(|_| ()),
        Err(SplitLabelError::BadType(LabelTypeError::Undefined))
    );
    assert_eq!(
        Label::split_from(b"\xbfabc").map(|_| ()),
        Err(SplitLabelError::BadType(LabelTypeError::Undefined))
    );
    assert_eq!(
        Label::split_from(b"\xc0\x0c").map(|_| ()),
        Err(SplitLabelError::Pointer(0xc0))
    );
    assert_eq!(
        Label::split_from(b"\xff").map(|_| ()),
        Err(SplitLabelError::Pointer(0xff))
    );
}

#[test]
fn split_from_longest_label() {
    let mut buf = vec![b'a'; 64];
    buf[0] = 63;
    let (label, rest) = Label::split_from(&buf).unwrap();
    assert_eq!(label.len(), 63);
    assert_eq!(rest.len(), 0);
}

#[test]
fn from_slice_limits() {
    let long = [b'x'; 64];
    assert_eq!(Label::from_slice(&long[..63]).unwrap().len(), 63);
    assert_eq!(Label::from_slice(&long[..]).map(|_| ()), Err(LongLabelError));
    assert!(Label::from_slice(b"").unwrap().is_root());
}

#[test]
fn root_and_wildcard_labels() {
    assert_eq!(Label::root().as_slice(), b"");
    assert!(Label::root().is_root());
    assert_eq!(Label::wildcard().as_slice(), b"*");
    assert!(Label::wildcard().is_wildcard());
    assert!(!Label::from_slice(b"**").unwrap().is_wildcard());
    assert!(!Label::from_slice(b"a").unwrap().is_wildcard());
}

#[test]
fn fold_octet_values() {
    assert_eq!(fold_octet(b'A'), b'a');
    assert_eq!(fold_octet(b'Z'), b'z');
    assert_eq!(fold_octet(b'a'), b'a');
    assert_eq!(fold_octet(b'@'), b'@');
    assert_eq!(fold_octet(b'['), b'[');
    assert_eq!(fold_octet(0), 0);
    assert_eq!(fold_octet(0xc8), 0xc8);
}

#[test]
fn label_equality_ignores_case() {
    let a = Label::from_slice(b"Example").unwrap();
    let b = Label::from_slice(b"eXAMPLE").unwrap();
    let c = Label::from_slice(b"examples").unwrap();
    let d = Label::from_slice(b"exbmple").unwrap();
    assert!(a.same(&b));
    assert_eq!(a, b);
    assert!(!a.same(&c));
    assert_ne!(a, c);
    assert_ne!(a, d);
    // The wildcard label is a label like any other.
    assert_ne!(Label::wildcard(), Label::from_slice(b"a").unwrap());
    assert_eq!(Label::wildcard(), Label::from_slice(b"*").unwrap());
}

#[test]
fn label_order_values() {
    let l = |s: &'static [u8]| Label::from_slice(s).unwrap();
    assert_eq!(l(b"a").order(&l(b"A")), Order::Equal);
    assert_eq!(l(b"a").order(&l(b"b")), Order::Less);
    assert_eq!(l(b"b").order(&l(b"A")), Order::Greater);
    // A label sorts before each longer label that starts with it.
    assert_eq!(l(b"z").order(&l(b"zABC")), Order::Less);
    assert_eq!(l(b"zabc").order(&l(b"Z")), Order::Greater);
    // The first octet that differs decides, whatever the lengths.
    assert_eq!(l(b"yljkjljk").order(&l(b"Z")), Order::Less);
    assert_eq!(l(b"").order(&l(b"")), Order::Equal);
    assert_eq!(l(b"").order(&l(b"\x00")), Order::Less);
    assert_eq!(l(b"\x01").order(&l(b"*")), Order::Less);
    assert_eq!(l(b"*").order(&l(b"\xc8")), Order::Less);
}

#[test]
fn label_text() {
    let text = |s: &'static [u8]| {
        let mut out = vec![b'>'];
        Label::from_slice(s).unwrap().append_text(&mut out);
        out
    };
    assert_eq!(text(b"www"), b">www");
    assert_eq!(text(b""), b">");
    assert_eq!(text(b"a b"), b">a\\ b");
    assert_eq!(text(b"a.b"), b">a\\.b");
    assert_eq!(text(b"a\\b"), b">a\\\\b");
    assert_eq!(text(b"\x00\x1f\x7f\xc8\xff"), b">\\000\\031\\127\\200\\255");
    assert_eq!(text(b"!~*"), b">!~*");
}

#[test]
fn label_order_in_std_terms() {
    let l = |s: &'static [u8]| Label::from_slice(s).unwrap();
    assert_eq!(l(b"a").cmp(&l(b"A")), Ordering::Equal);
    assert_eq!(l(b"a").cmp(&l(b"b")), Ordering::Less);
    assert_eq!(l(b"zabc").cmp(&l(b"z")), Ordering::Greater);
    assert_eq!(l(b"a").partial_cmp(&l(b"b")), Some(Ordering::Less));
    assert!(l(b"a") < l(b"B"));
    assert!(l(b"a") <= l(b"A"));
    assert!(l(b"b") > l(b"A"));
}

#[test]
fn label_compose() {
    let mut out = vec![7u8];
    Label::from_slice(b"www").unwrap().compose(&mut out);
    Label::root().compose(&mut out);
    assert_eq!(out, b"\x07\x03www\x00");
    assert_eq!(Label::root().compose_len(), 1);
    let long = [b'x'; 63];
    let mut out = Vec::new();
    Label::from_slice(&long).unwrap().compose(&mut out);
    assert_eq!(out.len(), 64);
    assert_eq!(out[0], 63);
}
