use dnsd::name::Name;
use dnsd::recursor::reply::{new_header, new_message, one_query};
use dnsd::recursor::zeroxtwenty::{encode, encode_with, qname_byte_range, verify, EchoError, QnameError};
use dnsd::wire::{CLASS_IN, OPCODE_QUERY, TYPE_A};

fn build_query(name: &str) -> Vec<u8> {
    let name = Name::from_ascii(name).unwrap().0;
    new_message(new_header(0x1234, false, OPCODE_QUERY), one_query(&name, TYPE_A, CLASS_IN))
        .to_bytes()
        .unwrap()
}

#[test]
fn encode_randomises_case_roundtrip() {
    let mut q = build_query("example.com.");
    let sent = encode(&mut q).unwrap();
    assert_eq!(sent.len(), "\x07example\x03com\x00".len());
    let lower: Vec<u8> = sent.iter().map(|b| b.to_ascii_lowercase()).collect();
    assert_eq!(lower, b"\x07example\x03com\x00");
}

#[test]
fn verify_passes_on_byte_exact_echo() {
    let mut q = build_query("example.com.");
    let sent = encode(&mut q).unwrap();
    assert!(verify(&q, &sent).is_ok());
}

#[test]
fn verify_passes_on_case_only_mutation() {
    let mut q = build_query("example.com.");
    let sent = encode(&mut q).unwrap();
    let mut lowered = q.clone();
    let letter_pos = 12 + 1;
    lowered[letter_pos] = lowered[letter_pos].to_ascii_lowercase();
    assert!(verify(&lowered, &sent).is_ok());
}

#[test]
fn verify_detects_label_length_mutation() {
    let mut q = build_query("example.com.");
    let sent = encode(&mut q).unwrap();
    let mut tampered = q.clone();
    tampered[12] = tampered[12].wrapping_add(1);
    assert!(verify(&tampered, &sent).is_err());
}

#[test]
fn verify_detects_non_letter_mutation() {
    let mut q = build_query("ex2mple.com.");
    let sent = encode(&mut q).unwrap();
    let mut tampered = q.clone();
    for b in tampered.iter_mut() {
        if *b == b'2' {
            *b = b'3';
            break;
        }
    }
    assert!(verify(&tampered, &sent).is_err());
}

#[test]
fn encode_on_all_labels() {
    let mut q = build_query("aaaaaaaaaaaaaaaaaa.example.com.");
    let sent = encode(&mut q).unwrap();
    assert_eq!(sent[0], 18);
    assert_eq!(sent[19], 7);
    assert_eq!(sent[27], 3);
}

#[test]
fn random_case_hits_both_cases() {
    let mut upper = false;
    let mut lower = false;
    for _ in 0..20 {
        let mut q = build_query("aaaaaaaaaaaaaaaaaa.example.com.");
        for b in encode(&mut q).unwrap() {
            upper |= b == b'A';
            lower |= b == b'a';
        }
    }
    assert!(upper && lower);
}

#[test]
fn chosen_letters_are_flipped() {
    let mut q = build_query("ab.c.");
    let sent = encode_with(&mut q, &vec![true, true, false, true, true, true]).unwrap();
    assert_eq!(sent.len(), 6);
    assert_eq!(sent, b"\x02Ab\x01C\x00");
    assert_eq!(&q[12..18], &sent[..]);
}

#[test]
fn each_range_error_has_its_bytes() {
    assert_eq!(qname_byte_range(&[0; 11]), Err(QnameError::TooShort));
    let mut q = vec![0u8; 12];
    q.push(0xc0);
    q.push(0x0c);
    assert_eq!(qname_byte_range(&q), Err(QnameError::CompressionPointer));
    let mut q = vec![0u8; 12];
    q.extend_from_slice(b"\x09ab");
    assert_eq!(qname_byte_range(&q), Err(QnameError::LabelOverrun));
    let mut q = vec![0u8; 12];
    q.extend_from_slice(b"\x02ab");
    assert_eq!(qname_byte_range(&q), Err(QnameError::Unterminated));
    q.push(0);
    assert_eq!(qname_byte_range(&q), Ok((12, 16)));
    assert_eq!(verify(&q, b"\x02ab\x01c\x00"), Err(EchoError::LengthMismatch));
    assert_eq!(verify(&q, b"\x02ac\x00"), Err(EchoError::Mismatch));
}
