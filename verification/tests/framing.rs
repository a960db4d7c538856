use dnsd::recursor::framing::{announced_len, frame_message, query_len, response_len, MAX_MESSAGE};

fn read(stream: &[u8]) -> Option<Vec<u8>> {
    let len = response_len([stream[0], stream[1]])?;
    Some(stream[2..2 + len].to_vec())
}

#[test]
fn framing_roundtrips() {
    let sent: Vec<u8> = (0..40u8).collect();
    let got = read(&frame_message(&sent).unwrap()).unwrap();
    assert_eq!(got, sent);
}

#[test]
fn read_rejects_short_message() {
    assert!(read(&[0x00, 0x05, 1, 2, 3, 4, 5]).is_none());
}

#[test]
fn write_rejects_oversize_message() {
    let huge = vec![0u8; MAX_MESSAGE + 1];
    assert!(frame_message(&huge).is_none());
    assert_eq!(frame_message(&vec![0u8; MAX_MESSAGE]).unwrap().len(), MAX_MESSAGE + 2);
}

#[test]
fn announced_lengths_are_big_endian() {
    assert_eq!(announced_len([0x01, 0x02]), 258);
    assert_eq!(query_len([0, 0]), None);
    assert_eq!(response_len([0, 11]), None);
    assert_eq!(query_len([0, 12]), Some(12));
    assert_eq!(response_len([0, 12]), Some(12));
}
