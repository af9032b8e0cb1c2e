use totpkeep::errors::Error;
use totpkeep::records::{deserialize_records, serialize_records, ServiceRecord};

fn record(name: &str, secret: &[u8]) -> ServiceRecord {
    ServiceRecord { name: name.to_string(), secret: secret.to_vec() }
}

#[test]
fn serialize_exact_bytes() {
    let records = vec![record("a", &[0])];
    assert_eq!(serialize_records(&records), b"a\0AA\n".to_vec());
}

#[test]
fn serialize_two_records_in_order() {
    let records = vec![record("first", b"Hello"), record("second", &[])];
    let bytes = serialize_records(&records);
    assert_eq!(bytes, b"first\0JBSWY3DP\nsecond\0\n".to_vec());
}

#[test]
fn records_round_trip() {
    let records = vec![
        record("plain", b"Hello"),
        record("empty secret", &[]),
        record("with spaces in name", &[0xFF, 0x00, 0x10]),
        record("", &[1, 2, 3, 4, 5, 6, 7, 8, 9, 10]),
        record("caf\u{e9} \u{2764}", b"unicode name"),
    ];
    let bytes = serialize_records(&records);
    let back = deserialize_records(&bytes).unwrap();
    assert_eq!(back, records);
}

#[test]
fn empty_payload_is_no_records() {
    let back = deserialize_records(&[]).unwrap();
    assert_eq!(back, Vec::<ServiceRecord>::new());
}

#[test]
fn line_without_separator_rejected() {
    match deserialize_records(b"no separator here\n") {
        Err(Error::WrongServiceRecordData) => (),
        other => panic!("expected WrongServiceRecordData, got {:?}", other),
    }
}

#[test]
fn invalid_base32_rejected() {
    match deserialize_records(b"name\0NOT-BASE32!\n") {
        Err(Error::WrongServiceRecordData) => (),
        other => panic!("expected WrongServiceRecordData, got {:?}", other),
    }
    match deserialize_records(b"name\0lowercase\n") {
        Err(Error::WrongServiceRecordData) => (),
        other => panic!("expected WrongServiceRecordData, got {:?}", other),
    }
    match deserialize_records(b"name\0AA1\n") {
        Err(Error::WrongServiceRecordData) => (),
        other => panic!("expected WrongServiceRecordData, got {:?}", other),
    }
}

#[test]
fn invalid_utf8_name_rejected() {
    match deserialize_records(b"\xFF\xFE\0AA\n") {
        Err(Error::WrongServiceRecordData) => (),
        other => panic!("expected WrongServiceRecordData, got {:?}", other),
    }
}

#[test]
fn later_malformed_line_rejects_all() {
    match deserialize_records(b"good\0AA\nbad line\n") {
        Err(Error::WrongServiceRecordData) => (),
        other => panic!("expected WrongServiceRecordData, got {:?}", other),
    }
}

#[test]
fn final_line_without_newline_still_parses() {
    let back = deserialize_records(b"a\0AA\nb\0AE").unwrap();
    assert_eq!(back.len(), 2);
    assert_eq!(back[0].name, "a");
    assert_eq!(back[0].secret, vec![0]);
    assert_eq!(back[1].name, "b");
    assert_eq!(back[1].secret, vec![1]);
}

#[test]
fn new_normalizes_user_input() {
    let rec = ServiceRecord::new("svc", " jbsw y3dp\t").unwrap();
    assert_eq!(rec.name, "svc");
    assert_eq!(rec.secret, b"Hello".to_vec());
    assert_eq!(rec.marshall_secret(), "JBSWY3DP");
}

#[test]
fn new_rejects_invalid_secret() {
    match ServiceRecord::new("svc", "not base32!") {
        Err(Error::WrongServiceRecordData) => (),
        other => panic!("expected WrongServiceRecordData, got {:?}", other),
    }
}

#[test]
fn from_splits_on_nul() {
    let rec = ServiceRecord::from("account\0JBSWY3DP").unwrap();
    assert_eq!(rec.name, "account");
    assert_eq!(rec.secret, b"Hello".to_vec());
}

#[test]
fn from_without_nul_rejected() {
    match ServiceRecord::from("just a name") {
        Err(Error::WrongServiceRecordData) => (),
        other => panic!("expected WrongServiceRecordData, got {:?}", other),
    }
}

#[test]
fn store_round_trip() {
    let records = vec![record("mail", b"Hello"), record("bank", &[0xDE, 0xAD])];
    let plaintext = totpkeep::records::serialize_records(&records);
    let container = totpkeep::crpt::encrypt(&plaintext, "pw");
    let decrypted = totpkeep::crpt::decrypt(&container, "pw").unwrap();
    let back = deserialize_records(&decrypted).unwrap();
    assert_eq!(back, records);
}

#[test]
fn marshall_secret_encodes() {
    let rec = record("x", &[0xDE, 0xAD, 0xBE, 0xEF]);
    assert_eq!(rec.marshall_secret(), "32W353Y");
}
