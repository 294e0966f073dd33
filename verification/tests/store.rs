use theca::doc::{parse_profile, serialize_profile};
use theca::errors::ErrorKind;
use theca::note::{Item, Profile, Status};
use theca::store::{decode_profile, encode_profile, save_conflict};

fn sample_profile(encrypted: bool) -> Profile {
    Profile {
        encrypted,
        notes: vec![
            Item {
                id: 1,
                title: "plain title".to_string(),
                status: Status::Blank,
                body: "".to_string(),
                last_touched: "2015-01-22 19:43:24 -0800".to_string(),
            },
            Item {
                id: 2,
                title: "tricky \"quoted\" \\ title".to_string(),
                status: Status::Started,
                body: "body with\nnewlines\tand tabs\u{1} and control".to_string(),
                last_touched: "2015-01-26 20:18:18 -0800".to_string(),
            },
            Item {
                id: 5,
                title: "unicode \u{e9}\u{4e16}\u{754c}".to_string(),
                status: Status::Urgent,
                body: "done?".to_string(),
                last_touched: "2016-07-08 15:31:14 -0800".to_string(),
            },
        ],
    }
}

fn profiles_equal(a: &Profile, b: &Profile) {
    assert_eq!(a.encrypted, b.encrypted);
    assert_eq!(a.notes.len(), b.notes.len());
    for (x, y) in a.notes.iter().zip(b.notes.iter()) {
        assert_eq!(x.id, y.id);
        assert_eq!(x.title, y.title);
        assert_eq!(x.status, y.status);
        assert_eq!(x.body, y.body);
        assert_eq!(x.last_touched, y.last_touched);
    }
}

#[test]
fn test_document_round_trip() {
    let p = sample_profile(false);
    let doc = serialize_profile(&p);
    let q = parse_profile(doc.as_str()).expect("canonical document must parse");
    profiles_equal(&p, &q);
}

#[test]
fn test_document_round_trip_empty() {
    let p = Profile { encrypted: true, notes: vec![] };
    let doc = serialize_profile(&p);
    assert_eq!(doc, "{\n  \"encrypted\": true,\n  \"notes\": []\n}");
    let q = parse_profile(doc.as_str()).expect("canonical document must parse");
    profiles_equal(&p, &q);
}

#[test]
fn test_document_shape() {
    let p = Profile {
        encrypted: false,
        notes: vec![Item {
            id: 1,
            title: "t".to_string(),
            status: Status::Blank,
            body: "".to_string(),
            last_touched: "2015-01-22 19:43:24 -0800".to_string(),
        }],
    };
    let doc = serialize_profile(&p);
    assert_eq!(
        doc,
        "{\n  \"encrypted\": false,\n  \"notes\": [\n    {\n      \"id\": 1,\n      \"title\": \"t\",\n      \"status\": \"\",\n      \"body\": \"\",\n      \"last_touched\": \"2015-01-22 19:43:24 -0800\"\n    }\n  ]\n}"
    );
}

#[test]
fn test_parse_rejects_garbage() {
    assert!(parse_profile("").is_none());
    assert!(parse_profile("{}").is_none());
    assert!(parse_profile("{\n  \"encrypted\": maybe,\n  \"notes\": []\n}").is_none());
    let p = sample_profile(false);
    let doc = serialize_profile(&p);
    let mut truncated = doc.clone();
    truncated.pop();
    assert!(parse_profile(truncated.as_str()).is_none());
    let trailing = format!("{} ", doc);
    assert!(parse_profile(trailing.as_str()).is_none());
}

#[test]
fn test_store_round_trip_plain() {
    let p = sample_profile(false);
    let bytes = encode_profile(&p, "");
    let q = decode_profile(&bytes, false, "").expect("plain bytes must decode");
    profiles_equal(&p, &q);
}

#[test]
fn test_store_round_trip_encrypted() {
    let p = sample_profile(true);
    let bytes = encode_profile(&p, "secret");
    assert!(bytes.len() >= 32);
    assert_eq!(bytes.len() % 16, 0);
    let q = decode_profile(&bytes, true, "secret").expect("same password must decode");
    profiles_equal(&p, &q);
}

#[test]
fn test_wrong_password_is_crypto_error() {
    let p = sample_profile(true);
    let bytes = encode_profile(&p, "secret");
    let r = decode_profile(&bytes, true, "wrong");
    assert!(r.is_err());
    assert_eq!(r.err().unwrap().kind, ErrorKind::CryptoError);
}

#[test]
fn test_undeclared_encryption_is_invalid_format() {
    let p = sample_profile(true);
    let bytes = encode_profile(&p, "secret");
    // reading an encrypted file without saying so fails as a format error
    let r = decode_profile(&bytes, false, "");
    assert!(r.is_err());
    assert_eq!(r.err().unwrap().kind, ErrorKind::InvalidFormat);
}

#[test]
fn test_decode_rejects_invalid_utf8() {
    let r = decode_profile(&[0xff, 0xfe, 0x00], false, "");
    assert!(r.is_err());
    assert_eq!(r.err().unwrap().kind, ErrorKind::InvalidFormat);
}

#[test]
fn test_ciphertext_differs_from_plaintext() {
    let p = sample_profile(true);
    let plain = serialize_profile(&p).into_bytes();
    let bytes = encode_profile(&p, "secret");
    assert_ne!(&bytes[16..], &plain[..]);
}

#[test]
fn test_conflict_detection() {
    // loaded from an existing file: any changed mtime is a conflict
    let f0: u64 = 1421984604;
    assert!(save_conflict(f0, f0 + 1));
    assert!(save_conflict(f0, 0));
    assert!(!save_conflict(f0, f0));
}

#[test]
fn test_no_false_conflict_for_new_profiles() {
    let (_p, fingerprint) = Profile::create_new(false);
    assert_eq!(fingerprint, 0);
    assert!(!save_conflict(fingerprint, 12345));
    assert!(!save_conflict(0, 0));
}
