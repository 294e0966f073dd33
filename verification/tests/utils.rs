use theca::lineformat::format_field;
use theca::timestamp::cmp_last_touched;
use std::cmp::Ordering;

#[test]
fn test_format_field() {
    assert_eq!(
        format_field(&"this is some stuff yo".to_string(), 12, false),
        "this is some".to_string()
    );
    assert_eq!(
        format_field(&"this is some stuff yo".to_string(), 11, true),
        "this is ...".to_string()
    );
}

#[test]
fn test_cmp_last_touched() {
    let old = "2015-01-22 19:43:24 -0800";
    let new = "2015-01-26 20:18:18 -0800";

    assert!(cmp_last_touched(old, new).is_ok());
    assert!(cmp_last_touched(new, old).is_ok());

    assert_eq!(cmp_last_touched(old, new).ok().unwrap(), Ordering::Less);
    assert_eq!(cmp_last_touched(new, old).ok().unwrap(), Ordering::Greater);
}

#[test]
fn test_format_field_pads_short_values() {
    assert_eq!(format_field("ab", 5, false), "ab   ".to_string());
    assert_eq!(format_field("ab", 5, true), "ab   ".to_string());
    assert_eq!(format_field("", 3, false), "   ".to_string());
}

#[test]
fn test_format_field_narrow_truncating_field() {
    // a truncating field of three or fewer characters cuts without the marker
    assert_eq!(format_field("abcdef", 3, true), "abc".to_string());
    assert_eq!(format_field("abcdefg", 6, true), "abc...".to_string());
}

#[test]
fn test_parse_last_touched_epochs() {
    assert_eq!(
        theca::timestamp::parse_last_touched("2015-01-22 19:43:24 -0800").unwrap(),
        1421984604
    );
    assert_eq!(
        theca::timestamp::parse_last_touched("2015-01-26 20:18:18 -0800").unwrap(),
        1422332298
    );
    assert_eq!(
        theca::timestamp::parse_last_touched("2016-07-08 15:31:14 -0800").unwrap(),
        1468020674
    );
    assert_eq!(theca::timestamp::parse_last_touched("1970-01-01 00:00:00 +0000").unwrap(), 0);
}

#[test]
fn test_parse_last_touched_rejects_malformed() {
    for bad in [
        "",
        "2015-01-22",
        "2015-01-22 19:43:24",
        "2015-13-22 19:43:24 -0800",
        "2015-00-22 19:43:24 -0800",
        "2015-01-32 19:43:24 -0800",
        "2015-01-22 24:43:24 -0800",
        "2015-01-22 19:60:24 -0800",
        "2015-01-22 19:43:60 -0800",
        "2015-01-22T19:43:24 -0800",
        "2015-01-22 19:43:24 x0800",
    ] {
        let r = theca::timestamp::parse_last_touched(bad);
        assert!(r.is_err());
        assert_eq!(r.err().unwrap().kind, theca::errors::ErrorKind::InvalidFormat);
    }
}

#[test]
fn test_path_to_profile_name() {
    assert_eq!(
        theca::store::path_to_profile_name("/home/u/.theca/work.json").unwrap(),
        "work".to_string()
    );
    assert_eq!(theca::store::path_to_profile_name("notes.json").unwrap(), "notes".to_string());
    assert_eq!(theca::store::path_to_profile_name("plain").unwrap(), "plain".to_string());
    assert_eq!(theca::store::path_to_profile_name("/a/.hidden").unwrap(), ".hidden".to_string());
    let r = theca::store::path_to_profile_name("/ends/in/slash/");
    assert!(r.is_err());
    assert_eq!(r.err().unwrap().kind, theca::errors::ErrorKind::ValidationError);
}

#[test]
fn test_version() {
    assert_eq!(theca::args::version(), "theca 0.1.0".to_string());
}
