use theca::args::{extract_status, BoolFlags};
use theca::errors::ErrorKind;
use theca::note::{Item, Profile, Status};

fn note(id: usize, title: &str, body: &str, status: Status) -> Item {
    Item {
        id,
        title: title.to_string(),
        status,
        body: body.to_string(),
        last_touched: "2015-01-22 19:43:24 -0800".to_string(),
    }
}

#[test]
fn test_first_note_gets_id_one() {
    let (mut p, fingerprint) = Profile::create_new(false);
    assert_eq!(fingerprint, 0);
    assert!(p.add_note("first", &[], None, false, false, false).is_ok());
    assert_eq!(p.notes.len(), 1);
    assert_eq!(p.notes[0].id, 1);
}

#[test]
fn test_next_id_is_max_plus_one() {
    let mut p = Profile {
        encrypted: false,
        notes: vec![note(7, "a", "", Status::Blank), note(2, "b", "", Status::Blank)],
    };
    assert!(p.add_note("c", &[], None, false, false, false).is_ok());
    assert_eq!(p.notes[2].id, 8);
}

#[test]
fn test_deleted_ids_are_not_reused() {
    let mut p = Profile { encrypted: false, notes: vec![] };
    assert!(p.add_note("one", &[], None, false, false, false).is_ok());
    assert!(p.add_note("two", &[], None, false, false, false).is_ok());
    assert_eq!(p.notes[0].id, 1);
    assert_eq!(p.notes[1].id, 2);
    p.delete_note(&[1]);
    assert!(p.add_note("three", &[], None, false, false, false).is_ok());
    assert_eq!(p.notes.len(), 2);
    assert_eq!(p.notes[1].id, 3);
}

#[test]
fn test_create_then_add_scenario() {
    let (mut work, fingerprint) = Profile::create_new(false);
    assert_eq!(fingerprint, 0);
    assert!(work.add_note("buy milk", &[], None, false, false, false).is_ok());
    assert_eq!(work.notes.len(), 1);
    assert_eq!(work.notes[0].id, 1);
    assert_eq!(work.notes[0].title, "buy milk".to_string());
    assert_eq!(work.notes[0].status, Status::Blank);
    assert_eq!(work.notes[0].body, "".to_string());
}

#[test]
fn test_add_note_strips_newlines() {
    let mut p = Profile { encrypted: false, notes: vec![] };
    assert!(p.add_note("a\ntitle\n", &[], None, false, false, false).is_ok());
    assert_eq!(p.notes[0].title, "atitle".to_string());
}

#[test]
fn test_edit_missing_note_is_validation_error() {
    let mut p = Profile { encrypted: false, notes: vec![] };
    let r = p.edit_note(4, "t", &[], None, false, BoolFlags::default());
    assert!(r.is_err());
    assert_eq!(r.err().unwrap().kind, ErrorKind::ValidationError);
}

#[test]
fn test_delete_reports_each_id() {
    let mut p = Profile {
        encrypted: false,
        notes: vec![
            note(1, "a", "", Status::Blank),
            note(2, "b", "", Status::Blank),
            note(3, "c", "", Status::Blank),
        ],
    };
    let outcome = p.delete_note(&[2, 9, 2]);
    assert_eq!(outcome, vec![true, false, false]);
    assert_eq!(p.notes.len(), 2);
    assert_eq!(p.notes[0].id, 1);
    assert_eq!(p.notes[1].id, 3);
}

#[test]
fn test_clear_declined_is_user_cancelled() {
    let mut p = Profile { encrypted: false, notes: vec![note(1, "a", "", Status::Blank)] };
    let r = p.clear(false);
    assert!(r.is_err());
    assert_eq!(r.err().unwrap().kind, ErrorKind::UserCancelled);
    assert_eq!(p.notes.len(), 1);
}

#[test]
fn test_transfer_to_same_profile_is_validation_error() {
    let mut src = Profile { encrypted: false, notes: vec![note(1, "a", "b", Status::Blank)] };
    let mut dst = Profile { encrypted: false, notes: vec![] };
    let r = src.transfer_note(&mut dst, "work", "work", 1);
    assert!(r.is_err());
    assert_eq!(r.err().unwrap().kind, ErrorKind::ValidationError);
    assert_eq!(src.notes.len(), 1);
    assert_eq!(dst.notes.len(), 0);
}

#[test]
fn test_transfer_moves_note_under_new_id() {
    let mut src = Profile {
        encrypted: false,
        notes: vec![note(1, "keep", "", Status::Blank), note(2, "move", "text", Status::Urgent)],
    };
    let mut dst = Profile { encrypted: false, notes: vec![note(5, "old", "", Status::Blank)] };
    assert!(src.transfer_note(&mut dst, "work", "home", 2).is_ok());
    assert_eq!(src.notes.len(), 1);
    assert_eq!(src.notes[0].title, "keep".to_string());
    assert_eq!(dst.notes.len(), 2);
    assert_eq!(dst.notes[1].id, 6);
    assert_eq!(dst.notes[1].title, "move".to_string());
    assert_eq!(dst.notes[1].status, Status::Urgent);
    assert_eq!(dst.notes[1].body, "text".to_string());
}

#[test]
fn test_transfer_missing_note_is_validation_error() {
    let mut src = Profile { encrypted: false, notes: vec![] };
    let mut dst = Profile { encrypted: false, notes: vec![] };
    let r = src.transfer_note(&mut dst, "work", "home", 3);
    assert!(r.is_err());
    assert_eq!(r.err().unwrap().kind, ErrorKind::ValidationError);
}

#[test]
fn test_status_counts() {
    let p = Profile {
        encrypted: false,
        notes: vec![
            note(1, "a", "", Status::Blank),
            note(2, "b", "", Status::Started),
            note(3, "c", "", Status::Urgent),
            note(4, "d", "", Status::Started),
        ],
    };
    assert_eq!(p.status_counts(), (1, 2, 1));
}

#[test]
fn test_find_note_positions() {
    let p = Profile {
        encrypted: false,
        notes: vec![note(4, "a", "", Status::Blank), note(9, "b", "", Status::Blank)],
    };
    assert_eq!(p.find_note(9), Some(1));
    assert_eq!(p.find_note(4), Some(0));
    assert_eq!(p.find_note(1), None);
}

#[test]
fn test_extract_status_variants() {
    assert_eq!(extract_status(false, false, false).unwrap(), None);
    assert_eq!(extract_status(true, false, false).unwrap(), Some(Status::Blank));
    assert_eq!(extract_status(false, true, false).unwrap(), Some(Status::Started));
    assert_eq!(extract_status(false, false, true).unwrap(), Some(Status::Urgent));
    let r = extract_status(true, true, false);
    assert!(r.is_err());
    assert_eq!(r.err().unwrap().kind, ErrorKind::ValidationError);
}

#[test]
fn test_replay_args_substitutes_captured_body() {
    let mut args = blank_args();
    args.cmd_add = true;
    args.flag_editor = true;
    let p = Profile {
        encrypted: false,
        notes: vec![note(1, "a", "captured text", Status::Blank)],
    };
    let r = theca::args::replay_args(args, &p);
    assert!(!r.flag_editor);
    assert_eq!(r.flag_body, vec!["captured text".to_string()]);
    assert!(r.cmd_add);
}

#[test]
fn test_replay_args_without_editor_keeps_body() {
    let mut args = blank_args();
    args.flag_body = vec!["typed".to_string()];
    let p = Profile { encrypted: false, notes: vec![] };
    let r = theca::args::replay_args(args, &p);
    assert!(!r.flag_editor);
    assert_eq!(r.flag_body, vec!["typed".to_string()]);
}

fn blank_args() -> theca::args::Args {
    theca::args::Args {
        cmd_add: false,
        cmd_clear: false,
        cmd_del: false,
        cmd_decrypt_profile: false,
        cmd_edit: false,
        cmd_encrypt_profile: false,
        cmd_import: false,
        cmd_info: false,
        cmd_list_profiles: false,
        cmd_new_profile: false,
        cmd_search: false,
        cmd_transfer: false,
        cmd__: false,
        arg_id: vec![],
        arg_name: vec![],
        arg_pattern: String::new(),
        arg_title: String::new(),
        flag_body: vec![],
        flag_condensed: false,
        flag_datesort: false,
        flag_editor: false,
        flag_encrypted: false,
        flag_json: false,
        flag_key: String::new(),
        flag_limit: 0,
        flag_new_key: String::new(),
        flag_none: false,
        flag_profile: String::new(),
        flag_profile_folder: String::new(),
        flag_regex: false,
        flag_reverse: false,
        flag_search_body: false,
        flag_started: false,
        flag_urgent: false,
        flag_version: false,
        flag_yes: false,
    }
}

#[test]
fn test_well_formed_spots_duplicate_ids() {
    let good = Profile {
        encrypted: false,
        notes: vec![note(1, "a", "", Status::Blank), note(2, "b", "", Status::Blank)],
    };
    assert!(good.well_formed());
    let bad = Profile {
        encrypted: false,
        notes: vec![note(3, "a", "", Status::Blank), note(3, "b", "", Status::Blank)],
    };
    assert!(!bad.well_formed());
    let empty = Profile { encrypted: false, notes: vec![] };
    assert!(empty.well_formed());
}
