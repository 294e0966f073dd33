use theca::lineformat::LineFormat;
use theca::note::{Item, Status};

struct LineTest {
    input_notes: Vec<Item>,
    condensed: bool,
    search: bool,
    expected_format: LineFormat,
}

fn note(id: usize, title: &str, body: &str, status: Status) -> Item {
    Item {
        id,
        title: title.to_string(),
        status,
        body: body.to_string(),
        last_touched: "2015-01-22 19:43:24 -0800".to_string(),
    }
}

fn test_formatter(tests: &[LineTest]) {
    for t in tests.iter() {
        let wrapped_format = LineFormat::new(&t.input_notes, t.condensed, t.search);
        assert!(wrapped_format.is_ok());
        let actual_format = wrapped_format.ok().unwrap();
        assert_eq!(t.expected_format.colsep, actual_format.colsep);
        assert_eq!(t.expected_format.id_width, actual_format.id_width);
        assert_eq!(t.expected_format.title_width, actual_format.title_width);
        assert_eq!(t.expected_format.status_width, actual_format.status_width);
        assert_eq!(t.expected_format.touched_width, actual_format.touched_width);
    }
}

#[test]
fn test_new_line_format_no_notes() {
    // the expanded layout keeps room for the `id` and `title` headers
    let fmt = LineFormat::new(&[], false, false).unwrap();
    assert_eq!(fmt.colsep, 2);
    assert_eq!(fmt.id_width, 2);
    assert_eq!(fmt.title_width, 5);
    assert_eq!(fmt.status_width, 0);
    assert_eq!(fmt.touched_width, 19);
}

#[test]
fn test_fit_to_width_shrinks_the_title() {
    let notes = vec![note(1, "a very very very long title indeed", "", Status::Blank)];
    let mut fmt = LineFormat::new(&notes, false, false).unwrap();
    let wide = fmt.line_width();
    fmt.fit_to_width(wide - 4);
    assert_eq!(fmt.line_width(), wide - 4);
    // an unknown console width changes nothing
    let before = fmt.line_width();
    fmt.fit_to_width(0);
    assert_eq!(fmt.line_width(), before);
}

#[test]
fn test_new_line_format_basic() {
    let basic_tests = vec![
        LineTest {
            input_notes: vec![
                note(1, "a title", "", Status::Blank),
                note(2, "a longer title", "", Status::Blank),
            ],
            condensed: false,
            search: false,
            expected_format: LineFormat {
                colsep: 2,
                id_width: 2,
                title_width: 14,
                status_width: 0,
                touched_width: 19,
            },
        },
        LineTest {
            input_notes: vec![
                note(1, "a title", "", Status::Blank),
                note(2, "a longer title", "", Status::Blank),
            ],
            condensed: true,
            search: false,
            expected_format: LineFormat {
                colsep: 1,
                id_width: 1,
                title_width: 14,
                status_width: 0,
                touched_width: 10,
            },
        },
    ];

    test_formatter(&basic_tests[..]);
}

#[test]
fn test_new_line_format_statuses() {
    let status_tests = vec![
        LineTest {
            input_notes: vec![
                note(1, "a title", "", Status::Started),
                note(2, "a longer title", "", Status::Blank),
            ],
            condensed: false,
            search: false,
            expected_format: LineFormat {
                colsep: 2,
                id_width: 2,
                title_width: 14,
                status_width: 7,
                touched_width: 19,
            },
        },
        LineTest {
            input_notes: vec![
                note(1, "a title", "", Status::Blank),
                note(2, "a longer title", "", Status::Urgent),
            ],
            condensed: false,
            search: false,
            expected_format: LineFormat {
                colsep: 2,
                id_width: 2,
                title_width: 14,
                status_width: 6,
                touched_width: 19,
            },
        },
        LineTest {
            input_notes: vec![
                note(1, "a title", "", Status::Blank),
                note(2, "a longer title", "", Status::Urgent),
            ],
            condensed: true,
            search: false,
            expected_format: LineFormat {
                colsep: 1,
                id_width: 1,
                title_width: 14,
                status_width: 1,
                touched_width: 10,
            },
        },
    ];

    test_formatter(&status_tests[..]);
}

#[test]
fn test_new_line_format_body() {
    let body_tests = vec![
        LineTest {
            input_notes: vec![
                note(1, "a title", "", Status::Blank),
                note(2, "a longer title", "this is a body", Status::Blank),
            ],
            condensed: false,
            search: false,
            expected_format: LineFormat {
                colsep: 2,
                id_width: 2,
                title_width: 18,
                status_width: 0,
                touched_width: 19,
            },
        },
        LineTest {
            input_notes: vec![
                note(1, "a title", "", Status::Blank),
                note(2, "a longer title", "this is a body", Status::Blank),
            ],
            condensed: true,
            search: false,
            expected_format: LineFormat {
                colsep: 1,
                id_width: 1,
                title_width: 18,
                status_width: 0,
                touched_width: 10,
            },
        },
        LineTest {
            input_notes: vec![
                note(1, "a title", "", Status::Blank),
                note(2, "a longer title", "this is a body", Status::Blank),
            ],
            condensed: false,
            search: true,
            expected_format: LineFormat {
                colsep: 2,
                id_width: 2,
                title_width: 14,
                status_width: 0,
                touched_width: 19,
            },
        },
        LineTest {
            input_notes: vec![
                note(1, "a title", "", Status::Blank),
                note(2, "a longer title", "this is a body", Status::Blank),
            ],
            condensed: true,
            search: true,
            expected_format: LineFormat {
                colsep: 1,
                id_width: 1,
                title_width: 14,
                status_width: 0,
                touched_width: 10,
            },
        },
    ];

    test_formatter(&body_tests[..]);
}

#[test]
fn test_new_line_format_full() {
    let body_tests = vec![
        LineTest {
            input_notes: vec![
                note(1, "a title", "", Status::Started),
                note(2, "a longer title", "this is a body", Status::Blank),
            ],
            condensed: false,
            search: false,
            expected_format: LineFormat {
                colsep: 2,
                id_width: 2,
                title_width: 18,
                status_width: 7,
                touched_width: 19,
            },
        },
        LineTest {
            input_notes: vec![
                note(1, "a title", "", Status::Started),
                note(2, "a longer title", "this is a body", Status::Blank),
            ],
            condensed: true,
            search: false,
            expected_format: LineFormat {
                colsep: 1,
                id_width: 1,
                title_width: 18,
                status_width: 1,
                touched_width: 10,
            },
        },
        LineTest {
            input_notes: vec![
                note(1, "a title", "", Status::Urgent),
                note(2, "a longer title", "this is a body", Status::Blank),
            ],
            condensed: false,
            search: true,
            expected_format: LineFormat {
                colsep: 2,
                id_width: 2,
                title_width: 14,
                status_width: 6,
                touched_width: 19,
            },
        },
        LineTest {
            input_notes: vec![
                note(1, "a title", "", Status::Blank),
                note(2, "a longer title", "this is a body", Status::Urgent),
            ],
            condensed: true,
            search: true,
            expected_format: LineFormat {
                colsep: 1,
                id_width: 1,
                title_width: 14,
                status_width: 1,
                touched_width: 10,
            },
        },
    ];

    test_formatter(&body_tests[..]);
}

#[test]
fn test_write_line_marks_hidden_bodies() {
    let item = note(0, "This is a title", "This is the body", Status::Blank);
    let fmt = LineFormat::new(&[item.clone()], false, false).unwrap();
    assert_eq!(
        item.write(&fmt, false, "2016-07-08 16:31:14"),
        "0   This is a title (+)  2016-07-08 16:31:14"
    );
}

#[test]
fn test_write_line_without_body() {
    let item = note(0, "This is a title", "", Status::Blank);
    let fmt = LineFormat::new(&[item.clone()], false, false).unwrap();
    assert_eq!(item.write(&fmt, false, "2016-07-08 16:31:14"), "0   This is a title  2016-07-08 16:31:14");
}

#[test]
fn test_write_line_search_keeps_title_plain() {
    let item = note(0, "This is a title", "This is the body", Status::Blank);
    let fmt = LineFormat::new(&[item.clone()], false, false).unwrap();
    assert_eq!(
        item.write(&fmt, true, "2016-07-08 16:31:14"),
        "0   This is a title      2016-07-08 16:31:14"
    );
}

#[test]
fn test_write_line_with_status_column() {
    let item = note(0, "This is a title", "This is the body", Status::Started);
    let fmt = LineFormat::new(&[item.clone()], false, false).unwrap();
    assert_eq!(
        item.write(&fmt, false, "2016-07-08 16:31:14"),
        "0   This is a title (+)  Started  2016-07-08 16:31:14"
    );
}
