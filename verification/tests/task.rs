use chrono::DateTime;
use task_tracker::deadline::Deadline;
use task_tracker::task::{ParseTaskError, Task};

fn deadline(text: &str) -> Option<Deadline> {
    let utc = DateTime::parse_from_rfc3339(text).unwrap().to_utc();
    Some(Deadline::from_timestamp(utc.timestamp(), utc.timestamp_subsec_nanos()).unwrap())
}

#[test]
fn parse_good_task_single_tag() {
    let task_str = "| Task 1 | ugh | false | 2025-03-17T22:00:00+00:00 |";
    let expected_task = Task {
        name: "Task 1".into(),
        tags: Some(vec!["ugh".into()]),
        deadline: deadline("2025-03-17T22:00:00+00:00"),
        complete: false,
    };
    let parsed_task = Task::from_str(task_str).unwrap();
    assert_eq!(expected_task, parsed_task)
}

#[test]
fn parse_good_task_multiple_tags() {
    let task_str = "| Task 1 | project, ugh | false | 2025-03-17T22:00:00+00:00 |";
    let expected_task = Task {
        name: "Task 1".into(),
        tags: Some(vec!["project".into(), "ugh".into()]),
        deadline: deadline("2025-03-17T22:00:00+00:00"),
        complete: false,
    };
    let parsed_task = Task::from_str(task_str).unwrap();
    assert_eq!(expected_task, parsed_task)
}

#[test]
fn parse_good_task_no_tags() {
    let task_str = "| Task 1 | | false | 2025-03-17T22:00:00+00:00 |";
    let expected_task = Task {
        name: "Task 1".into(),
        tags: None,
        deadline: deadline("2025-03-17T22:00:00+00:00"),
        complete: false,
    };
    let parsed_task = Task::from_str(task_str).unwrap();
    assert_eq!(expected_task, parsed_task)
}

#[test]
#[should_panic]
fn parse_bad_task_too_few_columns() {
    let task_str = "| My task | Should be deadline |";
    let expected_task = Task {
        name: "Task 1".into(),
        tags: Some(vec!["project".into(), "ugh".into()]),
        deadline: deadline("2025-03-17T22:00:00+00:00"),
        complete: false,
    };
    let parsed_task = Task::from_str(task_str).unwrap();
    assert_eq!(expected_task, parsed_task)
}

#[test]
#[should_panic]
fn parse_bad_task_too_many_columns() {
    let task_str = "| project, ugh | false | 2025-03-17T22:00:00+00:00 | Additional stuff";
    let expected_task = Task {
        name: "Task 1".into(),
        tags: Some(vec!["project".into(), "ugh".into()]),
        deadline: deadline("2025-03-17T22:00:00+00:00"),
        complete: false,
    };
    let parsed_task = Task::from_str(task_str).unwrap();
    assert_eq!(expected_task, parsed_task)
}

#[test]
#[should_panic]
fn parse_bad_task_no_name() {
    let task_str = "| project, ugh | false | 2025-03-17T22:00:00+00:00 |";
    let expected_task = Task {
        name: "Task 1".into(),
        tags: Some(vec!["project".into(), "ugh".into()]),
        deadline: deadline("2025-03-17T22:00:00+00:00"),
        complete: false,
    };
    let parsed_task = Task::from_str(task_str).unwrap();
    assert_eq!(expected_task, parsed_task)
}

#[test]
#[should_panic]
fn parse_bad_task_no_deadline() {
    let task_str = "| project, ugh | 2025-03-17T22:00:00+00:00 |";
    let expected_task = Task {
        name: "Task 1".into(),
        tags: Some(vec!["project".into(), "ugh".into()]),
        deadline: deadline("2025-03-17T22:00:00+00:00"),
        complete: false,
    };
    let parsed_task = Task::from_str(task_str).unwrap();
    assert_eq!(expected_task, parsed_task)
}

#[test]
#[should_panic]
fn parse_bad_task_bad_deadline() {
    let task_str = "| project, ugh | 2025-03-40T22:00:00+00:00 |";
    Task::from_str(task_str).unwrap();
}

#[test]
fn too_few_fields_is_a_format_error() {
    assert_eq!(
        Task::from_str("| My task | Should be deadline |"),
        Err(ParseTaskError::InvalidTaskFormat)
    );
    assert_eq!(Task::from_str("| a | b | true |"), Err(ParseTaskError::InvalidTaskFormat));
    assert_eq!(Task::from_str(""), Err(ParseTaskError::InvalidTaskFormat));
    assert_eq!(Task::from_str("   "), Err(ParseTaskError::InvalidTaskFormat));
}

#[test]
fn too_many_fields_is_a_format_error() {
    assert_eq!(
        Task::from_str("| a | b | false | 2025-03-17T22:00:00+00:00 | Additional stuff"),
        Err(ParseTaskError::InvalidTaskFormat)
    );
    assert_eq!(
        Task::from_str("| a | b | false | 2025-03-17T22:00:00+00:00 | |"),
        Err(ParseTaskError::InvalidTaskFormat)
    );
}

#[test]
fn bad_boolean_is_reported_as_such() {
    let expected = "yes".parse::<bool>().unwrap_err();
    assert_eq!(
        Task::from_str("| a | b | yes | 2025-03-17T22:00:00+00:00 |"),
        Err(ParseTaskError::ParseBool(expected.clone()))
    );
    assert_eq!(
        Task::from_str("| a | b | True | 2025-03-17T22:00:00+00:00 |"),
        Err(ParseTaskError::ParseBool(expected.clone()))
    );
    assert_eq!(
        Task::from_str("| a | b |  | 2025-03-17T22:00:00+00:00 |"),
        Err(ParseTaskError::ParseBool(expected))
    );
}

#[test]
fn bad_boolean_comes_before_bad_timestamp() {
    let expected = "maybe".parse::<bool>().unwrap_err();
    assert_eq!(
        Task::from_str("| a | b | maybe | 2025-03-40T22:00:00+00:00 |"),
        Err(ParseTaskError::ParseBool(expected))
    );
}

#[test]
fn bad_timestamp_is_reported_with_its_reason() {
    let reason = DateTime::parse_from_rfc3339("2025-03-40T22:00:00+00:00").unwrap_err();
    assert_eq!(
        Task::from_str("| a | b | true | 2025-03-40T22:00:00+00:00 |"),
        Err(ParseTaskError::InvalidDateFormat(reason))
    );
    let reason = DateTime::parse_from_rfc3339("tomorrow").unwrap_err();
    assert_eq!(
        Task::from_str("| a | b | true | tomorrow |"),
        Err(ParseTaskError::InvalidDateFormat(reason))
    );
}

#[test]
fn timestamp_with_offset_is_held_in_utc() {
    let task = Task::from_str("| a | | true | 2025-03-17T23:30:00+01:30 |").unwrap();
    assert_eq!(task.deadline, deadline("2025-03-17T22:00:00+00:00"));
    assert_eq!(task.deadline.unwrap().timestamp(), 1742248800);
    assert_eq!(task.deadline.unwrap().timestamp_subsec_nanos(), 0);
    assert!(task.complete);
}

#[test]
fn empty_deadline_field_is_no_deadline() {
    let task = Task::from_str("| Name |  | false |  |").unwrap();
    assert_eq!(
        task,
        Task { name: "Name".into(), tags: None, deadline: None, complete: false }
    );
}

#[test]
fn blank_tags_are_no_tags() {
    let task = Task::from_str("| a | ,  | false | |").unwrap();
    assert_eq!(task.tags, Some(vec![",".to_string()]));
    let task = Task::from_str("| a |  ,  | false | |").unwrap();
    assert_eq!(task.tags, Some(vec![",".to_string()]));
    let task = Task::from_str("| a | \t | false | |").unwrap();
    assert_eq!(task.tags, None);
    let task = Task::from_str("| a | x,  , y | false | |").unwrap();
    assert_eq!(task.tags, Some(vec!["x".to_string(), " ".to_string(), "y".to_string()]));
}

#[test]
fn tags_are_cut_at_comma_and_space_only() {
    let task = Task::from_str("| a | x,y, z | false | |").unwrap();
    assert_eq!(task.tags, Some(vec!["x,y".to_string(), "z".to_string()]));
}

#[test]
fn surrounding_space_and_pipes_are_dropped() {
    let task = Task::from_str("  \t|| Task 1 |ugh|false|2025-03-17T22:00:00Z ||  \n").unwrap();
    assert_eq!(
        task,
        Task {
            name: "Task 1".into(),
            tags: Some(vec!["ugh".into()]),
            deadline: deadline("2025-03-17T22:00:00+00:00"),
            complete: false,
        }
    );
    let task = Task::from_str("Task 1 | ugh | true | 2025-03-17T22:00:00Z").unwrap();
    assert_eq!(task.name, "Task 1");
    assert_eq!(task.deadline, deadline("2025-03-17T22:00:00+00:00"));
    assert_eq!(
        Task::from_str("Task 1 | ugh | true |"),
        Err(ParseTaskError::InvalidTaskFormat)
    );
}

#[test]
fn encoding_without_tags_and_deadline() {
    let task = Task::new("Name".into(), None, None);
    assert_eq!(task.to_line(), "| Name |  | false |  |");
}

#[test]
fn encoding_with_tags_and_deadline() {
    let mut task = Task::new(
        "Task 2".into(),
        Some(vec!["project".into(), "time".into()]),
        deadline("2025-03-19T22:00:00+00:00"),
    );
    assert_eq!(task.to_line(), "| Task 2 | project, time | false | 2025-03-19T22:00:00+00:00 |");
    task.complete();
    assert_eq!(task.to_line(), "| Task 2 | project, time | true | 2025-03-19T22:00:00+00:00 |");
    assert_eq!(task.export_deadline(), "2025-03-19T22:00:00+00:00");
    assert_eq!(task.tags_field(), "project, time");
}

#[test]
fn encoding_keeps_fractions_of_a_second() {
    let task = Task::new("a".into(), None, deadline("2025-03-19T22:00:00.125+00:00"));
    assert_eq!(task.to_line(), "| a |  | false | 2025-03-19T22:00:00.125+00:00 |");
}

#[test]
fn decoding_an_encoded_task_gives_it_back() {
    let tasks = vec![
        Task::new("Name".into(), None, None),
        Task::new("Task 1".into(), Some(vec!["ugh".into()]), deadline("2025-03-17T22:00:00Z")),
        Task {
            name: "write, then send".into(),
            tags: Some(vec!["a".into(), "".into(), "b c".into()]),
            deadline: deadline("1999-12-31T23:59:59.000000001-08:00"),
            complete: true,
        },
        Task {
            name: "".into(),
            tags: Some(vec!["x,y".into()]),
            deadline: deadline("0000-01-01T00:00:00Z"),
            complete: false,
        },
        Task {
            name: "läuft".into(),
            tags: Some(vec!["größe".into(), "日本".into()]),
            deadline: deadline("9999-12-31T23:59:59.999999999Z"),
            complete: true,
        },
    ];
    for task in tasks {
        assert_eq!(Task::from_str(&task.to_line()), Ok(task));
    }
}

#[test]
fn new_task_is_not_complete() {
    let task = Task::new("a".into(), Some(vec!["t".into()]), None);
    assert_eq!(
        task,
        Task { name: "a".into(), tags: Some(vec!["t".into()]), deadline: None, complete: false }
    );
}

#[test]
fn complete_sets_the_flag_only() {
    let mut task = Task::new("a".into(), Some(vec!["t".into()]), deadline("2025-03-17T22:00:00Z"));
    task.complete();
    assert_eq!(
        task,
        Task {
            name: "a".into(),
            tags: Some(vec!["t".into()]),
            deadline: deadline("2025-03-17T22:00:00Z"),
            complete: true,
        }
    );
    task.complete();
    assert!(task.complete);
}

#[test]
fn default_task_is_empty() {
    assert_eq!(
        Task::default(),
        Task { name: String::new(), tags: None, deadline: None, complete: false }
    );
}

#[test]
fn local_deadline_is_empty_without_deadline() {
    let task = Task::new("a".into(), None, None);
    assert_eq!(task.local_deadline(), "");
    assert_eq!(task.export_deadline(), "");
    assert_eq!(task.display_line(), "| a |  | false |  |");
}

#[test]
fn local_deadline_has_the_display_pattern() {
    let task = Task::new("a".into(), None, deadline("2025-03-17T22:00:00Z"));
    let text = task.local_deadline();
    let bytes = text.as_bytes();
    assert_eq!(bytes.len(), 19);
    assert_eq!(bytes[2], b'/');
    assert_eq!(bytes[5], b'/');
    assert_eq!(bytes[10], b' ');
    assert_eq!(bytes[13], b':');
    assert_eq!(bytes[16], b':');
    assert_eq!(task.display_line(), format!("| a |  | false | {} |", text));
    assert_eq!(task.line_with("soon"), "| a |  | false | soon |");
}

#[test]
fn format_error_message() {
    assert_eq!(
        ParseTaskError::InvalidTaskFormat.message(),
        "provided string could not be converted to a task"
    );
}

#[test]
fn other_error_messages_are_those_of_their_causes() {
    let cause = "x".parse::<bool>().unwrap_err();
    assert_eq!(ParseTaskError::ParseBool(cause.clone()).message(), cause.to_string());
    let cause = DateTime::parse_from_rfc3339("x").unwrap_err();
    assert_eq!(ParseTaskError::InvalidDateFormat(cause).message(), cause.to_string());
}

#[test]
fn parts_make_a_task_or_the_first_error() {
    let wrong_bool = "x".parse::<bool>().unwrap_err();
    let wrong_time = DateTime::parse_from_rfc3339("x").unwrap_err();
    let d = deadline("2025-03-17T22:00:00Z").unwrap();
    assert_eq!(
        Task::from_parts("a".into(), Some(vec!["t".into()]), Ok(true), Some(Ok(d))),
        Ok(Task {
            name: "a".into(),
            tags: Some(vec!["t".into()]),
            deadline: Some(d),
            complete: true
        })
    );
    assert_eq!(
        Task::from_parts("a".into(), None, Ok(false), None),
        Ok(Task { name: "a".into(), tags: None, deadline: None, complete: false })
    );
    assert_eq!(
        Task::from_parts("a".into(), None, Ok(false), Some(Err(wrong_time))),
        Err(ParseTaskError::InvalidDateFormat(wrong_time))
    );
    assert_eq!(
        Task::from_parts("a".into(), None, Err(wrong_bool.clone()), Some(Err(wrong_time))),
        Err(ParseTaskError::ParseBool(wrong_bool.clone()))
    );
    assert_eq!(
        Task::from_parts("a".into(), None, Err(wrong_bool.clone()), Some(Ok(d))),
        Err(ParseTaskError::ParseBool(wrong_bool))
    );
}

#[test]
fn line_of_an_unstorable_task_is_not_read_back_as_it_was() {
    let with_pipe = Task::new("a|b".into(), None, None);
    assert_eq!(Task::from_str(&with_pipe.to_line()), Err(ParseTaskError::InvalidTaskFormat));

    let with_space = Task::new(" a".into(), None, None);
    assert_eq!(Task::from_str(&with_space.to_line()), Ok(Task::new("a".into(), None, None)));

    let with_separator = Task::new("a".into(), Some(vec!["x, y".into()]), None);
    assert_eq!(
        Task::from_str(&with_separator.to_line()),
        Ok(Task::new("a".into(), Some(vec!["x".into(), "y".into()]), None))
    );

    let blank_tag = Task::new("a".into(), Some(vec![" ".into()]), None);
    assert_eq!(Task::from_str(&blank_tag.to_line()), Ok(Task::new("a".into(), None, None)));

    let blank_tags = Task::new("a".into(), Some(vec!["".into(), " ".into()]), None);
    assert_eq!(
        Task::from_str(&blank_tags.to_line()),
        Ok(Task::new("a".into(), Some(vec![",".into()]), None))
    );

    let no_tags = Task::new("a".into(), Some(Vec::new()), None);
    assert_eq!(Task::from_str(&no_tags.to_line()), Ok(Task::new("a".into(), None, None)));

    let far = Task::new("a".into(), None, Deadline::from_timestamp(253402300800, 0));
    assert_eq!(far.to_line(), "| a |  | false | +10000-01-01T00:00:00+00:00 |");
    assert!(matches!(
        Task::from_str(&far.to_line()),
        Err(ParseTaskError::InvalidDateFormat(_))
    ));
}

#[test]
fn a_deadline_before_year_zero_in_utc_is_not_read_back() {
    let task = Task::from_str("| a | | false | 0000-01-01T00:00:00+01:00 |").unwrap();
    assert_eq!(task.to_line(), "| a |  | false | -0001-12-31T23:00:00+00:00 |");
    assert!(matches!(
        Task::from_str(&task.to_line()),
        Err(ParseTaskError::InvalidDateFormat(_))
    ));
}

#[test]
fn local_deadline_shows_the_deadline_in_the_zone_of_the_machine() {
    let at = Deadline::from_timestamp(1742248800, 0).unwrap();
    let task = Task::new("a".into(), None, Some(at));
    let offset = DateTime::from_timestamp(1742248800, 0)
        .unwrap()
        .with_timezone(&chrono::Local)
        .offset()
        .local_minus_utc();
    assert_eq!(Some(task.local_deadline()), at.to_text_at(offset));
    assert_eq!(
        task.display_line(),
        format!("| a |  | false | {} |", at.to_text_at(offset).unwrap())
    );
    assert_ne!(task.local_deadline(), "");
}
