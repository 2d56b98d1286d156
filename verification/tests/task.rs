use todo_txt::Date;
use todo_txt::Recurrence;
use todo_txt::Task;

#[test]
fn it_works() {
    let todo_item = "(A) 2016-03-24 22:00 сходить на занятие в @microfon rec:+1w \
                     due:2016-04-05 t:2016-04-05 at:20:00";
    let task = Task::from_str(todo_item).unwrap();
    assert_eq!(task.subject, "22:00 сходить на занятие в @microfon");
    assert_eq!(
        task,
        Task {
            subject: "22:00 сходить на занятие в @microfon".to_owned(),
            create_date: Some(Date::from_ymd(2016, 3, 24)),
            priority: 0,
            recurrence: Some(Recurrence::Weekly(true, 1)),
            due_date: Some(Date::from_ymd(2016, 4, 5)),
            threshold_date: Some(Date::from_ymd(2016, 4, 5)),
            contexts: vec!["microfon".to_owned()],
            tags: vec![("at".to_owned(), "20:00".to_owned())],
            ..Task::default()
        }
    );

    let todo_item = "2016-03-27 сменить загранпаспорт due:2020-08-14 t:2020-04-14 +документы";
    let task = Task::from_str(todo_item).unwrap();
    assert_eq!(task.subject, "сменить загранпаспорт +документы");
    assert_eq!(
        task,
        Task {
            subject: "сменить загранпаспорт +документы".to_owned(),
            create_date: Some(Date::from_ymd(2016, 3, 27)),
            priority: 26,
            due_date: Some(Date::from_ymd(2020, 8, 14)),
            threshold_date: Some(Date::from_ymd(2020, 4, 14)),
            projects: vec!["документы".to_owned()],
            ..Task::default()
        }
    );

    let todo_item = "x 2016-03-27 сменить загранпаспорт due:2020-08-14 t:2020-04-14 +документы";
    let task = Task::from_str(todo_item).unwrap();
    assert_eq!(task.subject, "сменить загранпаспорт +документы");
    assert_eq!(
        task,
        Task {
            subject: "сменить загранпаспорт +документы".to_owned(),
            create_date: Some(Date::from_ymd(2016, 3, 27)),
            priority: 26,
            due_date: Some(Date::from_ymd(2020, 8, 14)),
            threshold_date: Some(Date::from_ymd(2020, 4, 14)),
            projects: vec!["документы".to_owned()],
            finished: true,
            ..Task::default()
        }
    );
}

#[test]
fn priority_uppercase_only() {
    let task = Task::from_str("(A) 2016-03-24 call mom").unwrap();
    assert_eq!(task.priority, 0);
    assert_eq!(task.create_date, Some(Date::from_ymd(2016, 3, 24)));

    let task = Task::from_str("(a) call mom").unwrap();
    assert_eq!(task.priority, 26);
    assert_eq!(task.subject, "(a) call mom");
    assert_eq!(task.create_date, None);
}

#[test]
fn finish_date_reassigned_without_priority() {
    let task = Task::from_str("x 2016-03-27 subject").unwrap();
    assert!(task.finished);
    assert_eq!(task.create_date, Some(Date::from_ymd(2016, 3, 27)));
    assert_eq!(task.finish_date, None);
    assert_eq!(task.subject, "subject");
}

#[test]
fn finish_date_kept_with_priority() {
    let task = Task::from_str("x 2016-03-27 (B) errand").unwrap();
    assert!(task.finished);
    assert_eq!(task.priority, 1);
    assert_eq!(task.finish_date, Some(Date::from_ymd(2016, 3, 27)));
    assert_eq!(task.create_date, None);
    assert_eq!(task.subject, "errand");
}

#[test]
fn token_extraction_literal_case() {
    let line = "(A) 2016-03-24 22:00 go to class @microfon rec:+1w \
                due:2016-04-05 t:2016-04-05 at:20:00";
    let task = Task::from_str(line).unwrap();
    assert_eq!(task.priority, 0);
    assert_eq!(task.create_date, Some(Date::from_ymd(2016, 3, 24)));
    assert_eq!(task.contexts, vec!["microfon".to_owned()]);
    assert_eq!(task.recurrence, Some(Recurrence::Weekly(true, 1)));
    assert_eq!(task.due_date, Some(Date::from_ymd(2016, 4, 5)));
    assert_eq!(task.threshold_date, Some(Date::from_ymd(2016, 4, 5)));
    assert_eq!(task.tags, vec![("at".to_owned(), "20:00".to_owned())]);
    assert_eq!(task.subject, "22:00 go to class @microfon");
}

#[test]
fn empty_context_not_registered() {
    let task = Task::from_str("@ subject").unwrap();
    assert!(task.contexts.is_empty());
    assert_eq!(task.subject, "@ subject");
}

#[test]
fn token_at_end_of_line_registered() {
    let task = Task::from_str("text +project").unwrap();
    assert_eq!(task.projects, vec!["project".to_owned()]);
    assert_eq!(task.subject, "text +project");
}

#[test]
fn empty_line_gives_empty_record() {
    let task = Task::from_str("").unwrap();
    assert_eq!(
        task,
        Task {
            priority: 26,
            ..Task::default()
        }
    );
}

#[test]
fn malformed_reserved_values_are_absent() {
    let task = Task::from_str("pay bill due:2020-13-01 rec:5q t:soon").unwrap();
    assert_eq!(task.due_date, None);
    assert_eq!(task.recurrence, None);
    assert_eq!(task.threshold_date, None);
    assert_eq!(task.subject, "pay bill");
}

#[test]
fn duplicate_tag_key_last_wins() {
    let task = Task::from_str("note k:1 k:2").unwrap();
    assert_eq!(task.tags, vec![("k".to_owned(), "2".to_owned())]);
}

#[test]
fn header_date_needs_trailing_space() {
    let task = Task::from_str("2016-03-24").unwrap();
    assert_eq!(task.create_date, None);
    assert_eq!(task.subject, "2016-03-24");
}

#[test]
fn render_exact() {
    let task = Task {
        subject: "call mom".to_owned(),
        priority: 0,
        create_date: Some(Date::from_ymd(2016, 3, 24)),
        finish_date: Some(Date::from_ymd(2016, 3, 27)),
        finished: true,
        threshold_date: Some(Date::from_ymd(2020, 4, 14)),
        due_date: Some(Date::from_ymd(2020, 8, 14)),
        recurrence: Some(Recurrence::Daily(false, 2)),
        contexts: vec![],
        projects: vec![],
        hashtags: vec![],
        tags: vec![("at".to_owned(), "20:00".to_owned())],
    };
    assert_eq!(
        task.render(),
        "x 2016-03-27 (A) 2016-03-24 call mom due:2020-08-14 t:2020-04-14 rec:2d at:20:00"
    );
}

#[test]
fn render_without_markers() {
    let task = Task {
        subject: "plain".to_owned(),
        priority: 26,
        ..Task::default()
    };
    assert_eq!(task.render(), "plain");
}

#[test]
fn raw_subject_keeps_tags_in_place() {
    let line = "(A) 2016-03-24 22:00 go to class @microfon rec:+1w \
                due:2016-04-05 t:2016-04-05 at:20:00";
    assert_eq!(
        Task::raw_subject(line),
        "22:00 go to class @microfon rec:+1w due:2016-04-05 t:2016-04-05 at:20:00"
    );
    assert_eq!(Task::raw_subject("x 2016-03-27 subject"), "subject");
    assert_eq!(Task::raw_subject("no header at all"), "no header at all");
}

#[test]
fn hashtags_registered() {
    let task = Task::from_str("fix the sink #home #urgent").unwrap();
    assert_eq!(task.hashtags, vec!["home".to_owned(), "urgent".to_owned()]);
    assert_eq!(task.subject, "fix the sink #home #urgent");
}

#[test]
fn full_round_trip_with_tokens_and_tags() {
    let line = "x 2016-03-27 (B) 2016-03-24 ship the crate @desk #release k:v \
                due:2020-08-14 t:2020-04-14";
    let task = Task::from_str(line).unwrap();
    assert_eq!(task.subject, "ship the crate @desk #release");
    let rendered = task.render();
    assert_eq!(
        rendered,
        "x 2016-03-27 (B) 2016-03-24 ship the crate @desk #release \
         due:2020-08-14 t:2020-04-14 k:v"
    );
    assert_eq!(Task::from_str(&rendered).unwrap(), task);
}

#[test]
fn recurrence_survives_round_trip() {
    let task = Task::from_str("water plants rec:+1w due:2020-08-14").unwrap();
    assert_eq!(task.recurrence, Some(Recurrence::Weekly(true, 1)));
    let rendered = task.render();
    assert_eq!(rendered, "water plants due:2020-08-14 rec:+1w");
    let again = Task::from_str(&rendered).unwrap();
    assert_eq!(again.recurrence, Some(Recurrence::Weekly(true, 1)));
    assert_eq!(again, task);
}

#[test]
fn render_then_reparse_recovers_record() {
    let original = "(A) 2016-03-24 hello @home +fun due:2020-08-14";
    let task = Task::from_str(original).unwrap();
    let rendered = task.render();
    assert_eq!(rendered, original);
    let again = Task::from_str(&rendered).unwrap();
    assert_eq!(task, again);
}
