use task_manager::date::Date;
use task_manager::filter::{
    due_date_text, filter_tasks, filter_tasks_on, is_task_file, matches_filter, report_task,
    select_tasks, task_due_date, task_title, FilterError, FilterMode, FilterReport, TaskFile,
    TaskListing,
};

fn date(year: i32, month: u32, day: u32) -> Date {
    Date::from_ymd(year, month, day).unwrap()
}

fn file(name: &str, contents: &str) -> TaskFile {
    TaskFile {
        name: name.to_string(),
        path: format!("./{}", name),
        contents: Some(contents.to_string()),
    }
}

fn task(title: &str, due: &str, rest: &str) -> String {
    format!("Title: {}\nDescription: something\nDue Date: {}\n{}", title, due, rest)
}

fn titles(report: &FilterReport) -> Vec<String> {
    report.tasks.iter().map(|t| t.title.clone()).collect()
}

fn scan(mode: &str, files: &Vec<TaskFile>, today: Date) -> Vec<String> {
    titles(&filter_tasks_on(mode, Some(files), today).unwrap())
}

fn today() -> Date {
    date(2024, 6, 15)
}

#[test]
fn unknown_mode_fails_with_invalid_filter_option() {
    let files = vec![file("a.txt", &task("a", "2020-01-01", ""))];
    for mode in ["soon", "", "Due", "DUE", "due ", " due", "upcomin", "upcoming!", "completed"] {
        match filter_tasks_on(mode, Some(&files), today()) {
            Err(e) => assert_eq!(e, FilterError::InvalidFilterOption),
            Ok(_) => panic!("{:?} was accepted", mode),
        }
        match filter_tasks(mode, Some(&files)) {
            Err(e) => assert_eq!(e, FilterError::InvalidFilterOption),
            Ok(_) => panic!("{:?} was accepted", mode),
        }
        assert_eq!(FilterMode::parse(mode), Err(FilterError::InvalidFilterOption));
    }
}

#[test]
fn unknown_mode_fails_before_the_directory_is_looked_at() {
    match filter_tasks_on("soon", None, today()) {
        Err(e) => assert_eq!(e, FilterError::InvalidFilterOption),
        Ok(_) => panic!("accepted"),
    }
    match filter_tasks("soon", None) {
        Err(e) => assert_eq!(e, FilterError::InvalidFilterOption),
        Ok(_) => panic!("accepted"),
    }
    let empty: Vec<TaskFile> = Vec::new();
    match filter_tasks_on("soon", Some(&empty), today()) {
        Err(e) => assert_eq!(e, FilterError::InvalidFilterOption),
        Ok(_) => panic!("accepted"),
    }
}

#[test]
fn unreadable_directory_fails_with_directory_read_error() {
    for mode in ["due", "upcoming"] {
        match filter_tasks_on(mode, None, today()) {
            Err(e) => assert_eq!(e, FilterError::DirectoryReadError),
            Ok(_) => panic!("accepted"),
        }
        match filter_tasks(mode, None) {
            Err(e) => assert_eq!(e, FilterError::DirectoryReadError),
            Ok(_) => panic!("accepted"),
        }
    }
}

#[test]
fn modes_are_read_exactly() {
    assert_eq!(FilterMode::parse("due"), Ok(FilterMode::Due));
    assert_eq!(FilterMode::parse("upcoming"), Ok(FilterMode::Upcoming));
    assert_eq!(FilterMode::Due.word(), "due");
    assert_eq!(FilterMode::Upcoming.word(), "upcoming");
}

#[test]
fn error_messages() {
    assert_eq!(FilterError::DirectoryReadError.message(), "Failed to read task directory.");
    assert_eq!(FilterError::InvalidFilterOption.message(), "Invalid filter option.");
}

#[test]
fn file_without_due_date_line_is_never_reported() {
    let bodies = [
        "",
        "Title: a\nDescription: b\n",
        "Title: a\nDescription: b\n[Complete]\n[Incomplete]\n",
        " Due Date: 2020-01-01\n",
        "due date: 2020-01-01\n",
        "Due Date 2020-01-01\n",
        "Title: Due Date: 2020-01-01\n",
        "DueDate: 2020-01-01\n[Complete]",
    ];
    for body in bodies {
        let files = vec![file("a.txt", body)];
        assert_eq!(scan("due", &files, today()), Vec::<String>::new(), "{:?}", body);
        assert_eq!(scan("upcoming", &files, today()), Vec::<String>::new(), "{:?}", body);
        assert_eq!(task_due_date(body), None);
        assert_eq!(due_date_text(body), None);
    }
}

#[test]
fn files_that_are_no_task_files_are_never_scanned() {
    let body = task("x", "2020-01-01", "[Complete]\n[Incomplete]\n");
    let names = [
        "a.md",
        "a",
        "README",
        "a.txt.md",
        "a.TXT",
        "a.Txt",
        "a.txt ",
        "a.txtx",
        "atxt",
        ".txt",
        "txt",
        "a.tx",
        "",
        "a.",
    ];
    for name in names {
        let files = vec![file(name, &body)];
        assert_eq!(scan("due", &files, today()), Vec::<String>::new(), "{:?}", name);
        assert_eq!(scan("upcoming", &files, today()), Vec::<String>::new(), "{:?}", name);
        assert!(!is_task_file(name), "{:?}", name);
        assert_eq!(task_title(name), None, "{:?}", name);
    }
}

#[test]
fn task_file_names_and_titles() {
    assert!(is_task_file("a.txt"));
    assert_eq!(task_title("a.txt"), Some("a".to_string()));
    assert_eq!(task_title("my task.txt"), Some("my task".to_string()));
    assert_eq!(task_title("a.b.txt"), Some("a.b".to_string()));
    assert_eq!(task_title("..txt"), Some(".".to_string()));
    assert_eq!(task_title(".hidden.txt"), Some(".hidden".to_string()));
    assert_eq!(task_title("\u{e9}t\u{e9}.txt"), Some("\u{e9}t\u{e9}".to_string()));
    assert_eq!(task_title("a.txt.txt"), Some("a.txt".to_string()));
}

#[test]
fn task_file_names_agree_with_path_extension() {
    let names = [
        "a.txt", "a.md", "a", ".txt", "..txt", "a.b.txt", "a.TXT", "a.txt.md", "a.", "txt", "..",
        ".", "a..txt", ".a.txt", "a.txtx", "x.tXt",
    ];
    for name in names {
        let path = std::path::Path::new(name);
        let expected = path.extension().map(|e| e == "txt").unwrap_or(false);
        assert_eq!(is_task_file(name), expected, "{:?}", name);
        if expected {
            let stem = path.file_stem().unwrap().to_str().unwrap().to_string();
            assert_eq!(task_title(name), Some(stem), "{:?}", name);
        }
    }
}

#[test]
fn past_task_without_tag_is_due_and_not_upcoming() {
    let files = vec![file("a.txt", "Title: a\nDescription: d\nDue Date: 2020-01-01\n")];
    assert_eq!(scan("due", &files, today()), vec!["a"]);
    assert_eq!(scan("upcoming", &files, today()), Vec::<String>::new());
    let now_due = filter_tasks("due", Some(&files)).unwrap();
    assert_eq!(titles(&now_due), vec!["a"]);
    assert_eq!(now_due.tasks[0].path, "./a.txt");
    let now_upcoming = filter_tasks("upcoming", Some(&files)).unwrap();
    assert_eq!(titles(&now_upcoming), Vec::<String>::new());
}

#[test]
fn future_task_marked_complete_is_due() {
    let files = vec![file("b.txt", "Title: b\nDescription: d\nDue Date: 2999-01-01\n[Complete]\n")];
    assert_eq!(scan("due", &files, today()), vec!["b"]);
    let now_due = filter_tasks("due", Some(&files)).unwrap();
    assert_eq!(titles(&now_due), vec!["b"]);
    assert_eq!(now_due.tasks[0].path, "./b.txt");
    assert_eq!(now_due.mode, FilterMode::Due);
    // Its date is in the future, so it is upcoming as well.
    assert_eq!(scan("upcoming", &files, today()), vec!["b"]);
    assert_eq!(titles(&filter_tasks("upcoming", Some(&files)).unwrap()), vec!["b"]);
}

#[test]
fn future_task_without_tag_is_upcoming_and_not_due() {
    let files = vec![file("c.txt", &task("c", "2999-01-01", ""))];
    assert_eq!(scan("due", &files, today()), Vec::<String>::new());
    assert_eq!(scan("upcoming", &files, today()), vec!["c"]);
    assert_eq!(titles(&filter_tasks("due", Some(&files)).unwrap()), Vec::<String>::new());
    assert_eq!(titles(&filter_tasks("upcoming", Some(&files)).unwrap()), vec!["c"]);
}

#[test]
fn past_task_marked_incomplete_is_upcoming_too() {
    let files = vec![file("d.txt", &task("d", "2020-01-01", "[Incomplete]\n"))];
    assert_eq!(scan("upcoming", &files, today()), vec!["d"]);
    assert_eq!(scan("due", &files, today()), vec!["d"]);
}

#[test]
fn task_due_today_is_due_and_not_upcoming() {
    let files = vec![file("t.txt", &task("t", "2024-06-15", ""))];
    assert_eq!(scan("due", &files, today()), vec!["t"]);
    assert_eq!(scan("upcoming", &files, today()), Vec::<String>::new());
    assert_eq!(scan("due", &files, date(2024, 6, 14)), Vec::<String>::new());
    assert_eq!(scan("upcoming", &files, date(2024, 6, 14)), vec!["t"]);
    assert_eq!(scan("due", &files, date(2024, 6, 16)), vec!["t"]);
    assert_eq!(scan("upcoming", &files, date(2024, 6, 16)), Vec::<String>::new());
}

#[test]
fn empty_directory_reports_that_nothing_was_found() {
    let files: Vec<TaskFile> = Vec::new();
    let due = filter_tasks_on("due", Some(&files), today()).unwrap();
    assert_eq!(due.tasks.len(), 0);
    assert_eq!(due.lines(), vec!["No due tasks found."]);
    let upcoming = filter_tasks_on("upcoming", Some(&files), today()).unwrap();
    assert_eq!(upcoming.tasks.len(), 0);
    assert_eq!(upcoming.lines(), vec!["No upcoming tasks found."]);
    let due_now = filter_tasks("due", Some(&files)).unwrap();
    assert_eq!(due_now.tasks.len(), 0);
    assert_eq!(due_now.lines(), vec!["No due tasks found."]);
    let upcoming_now = filter_tasks("upcoming", Some(&files)).unwrap();
    assert_eq!(upcoming_now.tasks.len(), 0);
    assert_eq!(upcoming_now.lines(), vec!["No upcoming tasks found."]);
}

#[test]
fn unparsable_due_date_is_skipped_in_silence() {
    let files = vec![file("a.txt", "Title: a\nDue Date: not-a-date\n[Complete]\n[Incomplete]\n")];
    for mode in ["due", "upcoming"] {
        let report = filter_tasks_on(mode, Some(&files), today()).unwrap();
        assert_eq!(report.tasks.len(), 0);
        let now = filter_tasks(mode, Some(&files)).unwrap();
        assert_eq!(now.tasks.len(), 0);
    }
    assert_eq!(due_date_text("Title: a\nDue Date: not-a-date\n"), Some("not-a-date".to_string()));
    assert_eq!(task_due_date("Title: a\nDue Date: not-a-date\n"), None);
    assert_eq!(task_due_date("Due Date: 2023-02-30\n"), None);
    assert_eq!(task_due_date("Due Date:\n"), None);
}

#[test]
fn unreadable_file_is_skipped_in_silence() {
    let files = vec![
        TaskFile { name: "a.txt".to_string(), path: "./a.txt".to_string(), contents: None },
        file("b.txt", &task("b", "2020-01-01", "")),
    ];
    assert_eq!(scan("due", &files, today()), vec!["b"]);
    assert_eq!(scan("upcoming", &files, today()), Vec::<String>::new());
}

#[test]
fn reports_follow_the_order_of_the_listing() {
    let files = vec![
        file("zeta.txt", &task("z", "2020-01-01", "")),
        file("notes.md", &task("n", "2020-01-01", "")),
        file("alpha.txt", &task("a", "2999-01-01", "")),
        file("mid.txt", &task("m", "2021-05-05", "")),
        file("broken.txt", "nothing here"),
        file("beta.txt", &task("b", "2019-12-31", "")),
    ];
    assert_eq!(scan("due", &files, today()), vec!["zeta", "mid", "beta"]);
    assert_eq!(scan("upcoming", &files, today()), vec!["alpha"]);
    let report = filter_tasks_on("due", Some(&files), today()).unwrap();
    let paths: Vec<String> = report.tasks.iter().map(|t| t.path.clone()).collect();
    assert_eq!(paths, vec!["./zeta.txt", "./mid.txt", "./beta.txt"]);
    let mut reversed = files.clone();
    reversed.reverse();
    assert_eq!(scan("due", &reversed, today()), vec!["beta", "mid", "zeta"]);
}

#[test]
fn taking_out_an_unreported_file_changes_nothing() {
    let files = vec![
        file("a.txt", &task("a", "2020-01-01", "")),
        file("b.txt", "no date"),
        file("c.md", &task("c", "2020-01-01", "")),
        file("d.txt", &task("d", "2020-02-02", "")),
    ];
    let all = scan("due", &files, today());
    for at in [1usize, 2] {
        let mut fewer = files.clone();
        fewer.remove(at);
        assert_eq!(scan("due", &fewer, today()), all);
    }
}

#[test]
fn report_lines_show_title_and_path() {
    let report = FilterReport {
        mode: FilterMode::Due,
        tasks: vec![
            TaskListing { title: "a".to_string(), path: "./a.txt".to_string() },
            TaskListing { title: "b c".to_string(), path: "./b c.txt".to_string() },
        ],
    };
    assert_eq!(report.lines(), vec!["Title: a", "Path: ./a.txt", "Title: b c", "Path: ./b c.txt"]);
    let one = FilterReport {
        mode: FilterMode::Upcoming,
        tasks: vec![TaskListing { title: "".to_string(), path: "".to_string() }],
    };
    assert_eq!(one.lines(), vec!["Title: ", "Path: "]);
}

#[test]
fn first_due_date_line_counts() {
    let body = "Title: a\nDue Date: 2020-01-01\nDue Date: 2999-01-01\n";
    assert_eq!(task_due_date(body), Some(date(2020, 1, 1)));
    let body = "Due Date: nonsense\nDue Date: 2999-01-01\n";
    assert_eq!(task_due_date(body), None);
    let body = "Due Date: 2031-03-04";
    assert_eq!(task_due_date(body), Some(date(2031, 3, 4)));
    let body = "\n\nDue Date: 2031-03-04\n";
    assert_eq!(task_due_date(body), Some(date(2031, 3, 4)));
}

#[test]
fn due_date_text_is_the_trimmed_field_up_to_the_next_colon() {
    assert_eq!(due_date_text("Due Date: 2020-01-01\n"), Some("2020-01-01".to_string()));
    assert_eq!(due_date_text("Due Date:2020-01-01"), Some("2020-01-01".to_string()));
    assert_eq!(due_date_text("Due Date:   2020-01-01  \t\n"), Some("2020-01-01".to_string()));
    assert_eq!(due_date_text("Due Date: 2020-01-01\r\nmore"), Some("2020-01-01".to_string()));
    assert_eq!(due_date_text("Due Date: 2020-01-01: noon\n"), Some("2020-01-01".to_string()));
    assert_eq!(due_date_text("Due Date: 12:30\n"), Some("12".to_string()));
    assert_eq!(due_date_text("Due Date::2020-01-01\n"), Some("".to_string()));
    assert_eq!(due_date_text("Due Date:\nnext: line"), Some("".to_string()));
    assert_eq!(due_date_text("Due Date: a b \n"), Some("a b".to_string()));
    assert_eq!(task_due_date("Due Date: 2020-01-01: noon\n"), Some(date(2020, 1, 1)));
    assert_eq!(task_due_date("Due Date: 2020-01-01\r\n"), Some(date(2020, 1, 1)));
}

#[test]
fn due_date_text_agrees_with_the_std_pipeline() {
    let bodies = [
        "Title: a\nDescription: b\nDue Date: 2020-01-01\n",
        "Due Date: 2020-01-01\r\nx",
        "Due Date: 2020-01-01\r",
        "a\r\nDue Date:\t2020-1-1 :x\r\n",
        "Due Date:",
        "x\nDue Date: \u{a0}y\u{a0}",
        "nothing",
        "Due Date 1\n\nDue Date:2\n",
        "x Due Date: 1\nDue Date: 3:4:5\n",
    ];
    for body in bodies {
        let expected = body
            .lines()
            .find(|line| line.starts_with("Due Date:"))
            .and_then(|line| line.split(":").nth(1))
            .map(|field| field.trim().to_string());
        assert_eq!(due_date_text(body), expected, "{:?}", body);
    }
}

#[test]
fn tags_are_found_anywhere_and_exactly() {
    let due = date(2999, 1, 1);
    let past = date(2000, 1, 1);
    let now = today();
    assert!(matches_filter(FilterMode::Due, "x[Complete]y", due, now));
    assert!(!matches_filter(FilterMode::Due, "[complete]", due, now));
    assert!(!matches_filter(FilterMode::Due, "[Complete", due, now));
    assert!(!matches_filter(FilterMode::Due, "[Incomplete]", due, now));
    assert!(matches_filter(FilterMode::Due, "", past, now));
    assert!(matches_filter(FilterMode::Due, "", now, now));
    assert!(matches_filter(FilterMode::Upcoming, "x[Incomplete]y", past, now));
    assert!(!matches_filter(FilterMode::Upcoming, "[Complete]", past, now));
    assert!(!matches_filter(FilterMode::Upcoming, "[incomplete]", past, now));
    assert!(!matches_filter(FilterMode::Upcoming, "", now, now));
    assert!(matches_filter(FilterMode::Upcoming, "", due, now));
}

#[test]
fn report_task_gives_title_and_path() {
    let f = file("plan.txt", &task("p", "2020-01-01", ""));
    let listing = report_task(FilterMode::Due, &f, today()).unwrap();
    assert_eq!(listing.title, "plan");
    assert_eq!(listing.path, "./plan.txt");
    assert!(report_task(FilterMode::Upcoming, &f, today()).is_none());
    let other = file("plan.md", &task("p", "2020-01-01", ""));
    assert!(report_task(FilterMode::Due, &other, today()).is_none());
}

#[test]
fn select_tasks_keeps_the_reported_files() {
    let files = vec![
        file("a.txt", &task("a", "2020-01-01", "")),
        file("b.txt", &task("b", "2999-01-01", "")),
    ];
    let due = select_tasks(FilterMode::Due, &files, today());
    assert_eq!(due.len(), 1);
    assert_eq!(due[0].title, "a");
    let upcoming = select_tasks(FilterMode::Upcoming, &files, today());
    assert_eq!(upcoming.len(), 1);
    assert_eq!(upcoming[0].title, "b");
}
