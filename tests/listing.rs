use files::error::AppError;
use files::file::{collect_listing, File, RawEntry};
use files::listing::{format_size, prepare_listing, FileListQuery, GetIndexQuery};
use files::path::{join, PathError, PathRequest};
use files::sorting::{deserialize_sorting, FileSorter, SortOrder, SortType, SortTypeDefault};

fn file(name: &str, size: u64, modified: u64, is_directory: bool) -> File {
    File {
        name: name.to_string(),
        modified,
        size,
        path: ".".to_string(),
        is_directory,
        date_modified: String::new(),
    }
}

fn raw(name: Option<&str>, modified: Option<u64>) -> RawEntry {
    RawEntry {
        name: name.map(|n| n.to_string()),
        parent: "docs".to_string(),
        modified,
        size: 7,
        is_directory: false,
    }
}

fn sample() -> Vec<File> {
    vec![
        file("a.txt", 100, 100, false),
        file("b.txt", 50, 200, false),
        file("sub", 4096, 150, true),
    ]
}

fn names(files: &[File]) -> Vec<String> {
    files.iter().map(|f| f.name.clone()).collect()
}

fn sorted(files: Vec<File>, by: SortType) -> Vec<String> {
    names(&FileSorter::new(files).sort(&by))
}

#[test]
fn default_sort_puts_directories_first() {
    let out = sorted(sample(), SortType::Default(SortTypeDefault::Unix));
    assert_eq!(out, vec!["sub", "a.txt", "b.txt"]);
}

#[test]
fn name_ascending_scenario() {
    let out = sorted(sample(), SortType::Name(SortOrder::Ascending));
    assert_eq!(out, vec!["a.txt", "b.txt", "sub"]);
}

#[test]
fn name_descending_is_reverse_of_ascending() {
    let mut asc = sorted(sample(), SortType::Name(SortOrder::Ascending));
    let desc = sorted(sample(), SortType::Name(SortOrder::Descending));
    asc.reverse();
    assert_eq!(asc, desc);
}

#[test]
fn names_order_bytewise() {
    let files = vec![
        file("b", 0, 0, false),
        file("B", 0, 0, false),
        file("a", 0, 0, false),
        file("ab", 0, 0, false),
        file("é", 0, 0, false),
    ];
    let out = sorted(files, SortType::Name(SortOrder::Ascending));
    assert_eq!(out, vec!["B", "a", "ab", "b", "é"]);
}

#[test]
fn size_ascending_puts_largest_first() {
    let out = sorted(sample(), SortType::Size(SortOrder::Ascending));
    assert_eq!(out, vec!["sub", "a.txt", "b.txt"]);
    let out = sorted(sample(), SortType::Size(SortOrder::Descending));
    assert_eq!(out, vec!["b.txt", "a.txt", "sub"]);
}

#[test]
fn modified_ascending_puts_newest_first() {
    let out = sorted(sample(), SortType::Modified(SortOrder::Ascending));
    assert_eq!(out, vec!["b.txt", "sub", "a.txt"]);
    let out = sorted(sample(), SortType::Modified(SortOrder::Descending));
    assert_eq!(out, vec!["a.txt", "sub", "b.txt"]);
}

#[test]
fn ties_keep_their_order() {
    let files = vec![
        file("x", 10, 0, false),
        file("y", 20, 0, false),
        file("z", 10, 0, false),
    ];
    let out = sorted(files, SortType::Size(SortOrder::Descending));
    assert_eq!(out, vec!["x", "z", "y"]);
}

#[test]
fn sorting_twice_changes_nothing() {
    let all = [
        SortType::Default(SortTypeDefault::Windows),
        SortType::Name(SortOrder::Descending),
        SortType::Size(SortOrder::Ascending),
        SortType::Modified(SortOrder::Descending),
    ];
    for by in all {
        let once = FileSorter::new(sample()).sort(&by);
        let first = names(&once);
        let twice = FileSorter::new(once).sort(&by);
        assert_eq!(names(&twice), first);
    }
}

#[test]
fn sorting_empty_listing() {
    let out = sorted(Vec::new(), SortType::Name(SortOrder::Ascending));
    assert!(out.is_empty());
}

#[test]
fn parses_every_sort_text() {
    let cases = [
        ("default.unix", SortType::Default(SortTypeDefault::Unix)),
        ("default.windows", SortType::Default(SortTypeDefault::Windows)),
        ("name.ascending", SortType::Name(SortOrder::Ascending)),
        ("name.descending", SortType::Name(SortOrder::Descending)),
        ("size.ascending", SortType::Size(SortOrder::Ascending)),
        ("size.descending", SortType::Size(SortOrder::Descending)),
        ("modified.ascending", SortType::Modified(SortOrder::Ascending)),
        ("modified.descending", SortType::Modified(SortOrder::Descending)),
    ];
    for (text, expected) in cases {
        assert_eq!(deserialize_sorting(text).unwrap(), expected);
    }
}

#[test]
fn unknown_sort_key_is_rejected() {
    match deserialize_sorting("color.ascending") {
        Err(files::sorting::SortingError::InvalidFormat(s)) => assert_eq!(s, "color.ascending"),
        Ok(_) => panic!("accepted an unknown key"),
    }
    assert!(deserialize_sorting("name").is_err());
    assert!(deserialize_sorting("name.ascending.x").is_err());
    assert!(deserialize_sorting("Name.Ascending").is_err());
    assert!(deserialize_sorting("name.sideways").is_err());
    assert!(deserialize_sorting("").is_err());
}

#[test]
fn absent_sort_parameter_gives_default() {
    let q = FileListQuery::from_param(None).unwrap();
    assert!(matches!(q.sorting, SortType::Default(_)));
    assert!(matches!(SortType::default(), SortType::Default(_)));
    let q = GetIndexQuery::from_param(Some("size.descending")).unwrap();
    assert_eq!(q.sorting, SortType::Size(SortOrder::Descending));
    assert!(GetIndexQuery::from_param(Some("color.ascending")).is_err());
    assert!(FileListQuery::from_param(Some("")).is_err());
}

#[test]
fn slash_path_is_root() {
    let slash = PathRequest::from_query(Some("/".to_string()), None);
    let none = PathRequest::from_query(None, None);
    assert_eq!(slash.directory, ".");
    assert_eq!(none.directory, ".");
    assert_eq!(slash.full_path, none.full_path);
    assert_eq!(slash.file, none.file);
    let root = PathRequest::root();
    assert_eq!(root.directory, ".");
    assert_eq!(root.full_path, ".");
}

#[test]
fn file_is_joined_to_directory() {
    let r = PathRequest::from_query(Some("docs".to_string()), Some("old.txt".to_string()));
    assert_eq!(r.directory, "docs");
    assert_eq!(r.file.as_deref(), Some("old.txt"));
    assert_eq!(r.full_path, "docs/old.txt");
    let r = PathRequest::from_query(Some("docs/sub".to_string()), None);
    assert_eq!(r.full_path, "docs/sub");
    let r = PathRequest::from_query(None, Some("x".to_string()));
    assert_eq!(r.full_path, "./x");
}

#[test]
fn join_cases() {
    assert_eq!(join("docs/", "a"), "docs/a");
    assert_eq!(join("docs", "/etc/passwd"), "/etc/passwd");
    assert_eq!(join("", "a"), "a");
    assert_eq!(join("docs", ""), "docs/");
}

#[test]
fn delete_target_needs_file() {
    let r = PathRequest::for_file(Some("docs".to_string()), Some("old.txt".to_string())).unwrap();
    assert_eq!(r.full_path, "docs/old.txt");
    assert!(matches!(
        PathRequest::for_file(Some("docs".to_string()), None),
        Err(PathError::MissingFile)
    ));
}

#[test]
fn entry_becomes_file() {
    let f = File::from_entry(raw(Some("a.txt"), Some(100))).unwrap();
    assert_eq!(f.name, "a.txt");
    assert_eq!(f.modified, 100);
    assert_eq!(f.size, 7);
    assert_eq!(f.path, "docs");
    assert!(!f.is_directory);
    assert_eq!(f.date_modified, "1970-01-01 00:01:40");
}

#[test]
fn entry_errors() {
    assert!(matches!(File::from_entry(raw(None, Some(1))), Err(AppError::NameConversion)));
    assert!(matches!(File::from_entry(raw(Some("a"), None)), Err(AppError::Foo)));
    assert!(matches!(File::from_entry(raw(None, None)), Err(AppError::Foo)));
    assert!(matches!(File::from_entry(raw(Some("a"), Some(u64::MAX))), Err(AppError::Foo)));
}

#[test]
fn listing_has_one_file_per_entry() {
    let entries = vec![raw(Some("b"), Some(2)), raw(Some("a"), Some(1))];
    let files = collect_listing(entries, None).unwrap();
    assert_eq!(names(&files), vec!["b", "a"]);
    assert!(collect_listing(Vec::new(), None).unwrap().is_empty());
}

#[test]
fn listing_stops_at_first_error() {
    let entries = vec![raw(Some("b"), Some(2)), raw(None, Some(1)), raw(Some("c"), None)];
    assert!(matches!(collect_listing(entries, Some(AppError::Foo)), Err(AppError::NameConversion)));
    let entries = vec![raw(Some("b"), Some(2))];
    assert!(matches!(collect_listing(entries, Some(AppError::Foo)), Err(AppError::Foo)));
}

#[test]
fn failed_read_is_reported_as_reading_directory() {
    let by = SortType::Name(SortOrder::Ascending);
    assert!(matches!(prepare_listing(Err(AppError::Foo), &by), Err(AppError::ReadingDirectory)));
    let out = prepare_listing(Ok(sample()), &SortType::Default(SortTypeDefault::Unix)).unwrap();
    assert_eq!(names(&out), vec!["sub", "a.txt", "b.txt"]);
}

#[test]
fn sizes_in_decimal_units() {
    assert_eq!(format_size(100), "100 B");
    assert_eq!(format_size(1500), "1.50 kB");
    assert_eq!(format_size(2_000_000), "2 MB");
}

#[test]
fn error_messages() {
    assert_eq!(AppError::ReadingDirectory.message(), "Couldn't read directory");
    assert_eq!(AppError::NameConversion.message(), "Couldn't convert");
}
