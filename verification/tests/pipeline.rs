use lst::entries::{FsKind, FsObject, FsSnapshot};
use lst::errors::LstError;
use lst::filters::DotFilesFilter;
use lst::formatters::NameOnlyFormatter;
use lst::readers::{FileSystemReader, IoError};
use lst::sorters::TimeSorter;
use lst::validators::{FileSystemValidator, ValidationError};
use lst::{Filter, Location, Lst, Reader};

fn obj(
    path: &str,
    parent: &str,
    name: &str,
    kind: FsKind,
    created: Option<u64>,
    readable: bool,
) -> FsObject {
    FsObject {
        path: String::from(path),
        parent: String::from(parent),
        name: String::from(name),
        kind,
        created,
        modified: None,
        readable,
    }
}

fn dir(path: &str, parent: &str, name: &str) -> FsObject {
    obj(path, parent, name, FsKind::Directory, Some(0), true)
}

fn file(path: &str, parent: &str, name: &str, created: u64) -> FsObject {
    obj(path, parent, name, FsKind::File, Some(created), true)
}

fn pipeline(
    objects: Vec<FsObject>,
    location: &str,
) -> Lst<NameOnlyFormatter, FileSystemReader, FileSystemValidator, DotFilesFilter, TimeSorter> {
    let mut l = Lst::new(Location::new(String::from(location)));
    l.validator(FileSystemValidator::with_snapshot(FsSnapshot::new(objects.clone())));
    l.reader(FileSystemReader::with_snapshot(FsSnapshot::new(objects)));
    l
}

#[test]
fn it_works() {
    let result: i32 = 4;
    assert_eq!(result, 4);
}

#[test]
fn validation_failure_never_reads() {
    let mut l = pipeline(vec![], "/definitely/does/not/exist");
    assert_eq!(
        l.generate(),
        Err(LstError::Validation(ValidationError))
    );
}

#[test]
fn default_pipeline_rejects_everything() {
    let mut l = Lst::new(Location::new(String::from(".")));
    assert_eq!(
        l.generate(),
        Err(LstError::Validation(ValidationError))
    );
}

#[test]
fn other_kind_fails_validation() {
    let objects = vec![obj("/dev/odd", "/dev", "odd", FsKind::Other, Some(1), true)];
    let mut l = pipeline(objects, "/dev/odd");
    assert_eq!(
        l.generate(),
        Err(LstError::Validation(ValidationError))
    );
}

#[test]
fn single_file_lists_itself() {
    let objects = vec![
        dir(".", "", "."),
        file("notes.txt", ".", "notes.txt", 7),
    ];
    let mut l = pipeline(objects, "notes.txt");
    assert_eq!(l.generate(), Ok(String::from("notes.txt\n")));
}

#[test]
fn file_without_parent_lists_nothing() {
    let objects = vec![obj("/", "", "/", FsKind::File, Some(1), true)];
    let mut l = pipeline(objects, "/");
    assert_eq!(l.generate(), Ok(String::new()));
}

#[test]
fn file_with_unlisted_parent_is_io_error() {
    let objects = vec![file("d/leaf", "d", "leaf", 3)];
    let mut l = pipeline(objects, "d/leaf");
    assert_eq!(l.generate(), Err(LstError::Io(IoError)));
}

#[test]
fn empty_directory_yields_empty_string() {
    let objects = vec![dir("/tmp/empty", "/tmp", "empty")];
    let mut l = pipeline(objects, "/tmp/empty");
    assert_eq!(l.generate(), Ok(String::new()));
}

#[test]
fn unreadable_directory_is_io_error() {
    let objects = vec![obj("/locked", "", "locked", FsKind::Directory, Some(1), false)];
    let mut l = pipeline(objects, "/locked");
    assert_eq!(l.generate(), Err(LstError::Io(IoError)));
}

#[test]
fn dot_entries_are_filtered() {
    let objects = vec![
        dir("d", "", "d"),
        file("d/a", "d", "a", 3),
        file("d/.hidden", "d", ".hidden", 4),
        file("d/.", "d", ".", 5),
    ];
    let mut l = pipeline(objects, "d");
    assert_eq!(l.generate(), Ok(String::from("a\n")));
}

#[test]
fn listing_is_sorted_newest_first() {
    let objects = vec![
        dir("d", "", "d"),
        file("d/old", "d", "old", 1),
        file("d/new", "d", "new", 9),
        file("d/mid", "d", "mid", 5),
    ];
    let mut l = pipeline(objects, "d");
    assert_eq!(l.generate(), Ok(String::from("new\nmid\nold\n")));
}

#[test]
fn equal_timestamps_keep_both_entries() {
    let objects = vec![
        dir("d", "", "d"),
        file("d/a", "d", "a", 5),
        file("d/b", "d", "b", 5),
    ];
    let mut l = pipeline(objects, "d");
    assert_eq!(l.generate(), Ok(String::from("a\nb\n")));
}

#[test]
fn empty_name_still_gets_a_line() {
    let objects = vec![dir("d", "", "d"), file("d/", "d", "", 1)];
    let mut l = pipeline(objects, "d");
    assert_eq!(l.generate(), Ok(String::from("\n")));
}

#[test]
fn missing_creation_time_fails_the_sort() {
    let objects = vec![
        dir("d", "", "d"),
        obj("d/a", "d", "a", FsKind::File, None, true),
    ];
    let mut l = pipeline(objects, "d");
    let r = l.generate();
    assert!(matches!(r, Err(LstError::Stage(_))));
}

#[test]
fn generate_is_idempotent() {
    let objects = vec![
        dir("d", "", "d"),
        file("d/x", "d", "x", 2),
        file("d/y", "d", "y", 8),
    ];
    let mut l = pipeline(objects, "d");
    let first = l.generate();
    let second = l.generate();
    assert_eq!(first, Ok(String::from("y\nx\n")));
    assert_eq!(first, second);
}

#[test]
fn location_change_never_leaks_old_entries() {
    let objects = vec![
        dir("a", "", "a"),
        file("a/alpha", "a", "alpha", 1),
        dir("b", "", "b"),
        file("b/beta", "b", "beta", 2),
    ];
    let mut l = pipeline(objects, "a");
    assert_eq!(l.generate(), Ok(String::from("alpha\n")));
    l.location(Location::new(String::from("b")));
    assert_eq!(l.generate(), Ok(String::from("beta\n")));
}

#[test]
fn location_change_clears_the_buffer() {
    let objects = vec![dir("a", "", "a"), file("a/alpha", "a", "alpha", 1)];
    let mut l = pipeline(objects, "a");
    l.generate().unwrap();
    assert!(!l.contents.is_empty());
    l.location(Location::new(String::from("a")));
    assert!(l.contents.is_empty());
}

#[test]
fn reader_reports_dot_entries() {
    let objects = vec![dir("d", "", "d"), file("d/.hidden", "d", ".hidden", 1)];
    let reader = FileSystemReader::with_snapshot(FsSnapshot::new(objects));
    let mut buffer = Vec::new();
    reader.read("d", &mut buffer).unwrap();
    assert_eq!(buffer.len(), 1);
    assert_eq!(buffer[0].name, ".hidden");
}

#[test]
fn filter_removes_dot_entries_in_place() {
    let objects = vec![
        dir("d", "", "d"),
        file("d/.hidden", "d", ".hidden", 1),
        file("d/seen", "d", "seen", 2),
    ];
    let reader = FileSystemReader::with_snapshot(FsSnapshot::new(objects));
    let mut buffer = Vec::new();
    reader.read("d", &mut buffer).unwrap();
    assert_eq!(buffer.len(), 2);
    DotFilesFilter::new().filter(&mut buffer).unwrap();
    assert_eq!(buffer.len(), 1);
    assert_eq!(buffer[0].name, "seen");
}

#[test]
fn validation_error_message() {
    assert_eq!(ValidationError.message(), "No such file or directory");
}

#[test]
fn constructors_build_default_stages() {
    let _ = DotFilesFilter::new();
    let _ = TimeSorter::new();
    let _ = NameOnlyFormatter::new();
    let v = FileSystemValidator::new();
    let r = FileSystemReader::new();
    assert!(v.snapshot.objects.is_empty());
    assert!(r.snapshot.objects.is_empty());
}
