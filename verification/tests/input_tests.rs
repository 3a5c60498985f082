//! Tests for file-type detection, entries, and tasks.

use dmarc_rs::entry::{handle_one_file, Entry};
use dmarc_rs::filetype::Input;
use dmarc_rs::task::Task;

#[test]
fn test_set() {
    let e = Entry::new("foo").set(Input::Gzip);
    assert_eq!(Input::Gzip, e.ft);
}

#[test]
fn test_entry_new() {
    let e = Entry::new("foo.zip");
    assert_eq!("foo.zip", e.path());
    assert_eq!(Input::Zip, e.ft);
    assert_eq!(Input::Zip, e.input_type());
}

#[test]
fn test_entry_default() {
    let e = Entry::default();
    assert_eq!("", e.path());
    assert_eq!(Input::Unknown, e.ft);
}

#[test]
fn test_input_from_str() {
    let cases = [
        ("foo", Input::Xml),
        ("foo.txt", Input::Xml),
        ("foo.zip", Input::Zip),
        ("foo.ZIP", Input::Zip),
        ("foo.gz", Input::Gzip),
        ("foo.GZ", Input::Gzip),
        ("foo.Gz", Input::Gzip),
        ("foo.xml", Input::Xml),
        ("foo.XML", Input::Xml),
        ("foo.csv", Input::Csv),
        ("foo.CSV", Input::Csv),
        ("foo.tar.GZ", Input::TarGzip),
        ("foo.tGZ", Input::TarGzip),
        ("foo.bar", Input::Unknown),
        // A leading dot does not make an extension, and a directory's dot
        // does not belong to the file name.
        (".CSV", Input::Xml),
        ("", Input::Xml),
        ("dir.zip/foo", Input::Xml),
        ("dir/foo.csv", Input::Csv),
        ("foo.", Input::Unknown),
    ];
    for (f, t) in cases {
        assert_eq!(t, Input::from_path(f), "path {:?}", f);
    }
}

#[test]
fn test_input_from_tag() {
    assert_eq!(Input::Csv, Input::from_tag("csv"));
    assert_eq!(Input::Xml, Input::from_tag("txt"));
    assert_eq!(Input::Xml, Input::from_tag("xml"));
    assert_eq!(Input::Gzip, Input::from_tag("gzip"));
    assert_eq!(Input::Gzip, Input::from_tag("gz"));
    assert_eq!(Input::Zip, Input::from_tag("zip"));
    assert_eq!(Input::TarGzip, Input::from_tag("tgz"));
    assert_eq!(Input::Unknown, Input::from_tag("CSV"));
    assert_eq!(Input::Unknown, Input::from_tag("whatever"));
}

#[test]
fn test_valid_input() {
    assert!(Input::from_path("foo.csv").valid());
    assert!(Input::from_path("foo.zip").valid());
    assert!(!Input::from_path("foo.bar").valid());
    assert!(!Input::Unknown.valid());
    assert!(Input::Xml.valid());
}

#[test]
fn test_handle_one_file() {
    assert_eq!(Some("csv".to_string()), handle_one_file(&Entry::new("a.csv")));
    assert_eq!(Some("xml".to_string()), handle_one_file(&Entry::new("a.xml")));
    assert_eq!(Some("zip".to_string()), handle_one_file(&Entry::new("a.zip")));
    assert_eq!(Some("gzip".to_string()), handle_one_file(&Entry::new("a.gz")));
    assert_eq!(Some("tgz".to_string()), handle_one_file(&Entry::new("a.tgz")));
    assert_eq!(None, handle_one_file(&Entry::new("a.bar")));
}

#[test]
fn test_from_files() {
    let t = Task::from_list(vec![]);

    assert!(t.list().is_empty());
}

#[test]
fn test_task_files_list() {
    let t = Task::from_list(vec!["foo.xml".to_string(), "bar.zip".to_string()]);
    assert_eq!(vec!["foo.xml".to_string(), "bar.zip".to_string()], t.list());
}

#[test]
fn test_task_stream_list() {
    let t = Task::from_stream(Input::Xml);
    let l = t.list();
    assert_eq!(1, l.len());
    assert_eq!("<STDIN>", l[0]);
}
