use veal::archive::archive_entry_attributes;
use veal::archive::archive_entry_names;
use veal::archive::config_entry_from_lookup;
use veal::archive::read_archive_file;
use veal::archive::read_project_config_entry;
use veal::archive::write_archive;
use veal::archive::ArchiveEntry;
use veal::archive::ArchiveWriteError;
use veal::archive::EntryCompression;
use veal::project::build_project_archive;
use veal::project::check_project_path;
use veal::project::dataset_entry_name;
use veal::project::new_project_config;
use veal::project::project_archive_entries;
use veal::project::project_file_name;
use veal::project::same_text;
use veal::project::ProjectLoadError;
use veal::project::PROJECT_ENTRY_MODE;

fn invalid_format_message(res: Result<(), ProjectLoadError>) -> String {
    match res {
        Err(ProjectLoadError::InvalidFormat(m)) => m,
        other => panic!("expected an invalid-format error, got {:?}", other),
    }
}

#[test]
fn empty_target_text_is_stored_as_none() {
    let c = new_project_config("demo", "white-box", "probe", "", None, "2024-01-01T00:00:00+00:00".to_string());
    assert_eq!(c.project_name, "demo");
    assert_eq!(c.threat_model, "white-box");
    assert_eq!(c.experiment_objective, "probe");
    assert_eq!(c.target_text, None);
    assert_eq!(c.dataset_path, None);
    assert_eq!(c.created_at, "2024-01-01T00:00:00+00:00");
}

#[test]
fn nonempty_target_text_is_kept() {
    let c = new_project_config("demo", "", "", "the cat", Some("data/v.npy".to_string()), String::new());
    assert_eq!(c.target_text, Some("the cat".to_string()));
    assert_eq!(c.dataset_path, Some("data/v.npy".to_string()));
    assert_eq!(c.threat_model, "");
}

#[test]
fn project_file_gets_veal_extension() {
    assert_eq!(project_file_name("demo"), "demo.veal");
    assert_eq!(project_file_name(""), ".veal");
}

#[test]
fn dataset_stored_under_data() {
    assert_eq!(dataset_entry_name("vectors.npy"), "data/vectors.npy");
    assert_eq!(dataset_entry_name(""), "data/");
}

#[test]
fn same_text_compares_characters() {
    assert!(same_text("veal", "veal"));
    assert!(!same_text("veal", "Veal"));
    assert!(!same_text("veal", "veal "));
}

#[test]
fn missing_file_is_refused_first() {
    assert_eq!(invalid_format_message(check_project_path(false, Some("txt"))), "File does not exist.");
    assert_eq!(invalid_format_message(check_project_path(false, Some("veal"))), "File does not exist.");
}

#[test]
fn file_without_extension_is_refused() {
    assert_eq!(invalid_format_message(check_project_path(true, None)), "File has no extension.");
}

#[test]
fn wrong_extension_is_refused() {
    assert_eq!(
        invalid_format_message(check_project_path(true, Some("json"))),
        "File must have a .veal or .zip extension."
    );
    assert_eq!(
        invalid_format_message(check_project_path(true, Some("VEAL"))),
        "File must have a .veal or .zip extension."
    );
}

#[test]
fn veal_and_zip_extensions_are_accepted() {
    assert!(check_project_path(true, Some("veal")).is_ok());
    assert!(check_project_path(true, Some("zip")).is_ok());
}

#[test]
fn archive_layout_with_dataset() {
    let entries = project_archive_entries(Some(("data/v.json".to_string(), vec![1, 2, 3])), b"{}".to_vec());
    assert_eq!(entries.len(), 4);
    assert!(matches!(&entries[0], ArchiveEntry::Directory(n) if n == "data/"));
    assert!(matches!(&entries[1], ArchiveEntry::Directory(n) if n == "reports/"));
    assert!(matches!(&entries[2], ArchiveEntry::File(n, c) if n == "data/v.json" && c == &vec![1u8, 2, 3]));
    assert!(matches!(&entries[3], ArchiveEntry::File(n, c) if n == "config.json" && c == b"{}"));
}

#[test]
fn archive_layout_without_dataset() {
    let entries = project_archive_entries(None, b"cfg".to_vec());
    assert_eq!(entries.len(), 3);
    assert!(matches!(&entries[2], ArchiveEntry::File(n, c) if n == "config.json" && c == b"cfg"));
}

#[test]
fn created_archive_gives_back_its_config() {
    let json = br#"{"project_name":"demo"}"#.to_vec();
    let bytes = build_project_archive(Some(("data/v.json".to_string(), b"[1.0]".to_vec())), json.clone())
        .expect("archive is written");
    match read_project_config_entry(bytes.clone()) {
        Ok(read) => assert_eq!(read, json),
        Err(e) => panic!("config not read back: {:?}", e),
    }
    assert_eq!(read_archive_file(bytes.clone(), "data/v.json"), Some(b"[1.0]".to_vec()));
    assert_eq!(read_archive_file(bytes, "data/missing.json"), None);
}

#[test]
fn archive_without_config_is_invalid() {
    let entries = vec![ArchiveEntry::Directory("data/".to_string())];
    let bytes = write_archive(&entries, EntryCompression::Stored, PROJECT_ENTRY_MODE).expect("written");
    match read_project_config_entry(bytes) {
        Err(ProjectLoadError::InvalidFormat(m)) => assert_eq!(m, "Missing config.json in project root."),
        other => panic!("expected missing config, got {:?}", other),
    }
}

#[test]
fn bytes_that_are_not_an_archive_give_zip_error() {
    assert!(matches!(read_project_config_entry(b"not a zip".to_vec()), Err(ProjectLoadError::ZipError(_))));
    assert_eq!(read_archive_file(Vec::new(), "config.json"), None);
}

#[test]
fn empty_dataset_file_name_collides_with_data_directory() {
    let res = build_project_archive(Some((dataset_entry_name(""), vec![1])), b"{}".to_vec());
    assert!(matches!(res, Err(ArchiveWriteError::Zip(_))));
}

#[test]
fn lookup_results_map_to_load_errors() {
    let missing = config_entry_from_lookup(Err(zip::result::ZipError::FileNotFound));
    assert!(matches!(missing, Err(ProjectLoadError::InvalidFormat(ref m)) if m == "Missing config.json in project root."));
    let unreadable = config_entry_from_lookup(Ok(Err(std::io::Error::new(std::io::ErrorKind::InvalidData, "bad crc"))));
    assert!(matches!(unreadable, Err(ProjectLoadError::ParseError(_))));
    let found = config_entry_from_lookup(Ok(Ok(vec![7, 8])));
    assert!(matches!(found, Ok(ref c) if c == &vec![7u8, 8]));
}

#[test]
fn dataset_named_like_config_is_refused() {
    let res = build_project_archive(Some(("config.json".to_string(), vec![1])), b"{}".to_vec());
    assert!(matches!(res, Err(ArchiveWriteError::Zip(_))));
    let res = build_project_archive(Some(("reports/".to_string(), vec![1])), b"{}".to_vec());
    assert!(matches!(res, Err(ArchiveWriteError::Zip(_))));
}

#[test]
fn repeated_entry_names_are_refused() {
    let entries = vec![
        ArchiveEntry::File("a.txt".to_string(), vec![1]),
        ArchiveEntry::File("a.txt".to_string(), vec![2]),
    ];
    assert!(matches!(write_archive(&entries, EntryCompression::Stored, 0o644), Err(ArchiveWriteError::Zip(_))));
    let entries = vec![ArchiveEntry::Directory("d".to_string()), ArchiveEntry::Directory("d/".to_string())];
    assert!(matches!(write_archive(&entries, EntryCompression::Deflated, 0o755), Err(ArchiveWriteError::Zip(_))));
}

#[test]
fn created_archive_lists_entries_in_order() {
    let bytes = build_project_archive(Some(("data/v.json".to_string(), b"[1.0]".to_vec())), b"{}".to_vec())
        .expect("archive is written");
    let names = archive_entry_names(bytes).expect("archive opens");
    assert_eq!(names, vec!["data/", "reports/", "data/v.json", "config.json"]);
}

#[test]
fn archive_without_dataset_lists_three_entries() {
    let bytes = build_project_archive(None, b"{}".to_vec()).expect("archive is written");
    let names = archive_entry_names(bytes).expect("archive opens");
    assert_eq!(names, vec!["data/", "reports/", "config.json"]);
}

#[test]
fn file_name_ending_in_backslash_reads_back() {
    let entries = vec![ArchiveEntry::File("x\\".to_string(), vec![4, 5])];
    let bytes = write_archive(&entries, EntryCompression::Deflated, 0o644).expect("written");
    assert_eq!(read_archive_file(bytes, "x\\"), Some(vec![4, 5]));
}

#[test]
fn load_error_messages_and_conversions() {
    let e = ProjectLoadError::InvalidFormat("File has no extension.".to_string());
    assert_eq!(e.message(), "Invalid Format: File has no extension.");
    let io: ProjectLoadError = std::io::Error::new(std::io::ErrorKind::NotFound, "gone").into();
    assert!(matches!(io, ProjectLoadError::IoError(_)));
    assert_eq!(io.message(), "IO Error: gone");
    let z: ProjectLoadError = zip::result::ZipError::FileNotFound.into();
    assert_eq!(z.message(), "Zip Error: specified file not found in archive");
    let bad = serde_json::from_slice::<serde_json::Value>(b"{").unwrap_err();
    let text = format!("Parse Error: {}", bad);
    let p: ProjectLoadError = bad.into();
    assert_eq!(p.message(), text);
}

#[test]
fn bytes_that_are_no_archive_list_no_names() {
    assert_eq!(archive_entry_names(b"not an archive".to_vec()), None);
    assert_eq!(archive_entry_names(Vec::new()), None);
}

#[test]
fn stored_archive_lists_stored_names_and_reads_back() {
    let entries = vec![
        ArchiveEntry::Directory("d".to_string()),
        ArchiveEntry::File("d/a.bin".to_string(), vec![9, 8, 7]),
        ArchiveEntry::File("b.txt".to_string(), Vec::new()),
    ];
    let bytes = write_archive(&entries, EntryCompression::Stored, 0o644).expect("written");
    assert_eq!(archive_entry_names(bytes.clone()), Some(vec!["d/".to_string(), "d/a.bin".to_string(), "b.txt".to_string()]));
    assert_eq!(read_archive_file(bytes.clone(), "d/a.bin"), Some(vec![9, 8, 7]));
    assert_eq!(read_archive_file(bytes, "b.txt"), Some(Vec::new()));
}

#[test]
fn project_entries_record_deflate_and_mode_755() {
    let bytes = build_project_archive(Some(("data/v.json".to_string(), b"[1.0, 2.0]".to_vec())), b"{}".to_vec())
        .expect("archive is written");
    let dir = Some((Some(EntryCompression::Stored), Some(0o40755)));
    let file = Some((Some(EntryCompression::Deflated), Some(0o100755)));
    assert_eq!(archive_entry_attributes(bytes.clone(), 0), dir);
    assert_eq!(archive_entry_attributes(bytes.clone(), 1), dir);
    assert_eq!(archive_entry_attributes(bytes.clone(), 2), file);
    assert_eq!(archive_entry_attributes(bytes.clone(), 3), file);
    assert_eq!(archive_entry_attributes(bytes, 4), None);
}

#[test]
fn stored_entries_record_their_permission_bits() {
    let entries = vec![ArchiveEntry::Directory("d".to_string()), ArchiveEntry::File("f".to_string(), vec![1, 2])];
    let bytes = write_archive(&entries, EntryCompression::Stored, 0o1644).expect("written");
    assert_eq!(archive_entry_attributes(bytes.clone(), 0), Some((Some(EntryCompression::Stored), Some(0o40644))));
    assert_eq!(archive_entry_attributes(bytes, 1), Some((Some(EntryCompression::Stored), Some(0o100644))));
    assert_eq!(archive_entry_attributes(b"junk".to_vec(), 0), None);
    let empty = vec![ArchiveEntry::File("e".to_string(), Vec::new())];
    let bytes = write_archive(&empty, EntryCompression::Deflated, 0o600).expect("written");
    assert_eq!(archive_entry_attributes(bytes.clone(), 0), Some((Some(EntryCompression::Deflated), Some(0o100600))));
    assert_eq!(read_archive_file(bytes, "e"), Some(Vec::new()));
}
