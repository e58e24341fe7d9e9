use vstd::prelude::*;
use vstd::string::to_string_from_display_ensures;
use vstd::utf8::encode_utf8;

use crate::archive::archive_file;
use crate::archive::archive_holds_files;
use crate::archive::config_lookup;
use crate::archive::entry_name;
use crate::archive::entry_name_fits;
use crate::archive::file_reads_back;
use crate::archive::is_file_entry_name;
use crate::archive::lemma_encoded_length_bound;
use crate::archive::entry_contents_limit;
use crate::archive::files_within_limit;
use crate::archive::max_entry_name_bytes;
use crate::archive::written_attributes;
use crate::archive::zip_entry_attributes;
use crate::archive::zip_entry_names;
use crate::archive::stored_name;
use crate::archive::stored_names_repeat;
use crate::archive::stored_view;
use crate::archive::ConfigLookup;
use crate::archive::entry_views;
use crate::archive::write_archive;
use crate::archive::ArchiveEntry;
use crate::archive::ArchiveWriteError;
use crate::archive::EntryCompression;
use crate::archive::EntryView;

verus! {

/// Declares `std::io::Error` so that load errors can carry it.
#[verifier::external_type_specification]
#[verifier::external_body]
pub struct ExIoError(std::io::Error);

/// Declares `zip::result::ZipError` so that load errors can carry it.
#[verifier::external_type_specification]
#[verifier::external_body]
pub struct ExZipError(zip::result::ZipError);

/// Declares `serde_json::Error` so that load errors can carry it.
#[verifier::external_type_specification]
#[verifier::external_body]
pub struct ExJsonError(serde_json::Error);

/// The contents of `config.json` at the root of a project archive.
#[derive(Debug)]
pub struct ProjectConfig {
    pub project_name: String,
    pub threat_model: String,
    pub experiment_objective: String,
    pub target_text: Option<String>,
    pub dataset_path: Option<String>,
    pub created_at: String,
}

/// Why a project archive could not be opened.
#[derive(Debug)]
pub enum ProjectLoadError {
    IoError(std::io::Error),
    ZipError(zip::result::ZipError),
    ParseError(serde_json::Error),
    InvalidFormat(String),
}

impl From<std::io::Error> for ProjectLoadError {
    fn from(err: std::io::Error) -> (res: Self) {
        ProjectLoadError::IoError(err)
    }
}

impl vstd::std_specs::convert::FromSpecImpl<std::io::Error> for ProjectLoadError {
    open spec fn obeys_from_spec() -> bool {
        true
    }

    open spec fn from_spec(err: std::io::Error) -> Self {
        ProjectLoadError::IoError(err)
    }
}

impl From<zip::result::ZipError> for ProjectLoadError {
    fn from(err: zip::result::ZipError) -> (res: Self) {
        ProjectLoadError::ZipError(err)
    }
}

impl vstd::std_specs::convert::FromSpecImpl<zip::result::ZipError> for ProjectLoadError {
    open spec fn obeys_from_spec() -> bool {
        true
    }

    open spec fn from_spec(err: zip::result::ZipError) -> Self {
        ProjectLoadError::ZipError(err)
    }
}

impl From<serde_json::Error> for ProjectLoadError {
    fn from(err: serde_json::Error) -> (res: Self) {
        ProjectLoadError::ParseError(err)
    }
}

impl vstd::std_specs::convert::FromSpecImpl<serde_json::Error> for ProjectLoadError {
    open spec fn obeys_from_spec() -> bool {
        true
    }

    open spec fn from_spec(err: serde_json::Error) -> Self {
        ProjectLoadError::ParseError(err)
    }
}

impl ProjectLoadError {
    /// The text shown for this error: a prefix naming its kind, then the
    /// text of the error it carries, or, for an invalid project, its reason.
    pub fn message(&self) -> (text: String)
        ensures
            match self {
                ProjectLoadError::IoError(e) => exists|t: String|
                    to_string_from_display_ensures::<std::io::Error>(e, t) && text@ == "IO Error: "@
                        + t@,
                ProjectLoadError::ZipError(e) => exists|t: String|
                    to_string_from_display_ensures::<zip::result::ZipError>(e, t) && text@
                        == "Zip Error: "@ + t@,
                ProjectLoadError::ParseError(e) => exists|t: String|
                    to_string_from_display_ensures::<serde_json::Error>(e, t) && text@
                        == "Parse Error: "@ + t@,
                ProjectLoadError::InvalidFormat(msg) => text@ == "Invalid Format: "@ + msg@,
            },
    {
        let (mut text, detail) = match self {
            ProjectLoadError::IoError(e) => ("IO Error: ".to_owned(), e.to_string()),
            ProjectLoadError::ZipError(e) => ("Zip Error: ".to_owned(), e.to_string()),
            ProjectLoadError::ParseError(e) => ("Parse Error: ".to_owned(), e.to_string()),
            ProjectLoadError::InvalidFormat(msg) => ("Invalid Format: ".to_owned(), msg.clone()),
        };
        text.append(detail.as_str());
        text
    }
}

/// The view of an optional string: its characters, if present.
pub open spec fn opt_view(s: Option<String>) -> Option<Seq<char>> {
    match s {
        Some(t) => Some(t@),
        None => None,
    }
}

/// The target text stored for a project: none when the text is empty.
pub open spec fn stored_target_text(target_text: Seq<char>) -> Option<Seq<char>> {
    if target_text.len() == 0 {
        None
    } else {
        Some(target_text)
    }
}

/// Whether two strings hold the same characters.
pub fn same_text(a: &str, b: &str) -> (same: bool)
    ensures
        same == (a@ == b@),
{
    a.to_owned() == b.to_owned()
}

/// The configuration written for a new project. An empty target text is
/// stored as absent; the other fields are kept as given.
pub fn new_project_config(
    project_name: &str,
    threat_model: &str,
    experiment_objective: &str,
    target_text: &str,
    dataset_path: Option<String>,
    created_at: String,
) -> (config: ProjectConfig)
    ensures
        config.project_name@ == project_name@,
        config.threat_model@ == threat_model@,
        config.experiment_objective@ == experiment_objective@,
        opt_view(config.target_text) == stored_target_text(target_text@),
        config.dataset_path == dataset_path,
        config.created_at == created_at,
{
    let stored = if target_text.is_empty() {
        None
    } else {
        Some(target_text.to_owned())
    };
    ProjectConfig {
        project_name: project_name.to_owned(),
        threat_model: threat_model.to_owned(),
        experiment_objective: experiment_objective.to_owned(),
        target_text: stored,
        dataset_path,
        created_at,
    }
}

/// The file name of a project archive: the project name with `.veal` added.
pub fn project_file_name(project_name: &str) -> (file_name: String)
    ensures
        file_name@ == project_name@ + ".veal"@,
{
    let mut file_name = project_name.to_owned();
    file_name.append(".veal");
    file_name
}

/// Where a project's initial dataset is stored inside its archive: the
/// dataset's file name below `data/`.
pub fn dataset_entry_name(dataset_file_name: &str) -> (entry_name: String)
    ensures
        entry_name@ == "data/"@ + dataset_file_name@,
{
    let mut entry_name = "data/".to_owned();
    entry_name.append(dataset_file_name);
    entry_name
}

/// The error for a project path that was refused before the archive was read.
pub open spec fn path_refusal(exists: bool, extension: Option<Seq<char>>) -> Option<Seq<char>> {
    if !exists {
        Some("File does not exist."@)
    } else {
        match extension {
            None => Some("File has no extension."@),
            Some(ext) => if ext == "veal"@ || ext == "zip"@ {
                None
            } else {
                Some("File must have a .veal or .zip extension."@)
            },
        }
    }
}

/// Checks the path of a project archive before it is opened: the file must
/// exist and have the extension `veal` or `zip`.
pub fn check_project_path(exists: bool, extension: Option<&str>) -> (res: Result<
    (),
    ProjectLoadError,
>)
    ensures
        match path_refusal(
            exists,
            match extension {
                Some(e) => Some(e@),
                None => None,
            },
        ) {
            None => res is Ok,
            Some(msg) => res matches Err(ProjectLoadError::InvalidFormat(m)) && m@ == msg,
        },
{
    if !exists {
        return Err(ProjectLoadError::InvalidFormat("File does not exist.".to_owned()));
    }
    match extension {
        Some(ext) => {
            if !same_text(ext, "veal") && !same_text(ext, "zip") {
                return Err(
                    ProjectLoadError::InvalidFormat(
                        "File must have a .veal or .zip extension.".to_owned(),
                    ),
                );
            }
        },
        None => {
            return Err(ProjectLoadError::InvalidFormat("File has no extension.".to_owned()));
        },
    }
    Ok(())
}

/// A project path is accepted only for an existing file whose extension is
/// exactly `veal` or `zip`; every other existing file with an extension is
/// refused for its extension, one without an extension for that, and a
/// missing file first of all for not existing.
pub proof fn lemma_project_path_accepted_extensions(exists: bool, extension: Option<Seq<char>>)
    ensures
        path_refusal(exists, extension) is None <==> (exists && (extension == Some("veal"@)
            || extension == Some("zip"@))),
        !exists ==> path_refusal(exists, extension) == Some("File does not exist."@),
        exists && extension is None ==> path_refusal(exists, extension) == Some(
            "File has no extension."@,
        ),
        exists && (extension matches Some(e) && e != "veal"@ && e != "zip"@) ==> path_refusal(
            exists,
            extension,
        ) == Some("File must have a .veal or .zip extension."@),
{
}

/// A new project keeps its target text whenever one was given: the stored
/// text is absent exactly when the given text is empty, and otherwise it is
/// the given text itself.
pub proof fn lemma_target_text_kept(target_text: Seq<char>)
    ensures
        stored_target_text(target_text) is None <==> target_text.len() == 0,
        target_text.len() > 0 ==> stored_target_text(target_text) == Some(target_text),
        stored_target_text(target_text) matches Some(t) ==> t == target_text,
{
}

/// The abstract form of an initial dataset: its entry name and contents.
pub open spec fn dataset_view(dataset: Option<(String, Vec<u8>)>) -> Option<(Seq<char>, Seq<u8>)> {
    match dataset {
        Some((name, contents)) => Some((name@, contents@)),
        None => None,
    }
}

/// The Unix permission bits given to every entry of a project archive.
pub const PROJECT_ENTRY_MODE: u32 = 0o755;

/// The entries of a new project archive, in the order they are written: the
/// `data/` and `reports/` directories, the initial dataset (its entry name
/// and contents) when there is one, and `config.json`.
pub open spec fn project_archive_layout(
    dataset: Option<(Seq<char>, Seq<u8>)>,
    config_json: Seq<u8>,
) -> Seq<EntryView> {
    seq![EntryView::Directory("data/"@), EntryView::Directory("reports/"@)] + match dataset {
        Some((name, contents)) => seq![EntryView::File(name, contents)],
        None => seq![],
    } + seq![EntryView::File("config.json"@, config_json)]
}

/// A new project archive never names two entries alike when its dataset is
/// stored under `data/` with a non-empty file name, so the zip writer has no
/// duplicate to refuse; `config.json` is then its only entry of that name.
pub proof fn lemma_project_layout_names_distinct(
    dataset_file_name: Seq<char>,
    contents: Seq<u8>,
    config_json: Seq<u8>,
)
    requires
        dataset_file_name.len() > 0,
    ensures
        ({
            let layout = project_archive_layout(
                Some(("data/"@ + dataset_file_name, contents)),
                config_json,
            );
            forall|i: int, j: int|
                0 <= i < layout.len() && 0 <= j < layout.len() && i != j ==> entry_name(
                    #[trigger] layout[i],
                ) != entry_name(#[trigger] layout[j])
        }),
{
    let stored = "data/"@ + dataset_file_name;
    let layout = project_archive_layout(Some((stored, contents)), config_json);
    reveal_strlit("data/");
    reveal_strlit("reports/");
    reveal_strlit("config.json");
    assert(layout.len() == 4);
    assert(entry_name(layout[0]) == "data/"@);
    assert(entry_name(layout[1]) == "reports/"@);
    assert(entry_name(layout[2]) == stored);
    assert(entry_name(layout[3]) == "config.json"@);
    assert(stored.len() > 5);
    assert(stored[0] == 'd');
    assert("reports/"@[0] == 'r');
    assert("config.json"@[0] == 'c');
    assert("data/"@.len() == 5);
}

/// Lists the entries of a new project archive (see `project_archive_layout`).
pub fn project_archive_entries(dataset: Option<(String, Vec<u8>)>, config_json: Vec<u8>) -> (entries:
    Vec<ArchiveEntry>)
    ensures
        entry_views(entries@) == project_archive_layout(
            dataset_view(dataset),
            config_json@,
        ),
{
    let mut entries: Vec<ArchiveEntry> = Vec::new();
    entries.push(ArchiveEntry::Directory("data/".to_owned()));
    entries.push(ArchiveEntry::Directory("reports/".to_owned()));
    match dataset {
        Some((name, contents)) => {
            entries.push(ArchiveEntry::File(name, contents));
        },
        None => {},
    }
    entries.push(ArchiveEntry::File("config.json".to_owned(), config_json));
    assert(entry_views(entries@) =~= project_archive_layout(dataset_view(dataset), config_json@));
    entries
}

/// Whether a dataset would be stored under the name of another entry of a
/// project archive: `data/`, `reports/` or `config.json`.
pub open spec fn dataset_name_collides(dataset: Option<(Seq<char>, Seq<u8>)>) -> bool {
    match dataset {
        Some((name, _)) => name == "data/"@ || name == "reports/"@ || name == "config.json"@,
        None => false,
    }
}

/// The names a new project archive lists, in order: `data/`, `reports/`,
/// the dataset's entry name when there is a dataset, and `config.json`.
pub open spec fn project_archive_names(dataset: Option<(Seq<char>, Seq<u8>)>) -> Seq<Seq<char>> {
    seq!["data/"@, "reports/"@] + match dataset {
        Some((name, _)) => seq![name],
        None => seq![],
    } + seq!["config.json"@]
}

/// Whether the dataset, if any, and the configuration are small enough for
/// the zip writer to take them deflated without the large-file option.
pub open spec fn project_contents_within_bound(
    dataset: Option<(Seq<char>, Seq<u8>)>,
    config_json: Seq<u8>,
) -> bool {
    &&& config_json.len() <= entry_contents_limit(EntryCompression::Deflated)
    &&& dataset matches Some((_, contents)) ==> contents.len() <= entry_contents_limit(
        EntryCompression::Deflated,
    )
}

/// Writes a new project archive in memory: the entries listed by
/// `project_archive_entries`, files deflated, directories stored, each with
/// permission bits `0o755`. A dataset stored under the name of another entry
/// makes the zip writer refuse the archive; any other archive whose contents
/// are within the writer's bound is written. The written archive lists
/// exactly the entries of `project_archive_names`, in that order, its files
/// read back under their names, and each entry records the compression and
/// mode it was written with.
pub fn build_project_archive(dataset: Option<(String, Vec<u8>)>, config_json: Vec<u8>) -> (res:
    Result<Vec<u8>, ArchiveWriteError>)
    requires
        dataset matches Some((name, _)) ==> encode_utf8(name@).len() <= max_entry_name_bytes(),
    ensures
        dataset_name_collides(dataset_view(dataset)) ==> res is Err,
        !dataset_name_collides(dataset_view(dataset)) && project_contents_within_bound(
            dataset_view(dataset),
            config_json@,
        ) ==> res is Ok,
        res matches Ok(bytes) ==> zip_entry_names(bytes@) == project_archive_names(
            dataset_view(dataset),
        ),
        res matches Ok(bytes) ==> archive_holds_files(
            bytes@,
            project_archive_layout(
                dataset_view(dataset),
                config_json@,
            ),
        ),
        res matches Ok(bytes) ==> forall|k: int|
            0 <= k < project_archive_layout(dataset_view(dataset), config_json@).len()
                ==> #[trigger] zip_entry_attributes(bytes@, k) == Some(
                written_attributes(
                    project_archive_layout(dataset_view(dataset), config_json@)[k],
                    EntryCompression::Deflated,
                    PROJECT_ENTRY_MODE,
                ),
            ),
{
    let entries = project_archive_entries(dataset, config_json);
    proof {
        reveal_strlit("data/");
        reveal_strlit("reports/");
        reveal_strlit("config.json");
        let layout = project_archive_layout(dataset_view(dataset), config_json@);
        let last = layout.len() - 1;
        assert(entry_views(entries@).len() == entries@.len());
        assert(layout.len() == if dataset is Some { 4int } else { 3int });
        assert(layout[0] == EntryView::Directory("data/"@));
        assert(layout[1] == EntryView::Directory("reports/"@));
        assert(layout[last] == EntryView::File("config.json"@, config_json@));
        assert("data/"@.last() == '/');
        assert("reports/"@.last() == '/');
        assert(stored_name(layout[0]) == "data/"@);
        assert(stored_name(layout[1]) == "reports/"@);
        assert(stored_name(layout[last]) == "config.json"@);
        assert forall|i: int| 0 <= i < entries@.len() implies entry_name_fits(#[trigger] entries@[i]@) by {
            assert(entries@[i]@ == entry_views(entries@)[i]);
            lemma_encoded_length_bound(stored_name(layout[i]));
        }
        assert(layout.map_values(|e: EntryView| stored_name(e)) =~= project_archive_names(
            dataset_view(dataset),
        ));
        if dataset_name_collides(dataset_view(dataset)) {
            let name = layout[2]->File_0;
            assert(layout[2] == EntryView::File(name, dataset_view(dataset)->Some_0.1));
            assert(stored_name(layout[2]) == name);
            if name == "data/"@ {
                assert(stored_name(layout[0]) == stored_name(layout[2]));
            } else if name == "reports/"@ {
                assert(stored_name(layout[1]) == stored_name(layout[2]));
            } else {
                assert(stored_name(layout[2]) == stored_name(layout[3]));
            }
            assert(stored_names_repeat(entry_views(entries@)));
        }
        if !dataset_name_collides(dataset_view(dataset)) && project_contents_within_bound(
            dataset_view(dataset),
            config_json@,
        ) {
            assert("data/"@[0] != "reports/"@[0]);
            assert("data/"@[0] != "config.json"@[0]);
            assert("reports/"@[0] != "config.json"@[0]);
            let names = layout.map_values(|e: EntryView| stored_name(e));
            assert forall|a: int, b: int| 0 <= a < b < layout.len() implies #[trigger] stored_name(
                layout[a],
            ) != #[trigger] stored_name(layout[b]) by {
                assert(names[a] == stored_name(layout[a]));
                assert(names[b] == stored_name(layout[b]));
            }
            assert(!stored_names_repeat(layout));
            assert(files_within_limit(layout, EntryCompression::Deflated));
        }
    }
    let res = write_archive(&entries, EntryCompression::Deflated, PROJECT_ENTRY_MODE);
    proof {
        let layout = project_archive_layout(dataset_view(dataset), config_json@);
        if res is Ok {
            let bytes = res->Ok_0;
            assert forall|k: int| 0 <= k < layout.len() implies #[trigger] zip_entry_attributes(
                bytes@,
                k,
            ) == Some(written_attributes(layout[k], EntryCompression::Deflated, PROJECT_ENTRY_MODE)) by {
                assert(entries@[k]@ == entry_views(entries@)[k]);
            }
        }
    }
    res
}

/// A project archive that was written opens again: its `config.json` reads
/// back as the configuration it was written with, and its dataset, stored
/// under a file name, reads back as the dataset's contents.
pub proof fn lemma_created_project_reads_back(
    bytes: Seq<u8>,
    dataset: Option<(Seq<char>, Seq<u8>)>,
    config_json: Seq<u8>,
)
    requires
        archive_holds_files(bytes, project_archive_layout(dataset, config_json)),
    ensures
        config_lookup(bytes) == ConfigLookup::Found(config_json),
        dataset matches Some((name, contents)) ==> is_file_entry_name(name) ==> archive_file(
            bytes,
            name,
        ) == Some(contents),
{
    let layout = project_archive_layout(dataset, config_json);
    reveal_strlit("config.json");
    let last = layout.len() - 1;
    assert(layout[last] == EntryView::File("config.json"@, config_json));
    assert(file_reads_back(bytes, layout[last]));
    if let Some((name, contents)) = dataset {
        assert(layout[2] == EntryView::File(name, contents));
        assert(file_reads_back(bytes, layout[2]));
    }
}

} // verus!
