use std::io::Cursor;
use std::io::Read;
use std::io::Seek;
use std::io::Write;
use vstd::prelude::*;
use vstd::utf8::encode_utf8;
use zip::result::ZipError;
use zip::write::FileOptions;
use zip::write::SimpleFileOptions;
use zip::ZipArchive;
use zip::ZipWriter;

use crate::project::ProjectLoadError;

verus! {

/// Declares `std::io::Cursor`, the in-memory buffer archives are read from
/// and written to.
#[verifier::external_type_specification]
#[verifier::external_body]
#[verifier::reject_recursive_types(T)]
pub struct ExCursor<T>(std::io::Cursor<T>);

/// Declares `zip::ZipArchive`, an archive opened for reading.
#[verifier::external_type_specification]
#[verifier::external_body]
#[verifier::reject_recursive_types(R)]
pub struct ExZipArchive<R>(zip::ZipArchive<R>);

/// An archive being written into memory. It holds a `zip::ZipWriter` over
/// an in-memory buffer; the writer's type cannot be declared to Verus (its
/// `Write + Seek` bounds are refused), so it is kept in a field Verus does not
/// see.
#[verifier::external_body]
pub struct ArchiveWriter {
    inner: ZipWriter<Cursor<Vec<u8>>>,
}

/// How the contents of a file entry are stored.
#[derive(Debug, Clone, Copy, PartialEq, Eq, Structural)]
pub enum EntryCompression {
    Stored,
    Deflated,
}

/// Why writing an archive failed.
#[derive(Debug)]
pub enum ArchiveWriteError {
    Zip(ZipError),
    Io(std::io::Error),
}

/// One entry to be written into an archive: a directory, or a file with its
/// contents.
#[derive(Debug)]
pub enum ArchiveEntry {
    Directory(String),
    File(String, Vec<u8>),
}

/// The abstract form of an archive entry.
pub enum EntryView {
    Directory(Seq<char>),
    File(Seq<char>, Seq<u8>),
}

impl View for ArchiveEntry {
    type V = EntryView;

    open spec fn view(&self) -> EntryView {
        match self {
            ArchiveEntry::Directory(name) => EntryView::Directory(name@),
            ArchiveEntry::File(name, contents) => EntryView::File(name@, contents@),
        }
    }
}

/// The abstract forms of a list of archive entries.
pub open spec fn entry_views(entries: Seq<ArchiveEntry>) -> Seq<EntryView> {
    entries.map_values(|e: ArchiveEntry| e@)
}

/// The name of an archive entry.
pub open spec fn entry_name(e: EntryView) -> Seq<char> {
    match e {
        EntryView::Directory(name) => name,
        EntryView::File(name, _) => name,
    }
}

/// Whether some entry of `entries` has the name `name`.
pub open spec fn has_entry_named(entries: Seq<EntryView>, name: Seq<char>) -> bool {
    exists|k: int| 0 <= k < entries.len() && entry_name(#[trigger] entries[k]) == name
}

/// The name a directory entry is stored under: `name` with `/` appended
/// unless it already ends with `/` or `\`.
pub open spec fn directory_entry_name(name: Seq<char>) -> Seq<char> {
    if name.len() > 0 && (name.last() == '/' || name.last() == '\\') {
        name
    } else {
        name.push('/')
    }
}

/// A file name that the archive reader reads back as that file: non-empty
/// and not ending with `/`.
pub open spec fn is_file_entry_name(name: Seq<char>) -> bool {
    name.len() > 0 && name.last() != '/'
}

/// The longest entry name, in UTF-8 bytes, an archive can store.
pub open spec fn max_entry_name_bytes() -> nat {
    65535
}

/// A size of file contents up to which the writer accepts a file written
/// with `compression` without the large-file option. The writer refuses a
/// file whose stored or compressed size passes 4 GiB - 1; stored contents are
/// their own stored size, so they may reach that limit. Deflated contents
/// get half of it, which leaves room for the growth that compression can
/// bring to data it cannot shrink.
pub open spec fn entry_contents_limit(compression: EntryCompression) -> nat {
    match compression {
        EntryCompression::Stored => 0xFFFF_FFFF,
        EntryCompression::Deflated => 0x8000_0000,
    }
}

/// Every file entry of `entries` has contents within the limit of the
/// compression it was written with (`methods` holds one per entry).
pub open spec fn contents_within_limits(entries: Seq<EntryView>, methods: Seq<EntryCompression>) -> bool {
    forall|i: int|
        0 <= i < entries.len() ==> (#[trigger] entries[i] is File ==> i < methods.len()
            && entries[i]->File_1.len() <= entry_contents_limit(methods[i]))
}

/// `entries` with `data` appended to the contents of the last entry, when
/// that entry is a file.
pub open spec fn append_to_last_file(entries: Seq<EntryView>, data: Seq<u8>) -> Seq<EntryView> {
    if entries.len() > 0 && entries.last() is File {
        entries.drop_last().push(
            EntryView::File(entry_name(entries.last()), entries.last()->File_1 + data),
        )
    } else {
        entries
    }
}

/// The entries a writer holds, in the order they were added, each under the
/// name the archive stores it with.
pub uninterp spec fn archive_writer_entries(writer: ArchiveWriter) -> Seq<EntryView>;

/// The compression each entry the writer holds was added with, in the same
/// order; directories are always stored.
pub uninterp spec fn archive_writer_methods(writer: ArchiveWriter) -> Seq<EntryCompression>;

/// The Unix mode each entry the writer holds was added with, in the same
/// order: the permission bits it was given, with the type bits of a directory
/// or a regular file.
pub uninterp spec fn archive_writer_modes(writer: ArchiveWriter) -> Seq<u32>;

/// Whether the writer can still take entries: it has not been closed.
pub uninterp spec fn archive_writer_ready(writer: ArchiveWriter) -> bool;

/// Whether a file entry is open for writing, so that written bytes go to it.
pub uninterp spec fn archive_writer_file_open(writer: ArchiveWriter) -> bool;

/// The names that `zip::ZipArchive::file_names` lists for the archive
/// opened from `data`, in the order of its central directory.
pub uninterp spec fn zip_entry_names(data: Seq<u8>) -> Seq<Seq<char>>;

/// The Unix mode the writer records for a directory added with permission
/// bits `mode`: the low nine bits, with the directory type bit.
pub open spec fn directory_mode(mode: u32) -> u32 {
    (mode & 0o777u32) | 0o40000u32
}

/// The Unix mode the writer records for a file started with permission bits
/// `mode`: the low nine bits, with the regular-file type bit.
pub open spec fn file_mode(mode: u32) -> u32 {
    (mode & 0o777u32) | 0o100000u32
}

/// What `zip::ZipArchive::by_index` gives for entry `index` of the archive
/// `data`: `None` when it fails, else the entry's compression (`None` for a
/// method other than stored or deflated) and its `unix_mode`.
pub uninterp spec fn zip_entry_attributes(data: Seq<u8>, index: int) -> Option<
    (Option<EntryCompression>, Option<u32>),
>;

/// Calls `zip::ZipWriter::new` on an empty in-memory buffer; the new writer
/// holds no entries, can take entries, and has no file open.
#[verifier::external_body]
fn new_archive_writer() -> (writer: ArchiveWriter)
    ensures
        archive_writer_entries(writer) == Seq::<EntryView>::empty(),
        archive_writer_methods(writer) == Seq::<EntryCompression>::empty(),
        archive_writer_modes(writer) == Seq::<u32>::empty(),
        archive_writer_ready(writer),
        !archive_writer_file_open(writer),
{
    ArchiveWriter { inner: ZipWriter::new(Cursor::new(Vec::new())) }
}

/// Calls `zip::ZipWriter::add_directory`, with the given compression and Unix
/// permission bits converted into `zip::write::SimpleFileOptions` (the default
/// options, then `compression_method` and `unix_permissions`); the writer
/// stores directories uncompressed whatever it is given. The writer refuses a
/// stored name that an entry it holds already has. Otherwise a writer that
/// can take entries, and whose files are within their limits, accepts the
/// directory: it then holds one more entry, the directory under its stored
/// name, and no file is open. The buffer is in memory, so writing to it
/// cannot fail. A stored name longer than 65535 bytes makes the writer panic,
/// so it is excluded.
#[verifier::external_body]
fn writer_add_directory(
    writer: &mut ArchiveWriter,
    name: &str,
    compression: EntryCompression,
    unix_mode: u32,
) -> (res: Result<(), ZipError>)
    requires
        encode_utf8(directory_entry_name(name@)).len() <= max_entry_name_bytes(),
    ensures
        has_entry_named(archive_writer_entries(*old(writer)), directory_entry_name(name@))
            ==> res is Err,
        archive_writer_ready(*old(writer)) && contents_within_limits(
            archive_writer_entries(*old(writer)),
            archive_writer_methods(*old(writer)),
        ) && !has_entry_named(archive_writer_entries(*old(writer)), directory_entry_name(name@))
            ==> res is Ok,
        res is Ok ==> archive_writer_entries(*final(writer)) == archive_writer_entries(*old(writer)).push(
            EntryView::Directory(directory_entry_name(name@)),
        ) && archive_writer_methods(*final(writer)) == archive_writer_methods(*old(writer)).push(
            EntryCompression::Stored,
        ) && archive_writer_modes(*final(writer)) == archive_writer_modes(*old(writer)).push(
            directory_mode(unix_mode),
        ),
        res is Ok ==> archive_writer_ready(*final(writer)) && !archive_writer_file_open(
            *final(writer),
        ),
{
    let method = match compression {
        EntryCompression::Stored => zip::CompressionMethod::Stored,
        EntryCompression::Deflated => zip::CompressionMethod::Deflated,
    };
    let options: SimpleFileOptions = FileOptions::default();
    writer.inner.add_directory(name, options.compression_method(method).unix_permissions(unix_mode))
}

/// Calls `zip::ZipWriter::start_file`, with the given compression and Unix
/// permission bits converted into `zip::write::SimpleFileOptions` (the default
/// options, then `compression_method` and `unix_permissions`). The writer
/// refuses a name that an entry it holds already has. Otherwise a writer that
/// can take entries, and whose files are within their limits, accepts the
/// file: it then holds one more entry, an empty file under `name` added with
/// `compression`, which is open for writing. The buffer is in memory, so
/// writing to it cannot fail. A name longer than 65535 bytes makes the writer
/// panic, so it is excluded.
#[verifier::external_body]
fn writer_start_file(
    writer: &mut ArchiveWriter,
    name: &str,
    compression: EntryCompression,
    unix_mode: u32,
) -> (res: Result<(), ZipError>)
    requires
        encode_utf8(name@).len() <= max_entry_name_bytes(),
    ensures
        has_entry_named(archive_writer_entries(*old(writer)), name@) ==> res is Err,
        archive_writer_ready(*old(writer)) && contents_within_limits(
            archive_writer_entries(*old(writer)),
            archive_writer_methods(*old(writer)),
        ) && !has_entry_named(archive_writer_entries(*old(writer)), name@) ==> res is Ok,
        res is Ok ==> archive_writer_entries(*final(writer)) == archive_writer_entries(*old(writer)).push(
            EntryView::File(name@, Seq::<u8>::empty()),
        ) && archive_writer_methods(*final(writer)) == archive_writer_methods(*old(writer)).push(
            compression,
        ) && archive_writer_modes(*final(writer)) == archive_writer_modes(*old(writer)).push(
            file_mode(unix_mode),
        ),
        res is Ok ==> archive_writer_ready(*final(writer)) && archive_writer_file_open(
            *final(writer),
        ),
{
    let method = match compression {
        EntryCompression::Stored => zip::CompressionMethod::Stored,
        EntryCompression::Deflated => zip::CompressionMethod::Deflated,
    };
    let options: SimpleFileOptions = FileOptions::default();
    writer.inner.start_file(name, options.compression_method(method).unix_permissions(unix_mode))
}

/// Calls `std::io::Write::write_all` on the writer, whose `Write` impl appends
/// to the file entry open for writing and refuses to write when none is open
/// or when the file grows past 4 GiB - 1. Writing nothing always succeeds. A
/// writer that can take entries, with a file open whose contents stay within
/// the limit of its compression, accepts the data. On success `data` has been
/// appended to that file's contents, and the writer is as ready and as open
/// as before.
#[verifier::external_body]
fn writer_write_all(writer: &mut ArchiveWriter, data: &[u8]) -> (res: Result<(), std::io::Error>)
    ensures
        data@.len() == 0 || (archive_writer_ready(*old(writer)) && archive_writer_file_open(
            *old(writer),
        ) && archive_writer_entries(*old(writer)).len() > 0 && archive_writer_methods(
            *old(writer),
        ).len() == archive_writer_entries(*old(writer)).len() && archive_writer_entries(
            *old(writer),
        ).last() is File && archive_writer_entries(*old(writer)).last()->File_1.len() + data@.len()
            <= entry_contents_limit(archive_writer_methods(*old(writer)).last())) ==> res is Ok,
        res is Ok ==> archive_writer_entries(*final(writer)) == append_to_last_file(
            archive_writer_entries(*old(writer)),
            data@,
        ) && archive_writer_methods(*final(writer)) == archive_writer_methods(*old(writer))
            && archive_writer_modes(*final(writer)) == archive_writer_modes(*old(writer)),
        res is Ok ==> archive_writer_ready(*final(writer)) == archive_writer_ready(*old(writer))
            && archive_writer_file_open(*final(writer)) == archive_writer_file_open(*old(writer)),
        res is Ok && data@.len() > 0 ==> archive_writer_entries(*old(writer)).len() > 0
            && archive_writer_entries(*old(writer)).last() is File,
{
    writer.inner.write_all(data)
}

/// Calls `zip::ZipWriter::finish` and hands back the buffer it wrote. A writer
/// that can take entries, and whose files are within their limits, is
/// finished without fail. The bytes form an archive that
/// `zip::ZipArchive::new` opens, whose `file_names` lists the writer's
/// entries under their stored names in the order they were added, in which
/// every file entry under a file name reads back as the contents written to
/// it, and whose entry at each position is found by `by_index` with the
/// compression and Unix mode it was added with (the central directory records
/// both, and marks the entries as made on Unix).
#[verifier::external_body]
fn writer_finish(writer: ArchiveWriter) -> (res: Result<Vec<u8>, ZipError>)
    ensures
        archive_writer_ready(writer) && contents_within_limits(
            archive_writer_entries(writer),
            archive_writer_methods(writer),
        ) ==> res is Ok,
        res matches Ok(bytes) ==> archive_holds_files(bytes@, archive_writer_entries(writer)),
        res matches Ok(bytes) ==> zip_entry_names(bytes@) == archive_writer_entries(
            writer,
        ).map_values(|e: EntryView| entry_name(e)),
        res matches Ok(bytes) ==> forall|i: int|
            0 <= i < archive_writer_entries(writer).len() && i < archive_writer_methods(
                writer,
            ).len() && i < archive_writer_modes(writer).len() ==> #[trigger] zip_entry_attributes(
                bytes@,
                i,
            ) == Some((Some(archive_writer_methods(writer)[i]), Some(archive_writer_modes(writer)[i]))),
{
    writer.inner.finish().map(|buffer| buffer.into_inner())
}

/// Calls `zip::ZipArchive::file_names` and copies each name it lists into a
/// string, in the order it lists them.
#[verifier::external_body]
fn archive_names(archive: &ZipArchive<Cursor<Vec<u8>>>) -> (names: Vec<String>)
    ensures
        names@.map_values(|n: String| n@) == zip_entry_names(zip_archive_data(*archive)),
{
    archive.file_names().map(|n| n.to_owned()).collect()
}

/// Calls `zip::ZipArchive::by_index` and, on the entry it returns,
/// `compression` and `unix_mode`; the compression is converted to
/// `EntryCompression` where it is stored or deflated. Both depend on the
/// archive's bytes and the position alone, and the archive keeps reading from
/// the same bytes.
#[verifier::external_body]
fn read_entry_attributes(archive: &mut ZipArchive<Cursor<Vec<u8>>>, index: usize) -> (res: Option<
    (Option<EntryCompression>, Option<u32>),
>)
    ensures
        zip_archive_data(*final(archive)) == zip_archive_data(*old(archive)),
        res == zip_entry_attributes(zip_archive_data(*old(archive)), index as int),
{
    match archive.by_index(index) {
        Ok(entry) => {
            let method = match entry.compression() {
                zip::CompressionMethod::Stored => Some(EntryCompression::Stored),
                zip::CompressionMethod::Deflated => Some(EntryCompression::Deflated),
                _ => None,
            };
            Some((method, entry.unix_mode()))
        },
        Err(_) => None,
    }
}

/// Whether `zip::ZipArchive::new` accepts `data` as an archive.
pub uninterp spec fn zip_archive_opens(data: Seq<u8>) -> bool;

/// The bytes an archive opened over an in-memory buffer reads from.
pub uninterp spec fn zip_archive_data(archive: ZipArchive<Cursor<Vec<u8>>>) -> Seq<u8>;

/// Whether `ZipArchive::by_name` finds entry `name` in the archive `data`.
pub uninterp spec fn zip_entry_found(data: Seq<u8>, name: Seq<char>) -> bool;

/// The contents of entry `name` of the archive `data` when reading it to its
/// end succeeds, or `None` when reading fails.
pub uninterp spec fn zip_entry_contents(data: Seq<u8>, name: Seq<char>) -> Option<Seq<u8>>;

/// Calls `zip::ZipArchive::new` on an in-memory buffer. Whether it accepts
/// the buffer depends on the bytes alone; the archive then reads from them.
#[verifier::external_body]
fn open_archive(data: Vec<u8>) -> (res: Result<ZipArchive<Cursor<Vec<u8>>>, ZipError>)
    ensures
        res is Ok <==> zip_archive_opens(data@),
        res matches Ok(archive) ==> zip_archive_data(archive) == data@,
{
    ZipArchive::new(Cursor::new(data))
}

/// Calls `zip::ZipArchive::by_name` and reads the entry it returns to its end
/// with `std::io::Read::read_to_end`. The outer result is the lookup, the
/// inner one the reading; both depend on the archive's bytes and the name
/// alone. The archive keeps reading from the same bytes.
#[verifier::external_body]
fn read_archive_entry(archive: &mut ZipArchive<Cursor<Vec<u8>>>, name: &str) -> (res: Result<
    Result<Vec<u8>, std::io::Error>,
    ZipError,
>)
    ensures
        zip_archive_data(*final(archive)) == zip_archive_data(*old(archive)),
        res is Ok <==> zip_entry_found(zip_archive_data(*old(archive)), name@),
        res matches Ok(read) ==> match read {
            Ok(contents) => zip_entry_contents(zip_archive_data(*old(archive)), name@) == Some(
                contents@,
            ),
            Err(_) => zip_entry_contents(zip_archive_data(*old(archive)), name@) is None,
        },
{
    match archive.by_name(name) {
        Ok(mut entry) => {
            let mut contents = Vec::new();
            Ok(entry.read_to_end(&mut contents).map(|_| contents))
        },
        Err(e) => Err(e),
    }
}

/// Calls `serde_json::Error::io`, which wraps a read failure met while
/// reading JSON input as a JSON error.
#[verifier::external_body]
fn json_error_from_io(error: std::io::Error) -> serde_json::Error {
    serde_json::Error::io(error)
}

/// How an entry is held by the writer: directories under their stored name.
pub open spec fn stored_view(e: EntryView) -> EntryView {
    match e {
        EntryView::Directory(name) => EntryView::Directory(directory_entry_name(name)),
        EntryView::File(name, contents) => EntryView::File(name, contents),
    }
}

/// The name an entry is stored under in an archive.
pub open spec fn stored_name(e: EntryView) -> Seq<char> {
    entry_name(stored_view(e))
}

/// Whether two entries of `entries` are stored under the same name.
pub open spec fn stored_names_repeat(entries: Seq<EntryView>) -> bool {
    exists|i: int, j: int|
        0 <= i < j < entries.len() && #[trigger] stored_name(entries[i]) == #[trigger] stored_name(
            entries[j],
        )
}

/// Every file entry of `entries` has contents within the limit of
/// `compression`.
pub open spec fn files_within_limit(entries: Seq<EntryView>, compression: EntryCompression) -> bool {
    forall|i: int|
        0 <= i < entries.len() ==> (#[trigger] entries[i] is File ==> entries[i]->File_1.len()
            <= entry_contents_limit(compression))
}

/// The compression the writer records for each entry when every file is
/// written with `compression`: directories are stored.
pub open spec fn entry_methods(entries: Seq<EntryView>, compression: EntryCompression) -> Seq<
    EntryCompression,
> {
    entries.map_values(
        |e: EntryView|
            if e is File {
                compression
            } else {
                EntryCompression::Stored
            },
    )
}

/// The Unix mode the writer records for each entry when every entry is
/// written with permission bits `mode`.
pub open spec fn entry_modes(entries: Seq<EntryView>, mode: u32) -> Seq<u32> {
    entries.map_values(
        |e: EntryView|
            if e is File {
                file_mode(mode)
            } else {
                directory_mode(mode)
            },
    )
}

/// The compression and Unix mode the archive records for an entry written
/// with `compression` and permission bits `mode`: directories are stored.
pub open spec fn written_attributes(e: EntryView, compression: EntryCompression, mode: u32) -> (
    Option<EntryCompression>,
    Option<u32>,
) {
    if e is File {
        (Some(compression), Some(file_mode(mode)))
    } else {
        (Some(EntryCompression::Stored), Some(directory_mode(mode)))
    }
}

/// A prefix of entries within the limit of one compression, as the writer
/// holds them, is within the limits it records.
proof fn lemma_prefix_within_limits(views: Seq<EntryView>, compression: EntryCompression, n: int)
    requires
        0 <= n <= views.len(),
        files_within_limit(views, compression),
    ensures
        contents_within_limits(
            views.take(n).map_values(|e: EntryView| stored_view(e)),
            entry_methods(views.take(n), compression),
        ),
{
    let held = views.take(n).map_values(|e: EntryView| stored_view(e));
    let methods = entry_methods(views.take(n), compression);
    assert forall|k: int| 0 <= k < held.len() && #[trigger] held[k] is File implies k
        < methods.len() && held[k]->File_1.len() <= entry_contents_limit(methods[k]) by {
        assert(held[k] == stored_view(views[k]));
        assert(views[k] is File);
        assert(methods[k] == compression);
    }
}

/// Whether the archive can store an entry's name.
pub open spec fn entry_name_fits(e: EntryView) -> bool {
    encode_utf8(entry_name(stored_view(e))).len() <= max_entry_name_bytes()
}

/// The archive `data` opens, and every file entry of `entries` with a file
/// name is found in it and reads back as its contents.
pub open spec fn archive_holds_files(data: Seq<u8>, entries: Seq<EntryView>) -> bool {
    &&& zip_archive_opens(data)
    &&& forall|i: int| 0 <= i < entries.len() ==> file_reads_back(data, #[trigger] entries[i])
}

/// A file entry with a file name is found in the archive `data` and reads
/// back as its contents; other entries ask nothing.
pub open spec fn file_reads_back(data: Seq<u8>, e: EntryView) -> bool {
    match e {
        EntryView::File(name, contents) => is_file_entry_name(name) ==> zip_entry_found(data, name)
            && zip_entry_contents(data, name) == Some(contents),
        EntryView::Directory(_) => true,
    }
}

/// Writes `entries`, in order, into a new in-memory archive and returns its
/// bytes. Every file gets the given compression, every directory is stored,
/// and every entry gets the given Unix permission bits. The writer refuses an
/// entry stored under the name of an earlier one, so such a list always
/// fails; any other list whose files are within the contents bound is
/// written. The archive written lists the entries under their stored names in
/// order, every file entry reads back under its name, and the entry at each
/// position records the compression and mode it was written with.
pub fn write_archive(
    entries: &Vec<ArchiveEntry>,
    compression: EntryCompression,
    unix_mode: u32,
) -> (res: Result<Vec<u8>, ArchiveWriteError>)
    requires
        forall|i: int| 0 <= i < entries@.len() ==> entry_name_fits(#[trigger] entries@[i]@),
    ensures
        stored_names_repeat(entry_views(entries@)) ==> res is Err,
        !stored_names_repeat(entry_views(entries@)) && files_within_limit(
            entry_views(entries@),
            compression,
        ) ==> res is Ok,
        res matches Ok(bytes) ==> archive_holds_files(bytes@, entry_views(entries@)),
        res matches Ok(bytes) ==> zip_entry_names(bytes@) == entry_views(entries@).map_values(
            |e: EntryView| stored_name(e),
        ),
        res matches Ok(bytes) ==> forall|k: int|
            0 <= k < entries@.len() ==> #[trigger] zip_entry_attributes(bytes@, k) == Some(
                written_attributes(entries@[k]@, compression, unix_mode),
            ),
{
    let ghost views = entry_views(entries@);
    let ghost fine = !stored_names_repeat(views) && files_within_limit(views, compression);
    let mut writer = new_archive_writer();
    let mut i: usize = 0;
    while i < entries.len()
        invariant
            i <= entries.len(),
            views == entry_views(entries@),
            fine == (!stored_names_repeat(views) && files_within_limit(views, compression)),
            forall|k: int| 0 <= k < entries@.len() ==> entry_name_fits(#[trigger] entries@[k]@),
            archive_writer_entries(writer) == views.take(i as int).map_values(
                |e: EntryView| stored_view(e),
            ),
            archive_writer_methods(writer) == entry_methods(views.take(i as int), compression),
            archive_writer_modes(writer) == entry_modes(views.take(i as int), unix_mode),
            archive_writer_ready(writer),
            forall|a: int, b: int|
                0 <= a < b < i ==> #[trigger] stored_name(views[a]) != #[trigger] stored_name(
                    views[b],
                ),
        decreases entries.len() - i,
    {
        let ghost before = archive_writer_entries(writer);
        let ghost methods_before = archive_writer_methods(writer);
        assert(entry_name_fits(entries@[i as int]@));
        assert(views[i as int] == entries@[i as int]@);
        assert forall|a: int| 0 <= a < i && stored_name(views[a]) == stored_name(views[i as int])
            implies has_entry_named(before, stored_name(views[i as int])) by {
            assert(before[a] == stored_view(views[a]));
        }
        proof {
            if fine {
                if has_entry_named(before, stored_name(views[i as int])) {
                    let k = choose|k: int|
                        0 <= k < before.len() && entry_name(#[trigger] before[k]) == stored_name(
                            views[i as int],
                        );
                    assert(before[k] == stored_view(views[k]));
                    assert(stored_name(views[k]) == stored_name(views[i as int]));
                    assert(stored_names_repeat(views));
                }
                lemma_prefix_within_limits(views, compression, i as int);
            }
        }
        match &entries[i] {
            ArchiveEntry::Directory(name) => {
                if let Err(e) = writer_add_directory(&mut writer, name.as_str(), compression, unix_mode) {
                    return Err(ArchiveWriteError::Zip(e));
                }
            },
            ArchiveEntry::File(name, contents) => {
                if let Err(e) = writer_start_file(&mut writer, name.as_str(), compression, unix_mode) {
                    return Err(ArchiveWriteError::Zip(e));
                }
                proof {
                    assert(archive_writer_entries(writer).last() == EntryView::File(
                        name@,
                        Seq::<u8>::empty(),
                    ));
                    assert(archive_writer_methods(writer).last() == compression);
                    if fine {
                        assert(views[i as int] is File);
                    }
                }
                if let Err(e) = writer_write_all(&mut writer, contents.as_slice()) {
                    return Err(ArchiveWriteError::Io(e));
                }
            },
        }
        assert(!has_entry_named(before, stored_name(views[i as int])));
        assert(views.take(i + 1) =~= views.take(i as int).push(views[i as int]));
        assert(archive_writer_entries(writer) =~= views.take(i + 1).map_values(
            |e: EntryView| stored_view(e),
        ));
        assert(archive_writer_methods(writer) =~= entry_methods(views.take(i + 1), compression));
        assert(archive_writer_modes(writer) =~= entry_modes(views.take(i + 1), unix_mode));
        i = i + 1;
    }
    let ghost stored = archive_writer_entries(writer);
    assert(views.take(i as int) =~= views);
    assert(!stored_names_repeat(views));
    proof {
        if fine {
            lemma_prefix_within_limits(views, compression, i as int);
        }
    }
    match writer_finish(writer) {
        Ok(bytes) => {
            assert forall|k: int| 0 <= k < views.len() implies file_reads_back(
                bytes@,
                #[trigger] views[k],
            ) by {
                assert(file_reads_back(bytes@, stored[k]));
                assert(stored[k] == stored_view(views[k]));
            }
            assert(stored.map_values(|e: EntryView| entry_name(e)) =~= views.map_values(
                |e: EntryView| stored_name(e),
            ));
            assert forall|k: int| 0 <= k < entries@.len() implies #[trigger] zip_entry_attributes(
                bytes@,
                k,
            ) == Some(written_attributes(entries@[k]@, compression, unix_mode)) by {
                assert(views[k] == entries@[k]@);
                assert(zip_entry_attributes(bytes@, k) == Some(
                    (Some(entry_methods(views, compression)[k]), Some(entry_modes(views, unix_mode)[k])),
                ));
            }
            Ok(bytes)
        },
        Err(e) => Err(ArchiveWriteError::Zip(e)),
    }
}

/// The names an archive held in memory lists, in the order of its central
/// directory, or `None` when the zip reader refuses the bytes.
pub fn archive_entry_names(data: Vec<u8>) -> (names: Option<Vec<String>>)
    ensures
        match names {
            Some(v) => zip_archive_opens(data@) && v@.map_values(|n: String| n@) == zip_entry_names(
                data@,
            ),
            None => !zip_archive_opens(data@),
        },
{
    match open_archive(data) {
        Ok(archive) => Some(archive_names(&archive)),
        Err(_) => None,
    }
}

/// The compression and Unix mode of the entry at position `index` of an
/// archive held in memory, or `None` when the zip reader refuses the bytes or
/// finds no entry there.
pub fn archive_entry_attributes(data: Vec<u8>, index: usize) -> (res: Option<
    (Option<EntryCompression>, Option<u32>),
>)
    ensures
        res == (if zip_archive_opens(data@) {
            zip_entry_attributes(data@, index as int)
        } else {
            None
        }),
{
    match open_archive(data) {
        Ok(mut archive) => read_entry_attributes(&mut archive, index),
        Err(_) => None,
    }
}

/// What reading file `name` from the archive `data` gives: its contents when
/// the archive opens, has the entry, and the entry reads to its end.
pub open spec fn archive_file(data: Seq<u8>, name: Seq<char>) -> Option<Seq<u8>> {
    if zip_archive_opens(data) && zip_entry_found(data, name) {
        zip_entry_contents(data, name)
    } else {
        None
    }
}

/// The contents of entry `name` of an archive held in memory, or `None` when
/// the archive cannot be opened, has no such entry, or the entry cannot be
/// read.
pub fn read_archive_file(data: Vec<u8>, name: &str) -> (contents: Option<Vec<u8>>)
    ensures
        match contents {
            Some(c) => archive_file(data@, name@) == Some(c@),
            None => archive_file(data@, name@) is None,
        },
{
    let mut archive = match open_archive(data) {
        Ok(a) => a,
        Err(_) => {
            return None;
        },
    };
    match read_archive_entry(&mut archive, name) {
        Ok(Ok(contents)) => Some(contents),
        _ => None,
    }
}

/// Every entry name has at most four UTF-8 bytes per character.
pub proof fn lemma_encoded_length_bound(chars: Seq<char>)
    ensures
        encode_utf8(chars).len() <= 4 * chars.len(),
    decreases chars.len(),
{
    if chars.len() > 0 {
        lemma_encoded_length_bound(chars.drop_first());
    }
}

/// The name of the project configuration entry at the root of an archive.
pub open spec fn config_entry_name() -> Seq<char> {
    "config.json"@
}

/// The message for an archive without a configuration entry.
pub open spec fn missing_config_message() -> Seq<char> {
    "Missing config.json in project root."@
}

/// Turns the lookup of `config.json` in a project archive into the project's
/// answer: a missing entry is an invalid project; an entry that cannot be
/// read is a parse failure, as reading it is part of parsing it; otherwise
/// the entry's bytes.
pub fn config_entry_from_lookup(
    lookup: Result<Result<Vec<u8>, std::io::Error>, ZipError>,
) -> (res: Result<Vec<u8>, ProjectLoadError>)
    ensures
        match lookup {
            Err(_) => res matches Err(ProjectLoadError::InvalidFormat(m)) && m@
                == missing_config_message(),
            Ok(Err(_)) => res matches Err(ProjectLoadError::ParseError(_)),
            Ok(Ok(contents)) => res == Ok::<Vec<u8>, ProjectLoadError>(contents),
        },
{
    match lookup {
        Err(_) => Err(ProjectLoadError::InvalidFormat("Missing config.json in project root.".to_owned())),
        Ok(Err(e)) => Err(ProjectLoadError::ParseError(json_error_from_io(e))),
        Ok(Ok(contents)) => Ok(contents),
    }
}

/// What looking up `config.json` in the archive `data` finds.
pub enum ConfigLookup {
    NotAnArchive,
    Missing,
    Unreadable,
    Found(Seq<u8>),
}

/// What looking up `config.json` in the archive `data` finds: nothing when
/// the zip reader refuses the bytes, then whether the entry exists and reads.
pub open spec fn config_lookup(data: Seq<u8>) -> ConfigLookup {
    if !zip_archive_opens(data) {
        ConfigLookup::NotAnArchive
    } else if !zip_entry_found(data, config_entry_name()) {
        ConfigLookup::Missing
    } else {
        match zip_entry_contents(data, config_entry_name()) {
            Some(contents) => ConfigLookup::Found(contents),
            None => ConfigLookup::Unreadable,
        }
    }
}

/// Reads the bytes of `config.json` from a project archive held in memory.
/// An archive the zip reader refuses gives its zip error; the rest is as
/// `config_entry_from_lookup` says.
pub fn read_project_config_entry(data: Vec<u8>) -> (res: Result<Vec<u8>, ProjectLoadError>)
    ensures
        match config_lookup(data@) {
            ConfigLookup::NotAnArchive => res matches Err(ProjectLoadError::ZipError(_)),
            ConfigLookup::Missing => (res matches Err(ProjectLoadError::InvalidFormat(m)) && m@
                == missing_config_message()),
            ConfigLookup::Unreadable => res matches Err(ProjectLoadError::ParseError(_)),
            ConfigLookup::Found(contents) => (res matches Ok(c) && c@ == contents),
        },
{
    let mut archive = match open_archive(data) {
        Ok(a) => a,
        Err(e) => {
            return Err(ProjectLoadError::ZipError(e));
        },
    };
    let lookup = read_archive_entry(&mut archive, "config.json");
    config_entry_from_lookup(lookup)
}

} // verus!
