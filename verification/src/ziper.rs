//! The archive engine: what an archive unpacks to, and what a directory
//! listing packs to. Reading and writing the zip format is the work of `zip`.

use crate::consts::ENTRY_MODE;
use crate::errors::Fault;
use crate::paths::{
    join, joined, lemma_joined_relative, parent, parent_of, relative_to, strip_root,
};
use crate::text::{chars_of, has_suffix};
use std::io::{Cursor, Read, Write};
use vstd::prelude::*;
use zip::write::FileOptions;
use zip::{CompressionMethod, ZipArchive, ZipWriter};

verus! {

/// How the content of a file entry is stored.
#[derive(Debug, Clone, Copy, PartialEq, Eq)]
pub enum Method {
    Stored,
    Deflated,
}

/// One entry as the archive holds it.
#[derive(Debug, Clone, PartialEq, Eq)]
pub struct RawEntry {
    /// The name, as it is written in the archive.
    pub name: String,
    /// Whether the name is a relative path that stays below where it starts.
    pub enclosed: bool,
    /// The content, where it could be read.
    pub content: Option<Vec<u8>>,
}

/// One thing to do on disk to unpack an archive.
#[derive(Debug, Clone, PartialEq, Eq)]
pub enum Extraction {
    /// Create the directory at `path`, and those above it.
    Directory { path: String },
    /// Write `content` to the file at `path`, once the directory `parent`
    /// exists.
    File { path: String, parent: Option<String>, content: Vec<u8> },
}

/// What an archive unpacks to: the steps up to the first fault, and that fault.
#[derive(Debug, Clone, PartialEq, Eq)]
pub struct Unpacked {
    pub steps: Vec<Extraction>,
    pub fault: Option<Fault>,
}

/// One item of the listing of a directory tree.
#[derive(Debug, Clone, PartialEq, Eq)]
pub struct SourceEntry {
    /// The path, which begins with the root that was listed.
    pub path: String,
    /// Whether the path leads to a file.
    pub is_file: bool,
    /// The content of the file, where it could be read.
    pub content: Option<Vec<u8>>,
}

/// An entry of an archive, its name taken by its characters.
pub struct RawEntryView {
    pub name: Seq<char>,
    pub enclosed: bool,
    pub content: Option<Seq<u8>>,
}

/// A step of an unpacking, its paths taken by their characters.
pub enum ExtractionView {
    Directory { path: Seq<char> },
    File { path: Seq<char>, parent: Option<Seq<char>>, content: Seq<u8> },
}

/// An item of a listing, its path taken by its characters.
pub struct SourceEntryView {
    pub path: Seq<char>,
    pub is_file: bool,
    pub content: Option<Seq<u8>>,
}

/// One entry as it was handed to the archive writer.
pub struct Written {
    pub name: Seq<char>,
    pub directory: bool,
    pub method: Method,
    pub mode: u32,
    pub content: Seq<u8>,
}

impl View for RawEntry {
    type V = RawEntryView;

    open spec fn view(&self) -> RawEntryView {
        RawEntryView {
            name: self.name@,
            enclosed: self.enclosed,
            content: match self.content {
                Some(bytes) => Some(bytes@),
                None => None,
            },
        }
    }
}

impl View for Extraction {
    type V = ExtractionView;

    open spec fn view(&self) -> ExtractionView {
        match self {
            Extraction::Directory { path } => ExtractionView::Directory { path: path@ },
            Extraction::File { path, parent, content } => ExtractionView::File {
                path: path@,
                parent: match parent {
                    Some(p) => Some(p@),
                    None => None,
                },
                content: content@,
            },
        }
    }
}

impl View for SourceEntry {
    type V = SourceEntryView;

    open spec fn view(&self) -> SourceEntryView {
        SourceEntryView {
            path: self.path@,
            is_file: self.is_file,
            content: match self.content {
                Some(bytes) => Some(bytes@),
                None => None,
            },
        }
    }
}

impl View for Unpacked {
    type V = (Seq<ExtractionView>, Option<Fault>);

    open spec fn view(&self) -> (Seq<ExtractionView>, Option<Fault>) {
        (Seq::new(self.steps@.len(), |i: int| self.steps@[i]@), self.fault)
    }
}

/// `std::io::Cursor`, which lets a buffer in memory be read and written
/// like a file.
#[verifier::external_type_specification]
#[verifier::external_body]
#[verifier::reject_recursive_types(T)]
pub struct ExCursor<T>(Cursor<T>);

/// `zip::ZipArchive`, an archive that was opened for reading.
#[verifier::external_type_specification]
#[verifier::external_body]
#[verifier::reject_recursive_types(R)]
pub struct ExZipArchive<R>(ZipArchive<R>);

/// A `zip::ZipWriter` that writes to memory. Nothing is known of what is in
/// it but through the functions below.
#[verifier::external_body]
pub struct ArchiveWriter {
    inner: ZipWriter<Cursor<Vec<u8>>>,
}

/// The archive that `ZipArchive::new` reads from `bytes`, if it reads one.
pub uninterp spec fn opened_archive(bytes: Seq<u8>) -> Option<ZipArchive<Cursor<Vec<u8>>>>;

/// The entries of `archive`, in its order: for each what `by_index_decrypt`
/// with the empty password and the entry's `name`, `enclosed_name` and
/// content give, or `None` where the entry is not handed out.
pub uninterp spec fn archive_entries(archive: ZipArchive<Cursor<Vec<u8>>>) -> Seq<
    Option<RawEntryView>,
>;

/// The entries that `writer` was given so far.
pub uninterp spec fn written(writer: ArchiveWriter) -> Seq<Written>;

/// Whether `ZipWriter::start_file` begins a file entry of this name, method
/// and permissions in a writer that holds `before`.
pub uninterp spec fn start_accepted(before: Seq<Written>, name: Seq<char>, method: Method, mode: u32) -> bool;

/// Whether `ZipWriter::add_directory` adds a directory of this name and
/// these permissions to a writer that holds `before`.
pub uninterp spec fn directory_accepted(before: Seq<Written>, name: Seq<char>, mode: u32) -> bool;

/// Whether `Write::write_all` takes these bytes in a writer that holds
/// `before`.
pub uninterp spec fn content_accepted(before: Seq<Written>, bytes: Seq<u8>) -> bool;

/// The bytes of the archive that `ZipWriter::finish` yields after these
/// entries were written, or `None` where it fails. The writer stamps every
/// entry with the same fixed time, so nothing but the entries goes into the
/// bytes.
pub uninterp spec fn archive_bytes(entries: Seq<Written>) -> Option<Seq<u8>>;

/// `ZipArchive::new` on the bytes in memory, its error dropped.
#[verifier::external_body]
pub(crate) fn open_archive(bytes: Vec<u8>) -> (archive: Option<ZipArchive<Cursor<Vec<u8>>>>)
    ensures
        archive == opened_archive(bytes@),
{
    ZipArchive::new(Cursor::new(bytes)).ok()
}

/// `ZipArchive::len`: the number of entries.
#[verifier::external_body]
pub(crate) fn entry_count(archive: &ZipArchive<Cursor<Vec<u8>>>) -> (n: usize)
    ensures
        n == archive_entries(*archive).len(),
{
    archive.len()
}

/// `ZipArchive::by_index_decrypt` with the empty password, which an entry
/// that is not encrypted does not look at, and of the entry it gives the
/// `name`, whether `enclosed_name` accepts it, and the content read to its
/// end. An entry that it refuses, for its password too, is `None`. Reading
/// leaves the entries as they are.
#[verifier::external_body]
pub(crate) fn read_entry(archive: &mut ZipArchive<Cursor<Vec<u8>>>, index: usize) -> (entry: Option<
    RawEntry,
>)
    requires
        index < archive_entries(*old(archive)).len(),
    ensures
        archive_entries(*final(archive)) == archive_entries(*old(archive)),
        match entry {
            Some(e) => archive_entries(*old(archive))[index as int] == Some(e@),
            None => archive_entries(*old(archive))[index as int] is None,
        },
{
    let mut file = archive.by_index_decrypt(index, &[]).ok()?.ok()?;
    let mut content = Vec::new();
    let content = file.read_to_end(&mut content).ok().map(|_| content);
    Some(RawEntry { name: file.name().to_string(), enclosed: file.enclosed_name().is_some(), content })
}

/// `ZipWriter::new` on an empty buffer in memory: nothing is written yet.
#[verifier::external_body]
pub(crate) fn new_writer() -> (writer: ArchiveWriter)
    ensures
        written(writer).len() == 0,
{
    ArchiveWriter { inner: ZipWriter::new(Cursor::new(Vec::new())) }
}

/// `ZipWriter::start_file` with the given method and permissions. Whether
/// it succeeds depends on what the writer holds and on what it is given.
/// Where it does, a file entry of that name is begun, without content so
/// far.
#[verifier::external_body]
pub(crate) fn start_file(writer: &mut ArchiveWriter, name: &str, method: Method, mode: u32) -> (ok: bool)
    requires
        mode <= 0o777,
    ensures
        ok == start_accepted(written(*old(writer)), name@, method, mode),
        ok ==> written(*final(writer)) == written(*old(writer)).push(
            Written { name: name@, directory: false, method, mode, content: Seq::empty() },
        ),
{
    let method = match method {
        Method::Stored => CompressionMethod::Stored,
        Method::Deflated => CompressionMethod::Deflated,
    };
    let options = FileOptions::default().compression_method(method).unix_permissions(mode);
    writer.inner.start_file(name, options).is_ok()
}

/// `ZipWriter::add_directory` with the given permissions. Whether it
/// succeeds depends on what the writer holds and on what it is given. Where
/// it does, a directory entry is added. Its name ends in a slash, which is
/// added where `name` ends neither in a slash nor in a backslash, and it is
/// stored.
#[verifier::external_body]
pub(crate) fn add_directory(writer: &mut ArchiveWriter, name: &str, mode: u32) -> (ok: bool)
    requires
        mode <= 0o777,
    ensures
        ok == directory_accepted(written(*old(writer)), name@, mode),
        ok ==> written(*final(writer)) == written(*old(writer)).push(
            Written {
                name: directory_name(name@),
                directory: true,
                method: Method::Stored,
                mode,
                content: Seq::empty(),
            },
        ),
{
    let options = FileOptions::default().unix_permissions(mode);
    writer.inner.add_directory(name, options).is_ok()
}

/// `Write::write_all` on the writer. Whether it succeeds depends on what
/// the writer holds and on the bytes. Where it does, the bytes follow the
/// content of the file entry that was begun last. Bytes are only taken while
/// such an entry is open; no bytes at all are always taken, and change
/// nothing.
#[verifier::external_body]
pub(crate) fn write_content(writer: &mut ArchiveWriter, bytes: &Vec<u8>) -> (ok: bool)
    ensures
        ok == content_accepted(written(*old(writer)), bytes@),
        bytes@.len() == 0 ==> ok,
        ok && bytes@.len() == 0 ==> written(*final(writer)) == written(*old(writer)),
        ok && bytes@.len() > 0 ==> written(*old(writer)).len() > 0 && !written(
            *old(writer),
        ).last().directory && written(*final(writer)) == written(*old(writer)).drop_last().push(
            with_content(written(*old(writer)).last(), bytes@),
        ),
{
    writer.inner.write_all(bytes).is_ok()
}

/// `ZipWriter::finish`, and the buffer it wrote to. Whether it succeeds, and
/// with which bytes, depends on what the writer holds.
#[verifier::external_body]
pub(crate) fn finish(writer: ArchiveWriter) -> (bytes: Option<Vec<u8>>)
    ensures
        match bytes {
            Some(b) => archive_bytes(written(writer)) == Some(b@),
            None => archive_bytes(written(writer)) is None,
        },
{
    let mut writer = writer;
    writer.inner.finish().ok().map(|buffer| buffer.into_inner())
}

/// The name under which `add_directory` enters a directory.
pub open spec fn directory_name(name: Seq<char>) -> Seq<char> {
    if name.len() > 0 && (name.last() == '/' || name.last() == '\\') {
        name
    } else {
        name.push('/')
    }
}

/// `entry` with `bytes` after what it holds.
pub open spec fn with_content(entry: Written, bytes: Seq<u8>) -> Written {
    Written { content: entry.content + bytes, ..entry }
}

/// What one entry of an archive asks for under `root`: nothing where its
/// name is not enclosed; a directory where the name ends in a slash; else a
/// file with the entry's content. An entry that cannot be opened, or a file
/// whose content cannot be read, is a fault.
pub open spec fn entry_action(root: Seq<char>, entry: Option<RawEntryView>) -> (
    Option<ExtractionView>,
    Option<Fault>,
) {
    match entry {
        None => (None, Some(Fault::EntryHeader)),
        Some(e) => if !e.enclosed {
            (None, None)
        } else if has_suffix(e.name, seq!['/']) {
            (Some(ExtractionView::Directory { path: joined(root, e.name) }), None)
        } else {
            match e.content {
                None => (None, Some(Fault::EntryContent)),
                Some(content) => (
                    Some(
                        ExtractionView::File {
                            path: joined(root, e.name),
                            parent: parent_of(joined(root, e.name)),
                            content,
                        },
                    ),
                    None,
                ),
            }
        },
    }
}

/// The steps that the entries ask for, in their order, up to the first
/// fault, and that fault.
pub open spec fn unpacked(root: Seq<char>, entries: Seq<Option<RawEntryView>>) -> (
    Seq<ExtractionView>,
    Option<Fault>,
)
    decreases entries.len(),
{
    if entries.len() == 0 {
        (Seq::empty(), None)
    } else {
        let before = unpacked(root, entries.drop_last());
        if before.1 is Some {
            before
        } else {
            let here = entry_action(root, entries.last());
            (
                match here.0 {
                    Some(step) => before.0.push(step),
                    None => before.0,
                },
                here.1,
            )
        }
    }
}

/// The file entry without content that stands for `name` once it is begun.
pub open spec fn begun(name: Seq<char>, method: Method) -> Written {
    Written { name, directory: false, method, mode: ENTRY_MODE, content: Seq::empty() }
}

/// What one item of a listing adds to an archive packed from `root`, in a
/// writer that holds `before`: a file entry under its relative name, a
/// directory entry unless the relative name is empty. A path that does not
/// lie under `root`, a file that could not be read, and an entry or content
/// that the writer does not accept are faults.
pub open spec fn source_action(
    before: Seq<Written>,
    item: SourceEntryView,
    root: Seq<char>,
    method: Method,
) -> (Option<Written>, Option<Fault>) {
    match relative_to(item.path, root) {
        None => (None, Some(Fault::OutsideRoot)),
        Some(name) => if item.is_file {
            if !start_accepted(before, name, method, ENTRY_MODE) {
                (None, Some(Fault::ArchiveWrite))
            } else {
                match item.content {
                    None => (None, Some(Fault::SourceUnreadable)),
                    Some(content) => if content_accepted(before.push(begun(name, method)), content) {
                        (Some(Written { content, ..begun(name, method) }), None)
                    } else {
                        (None, Some(Fault::ArchiveWrite))
                    },
                }
            }
        } else if name.len() > 0 {
            if directory_accepted(before, name, ENTRY_MODE) {
                (
                    Some(
                        Written {
                            name: directory_name(name),
                            directory: true,
                            method: Method::Stored,
                            mode: ENTRY_MODE,
                            content: Seq::empty(),
                        },
                    ),
                    None,
                )
            } else {
                (None, Some(Fault::ArchiveWrite))
            }
        } else {
            (None, None)
        },
    }
}

/// The entries that a listing packs to, in its order, up to the first fault,
/// and that fault.
pub open spec fn packed(items: Seq<SourceEntryView>, root: Seq<char>, method: Method) -> (
    Seq<Written>,
    Option<Fault>,
)
    decreases items.len(),
{
    if items.len() == 0 {
        (Seq::empty(), None)
    } else {
        let before = packed(items.drop_last(), root, method);
        if before.1 is Some {
            before
        } else {
            let here = source_action(before.0, items.last(), root, method);
            (
                match here.0 {
                    Some(entry) => before.0.push(entry),
                    None => before.0,
                },
                here.1,
            )
        }
    }
}

/// What packing a listing comes to: the fault that ended it, else the bytes
/// of the archive, else the fault of an archive that could not be ended.
pub open spec fn archived(items: Seq<SourceEntryView>, root: Seq<char>, method: Method) -> Result<
    Seq<u8>,
    Fault,
> {
    match packed(items, root, method).1 {
        Some(fault) => Err(fault),
        None => match archive_bytes(packed(items, root, method).0) {
            Some(bytes) => Ok(bytes),
            None => Err(Fault::ArchiveWrite),
        },
    }
}

/// `r` is `expected`, the bytes taken as a sequence.
pub open spec fn gives(r: Result<Vec<u8>, Fault>, expected: Result<Seq<u8>, Fault>) -> bool {
    match r {
        Ok(bytes) => expected == Ok::<Seq<u8>, Fault>(bytes@),
        Err(fault) => expected == Err::<Seq<u8>, Fault>(fault),
    }
}

/// The view of an entry read from an archive, or of the lack of one.
pub open spec fn raw_view(entry: Option<RawEntry>) -> Option<RawEntryView> {
    match entry {
        Some(e) => Some(e@),
        None => None,
    }
}

/// The views of the entries read from an archive.
pub open spec fn raw_views(entries: Seq<Option<RawEntry>>) -> Seq<Option<RawEntryView>> {
    Seq::new(entries.len(), |i: int| raw_view(entries[i]))
}

/// The views of the items of a listing.
pub open spec fn source_views(items: Seq<SourceEntry>) -> Seq<SourceEntryView> {
    Seq::new(items.len(), |i: int| items[i]@)
}

/// The root that an optional prefix stands for.
pub open spec fn root_of(prefix: Option<&str>) -> Seq<char> {
    match prefix {
        Some(p) => p@,
        None => Seq::empty(),
    }
}

/// Once a fault was found among the first `n` entries, the rest adds nothing.
pub proof fn lemma_unpacked_stops(root: Seq<char>, entries: Seq<Option<RawEntryView>>, n: int)
    requires
        0 <= n <= entries.len(),
        unpacked(root, entries.take(n)).1 is Some,
    ensures
        unpacked(root, entries) == unpacked(root, entries.take(n)),
    decreases entries.len() - n,
{
    if n < entries.len() {
        assert(entries.take(n + 1).drop_last() == entries.take(n));
        lemma_unpacked_stops(root, entries, n + 1);
    } else {
        assert(entries.take(n) == entries);
    }
}

/// Once a fault was found among the first `n` items, the rest adds nothing.
pub proof fn lemma_packed_stops(items: Seq<SourceEntryView>, root: Seq<char>, method: Method, n: int)
    requires
        0 <= n <= items.len(),
        packed(items.take(n), root, method).1 is Some,
    ensures
        packed(items, root, method) == packed(items.take(n), root, method),
    decreases items.len() - n,
{
    if n < items.len() {
        assert(items.take(n + 1).drop_last() == items.take(n));
        lemma_packed_stops(items, root, method, n + 1);
    } else {
        assert(items.take(n) == items);
    }
}

/// A copy of `bytes`.
pub fn copy_bytes(bytes: &Vec<u8>) -> (copy: Vec<u8>)
    ensures
        copy@ == bytes@,
{
    let mut copy: Vec<u8> = Vec::new();
    let mut i: usize = 0;
    while i < bytes.len()
        invariant
            i <= bytes.len(),
            copy@ == bytes@.take(i as int),
        decreases bytes.len() - i,
    {
        copy.push(bytes[i]);
        i = i + 1;
    }
    assert(bytes@.take(i as int) == bytes@);
    copy
}

/// What one entry asks for under `root`.
pub fn plan_entry(root: &str, entry: &Option<RawEntry>) -> (r: (Option<Extraction>, Option<Fault>))
    ensures
        r.1 == entry_action(root@, raw_view(*entry)).1,
        match r.0 {
            Some(step) => entry_action(root@, raw_view(*entry)).0 == Some(step@),
            None => entry_action(root@, raw_view(*entry)).0 is None,
        },
{
    match entry {
        None => (None, Some(Fault::EntryHeader)),
        Some(e) => {
            if !e.enclosed {
                return (None, None);
            }
            let name = chars_of(e.name.as_str());
            let ghost slash = seq!['/'];
            let is_directory = name.len() > 0 && name[name.len() - 1] == '/';
            proof {
                if name.len() > 0 {
                    assert(name@.skip(name@.len() - 1) =~= seq![name@.last()]);
                    if name@.last() != '/' {
                        assert(name@.skip(name@.len() - 1)[0] != slash[0]);
                    }
                }
            }
            let path = join(root, e.name.as_str());
            if is_directory {
                (Some(Extraction::Directory { path }), None)
            } else {
                match &e.content {
                    None => (None, Some(Fault::EntryContent)),
                    Some(bytes) => {
                        let dir = parent(path.as_str());
                        (Some(Extraction::File { path, parent: dir, content: copy_bytes(bytes) }), None)
                    },
                }
            }
        },
    }
}

/// The archive engine.
#[derive(Debug, Clone, Copy, PartialEq, Eq)]
pub struct Ziper {}

impl Ziper {
    /// The engine, which holds no state.
    pub fn new() -> (ziper: Self) {
        Self {}
    }

    /// What the entries of an archive unpack to under `prefix`. Entries whose
    /// names are not enclosed are passed over. The steps end at the first
    /// entry that cannot be opened or read.
    pub fn extraction(&self, prefix: Option<&str>, entries: &Vec<Option<RawEntry>>) -> (r: Unpacked)
        ensures
            r@ == unpacked(root_of(prefix), raw_views(entries@)),
    {
        let root = match prefix {
            Some(p) => p,
            None => "",
        };
        proof {
            reveal_strlit("");
        }
        assert(root@ =~= root_of(prefix));
        let ghost all = raw_views(entries@);
        let mut steps: Vec<Extraction> = Vec::new();
        let mut i: usize = 0;
        assert(all.take(0) == Seq::<Option<RawEntryView>>::empty());
        while i < entries.len()
            invariant
                i <= entries.len(),
                all == raw_views(entries@),
                root@ == root_of(prefix),
                unpacked(root@, all.take(i as int)).1 is None,
                Seq::new(steps@.len(), |k: int| steps@[k]@) == unpacked(root@, all.take(i as int)).0,
            decreases entries.len() - i,
        {
            proof {
                assert(all.take(i + 1).drop_last() == all.take(i as int));
                assert(all.take(i + 1).last() == all[i as int]);
                assert(raw_view(entries@[i as int]) == all[i as int]);
            }
            let ghost before = Seq::new(steps@.len(), |k: int| steps@[k]@);
            let (step, fault) = plan_entry(root, &entries[i]);
            match step {
                Some(s) => {
                    let ghost sv = s@;
                    steps.push(s);
                    assert(Seq::new(steps@.len(), |k: int| steps@[k]@) =~= before.push(sv));
                },
                None => {},
            }
            match fault {
                Some(f) => {
                    proof {
                        lemma_unpacked_stops(root@, all, i + 1);
                    }
                    return Unpacked { steps, fault: Some(f) };
                },
                None => {},
            }
            i = i + 1;
        }
        assert(all.take(i as int) == all);
        Unpacked { steps, fault: None }
    }

    /// What the archive in `archive` unpacks to under `prefix`.
    pub fn unzip(&self, prefix: Option<&str>, archive: Vec<u8>) -> (r: Unpacked)
        ensures
            r@ == match opened_archive(archive@) {
                None => (Seq::<ExtractionView>::empty(), Some(Fault::ArchiveInvalid)),
                Some(opened) => unpacked(root_of(prefix), archive_entries(opened)),
            },
    {
        let mut opened = match open_archive(archive) {
            Some(opened) => opened,
            None => {
                let r = Unpacked { steps: Vec::new(), fault: Some(Fault::ArchiveInvalid) };
                assert(r@.0 =~= Seq::<ExtractionView>::empty());
                return r;
            },
        };
        let ghost all = archive_entries(opened);
        let count = entry_count(&opened);
        let mut entries: Vec<Option<RawEntry>> = Vec::new();
        let mut i: usize = 0;
        while i < count
            invariant
                i <= count,
                count == all.len(),
                archive_entries(opened) == all,
                entries@.len() == i,
                forall|k: int| 0 <= k < i ==> raw_views(entries@)[k] == all[k],
            decreases count - i,
        {
            let entry = read_entry(&mut opened, i);
            let ghost before = entries@;
            entries.push(entry);
            assert forall|k: int| 0 <= k < i + 1 implies raw_views(entries@)[k] == all[k] by {
                if k < i {
                    assert(raw_views(before)[k] == all[k]);
                }
            }
            i = i + 1;
        }
        assert(raw_views(entries@) =~= all);
        self.extraction(prefix, &entries)
    }

    /// Packs a listing into an archive. Each path is entered under what
    /// follows `prefix` in it: a file with its content, stored by `method`;
    /// a directory unless that name is empty. All entries carry the same
    /// permissions. The first item that cannot be packed, and the first
    /// refusal of the archive writer, end the packing with an error.
    pub fn zip_dir(&self, items: &Vec<SourceEntry>, prefix: &str, method: Method) -> (r: Result<
        Vec<u8>,
        Fault,
    >)
        ensures
            gives(r, archived(source_views(items@), prefix@, method)),
    {
        let ghost all = source_views(items@);
        let mut writer = new_writer();
        let mut i: usize = 0;
        assert(all.take(0) == Seq::<SourceEntryView>::empty());
        assert(written(writer) =~= Seq::<Written>::empty());
        while i < items.len()
            invariant
                i <= items.len(),
                all == source_views(items@),
                packed(all.take(i as int), prefix@, method).1 is None,
                written(writer) == packed(all.take(i as int), prefix@, method).0,
            decreases items.len() - i,
        {
            proof {
                assert(all.take(i + 1).drop_last() == all.take(i as int));
                assert(all.take(i + 1).last() == all[i as int]);
                assert(all[i as int] == items@[i as int]@);
            }
            let ghost before = written(writer);
            let item = &items[i];
            let name = match strip_root(item.path.as_str(), prefix) {
                Some(name) => name,
                None => {
                    proof {
                        lemma_packed_stops(all, prefix@, method, i + 1);
                    }
                    return Err(Fault::OutsideRoot);
                },
            };
            if item.is_file {
                if !start_file(&mut writer, name.as_str(), method, ENTRY_MODE) {
                    proof {
                        lemma_packed_stops(all, prefix@, method, i + 1);
                    }
                    return Err(Fault::ArchiveWrite);
                }
                match &item.content {
                    None => {
                        proof {
                            lemma_packed_stops(all, prefix@, method, i + 1);
                        }
                        return Err(Fault::SourceUnreadable);
                    },
                    Some(bytes) => {
                        if !write_content(&mut writer, bytes) {
                            proof {
                                lemma_packed_stops(all, prefix@, method, i + 1);
                            }
                            return Err(Fault::ArchiveWrite);
                        }
                        proof {
                            let open = begun(name@, method);
                            assert(before.push(open).drop_last() == before);
                            assert(with_content(open, bytes@).content =~= bytes@);
                            assert(written(writer) == before.push(with_content(open, bytes@)));
                        }
                    },
                }
            } else if name.as_str().unicode_len() > 0 {
                if !add_directory(&mut writer, name.as_str(), ENTRY_MODE) {
                    proof {
                        lemma_packed_stops(all, prefix@, method, i + 1);
                    }
                    return Err(Fault::ArchiveWrite);
                }
            }
            i = i + 1;
        }
        assert(all.take(i as int) == all);
        match finish(writer) {
            Some(bytes) => Ok(bytes),
            None => Err(Fault::ArchiveWrite),
        }
    }
}

/// The path that a step writes to.
pub open spec fn step_path(step: ExtractionView) -> Seq<char> {
    match step {
        ExtractionView::Directory { path } => path,
        ExtractionView::File { path, .. } => path,
    }
}

/// The item that a listing holds for what a step wrote.
pub open spec fn listed_step(step: ExtractionView) -> SourceEntryView {
    match step {
        ExtractionView::Directory { path } => SourceEntryView { path, is_file: false, content: None },
        ExtractionView::File { path, content, .. } => SourceEntryView {
            path,
            is_file: true,
            content: Some(content),
        },
    }
}

/// The listing of what the steps wrote, in their order.
pub open spec fn listing_of(steps: Seq<ExtractionView>) -> Seq<SourceEntryView> {
    Seq::new(steps.len(), |i: int| listed_step(steps[i]))
}

/// The names of the entries that are enclosed, in their order.
pub open spec fn enclosed_names(entries: Seq<Option<RawEntryView>>) -> Seq<Seq<char>>
    decreases entries.len(),
{
    if entries.len() == 0 {
        Seq::empty()
    } else {
        let before = enclosed_names(entries.drop_last());
        match entries.last() {
            Some(e) => if e.enclosed {
                before.push(e.name)
            } else {
                before
            },
            None => before,
        }
    }
}

/// The names of what was handed to the writer, in order.
pub open spec fn names_of(entries: Seq<Written>) -> Seq<Seq<char>> {
    Seq::new(entries.len(), |i: int| entries[i].name)
}

/// Every step of an unpacking writes under the root.
pub proof fn lemma_unpacked_under(root: Seq<char>, entries: Seq<Option<RawEntryView>>)
    ensures
        forall|k: int|
            0 <= k < unpacked(root, entries).0.len() ==> relative_to(
                step_path(#[trigger] unpacked(root, entries).0[k]),
                root,
            ) is Some,
    decreases entries.len(),
{
    if entries.len() > 0 {
        lemma_unpacked_under(root, entries.drop_last());
        match entries.last() {
            Some(e) => {
                lemma_joined_relative(root, e.name);
            },
            None => {},
        }
    }
}

/// Packing what an archive was unpacked to, in the order in which it was
/// written, gives back the archive's names: where neither the unpacking nor
/// the packing met a fault, the names of the entries that are packed are the
/// names of the archive's enclosed entries, in the same order.
pub proof fn lemma_pack_in_order(root: Seq<char>, entries: Seq<Option<RawEntryView>>, method: Method)
    requires
        unpacked(root, entries).1 is None,
        packed(listing_of(unpacked(root, entries).0), root, method).1 is None,
    ensures
        names_of(packed(listing_of(unpacked(root, entries).0), root, method).0) == enclosed_names(
            entries,
        ),
    decreases entries.len(),
{
    let steps = unpacked(root, entries).0;
    if entries.len() == 0 {
        assert(listing_of(steps) =~= Seq::<SourceEntryView>::empty());
        assert(names_of(Seq::<Written>::empty()) =~= Seq::<Seq<char>>::empty());
    } else {
        let before = unpacked(root, entries.drop_last());
        let here = entry_action(root, entries.last());
        match here.0 {
            None => {
                assert(steps == before.0);
                lemma_pack_in_order(root, entries.drop_last(), method);
            },
            Some(step) => {
                let e = entries.last()->0;
                let item = listed_step(step);
                let listing = listing_of(steps);
                assert(steps == before.0.push(step));
                assert(listing.drop_last() =~= listing_of(before.0));
                assert(listing.last() == item);
                lemma_pack_in_order(root, entries.drop_last(), method);
                let packed_before = packed(listing_of(before.0), root, method);
                lemma_joined_relative(root, e.name);
                if has_suffix(e.name, seq!['/']) {
                    assert(e.name.skip(e.name.len() - 1)[0] == '/');
                    assert(e.name.last() == '/');
                    assert(directory_name(e.name) == e.name);
                }
                let added = source_action(packed_before.0, item, root, method).0->0;
                assert(added.name == e.name);
                assert(packed(listing, root, method).0 == packed_before.0.push(added));
                assert(names_of(packed_before.0.push(added)) =~= names_of(packed_before.0).push(
                    e.name,
                ));
            },
        }
    }
}

/// The entry that an item of a listing stands for in an archive packed from
/// `root`, if it stands for one: a file with its content under its relative
/// name, a directory under its relative name unless that is empty.
pub open spec fn entry_of(item: SourceEntryView, root: Seq<char>, method: Method) -> Option<Written> {
    match relative_to(item.path, root) {
        None => None,
        Some(name) => if item.is_file {
            match item.content {
                Some(content) => Some(Written { content, ..begun(name, method) }),
                None => None,
            }
        } else if name.len() > 0 {
            Some(
                Written {
                    name: directory_name(name),
                    directory: true,
                    method: Method::Stored,
                    mode: ENTRY_MODE,
                    content: Seq::empty(),
                },
            )
        } else {
            None
        },
    }
}

/// The entries that the items of a listing stand for, in its order.
pub open spec fn entries_of(items: Seq<SourceEntryView>, root: Seq<char>, method: Method) -> Seq<
    Written,
>
    decreases items.len(),
{
    if items.len() == 0 {
        Seq::empty()
    } else {
        let before = entries_of(items.drop_last(), root, method);
        match entry_of(items.last(), root, method) {
            Some(entry) => before.push(entry),
            None => before,
        }
    }
}

/// The archive holds an enclosed file entry of this name with this content.
pub open spec fn holds_file(entries: Seq<Option<RawEntryView>>, name: Seq<char>, content: Seq<u8>) -> bool {
    exists|i: int|
        0 <= i < entries.len() && #[trigger] entries[i] == Some(
            RawEntryView { name, enclosed: true, content: Some(content) },
        )
}

/// `entry` is enclosed and has the name of `w`, and its content where `w` is
/// a file.
pub open spec fn source_of(entry: Option<RawEntryView>, w: Written) -> bool {
    entry matches Some(e) && e.enclosed && e.name == w.name && (!w.directory ==> e.content == Some(
        w.content,
    ))
}

/// One of the entries is the source of `w`.
pub open spec fn came_from(entries: Seq<Option<RawEntryView>>, w: Written) -> bool {
    exists|i: int| 0 <= i < entries.len() && source_of(#[trigger] entries[i], w)
}

/// A packing without a fault hands the writer the entries that the items
/// stand for, and no others.
pub proof fn lemma_packed_entries(items: Seq<SourceEntryView>, root: Seq<char>, method: Method)
    requires
        packed(items, root, method).1 is None,
    ensures
        packed(items, root, method).0 == entries_of(items, root, method),
    decreases items.len(),
{
    if items.len() > 0 {
        lemma_packed_entries(items.drop_last(), root, method);
    }
}

/// Each entry of a listing's entries comes from one of its items.
pub proof fn lemma_entry_item(items: Seq<SourceEntryView>, root: Seq<char>, method: Method, k: int) -> (i:
    int)
    requires
        0 <= k < entries_of(items, root, method).len(),
    ensures
        0 <= i < items.len(),
        entry_of(items[i], root, method) == Some(entries_of(items, root, method)[k]),
    decreases items.len(),
{
    let before = entries_of(items.drop_last(), root, method);
    if k < before.len() {
        let i = lemma_entry_item(items.drop_last(), root, method, k);
        assert(items.drop_last()[i] == items[i]);
        i
    } else {
        items.len() - 1
    }
}

/// Each item of a listing that stands for an entry has it among the
/// listing's entries.
pub proof fn lemma_item_entry(items: Seq<SourceEntryView>, root: Seq<char>, method: Method, i: int) -> (k:
    int)
    requires
        0 <= i < items.len(),
        entry_of(items[i], root, method) is Some,
    ensures
        0 <= k < entries_of(items, root, method).len(),
        entries_of(items, root, method)[k] == entry_of(items[i], root, method)->0,
    decreases items.len(),
{
    let before = entries_of(items.drop_last(), root, method);
    if i < items.len() - 1 {
        assert(items.drop_last()[i] == items[i]);
        lemma_item_entry(items.drop_last(), root, method, i)
    } else {
        before.len() as int
    }
}

/// Each step of an unpacking without a fault is what one enclosed entry
/// asks for.
pub proof fn lemma_step_entry(root: Seq<char>, entries: Seq<Option<RawEntryView>>, k: int) -> (i: int)
    requires
        unpacked(root, entries).1 is None,
        0 <= k < unpacked(root, entries).0.len(),
    ensures
        0 <= i < entries.len(),
        entries[i] matches Some(e) && e.enclosed,
        entry_action(root, entries[i]) == (Some(unpacked(root, entries).0[k]), None::<Fault>),
    decreases entries.len(),
{
    let before = unpacked(root, entries.drop_last());
    if k < before.0.len() {
        let i = lemma_step_entry(root, entries.drop_last(), k);
        assert(entries.drop_last()[i] == entries[i]);
        i
    } else {
        entries.len() - 1
    }
}

/// Each enclosed entry of an unpacking without a fault has its step.
pub proof fn lemma_entry_step(root: Seq<char>, entries: Seq<Option<RawEntryView>>, i: int) -> (k: int)
    requires
        unpacked(root, entries).1 is None,
        0 <= i < entries.len(),
        entries[i] matches Some(e) && e.enclosed,
    ensures
        0 <= k < unpacked(root, entries).0.len(),
        entry_action(root, entries[i]) == (Some(unpacked(root, entries).0[k]), None::<Fault>),
    decreases entries.len(),
{
    let before = unpacked(root, entries.drop_last());
    if i < entries.len() - 1 {
        assert(entries.drop_last()[i] == entries[i]);
        lemma_entry_step(root, entries.drop_last(), i)
    } else {
        before.0.len() as int
    }
}

/// Each of the enclosed names is the name of an enclosed entry.
pub proof fn lemma_name_entry(entries: Seq<Option<RawEntryView>>, k: int) -> (i: int)
    requires
        0 <= k < enclosed_names(entries).len(),
    ensures
        0 <= i < entries.len(),
        entries[i] matches Some(e) && e.enclosed && e.name == enclosed_names(entries)[k],
    decreases entries.len(),
{
    let before = enclosed_names(entries.drop_last());
    if k < before.len() {
        let i = lemma_name_entry(entries.drop_last(), k);
        assert(entries.drop_last()[i] == entries[i]);
        i
    } else {
        entries.len() - 1
    }
}

/// The name of each enclosed entry is among the enclosed names.
pub proof fn lemma_entry_name(entries: Seq<Option<RawEntryView>>, i: int) -> (k: int)
    requires
        0 <= i < entries.len(),
        entries[i] matches Some(e) && e.enclosed,
    ensures
        0 <= k < enclosed_names(entries).len(),
        enclosed_names(entries)[k] == entries[i]->0.name,
    decreases entries.len(),
{
    let before = enclosed_names(entries.drop_last());
    if i < entries.len() - 1 {
        assert(entries.drop_last()[i] == entries[i]);
        lemma_entry_name(entries.drop_last(), i)
    } else {
        before.len() as int
    }
}

/// What an enclosed entry was unpacked to stands, in a listing, for an entry
/// of the same name: a directory where the name ends in a slash, else a file
/// with the entry's content.
pub proof fn lemma_listed_entry(root: Seq<char>, e: RawEntryView, method: Method)
    requires
        e.enclosed,
        entry_action(root, Some(e)).1 is None,
    ensures
        entry_action(root, Some(e)).0 is Some,
        entry_of(listed_step(entry_action(root, Some(e)).0->0), root, method) matches Some(w)
            && w.name == e.name && w.directory == has_suffix(e.name, seq!['/']) && (!w.directory
            ==> e.content == Some(w.content)),
{
    lemma_joined_relative(root, e.name);
    if has_suffix(e.name, seq!['/']) {
        assert(e.name.skip(e.name.len() - 1)[0] == '/');
        assert(e.name.last() == '/');
        assert(directory_name(e.name) == e.name);
    }
}

/// Packing what an archive was unpacked to gives back its names and its
/// contents, in whatever order the listing holds what was written. Where
/// neither the unpacking nor the packing met a fault, and the listing holds
/// exactly what the steps wrote, the names of the entries that are packed
/// are the names of the archive's enclosed entries, and each file that is
/// packed has the content of the archive's entry of that name.
pub proof fn lemma_pack_after_unpack(
    root: Seq<char>,
    entries: Seq<Option<RawEntryView>>,
    listing: Seq<SourceEntryView>,
    method: Method,
)
    requires
        unpacked(root, entries).1 is None,
        forall|item: SourceEntryView|
            listing.contains(item) <==> listing_of(unpacked(root, entries).0).contains(item),
        packed(listing, root, method).1 is None,
    ensures
        forall|name: Seq<char>|
            names_of(packed(listing, root, method).0).contains(name) <==> enclosed_names(
                entries,
            ).contains(name),
        forall|k: int|
            0 <= k < packed(listing, root, method).0.len() && !(#[trigger] packed(
                listing,
                root,
                method,
            ).0[k]).directory ==> holds_file(
                entries,
                packed(listing, root, method).0[k].name,
                packed(listing, root, method).0[k].content,
            ),
{
    let steps = unpacked(root, entries).0;
    let written_out = listing_of(steps);
    let result = packed(listing, root, method).0;
    lemma_packed_entries(listing, root, method);
    assert forall|k: int| 0 <= k < result.len() implies came_from(entries, #[trigger] result[k]) by {
        let j = lemma_entry_item(listing, root, method, k);
        assert(listing.contains(listing[j]));
        assert(written_out.contains(listing[j]));
        let m = choose|m: int| 0 <= m < written_out.len() && written_out[m] == listing[j];
        let i = lemma_step_entry(root, entries, m);
        lemma_listed_entry(root, entries[i]->0, method);
        assert(source_of(entries[i], result[k]));
    }
    assert forall|name: Seq<char>| names_of(result).contains(name) implies enclosed_names(
        entries,
    ).contains(name) by {
        let k = choose|k: int| 0 <= k < names_of(result).len() && names_of(result)[k] == name;
        assert(came_from(entries, result[k]));
        let i = choose|i: int| 0 <= i < entries.len() && source_of(#[trigger] entries[i], result[k]);
        let q = lemma_entry_name(entries, i);
        assert(enclosed_names(entries)[q] == name);
    }
    assert forall|name: Seq<char>| enclosed_names(entries).contains(name) implies names_of(
        result,
    ).contains(name) by {
        let q = choose|q: int|
            0 <= q < enclosed_names(entries).len() && enclosed_names(entries)[q] == name;
        let i = lemma_name_entry(entries, q);
        let m = lemma_entry_step(root, entries, i);
        lemma_listed_entry(root, entries[i]->0, method);
        let item = written_out[m];
        assert(written_out.contains(item));
        assert(listing.contains(item));
        let j = choose|j: int| 0 <= j < listing.len() && listing[j] == item;
        let k = lemma_item_entry(listing, root, method, j);
        assert(names_of(result)[k] == name);
    }
    assert forall|k: int| 0 <= k < result.len() && !(#[trigger] result[k]).directory implies holds_file(
        entries,
        result[k].name,
        result[k].content,
    ) by {
        assert(came_from(entries, result[k]));
        let i = choose|i: int| 0 <= i < entries.len() && source_of(#[trigger] entries[i], result[k]);
        let e = entries[i]->0;
        assert(entries[i] == Some(
            RawEntryView { name: result[k].name, enclosed: true, content: Some(result[k].content) },
        ));
    }
}

/// `item` can be packed from `root` as far as the listing goes: its path
/// lies under `root`, and where it is a file its content was read.
pub open spec fn packable(item: SourceEntryView, root: Seq<char>) -> bool {
    relative_to(item.path, root) is Some && (item.is_file ==> item.content is Some)
}

/// Where every item can be packed, only the writer can end the packing.
pub proof fn lemma_packable(items: Seq<SourceEntryView>, root: Seq<char>, method: Method)
    requires
        forall|i: int| 0 <= i < items.len() ==> packable(#[trigger] items[i], root),
    ensures
        packed(items, root, method).1 is None || packed(items, root, method).1 == Some(
            Fault::ArchiveWrite,
        ),
    decreases items.len(),
{
    if items.len() > 0 {
        assert forall|i: int| 0 <= i < items.drop_last().len() implies packable(
            #[trigger] items.drop_last()[i],
            root,
        ) by {
            assert(items.drop_last()[i] == items[i]);
        }
        lemma_packable(items.drop_last(), root, method);
        assert(packable(items[items.len() - 1], root));
    }
}

/// Packing what an archive was unpacked to does not fail on account of the
/// listing: where the unpacking met no fault and the listing holds nothing
/// but what the steps wrote, only the writer can end the packing.
pub proof fn lemma_pack_fault(
    root: Seq<char>,
    entries: Seq<Option<RawEntryView>>,
    listing: Seq<SourceEntryView>,
    method: Method,
)
    requires
        unpacked(root, entries).1 is None,
        forall|item: SourceEntryView|
            listing.contains(item) ==> listing_of(unpacked(root, entries).0).contains(item),
    ensures
        packed(listing, root, method).1 is None || packed(listing, root, method).1 == Some(
            Fault::ArchiveWrite,
        ),
{
    let written_out = listing_of(unpacked(root, entries).0);
    assert forall|j: int| 0 <= j < listing.len() implies packable(#[trigger] listing[j], root) by {
        assert(listing.contains(listing[j]));
        assert(written_out.contains(listing[j]));
        let m = choose|m: int| 0 <= m < written_out.len() && written_out[m] == listing[j];
        let i = lemma_step_entry(root, entries, m);
        lemma_joined_relative(root, entries[i]->0.name);
    }
    lemma_packable(listing, root, method);
}

} // verus!
