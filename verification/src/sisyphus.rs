//! The pipeline: what belongs to the working set, and what is to be done
//! with each of its items. Reading, writing and sending are left to the
//! caller, who hands in what was read and gets back what to write.

use crate::args::Mode;
use crate::consts::{
    EXTENSION_BREAK, INDEX_FILE, OUTPUT_DIR, STYLE_FILE, TEMPLATE_FILE, THUMB_EXTENSION,
    THUMB_FILE, ZIP_SUFFIX,
};
use crate::errors::{ErisError, Fault};
use crate::http::{described, name_view, stem, Http, UploadRequest};
use crate::paths::{file_name, file_name_of, join, joined};
use crate::text::{
    chars_of, first_index, has_suffix, lemma_first_index_is, same_text, split_on, strip_suffix,
    without_suffix,
};
use crate::ziper::{
    archive_entries, archived, gives, opened_archive, source_views, unpacked, ExtractionView,
    Method, SourceEntry, Unpacked, Ziper,
};
use vstd::prelude::*;

verus! {

/// What a directory entry leads to.
#[derive(Debug, Clone, Copy, PartialEq, Eq, Structural)]
pub enum FileKind {
    File,
    Directory,
    Other,
}

/// One entry of a directory, as it was listed.
#[derive(Debug, Clone, PartialEq, Eq)]
pub struct DirItem {
    /// The path of the entry.
    pub path: String,
    /// The last component of the path.
    pub file_name: String,
    /// What the entry leads to, where that could be read.
    pub kind: Option<FileKind>,
}

/// What is done with a directory entry.
pub enum Sorting {
    /// It belongs to the working set.
    Take,
    /// It does not.
    Skip,
    /// It could not be looked at.
    Fail(Fault),
}

/// A change of the directory tree that clears the ground for an item.
#[derive(Debug, Clone, PartialEq, Eq)]
pub enum Chore {
    /// Remove the directory at `path` with all it holds, if it exists.
    RemoveTree { path: String },
    /// Create the directory at `path`, and those above it.
    CreateTree { path: String },
}

/// A chore, its path taken by its characters.
pub enum ChoreView {
    RemoveTree { path: Seq<char> },
    CreateTree { path: Seq<char> },
}

impl View for Chore {
    type V = ChoreView;

    open spec fn view(&self) -> ChoreView {
        match self {
            Chore::RemoveTree { path } => ChoreView::RemoveTree { path: path@ },
            Chore::CreateTree { path } => ChoreView::CreateTree { path: path@ },
        }
    }
}

/// What unpacking one archive comes to.
#[derive(Debug, Clone, PartialEq, Eq)]
pub struct UnzipJob {
    /// The folder that the archive is unpacked to.
    pub folder: String,
    /// What is done first, so that nothing of an earlier run is left.
    pub clear: Vec<Chore>,
    /// What is written then.
    pub unpacked: Unpacked,
}

/// The places that formatting one archive reads and writes.
#[derive(Debug, Clone, PartialEq, Eq)]
pub struct FormatLayout {
    /// The folder of the unpacked bundle.
    pub folder: String,
    /// The image beside the archive that becomes the preview, if it exists.
    pub thumb_source: String,
    /// Where the preview is copied to.
    pub thumb_target: String,
    /// The document to annotate, which is removed afterwards.
    pub index: String,
    /// The stylesheet of the bundle.
    pub style: String,
    /// The document to write.
    pub template: String,
}

/// The places that packing one folder reads and writes.
#[derive(Debug, Clone, PartialEq, Eq)]
pub struct CompressLayout {
    /// The archive to write, which must not exist yet.
    pub archive: String,
    /// The folder whose listing is packed.
    pub source: String,
}

/// The pipeline for one run.
#[derive(Debug)]
pub struct Sisyphus {
    directory: String,
    output: String,
    mode: Mode,
    file_list: Vec<String>,
    ziper: Ziper,
    http: Option<Http>,
    upload_name: Option<String>,
}

/// What is done with a directory entry. Where archives are looked for, a
/// file whose name ends in the archive suffix is taken. Where folders are
/// looked for, a directory is taken unless it is the output folder.
pub open spec fn sorted(name: Seq<char>, kind: Option<FileKind>, use_file: bool) -> Sorting {
    match kind {
        None => Sorting::Fail(Fault::FileType),
        Some(kind) => if use_file && kind == FileKind::File && has_suffix(name, ZIP_SUFFIX@) {
            Sorting::Take
        } else if !use_file && kind == FileKind::Directory {
            if name.len() == 0 {
                Sorting::Fail(Fault::NameMissing)
            } else if name == OUTPUT_DIR@ {
                Sorting::Skip
            } else {
                Sorting::Take
            }
        } else {
            Sorting::Skip
        },
    }
}

/// The paths of the entries that are taken, in the order of the listing.
/// Entries that could not be read or looked at are passed over.
pub open spec fn selected(listing: Seq<Option<DirItem>>, use_file: bool) -> Seq<Seq<char>>
    decreases listing.len(),
{
    if listing.len() == 0 {
        Seq::empty()
    } else {
        let before = selected(listing.drop_last(), use_file);
        match listing.last() {
            Some(item) => if sorted(item.file_name@, item.kind, use_file) is Take {
                before.push(item.path@)
            } else {
                before
            },
            None => before,
        }
    }
}

/// The output directory: the one that was asked for, else the folder
/// `output` in the directory worked in.
pub open spec fn output_of(directory: Seq<char>, output: Option<Seq<char>>) -> Seq<char> {
    match output {
        Some(o) => o,
        None => joined(directory, OUTPUT_DIR@),
    }
}

/// The directory that is listed for the working set.
pub open spec fn listed(mode: Mode, directory: Seq<char>, output: Option<Seq<char>>) -> Seq<char> {
    if mode == Mode::Upload {
        output_of(directory, output)
    } else {
        directory
    }
}

/// The texts of a list of strings.
pub open spec fn texts(list: Seq<String>) -> Seq<Seq<char>> {
    Seq::new(list.len(), |i: int| list[i]@)
}

/// The part of a file name before its first dot.
pub fn format_name(file_name: &str) -> (name: &str)
    ensures
        name@ == file_name@.take(first_index(file_name@, '.')),
        name@ == split_on(file_name@, '.')[0],
{
    let text = chars_of(file_name);
    let mut i: usize = 0;
    while i < text.len() && text[i] != '.'
        invariant
            i <= text.len(),
            text@ == file_name@,
            forall|j: int| 0 <= j < i ==> text@[j] != '.',
        decreases text.len() - i,
    {
        i = i + 1;
    }
    proof {
        lemma_first_index_is(file_name@, '.', i as int);
        assert(file_name@.take(file_name@.len() as int) == file_name@);
        assert(file_name@.subrange(0, i as int) == file_name@.take(i as int));
    }
    file_name.substring_char(0, i)
}

/// Decides whether a directory entry belongs to the working set.
pub fn format_path(item: &DirItem, use_file: bool) -> (r: Result<String, ErisError>)
    ensures
        match sorted(item.file_name@, item.kind, use_file) {
            Sorting::Take => r matches Ok(path) && path@ == item.path@,
            Sorting::Skip => r matches Err(ErisError::Empty(what)) && what@.len() == 0,
            Sorting::Fail(fault) => r matches Err(ErisError::Other(f)) && f == fault,
        },
{
    let kind = match item.kind {
        Some(kind) => kind,
        None => { return Err(ErisError::Other(Fault::FileType)); },
    };
    if use_file && kind == FileKind::File && strip_suffix(item.file_name.as_str(), ZIP_SUFFIX).is_some() {
        Ok(item.path.clone())
    } else if !use_file && kind == FileKind::Directory {
        if item.file_name.as_str().unicode_len() == 0 {
            Err(ErisError::Other(Fault::NameMissing))
        } else if same_text(item.file_name.as_str(), OUTPUT_DIR) {
            Err(ErisError::Empty(String::new()))
        } else {
            Ok(item.path.clone())
        }
    } else {
        Err(ErisError::Empty(String::new()))
    }
}

/// The output directory of a run.
pub fn output_dir(directory: &str, output: &Option<String>) -> (dir: String)
    ensures
        dir@ == output_of(directory@, name_view(*output)),
{
    match output {
        Some(o) => o.clone(),
        None => join(directory, OUTPUT_DIR),
    }
}

/// The directory to list for the working set of a run.
pub fn listing_dir(mode: Mode, directory: &str, output: &Option<String>) -> (dir: String)
    ensures
        dir@ == listed(mode, directory@, name_view(*output)),
{
    if mode == Mode::Upload {
        output_dir(directory, output)
    } else {
        String::from_str(directory)
    }
}

impl Sisyphus {
    /// The stage that is run.
    pub closed spec fn mode(&self) -> Mode {
        self.mode
    }

    /// The directory worked in.
    pub closed spec fn directory(&self) -> Seq<char> {
        self.directory@
    }

    /// The directory that compress mode writes to and upload mode reads.
    pub closed spec fn output(&self) -> Seq<char> {
        self.output@
    }

    /// The working set.
    pub closed spec fn files(&self) -> Seq<Seq<char>> {
        texts(self.file_list@)
    }

    /// The upload client, which only upload mode has.
    pub closed spec fn client(&self) -> Option<Http> {
        self.http
    }

    /// The name that replaces the first segment of an uploaded file's name.
    pub closed spec fn name_override(&self) -> Option<Seq<char>> {
        name_view(self.upload_name)
    }

    /// Sets up a run from its settings and from the listing of
    /// `listing_dir`. The working set is what `format_path` takes of the
    /// listing: archives, but in compress mode folders. Upload mode needs a
    /// token.
    pub fn new(
        mode: Mode,
        directory: &str,
        output: &Option<String>,
        base_url: &Option<String>,
        token: &Option<String>,
        upload_name: &Option<String>,
        listing: &Vec<Option<DirItem>>,
    ) -> (r: Result<Sisyphus, Fault>)
        ensures
            match r {
                Ok(run) => {
                    &&& !(mode == Mode::Upload && token is None)
                    &&& run.mode() == mode
                    &&& run.directory() == directory@
                    &&& run.output() == output_of(directory@, name_view(*output))
                    &&& run.files() == selected(listing@, mode != Mode::Compress)
                    &&& run.name_override() == name_view(*upload_name)
                    &&& (mode != Mode::Upload ==> run.client() is None)
                    &&& (mode == Mode::Upload ==> (run.client() matches Some(http) && http.token()
                        == token->0@ && http.upload_url() == Http::new_url(name_view(*base_url))))
                },
                Err(fault) => fault == Fault::TokenMissing && mode == Mode::Upload && token is None,
            },
    {
        let use_file = mode != Mode::Compress;
        let mut file_list: Vec<String> = Vec::new();
        let mut i: usize = 0;
        assert(listing@.take(0) == Seq::<Option<DirItem>>::empty());
        while i < listing.len()
            invariant
                i <= listing.len(),
                texts(file_list@) == selected(listing@.take(i as int), use_file),
            decreases listing.len() - i,
        {
            proof {
                assert(listing@.take(i + 1).drop_last() == listing@.take(i as int));
                assert(listing@.take(i + 1).last() == listing@[i as int]);
            }
            let ghost before = texts(file_list@);
            match &listing[i] {
                Some(item) => {
                    match format_path(item, use_file) {
                        Ok(path) => {
                            let ghost taken = path@;
                            file_list.push(path);
                            assert(texts(file_list@) =~= before.push(taken));
                        },
                        Err(_) => {},
                    }
                },
                None => {},
            }
            i = i + 1;
        }
        assert(listing@.take(i as int) == listing@);
        let http = if mode == Mode::Upload {
            match token {
                Some(token) => {
                    let base = match base_url {
                        Some(base) => Some(base.as_str()),
                        None => None,
                    };
                    Some(Http::new(base, token.as_str()))
                },
                None => { return Err(Fault::TokenMissing); },
            }
        } else {
            None
        };
        Ok(
            Sisyphus {
                directory: String::from_str(directory),
                output: output_dir(directory, output),
                mode,
                file_list,
                ziper: Ziper::new(),
                http,
                upload_name: match upload_name {
                    Some(name) => Some(name.clone()),
                    None => None,
                },
            },
        )
    }

    /// The stage that is run.
    pub fn get_mode(&self) -> (mode: Mode)
        ensures
            mode == self.mode(),
    {
        self.mode
    }

    /// The directory worked in.
    pub fn get_directory(&self) -> (directory: &str)
        ensures
            directory@ == self.directory(),
    {
        self.directory.as_str()
    }

    /// The directory that compress mode writes to and upload mode reads.
    pub fn get_output(&self) -> (output: &str)
        ensures
            output@ == self.output(),
    {
        self.output.as_str()
    }

    /// The working set.
    pub fn get_files(&self) -> (files: &Vec<String>)
        ensures
            texts(files@) == self.files(),
    {
        &self.file_list
    }

    /// What is done before the items are gone through: in compress mode the
    /// output directory is made where it is missing. Nothing is removed: an
    /// archive of an earlier run stays, and stands in the way of a new one.
    pub open spec fn prepared(&self) -> Seq<ChoreView> {
        if self.mode() == Mode::Compress {
            seq![ChoreView::CreateTree { path: self.output() }]
        } else {
            Seq::empty()
        }
    }

    /// What to do before the items are gone through.
    pub fn preparation(&self) -> (chores: Vec<Chore>)
        ensures
            chore_views(chores@) == self.prepared(),
    {
        if self.mode == Mode::Compress {
            let mut chores: Vec<Chore> = Vec::new();
            chores.push(Chore::CreateTree { path: self.output.clone() });
            assert(chore_views(chores@) =~= seq![ChoreView::CreateTree { path: self.output() }]);
            chores
        } else {
            let chores: Vec<Chore> = Vec::new();
            assert(chore_views(chores@) =~= Seq::<ChoreView>::empty());
            chores
        }
    }

    /// Unpacks the archive read from `path`. Its folder lies in the
    /// directory worked in and bears the archive's file name without the
    /// archive suffix. The folder is cleared first.
    pub fn unzip(&self, path: &str, archive: Vec<u8>) -> (r: Result<UnzipJob, Fault>)
        ensures
            match r {
                Ok(job) => {
                    &&& file_name_of(path@).len() > 0
                    &&& job.folder@ == unzip_folder(self.directory(), path@)
                    &&& chore_views(job.clear@) == cleared(job.folder@)
                    &&& job.unpacked@ == match opened_archive(archive@) {
                        None => (Seq::<ExtractionView>::empty(), Some(Fault::ArchiveInvalid)),
                        Some(opened) => unpacked(job.folder@, archive_entries(opened)),
                    }
                },
                Err(fault) => fault == Fault::NameMissing && file_name_of(path@).len() == 0,
            },
    {
        let name = file_name(path);
        if name.as_str().unicode_len() == 0 {
            return Err(Fault::NameMissing);
        }
        let base = match strip_suffix(name.as_str(), ZIP_SUFFIX) {
            Some(base) => base,
            None => name,
        };
        let folder = join(self.directory.as_str(), base.as_str());
        let clear = clear(folder.as_str());
        let unpacked = self.ziper.unzip(Some(folder.as_str()), archive);
        Ok(UnzipJob { folder, clear, unpacked })
    }

    /// The places that packing the folder at `path` reads and writes: the
    /// archive lies in the output directory and is named after the folder;
    /// the folder of that name in the directory worked in is packed.
    pub fn compress_layout(&self, path: &str) -> (r: Result<CompressLayout, Fault>)
        ensures
            match r {
                Ok(layout) => {
                    &&& file_name_of(path@).len() > 0
                    &&& layout.archive@ == joined(self.output(), file_name_of(path@) + ZIP_SUFFIX@)
                    &&& layout.source@ == joined(self.directory(), file_name_of(path@))
                },
                Err(fault) => fault == Fault::NameMissing && file_name_of(path@).len() == 0,
            },
    {
        let name = file_name(path);
        if name.as_str().unicode_len() == 0 {
            return Err(Fault::NameMissing);
        }
        let mut archive_name = name.clone();
        archive_name.append(ZIP_SUFFIX);
        Ok(
            CompressLayout {
                archive: join(self.output.as_str(), archive_name.as_str()),
                source: join(self.directory.as_str(), name.as_str()),
            },
        )
    }

    /// Packs the listing of a folder, stored without compression. Where the
    /// archive to write is already there (`taken`), nothing is packed: an
    /// archive is never written over.
    pub fn compress(&self, layout: &CompressLayout, taken: bool, items: &Vec<SourceEntry>) -> (r:
        Result<Vec<u8>, Fault>)
        ensures
            taken ==> (r matches Err(fault) && fault == Fault::Conflict),
            !taken ==> gives(r, archived(source_views(items@), layout.source@, Method::Stored)),
    {
        if taken {
            return Err(Fault::Conflict);
        }
        self.ziper.zip_dir(items, layout.source.as_str(), Method::Stored)
    }

    /// What is sent to upload the file at `path`, and where. The file is
    /// described by its name, the last component of the path. Without an
    /// upload client there is nothing to send, and a path without a name
    /// cannot be described.
    pub fn upload_request(&self, path: &str) -> (r: Result<UploadRequest, Fault>)
        ensures
            match r {
                Ok(request) => self.client() matches Some(http) && file_name_of(path@).len() > 0
                    && request.url@ == http.upload_url() && request.token@ == http.token()
                    && request.descriptor@ == described(file_name_of(path@), self.name_override()),
                Err(fault) => if self.client() is None {
                    fault == Fault::ClientMissing
                } else {
                    fault == Fault::NameMissing && file_name_of(path@).len() == 0
                },
            },
    {
        match &self.http {
            None => Err(Fault::ClientMissing),
            Some(http) => {
                let name = file_name(path);
                if name.as_str().unicode_len() == 0 {
                    return Err(Fault::NameMissing);
                }
                Ok(http.upload(name.as_str(), &self.upload_name))
            },
        }
    }

    /// The outcome of a run, once every item was tried: the run fails where
    /// any item failed, with the fault of the first item that did.
    pub fn process(&self, outcomes: Vec<Result<(), Fault>>) -> (r: Result<(), Fault>)
        ensures
            r is Ok <==> forall|i: int| 0 <= i < outcomes@.len() ==> outcomes@[i] is Ok,
            r is Err ==> 0 <= first_failure(outcomes@) < outcomes@.len() && r == outcomes@[first_failure(
                outcomes@,
            )],
    {
        let mut all = outcomes;
        let mut i: usize = 0;
        while i < all.len()
            invariant
                i <= all.len(),
                all@ == outcomes@,
                forall|j: int| 0 <= j < i ==> outcomes@[j] is Ok,
            decreases all.len() - i,
        {
            if all[i].is_err() {
                proof {
                    lemma_first_failure_is(outcomes@, i as int);
                }
                return all.remove(i);
            }
            i = i + 1;
        }
        Ok(())
    }
}

/// The position of the first failure, or the length where there is none.
pub open spec fn first_failure(outcomes: Seq<Result<(), Fault>>) -> int
    decreases outcomes.len(),
{
    if outcomes.len() == 0 {
        0
    } else if outcomes[0] is Err {
        0
    } else {
        1 + first_failure(outcomes.skip(1))
    }
}

/// A failure with none before it is the first.
pub proof fn lemma_first_failure_is(outcomes: Seq<Result<(), Fault>>, i: int)
    requires
        0 <= i <= outcomes.len(),
        i < outcomes.len() ==> outcomes[i] is Err,
        forall|j: int| 0 <= j < i ==> outcomes[j] is Ok,
    ensures
        first_failure(outcomes) == i,
    decreases i,
{
    if i > 0 {
        assert(outcomes[0] is Ok);
        let rest = outcomes.skip(1);
        assert forall|j: int| 0 <= j < i - 1 implies rest[j] is Ok by {
            assert(rest[j] == outcomes[j + 1]);
        }
        lemma_first_failure_is(rest, i - 1);
    }
}

/// The views of a list of chores.
pub open spec fn chore_views(chores: Seq<Chore>) -> Seq<ChoreView> {
    Seq::new(chores.len(), |i: int| chores[i]@)
}

/// What clears the ground at `path`: whatever is there is removed, and the
/// directory is made anew.
pub open spec fn cleared(path: Seq<char>) -> Seq<ChoreView> {
    seq![ChoreView::RemoveTree { path }, ChoreView::CreateTree { path }]
}

/// The folder that the archive at `path` is unpacked to.
pub open spec fn unzip_folder(directory: Seq<char>, path: Seq<char>) -> Seq<char> {
    joined(directory, stem(file_name_of(path)))
}

/// What clears the ground at `path`.
pub fn clear(path: &str) -> (chores: Vec<Chore>)
    ensures
        chore_views(chores@) == cleared(path@),
{
    let mut chores: Vec<Chore> = Vec::new();
    chores.push(Chore::RemoveTree { path: String::from_str(path) });
    chores.push(Chore::CreateTree { path: String::from_str(path) });
    assert(chore_views(chores@) =~= cleared(path@));
    chores
}

/// The places of a formatted bundle, for the archive at `file`.
pub open spec fn layout_of(file: Seq<char>) -> Option<FormatLayoutView> {
    match without_suffix(file, ZIP_SUFFIX@) {
        None => None,
        Some(folder) => Some(
            FormatLayoutView {
                folder,
                thumb_source: folder + seq!['.'] + THUMB_EXTENSION@,
                thumb_target: joined(folder, THUMB_FILE@),
                index: joined(folder, INDEX_FILE@),
                style: joined(folder, STYLE_FILE@),
                template: joined(folder, TEMPLATE_FILE@),
            },
        ),
    }
}

/// The places of a formatted bundle, taken by their characters.
pub struct FormatLayoutView {
    pub folder: Seq<char>,
    pub thumb_source: Seq<char>,
    pub thumb_target: Seq<char>,
    pub index: Seq<char>,
    pub style: Seq<char>,
    pub template: Seq<char>,
}

impl View for FormatLayout {
    type V = FormatLayoutView;

    open spec fn view(&self) -> FormatLayoutView {
        FormatLayoutView {
            folder: self.folder@,
            thumb_source: self.thumb_source@,
            thumb_target: self.thumb_target@,
            index: self.index@,
            style: self.style@,
            template: self.template@,
        }
    }
}

/// The places that formatting the archive at `file` reads and writes. The
/// folder is the path of the archive without the archive suffix; a path
/// without that suffix is refused.
pub fn format_layout(file: &str) -> (r: Result<FormatLayout, Fault>)
    ensures
        match r {
            Ok(layout) => layout_of(file@) == Some(layout@),
            Err(fault) => fault == Fault::NotZip && layout_of(file@) is None,
        },
{
    let folder = match strip_suffix(file, ZIP_SUFFIX) {
        Some(folder) => folder,
        None => { return Err(Fault::NotZip); },
    };
    let mut thumb_source = folder.clone();
    thumb_source.append(EXTENSION_BREAK);
    thumb_source.append(THUMB_EXTENSION);
    proof {
        reveal_strlit(".");
        assert(EXTENSION_BREAK@ =~= seq!['.']);
    }
    let thumb_target = join(folder.as_str(), THUMB_FILE);
    let index = join(folder.as_str(), INDEX_FILE);
    let style = join(folder.as_str(), STYLE_FILE);
    let template = join(folder.as_str(), TEMPLATE_FILE);
    Ok(FormatLayout { folder, thumb_source, thumb_target, index, style, template })
}

} // verus!
