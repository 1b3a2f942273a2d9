//! What the file commands tell about paths, which files of a directory they
//! list, and where the compressed version of an original file ends up.

use crate::error;
use crate::error::AppError;
use crate::text;
use crate::text::{same_ignoring_ascii_case, same_text, to_lowercase, write_decimal};
use crate::winpath;
use crate::winpath::{path_extension, path_file_name, path_with_extension};
use crate::winpath_laws;
use vstd::prelude::*;
use vstd::string::*;

verus! {

/// What is known of one path.
pub struct PathInfo {
    pub exists: bool,
    pub is_dir: bool,
    pub size: u64,
    pub name: String,
    pub extension: Option<String>,
    /// Full absolute path, echoed back for convenience
    pub path: String,
}

/// The contents of a [`PathInfo`].
pub struct PathInfoView {
    pub exists: bool,
    pub is_dir: bool,
    pub size: u64,
    pub name: Seq<char>,
    pub extension: Option<Seq<char>>,
    pub path: Seq<char>,
}

/// The text that an optional string holds.
pub open spec fn text_in(value: Option<String>) -> Option<Seq<char>> {
    match value {
        Some(text) => Some(text@),
        None => None,
    }
}

/// The text that an optional string holds, or nothing.
pub open spec fn text_or_empty(value: Option<Seq<char>>) -> Seq<char> {
    match value {
        Some(text) => text,
        None => Seq::empty(),
    }
}

impl View for PathInfo {
    type V = PathInfoView;

    open spec fn view(&self) -> PathInfoView {
        PathInfoView {
            exists: self.exists,
            is_dir: self.is_dir,
            size: self.size,
            name: self.name@,
            extension: text_in(self.extension),
            path: self.path@,
        }
    }
}

/// What looking at a path found.
pub enum PathProbe {
    /// Nothing is there.
    Missing,
    /// Something is there, but reading its metadata failed with this message.
    Unreadable(String),
    /// A file or a directory.
    Found { is_dir: bool, size: u64 },
}

/// An extension in small letters.
pub open spec fn lowered(extension: Option<Seq<char>>) -> Option<Seq<char>> {
    match extension {
        Some(ext) => Some(text::lowercase(ext)),
        None => None,
    }
}

/// What [`get_path_info`] tells of a path where nothing is.
pub open spec fn missing_info(path: Seq<char>) -> PathInfoView {
    PathInfoView {
        exists: false,
        is_dir: false,
        size: 0,
        name: text_or_empty(winpath::file_name(path)),
        extension: None,
        path,
    }
}

/// What [`get_path_info`] tells of a path where something is.
pub open spec fn found_info(
    path: Seq<char>,
    is_dir: bool,
    size: u64,
    extension: Option<Seq<char>>,
) -> PathInfoView {
    PathInfoView {
        exists: true,
        is_dir,
        size,
        name: text_or_empty(winpath::file_name(path)),
        extension,
        path,
    }
}

/// The file name of a path, or an empty text.
fn name_or_empty(path: &str) -> (name: String)
    ensures
        name@ == text_or_empty(winpath::file_name(path@)),
{
    match path_file_name(path) {
        Some(name) => name,
        None => String::new(),
    }
}

/// The extension of a path in small letters.
fn lower_extension(path: &str) -> (ext: Option<String>)
    ensures
        text_in(ext) == lowered(winpath::extension(path@)),
{
    match path_extension(path) {
        Some(ext) => Some(to_lowercase(ext.as_str())),
        None => None,
    }
}

/// What is known of a path where something is, given its extension in small
/// letters.
pub fn existing_path_info(path: String, is_dir: bool, size: u64, extension: Option<String>) -> (info:
    PathInfo)
    ensures
        info@ == found_info(path@, is_dir, size, text_in(extension)),
{
    let name = name_or_empty(path.as_str());
    PathInfo { exists: true, is_dir, size, name, extension, path }
}

/// Return metadata for a single path. Never errors on "not found" — instead
/// returns PathInfo { exists: false, ... } so callers can distinguish gracefully.
pub fn get_path_info(path: String, probe: PathProbe) -> (result: Result<PathInfo, AppError>)
    ensures
        match probe {
            PathProbe::Missing => result matches Ok(info) && info@ == missing_info(path@),
            PathProbe::Unreadable(text) => result matches Err(e) && e@
                == error::AppErrorView::Io(text@),
            PathProbe::Found { is_dir, size } => {
                &&& result matches Ok(info)
                &&& info@ == found_info(path@, is_dir, size, lowered(winpath::extension(path@)))
            },
        },
{
    match probe {
        PathProbe::Missing => {
            let name = name_or_empty(path.as_str());
            Ok(PathInfo { exists: false, is_dir: false, size: 0, name, extension: None, path })
        },
        PathProbe::Unreadable(text) => Err(AppError::Io(text)),
        PathProbe::Found { is_dir, size } => {
            let extension = lower_extension(path.as_str());
            Ok(existing_path_info(path, is_dir, size, extension))
        },
    }
}

/// The extensions of the files that can be compressed.
pub open spec fn supported_extensions() -> Seq<Seq<char>> {
    seq![
        "mp4"@,
        "mov"@,
        "mkv"@,
        "webm"@,
        "avi"@,
        "m4v"@,
        "wmv"@,
        "flv"@,
        "mp3"@,
        "m4a"@,
        "aac"@,
        "wav"@,
        "flac"@,
        "ogg"@,
        "opus"@,
        "wma"@,
        "jpg"@,
        "jpeg"@,
        "png"@,
        "webp"@,
        "heic"@,
        "heif"@,
        "avif"@,
        "bmp"@,
        "tiff"@,
        "pdf"@,
    ]
}

/// The extensions of the files that can be compressed: video, audio, image, pdf.
fn supported_list() -> (list: Vec<&'static str>)
    ensures
        list@.len() == supported_extensions().len(),
        forall|i: int| 0 <= i < list@.len() ==> (#[trigger] list@[i])@ == supported_extensions()[i],
{
    vec![
        "mp4",
        "mov",
        "mkv",
        "webm",
        "avi",
        "m4v",
        "wmv",
        "flv",
        "mp3",
        "m4a",
        "aac",
        "wav",
        "flac",
        "ogg",
        "opus",
        "wma",
        "jpg",
        "jpeg",
        "png",
        "webp",
        "heic",
        "heif",
        "avif",
        "bmp",
        "tiff",
        "pdf",
    ]
}

/// Whether files with this extension, given in small letters, can be compressed.
pub fn is_supported(lower: &str) -> (yes: bool)
    ensures
        yes == supported_extensions().contains(lower@),
{
    let list = supported_list();
    let mut i: usize = 0;
    while i < list.len()
        invariant
            0 <= i <= list@.len(),
            list@.len() == supported_extensions().len(),
            forall|j: int|
                0 <= j < list@.len() ==> (#[trigger] list@[j])@ == supported_extensions()[j],
            forall|j: int| 0 <= j < i ==> supported_extensions()[j] != lower@,
        decreases list@.len() - i,
    {
        if same_text(list[i], lower) {
            assert(supported_extensions()[i as int] == lower@);
            return true;
        }
        i = i + 1;
    }
    false
}

/// One entry of a directory, as the file system gave it.
pub struct FoundFile {
    /// The path, with replacement characters where it is not Unicode.
    pub path: String,
    /// The file name is Unicode as the system has it.
    pub name_is_unicode: bool,
    /// The extension is Unicode as the system has it.
    pub extension_is_unicode: bool,
    pub is_file: bool,
    /// The size, or the message with which reading the metadata failed.
    pub size: Result<u64, String>,
}

/// The contents of a [`FoundFile`].
pub struct FoundFileView {
    pub path: Seq<char>,
    pub name_is_unicode: bool,
    pub extension_is_unicode: bool,
    pub is_file: bool,
    pub size: Result<u64, Seq<char>>,
}

impl View for FoundFile {
    type V = FoundFileView;

    open spec fn view(&self) -> FoundFileView {
        FoundFileView {
            path: self.path@,
            name_is_unicode: self.name_is_unicode,
            extension_is_unicode: self.extension_is_unicode,
            is_file: self.is_file,
            size: match self.size {
                Ok(size) => Ok(size),
                Err(text) => Err(text@),
            },
        }
    }
}

impl FoundFileView {
    /// The extension of the path, where it is Unicode.
    pub open spec fn extension(self) -> Option<Seq<char>> {
        if self.extension_is_unicode {
            winpath::extension(self.path)
        } else {
            None
        }
    }

    /// A file with an extension that, in small letters, is supported.
    pub open spec fn is_listed(self) -> bool {
        &&& self.is_file
        &&& self.extension() matches Some(ext)
        &&& supported_extensions().contains(text::lowercase(ext))
    }

    /// What a listing tells of the file.
    pub open spec fn info(self) -> PathInfoView {
        PathInfoView {
            exists: true,
            is_dir: false,
            size: match self.size {
                Ok(size) => size,
                Err(_) => 0,
            },
            name: if self.name_is_unicode {
                text_or_empty(winpath::file_name(self.path))
            } else {
                Seq::empty()
            },
            extension: lowered(self.extension()),
            path: self.path,
        }
    }
}

/// What reading a directory found.
pub enum DirRead {
    /// There is no such path.
    Missing,
    /// Opening the directory failed with this message.
    Unreadable(String),
    /// Its entries, in the order in which they were read.
    Entries(Vec<FoundFile>),
}

/// What directory entries hold.
pub open spec fn file_views(files: Seq<FoundFile>) -> Seq<FoundFileView> {
    Seq::new(files.len(), |i: int| files[i]@)
}

/// What infos hold.
pub open spec fn info_views(infos: Seq<PathInfo>) -> Seq<PathInfoView> {
    Seq::new(infos.len(), |i: int| infos[i]@)
}

/// The listing of a directory: one info for each listed file, in order, up to
/// the first listed file whose size cannot be read; that one ends it with an
/// error.
pub open spec fn listing(files: Seq<FoundFileView>) -> Result<Seq<PathInfoView>, Seq<char>>
    decreases files.len(),
{
    if files.len() == 0 {
        Ok(Seq::empty())
    } else {
        match listing(files.drop_last()) {
            Err(text) => Err(text),
            Ok(done) => {
                let file = files.last();
                if !file.is_listed() {
                    Ok(done)
                } else {
                    match file.size {
                        Ok(_) => Ok(done.push(file.info())),
                        Err(text) => Err(text),
                    }
                }
            },
        }
    }
}

/// A listing that failed stays failed, whatever follows.
proof fn listing_stays_failed(files: Seq<FoundFileView>, upto: int)
    requires
        0 <= upto <= files.len(),
        listing(files.take(upto)) is Err,
    ensures
        listing(files) == listing(files.take(upto)),
    decreases files.len() - upto,
{
    if upto < files.len() {
        assert(files.take(upto + 1).drop_last() =~= files.take(upto));
        listing_stays_failed(files, upto + 1);
    } else {
        assert(files.take(upto) =~= files);
    }
}

/// Walk a directory one level deep and return all supported files.
/// Subdirectories are not recursed — a top-level folder drop gives the
/// immediate children only.
pub fn list_dir_supported(path: String, dir: DirRead) -> (result: Result<Vec<PathInfo>, AppError>)
    ensures
        match dir {
            DirRead::Missing => result matches Err(e) && e@
                == error::AppErrorView::PathDoesNotExist(path@),
            DirRead::Unreadable(text) => result matches Err(e) && e@ == error::AppErrorView::Io(
                text@,
            ),
            DirRead::Entries(files) => match listing(file_views(files@)) {
                Ok(infos) => result matches Ok(out) && info_views(out@) == infos,
                Err(text) => result matches Err(e) && e@ == error::AppErrorView::Io(text),
            },
        },
{
    let files = match dir {
        DirRead::Missing => {
            return Err(AppError::PathDoesNotExist(path));
        },
        DirRead::Unreadable(text) => {
            return Err(AppError::Io(text));
        },
        DirRead::Entries(files) => files,
    };
    let ghost all = file_views(files@);
    let mut out: Vec<PathInfo> = Vec::new();
    let mut i: usize = 0;
    assert(all.take(0) =~= Seq::empty());
    assert(info_views(out@) =~= Seq::empty());
    while i < files.len()
        invariant
            0 <= i <= files@.len(),
            dir == DirRead::Entries(files),
            all == file_views(files@),
            listing(all.take(i as int)) == Ok::<Seq<PathInfoView>, Seq<char>>(info_views(out@)),
        decreases files@.len() - i,
    {
        let file = &files[i];
        let ghost before = info_views(out@);
        proof {
            assert(all.take(i + 1).drop_last() =~= all.take(i as int));
            assert(all.take(i + 1).last() == file@);
        }
        let lower = if file.extension_is_unicode {
            lower_extension(file.path.as_str())
        } else {
            None
        };
        match lower {
            Some(lower) => {
                if file.is_file && is_supported(lower.as_str()) {
                    match &file.size {
                        Ok(size) => {
                            let name = if file.name_is_unicode {
                                name_or_empty(file.path.as_str())
                            } else {
                                String::new()
                            };
                            let info = PathInfo {
                                exists: true,
                                is_dir: false,
                                size: *size,
                                name,
                                extension: Some(lower),
                                path: file.path.clone(),
                            };
                            out.push(info);
                            assert(info@ == file@.info());
                            assert(info_views(out@) =~= before.push(info@));
                        },
                        Err(text) => {
                            proof {
                                assert(listing(all.take(i + 1)) == Err::<Seq<PathInfoView>, Seq<char>>(
                                    text@,
                                ));
                                listing_stays_failed(all, i + 1);
                            }
                            return Err(AppError::Io(text.clone()));
                        },
                    }
                }
            },
            None => {},
        }
        i = i + 1;
    }
    assert(all.take(i as int) =~= all);
    Ok(out)
}

/// Where every size can be read, the listing has just the supported files: all
/// of them, nothing else, in the order of the directory.
pub proof fn listing_is_all_supported_files(files: Seq<FoundFileView>)
    requires
        forall|i: int| 0 <= i < files.len() ==> (#[trigger] files[i]).size is Ok,
    ensures
        listing(files) == Ok::<Seq<PathInfoView>, Seq<char>>(
            files.filter(|file: FoundFileView| file.is_listed()).map_values(
                |file: FoundFileView| file.info(),
            ),
        ),
    decreases files.len(),
{
    reveal(Seq::filter);
    let listed = |file: FoundFileView| file.is_listed();
    let info = |file: FoundFileView| file.info();
    if files.len() == 0 {
        assert(files.filter(listed).map_values(info) =~= Seq::empty());
    } else {
        let front = files.drop_last();
        assert forall|i: int| 0 <= i < front.len() implies (#[trigger] front[i]).size is Ok by {
            assert(front[i] == files[i]);
        }
        listing_is_all_supported_files(front);
        assert(files[files.len() - 1].size is Ok);
        if listed(files.last()) {
            assert(files.filter(listed) =~= front.filter(listed).push(files.last()));
            assert(files.filter(listed).map_values(info) =~= front.filter(listed).map_values(
                info,
            ).push(files.last().info()));
        } else {
            assert(files.filter(listed) =~= front.filter(listed));
        }
    }
}

/// Every file in a listing exists, is no directory and has a supported
/// extension in small letters.
pub proof fn listed_files_are_supported(files: Seq<FoundFileView>, i: int)
    requires
        listing(files) matches Ok(infos) && 0 <= i < infos.len(),
    ensures
        listing(files)->Ok_0[i].exists,
        !listing(files)->Ok_0[i].is_dir,
        listing(files)->Ok_0[i].extension matches Some(ext) && supported_extensions().contains(ext),
    decreases files.len(),
{
    let done = listing(files.drop_last())->Ok_0;
    if i < done.len() {
        listed_files_are_supported(files.drop_last(), i);
    }
}

/// A listing tells of each file what [`get_path_info`] tells of its path, where
/// the names are Unicode.
pub proof fn listed_files_are_what_path_info_tells(files: Seq<FoundFileView>, i: int)
    requires
        forall|k: int|
            0 <= k < files.len() ==> (#[trigger] files[k]).name_is_unicode
                && files[k].extension_is_unicode,
        listing(files) matches Ok(infos) && 0 <= i < infos.len(),
    ensures
        ({
            let info = listing(files)->Ok_0[i];
            info == found_info(info.path, false, info.size, lowered(winpath::extension(info.path)))
        }),
    decreases files.len(),
{
    let front = files.drop_last();
    assert forall|k: int| 0 <= k < front.len() implies (#[trigger] front[k]).name_is_unicode
        && front[k].extension_is_unicode by {
        assert(front[k] == files[k]);
    }
    assert(files[files.len() - 1].name_is_unicode && files.last().extension_is_unicode);
    if i < listing(front)->Ok_0.len() {
        listed_files_are_what_path_info_tells(front, i);
    }
}

/// Where the compressed file ends up: on the original path when the extensions
/// agree (ASCII capitals count as small letters), else on the original path with
/// the compressed file's extension.
pub open spec fn replace_target(original: Seq<char>, compressed: Seq<char>) -> Seq<char> {
    let new_ext = text_or_empty(winpath::extension(compressed));
    let old_ext = text_or_empty(winpath::extension(original));
    if text::ascii_lowercase(new_ext) == text::ascii_lowercase(old_ext) {
        original
    } else {
        winpath::with_extension(original, new_ext)
    }
}

/// The extension of a path, or an empty text.
fn extension_or_empty(path: &str) -> (ext: String)
    ensures
        ext@ == text_or_empty(winpath::extension(path@)),
{
    match path_extension(path) {
        Some(ext) => ext,
        None => String::new(),
    }
}

/// Decide where the compressed file ends up after replacing the original.
/// Same extension (case-insensitive) → the original path itself;
/// different extension (e.g. WAV → mp3) → original stem + new extension.
pub fn compute_replace_target(original_path: &str, compressed_path: &str) -> (target: String)
    ensures
        target@ == replace_target(original_path@, compressed_path@),
{
    let new_ext = extension_or_empty(compressed_path);
    let old_ext = extension_or_empty(original_path);
    if same_ignoring_ascii_case(new_ext.as_str(), old_ext.as_str()) {
        original_path.to_owned()
    } else {
        path_with_extension(original_path, new_ext.as_str())
    }
}

/// The compressed file has an extension that stays one in the original's path. Only
/// a path that is read literally can have a slash in its extension, and only in
/// such a path that slash is no separator.
pub open spec fn has_lasting_extension(original: Seq<char>, compressed: Seq<char>) -> bool {
    &&& winpath::extension(compressed) matches Some(ext)
    &&& ext.len() > 0
    &&& winpath::is_verbatim(compressed) && !winpath::is_verbatim(original) ==> !ext.contains('/')
}

/// The compressed file ends up in the original's folder, under the stem of the
/// original's name and with its own extension, capitals apart.
pub proof fn replaced_file_keeps_folder_and_stem(original: Seq<char>, compressed: Seq<char>)
    requires
        winpath::file_name(original) is Some,
        has_lasting_extension(original, compressed),
    ensures
        ({
            let target = replace_target(original, compressed);
            let start = winpath::name_span(original)->Some_0.0;
            let old_name = winpath::file_name(original)->Some_0;
            &&& target.take(start) == original.take(start)
            &&& winpath::file_name(target) matches Some(new_name)
            &&& new_name.take(winpath::stem_len(new_name)) == old_name.take(
                winpath::stem_len(old_name),
            )
            &&& winpath::extension(target) matches Some(new_ext)
            &&& text::ascii_lowercase(new_ext) == text::ascii_lowercase(
                winpath::extension(compressed)->Some_0,
            )
        }),
{
    let ext = winpath::extension(compressed)->Some_0;
    let target = replace_target(original, compressed);
    let old_name = winpath::file_name(original)->Some_0;
    let old_ext = text_or_empty(winpath::extension(original));
    assert(text::ascii_lowercase(ext).len() == ext.len());
    assert(text::ascii_lowercase(old_ext).len() == old_ext.len());
    if text::ascii_lowercase(ext) != text::ascii_lowercase(old_ext) {
        winpath_laws::extension_has_no_dot(compressed);
        assert forall|i: int| 0 <= i < ext.len() implies !winpath::separates(
            #[trigger] ext[i],
            winpath::is_verbatim(original),
        ) && ext[i] != '.' by {
            assert(ext.contains(ext[i]));
        }
        winpath_laws::new_extension_is_read_back(original, ext);
        winpath_laws::file_name_has_no_separator(original);
        let new_name = winpath::file_name(target)->Some_0;
        let stem = winpath::stem_len(old_name);
        text::last_index_of_is_last(old_name, '.');
        text::last_index_of_is_last(new_name, '.');
        assert(winpath::stem_len(new_name) == stem) by {
            assert(new_name.len() == stem + 1 + ext.len());
            assert(new_name.skip(winpath::stem_len(new_name) + 1) == ext);
        }
        assert(new_name.take(stem) =~= old_name.take(stem));
    }
}

/// The target is its own target: once the compressed file is in place, the same
/// compressed name leads to the same place.
pub proof fn target_is_its_own_target(original: Seq<char>, compressed: Seq<char>)
    requires
        has_lasting_extension(original, compressed),
    ensures
        replace_target(replace_target(original, compressed), compressed) == replace_target(
            original,
            compressed,
        ),
{
    if winpath::file_name(original) is Some {
        replaced_file_keeps_folder_and_stem(original, compressed);
    }
}

/// A file to be written.
pub struct FileWrite {
    pub name: String,
    pub bytes: Vec<u8>,
}

/// The file that a pasted image is to be written to in the temporary directory,
/// and what goes into it. A clock that stands before 1970 counts as standing at
/// its beginning.
pub fn write_clipboard_image(bytes: Vec<u8>, millis_since_1970: Option<u128>) -> (write: FileWrite)
    ensures
        write.bytes@ == bytes@,
        write.name@ == pasted_image_name(
            match millis_since_1970 {
                Some(millis) => millis as nat,
                None => 0,
            },
        ),
{
    let millis: u128 = match millis_since_1970 {
        Some(millis) => millis,
        None => 0,
    };
    let name = "smol_paste_".to_owned().concat(write_decimal(millis).as_str()).concat(".png");
    FileWrite { name, bytes }
}

/// The name of the file for an image pasted at a time.
pub open spec fn pasted_image_name(millis: nat) -> Seq<char> {
    "smol_paste_"@ + text::decimal(millis) + ".png"@
}

/// Images pasted at different times go to different files.
pub proof fn pasted_images_keep_apart(a: nat, b: nat)
    requires
        pasted_image_name(a) == pasted_image_name(b),
    ensures
        a == b,
{
    let x = pasted_image_name(a);
    let y = pasted_image_name(b);
    let front = "smol_paste_"@.len() as int;
    let back = ".png"@.len() as int;
    assert(x.subrange(front, x.len() - back) =~= text::decimal(a));
    assert(y.subrange(front, y.len() - back) =~= text::decimal(b));
    text::decimal_reads_back(a);
    text::decimal_reads_back(b);
}

/// What Windows Explorer is called with to show the given file selected in its
/// folder.
pub fn reveal_in_explorer(path: String) -> (args: Vec<String>)
    ensures
        text::texts(args@) == seq!["/select,"@, path@],
{
    let args = vec!["/select,".to_owned(), path];
    assert(text::texts(args@) =~= seq!["/select,"@, path@]);
    args
}

/// An extension is supported just where it is one of these, in small letters.
pub proof fn supported_extensions_are_these(lower: &str, yes: bool)
    requires
        call_ensures(is_supported, (lower,), yes),
    ensures
        yes == is_media_or_pdf(lower@),
{
    supported_means_media_or_pdf(lower@);
}

/// Video, audio, image or document, by the extension.
pub open spec fn is_media_or_pdf(ext: Seq<char>) -> bool {
    ||| ext == "mp4"@ || ext == "mov"@ || ext == "mkv"@ || ext == "webm"@
    ||| ext == "avi"@ || ext == "m4v"@ || ext == "wmv"@ || ext == "flv"@
    ||| ext == "mp3"@ || ext == "m4a"@ || ext == "aac"@ || ext == "wav"@
    ||| ext == "flac"@ || ext == "ogg"@ || ext == "opus"@ || ext == "wma"@
    ||| ext == "jpg"@ || ext == "jpeg"@ || ext == "png"@ || ext == "webp"@
    ||| ext == "heic"@ || ext == "heif"@ || ext == "avif"@ || ext == "bmp"@
    ||| ext == "tiff"@ || ext == "pdf"@
}

proof fn supported_means_media_or_pdf(ext: Seq<char>)
    ensures
        supported_extensions().contains(ext) == is_media_or_pdf(ext),
{
    let all = supported_extensions();
    assert(all.len() == 26);
    if all.contains(ext) {
        let k = choose|k: int| 0 <= k < all.len() && all[k] == ext;
        assert(0 <= k < 26);
    }
    if is_media_or_pdf(ext) {
        let k: int = if ext == "mp4"@ { 0 } else if ext == "mov"@ { 1 } else if ext == "mkv"@ {
            2
        } else if ext == "webm"@ { 3 } else if ext == "avi"@ { 4 } else if ext == "m4v"@ {
            5
        } else if ext == "wmv"@ { 6 } else if ext == "flv"@ { 7 } else if ext == "mp3"@ {
            8
        } else if ext == "m4a"@ { 9 } else if ext == "aac"@ { 10 } else if ext == "wav"@ {
            11
        } else if ext == "flac"@ { 12 } else if ext == "ogg"@ { 13 } else if ext == "opus"@ {
            14
        } else if ext == "wma"@ { 15 } else if ext == "jpg"@ { 16 } else if ext == "jpeg"@ {
            17
        } else if ext == "png"@ { 18 } else if ext == "webp"@ { 19 } else if ext == "heic"@ {
            20
        } else if ext == "heif"@ { 21 } else if ext == "avif"@ { 22 } else if ext == "bmp"@ {
            23
        } else if ext == "tiff"@ { 24 } else { 25 };
        assert(all[k] == ext);
    }
}

/// What is told of a listed file is what the file system gave: its size to the byte,
/// its path, and the name and extension in that path.
pub proof fn listed_file_is_told_as_it_is(file: FoundFileView, size: u64)
    requires
        file.size == Ok::<u64, Seq<char>>(size),
    ensures
        file.info().size == size,
        file.info().path == file.path,
        file.info().exists,
        !file.info().is_dir,
        file.name_is_unicode ==> file.info().name == match winpath::file_name(file.path) {
            Some(name) => name,
            None => Seq::empty(),
        },
        !file.name_is_unicode ==> file.info().name == Seq::<char>::empty(),
        file.extension_is_unicode ==> file.info().extension == match winpath::extension(file.path) {
            Some(ext) => Some(text::lowercase(ext)),
            None => None,
        },
        !file.extension_is_unicode ==> file.info().extension is None,
{
}

/// A file is listed just where it is a file with an extension that can be read and
/// is supported, whatever its capitals.
pub proof fn listed_files_are_files_with_such_an_extension(file: FoundFileView)
    ensures
        file.is_listed() == (file.is_file && file.extension_is_unicode && (winpath::extension(
            file.path,
        ) matches Some(ext) && is_media_or_pdf(text::lowercase(ext)))),
{
    if let Some(ext) = winpath::extension(file.path) {
        supported_means_media_or_pdf(text::lowercase(ext));
    }
}

/// A listing grows file by file: a further file adds what is told of it at the end,
/// or nothing where it is not listed; a listed file without a size, and a listing
/// that failed before, is an error.
pub proof fn listing_grows_file_by_file(files: Seq<FoundFileView>, file: FoundFileView)
    ensures
        listing(Seq::<FoundFileView>::empty()) == Ok::<Seq<PathInfoView>, Seq<char>>(Seq::empty()),
        listing(files) matches Err(text) ==> listing(files.push(file)) == Err::<
            Seq<PathInfoView>,
            Seq<char>,
        >(text),
        listing(files) is Ok && !file.is_listed() ==> listing(files.push(file)) == listing(files),
        (listing(files) is Ok && file.is_listed() && file.size is Ok) ==> (listing(
            files.push(file),
        ) matches Ok(more) && more.len() == listing(files)->Ok_0.len() + 1 && more.drop_last()
            == listing(files)->Ok_0 && more.last() == file.info()),
        (listing(files) is Ok && file.is_listed() && file.size is Err) ==> listing(
            files.push(file),
        ) == Err::<Seq<PathInfoView>, Seq<char>>(file.size->Err_0),
{
    assert(files.push(file).drop_last() =~= files);
    if listing(files) is Ok && file.is_listed() && file.size is Ok {
        assert(listing(files.push(file))->Ok_0.drop_last() =~= listing(files)->Ok_0);
    }
}

/// Every listed info is that of a file in the folder: its path, and its size as the
/// file system gave it.
pub proof fn every_info_is_of_a_file(files: Seq<FoundFileView>, i: int)
    requires
        listing(files) matches Ok(infos) && 0 <= i < infos.len(),
    ensures
        exists|k: int|
            0 <= k < files.len() && (#[trigger] files[k]).is_file && files[k].path == listing(
                files,
            )->Ok_0[i].path && files[k].size == Ok::<u64, Seq<char>>(listing(files)->Ok_0[i].size),
    decreases files.len(),
{
    let front = files.drop_last();
    let info = listing(files)->Ok_0[i];
    if i < listing(front)->Ok_0.len() {
        every_info_is_of_a_file(front, i);
        let k = choose|k: int|
            0 <= k < front.len() && (#[trigger] front[k]).is_file && front[k].path == info.path
                && front[k].size == Ok::<u64, Seq<char>>(info.size);
        assert(files[k] == front[k]);
    } else {
        assert(files[files.len() - 1].is_file);
    }
}

/// The listing of one file alone, as [`list_dir_supported`] gives it: the file with
/// its own size, path and names, an error for a size that cannot be read, or nothing.
#[verifier::spinoff_prover]
#[verifier::rlimit(60)]
pub proof fn one_file_is_listed_as_it_is(
    path: String,
    file: FoundFile,
    files: Vec<FoundFile>,
    result: Result<Vec<PathInfo>, AppError>,
)
    requires
        files@ == seq![file],
        call_ensures(list_dir_supported, (path, DirRead::Entries(files)), result),
    ensures
        ({
            let listed = file.is_file && file.extension_is_unicode && (winpath::extension(
                file.path@,
            ) matches Some(ext) && is_media_or_pdf(text::lowercase(ext)));
            &&& !listed ==> (result matches Ok(infos) && infos@.len() == 0)
            &&& listed && file.size is Ok ==> (result matches Ok(infos) && infos@.len()
                == 1 && infos@[0].size == file.size->Ok_0 && infos@[0].path@ == file.path@ && infos@[0].exists
                && !infos@[0].is_dir && (infos@[0].extension matches Some(lower) && lower@
                == text::lowercase(winpath::extension(file.path@)->Some_0)) && (
            file.name_is_unicode && winpath::file_name(file.path@) is Some ==> infos@[0].name@
                == winpath::file_name(file.path@)->Some_0))
            &&& listed && file.size is Err ==> (result matches Err(AppError::Io(e)) && e@
                == file.size->Err_0@)
        }),
{
    let none = Seq::<FoundFileView>::empty();
    assert(file_views(files@) =~= none.push(file@));
    listing_grows_file_by_file(none, file@);
    listed_files_are_files_with_such_an_extension(file@);
    if let Ok(size) = file.size {
        listed_file_is_told_as_it_is(file@, size);
    }
    if let Ok(infos) = result {
        assert(info_views(infos@).len() == infos@.len());
        if infos@.len() == 1 {
            assert(info_views(infos@)[0] == infos@[0]@);
            assert(text_in(infos@[0].extension) == infos@[0]@.extension);
        }
    }
}

/// Two folders' files together are listed as each alone, one after the other.
pub proof fn listings_can_be_appended(a: Seq<FoundFileView>, b: Seq<FoundFileView>)
    requires
        listing(a) is Ok,
    ensures
        listing(b) matches Ok(infos) ==> listing(a + b) == Ok::<Seq<PathInfoView>, Seq<char>>(
            listing(a)->Ok_0 + infos,
        ),
        listing(b) matches Err(text) ==> listing(a + b) == Err::<Seq<PathInfoView>, Seq<char>>(
            text,
        ),
    decreases b.len(),
{
    if b.len() == 0 {
        assert(a + b =~= a);
        assert(listing(a)->Ok_0 + Seq::<PathInfoView>::empty() =~= listing(a)->Ok_0);
    } else {
        let front = b.drop_last();
        listings_can_be_appended(a, front);
        assert((a + b).drop_last() =~= a + front);
        assert((a + b).last() == b.last());
        if listing(front) is Ok && b.last().is_listed() && b.last().size is Ok {
            let x = listing(a)->Ok_0;
            let y = listing(front)->Ok_0;
            assert((x + y).push(b.last().info()) =~= x + y.push(b.last().info()));
        }
    }
}

/// A folder that cannot be listed is an error with its path or with the reason.
pub proof fn folder_errors_are_passed_on(
    path: String,
    reason: String,
    missing: Result<Vec<PathInfo>, AppError>,
    unreadable: Result<Vec<PathInfo>, AppError>,
)
    requires
        call_ensures(list_dir_supported, (path, DirRead::Missing), missing),
        call_ensures(list_dir_supported, (path, DirRead::Unreadable(reason)), unreadable),
    ensures
        missing matches Err(AppError::PathDoesNotExist(p)) && p@ == path@,
        unreadable matches Err(AppError::Io(text)) && text@ == reason@,
{
}

/// [`get_path_info`] tells of a path what was found there, to the byte, with the name
/// and extension in the path, and echoes the path; nothing found is no error.
pub proof fn path_info_is_what_was_found(
    path: String,
    is_dir: bool,
    size: u64,
    reason: String,
    found: Result<PathInfo, AppError>,
    missing: Result<PathInfo, AppError>,
    unreadable: Result<PathInfo, AppError>,
)
    requires
        call_ensures(get_path_info, (path, PathProbe::Found { is_dir, size }), found),
        call_ensures(get_path_info, (path, PathProbe::Missing), missing),
        call_ensures(get_path_info, (path, PathProbe::Unreadable(reason)), unreadable),
    ensures
        found matches Ok(info) && info.exists && info.is_dir == is_dir && info.size == size
            && info.path@ == path@ && (winpath::file_name(path@) matches Some(name) ==> info.name@
            == name) && (winpath::file_name(path@) is None ==> info.name@.len() == 0) && (
        winpath::extension(path@) matches Some(ext) ==> (info.extension matches Some(lower) && lower@
            == text::lowercase(ext))) && (winpath::extension(path@) is None
            ==> info.extension is None),
        missing matches Ok(info) && !info.exists && !info.is_dir && info.size == 0 && info.path@
            == path@ && info.extension is None && (winpath::file_name(path@) matches Some(name)
            ==> info.name@ == name) && (winpath::file_name(path@) is None ==> info.name@.len() == 0),
        unreadable matches Err(AppError::Io(text)) && text@ == reason@,
{
    if let Ok(info) = found {
        assert(text_in(info.extension) == info@.extension);
    }
    if let Ok(info) = missing {
        assert(text_in(info.extension) == info@.extension);
    }
}

/// The compressed file takes the original's path where the two extensions are the
/// same in small letters; else the original's path up to the end of its stem, a dot
/// and the compressed file's extension.
#[verifier::spinoff_prover]
#[verifier::rlimit(60)]
pub proof fn target_follows_the_extensions(
    original: Seq<char>,
    compressed: Seq<char>,
    front: Seq<char>,
    stem: Seq<char>,
    old_ext: Seq<char>,
    new_ext: Seq<char>,
)
    requires
        original == front + stem + seq!['.'] + old_ext,
        stem.len() > 0,
        forall|i: int| 0 <= i < old_ext.len() ==> #[trigger] old_ext[i] != '.',
        winpath::file_name(original) == Some(stem + seq!['.'] + old_ext),
        winpath::name_span(original) == Some((front.len() as int, original.len() as int)),
        winpath::extension(compressed) == Some(new_ext),
    ensures
        new_ext.len() == old_ext.len() && (forall|i: int|
            0 <= i < new_ext.len() ==> text::ascii_lower(#[trigger] new_ext[i])
                == text::ascii_lower(old_ext[i])) ==> replace_target(original, compressed)
            == original,
        !(new_ext.len() == old_ext.len() && (forall|i: int|
            0 <= i < new_ext.len() ==> text::ascii_lower(#[trigger] new_ext[i])
                == text::ascii_lower(old_ext[i]))) && new_ext.len() > 0 ==> replace_target(
            original,
            compressed,
        ) == front + stem + seq!['.'] + new_ext,
{
    let name = stem + seq!['.'] + old_ext;
    winpath_laws::extension_is_after_the_last_dot(stem, old_ext);
    assert(original.subrange(front.len() as int, original.len() as int) =~= name);
    let same = new_ext.len() == old_ext.len() && (forall|i: int|
        0 <= i < new_ext.len() ==> text::ascii_lower(#[trigger] new_ext[i]) == text::ascii_lower(
            old_ext[i],
        ));
    let x = text::ascii_lowercase(new_ext);
    let y = text::ascii_lowercase(old_ext);
    if same {
        assert(x =~= y);
    } else {
        if x == y {
            assert(x.len() == new_ext.len() && y.len() == old_ext.len());
            assert forall|i: int| 0 <= i < new_ext.len() implies text::ascii_lower(
                #[trigger] new_ext[i],
            ) == text::ascii_lower(old_ext[i]) by {
                assert(x[i] == y[i]);
            }
        }
        assert(original.subrange(0, front.len() + winpath::stem_len(name)) =~= front + stem);
    }
}

/// [`compute_replace_target`] gives that target.
pub proof fn computed_target_is_the_target(original_path: &str, compressed_path: &str, out: String)
    requires
        call_ensures(compute_replace_target, (original_path, compressed_path), out),
    ensures
        out@ == replace_target(original_path@, compressed_path@),
{
}

/// A pasted image is written as it is, to a file named by the time in milliseconds,
/// in decimal.
pub proof fn pasted_image_is_named_by_the_time(
    bytes: Vec<u8>,
    millis: Option<u128>,
    write: FileWrite,
)
    requires
        call_ensures(write_clipboard_image, (bytes, millis), write),
    ensures
        write.bytes@ == bytes@,
        exists|digits: Seq<char>|
            write.name@ == #[trigger] ("smol_paste_"@ + digits + ".png"@) && text::is_decimal(digits)
                && text::decimal_value(digits) == (match millis {
                Some(millis) => millis as nat,
                None => 0,
            }) && (digits[0] != '0' || digits.len() == 1),
{
    let number: nat = match millis {
        Some(millis) => millis as nat,
        None => 0,
    };
    let digits = text::decimal(number);
    text::decimal_reads_back(number);
    text::numbers_have_no_zero_at_the_front(number);
    assert(write.name@ == "smol_paste_"@ + digits + ".png"@);
}

/// Explorer is told to select just the path.
pub proof fn explorer_selects_the_path(path: String, args: Vec<String>)
    requires
        call_ensures(reveal_in_explorer, (path,), args),
    ensures
        args@.len() == 2,
        args@[0]@ == "/select,"@,
        args@[1]@ == path@,
{
    assert(text::texts(args@).len() == 2);
    assert(text::texts(args@)[0] == args@[0]@);
    assert(text::texts(args@)[1] == args@[1]@);
}

/// What is known of a path where something is, is what was given of it.
pub proof fn known_path_keeps_what_is_known(
    path: String,
    is_dir: bool,
    size: u64,
    extension: Option<String>,
    info: PathInfo,
)
    requires
        call_ensures(existing_path_info, (path, is_dir, size, extension), info),
    ensures
        info.exists,
        info.is_dir == is_dir,
        info.size == size,
        info.path@ == path@,
        winpath::file_name(path@) matches Some(name) ==> info.name@ == name,
        winpath::file_name(path@) is None ==> info.name@.len() == 0,
        extension matches Some(ext) ==> (info.extension matches Some(same) && same@ == ext@),
        extension is None ==> info.extension is None,
{
    assert(text_in(info.extension) == text_in(extension));
}

/// Without regard to what the paths look like otherwise: the target is the original's
/// path where the two extensions are the same but for ASCII capitals, no extension
/// counting as an empty one; else the original's path with the compressed file's.
#[verifier::spinoff_prover]
#[verifier::rlimit(60)]
pub proof fn extensions_alone_decide_the_target(
    original: Seq<char>,
    compressed: Seq<char>,
    old_ext: Seq<char>,
    new_ext: Seq<char>,
)
    requires
        winpath::extension(original) == Some(old_ext) || (winpath::extension(original) is None
            && old_ext.len() == 0),
        winpath::extension(compressed) == Some(new_ext) || (winpath::extension(compressed) is None
            && new_ext.len() == 0),
    ensures
        ({
            let same = old_ext.len() == new_ext.len() && forall|i: int|
                0 <= i < old_ext.len() ==> text::ascii_lower(#[trigger] old_ext[i])
                    == text::ascii_lower(new_ext[i]);
            &&& same ==> replace_target(original, compressed) == original
            &&& !same ==> replace_target(original, compressed) == winpath::with_extension(
                original,
                new_ext,
            )
        }),
{
    assert(text_or_empty(winpath::extension(original)) =~= old_ext);
    assert(text_or_empty(winpath::extension(compressed)) =~= new_ext);
    let x = text::ascii_lowercase(old_ext);
    let y = text::ascii_lowercase(new_ext);
    if x == y {
        assert(x.len() == old_ext.len() && y.len() == new_ext.len());
        assert forall|i: int| 0 <= i < old_ext.len() implies text::ascii_lower(
            #[trigger] old_ext[i],
        ) == text::ascii_lower(new_ext[i]) by {
            assert(x[i] == y[i]);
        }
    } else if old_ext.len() == new_ext.len() && forall|i: int|
        0 <= i < old_ext.len() ==> text::ascii_lower(#[trigger] old_ext[i]) == text::ascii_lower(
            new_ext[i],
        ) {
        assert(x =~= y);
    }
}

/// A file in a folder, whatever the folder and the length of the names: `song.wav`
/// and a compressed `.mp3` make `song.mp3` in the same folder.
#[verifier::spinoff_prover]
#[verifier::rlimit(60)]
pub proof fn file_in_a_folder_keeps_its_place(
    folder: Seq<char>,
    stem: Seq<char>,
    old_ext: Seq<char>,
    compressed_front: Seq<char>,
    compressed_stem: Seq<char>,
    new_ext: Seq<char>,
)
    requires
        ({
            let original = folder + seq!['\\'] + (stem + seq!['.'] + old_ext);
            let compressed = compressed_front + seq!['\\'] + (compressed_stem + seq!['.'] + new_ext);
            &&& winpath::prefix_len(original) <= folder.len()
            &&& winpath::prefix_len(compressed) <= compressed_front.len()
        }),
        stem.len() > 0,
        compressed_stem.len() > 0,
        old_ext.len() > 0,
        new_ext.len() > 0,
        winpath_laws::has_no_separator(stem),
        winpath_laws::has_no_separator(old_ext),
        winpath_laws::has_no_separator(compressed_stem),
        winpath_laws::has_no_separator(new_ext),
        forall|i: int| 0 <= i < old_ext.len() ==> #[trigger] old_ext[i] != '.',
        forall|i: int| 0 <= i < new_ext.len() ==> #[trigger] new_ext[i] != '.',
    ensures
        ({
            let original = folder + seq!['\\'] + (stem + seq!['.'] + old_ext);
            let compressed = compressed_front + seq!['\\'] + (compressed_stem + seq!['.'] + new_ext);
            let same = old_ext.len() == new_ext.len() && forall|i: int|
                0 <= i < old_ext.len() ==> text::ascii_lower(#[trigger] old_ext[i])
                    == text::ascii_lower(new_ext[i]);
            &&& same ==> replace_target(original, compressed) == original
            &&& !same ==> replace_target(original, compressed) == folder + seq!['\\'] + (stem
                + seq!['.'] + new_ext)
        }),
{
    let name = stem + seq!['.'] + old_ext;
    let other = compressed_stem + seq!['.'] + new_ext;
    let original = folder + seq!['\\'] + name;
    let compressed = compressed_front + seq!['\\'] + other;
    winpath_laws::last_part_is_the_file_name(folder, '\\', name);
    winpath_laws::last_part_is_the_file_name(compressed_front, '\\', other);
    let front = folder + seq!['\\'];
    let other_front = compressed_front + seq!['\\'];
    assert(front + stem + seq!['.'] + old_ext =~= original);
    assert(other_front + compressed_stem + seq!['.'] + new_ext =~= compressed);
    winpath_laws::extension_is_put_behind_the_stem(front, stem, old_ext, new_ext);
    winpath_laws::extension_is_put_behind_the_stem(other_front, compressed_stem, new_ext, new_ext);
    extensions_alone_decide_the_target(original, compressed, old_ext, new_ext);
    assert(front + stem + seq!['.'] + new_ext =~= folder + seq!['\\'] + (stem + seq!['.']
        + new_ext));
}

/// Every file of a folder counts for its listing, with all that is known of it, and
/// every info of the listing is given.
#[verifier::spinoff_prover]
#[verifier::rlimit(60)]
pub proof fn all_files_count_and_all_infos_are_given(
    path: String,
    files: Vec<FoundFile>,
    result: Result<Vec<PathInfo>, AppError>,
    all: Seq<FoundFileView>,
    i: int,
)
    requires
        call_ensures(list_dir_supported, (path, DirRead::Entries(files)), result),
        all.len() == files@.len(),
        forall|k: int|
            0 <= k < all.len() ==> (#[trigger] all[k]).path == files@[k].path@ && all[k].is_file
                == files@[k].is_file && all[k].name_is_unicode == files@[k].name_is_unicode
                && all[k].extension_is_unicode == files@[k].extension_is_unicode && (
            files@[k].size matches Ok(n) ==> all[k].size == Ok::<u64, Seq<char>>(n)) && (
            files@[k].size matches Err(text) ==> all[k].size == Err::<u64, Seq<char>>(text@)),
    ensures
        listing(all) matches Err(text) ==> (result matches Err(AppError::Io(e)) && e@ == text),
        listing(all) matches Ok(told) ==> (result matches Ok(infos) && infos@.len() == told.len()
            && (0 <= i < told.len() ==> infos@[i].size == told[i].size && infos@[i].path@
            == told[i].path && infos@[i].name@ == told[i].name && infos@[i].exists
            == told[i].exists && infos@[i].is_dir == told[i].is_dir && (
        told[i].extension matches Some(ext) ==> (infos@[i].extension matches Some(same) && same@
            == ext)) && (told[i].extension is None ==> infos@[i].extension is None))),
{
    assert(file_views(files@).len() == files@.len());
    assert forall|k: int| 0 <= k < all.len() implies all[k] == file_views(files@)[k] by {
        assert(file_views(files@)[k] == files@[k]@);
        assert(files@[k].size is Ok || files@[k].size is Err);
    }
    assert(all =~= file_views(files@));
    if let Ok(told) = listing(all) {
        let infos = result->Ok_0;
        assert(info_views(infos@).len() == infos@.len());
        if 0 <= i < told.len() {
            assert(info_views(infos@)[i] == infos@[i]@);
            assert(text_in(infos@[i].extension) == told[i].extension);
        }
    }
}

} // verus!
