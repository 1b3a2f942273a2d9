//! The folders that the app keeps below the user's documents.

use crate::error;
use crate::error::AppError;
use crate::winpath;
use crate::winpath::join_paths;
use crate::winpath_laws;
use vstd::prelude::*;
use vstd::string::*;

verus! {

/// A folder of the app below the user's documents.
pub open spec fn documents_folder(profile: Seq<char>, name: Seq<char>) -> Seq<char> {
    winpath::join(winpath::join(winpath::join(profile, "Documents"@), "Smol"@), name)
}

/// A folder of the app below the user's documents, given the user's profile
/// folder.
fn app_folder(profile: Option<String>, name: &str) -> (result: Result<String, AppError>)
    ensures
        match profile {
            Some(profile) => result matches Ok(dir) && dir@ == documents_folder(profile@, name@),
            None => result matches Err(e) && e@ == error::AppErrorView::Other(
                "USERPROFILE not set"@,
            ),
        },
{
    match profile {
        Some(profile) => {
            let documents = join_paths(profile.as_str(), "Documents");
            let app = join_paths(documents.as_str(), "Smol");
            Ok(join_paths(app.as_str(), name))
        },
        None => Err(AppError::Other("USERPROFILE not set".to_owned())),
    }
}

/// The local import workspace: `Documents\Smol\imports`. Every `adb pull` stores
/// each file in its own `{uuid}` subdirectory here so staged outputs never
/// collide.
pub fn get_import_workspace(profile: Option<String>) -> (result: Result<String, AppError>)
    ensures
        match profile {
            Some(profile) => result matches Ok(dir) && dir@ == documents_folder(
                profile@,
                "imports"@,
            ),
            None => result matches Err(e) && e@ == error::AppErrorView::Other(
                "USERPROFILE not set"@,
            ),
        },
{
    app_folder(profile, "imports")
}

/// The folder for recovered files: `Documents\Smol\recovered`.
pub fn recovered_dir(profile: Option<String>) -> (result: Result<String, AppError>)
    ensures
        match profile {
            Some(profile) => result matches Ok(dir) && dir@ == documents_folder(
                profile@,
                "recovered"@,
            ),
            None => result matches Err(e) && e@ == error::AppErrorView::Other(
                "USERPROFILE not set"@,
            ),
        },
{
    app_folder(profile, "recovered")
}

/// The folders lie at `Documents\Smol` in a profile folder that is more than a drive
/// and does not end in a separator. One that is read literally is to be plainly
/// written.
pub proof fn folders_lie_in_documents(profile: Seq<char>, name: Seq<char>)
    requires
        profile.len() > 0,
        !winpath::is_sep(profile.last()),
        !winpath::is_bare_drive(profile),
        winpath::is_verbatim(profile) ==> winpath_laws::is_plainly_written(profile),
        name == "imports"@ || name == "recovered"@,
    ensures
        documents_folder(profile, name) == profile + "\\Documents\\Smol\\"@ + name,
{
    reveal_strlit("Documents");
    reveal_strlit("Smol");
    reveal_strlit("imports");
    reveal_strlit("recovered");
    reveal_strlit("\\Documents\\Smol\\");
    let a = profile + seq!['\\'] + "Documents"@;
    let b = a + seq!['\\'] + "Smol"@;
    assert(a.last() == 's');
    assert(b.last() == 'l');
    word_is_simple("Documents"@);
    word_is_simple("Smol"@);
    word_is_simple(name);
    folder_is_joined(profile, "Documents"@);
    folder_is_joined(a, "Smol"@);
    folder_is_joined(b, name);
    assert(b + seq!['\\'] + name =~= profile + "\\Documents\\Smol\\"@ + name);
}

/// A text of at least three characters without separators and colons is a simple
/// name.
proof fn word_is_simple(word: Seq<char>)
    requires
        word.len() >= 3,
        forall|i: int|
            0 <= i < word.len() ==> !winpath::is_sep(#[trigger] word[i]) && word[i] != ':',
    ensures
        winpath_laws::is_simple_name(word),
{
    assert(seq!['.'].len() < word.len());
    assert(seq!['.', '.'].len() < word.len());
}

/// A simple name joined to such a folder stands behind it, and the path is such a
/// folder again.
proof fn folder_is_joined(dir: Seq<char>, name: Seq<char>)
    requires
        dir.len() > 0,
        !winpath::is_sep(dir.last()),
        !winpath::is_bare_drive(dir),
        winpath::is_verbatim(dir) ==> winpath_laws::is_plainly_written(dir),
        winpath_laws::is_simple_name(name),
        name.len() >= 3,
    ensures
        ({
            let path = dir + seq!['\\'] + name;
            &&& winpath::join(dir, name) == path
            &&& winpath::is_verbatim(path) ==> winpath_laws::is_plainly_written(path)
            &&& !winpath::is_bare_drive(path)
        }),
{
    let path = dir + seq!['\\'] + name;
    winpath_laws::simple_name_is_one_component(name);
    if winpath::is_verbatim(dir) {
        winpath_laws::literal_folder_stays_plain(dir, name);
    } else if winpath::is_verbatim(path) {
        winpath_laws::mark_and_name_are_a_prefix(dir, name);
    }
}

/// The workspace and the folder for recovered files lie below the profile folder,
/// whole, and are two folders; without a profile there is neither.
pub proof fn folders_are_told_by_the_profile(
    profile: String,
    imports: Result<String, AppError>,
    recovered: Result<String, AppError>,
    none: Result<String, AppError>,
    nowhere: Result<String, AppError>,
)
    requires
        call_ensures(get_import_workspace, (Some(profile),), imports),
        call_ensures(recovered_dir, (Some(profile),), recovered),
        call_ensures(get_import_workspace, (None::<String>,), none),
        call_ensures(recovered_dir, (None::<String>,), nowhere),
    ensures
        imports is Ok,
        recovered is Ok,
        profile@.len() > 0 && !winpath::is_sep(profile@.last()) && !winpath::is_bare_drive(profile@)
            && (winpath::is_verbatim(profile@) ==> winpath_laws::is_plainly_written(profile@)) ==> {
            &&& imports->Ok_0@ == profile@ + "\\Documents\\Smol\\imports"@
            &&& recovered->Ok_0@ == profile@ + "\\Documents\\Smol\\recovered"@
        },
        none matches Err(AppError::Other(text)) && text@ == "USERPROFILE not set"@,
        nowhere matches Err(AppError::Other(text)) && text@ == "USERPROFILE not set"@,
{
    if profile@.len() > 0 && !winpath::is_sep(profile@.last()) && !winpath::is_bare_drive(profile@)
        && (winpath::is_verbatim(profile@) ==> winpath_laws::is_plainly_written(profile@)) {
        folders_lie_in_documents(profile@, "imports"@);
        folders_lie_in_documents(profile@, "recovered"@);
        reveal_strlit("imports");
        reveal_strlit("recovered");
        reveal_strlit("\\Documents\\Smol\\");
        reveal_strlit("\\Documents\\Smol\\imports");
        reveal_strlit("\\Documents\\Smol\\recovered");
        assert("\\Documents\\Smol\\"@ + "imports"@ =~= "\\Documents\\Smol\\imports"@);
        assert("\\Documents\\Smol\\"@ + "recovered"@ =~= "\\Documents\\Smol\\recovered"@);
        assert(profile@ + "\\Documents\\Smol\\"@ + "imports"@ =~= profile@
            + "\\Documents\\Smol\\imports"@);
        assert(profile@ + "\\Documents\\Smol\\"@ + "recovered"@ =~= profile@
            + "\\Documents\\Smol\\recovered"@);
    }
}

/// A profile that is empty, a drive alone or ends in a separator gets no further
/// separator.
pub proof fn folders_lie_right_behind_a_separator(profile: Seq<char>, name: Seq<char>)
    requires
        !winpath::is_verbatim(profile),
        profile.len() == 0 || winpath::is_sep(profile.last()) || winpath::is_bare_drive(profile),
        !winpath::has_verbatim_mark(profile + "Documents"@),
        name == "imports"@ || name == "recovered"@,
    ensures
        documents_folder(profile, name) == profile + "Documents\\Smol\\"@ + name,
{
    reveal_strlit("Documents");
    reveal_strlit("Smol");
    reveal_strlit("imports");
    reveal_strlit("recovered");
    reveal_strlit("Documents\\Smol\\");
    word_is_simple("Documents"@);
    word_is_simple("Smol"@);
    word_is_simple(name);
    winpath_laws::simple_name_is_one_component("Documents"@);
    let a = profile + "Documents"@;
    let b = a + seq!['\\'] + "Smol"@;
    assert(winpath::join(profile, "Documents"@) == a);
    assert(a.last() == 's');
    assert(b.last() == 'l');
    folder_is_joined(a, "Smol"@);
    folder_is_joined(b, name);
    assert(b + seq!['\\'] + name =~= profile + "Documents\\Smol\\"@ + name);
}

} // verus!
