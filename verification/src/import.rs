//! Where a compressed file goes on a device, where an imported file is kept, and
//! how the shell's item lists are written as text.

use crate::text;
use crate::text::{chars_of, find_last, same_text, text_between};
use base64::Engine;
use vstd::prelude::*;
use vstd::string::*;

verus! {

/// Where the output of a compression goes.
#[derive(Debug, Clone, Copy, PartialEq, Eq, Structural)]
pub enum Mode {
    SameFolder,
    Subfolder,
    Replace,
    CustomLocal,
}

/// The mode that a text names. Any text that names none means the same folder.
pub open spec fn mode_named(name: Seq<char>) -> Mode {
    if name == "subfolder"@ {
        Mode::Subfolder
    } else if name == "replace"@ {
        Mode::Replace
    } else if name == "custom"@ {
        Mode::CustomLocal
    } else {
        Mode::SameFolder
    }
}

impl vstd::std_specs::convert::FromSpecImpl<&str> for Mode {
    open spec fn obeys_from_spec() -> bool {
        true
    }

    open spec fn from_spec(name: &str) -> Mode {
        mode_named(name@)
    }
}

impl From<&str> for Mode {
    fn from(name: &str) -> (mode: Mode) {
        if same_text(name, "subfolder") {
            Mode::Subfolder
        } else if same_text(name, "replace") {
            Mode::Replace
        } else if same_text(name, "custom") {
            Mode::CustomLocal
        } else {
            Mode::SameFolder
        }
    }
}

/// The device-side delivery plan.
#[derive(Debug, PartialEq)]
pub struct DeviceTarget {
    pub mode: Mode,
    /// The name under which the file is written.
    pub name: String,
    /// The name that the written file gets in the end, where that is another.
    pub rename_from: String,
    pub create_subfolder: bool,
    pub note: Option<String>,
}

/// The contents of a [`DeviceTarget`].
pub struct DeviceTargetView {
    pub mode: Mode,
    pub name: Seq<char>,
    pub rename_from: Seq<char>,
    pub create_subfolder: bool,
    pub note: Option<Seq<char>>,
}

impl View for DeviceTarget {
    type V = DeviceTargetView;

    open spec fn view(&self) -> DeviceTargetView {
        DeviceTargetView {
            mode: self.mode,
            name: self.name@,
            rename_from: self.rename_from@,
            create_subfolder: self.create_subfolder,
            note: match self.note {
                Some(note) => Some(note@),
                None => None,
            },
        }
    }
}

/// What a name has before its last dot; all of it where there is no dot.
pub open spec fn before_last_dot(name: Seq<char>) -> Seq<char> {
    let dot = text::last_index_of(name, '.');
    if dot >= 0 {
        name.take(dot)
    } else {
        name
    }
}

/// What a name has after its last dot; nothing where there is no dot.
pub open spec fn after_last_dot(name: Seq<char>) -> Seq<char> {
    let dot = text::last_index_of(name, '.');
    if dot >= 0 {
        name.skip(dot + 1)
    } else {
        Seq::empty()
    }
}

/// The name that a file has on the device until it takes the original's place.
pub open spec fn temporary_name(original_name: Seq<char>, salt: Seq<char>) -> Seq<char> {
    let base = before_last_dot(original_name) + "."@ + salt + ".smol_tmp"@;
    let ext = after_last_dot(original_name);
    if ext.len() == 0 {
        base
    } else {
        base + "."@ + ext
    }
}

/// The delivery plan for a mode.
pub open spec fn device_target(
    mode: Mode,
    new_name: Seq<char>,
    original_name: Seq<char>,
    salt: Seq<char>,
) -> DeviceTargetView {
    DeviceTargetView {
        mode,
        name: if mode is Replace {
            temporary_name(original_name, salt)
        } else {
            new_name
        },
        rename_from: if mode is Replace {
            original_name
        } else {
            Seq::empty()
        },
        create_subfolder: mode is Subfolder,
        note: None,
    }
}

/// The name that a file has on the device until it takes the original's place.
fn make_temporary_name(original_name: &str, salt: &str) -> (name: String)
    ensures
        name@ == temporary_name(original_name@, salt@),
{
    let chars = chars_of(original_name);
    let n: usize = chars.len();
    proof {
        text::last_index_of_is_last(chars@, '.');
    }
    let (stem, ext) = match find_last(&chars, '.') {
        Some(dot) => (text_between(&chars, 0, dot), text_between(&chars, dot + 1, n)),
        None => (text_between(&chars, 0, n), String::new()),
    };
    assert(stem@ =~= before_last_dot(original_name@));
    assert(ext@ =~= after_last_dot(original_name@));
    let base = stem.concat(".").concat(salt).concat(".smol_tmp");
    if ext.as_str().is_empty() {
        base
    } else {
        base.concat(".").concat(ext.as_str())
    }
}

/// Map an output mode to the device-side delivery plan.
pub fn resolve_device_target(mode: &str, new_name: &str, original_name: &str, salt: &str) -> (target:
    DeviceTarget)
    ensures
        target@ == device_target(mode_named(mode@), new_name@, original_name@, salt@),
{
    match Mode::from(mode) {
        Mode::Replace => DeviceTarget {
            mode: Mode::Replace,
            name: make_temporary_name(original_name, salt),
            rename_from: original_name.to_owned(),
            create_subfolder: false,
            note: None,
        },
        Mode::Subfolder => DeviceTarget {
            mode: Mode::Subfolder,
            name: new_name.to_owned(),
            rename_from: String::new(),
            create_subfolder: true,
            note: None,
        },
        Mode::CustomLocal => DeviceTarget {
            mode: Mode::CustomLocal,
            name: new_name.to_owned(),
            rename_from: String::new(),
            create_subfolder: false,
            note: None,
        },
        Mode::SameFolder => DeviceTarget {
            mode: Mode::SameFolder,
            name: new_name.to_owned(),
            rename_from: String::new(),
            create_subfolder: false,
            note: None,
        },
    }
}

/// The temporary name is never the original's own name, so that writing the new
/// file leaves the original alone.
pub proof fn temporary_name_is_another(original_name: Seq<char>, salt: Seq<char>)
    ensures
        temporary_name(original_name, salt) != original_name,
{
    text::last_index_of_is_last(original_name, '.');
    reveal_strlit(".smol_tmp");
    reveal_strlit(".");
    assert(temporary_name(original_name, salt).len() > original_name.len());
}

/// The temporary name keeps the original's extension.
pub proof fn temporary_name_keeps_extension(original_name: Seq<char>, salt: Seq<char>)
    requires
        after_last_dot(original_name).len() > 0,
    ensures
        after_last_dot(temporary_name(original_name, salt)) == after_last_dot(original_name),
{
    text::last_index_of_is_last(original_name, '.');
    let name = temporary_name(original_name, salt);
    let ext = after_last_dot(original_name);
    text::last_index_of_is_last(name, '.');
    reveal_strlit(".");
    let dot = name.len() - ext.len() - 1;
    assert(name[dot] == '.');
    assert forall|i: int| dot < i < name.len() implies name[i] != '.' by {
        assert(name[i] == ext[i - dot - 1]);
        assert(ext[i - dot - 1] == original_name[text::last_index_of(original_name, '.') + i
            - dot]);
    }
    assert(text::last_index_of(name, '.') == dot);
    assert(name.skip(dot + 1) =~= ext);
}

/// Different salts give different temporary names.
pub proof fn salts_keep_temporary_names_apart(
    original_name: Seq<char>,
    a: Seq<char>,
    b: Seq<char>,
)
    requires
        temporary_name(original_name, a) == temporary_name(original_name, b),
    ensures
        a == b,
{
    let x = temporary_name(original_name, a);
    let y = temporary_name(original_name, b);
    let front = (before_last_dot(original_name) + "."@).len() as int;
    let ext = after_last_dot(original_name);
    let back = if ext.len() == 0 {
        ".smol_tmp"@.len() as int
    } else {
        (".smol_tmp"@ + "."@ + ext).len() as int
    };
    assert(x.subrange(front, x.len() - back) =~= a);
    assert(y.subrange(front, y.len() - back) =~= b);
}

/// The separator between a workspace and what is in it.
pub open spec fn workspace_sep(workspace: Seq<char>) -> Seq<char> {
    if workspace.contains('\\') {
        "\\"@
    } else {
        "/"@
    }
}

/// The workspace subdirectory of one import.
pub open spec fn import_dir(workspace: Seq<char>, key: Seq<char>) -> Seq<char> {
    workspace + workspace_sep(workspace) + key
}

/// Unique per-import workspace subdirectory.
pub fn compute_import_dir(workspace: &str, uuid: &str) -> (dir: String)
    ensures
        dir@ == import_dir(workspace@, uuid@),
{
    let chars = chars_of(workspace);
    let sep = match find_last(&chars, '\\') {
        Some(_) => "\\",
        None => "/",
    };
    proof {
        text::last_index_of_is_last(chars@, '\\');
    }
    workspace.to_owned().concat(sep).concat(uuid)
}

/// Different keys give different subdirectories.
pub proof fn import_dirs_differ(workspace: Seq<char>, a: Seq<char>, b: Seq<char>)
    requires
        import_dir(workspace, a) == import_dir(workspace, b),
    ensures
        a == b,
{
    let front = (workspace + workspace_sep(workspace)).len() as int;
    assert(import_dir(workspace, a).skip(front) =~= a);
    assert(import_dir(workspace, b).skip(front) =~= b);
}

/// Free-space pre-check. `needed_bytes == 0` means "unknown" — allow (skip).
pub fn has_enough_space(free_bytes: u64, needed_bytes: u64) -> (enough: bool)
    ensures
        enough == (needed_bytes == 0 || free_bytes >= needed_bytes),
{
    needed_bytes == 0 || free_bytes >= needed_bytes
}

/// The character that stands for six bits in the standard base64 alphabet.
pub open spec fn base64_char(bits: int) -> char {
    if bits < 26 {
        ('A' as int + bits) as char
    } else if bits < 52 {
        ('a' as int + (bits - 26)) as char
    } else if bits < 62 {
        ('0' as int + (bits - 52)) as char
    } else if bits == 62 {
        '+'
    } else {
        '/'
    }
}

/// A byte, or zero past the end.
pub open spec fn byte_or_zero(bytes: Seq<u8>, at: int) -> int {
    if at < bytes.len() {
        bytes[at] as int
    } else {
        0
    }
}

/// The three bytes of a group as one number.
pub open spec fn base64_group(bytes: Seq<u8>, group: int) -> int {
    byte_or_zero(bytes, 3 * group) * 65536 + byte_or_zero(bytes, 3 * group + 1) * 256
        + byte_or_zero(bytes, 3 * group + 2)
}

/// One character of the base64 text: each group of three bytes gives four
/// characters of six bits, and `=` where the last group has no bytes left.
pub open spec fn base64_at(bytes: Seq<u8>, at: int) -> char {
    let group = at / 4;
    let number = base64_group(bytes, group);
    if at % 4 == 0 {
        base64_char(number / 262144)
    } else if at % 4 == 1 {
        base64_char(number / 4096 % 64)
    } else if at % 4 == 2 {
        if 3 * group + 1 < bytes.len() {
            base64_char(number / 64 % 64)
        } else {
            '='
        }
    } else {
        if 3 * group + 2 < bytes.len() {
            base64_char(number % 64)
        } else {
            '='
        }
    }
}

/// Bytes written in base64 with the standard alphabet and padding.
pub open spec fn base64_text(bytes: Seq<u8>) -> Seq<char> {
    Seq::new(4 * ((bytes.len() + 2) / 3), |at: int| base64_at(bytes, at))
}

/// Calls `Engine::encode` of the `STANDARD` engine of the crate `base64`. Claimed
/// of it: the result is the base64 text of the bytes with the standard alphabet
/// and padding. The length that it asks for must be one that a `String` can have.
#[verifier::external_body]
fn base64_encode(bytes: &[u8]) -> (encoded: String)
    requires
        4 * ((bytes@.len() + 2) / 3) <= isize::MAX,
    ensures
        encoded@ == base64_text(bytes@),
{
    base64::engine::general_purpose::STANDARD.encode(bytes)
}

/// Why a text is not base64.
#[verifier::external_type_specification]
#[verifier::external_body]
pub struct ExDecodeError(base64::DecodeError);

/// Calls `Engine::decode` of the `STANDARD` engine of the crate `base64`. Claimed
/// of it: it accepts just the texts that some bytes have as their base64 text,
/// padding included and with no bits left over, and gives such bytes back.
#[verifier::external_body]
fn base64_decode(encoded: &str) -> (decoded: Result<Vec<u8>, base64::DecodeError>)
    ensures
        decoded matches Ok(bytes) ==> base64_text(bytes@) == encoded@,
        decoded is Err ==> forall|bytes: Seq<u8>| #[trigger] base64_text(bytes) != encoded@,
{
    base64::engine::general_purpose::STANDARD.decode(encoded)
}

/// Serialize an ITEMIDLIST's raw bytes to base64 (PIDLs are plain data).
pub fn pidl_bytes_to_base64(bytes: &[u8]) -> (encoded: String)
    requires
        4 * ((bytes@.len() + 2) / 3) <= isize::MAX,
    ensures
        encoded@ == base64_text(bytes@),
{
    base64_encode(bytes)
}

/// Decode base64 back into PIDL raw bytes.
pub fn base64_to_pidl_bytes(b64: &str) -> (decoded: Option<Vec<u8>>)
    ensures
        decoded matches Some(bytes) ==> base64_text(bytes@) == b64@,
        forall|bytes: Seq<u8>|
            #![trigger base64_text(bytes)]
            base64_text(bytes) == b64@ ==> decoded is Some && decoded->Some_0@ == bytes,
{
    match base64_decode(b64) {
        Ok(out) => {
            assert forall|bytes: Seq<u8>| #[trigger] base64_text(bytes) == b64@ implies out@
                == bytes by {
                base64_text_is_unique(bytes, out@);
            }
            Some(out)
        },
        Err(_) => None,
    }
}

/// Six bits can be read off their character.
proof fn base64_char_is_unique(a: int, b: int)
    requires
        0 <= a < 64,
        0 <= b < 64,
    ensures
        base64_char(a) == base64_char(b) ==> a == b,
        base64_char(a) != '=',
{
}

/// Bytes can be read off their base64 text.
pub proof fn base64_text_is_unique(a: Seq<u8>, b: Seq<u8>)
    requires
        base64_text(a) == base64_text(b),
    ensures
        a == b,
{
    assert(base64_text(a).len() == base64_text(b).len());
    let groups = (a.len() as int + 2) / 3;
    assert(base64_text(a).len() == 4 * ((a.len() + 2) / 3));
    assert(base64_text(b).len() == 4 * ((b.len() + 2) / 3));
    assert((b.len() as int + 2) / 3 == groups);
    assert(a.len() == b.len()) by {
        assert(3 * groups - 3 < a.len() <= 3 * groups || a.len() == 0);
        assert(3 * groups - 3 < b.len() <= 3 * groups || b.len() == 0);
        if groups > 0 {
            base64_groups_agree(a, b, groups - 1);
        }
    }
    assert forall|i: int| 0 <= i < a.len() implies a[i] == b[i] by {
        let group = i / 3;
        base64_groups_agree(a, b, group);
        let (a0, a1, a2) = (
            byte_or_zero(a, 3 * group),
            byte_or_zero(a, 3 * group + 1),
            byte_or_zero(a, 3 * group + 2),
        );
        let (b0, b1, b2) = (
            byte_or_zero(b, 3 * group),
            byte_or_zero(b, 3 * group + 1),
            byte_or_zero(b, 3 * group + 2),
        );
        assert(a0 * 65536 + a1 * 256 + a2 == b0 * 65536 + b1 * 256 + b2);
        assert(a0 == b0 && a1 == b1 && a2 == b2);
    }
    assert(a =~= b);
}

/// A number of 24 bits can be read off its four parts of six bits.
proof fn sextets_make_the_number(m: int, n: int)
    requires
        0 <= m < 16777216,
        0 <= n < 16777216,
        m / 262144 == n / 262144,
        m / 4096 % 64 == n / 4096 % 64,
        m / 64 % 64 == n / 64 % 64,
        m % 64 == n % 64,
    ensures
        m == n,
{
    assert(m == m / 64 * 64 + m % 64);
    assert(m / 64 == m / 4096 * 64 + m / 64 % 64);
    assert(m / 4096 == m / 262144 * 64 + m / 4096 % 64);
    assert(n / 64 == n / 4096 * 64 + n / 64 % 64);
    assert(n / 4096 == n / 262144 * 64 + n / 4096 % 64);
}

/// The parts of a group's number that no byte reaches into are zero.
proof fn missing_bytes_are_zero(bytes: Seq<u8>, group: int)
    requires
        0 <= group,
    ensures
        0 <= base64_group(bytes, group) < 16777216,
        3 * group + 1 >= bytes.len() ==> base64_group(bytes, group) / 64 % 64 == 0,
        3 * group + 2 >= bytes.len() ==> base64_group(bytes, group) % 64 == 0,
{
}

/// A group of bytes can be read off its four characters.
proof fn base64_groups_agree(a: Seq<u8>, b: Seq<u8>, group: int)
    requires
        base64_text(a) == base64_text(b),
        0 <= group,
        3 * group < a.len(),
    ensures
        3 * group < b.len(),
        (3 * group + 1 < a.len()) == (3 * group + 1 < b.len()),
        (3 * group + 2 < a.len()) == (3 * group + 2 < b.len()),
        base64_group(a, group) == base64_group(b, group),
{
    let m = base64_group(a, group);
    let n = base64_group(b, group);
    base64_chars_of_group(a, group);
    assert(base64_text(a).len() == base64_text(b).len());
    assert(3 * group < b.len());
    base64_chars_of_group(b, group);
    missing_bytes_are_zero(a, group);
    missing_bytes_are_zero(b, group);
    base64_char_is_unique(m / 262144, n / 262144);
    base64_char_is_unique(m / 4096 % 64, n / 4096 % 64);
    base64_char_is_unique(m / 64 % 64, n / 64 % 64);
    base64_char_is_unique(n / 64 % 64, m / 64 % 64);
    base64_char_is_unique(m % 64, n % 64);
    base64_char_is_unique(n % 64, m % 64);
    sextets_make_the_number(m, n);
}

/// The four characters of a group.
proof fn base64_chars_of_group(bytes: Seq<u8>, group: int)
    requires
        0 <= group,
        3 * group < bytes.len(),
    ensures
        ({
            let encoded = base64_text(bytes);
            let number = base64_group(bytes, group);
            &&& 4 * group + 3 < encoded.len()
            &&& encoded[4 * group] == base64_char(number / 262144)
            &&& encoded[4 * group + 1] == base64_char(number / 4096 % 64)
            &&& encoded[4 * group + 2] == if 3 * group + 1 < bytes.len() {
                base64_char(number / 64 % 64)
            } else {
                '='
            }
            &&& encoded[4 * group + 3] == if 3 * group + 2 < bytes.len() {
                base64_char(number % 64)
            } else {
                '='
            }
        }),
{
    assert((4 * group) / 4 == group && (4 * group) % 4 == 0);
    assert((4 * group + 1) / 4 == group && (4 * group + 1) % 4 == 1);
    assert((4 * group + 2) / 4 == group && (4 * group + 2) % 4 == 2);
    assert((4 * group + 3) / 4 == group && (4 * group + 3) % 4 == 3);
}

/// A name is three modes by three words, and any other word is the same folder.
pub proof fn modes_are_named_by_words(name: &str)
    ensures
        name@ == "subfolder"@ ==> mode_named(name@) == Mode::Subfolder,
        name@ == "replace"@ ==> mode_named(name@) == Mode::Replace,
        name@ == "custom"@ ==> mode_named(name@) == Mode::CustomLocal,
        name@ != "subfolder"@ && name@ != "replace"@ && name@ != "custom"@ ==> mode_named(name@)
            == Mode::SameFolder,
{
    reveal_strlit("subfolder");
    reveal_strlit("replace");
    reveal_strlit("custom");
    assert("subfolder"@.len() != "replace"@.len());
    assert("subfolder"@.len() != "custom"@.len());
    assert("custom"@.len() != "replace"@.len());
}

/// The temporary name is the whole name up to its last dot, a dot, the whole salt,
/// `.smol_tmp`, and the extension with its dot where there is one.
pub proof fn temporary_name_is_built_around_the_salt(
    stem: Seq<char>,
    ext: Seq<char>,
    salt: Seq<char>,
)
    requires
        forall|i: int| 0 <= i < ext.len() ==> #[trigger] ext[i] != '.',
    ensures
        ext.len() > 0 ==> temporary_name(stem + seq!['.'] + ext, salt) == stem + seq!['.'] + salt
            + ".smol_tmp"@ + seq!['.'] + ext,
        temporary_name(stem + seq!['.'], salt) == stem + seq!['.'] + salt + ".smol_tmp"@,
        temporary_name(ext, salt) == ext + seq!['.'] + salt + ".smol_tmp"@,
{
    reveal_strlit(".");
    assert("."@ =~= seq!['.']);
    let name = stem + seq!['.'] + ext;
    text::last_index_of_is_last(name, '.');
    assert(name[stem.len() as int] == '.');
    assert forall|i: int| stem.len() < i < name.len() implies name[i] != '.' by {
        assert(name[i] == ext[i - stem.len() - 1]);
    }
    assert(text::last_index_of(name, '.') == stem.len());
    assert(name.take(stem.len() as int) =~= stem);
    assert(name.skip(stem.len() as int + 1) =~= ext);
    let bare = stem + seq!['.'];
    text::last_index_of_is_last(bare, '.');
    assert(bare[stem.len() as int] == '.');
    assert(text::last_index_of(bare, '.') == stem.len());
    assert(bare.take(stem.len() as int) =~= stem);
    assert(bare.skip(stem.len() as int + 1) =~= Seq::empty());
    text::last_index_of_is_last(ext, '.');
}

/// What [`resolve_device_target`] plans: in mode `replace` the file is written under
/// the temporary name and renamed to the original's whole name; in every other mode
/// it keeps the whole new name. Only `subfolder` creates a folder.
pub proof fn plan_follows_the_mode(
    mode: &str,
    new_name: &str,
    original_name: &str,
    salt: &str,
    target: DeviceTarget,
)
    requires
        call_ensures(resolve_device_target, (mode, new_name, original_name, salt), target),
    ensures
        target.note is None,
        target.create_subfolder == (mode@ == "subfolder"@),
        mode@ == "replace"@ ==> target.mode == Mode::Replace && target.rename_from@
            == original_name@ && target.name@ == temporary_name(original_name@, salt@),
        mode@ != "replace"@ ==> target.rename_from@.len() == 0 && target.name@ == new_name@,
        mode@ == "subfolder"@ ==> target.mode == Mode::Subfolder,
        mode@ == "custom"@ ==> target.mode == Mode::CustomLocal,
        mode@ != "subfolder"@ && mode@ != "replace"@ && mode@ != "custom"@ ==> target.mode
            == Mode::SameFolder,
{
    modes_are_named_by_words(mode);
    reveal_strlit("subfolder");
    reveal_strlit("replace");
    reveal_strlit("custom");
    assert("subfolder"@.len() != "replace"@.len());
    assert("custom"@.len() != "replace"@.len());
    assert("subfolder"@.len() != "custom"@.len());
}

/// An import lies right below its workspace, under its whole key, after a backslash
/// where the workspace has one anywhere and else after a slash.
pub proof fn import_lies_below_the_workspace(workspace: &str, uuid: &str, dir: String)
    requires
        call_ensures(compute_import_dir, (workspace, uuid), dir),
    ensures
        dir@.len() == workspace@.len() + 1 + uuid@.len(),
        dir@.take(workspace@.len() as int) == workspace@,
        dir@.skip(workspace@.len() as int + 1) == uuid@,
        (exists|i: int| 0 <= i < workspace@.len() && #[trigger] workspace@[i] == '\\')
            ==> dir@[workspace@.len() as int] == '\\',
        (forall|i: int| 0 <= i < workspace@.len() ==> #[trigger] workspace@[i] != '\\')
            ==> dir@[workspace@.len() as int] == '/',
{
    reveal_strlit("\\");
    reveal_strlit("/");
    assert(dir@.take(workspace@.len() as int) =~= workspace@);
    assert(dir@.skip(workspace@.len() as int + 1) =~= uuid@);
}

/// Space is enough where what is needed fits, or is not known; more free space never
/// makes it too little, and more need never makes it enough but from zero.
pub proof fn space_is_enough_where_it_fits(
    free: u64,
    needed: u64,
    enough: bool,
    more_free: u64,
    with_more: bool,
)
    requires
        call_ensures(has_enough_space, (free, needed), enough),
        call_ensures(has_enough_space, (more_free, needed), with_more),
    ensures
        needed == 0 ==> enough,
        needed > 0 ==> (enough <==> free - needed >= 0),
        more_free >= free && enough ==> with_more,
        needed > 0 && enough && !with_more ==> more_free < free,
{
}

/// Six bits are written as the character at their place in the standard alphabet.
pub proof fn alphabet_is_the_standard_one(bits: int)
    requires
        0 <= bits < 64,
    ensures
        base64_char(bits)
            == "ABCDEFGHIJKLMNOPQRSTUVWXYZabcdefghijklmnopqrstuvwxyz0123456789+/"@[bits],
{
    reveal_strlit("ABCDEFGHIJKLMNOPQRSTUVWXYZabcdefghijklmnopqrstuvwxyz0123456789+/");
}

/// Three bytes make four characters: their 24 bits, six at a time. Two bytes make
/// three and one `=`, one byte makes two and two `=`.
pub proof fn three_bytes_make_four_characters(a: u8, b: u8, c: u8)
    ensures
        base64_text(seq![a, b, c]) == seq![
            base64_char(a as int / 4),
            base64_char(a as int % 4 * 16 + b as int / 16),
            base64_char(b as int % 16 * 4 + c as int / 64),
            base64_char(c as int % 64),
        ],
        base64_text(seq![a, b]) == seq![
            base64_char(a as int / 4),
            base64_char(a as int % 4 * 16 + b as int / 16),
            base64_char(b as int % 16 * 4),
            '=',
        ],
        base64_text(seq![a]) == seq![
            base64_char(a as int / 4),
            base64_char(a as int % 4 * 16),
            '=',
            '=',
        ],
        base64_text(Seq::<u8>::empty()) == Seq::<char>::empty(),
{
    let three = seq![a, b, c];
    let two = seq![a, b];
    let one = seq![a];
    base64_chars_of_group(three, 0);
    base64_chars_of_group(two, 0);
    base64_chars_of_group(one, 0);
    sextets_of_bytes(a as int, b as int, c as int);
    sextets_of_bytes(a as int, b as int, 0);
    sextets_of_bytes(a as int, 0, 0);
    assert(base64_group(three, 0) == a * 65536 + b * 256 + c);
    assert(base64_group(two, 0) == a * 65536 + b * 256);
    assert(base64_group(one, 0) == a * 65536);
    assert(base64_text(three).len() == 4);
    assert(base64_text(two).len() == 4);
    assert(base64_text(one).len() == 4);
    let text = base64_text(three);
    assert(text =~= seq![text[0], text[1], text[2], text[3]]);
    let text = base64_text(two);
    assert(text =~= seq![text[0], text[1], text[2], text[3]]);
    let text = base64_text(one);
    assert(text =~= seq![text[0], text[1], text[2], text[3]]);
    assert(base64_text(Seq::<u8>::empty()) =~= Seq::<char>::empty());
}

proof fn sextets_of_bytes(a: int, b: int, c: int)
    requires
        0 <= a < 256,
        0 <= b < 256,
        0 <= c < 256,
    ensures
        ({
            let number = a * 65536 + b * 256 + c;
            &&& number / 262144 == a / 4
            &&& number / 4096 % 64 == a % 4 * 16 + b / 16
            &&& number / 64 % 64 == b % 16 * 4 + c / 64
            &&& number % 64 == c % 64
        }),
{
    let (p, q, r, t) = (a / 4, a % 4 * 16 + b / 16, b % 16 * 4 + c / 64, c % 64);
    let number = a * 65536 + b * 256 + c;
    assert(a == a / 4 * 4 + a % 4);
    assert(b == b / 16 * 16 + b % 16);
    assert(c == c / 64 * 64 + c % 64);
    assert(0 <= q < 64 && 0 <= r < 64 && 0 <= t < 64);
    let (one, two) = ((p * 64 + q) * 64 + r, p * 64 + q);
    assert(number == one * 64 + t);
    quotient_and_rest(one, t);
    quotient_and_rest(two, r);
    quotient_and_rest(p, q);
    assert(number / 4096 == number / 64 / 64);
    assert(number / 262144 == number / 64 / 64 / 64);
}

proof fn quotient_and_rest(quotient: int, rest: int)
    requires
        0 <= rest < 64,
    ensures
        (quotient * 64 + rest) / 64 == quotient,
        (quotient * 64 + rest) % 64 == rest,
{
}

/// Whole groups of three bytes are written on their own: what follows them is
/// written after them as it would be alone.
pub proof fn groups_are_written_on_their_own(front: Seq<u8>, rest: Seq<u8>)
    requires
        front.len() % 3 == 0,
    ensures
        base64_text(front + rest) == base64_text(front) + base64_text(rest),
{
    let all = front + rest;
    let groups = front.len() as int / 3;
    assert(front.len() == 3 * groups);
    let x = base64_text(all);
    let y = base64_text(front) + base64_text(rest);
    assert(base64_text(front).len() == 4 * groups);
    assert(x.len() == y.len());
    assert forall|at: int| 0 <= at < x.len() implies x[at] == y[at] by {
        let group = at / 4;
        if at < 4 * groups {
            assert(3 * group + 2 < front.len());
            assert(byte_or_zero(all, 3 * group) == byte_or_zero(front, 3 * group));
            assert(byte_or_zero(all, 3 * group + 1) == byte_or_zero(front, 3 * group + 1));
            assert(byte_or_zero(all, 3 * group + 2) == byte_or_zero(front, 3 * group + 2));
            assert(y[at] == base64_text(front)[at]);
        } else {
            let own = at - 4 * groups;
            assert(own / 4 == group - groups && own % 4 == at % 4);
            assert(y[at] == base64_text(rest)[own]);
            let k = 3 * (group - groups);
            assert(3 * group == front.len() + k);
            assert(byte_or_zero(all, 3 * group) == byte_or_zero(rest, k));
            assert(byte_or_zero(all, 3 * group + 1) == byte_or_zero(rest, k + 1));
            assert(byte_or_zero(all, 3 * group + 2) == byte_or_zero(rest, k + 2));
        }
    }
    assert(x =~= y);
}

/// What was written as base64 is read back as it was, whatever the bytes; and what
/// is read is written as it was.
pub proof fn written_bytes_are_read_back(
    bytes: &[u8],
    encoded: String,
    decoded: Option<Vec<u8>>,
    other: &str,
    read: Option<Vec<u8>>,
)
    requires
        call_ensures(pidl_bytes_to_base64, (bytes,), encoded),
        encoded@ == other@,
        call_ensures(base64_to_pidl_bytes, (other,), read),
    ensures
        encoded@ == base64_text(bytes@),
        read matches Some(out) && out@ == bytes@,
{
    assert(base64_text(bytes@) == other@);
}

/// A text is read as bytes only where those bytes are written as that text.
pub proof fn read_bytes_are_written_so(b64: &str, decoded: Option<Vec<u8>>)
    requires
        call_ensures(base64_to_pidl_bytes, (b64,), decoded),
    ensures
        decoded matches Some(bytes) ==> base64_text(bytes@) == b64@,
        decoded is None ==> forall|bytes: Seq<u8>| #[trigger] base64_text(bytes) != b64@,
{
}

} // verus!
