use vstd::prelude::*;

verus! {

/// A character that ends a path component on some platform.
pub open spec fn is_separator_char(c: char) -> bool {
    c == '/' || c == '\\'
}

/// A single file or directory name that `PathBuf::push` appends rather than
/// using to replace the path: non-empty, with no separator, drive colon, or
/// dot-only form.
pub open spec fn is_plain_component(name: Seq<char>) -> bool {
    &&& name.len() > 0
    &&& forall|i: int| 0 <= i < name.len() ==> !is_separator_char(#[trigger] name[i]) && name[i]
        != ':'
    &&& name != seq!['.']
    &&& name != seq!['.', '.']
}

/// Whether `path` begins like a Windows verbatim path (`\\?\`, with either
/// separator), which `PathBuf::push` normalizes on Windows.
pub open spec fn looks_verbatim(path: Seq<char>) -> bool {
    path.len() >= 3 && is_separator_char(path[0]) && is_separator_char(path[1]) && path[2] == '?'
}

/// What pushing `name` onto a base that does not look verbatim gives on
/// every platform: `base`, then at most one separator, then `name`; no
/// separator when `base` is empty or ends with `/`, and one when `base` ends
/// in a character that is neither a separator nor a drive colon.
pub open spec fn is_joined_path(joined: Seq<char>, base: Seq<char>, name: Seq<char>) -> bool {
    exists|sep: Seq<char>|
        {
            &&& joined == base + sep + name
            &&& sep.len() <= 1
            &&& sep.len() == 1 ==> is_separator_char(sep[0])
            &&& (base.len() == 0 || base.last() == '/') ==> sep.len() == 0
            &&& (base.len() > 0 && !is_separator_char(base.last()) && base.last() != ':')
                ==> sep.len() == 1
        }
}

/// Calls `std::path::PathBuf::push`, which appends a relative component with
/// the platform separator inserted when `base` does not end in one. The
/// separator itself (`/` or `\`) depends on the target platform; the contract
/// states only what holds on both. On Windows a verbatim base is normalized
/// (`.` and `..` removed), so nothing is stated of a base that looks verbatim.
#[verifier::external_body]
fn push_path(base: &str, name: &str) -> (joined: String)
    requires
        is_plain_component(name@),
    ensures
        !looks_verbatim(base@) ==> is_joined_path(joined@, base@, name@),
{
    let mut buf = std::path::PathBuf::from(base);
    buf.push(name);
    buf.to_string_lossy().into_owned()
}

/// The name of the directory, below the platform's configuration directory,
/// that holds the application's own files.
pub open spec fn app_dir_name() -> Seq<char> {
    seq!['v', 'e', 'a', 'l']
}

/// The name of the application configuration file.
pub open spec fn config_file_name() -> Seq<char> {
    seq!['c', 'o', 'n', 'f', 'i', 'g', '.', 'j', 's', 'o', 'n']
}

/// The directory the application data directory is placed in: the platform
/// configuration directory, or `.` when there is none.
pub open spec fn data_dir_base(config_dir: Option<&str>) -> Seq<char> {
    match config_dir {
        Some(d) => d@,
        None => seq!['.'],
    }
}

/// The application data directory: `veal` inside the platform configuration
/// directory, or inside the current directory `.` when the platform has none.
pub fn app_data_dir_path(config_dir: Option<&str>) -> (dir: String)
    ensures
        !looks_verbatim(data_dir_base(config_dir)) ==> is_joined_path(
            dir@,
            data_dir_base(config_dir),
            app_dir_name(),
        ),
{
    let base = match config_dir {
        Some(d) => d,
        None => ".",
    };
    proof {
        reveal_strlit(".");
        reveal_strlit("veal");
        assert("veal"@ =~= app_dir_name());
        assert("."@ =~= seq!['.']);
    }
    push_path(base, "veal")
}

/// The path of `config.json` inside the application data directory.
pub fn get_config_path(app_data_dir: &str) -> (path: String)
    ensures
        !looks_verbatim(app_data_dir@) ==> is_joined_path(path@, app_data_dir@, config_file_name()),
{
    proof {
        reveal_strlit("config.json");
        assert("config.json"@ =~= config_file_name());
    }
    push_path(app_data_dir, "config.json")
}

} // verus!
