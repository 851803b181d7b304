use vstd::prelude::*;

verus! {

/// Why no configuration file can be named.
pub enum ConfigPathError {
    /// `AWS_CONFIG_FILE` is unset or empty and there is no home directory.
    NoHomeDirectory,
}

impl ConfigPathError {
    /// The message shown for the error.
    pub fn message(&self) -> (r: &'static str)
        ensures
            r@ == "Could not determine home directory. Set AWS_CONFIG_FILE or HOME."@,
    {
        "Could not determine home directory. Set AWS_CONFIG_FILE or HOME."
    }
}

/// `c` separates path components on a platform whose main separator is
/// `sep`: `/` everywhere, and `sep` too (`\` on Windows).
pub open spec fn is_separator(c: char, sep: char) -> bool {
    c == '/' || c == sep
}

/// `c` is an ASCII letter.
pub open spec fn is_ascii_letter(c: char) -> bool {
    ('a' <= c && c <= 'z') || ('A' <= c && c <= 'Z')
}

/// `base` is a bare Windows drive such as `C:`: a drive prefix with nothing
/// after it.
pub open spec fn is_bare_drive(base: Seq<char>) -> bool {
    base.len() == 2 && is_ascii_letter(base[0]) && base[1] == ':'
}

/// `base` and the relative `part` joined as `Path::join` joins them: the
/// main separator `sep` between them unless `base` is empty, already ends
/// with a separator, or is a bare drive on Windows (`C:` and `.aws` give
/// `C:.aws`, a path relative to that drive's current directory).
pub open spec fn join_path(base: Seq<char>, part: Seq<char>, sep: char) -> Seq<char> {
    if base.len() == 0 || is_separator(base.last(), sep) || (sep == '\\' && is_bare_drive(base)) {
        base + part
    } else {
        base + seq![sep] + part
    }
}

/// The configuration file to read: `AWS_CONFIG_FILE` when it is set and not
/// empty, else `.aws` then `config` joined under the home directory; `None`
/// when neither is available.
pub open spec fn config_path_for(
    aws_config_file: Option<Seq<char>>,
    home_dir: Option<Seq<char>>,
    sep: char,
) -> Option<Seq<char>> {
    match aws_config_file {
        Some(path) if path.len() > 0 => Some(path),
        _ => match home_dir {
            Some(home) => Some(join_path(join_path(home, ".aws"@, sep), "config"@, sep)),
            None => None,
        },
    }
}

/// A non-empty `AWS_CONFIG_FILE` is the configuration file as it is,
/// whatever its form (relative, absolute, with a drive) and whatever the
/// home directory; only an unset or empty one falls back to the home
/// directory, and without that there is no path.
pub proof fn law_config_file_wins(
    aws_config_file: Option<Seq<char>>,
    home_dir: Option<Seq<char>>,
    sep: char,
)
    ensures
        aws_config_file matches Some(p) ==> (p.len() > 0 ==> config_path_for(
            aws_config_file,
            home_dir,
            sep,
        ) == Some(p)),
        (aws_config_file matches Some(p) ==> p.len() == 0) ==> (config_path_for(
            aws_config_file,
            home_dir,
            sep,
        ) is Some <==> home_dir is Some),
{
}

/// `r` is the path `expected`, or the error where there is none.
pub open spec fn resolves_to(r: Result<String, ConfigPathError>, expected: Option<Seq<char>>) -> bool {
    match expected {
        Some(path) => r matches Ok(p) && p@ == path,
        None => r is Err,
    }
}

/// The platform's main path separator, `std::path::MAIN_SEPARATOR`. The
/// contract claims only that it is `/` or `\`, which is what std defines on
/// every platform; which one is left open.
#[verifier::external_body]
fn main_separator() -> (c: char)
    ensures
        c == '/' || c == '\\',
{
    std::path::MAIN_SEPARATOR
}

fn join_path_exec(base: String, part: &str, sep: char) -> (r: String)
    requires
        sep == '/' || sep == '\\',
    ensures
        r@ == join_path(base@, part@, sep),
{
    let n = base.as_str().unicode_len();
    let mut out = base;
    if n > 0 {
        let last = out.as_str().get_char(n - 1);
        let bare_drive = if sep == '\\' && n == 2 {
            let first = out.as_str().get_char(0);
            (('a' <= first && first <= 'z') || ('A' <= first && first <= 'Z')) && last == ':'
        } else {
            false
        };
        if last != '/' && last != sep && !bare_drive {
            if sep == '/' {
                proof {
                    reveal_strlit("/");
                }
                out.append("/");
            } else {
                proof {
                    reveal_strlit("\\");
                }
                out.append("\\");
            }
        }
    }
    out.append(part);
    out
}

/// The configuration file for the value of `AWS_CONFIG_FILE` and the home
/// directory, as far as each is known, on a platform whose main separator
/// is `sep`.
pub fn config_path_with_separator(
    aws_config_file: Option<String>,
    home_dir: Option<String>,
    sep: char,
) -> (r: Result<String, ConfigPathError>)
    requires
        sep == '/' || sep == '\\',
    ensures
        resolves_to(r, config_path_for(aws_config_file.deep_view(), home_dir.deep_view(), sep)),
        aws_config_file matches Some(p) ==> (p@.len() > 0 ==> (r matches Ok(q) && q@ == p@)),
        home_dir is None ==> (aws_config_file matches Some(p) ==> p@.len() == 0) ==> r is Err,
{
    if let Some(path) = aws_config_file {
        if path.as_str().unicode_len() > 0 {
            return Ok(path);
        }
    }
    match home_dir {
        Some(home) => {
            let dir = join_path_exec(home, ".aws", sep);
            Ok(join_path_exec(dir, "config", sep))
        },
        None => Err(ConfigPathError::NoHomeDirectory),
    }
}

/// Resolves the path to the AWS config file from the value of
/// `AWS_CONFIG_FILE` and the home directory, joining with this platform's
/// main separator.
pub fn resolve_config_path(aws_config_file: Option<String>, home_dir: Option<String>) -> (r: Result<
    String,
    ConfigPathError,
>)
    ensures
        aws_config_file matches Some(p) ==> (p@.len() > 0 ==> (r matches Ok(q) && q@ == p@)),
        home_dir is None ==> (aws_config_file matches Some(p) ==> p@.len() == 0) ==> r is Err,
        exists|sep: char|
            (sep == '/' || sep == '\\') && #[trigger] resolves_to(
                r,
                config_path_for(aws_config_file.deep_view(), home_dir.deep_view(), sep),
            ),
{
    let sep = main_separator();
    let r = config_path_with_separator(aws_config_file, home_dir, sep);
    assert(resolves_to(r, config_path_for(aws_config_file.deep_view(), home_dir.deep_view(), sep)));
    r
}

} // verus!
