//! The command line's values, as the rest of the library reads them.
use vstd::prelude::*;
use vstd::string::*;
use crate::catalog::{Tag, alpha_name, beta_name, rc_name};
use crate::entry_path::{components, split_components};
use crate::text::{join, join_path, starts_with, has_prefix};

verus! {

/// Which versions `list` shows.
#[derive(Debug, Clone, Copy, PartialEq, Eq, Structural)]
pub struct ListArgs {
    /// Only the versions installed locally.
    pub only_installed: bool,
    /// Every known version.
    pub all: bool,
    /// Alpha versions.
    pub alpha: bool,
    /// Beta versions.
    pub beta: bool,
    /// Release candidates.
    pub rc: bool,
    /// Bring the catalog up to date first.
    pub fetch: bool,
}

impl ListArgs {
    /// Whether `tag` is shown.
    pub fn filter_criteria(&self, tag: &Tag) -> (r: bool)
        ensures
            r == (self.all || self.alpha && alpha_name(tag.name@) || self.beta && beta_name(
                tag.name@,
            ) || self.rc && rc_name(tag.name@)),
    {
        self.all || self.alpha && tag.is_alpha() || self.beta && tag.is_beta() || self.rc
            && tag.is_rc()
    }
}

/// A subcommand and its options.
#[derive(Debug)]
pub enum Commands {
    /// Build and install a version.
    Install {
        tag: String,
        enable_calendar: bool,
        enable_intl: bool,
        enable_mbstring: bool,
        enable_pcntl: bool,
        enable_bcmath: bool,
        enable_mysqlnd: bool,
        with_curl: bool,
        with_openssl: bool,
        /// `default`, a directory, or empty for none.
        with_mysqli: String,
        with_pdo_mysqli: String,
        with_pgsql: String,
        with_pdo_pgsql: String,
        with_pear: bool,
        with_zip: bool,
        with_zlib: bool,
        with_password_argon2: bool,
        debug: bool,
        verbose: bool,
        force: bool,
        configure_args: Vec<String>,
    },
    /// Remove an installed version.
    Remove { tag: Option<String> },
    /// List versions.
    List(ListArgs),
    /// Switch the active version.
    Use { tag: Option<String> },
}

impl Commands {
    /// An installation that shows the build's whole output.
    pub fn is_verbose(&self) -> (r: bool)
        ensures
            r == (self matches Commands::Install { verbose: true, .. }),
    {
        match self {
            Commands::Install { verbose, .. } => *verbose,
            _ => false,
        }
    }

    /// An installation of a debug build.
    pub fn is_dev(&self) -> (r: bool)
        ensures
            r == (self matches Commands::Install { debug: true, .. }),
    {
        match self {
            Commands::Install { debug, .. } => *debug,
            _ => false,
        }
    }

    /// An installation that downloads and builds again.
    pub fn is_force(&self) -> (r: bool)
        ensures
            r == (self matches Commands::Install { force: true, .. }),
    {
        match self {
            Commands::Install { force, .. } => *force,
            _ => false,
        }
    }
}

/// The parsed command line.
#[derive(Debug)]
pub struct Cli {
    pub command: Commands,
    /// The managed root directory.
    pub work_dir: String,
}

/// Name of the managed root directory.
pub const ROOT_NAME: &'static str = ".maphp";

impl Cli {
    /// The catalog file.
    pub fn tags_file(&self) -> (r: String)
        ensures
            r@ == join_path(self.work_dir@, "tags.json"@),
    {
        join(self.work_dir.as_str(), "tags.json")
    }

    /// The link to the active version's binaries.
    pub fn bin(&self) -> (r: String)
        ensures
            r@ == join_path(self.work_dir@, "bin"@),
    {
        join(self.work_dir.as_str(), "bin")
    }

    /// The directory that holds one source tree per tag.
    pub fn archives(&self) -> (r: String)
        ensures
            r@ == join_path(self.work_dir@, "archives"@),
    {
        join(self.work_dir.as_str(), "archives")
    }
}

/// The managed root for a chosen directory: the directory itself when its
/// last component is the root's name, else that name beneath it.
pub open spec fn managed_root(dir: Seq<char>) -> Seq<char> {
    let cs = components(dir);
    if cs.len() > 0 && cs.last() == ROOT_NAME@ {
        dir
    } else {
        join_path(dir, ROOT_NAME@)
    }
}

/// The managed root for the directory chosen on the command line.
pub fn managed_dir(dir: &str) -> (r: String)
    ensures
        r@ == managed_root(dir@),
{
    let cs = split_components(dir);
    let n = cs.len();
    if n > 0 && cs[n - 1] == String::from_str(ROOT_NAME) {
        String::from_str(dir)
    } else {
        join(dir, ROOT_NAME)
    }
}

/// The work directory given as `value`: `~` stands for the home directory
/// when it is known.
pub fn parse_work_dir(value: &str, home: Option<String>) -> (r: String)
    ensures
        r@ == (if value@ == "~"@ && home is Some { home->Some_0@ } else { value@ }),
{
    let tilde = String::from_str("~");
    match home {
        Some(h) => {
            if String::from_str(value) == tilde {
                h
            } else {
                String::from_str(value)
            }
        },
        None => String::from_str(value),
    }
}

/// The version named on the command line, without a leading `php-`.
pub fn strip_php(value: &str) -> (r: Result<String, String>)
    ensures
        r matches Ok(s) && s@ == (if starts_with(value@, "php-"@) {
            value@.subrange(4, value@.len() as int)
        } else {
            value@
        }),
{
    proof {
        reveal_strlit("php-");
    }
    if has_prefix(value, "php-") {
        Ok(String::from_str(value.substring_char(4, value.unicode_len())))
    } else {
        Ok(String::from_str(value))
    }
}

/// A directory option: kept as given, empty for none.
pub fn triple_drip(value: &str) -> (r: Result<String, String>)
    ensures
        r matches Ok(s) && s@ == value@,
{
    Ok(String::from_str(value))
}

} // verus!
