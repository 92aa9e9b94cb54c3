use maphp::catalog::{Commit, Tag};
use maphp::cli::{managed_dir, parse_work_dir, strip_php, triple_drip, Cli, Commands, ListArgs};
use maphp::source::SourcePHP;

fn install(debug: bool, verbose: bool, force: bool) -> Commands {
    Commands::Install {
        tag: "8.4.11".to_string(),
        enable_calendar: true,
        enable_intl: true,
        enable_mbstring: false,
        enable_pcntl: true,
        enable_bcmath: true,
        enable_mysqlnd: false,
        with_curl: true,
        with_openssl: true,
        with_mysqli: "default".to_string(),
        with_pdo_mysqli: String::new(),
        with_pgsql: "/opt/pg".to_string(),
        with_pdo_pgsql: String::new(),
        with_pear: false,
        with_zip: true,
        with_zlib: true,
        with_password_argon2: true,
        debug,
        verbose,
        force,
        configure_args: vec!["--with-ffi".to_string(), "--enable-gd".to_string()],
    }
}

fn list(all: bool, alpha: bool, beta: bool, rc: bool) -> ListArgs {
    ListArgs { only_installed: false, all, alpha, beta, rc, fetch: false }
}

fn tag(name: &str) -> Tag {
    Tag {
        name: name.to_string(),
        tarball_url: String::new(),
        zipball_url: String::new(),
        commit: Commit { sha: String::new(), url: String::new() },
        node_id: String::new(),
    }
}

#[test]
fn command_flags() {
    assert!(install(false, true, false).is_verbose());
    assert!(!install(false, false, true).is_verbose());
    assert!(install(true, false, false).is_dev());
    assert!(install(false, false, true).is_force());
    assert!(!Commands::Remove { tag: None }.is_force());
    assert!(!Commands::List(list(true, false, false, false)).is_verbose());
}

#[test]
fn managed_paths() {
    let cli = Cli { command: Commands::Use { tag: None }, work_dir: "/home/u/.maphp".to_string() };
    assert_eq!(cli.tags_file(), "/home/u/.maphp/tags.json");
    assert_eq!(cli.bin(), "/home/u/.maphp/bin");
    assert_eq!(cli.archives(), "/home/u/.maphp/archives");
}

#[test]
fn managed_root_is_added_once() {
    assert_eq!(managed_dir("/home/u"), "/home/u/.maphp");
    assert_eq!(managed_dir("/home/u/"), "/home/u/.maphp");
    assert_eq!(managed_dir("/home/u/.maphp"), "/home/u/.maphp");
    assert_eq!(managed_dir("/home/u/.maphp/"), "/home/u/.maphp/");
}

#[test]
fn work_dir_home() {
    assert_eq!(parse_work_dir("~", Some("/home/u".to_string())), "/home/u");
    assert_eq!(parse_work_dir("~", None), "~");
    assert_eq!(parse_work_dir("/srv", Some("/home/u".to_string())), "/srv");
}

#[test]
fn version_arguments() {
    assert_eq!(strip_php("php-8.4.11"), Ok("8.4.11".to_string()));
    assert_eq!(strip_php("8.4.11"), Ok("8.4.11".to_string()));
    assert_eq!(strip_php("8"), Ok("8".to_string()));
    assert_eq!(triple_drip(""), Ok(String::new()));
    assert_eq!(triple_drip("/opt/pg"), Ok("/opt/pg".to_string()));
}

#[test]
fn list_filter() {
    assert!(list(true, false, false, false).filter_criteria(&tag("php-8.4.11")));
    assert!(!list(false, false, false, false).filter_criteria(&tag("php-8.4.11")));
    assert!(list(false, true, false, false).filter_criteria(&tag("php-8.4.0alpha1")));
    assert!(!list(false, true, false, false).filter_criteria(&tag("php-8.4.0beta1")));
    assert!(list(false, false, true, true).filter_criteria(&tag("php-8.4.0RC2")));
}

#[test]
fn configure_options() {
    let src = SourcePHP::new("/w/archives/8.4.11".to_string());
    let expected = vec![
        "--enable-calendar",
        "--enable-intl",
        "--enable-pcntl",
        "--enable-bcmath",
        "--with-curl",
        "--with-openssl",
        "--with-zip",
        "--with-zlib",
        "--with-password-argon2",
        "--with-mysqli",
        "--with-pgsql=/opt/pg",
        "--with-ffi --enable-gd",
    ];
    assert_eq!(src.get_args(&install(false, false, false)), expected);
    let mut full = vec!["--prefix", "/w/archives/8.4.11/dist"];
    full.extend(expected.iter().copied());
    assert_eq!(src.configure_args(&install(false, false, false)), full);
    full.push("--enable-debug");
    assert_eq!(src.configure_args(&install(true, false, false)), full);
}

#[test]
fn source_tree_paths() {
    let src = SourcePHP::new("/w/archives/8.4.11".to_string());
    assert_eq!(src.name(), "8.4.11");
    assert_eq!(src.dist(), "/w/archives/8.4.11/dist");
    assert_eq!(src.dist_bin(), "/w/archives/8.4.11/dist/bin");
    assert_eq!(src.php_binary(), "/w/archives/8.4.11/dist/bin/php");
    assert_eq!(src.buildconf(), "/w/archives/8.4.11/buildconf");
    assert_eq!(src.ini_target(), "/w/archives/8.4.11/dist/lib/php.ini");
    assert_eq!(src.ini_template(true), "/w/archives/8.4.11/php.ini-development");
    assert_eq!(src.ini_template(false), "/w/archives/8.4.11/php.ini-production");
    assert_eq!(SourcePHP::new("/w/..".to_string()).name(), "/w/..");
    assert_eq!(SourcePHP::new("/w/8.3/".to_string()).name(), "8.3");
}
