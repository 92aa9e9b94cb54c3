//! A source tree of one version, the places inside it that installation
//! uses, and the options handed to its build configuration.
use vstd::prelude::*;
use vstd::string::*;
use crate::cli::Commands;
use crate::entry_path::{components, dot_dot, split_components};
use crate::text::{join, join_path, join_with, joined, views};

verus! {

/// The source tree of one version, by its directory.
#[derive(Debug)]
pub struct SourcePHP(pub String);

/// The option `name` when `on` holds.
pub open spec fn flag(on: bool, name: Seq<char>) -> Seq<Seq<char>> {
    if on {
        seq![name]
    } else {
        Seq::empty()
    }
}

/// The option `name` for a directory option: alone for `default`, with the
/// directory after `=` otherwise, and absent when empty.
pub open spec fn dir_flag(value: Seq<char>, name: Seq<char>) -> Seq<Seq<char>> {
    if value == "default"@ {
        seq![name]
    } else if value.len() > 0 {
        seq![name + seq!['='] + value]
    } else {
        Seq::empty()
    }
}

/// The build configuration options of an installation, in order: the
/// switched-on features, the database directories, then the extra arguments
/// as one space-separated word.
pub open spec fn configure_flags(c: Commands) -> Seq<Seq<char>> {
    match c {
        Commands::Install {
            enable_calendar,
            enable_intl,
            enable_mbstring,
            enable_pcntl,
            enable_bcmath,
            enable_mysqlnd,
            with_curl,
            with_openssl,
            with_mysqli,
            with_pdo_mysqli,
            with_pgsql,
            with_pdo_pgsql,
            with_pear,
            with_zip,
            with_zlib,
            with_password_argon2,
            configure_args,
            ..
        } => flag(enable_calendar, "--enable-calendar"@) + flag(enable_intl, "--enable-intl"@)
            + flag(enable_mbstring, "--enable-mbstring"@) + flag(enable_pcntl, "--enable-pcntl"@)
            + flag(enable_bcmath, "--enable-bcmath"@) + flag(enable_mysqlnd, "--enable-mysqlnd"@)
            + flag(with_curl, "--with-curl"@) + flag(with_openssl, "--with-openssl"@) + flag(
            with_pear,
            "--with-pear"@,
        ) + flag(with_zip, "--with-zip"@) + flag(with_zlib, "--with-zlib"@) + flag(
            with_password_argon2,
            "--with-password-argon2"@,
        ) + dir_flag(with_mysqli@, "--with-mysqli"@) + dir_flag(
            with_pdo_mysqli@,
            "--with-pdo-mysqli"@,
        ) + dir_flag(with_pgsql@, "--with-pgsql"@) + dir_flag(with_pdo_pgsql@, "--with-pdo-pgsql"@)
            + seq![joined(views(configure_args@), " "@)],
        _ => Seq::empty(),
    }
}

/// The last component of a path, or the whole path when it has none or ends
/// in `..`.
pub open spec fn name_of(p: Seq<char>) -> Seq<char> {
    let cs = components(p);
    if cs.len() > 0 && cs.last() != dot_dot() {
        cs.last()
    } else {
        p
    }
}

fn push_flag(args: &mut Vec<String>, on: bool, name: &str)
    ensures
        views(final(args)@) == views(old(args)@) + flag(on, name@),
{
    let ghost before = views(args@);
    if on {
        args.push(String::from_str(name));
    }
    assert(views(args@) =~= before + flag(on, name@));
}

fn push_dir_flag(args: &mut Vec<String>, value: &String, name: &str)
    ensures
        views(final(args)@) == views(old(args)@) + dir_flag(value@, name@),
{
    let ghost before = views(args@);
    if *value == String::from_str("default") {
        args.push(String::from_str(name));
    } else if value.unicode_len() > 0 {
        let mut s = String::from_str(name);
        s.append("=");
        s.append(value.as_str());
        proof {
            reveal_strlit("=");
        }
        assert(s@ =~= name@ + seq!['='] + value@);
        args.push(s);
    }
    assert(views(args@) =~= before + dir_flag(value@, name@));
}

impl SourcePHP {
    pub fn new(src: String) -> (r: Self)
        ensures
            r.0@ == src@,
    {
        SourcePHP(src)
    }

    /// The installation prefix.
    pub fn dist(&self) -> (r: String)
        ensures
            r@ == join_path(self.0@, "dist"@),
    {
        join(self.0.as_str(), "dist")
    }

    /// The directory of the installed binaries.
    pub fn dist_bin(&self) -> (r: String)
        ensures
            r@ == join_path(self.0@, "dist/bin"@),
    {
        join(self.0.as_str(), "dist/bin")
    }

    /// The interpreter whose presence marks the version as installed.
    pub fn php_binary(&self) -> (r: String)
        ensures
            r@ == join_path(self.0@, "dist/bin/php"@),
    {
        join(self.0.as_str(), "dist/bin/php")
    }

    /// The script that prepares the build configuration.
    pub fn buildconf(&self) -> (r: String)
        ensures
            r@ == join_path(self.0@, "buildconf"@),
    {
        join(self.0.as_str(), "buildconf")
    }

    /// Where the installed configuration file goes.
    pub fn ini_target(&self) -> (r: String)
        ensures
            r@ == join_path(self.0@, "dist/lib/php.ini"@),
    {
        join(self.0.as_str(), "dist/lib/php.ini")
    }

    /// The configuration template to install: the development one for a
    /// debug build, the production one otherwise.
    pub fn ini_template(&self, dev: bool) -> (r: String)
        ensures
            r@ == join_path(
                self.0@,
                if dev {
                    "php.ini-development"@
                } else {
                    "php.ini-production"@
                },
            ),
    {
        if dev {
            join(self.0.as_str(), "php.ini-development")
        } else {
            join(self.0.as_str(), "php.ini-production")
        }
    }

    /// The version's name: the last component of its directory.
    pub fn name(&self) -> (r: String)
        ensures
            r@ == name_of(self.0@),
    {
        let cs = split_components(self.0.as_str());
        let n = cs.len();
        if n > 0 {
            let last = cs[n - 1].clone();
            let is_parent = last.unicode_len() == 2 && last.as_str().get_char(0) == '.'
                && last.as_str().get_char(1) == '.';
            assert(is_parent <==> last@ =~= dot_dot());
            if !is_parent {
                return last;
            }
        }
        self.0.clone()
    }

    /// The build configuration options of the installation `command`.
    pub fn get_args(&self, command: &Commands) -> (r: Vec<String>)
        requires
            command is Install,
        ensures
            views(r@) == configure_flags(*command),
    {
        match command {
            Commands::Install {
                enable_calendar,
                enable_intl,
                enable_mbstring,
                enable_pcntl,
                enable_bcmath,
                enable_mysqlnd,
                with_curl,
                with_openssl,
                with_mysqli,
                with_pdo_mysqli,
                with_pgsql,
                with_pdo_pgsql,
                with_pear,
                with_zip,
                with_zlib,
                with_password_argon2,
                configure_args,
                ..
            } => {
                let mut args: Vec<String> = Vec::new();
                assert(views(args@) =~= Seq::<Seq<char>>::empty());
                push_flag(&mut args, *enable_calendar, "--enable-calendar");
                push_flag(&mut args, *enable_intl, "--enable-intl");
                push_flag(&mut args, *enable_mbstring, "--enable-mbstring");
                push_flag(&mut args, *enable_pcntl, "--enable-pcntl");
                push_flag(&mut args, *enable_bcmath, "--enable-bcmath");
                push_flag(&mut args, *enable_mysqlnd, "--enable-mysqlnd");
                push_flag(&mut args, *with_curl, "--with-curl");
                push_flag(&mut args, *with_openssl, "--with-openssl");
                push_flag(&mut args, *with_pear, "--with-pear");
                push_flag(&mut args, *with_zip, "--with-zip");
                push_flag(&mut args, *with_zlib, "--with-zlib");
                push_flag(&mut args, *with_password_argon2, "--with-password-argon2");
                push_dir_flag(&mut args, with_mysqli, "--with-mysqli");
                push_dir_flag(&mut args, with_pdo_mysqli, "--with-pdo-mysqli");
                push_dir_flag(&mut args, with_pgsql, "--with-pgsql");
                push_dir_flag(&mut args, with_pdo_pgsql, "--with-pdo-pgsql");
                let ghost before = views(args@);
                args.push(join_with(configure_args, " "));
                assert(views(args@) =~= configure_flags(*command)) by {
                    assert(views(args@) =~= before.push(joined(views(configure_args@), " "@)));
                }
                args
            },
            _ => Vec::new(),
        }
    }

    /// The arguments of the build configuration script: the installation
    /// prefix, the options, and the debug switch for a debug build.
    pub fn configure_args(&self, command: &Commands) -> (r: Vec<String>)
        requires
            command is Install,
        ensures
            views(r@) == seq!["--prefix"@, join_path(self.0@, "dist"@)] + configure_flags(*command)
                + (if *command matches Commands::Install { debug: true, .. } { seq!["--enable-debug"@] } else { Seq::empty() }),
    {
        let mut args: Vec<String> = Vec::new();
        args.push(String::from_str("--prefix"));
        args.push(self.dist());
        let mut flags = self.get_args(command);
        let ghost head = views(args@);
        let ghost tail = views(flags@);
        args.append(&mut flags);
        assert(views(args@) =~= head + tail);
        if command.is_dev() {
            args.push(String::from_str("--enable-debug"));
        }
        proof {
            reveal_strlit("--prefix");
            reveal_strlit("--enable-debug");
        }
        assert(views(args@) =~= seq!["--prefix"@, join_path(self.0@, "dist"@)] + configure_flags(
            *command,
        ) + (if *command matches Commands::Install { debug: true, .. } { seq!["--enable-debug"@] } else { Seq::empty() }));
        args
    }
}

} // verus!
