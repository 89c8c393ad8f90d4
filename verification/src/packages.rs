use vstd::prelude::*;
use crate::text::{chars_of, chars_eq, lines_of, lines_spec, opt_view, slice_chars, starts_with, starts_with_chars, string_of, trim, trim_chars};

verus! {

/// Why a package list could not be used.
#[derive(Clone, Debug, PartialEq, Eq)]
pub enum PackageListError {
    /// The list names no package; `source` says which list it was.
    NoPackages { source: String },
}

impl PackageListError {
    /// The human-readable description of the error.
    pub fn message(&self) -> (r: String)
        ensures
            match self {
                PackageListError::NoPackages { source } => r@ == "no packages found in "@ + source@,
            },
    {
        match self {
            PackageListError::NoPackages { source } => {
                let mut m = "no packages found in ".to_string();
                m.append(source.as_str());
                m
            },
        }
    }
}

/// Whether a trimmed line names a package: it is neither empty nor a `#` comment.
pub open spec fn is_package_line(t: Seq<char>) -> bool {
    t.len() > 0 && t[0] != '#'
}

/// The package names of a list: each line trimmed, keeping those that are
/// neither empty nor comments, in order.
pub open spec fn package_names(lines: Seq<Seq<char>>) -> Seq<Seq<char>>
    decreases lines.len(),
{
    if lines.len() == 0 {
        Seq::empty()
    } else {
        let prev = package_names(lines.drop_last());
        let t = trim(lines.last());
        if is_package_line(t) {
            prev.push(t)
        } else {
            prev
        }
    }
}

/// The name that an error about an unnamed list uses.
pub open spec fn list_source_name(source: Option<Seq<char>>) -> Seq<char> {
    match source {
        Some(s) => s,
        None => "embedded package list"@,
    }
}

/// Parses a package list: one package per line, blank lines and `#` comments
/// ignored. A list without any package is an error naming `source`.
pub fn parse_packages(text: &str, source: Option<&str>) -> (r: Result<Vec<String>, PackageListError>)
    ensures
        match r {
            Ok(pkgs) => pkgs.deep_view() == package_names(lines_spec(text@)) && pkgs.len() > 0,
            Err(PackageListError::NoPackages { source: s }) => package_names(lines_spec(text@)).len()
                == 0 && s@ == list_source_name(
                match source {
                    Some(x) => Some(x@),
                    None => None,
                },
            ),
        },
{
    let lines = lines_of(text);
    let ghost ls = lines.deep_view();
    let mut packages: Vec<String> = Vec::new();
    let mut i: usize = 0;
    assert(packages.deep_view() =~= package_names(ls.take(0)));
    while i < lines.len()
        invariant
            i <= lines.len(),
            ls == lines.deep_view(),
            packages.deep_view() == package_names(ls.take(i as int)),
        decreases lines.len() - i,
    {
        assert(ls.take(i + 1).drop_last() =~= ls.take(i as int));
        assert(ls.take(i + 1).last() == lines@[i as int]@);
        let t = trim_chars(&chars_of(lines[i].as_str()));
        if t.len() > 0 && t[0] != '#' {
            let ghost before = packages.deep_view();
            packages.push(string_of(&t));
            assert(packages.deep_view() =~= before.push(t@));
        }
        i += 1;
    }
    assert(ls.take(lines.len() as int) =~= ls);
    if packages.len() == 0 {
        let name = match source {
            Some(s) => s.to_string(),
            None => "embedded package list".to_string(),
        };
        return Err(PackageListError::NoPackages { source: name });
    }
    Ok(packages)
}

/// Parses the Hyprland package list.
pub fn load_hyprland_packages(contents: &str) -> (r: Result<Vec<String>, PackageListError>)
    ensures
        match r {
            Ok(pkgs) => pkgs.deep_view() == package_names(lines_spec(contents@)) && pkgs.len() > 0,
            Err(PackageListError::NoPackages { source: s }) => package_names(lines_spec(contents@)).len()
                == 0 && s@ == "hyprland.txt"@,
        },
{
    parse_packages(contents, Some("hyprland.txt"))
}

/// The value of the package-list option among the arguments from index `i` on:
/// `--packages-file PATH` gives the next argument (none if there is none), and
/// `--packages-file=PATH` gives `PATH` when it is not empty.
pub open spec fn packages_arg_from(args: Seq<Seq<char>>, i: int) -> Option<Seq<char>>
    decreases args.len() - i,
{
    if i < 0 || i >= args.len() {
        None
    } else if args[i] == "--packages-file"@ {
        if i + 1 < args.len() {
            Some(args[i + 1])
        } else {
            None
        }
    } else if starts_with(args[i], "--packages-file="@) && args[i].len() > 16 {
        Some(args[i].subrange(16, args[i].len() as int))
    } else {
        packages_arg_from(args, i + 1)
    }
}

/// The package-list path given on the command line; `args` starts with the
/// program name, which is not looked at.
pub fn parse_packages_arg(args: &Vec<String>) -> (r: Option<String>)
    ensures
        opt_view(r) == packages_arg_from(args.deep_view(), 1),
{
    let ghost av = args.deep_view();
    let flag = chars_of("--packages-file");
    let prefix = chars_of("--packages-file=");
    proof {
        reveal_strlit("--packages-file=");
    }
    let mut i: usize = 1;
    while i < args.len()
        invariant
            1 <= i,
            av == args.deep_view(),
            flag@ == "--packages-file"@,
            prefix@ == "--packages-file="@,
            prefix@.len() == 16,
            packages_arg_from(av, 1) == packages_arg_from(av, i as int),
        decreases args.len() - i,
    {
        assert(av[i as int] == args@[i as int]@);
        let a = chars_of(args[i].as_str());
        if chars_eq(&a, &flag) {
            if i + 1 < args.len() {
                assert(av[i + 1] == args@[i + 1]@);
                return Some(args[i + 1].clone());
            } else {
                return None;
            }
        }
        if starts_with_chars(&a, &prefix) && a.len() > 16 {
            let v = slice_chars(&a, 16, a.len());
            return Some(string_of(&v));
        }
        i += 1;
    }
    None
}

} // verus!
