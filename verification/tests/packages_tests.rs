use palawan_installer::packages::{load_hyprland_packages, parse_packages, parse_packages_arg, PackageListError};

fn strs(v: &[&str]) -> Vec<String> {
    v.iter().map(|s| s.to_string()).collect()
}

#[test]
fn package_lists() {
    let text = "# base\nbase-devel\n\n  git  \r\n#comment\nneovim\n";
    assert_eq!(parse_packages(text, None).unwrap(), strs(&["base-devel", "git", "neovim"]));
    assert_eq!(parse_packages("a\nb", Some("x")).unwrap(), strs(&["a", "b"]));
}

#[test]
fn empty_package_lists() {
    let err = parse_packages("# nothing\n\n   \n", None).unwrap_err();
    assert_eq!(err, PackageListError::NoPackages { source: "embedded package list".to_string() });
    assert_eq!(err.message(), "no packages found in embedded package list");
    let err = parse_packages("", Some("/tmp/list.txt")).unwrap_err();
    assert_eq!(err.message(), "no packages found in /tmp/list.txt");
}

#[test]
fn hyprland_list() {
    assert_eq!(load_hyprland_packages("hyprland\nwaybar\n").unwrap(), strs(&["hyprland", "waybar"]));
    assert_eq!(
        load_hyprland_packages("\n").unwrap_err().message(),
        "no packages found in hyprland.txt"
    );
}

#[test]
fn packages_arg() {
    assert_eq!(parse_packages_arg(&strs(&["prog", "--packages-file", "a.txt"])), Some("a.txt".to_string()));
    assert_eq!(parse_packages_arg(&strs(&["prog", "--packages-file=b.txt"])), Some("b.txt".to_string()));
    assert_eq!(parse_packages_arg(&strs(&["prog", "--packages-file"])), None);
    assert_eq!(
        parse_packages_arg(&strs(&["prog", "--packages-file=", "--packages-file", "c"])),
        Some("c".to_string())
    );
    assert_eq!(parse_packages_arg(&strs(&["--packages-file=x"])), None);
    assert_eq!(parse_packages_arg(&strs(&["prog", "other"])), None);
    assert_eq!(parse_packages_arg(&vec![]), None);
}
