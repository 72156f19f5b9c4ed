use slipcase_desktop::opens_with::linux::{is_a_path, name_in, names_a_plain_file, said};
use slipcase_desktop::opens_with::{macos, windows};

#[test]
fn a_name_without_an_extension_gives_nothing() {
    assert_eq!(macos::extension_of("README"), None);
}

#[test]
fn a_leading_dot_is_not_an_extension() {
    assert_eq!(macos::extension_of(".bash_profile"), None);
}

#[test]
fn a_trailing_dot_gives_nothing() {
    assert_eq!(macos::extension_of("archive."), None);
}

#[test]
fn the_last_extension_of_a_compound_name_wins() {
    assert_eq!(macos::extension_of("a.tar.gz"), Some("gz"));
}

#[test]
fn a_name_carrying_a_separator_is_refused() {
    assert_eq!(macos::extension_of("/etc/passwd.pdf"), None);
    assert_eq!(macos::extension_of("dir\\report.pdf"), None);
}

#[test]
fn the_case_of_an_extension_is_left_alone() {
    assert_eq!(macos::extension_of("REPORT.PDF"), Some("PDF"));
}

#[test]
fn a_name_that_is_dots_has_no_extension() {
    assert_eq!(macos::extension_of(".."), None);
    assert_eq!(macos::extension_of("."), None);
    assert_eq!(macos::extension_of(""), None);
    assert_eq!(macos::extension_of("..x"), Some("x"));
}

#[test]
fn the_extension_is_everything_after_the_last_dot() {
    assert_eq!(windows::extension_of("report.tar.gz").as_deref(), Some(".gz"));
    assert_eq!(windows::extension_of(".gitignore").as_deref(), Some(".gitignore"));
    assert_eq!(windows::extension_of("report.pdf").as_deref(), Some(".pdf"));
}

#[test]
fn a_name_without_an_extension_asks_nothing() {
    assert_eq!(windows::extension_of("README"), None);
    assert_eq!(windows::extension_of("report."), None);
    assert_eq!(windows::extension_of(""), None);
    assert_eq!(windows::extension_of("sub\\report.pdf"), None);
}

#[test]
fn the_executable_comes_out_of_either_shape_of_command() {
    assert_eq!(
        windows::exe_path_in(
            r#""C:\Program Files (x86)\Microsoft\Edge\Application\msedge.exe" --single-argument %1"#
        ),
        Some(r"C:\Program Files (x86)\Microsoft\Edge\Application\msedge.exe")
    );
    assert_eq!(
        windows::exe_path_in(r"C:\Windows\system32\notepad.exe %1"),
        Some(r"C:\Windows\system32\notepad.exe")
    );
    assert_eq!(
        windows::exe_path_in(r"C:\Windows\Explorer.exe /idlist,%I,%L"),
        Some(r"C:\Windows\Explorer.exe")
    );
    assert_eq!(windows::exe_path_in(""), None);
    assert_eq!(windows::exe_path_in(r#""C:\unterminated.exe %1"#), None);
}

#[test]
fn an_empty_quoted_command_names_nothing() {
    assert_eq!(windows::exe_path_in(r#""" %1"#), None);
    assert_eq!(windows::exe_path_in("   "), None);
    assert_eq!(windows::exe_path_in("  notepad.exe"), Some("notepad.exe"));
}

#[test]
fn an_unknown_variable_is_left_standing() {
    let known = |name: &str| (name == "SystemRoot").then(|| r"C:\Windows".to_owned());
    assert_eq!(
        windows::expand_in(r"%SystemRoot%\system32\notepad.exe", known),
        r"C:\Windows\system32\notepad.exe"
    );
    assert_eq!(
        windows::expand_in(r"%NotSet%\system32\notepad.exe", known),
        r"%NotSet%\system32\notepad.exe"
    );
    assert_eq!(windows::expand_in(r"C:\bare\path.exe", known), r"C:\bare\path.exe");
    assert_eq!(windows::expand_in("%unclosed", known), "%unclosed");
}

#[test]
fn a_value_put_in_is_not_expanded_again() {
    let looping = |name: &str| (name == "A").then(|| "%A%".to_owned());
    assert_eq!(windows::expand_in("x%A%y%A%", looping), "x%A%y%A%");
    let nothing = |_: &str| None;
    assert_eq!(windows::expand_in("%a%%b%", nothing), "%a%%b%");
}

#[test]
fn a_resource_reference_is_not_a_name() {
    assert!(windows::is_indirect(r"@C:\Windows\system32\notepad.exe,-469"));
    assert!(windows::is_indirect(
        "@{Windows.PrintDialog_6.2.1.0_neutral_neutral_cw5n1h2txyewy?ms-resource://Windows.PrintDialog/resources/DisplayName}"
    ));
    assert!(!windows::is_indirect("Microsoft Edge"));
    assert!(!windows::is_indirect("Notepad"));
}

#[test]
fn a_registry_string_is_trimmed_and_refused_where_empty_or_indirect() {
    assert_eq!(windows::value_shown("  Notepad \r\n").as_deref(), Some("Notepad"));
    assert_eq!(windows::value_shown("   "), None);
    assert_eq!(windows::value_shown(" @C:\\x.dll,-1"), None);
}

#[test]
fn only_a_sole_named_candidate_is_taken() {
    let names = |v: &[&str]| -> Vec<String> { v.iter().map(|s| (*s).to_owned()).collect() };
    assert_eq!(windows::sole_candidate(&names(&["WebpFile"])).as_deref(), Some("WebpFile"));
    assert_eq!(windows::sole_candidate(&names(&[])), None);
    assert_eq!(windows::sole_candidate(&names(&["a", "b"])), None);
    assert_eq!(windows::sole_candidate(&names(&[""])), None);
}

#[test]
fn the_file_name_of_an_executable_is_after_its_last_backslash() {
    assert_eq!(
        windows::file_name_in(r"C:\Windows\system32\notepad.exe"),
        Some("notepad.exe")
    );
    assert_eq!(windows::file_name_in("notepad.exe"), Some("notepad.exe"));
    assert_eq!(windows::file_name_in(r"C:\Windows\"), None);
}

#[test]
fn the_unlocalised_name_of_the_entry_group_wins() {
    let entry = "\
[Desktop Entry]
Type=Application
Name[de]=Dokumentenbetrachter
Name=Document Viewer
Exec=evince %U

[Desktop Action NewWindow]
Name=New Window
";
    assert_eq!(name_in(entry).as_deref(), Some("Document Viewer"));
}

#[test]
fn an_entry_without_a_name_gives_nothing() {
    assert_eq!(name_in("[Desktop Entry]\nType=Application\n"), None);
}

#[test]
fn a_name_outside_the_entry_group_is_not_the_entrys() {
    assert_eq!(name_in("Name=Stray\n[Desktop Action X]\nName=Action\n"), None);
    assert_eq!(name_in("[Desktop Entry]\r\nName=  Viewer  \r\n"), Some("Viewer".to_owned()));
    assert_eq!(name_in("[Desktop Entry]\nName=\nName=Second\n"), Some("Second".to_owned()));
}

#[test]
fn what_xdg_mime_said_is_trimmed() {
    assert_eq!(said("application/pdf\n").as_deref(), Some("application/pdf"));
    assert_eq!(said("\n"), None);
    assert_eq!(said(""), None);
}

#[test]
fn a_payload_name_that_is_a_path_is_not_probed() {
    assert!(names_a_plain_file("report.pdf"));
    assert!(!names_a_plain_file(""));
    assert!(!names_a_plain_file("a/b"));
    assert!(!names_a_plain_file("a\\b"));
    assert!(is_a_path("../evil.desktop"));
    assert!(!is_a_path("org.gnome.Evince.desktop"));
}
