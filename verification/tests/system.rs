use dotfiles_installer::system::{
    check_root, hostname, invalid_sudoers_message, set_timezone, sudoers, unknown_timezone_message,
};

fn s(x: &str) -> String {
    x.to_string()
}

#[test]
fn root_check() {
    assert_eq!(check_root(Some("root")), Ok(()));
    assert_eq!(check_root(Some("alice")), Err(s("This program must be run as root. Use sudo.")));
    assert_eq!(check_root(None), Err(s("Could not determine current user")));
}

#[test]
fn system_files() {
    assert_eq!(hostname("box", true), Ok(s("box\n")));
    assert_eq!(hostname("", true), Err(s("Hostname cannot be emty")));
    assert_eq!(hostname("", false), Err(s("Run with sudo")));
    assert_eq!(sudoers("%wheel ALL=(ALL) ALL", true), Ok(s("%wheel ALL=(ALL) ALL\n")));
    assert_eq!(sudoers("", true), Err(s("sudoers cannot be emty")));
    assert_eq!(sudoers("x", false), Err(s("Run with sudo")));
    assert_eq!(invalid_sudoers_message("bad"), s("Invalid sudoers syntax: 'bad'"));
    assert_eq!(set_timezone("Europe/Berlin", true), Ok(s("/usr/share/zoneinfo/Europe/Berlin")));
    assert_eq!(set_timezone("", true), Err(s("Timezone cannot be empty")));
    assert_eq!(set_timezone("UTC", false), Err(s("Root privileges required. Run with sudo.")));
    assert_eq!(
        unknown_timezone_message("Mars/Base"),
        s("Timezone 'Mars/Base' not found in /usr/share/zoneinfo/")
    );
}
