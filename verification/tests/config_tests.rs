use dotrepo::config::{config_file, config_file_in};
use dotrepo::{Config, Error};

#[test]
fn config_file_has_a_fixed_name_in_the_configuration_directory() {
    assert_eq!(config_file_in(b"/home/alice/.config"), b"/home/alice/.config/dotrepo.toml".to_vec());
    assert_eq!(config_file_in(b"/etc/"), b"/etc/dotrepo.toml".to_vec());
    assert_eq!(config_file_in(b"/"), b"/dotrepo.toml".to_vec());
}

#[test]
fn config_file_is_in_the_directory_that_dirs_finds() {
    let dir = dirs::config_dir().map(|dir| dir.into_os_string().into_encoded_bytes());
    match dir {
        Some(dir) => assert_eq!(config_file(), Ok(config_file_in(&dir))),
        None => assert_eq!(config_file(), Err(Error::NoConfigDir)),
    }
}

#[test]
fn config_expands_the_repository_directory() {
    let home = Some(&b"/home/alice"[..]);
    assert_eq!(
        Config::resolve_in(b"~/dotfiles", home),
        Some(Config { repo_dir: b"/home/alice/dotfiles".to_vec() })
    );
    assert_eq!(Config::resolve_in(b"~", home), Some(Config { repo_dir: b"/home/alice".to_vec() }));
    assert_eq!(Config::resolve_in(b"/repo", home), Some(Config { repo_dir: b"/repo".to_vec() }));
    assert_eq!(Config::resolve_in(b"/repo", None), Some(Config { repo_dir: b"/repo".to_vec() }));
}

#[test]
fn config_needs_a_home_directory_for_a_tilde() {
    assert_eq!(Config::resolve_in(b"~/dotfiles", None), None);
    assert_eq!(Config::resolve_in(b"~", None), None);
}

#[test]
fn config_resolves_against_the_home_directory_that_dirs_finds() {
    let home = dirs::home_dir().map(|dir| dir.into_os_string().into_encoded_bytes());
    assert_eq!(Config::resolve(b"/repo"), Some(Config { repo_dir: b"/repo".to_vec() }));
    assert_eq!(Config::resolve(b"~/dotfiles"), Config::resolve_in(b"~/dotfiles", home.as_deref()));
}

#[test]
fn errors_say_what_went_wrong() {
    assert_eq!(Error::NoConfigDir.message(), "Failed to obtain the user's config directory");
    assert_eq!(Error::NoCommonAncestor.message(), "base cannot be a prefix of target");
    assert_eq!(Error::Io("No such file or directory".to_string()).message(), "No such file or directory");
    assert_eq!(Error::Config("missing field `repo_dir`".to_string()).message(), "missing field `repo_dir`");
}
