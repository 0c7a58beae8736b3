use asciinema::config::{
    check_legacy_config_file, config_home, install_id_path, join_path, parse_key, state_home,
    user_config_path, Dirs,
};

fn dirs(
    asciinema_config_home: Option<&str>,
    xdg_config_home: Option<&str>,
    home: Option<&str>,
) -> Dirs {
    Dirs {
        asciinema_config_home: asciinema_config_home.map(str::to_owned),
        xdg_config_home: xdg_config_home.map(str::to_owned),
        asciinema_state_home: None,
        xdg_state_home: None,
        home: home.map(str::to_owned),
    }
}

#[test]
fn key_definitions() {
    assert_eq!(parse_key(""), Ok(None));
    assert_eq!(parse_key(" "), Ok(Some(vec![b' '])));
    assert_eq!(parse_key("ż"), Ok(Some("ż".as_bytes().to_vec())));
    assert_eq!(parse_key("^a"), Ok(Some(vec![0x01])));
    assert_eq!(parse_key("^Z"), Ok(Some(vec![0x1a])));
    assert_eq!(parse_key("C-\\"), Err("invalid key definition 'C-\\'".to_owned()));
    assert_eq!(parse_key("c+b"), Ok(Some(vec![0x02])));
    assert_eq!(parse_key("C-x"), Ok(Some(vec![0x18])));
    assert_eq!(parse_key("^1"), Err("invalid key definition '^1'".to_owned()));
    assert_eq!(parse_key("abcd"), Err("invalid key definition 'abcd'".to_owned()));
}

#[test]
fn config_directories() {
    assert_eq!(
        config_home(&dirs(Some("/a"), Some("/x"), Some("/home/u"))),
        Ok("/a".to_owned())
    );
    assert_eq!(
        config_home(&dirs(None, Some("/x"), Some("/home/u"))),
        Ok("/x/asciinema".to_owned())
    );
    assert_eq!(
        config_home(&dirs(None, None, Some("/home/u/"))),
        Ok("/home/u/.config/asciinema".to_owned())
    );
    assert_eq!(
        config_home(&dirs(None, None, None)),
        Err("need $HOME or $XDG_CONFIG_HOME or $ASCIINEMA_CONFIG_HOME".to_owned())
    );
    assert_eq!(
        user_config_path(&dirs(None, None, Some("/home/u"))),
        Ok("/home/u/.config/asciinema/config.toml".to_owned())
    );
    assert_eq!(
        state_home(&dirs(None, None, Some("/home/u"))),
        Ok("/home/u/.local/state/asciinema".to_owned())
    );
    assert_eq!(
        install_id_path(&dirs(None, None, Some("/home/u"))),
        Ok("/home/u/.local/state/asciinema/install-id".to_owned())
    );
    assert_eq!(join_path("", "x"), "x");
}

#[test]
fn legacy_config_warnings() {
    assert!(check_legacy_config_file("/c/config", "/c/config.toml", false, false).is_empty());
    assert!(check_legacy_config_file("/c/config", "/c/config.toml", true, true).is_empty());

    let warnings = check_legacy_config_file("/c/config", "/c/config.toml", true, false);
    assert_eq!(warnings.len(), 3);
    assert_eq!(
        warnings[0],
        "Your config file at /c/config uses the location and format from asciinema 2.x."
    );
    assert_eq!(
        warnings[1],
        "For asciinema 3.x (this version) create a new config file at /c/config.toml."
    );
}
