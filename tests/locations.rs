use dotmatrix::config::Config;
use dotmatrix::{
    get_archives_path_with_config, get_config_dir, get_config_path, get_data_dir, get_data_dir_with_config,
    get_default_data_dir, get_index_path, get_index_path_with_config, get_storage_path,
    get_storage_path_with_config, LocationError, Locations,
};

fn ctx() -> Locations {
    Locations {
        home: Some("/home/bob".to_string()),
        config_base: Some("/home/bob/.config".to_string()),
        data_base: Some("/home/bob/.local/share".to_string()),
    }
}

#[test]
fn default_directories() {
    let l = ctx();
    assert_eq!(get_config_dir(&l).unwrap(), "/home/bob/.config/dotmatrix");
    assert_eq!(get_config_path(&l).unwrap(), "/home/bob/.config/dotmatrix/config.toml");
    assert_eq!(get_default_data_dir(&l).unwrap(), "/home/bob/.local/share/dotmatrix");
    assert_eq!(get_data_dir(&l, None).unwrap(), "/home/bob/.local/share/dotmatrix");
    assert_eq!(get_index_path(&l, None).unwrap(), "/home/bob/.local/share/dotmatrix/index.json");
    assert_eq!(get_storage_path(&l, None).unwrap(), "/home/bob/.local/share/dotmatrix/storage");
}

#[test]
fn configured_data_directory() {
    let l = ctx();
    let mut c = Config::default();
    c.data_dir = Some("~/dots".to_string());
    assert_eq!(get_data_dir_with_config(&l, &c).unwrap(), "/home/bob/dots");
    assert_eq!(get_data_dir(&l, Some(&c)).unwrap(), "/home/bob/dots");
    assert_eq!(get_index_path_with_config(&l, &c).unwrap(), "/home/bob/dots/index.json");
    assert_eq!(get_storage_path_with_config(&l, &c).unwrap(), "/home/bob/dots/storage");
    assert_eq!(get_archives_path_with_config(&l, &c).unwrap(), "/home/bob/dots/archives");
}

#[test]
fn unknown_directories_are_errors() {
    let l = Locations { home: None, config_base: None, data_base: None };
    assert_eq!(get_config_dir(&l), Err(LocationError::NoConfigDir));
    assert_eq!(get_config_path(&l), Err(LocationError::NoConfigDir));
    assert_eq!(get_data_dir(&l, None), Err(LocationError::NoDataDir));
}
