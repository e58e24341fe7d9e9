use veal::paths::app_data_dir_path;
use veal::paths::get_config_path;

#[test]
fn config_path_is_config_json_in_data_dir() {
    assert_eq!(get_config_path("/home/u/.config/veal"), "/home/u/.config/veal/config.json");
}

#[test]
fn config_path_no_double_separator() {
    assert_eq!(get_config_path("/home/u/.config/veal/"), "/home/u/.config/veal/config.json");
}

#[test]
fn config_path_in_empty_dir_is_bare_name() {
    assert_eq!(get_config_path(""), "config.json");
}

#[test]
fn data_dir_under_platform_config_dir() {
    assert_eq!(app_data_dir_path(Some("/home/u/.config")), "/home/u/.config/veal");
}

#[test]
fn data_dir_falls_back_to_current_dir() {
    assert_eq!(app_data_dir_path(None), "./veal");
}

#[test]
fn config_path_from_fallback_data_dir() {
    let dir = app_data_dir_path(None);
    assert_eq!(get_config_path(&dir), "./veal/config.json");
}
