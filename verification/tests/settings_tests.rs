use ollie::settings::{default_server_url, settings_path};
use ollie::models::{delete_endpoint, show_endpoint, tags_endpoint};
use ollie::text::{concat_str, u16_to_string};

#[test]
fn settings_file_lives_under_the_config_dir() {
    assert_eq!(settings_path("/home/u/.config/ollie"), "/home/u/.config/ollie/settings.json");
    assert_eq!(settings_path(""), "/settings.json");
}

#[test]
fn default_url_points_at_the_local_server() {
    assert_eq!(default_server_url(), "http://localhost:11434");
}

#[test]
fn endpoints_append_their_paths() {
    assert_eq!(tags_endpoint("http://h:1"), "http://h:1/api/tags");
    assert_eq!(delete_endpoint("http://h:1"), "http://h:1/api/delete");
    assert_eq!(show_endpoint("http://h:1"), "http://h:1/api/show");
}

#[test]
fn concatenation_preserves_non_ascii_text() {
    assert_eq!(concat_str("café ", "naïve"), "café naïve");
    assert_eq!(concat_str("", ""), "");
}

#[test]
fn decimal_rendering_matches() {
    assert_eq!(u16_to_string(0), "0");
    assert_eq!(u16_to_string(7), "7");
    assert_eq!(u16_to_string(10), "10");
    assert_eq!(u16_to_string(500), "500");
    assert_eq!(u16_to_string(65535), "65535");
}
