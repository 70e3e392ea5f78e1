use pacfront::config::{Config, Rgb};

fn theme() -> [Rgb; 12] {
    let mut colors = [[0u8; 3]; 12];
    colors[0] = [0, 125, 255];
    colors[11] = [0, 245, 232];
    colors
}

#[test]
fn default_config_has_no_custom_theme() {
    assert_eq!(Config::default().color_theme, None);
}

#[test]
fn missing_config_falls_back_to_the_default() {
    assert_eq!(Config::load_or_default(None).color_theme, None);
}

#[test]
fn loaded_config_is_taken_as_it_is() {
    let stored = Config { color_theme: Some(theme()) };
    assert_eq!(Config::load_or_default(Some(stored)).color_theme, Some(theme()));
    let plain = Config { color_theme: None };
    assert_eq!(Config::load_or_default(Some(plain)).color_theme, None);
}

#[test]
fn the_theme_in_use_is_taken_over() {
    let mut cfg = Config::default();
    cfg.set_color_theme(Some(theme()));
    assert_eq!(cfg.color_theme, Some(theme()));
    cfg.set_color_theme(None);
    assert_eq!(cfg.color_theme, None);
}

#[test]
fn a_theme_reads_back_from_ron_as_it_was_written() {
    for color_theme in [None, Some(theme()), Some([[255u8; 3]; 12])] {
        let cfg = Config { color_theme };
        let text =
            ron::ser::to_string_pretty(&cfg.color_theme, ron::ser::PrettyConfig::default())
                .unwrap();
        let back: Option<[Rgb; 12]> = ron::from_str(&text).unwrap();
        assert_eq!(Config::load_or_default(Some(Config { color_theme: back })).color_theme, color_theme);
    }
}
