use trimangees::config::{parse_u8, trim_matches, u8_to_string, Config, ConfigManager};

fn same(a: &Config, b: &Config) -> bool {
    a.wallpaper == b.wallpaper
        && a.theme == b.theme
        && a.accent_color == b.accent_color
        && a.default_browser == b.default_browser
        && a.default_terminal == b.default_terminal
        && a.accent_r == b.accent_r
        && a.accent_g == b.accent_g
        && a.accent_b == b.accent_b
        && a.wallpaper_preset == b.wallpaper_preset
}

#[test]
fn default_settings() {
    let c = Config::default();
    assert_eq!(c.wallpaper, "galaxy.jpg");
    assert_eq!(c.theme, "dark");
    assert_eq!(c.accent_color, "purple");
    assert_eq!(c.default_browser, "Browser");
    assert_eq!(c.default_terminal, "Terminal");
    assert_eq!((c.accent_r, c.accent_g, c.accent_b), (72, 138, 240));
    assert_eq!(c.wallpaper_preset, 0);
}

#[test]
fn empty_file_gives_defaults() {
    assert!(same(&Config::parse(""), &Config::default()));
}

#[test]
fn parse_reads_known_keys() {
    let text = "# comment = ignored\n  theme = \"light\"  \r\nwallpaper=beach.png\nno equals here\nwallpaper_preset = 3\naccent_color = \"\"red\"\"\naccent_r = 10\naccent_g = +7\naccent_b = 300\nunknown = 5\n";
    let c = Config::parse(text);
    assert_eq!(c.theme, "light");
    assert_eq!(c.wallpaper, "beach.png");
    assert_eq!(c.wallpaper_preset, 3);
    assert_eq!(c.accent_color, "red");
    assert_eq!(c.accent_r, 10);
    assert_eq!(c.accent_g, 7);
    assert_eq!(c.accent_b, 240);
    assert_eq!(c.default_browser, "Browser");
}

#[test]
fn bad_numbers_fall_back_to_defaults() {
    let c = Config::parse("accent_r = -1\naccent_g = x\nwallpaper_preset = 256\naccent_b = ");
    assert_eq!((c.accent_r, c.accent_g, c.accent_b, c.wallpaper_preset), (72, 138, 240, 0));
}

#[test]
fn value_keeps_text_after_first_equals() {
    let c = Config::parse("theme = a=b");
    assert_eq!(c.theme, "a=b");
}

#[test]
fn saved_text_of_defaults() {
    assert_eq!(
        Config::default().to_text(),
        "# Trimangees OS \u{2014} shell config\ntheme = \"dark\"\nwallpaper = \"galaxy.jpg\"\nwallpaper_preset = 0\naccent_color = \"purple\"\naccent_r = 72\naccent_g = 138\naccent_b = 240\n"
    );
}

#[test]
fn save_then_load_round_trips() {
    let mut c = Config::default();
    c.theme = "light mode".to_string();
    c.wallpaper = "my = pic.png".to_string();
    c.accent_color = String::new();
    c.accent_r = 0;
    c.accent_g = 9;
    c.accent_b = 255;
    c.wallpaper_preset = 100;
    let back = Config::parse(&c.to_text());
    assert!(same(&back, &c));
}

#[test]
fn u8_parsing_follows_str_parse() {
    assert_eq!(parse_u8("255"), Some(255));
    assert_eq!(parse_u8("256"), None);
    assert_eq!(parse_u8(""), None);
    assert_eq!(parse_u8("+"), None);
    assert_eq!(parse_u8("-1"), None);
    assert_eq!(parse_u8("007"), Some(7));
    assert_eq!(parse_u8("+12"), Some(12));
    assert_eq!(parse_u8(" 1"), None);
}

#[test]
fn u8_printing() {
    assert_eq!(u8_to_string(0), "0");
    assert_eq!(u8_to_string(9), "9");
    assert_eq!(u8_to_string(10), "10");
    assert_eq!(u8_to_string(255), "255");
}

#[test]
fn trim_matches_strips_all_quotes() {
    assert_eq!(trim_matches("\"\"x\"\"", '"'), "x");
    assert_eq!(trim_matches("\"\"\"", '"'), "");
    assert_eq!(trim_matches("a\"b", '"'), "a\"b");
}

#[test]
fn config_manager_setters() {
    let mut m = ConfigManager::new();
    m.set_wallpaper("forest.png");
    m.set_theme("light");
    assert_eq!(m.get_config().wallpaper, "forest.png");
    assert_eq!(m.get_config().theme, "light");
    assert_eq!(m.get_config().accent_color, "purple");
    assert_eq!(
        m.print_settings(),
        vec![
            "Current Settings:",
            "Wallpaper: forest.png",
            "Theme: light",
            "Accent: purple",
            "Browser: Browser",
            "Terminal: Terminal"
        ]
    );
}
