use xpm::settings::{build_config, config_path, parse_pacman_repos, pick_theme, start_theme, AppConfig};
use xpm::theme::{apply_custom_theme, apply_theme, catppuccin_macchiato, default_dark, CustomColors};

fn colors(base: &str) -> CustomColors {
    CustomColors {
        base: base.to_string(),
        surface: "#202020".to_string(),
        text: "#ffffff".to_string(),
        accent: "#3366ff".to_string(),
        success: "#00ff00".to_string(),
        danger: "#ff0000".to_string(),
    }
}

#[test]
fn settings_have_defaults() {
    let c = AppConfig::default();
    assert_eq!(c.theme, "catppuccin-macchiato");
    assert!(c.custom_colors.is_none());
    assert!(c.flatpak_enabled);
    assert!(!c.check_updates_on_start);
    assert_eq!(AppConfig::or_default(None).theme, "catppuccin-macchiato");
    let read = build_config("default-dark", &colors("#000000"), false, true);
    let c = AppConfig::or_default(Some(read));
    assert_eq!(c.theme, "default-dark");
    assert!(!c.flatpak_enabled);
    assert!(c.check_updates_on_start);
}

#[test]
fn settings_are_kept_in_the_home_directory() {
    assert_eq!(config_path(Some("/home/a".to_string())), "/home/a/.config/xpm/config.json");
    assert_eq!(config_path(None), "/tmp/.config/xpm/config.json");
}

#[test]
fn colours_are_kept_for_the_custom_theme_only() {
    let c = build_config("custom", &colors("#101010"), true, false);
    assert_eq!(c.custom_colors.map(|c| c.base), Some("#101010".to_string()));
    let c = build_config("default-dark", &colors("#101010"), true, false);
    assert!(c.custom_colors.is_none());
}

#[test]
fn themes_are_picked_by_name() {
    let c = colors("#101010");
    assert_eq!(pick_theme("default-dark", &c), Some(apply_theme(&default_dark())));
    assert_eq!(pick_theme("catppuccin-macchiato", &c), Some(apply_theme(&catppuccin_macchiato())));
    assert_eq!(pick_theme("custom", &c), Some(apply_custom_theme(&c)));
    assert_eq!(pick_theme("other", &c), None);
    assert_eq!(start_theme("catppuccin-macchiato", &c), None);
    assert_eq!(start_theme("default-dark", &c), Some(apply_theme(&default_dark())));
    assert_eq!(start_theme("custom", &c), Some(apply_custom_theme(&c)));
}

#[test]
fn saved_themes_come_back() {
    for name in ["default-dark", "catppuccin-macchiato", "custom", "other"] {
        let shown = colors("#123456");
        let saved = build_config(name, &shown, true, true);
        let read = saved.custom_colors.unwrap_or(colors("#654321"));
        assert_eq!(pick_theme(&saved.theme, &read), pick_theme(name, &shown));
    }
}

#[test]
fn repositories_are_the_sections() {
    let conf = "# pacman\n[options]\nHoldPkg = pacman\n\n [core] \nInclude = x\n#[testing]\n[extra]\n[]\n[";
    assert_eq!(parse_pacman_repos(&Some(conf.to_string())), vec!["core", "extra", ""]);
    assert!(parse_pacman_repos(&None).is_empty());
}
