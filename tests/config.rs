use otree::config::{default_colors, default_icons, Config, StyleConfig};

#[test]
fn default_icons_and_colors() {
    let icons = default_icons();
    assert_eq!(
        [icons.str, icons.null, icons.number, icons.object, icons.array, icons.bool],
        ["str", "null", "num", "obj", "arr", "bool"].map(String::from)
    );
    let colors = default_colors();
    assert_eq!(colors.tree_icon.fg, "cyan");
    assert!(colors.tree_icon.bold && colors.tree_icon.italic && !colors.tree_icon.underline);
    assert_eq!(colors.tree_focus.bg, "light_green");
    let cfg = Config::default();
    assert_eq!(cfg.colors.tree_null.fg, "dark_gray");
    let s = StyleConfig::new("red", "", false, true, true);
    assert_eq!((s.fg.as_str(), s.bg.as_str(), s.bold, s.italic, s.underline), ("red", "", false, true, true));
}

#[test]
fn default_config_validates() {
    let mut cfg = Config::default();
    assert!(cfg.validate().is_ok());
    assert_eq!(cfg.tree_platte.icon.fg.as_deref(), Some("cyan"));
    assert!(cfg.tree_platte.icon.bold && cfg.tree_platte.icon.italic);
    assert_eq!(cfg.tree_platte.focus.bg.as_deref(), Some("light_green"));
    assert_eq!(cfg.tree_platte.name.fg, None);
}

#[test]
fn invalid_color_names_its_role() {
    let mut cfg = Config::default();
    cfg.colors.tree_value = StyleConfig::new("not-a-colour", "", false, false, false);
    cfg.colors.tree_border = StyleConfig::new("", "nope", false, false, false);
    let err = match cfg.validate() {
        Err(e) => e,
        Ok(()) => panic!("an unknown colour must fail"),
    };
    assert_eq!(err.role, "tree_value");
    assert!(!err.message.is_empty());
    assert_eq!(cfg.tree_platte.icon.fg, None);
}

#[test]
fn style_parse_sets_colours_and_modifiers() {
    let s = StyleConfig::new("red", "#00ff00", true, false, true).parse().unwrap();
    assert_eq!(s.fg.as_deref(), Some("red"));
    assert_eq!(s.bg.as_deref(), Some("#00ff00"));
    assert!(s.bold && !s.italic && s.underline);
    assert!(StyleConfig::new("", "", false, false, false).parse().is_ok());
    assert!(StyleConfig::new("", "purplish", false, false, false).parse().is_err());
}
