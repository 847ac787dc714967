//! Style configuration: the icon per value type and the colours per role.
use vstd::prelude::*;
use ratatui::style::Color;

verus! {

/// The glyph shown in front of a node's value, one per value type.
pub struct Icons {
    pub str: String,
    pub null: String,
    pub number: String,
    pub object: String,
    pub array: String,
    pub bool: String,
}

/// A colour/emphasis style as written in a configuration: colour names
/// (empty means "unset") and three emphasis flags.
pub struct StyleConfig {
    pub fg: String,
    pub bg: String,
    pub bold: bool,
    pub italic: bool,
    pub underline: bool,
}

/// The style of each visual role of the tree view.
pub struct Colors {
    pub tree_name: StyleConfig,
    pub tree_icon: StyleConfig,
    pub tree_value: StyleConfig,
    pub tree_null: StyleConfig,
    pub tree_focus: StyleConfig,
    pub tree_border: StyleConfig,
}

#[verifier::external_type_specification]
#[verifier::external_body]
pub struct ExColor(Color);

/// A style whose colour names have been checked: each colour is set (with
/// a name that ratatui reads) or unset, and the three emphasis flags.
pub struct StyleSpec {
    pub fg: Option<String>,
    pub bg: Option<String>,
    pub bold: bool,
    pub italic: bool,
    pub underline: bool,
}

/// The resolved styles of the visual roles, from [`Colors`].
pub struct TreePalette {
    pub name: StyleSpec,
    pub icon: StyleSpec,
    pub value: StyleSpec,
    pub null: StyleSpec,
    pub focus: StyleSpec,
    pub border: StyleSpec,
}

/// The whole user-facing configuration, and the palette resolved from it.
pub struct Config {
    pub icons: Icons,
    pub colors: Colors,
    pub tree_platte: TreePalette,
}

/// A style option that does not resolve: which role, and why.
pub struct StyleError {
    pub role: String,
    pub message: String,
}

/// Whether ratatui reads `s` as a colour (a name, an index or a hex code).
pub uninterp spec fn color_accepts(s: Seq<char>) -> bool;

/// Relies on `FromStr` of `ratatui::style::Color`, with the error's message
/// on failure.
#[verifier::external_body]
fn read_color(s: &str) -> (r: Result<Color, String>)
    ensures
        r is Ok <==> color_accepts(s@),
{
    s.parse::<Color>().map_err(|e| e.to_string())
}

/// A colour option resolves: it is unset (empty) or ratatui reads it.
pub open spec fn color_ok(s: Seq<char>) -> bool {
    s.len() == 0 || color_accepts(s)
}

/// Both colours of a style resolve.
pub open spec fn style_ok(s: StyleConfig) -> bool {
    color_ok(s.fg@) && color_ok(s.bg@)
}

/// Every style of the configuration resolves.
pub open spec fn colors_ok(c: Colors) -> bool {
    &&& style_ok(c.tree_name)
    &&& style_ok(c.tree_icon)
    &&& style_ok(c.tree_value)
    &&& style_ok(c.tree_null)
    &&& style_ok(c.tree_focus)
    &&& style_ok(c.tree_border)
}

/// The first role, in the order name, icon, value, null, focus, border,
/// whose style does not resolve.
pub open spec fn first_bad_role(c: Colors) -> Seq<char> {
    if !style_ok(c.tree_name) {
        "tree_name"@
    } else if !style_ok(c.tree_icon) {
        "tree_icon"@
    } else if !style_ok(c.tree_value) {
        "tree_value"@
    } else if !style_ok(c.tree_null) {
        "tree_null"@
    } else if !style_ok(c.tree_focus) {
        "tree_focus"@
    } else {
        "tree_border"@
    }
}

/// A colour option as resolved: unset for an empty name, else that name.
pub open spec fn color_choice(name: Seq<char>, c: Option<String>) -> bool {
    if name.len() == 0 {
        c is None
    } else {
        c matches Some(x) && x@ == name
    }
}

/// `st` is what the option `cfg` resolves to.
pub open spec fn resolves_to(cfg: StyleConfig, st: StyleSpec) -> bool {
    &&& color_choice(cfg.fg@, st.fg)
    &&& color_choice(cfg.bg@, st.bg)
    &&& st.bold == cfg.bold
    &&& st.italic == cfg.italic
    &&& st.underline == cfg.underline
}

/// No colour and no emphasis.
pub open spec fn is_plain(st: StyleSpec) -> bool {
    st.fg is None && st.bg is None && !st.bold && !st.italic && !st.underline
}

impl StyleSpec {
    /// The terminal's plain style.
    pub fn plain() -> (r: Self)
        ensures
            is_plain(r),
    {
        StyleSpec { fg: None, bg: None, bold: false, italic: false, underline: false }
    }
}

impl TreePalette {
    /// Every role in the terminal's plain style.
    pub fn plain() -> (r: Self)
        ensures
            is_plain(r.name) && is_plain(r.icon) && is_plain(r.value),
            is_plain(r.null) && is_plain(r.focus) && is_plain(r.border),
    {
        TreePalette {
            name: StyleSpec::plain(),
            icon: StyleSpec::plain(),
            value: StyleSpec::plain(),
            null: StyleSpec::plain(),
            focus: StyleSpec::plain(),
            border: StyleSpec::plain(),
        }
    }
}

/// A style whose fields are exactly the given ones.
pub open spec fn style_is(
    s: StyleConfig,
    fg: Seq<char>,
    bg: Seq<char>,
    bold: bool,
    italic: bool,
    underline: bool,
) -> bool {
    &&& s.fg@ == fg
    &&& s.bg@ == bg
    &&& s.bold == bold
    &&& s.italic == italic
    &&& s.underline == underline
}

/// The built-in icons.
pub open spec fn default_icons_spec(i: Icons) -> bool {
    &&& i.str@ == "str"@
    &&& i.null@ == "null"@
    &&& i.number@ == "num"@
    &&& i.object@ == "obj"@
    &&& i.array@ == "arr"@
    &&& i.bool@ == "bool"@
}

/// The built-in colours.
pub open spec fn default_colors_spec(c: Colors) -> bool {
    &&& style_is(c.tree_name, ""@, ""@, false, false, false)
    &&& style_is(c.tree_icon, "cyan"@, ""@, true, true, false)
    &&& style_is(c.tree_value, "dark_gray"@, ""@, false, false, false)
    &&& style_is(c.tree_null, "dark_gray"@, ""@, true, false, false)
    &&& style_is(c.tree_focus, "black"@, "light_green"@, true, false, false)
    &&& style_is(c.tree_border, ""@, ""@, false, false, false)
}

impl StyleConfig {
    pub fn new(fg: &str, bg: &str, bold: bool, italic: bool, underline: bool) -> (r: Self)
        ensures
            style_is(r, fg@, bg@, bold, italic, underline),
    {
        StyleConfig { fg: fg.to_owned(), bg: bg.to_owned(), bold, italic, underline }
    }

    /// The resolved style: the colours that are set, and the emphasis
    /// flags. Fails when a colour that is set is not one ratatui reads.
    pub fn parse(&self) -> (r: Result<StyleSpec, String>)
        ensures
            r is Ok <==> style_ok(*self),
            r matches Ok(st) ==> resolves_to(*self, st),
    {
        let fg = if self.fg.as_str().is_empty() {
            None
        } else {
            read_color(self.fg.as_str())?;
            Some(self.fg.clone())
        };
        let bg = if self.bg.as_str().is_empty() {
            None
        } else {
            read_color(self.bg.as_str())?;
            Some(self.bg.clone())
        };
        Ok(StyleSpec { fg, bg, bold: self.bold, italic: self.italic, underline: self.underline })
    }
}

/// Resolves one role's style, naming the role on failure.
fn resolve(s: &StyleConfig, role: &str) -> (r: Result<StyleSpec, StyleError>)
    ensures
        r is Ok <==> style_ok(*s),
        r matches Ok(st) ==> resolves_to(*s, st),
        r matches Err(e) ==> e.role@ == role@,
{
    match s.parse() {
        Ok(style) => Ok(style),
        Err(message) => Err(StyleError { role: role.to_owned(), message }),
    }
}

impl Config {
    /// The configuration used when the user supplies none, with a plain
    /// palette until [`Config::validate`] resolves it.
    pub fn default() -> (r: Self)
        ensures
            default_icons_spec(r.icons),
            default_colors_spec(r.colors),
            is_plain(r.tree_platte.name) && is_plain(r.tree_platte.icon),
            is_plain(r.tree_platte.value) && is_plain(r.tree_platte.null),
            is_plain(r.tree_platte.focus) && is_plain(r.tree_platte.border),
    {
        Config { icons: default_icons(), colors: default_colors(), tree_platte: TreePalette::plain() }
    }

    /// Resolves every colour option into the palette. Fails, naming the
    /// first role in the order name, icon, value, null, focus, border whose
    /// style does not resolve; the palette is then left as it was.
    pub fn validate(&mut self) -> (r: Result<(), StyleError>)
        ensures
            r is Ok <==> colors_ok(old(self).colors),
            r matches Err(e) ==> e.role@ == first_bad_role(old(self).colors),
            r is Err ==> *final(self) == *old(self),
            r is Ok ==> {
                &&& resolves_to(old(self).colors.tree_name, final(self).tree_platte.name)
                &&& resolves_to(old(self).colors.tree_icon, final(self).tree_platte.icon)
                &&& resolves_to(old(self).colors.tree_value, final(self).tree_platte.value)
                &&& resolves_to(old(self).colors.tree_null, final(self).tree_platte.null)
                &&& resolves_to(old(self).colors.tree_focus, final(self).tree_platte.focus)
                &&& resolves_to(old(self).colors.tree_border, final(self).tree_platte.border)
            },
            final(self).icons == old(self).icons,
            final(self).colors == old(self).colors,
    {
        let tp = TreePalette {
            name: resolve(&self.colors.tree_name, "tree_name")?,
            icon: resolve(&self.colors.tree_icon, "tree_icon")?,
            value: resolve(&self.colors.tree_value, "tree_value")?,
            null: resolve(&self.colors.tree_null, "tree_null")?,
            focus: resolve(&self.colors.tree_focus, "tree_focus")?,
            border: resolve(&self.colors.tree_border, "tree_border")?,
        };
        self.tree_platte = tp;
        Ok(())
    }
}

pub fn default_icons() -> (r: Icons)
    ensures
        default_icons_spec(r),
{
    Icons {
        str: default_icons_str(),
        array: default_icons_array(),
        bool: default_icons_bool(),
        null: default_icons_null(),
        number: default_icons_number(),
        object: default_icons_object(),
    }
}

pub fn default_icons_str() -> (r: String)
    ensures
        r@ == "str"@,
{
    "str".to_owned()
}

pub fn default_icons_null() -> (r: String)
    ensures
        r@ == "null"@,
{
    "null".to_owned()
}

pub fn default_icons_number() -> (r: String)
    ensures
        r@ == "num"@,
{
    "num".to_owned()
}

pub fn default_icons_object() -> (r: String)
    ensures
        r@ == "obj"@,
{
    "obj".to_owned()
}

pub fn default_icons_array() -> (r: String)
    ensures
        r@ == "arr"@,
{
    "arr".to_owned()
}

pub fn default_icons_bool() -> (r: String)
    ensures
        r@ == "bool"@,
{
    "bool".to_owned()
}

pub fn default_colors() -> (r: Colors)
    ensures
        default_colors_spec(r),
{
    Colors {
        tree_name: default_colors_tree_name(),
        tree_icon: default_colors_tree_icon(),
        tree_value: default_colors_tree_value(),
        tree_null: default_colors_tree_null(),
        tree_focus: default_colors_tree_focus(),
        tree_border: default_colors_tree_border(),
    }
}

pub fn default_colors_tree_name() -> (r: StyleConfig)
    ensures
        style_is(r, ""@, ""@, false, false, false),
{
    StyleConfig::new("", "", false, false, false)
}

pub fn default_colors_tree_icon() -> (r: StyleConfig)
    ensures
        style_is(r, "cyan"@, ""@, true, true, false),
{
    StyleConfig::new("cyan", "", true, true, false)
}

pub fn default_colors_tree_value() -> (r: StyleConfig)
    ensures
        style_is(r, "dark_gray"@, ""@, false, false, false),
{
    StyleConfig::new("dark_gray", "", false, false, false)
}

pub fn default_colors_tree_null() -> (r: StyleConfig)
    ensures
        style_is(r, "dark_gray"@, ""@, true, false, false),
{
    StyleConfig::new("dark_gray", "", true, false, false)
}

pub fn default_colors_tree_focus() -> (r: StyleConfig)
    ensures
        style_is(r, "black"@, "light_green"@, true, false, false),
{
    StyleConfig::new("black", "light_green", true, false, false)
}

pub fn default_colors_tree_border() -> (r: StyleConfig)
    ensures
        style_is(r, ""@, ""@, false, false, false),
{
    StyleConfig::new("", "", false, false, false)
}

} // verus!
