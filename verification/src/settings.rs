//! The settings of the program, and the repositories of the system.
use crate::package;
use crate::text;
use crate::theme;
use crate::theme::{CustomColors, CustomColorsView, Palette};
use vstd::prelude::*;
use vstd::string::*;

verus! {

broadcast use vstd::seq_lib::group_seq_properties;

/// The settings of the program.
#[derive(Debug)]
pub struct AppConfig {
    /// The name of the theme.
    pub theme: String,
    /// The colours of the theme `custom`.
    pub custom_colors: Option<CustomColors>,
    /// Whether Flatpak applications are shown.
    pub flatpak_enabled: bool,
    /// Whether updates are checked for at the start.
    pub check_updates_on_start: bool,
}

/// What an `AppConfig` holds.
#[verifier::ext_equal]
pub struct AppConfigView {
    pub theme: Seq<char>,
    pub custom_colors: Option<CustomColorsView>,
    pub flatpak_enabled: bool,
    pub check_updates_on_start: bool,
}

/// What optional colours hold.
pub open spec fn opt_colors(o: Option<CustomColors>) -> Option<CustomColorsView> {
    match o {
        Some(c) => Some(c@),
        None => None,
    }
}

impl View for AppConfig {
    type V = AppConfigView;

    open spec fn view(&self) -> AppConfigView {
        AppConfigView {
            theme: self.theme@,
            custom_colors: opt_colors(self.custom_colors),
            flatpak_enabled: self.flatpak_enabled,
            check_updates_on_start: self.check_updates_on_start,
        }
    }
}

/// The settings of a first start.
pub open spec fn initial() -> AppConfigView {
    AppConfigView {
        theme: "catppuccin-macchiato"@,
        custom_colors: None,
        flatpak_enabled: true,
        check_updates_on_start: false,
    }
}

impl Default for AppConfig {
    fn default() -> (r: AppConfig)
        ensures
            r@ == initial(),
    {
        AppConfig {
            theme: "catppuccin-macchiato".to_owned(),
            custom_colors: None,
            flatpak_enabled: true,
            check_updates_on_start: false,
        }
    }
}

impl AppConfig {
    /// The settings that were read, or those of a first start where none could be read.
    pub fn or_default(read: Option<AppConfig>) -> (r: AppConfig)
        ensures
            r@ == (match read {
                Some(c) => c@,
                None => initial(),
            }),
    {
        match read {
            Some(c) => c,
            None => AppConfig::default(),
        }
    }
}

/// Where the settings are kept.
pub open spec fn settings_file(home: Option<Seq<char>>) -> Seq<char> {
    (match home {
        Some(h) => h,
        None => "/tmp"@,
    }) + "/.config/xpm/config.json"@
}

/// Where the settings are kept, given the home directory where it is known.
pub fn config_path(home: Option<String>) -> (r: String)
    ensures
        r@ == settings_file(package::opt_text(home)),
{
    let h = match home {
        Some(h) => h,
        None => "/tmp".to_owned(),
    };
    h.concat("/.config/xpm/config.json")
}

/// The settings as the window has them. Colours are kept only for the theme `custom`.
pub fn build_config(
    name: &str,
    colors: &CustomColors,
    flatpak_enabled: bool,
    check_updates_on_start: bool,
) -> (r: AppConfig)
    ensures
        r@ == (AppConfigView {
            theme: name@,
            custom_colors: if name@ == "custom"@ {
                Some(colors@)
            } else {
                None
            },
            flatpak_enabled,
            check_updates_on_start,
        }),
{
    let custom_colors = if text::equals(name, "custom") {
        Some(colors.clone())
    } else {
        None
    };
    AppConfig { theme: name.to_owned(), custom_colors, flatpak_enabled, check_updates_on_start }
}

/// The colours that a theme sets when the user picks it, where it is known.
pub open spec fn picked(name: Seq<char>, colors: CustomColorsView) -> Option<Palette> {
    if name == "default-dark"@ {
        Some(theme::dark())
    } else if name == "catppuccin-macchiato"@ {
        Some(theme::macchiato())
    } else if name == "custom"@ {
        Some(theme::customized(colors))
    } else {
        None
    }
}

/// The colours that a theme sets when the user picks it.
pub fn pick_theme(name: &str, colors: &CustomColors) -> (r: Option<Palette>)
    ensures
        r == picked(name@, colors@),
{
    if text::equals(name, "default-dark") {
        Some(theme::apply_theme(&theme::default_dark()))
    } else if text::equals(name, "catppuccin-macchiato") {
        Some(theme::apply_theme(&theme::catppuccin_macchiato()))
    } else if text::equals(name, "custom") {
        Some(theme::apply_custom_theme(colors))
    } else {
        None
    }
}

/// The colours that a theme sets at the start: the window comes with those of
/// `catppuccin-macchiato`, so that only the others set any.
pub fn start_theme(name: &str, colors: &CustomColors) -> (r: Option<Palette>)
    ensures
        r == (if name@ == "catppuccin-macchiato"@ {
            None
        } else {
            picked(name@, colors@)
        }),
{
    if text::equals(name, "catppuccin-macchiato") {
        None
    } else {
        pick_theme(name, colors)
    }
}

/// The repository that a line of `pacman.conf` opens: the name of a section, but for the
/// section of options.
pub open spec fn section(line: Seq<char>) -> Option<Seq<char>> {
    let t = text::trim(line);
    if t.len() >= 2 && t[0] == '[' && t.last() == ']' && t.subrange(1, t.len() - 1) != "options"@ {
        Some(t.subrange(1, t.len() - 1))
    } else {
        None
    }
}

/// The repositories that the lines of `pacman.conf` open.
pub open spec fn sections(ls: Seq<Seq<char>>) -> Seq<Seq<char>>
    decreases ls.len(),
{
    if ls.len() == 0 {
        Seq::empty()
    } else {
        match section(ls.last()) {
            Some(name) => sections(ls.drop_last()).push(name),
            None => sections(ls.drop_last()),
        }
    }
}

/// The repositories of `pacman.conf`, given what it holds where it could be read.
pub fn parse_pacman_repos(content: &Option<String>) -> (r: Vec<String>)
    ensures
        text::strings(r@) == (match *content {
            Some(c) => sections(text::lines(c@)),
            None => Seq::empty(),
        }),
{
    let mut r: Vec<String> = Vec::new();
    assert(text::strings(r@) =~= Seq::empty());
    match content {
        None => r,
        Some(c) => {
            let chars = text::chars_of(c.as_str());
            let ls = text::lines_of(chars.as_slice());
            let ghost all = text::texts(ls@);
            let options = text::chars_of("options");
            let mut i: usize = 0;
            assert(all.take(0) =~= Seq::empty());
            while i < ls.len()
                invariant
                    i <= ls@.len(),
                    all == text::texts(ls@),
                    options@ == "options"@,
                    text::strings(r@) == sections(all.take(i as int)),
                decreases ls@.len() - i,
            {
                let ghost before = text::strings(r@);
                assert(all.take(i + 1).drop_last() =~= all.take(i as int));
                assert(all.take(i + 1).last() == ls@[i as int]@);
                let t = text::trimmed(ls[i].as_slice());
                let n: usize = t.len();
                if n >= 2 && t[0] == '[' && t[n - 1] == ']' {
                    let name = text::cut(t.as_slice(), 1, n - 1);
                    if !text::same(name.as_slice(), options.as_slice()) {
                        r.push(text::text_of(name.as_slice()));
                        assert(text::strings(r@) =~= before.push(name@));
                    }
                }
                i += 1;
            }
            assert(all.take(all.len() as int) =~= all);
            r
        },
    }
}

/// The settings that are saved give the same theme and the same colours back.
pub proof fn saved_theme_is_the_same(name: Seq<char>, colors: CustomColorsView, other: CustomColorsView)
    ensures
        ({
            let kept = if name == "custom"@ {
                Some(colors)
            } else {
                None
            };
            picked(
                name,
                match kept {
                    Some(c) => c,
                    None => other,
                },
            ) == picked(name, colors)
        }),
{
    reveal_strlit("custom");
    reveal_strlit("default-dark");
    reveal_strlit("catppuccin-macchiato");
}

/// A line names a repository exactly where it is a name in square brackets, blanks aside,
/// and that name is not the one of the options.
pub proof fn sections_name_repositories(line: Seq<char>, name: Seq<char>)
    ensures
        section(line) == Some(name) <==> text::trim(line) == seq!['['] + name + seq![']'] && name
            != "options"@,
{
    let t = text::trim(line);
    if section(line) == Some(name) {
        assert(t =~= seq!['['] + name + seq![']']);
    }
    if t == seq!['['] + name + seq![']'] {
        assert(t.subrange(1, t.len() - 1) =~= name);
    }
}

/// The repositories are those that the lines name, in their order.
pub proof fn repositories_are_listed(ls: Seq<Seq<char>>)
    ensures
        sections(ls) == ls.filter(|l: Seq<char>| section(l) is Some).map_values(
            |l: Seq<char>| section(l).unwrap(),
        ),
    decreases ls.len(),
{
    reveal(Seq::filter);
    if ls.len() > 0 {
        repositories_are_listed(ls.drop_last());
    }
    assert(sections(ls) =~= ls.filter(|l: Seq<char>| section(l) is Some).map_values(
        |l: Seq<char>| section(l).unwrap(),
    ));
}

/// The settings are kept in the home directory, or under `/tmp` where there is none.
pub proof fn settings_are_at_home(home: Seq<char>)
    ensures
        settings_file(Some(home)) == home + "/.config/xpm/config.json"@,
        settings_file(None) == "/tmp"@ + "/.config/xpm/config.json"@,
{
}

/// A theme is picked by its name, and no other name picks one.
#[verifier::rlimit(80)]
pub proof fn themes_are_picked_by_name(name: Seq<char>, colors: CustomColorsView)
    ensures
        picked("default-dark"@, colors) == Some(theme::dark()),
        picked("catppuccin-macchiato"@, colors) == Some(theme::macchiato()),
        picked("custom"@, colors) == Some(theme::customized(colors)),
        name != "default-dark"@ && name != "catppuccin-macchiato"@ && name != "custom"@ ==> picked(
            name,
            colors,
        ) is None,
{
    reveal_strlit("default-dark");
    reveal_strlit("catppuccin-macchiato");
    reveal_strlit("custom");
    assert("default-dark"@.len() != "custom"@.len());
    assert("catppuccin-macchiato"@.len() != "custom"@.len());
    assert("catppuccin-macchiato"@.len() != "default-dark"@.len());
}

/// To begin with the theme is Catppuccin Macchiato, applications are shown, and updates are
/// not looked for at the start.
pub proof fn settings_begin_so()
    ensures
        initial().theme == "catppuccin-macchiato"@,
        initial().custom_colors is None,
        initial().flatpak_enabled,
        !initial().check_updates_on_start,
{
}

} // verus!
