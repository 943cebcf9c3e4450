//! Settings read from the configuration file, their defaults and their checks.
use vstd::prelude::*;
use vstd::string::StringExecFns;

use crate::state::diff::DiffLayout;
use crate::theme::{catalog_ids, entry_by_id, index_of_id, themes, THEME_COUNT};

verus! {

/// Tab width used when the configuration does not set one.
pub const DEFAULT_TAB_WIDTH: usize = 4;

/// The whole configuration.
#[derive(Debug)]
pub struct Config {
    pub ui: UI,
    pub review: Review,
    pub diff: Diff,
}

/// Settings of the interface.
#[derive(Debug)]
pub struct UI {
    pub theme: String,
    pub show_sidebar: Option<bool>,
    pub transparent_background: bool,
    pub nerd_fonts: bool,
}

/// Settings of the review.
#[derive(Debug)]
pub struct Review {
    pub ignore: Vec<String>,
}

/// Settings of the diff view.
#[derive(Debug)]
pub struct Diff {
    pub ignore_whitespace: bool,
    pub tab_width: usize,
    pub layout: DiffLayoutSetting,
    pub show_line_numbers: bool,
}

/// The layout the user asks for: chosen by width, side by side, or unified.
#[derive(Debug, Clone, Copy, PartialEq, Eq, Structural)]
pub enum DiffLayoutSetting {
    Auto,
    Split,
    Unified,
}

impl Default for DiffLayoutSetting {
    /// Chosen by width.
    fn default() -> (r: DiffLayoutSetting)
        ensures
            r == DiffLayoutSetting::Auto,
    {
        DiffLayoutSetting::Auto
    }
}

impl DiffLayoutSetting {
    /// The layout forced by the setting: none for auto.
    pub fn as_override(self) -> (r: Option<DiffLayout>)
        ensures
            r == match self {
                DiffLayoutSetting::Auto => None,
                DiffLayoutSetting::Split => Some(DiffLayout::SideBySide),
                DiffLayoutSetting::Unified => Some(DiffLayout::Unified),
            },
    {
        match self {
            DiffLayoutSetting::Auto => None,
            DiffLayoutSetting::Split => Some(DiffLayout::SideBySide),
            DiffLayoutSetting::Unified => Some(DiffLayout::Unified),
        }
    }

    /// The setting as the configuration file writes it.
    pub fn as_str(self) -> (r: &'static str)
        ensures
            r@ == match self {
                DiffLayoutSetting::Auto => "auto"@,
                DiffLayoutSetting::Split => "split"@,
                DiffLayoutSetting::Unified => "unified"@,
            },
    {
        match self {
            DiffLayoutSetting::Auto => "auto",
            DiffLayoutSetting::Split => "split",
            DiffLayoutSetting::Unified => "unified",
        }
    }
}

impl UI {
    /// The catalog index of the configured theme, or of the default theme when the id is
    /// unknown.
    pub fn theme(&self) -> (r: usize)
        ensures
            r == match index_of_id(self.theme@, 0) {
                Some(i) => i as usize,
                None => 0,
            },
            r < THEME_COUNT,
    {
        proof {
            lemma_index_of_id_bound(self.theme@, 0);
        }
        match entry_by_id(self.theme.as_str()) {
            Some(i) => i,
            None => 0,
        }
    }

    /// Whether the sidebar shows: as configured, else when the terminal is wider than 120
    /// columns.
    pub fn show_sidebar(&self, terminal_width: u16) -> (r: bool)
        ensures
            r == match self.show_sidebar {
                Some(shown) => shown,
                None => terminal_width > 120,
            },
    {
        match self.show_sidebar {
            Some(shown) => shown,
            None => terminal_width > 120,
        }
    }
}

proof fn lemma_index_of_id_bound(id: Seq<char>, i: int)
    ensures
        index_of_id(id, i) matches Some(k) ==> 0 <= k < THEME_COUNT,
    decreases THEME_COUNT - i,
{
    if 0 <= i < THEME_COUNT && catalog_ids()[i] != id {
        lemma_index_of_id_bound(id, i + 1);
    }
}

impl Default for UI {
    /// The default theme, the sidebar by width, an opaque background and Nerd Font icons.
    fn default() -> (r: UI)
        ensures
            r.theme@ == "marten"@,
            r.show_sidebar is None,
            !r.transparent_background,
            r.nerd_fonts,
    {
        UI {
            theme: String::from_str("marten"),
            show_sidebar: None,
            transparent_background: false,
            nerd_fonts: true,
        }
    }
}

impl Default for Review {
    /// No ignore patterns.
    fn default() -> (r: Review)
        ensures
            r.ignore@.len() == 0,
    {
        Review { ignore: Vec::new() }
    }
}

impl Default for Diff {
    /// Whitespace compared, tabs four columns wide, the layout chosen by width, line numbers
    /// shown.
    fn default() -> (r: Diff)
        ensures
            !r.ignore_whitespace,
            r.tab_width == DEFAULT_TAB_WIDTH,
            r.layout == DiffLayoutSetting::Auto,
            r.show_line_numbers,
    {
        Diff {
            ignore_whitespace: false,
            tab_width: DEFAULT_TAB_WIDTH,
            layout: DiffLayoutSetting::Auto,
            show_line_numbers: true,
        }
    }
}

impl Default for Config {
    /// The default of every section.
    fn default() -> (r: Config)
        ensures
            r.ui.theme@ == "marten"@,
            r.ui.show_sidebar is None,
            !r.ui.transparent_background,
            r.ui.nerd_fonts,
            r.review.ignore@.len() == 0,
            !r.diff.ignore_whitespace,
            r.diff.tab_width == DEFAULT_TAB_WIDTH,
            r.diff.layout == DiffLayoutSetting::Auto,
            r.diff.show_line_numbers,
    {
        Config { ui: UI::default(), review: Review::default(), diff: Diff::default() }
    }
}

/// The catalog's ids, each in backticks, from the `k`-th on, joined by `, `.
pub open spec fn quoted_ids_from(k: int) -> Seq<char>
    decreases THEME_COUNT - k,
{
    if k >= THEME_COUNT {
        Seq::empty()
    } else {
        let quoted = "`"@ + catalog_ids()[k] + "`"@;
        if k + 1 < THEME_COUNT {
            quoted + ", "@ + quoted_ids_from(k + 1)
        } else {
            quoted
        }
    }
}

/// Why a configuration is refused: a tab width of zero, or a theme id that the catalog
/// lacks (naming the ids it has); `None` when it is accepted.
pub open spec fn invalid_reason_spec(tab_width: usize, theme: Seq<char>) -> Option<Seq<char>> {
    if tab_width == 0 {
        Some("`diff.tab_width` must be greater than zero"@)
    } else if index_of_id(theme, 0) is None {
        Some("unknown theme `"@ + theme + "` (expected one of: "@ + quoted_ids_from(0) + ")"@)
    } else {
        None
    }
}

/// The catalog's ids, each in backticks, joined by `, `.
fn quoted_ids() -> (r: String)
    ensures
        r@ == quoted_ids_from(0),
{
    let catalog = themes();
    let mut k: usize = THEME_COUNT;
    let mut tail = String::new();
    while k > 0
        invariant
            k <= THEME_COUNT,
            catalog@.len() == THEME_COUNT,
            forall|j: int| 0 <= j < THEME_COUNT ==> (#[trigger] catalog@[j]).id@ == catalog_ids()[j],
            tail@ == quoted_ids_from(k as int),
        decreases k,
    {
        let mut quoted = String::from_str("`");
        quoted.append(catalog[k - 1].id);
        quoted.append("`");
        proof {
            reveal_strlit("`");
            reveal_strlit(", ");
        }
        if k < THEME_COUNT {
            quoted.append(", ");
        }
        quoted.append(tail.as_str());
        tail = quoted;
        k = k - 1;
    }
    tail
}

/// Why a configuration is refused, if it is: a tab width of zero, or an unknown theme.
pub fn invalid_reason(config: &Config) -> (r: Option<String>)
    ensures
        match invalid_reason_spec(config.diff.tab_width, config.ui.theme@) {
            Some(m) => r matches Some(s) && s@ == m,
            None => r is None,
        },
{
    if config.diff.tab_width == 0 {
        return Some(String::from_str("`diff.tab_width` must be greater than zero"));
    }
    if entry_by_id(config.ui.theme.as_str()).is_none() {
        let mut message = String::from_str("unknown theme `");
        message.append(config.ui.theme.as_str());
        message.append("` (expected one of: ");
        let ids = quoted_ids();
        message.append(ids.as_str());
        message.append(")");
        return Some(message);
    }
    None
}

/// The text of a fresh configuration file: every setting commented out with its default.
pub open spec fn default_template_spec() -> Seq<char> {
    "# marten configuration\n#\n# Every setting below is commented out and shown with its default value.\n# Uncomment a line and change its value to override the default.\n# This file is safe to delete -- marten regenerates it with defaults on the next run.\n\n[ui]\n# theme = \"marten\"\n# show_sidebar = true          # default: shown automatically above 120 terminal columns\n# transparent_background = false\n# nerd_fonts = true    # default: true\n\n[review]\n# ignore = [\"*.lock\", \"generated/**\"]\n\n[diff]\n# ignore_whitespace = false\n# tab_width = 4\n# layout = \"auto\"          # auto | split | unified\n# show_line_numbers = true\n"@
}

/// The text of a fresh configuration file: every setting commented out with its default.
pub fn default_template() -> (r: String)
    ensures
        r@ == default_template_spec(),
{
    String::from_str("# marten configuration\n#\n# Every setting below is commented out and shown with its default value.\n# Uncomment a line and change its value to override the default.\n# This file is safe to delete -- marten regenerates it with defaults on the next run.\n\n[ui]\n# theme = \"marten\"\n# show_sidebar = true          # default: shown automatically above 120 terminal columns\n# transparent_background = false\n# nerd_fonts = true    # default: true\n\n[review]\n# ignore = [\"*.lock\", \"generated/**\"]\n\n[diff]\n# ignore_whitespace = false\n# tab_width = 4\n# layout = \"auto\"          # auto | split | unified\n# show_line_numbers = true\n")
}


/// Why the theme could not be written into a configuration text.
#[derive(Debug, Clone, PartialEq, Eq)]
pub enum ThemeSaveError {
    /// The text is not a TOML document; the parser's message.
    Parse(String),
    /// The text has a `ui` entry that is not a table.
    UiNotTable,
}

/// The configuration text after `toml_edit` sets `ui.theme` to `theme_id` in the document
/// parsed from `contents`, keeping its comments and layout: `Ok` with the text, `Err` with
/// the parser's message when `contents` is not TOML, `Err(None)` when `ui` is not a table.
pub uninterp spec fn toml_set_ui_theme(contents: Seq<char>, theme_id: Seq<char>) -> Result<
    Seq<char>,
    Option<Seq<char>>,
>;

/// A theme-saving result as the contracts see it.
pub open spec fn theme_save_model(r: Result<String, ThemeSaveError>) -> Result<
    Seq<char>,
    Option<Seq<char>>,
> {
    match r {
        Ok(text) => Ok(text@),
        Err(ThemeSaveError::Parse(message)) => Err(Some(message@)),
        Err(ThemeSaveError::UiNotTable) => Err(None),
    }
}

/// Parses `contents` as a `toml_edit::DocumentMut`, sets `ui.theme` (creating the `ui`
/// table when it is missing) and prints the document again.  The contract claims only that
/// the outcome is a fixed function of the two texts, named `toml_set_ui_theme`.
#[verifier::external_body]
fn set_ui_theme(contents: &str, theme_id: &str) -> (r: Result<String, ThemeSaveError>)
    ensures
        theme_save_model(r) == toml_set_ui_theme(contents@, theme_id@),
{
    let mut document = match contents.parse::<toml_edit::DocumentMut>() {
        Ok(document) => document,
        Err(error) => return Err(ThemeSaveError::Parse(error.to_string())),
    };
    match document["ui"].or_insert(toml_edit::table()).as_table_like_mut() {
        Some(ui) => ui.insert("theme", toml_edit::value(theme_id)),
        None => return Err(ThemeSaveError::UiNotTable),
    };
    Ok(document.to_string())
}

/// The configuration text `contents` with the theme set to `theme_id`, its comments and
/// other settings kept, or why that cannot be done.
pub fn with_theme(contents: &str, theme_id: &str) -> (r: Result<String, ThemeSaveError>)
    ensures
        theme_save_model(r) == toml_set_ui_theme(contents@, theme_id@),
{
    set_ui_theme(contents, theme_id)
}

} // verus!
