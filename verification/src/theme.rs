//! The catalog of color themes and the theme selector's logic.
//!
//! A theme is known by its id, shown by its name, and is dark or light.  The
//! selector lists all themes or only those of one appearance, and moves its
//! selection among the themes it lists.
use vstd::prelude::*;

use crate::action::Action;
use crate::state::overlay::{Overlay, ThemeSelectorState};
use crate::text::chars_eq;
use crate::text::chars_of;

verus! {

/// Whether a theme has a dark or a light background.
#[derive(Debug, Clone, Copy, PartialEq, Eq, Structural)]
pub enum Appearance {
    Dark,
    Light,
}

/// Which themes the selector lists.
#[derive(Debug, Clone, Copy, PartialEq, Eq, Structural)]
pub enum ThemeFilter {
    All,
    Dark,
    Light,
}

impl Default for ThemeFilter {
    /// All themes.
    fn default() -> (r: ThemeFilter)
        ensures
            r == ThemeFilter::All,
    {
        ThemeFilter::All
    }
}

/// The filter after `f` in the cycle all, dark, light.
pub open spec fn next_filter(f: ThemeFilter) -> ThemeFilter {
    match f {
        ThemeFilter::All => ThemeFilter::Dark,
        ThemeFilter::Dark => ThemeFilter::Light,
        ThemeFilter::Light => ThemeFilter::All,
    }
}

/// Whether a filter lists themes of an appearance.
pub open spec fn filter_admits(f: ThemeFilter, a: Appearance) -> bool {
    match f {
        ThemeFilter::All => true,
        ThemeFilter::Dark => a == Appearance::Dark,
        ThemeFilter::Light => a == Appearance::Light,
    }
}

impl ThemeFilter {
    /// The next filter: all, then dark, then light, then all again.
    pub fn cycle(self) -> (r: ThemeFilter)
        ensures
            r == next_filter(self),
    {
        match self {
            ThemeFilter::All => ThemeFilter::Dark,
            ThemeFilter::Dark => ThemeFilter::Light,
            ThemeFilter::Light => ThemeFilter::All,
        }
    }

    /// Whether the filter lists themes of an appearance.
    pub fn admits(self, appearance: Appearance) -> (r: bool)
        ensures
            r == filter_admits(self, appearance),
    {
        match self {
            ThemeFilter::All => true,
            ThemeFilter::Dark => appearance == Appearance::Dark,
            ThemeFilter::Light => appearance == Appearance::Light,
        }
    }
}

/// A theme of the catalog: its name, id and appearance.
#[derive(Debug, Clone, Copy)]
pub struct ThemeInfo {
    pub name: &'static str,
    pub id: &'static str,
    pub appearance: Appearance,
}

/// The number of themes in the catalog.
pub const THEME_COUNT: usize = 18;

/// The appearances of the catalog's themes, in catalog order.
pub open spec fn catalog_appearances() -> Seq<Appearance> {
    seq![
        Appearance::Dark,
        Appearance::Light,
        Appearance::Dark,
        Appearance::Light,
        Appearance::Dark,
        Appearance::Dark,
        Appearance::Light,
        Appearance::Dark,
        Appearance::Dark,
        Appearance::Dark,
        Appearance::Dark,
        Appearance::Light,
        Appearance::Light,
        Appearance::Dark,
        Appearance::Dark,
        Appearance::Dark,
        Appearance::Light,
        Appearance::Light,
    ]
}

/// The ids of the catalog's themes, in catalog order.
pub open spec fn catalog_ids() -> Seq<Seq<char>> {
    seq![
        "marten"@,
        "ermine"@,
        "catppuccin"@,
        "catppuccin-latte"@,
        "dracula"@,
        "everforest"@,
        "everforest-light-soft"@,
        "gruvbox"@,
        "tokyonight"@,
        "rose-pine"@,
        "ayu-dark"@,
        "ayu-light"@,
        "rose-pine-dawn"@,
        "flexoki-dark"@,
        "nord"@,
        "github"@,
        "github-light"@,
        "flexoki-light"@,
    ]
}

/// The catalog of themes, the first being the default.
pub fn themes() -> (r: Vec<ThemeInfo>)
    ensures
        r@.len() == THEME_COUNT,
        forall|i: int| 0 <= i < THEME_COUNT ==> (#[trigger] r@[i]).appearance == catalog_appearances()[i],
        forall|i: int| 0 <= i < THEME_COUNT ==> (#[trigger] r@[i]).id@ == catalog_ids()[i],
{
    let r = vec![
        ThemeInfo { name: "Marten", id: "marten", appearance: Appearance::Dark },
        ThemeInfo { name: "Ermine", id: "ermine", appearance: Appearance::Light },
        ThemeInfo { name: "Catppuccin", id: "catppuccin", appearance: Appearance::Dark },
        ThemeInfo {
            name: "Catppuccin Latte",
            id: "catppuccin-latte",
            appearance: Appearance::Light,
        },
        ThemeInfo { name: "Dracula", id: "dracula", appearance: Appearance::Dark },
        ThemeInfo { name: "Everforest", id: "everforest", appearance: Appearance::Dark },
        ThemeInfo {
            name: "Everforest Light Soft",
            id: "everforest-light-soft",
            appearance: Appearance::Light,
        },
        ThemeInfo { name: "Gruvbox", id: "gruvbox", appearance: Appearance::Dark },
        ThemeInfo { name: "Tokyo Night", id: "tokyonight", appearance: Appearance::Dark },
        ThemeInfo { name: "Rose Pine", id: "rose-pine", appearance: Appearance::Dark },
        ThemeInfo { name: "Ayu Dark", id: "ayu-dark", appearance: Appearance::Dark },
        ThemeInfo { name: "Ayu Light", id: "ayu-light", appearance: Appearance::Light },
        ThemeInfo { name: "Rose Pine Dawn", id: "rose-pine-dawn", appearance: Appearance::Light },
        ThemeInfo { name: "Flexoki Dark", id: "flexoki-dark", appearance: Appearance::Dark },
        ThemeInfo { name: "Nord", id: "nord", appearance: Appearance::Dark },
        ThemeInfo { name: "GitHub", id: "github", appearance: Appearance::Dark },
        ThemeInfo { name: "GitHub Light", id: "github-light", appearance: Appearance::Light },
        ThemeInfo { name: "Flexoki Light", id: "flexoki-light", appearance: Appearance::Light },
    ];
    r
}

/// The catalog indexes, among the first `n`, of the themes a filter lists, in order.
pub open spec fn admitted_upto(filter: ThemeFilter, n: int) -> Seq<usize>
    decreases n,
{
    if n <= 0 {
        Seq::empty()
    } else if filter_admits(filter, catalog_appearances()[n - 1]) {
        admitted_upto(filter, n - 1).push((n - 1) as usize)
    } else {
        admitted_upto(filter, n - 1)
    }
}

/// The catalog indexes of the themes a filter lists, in order.
pub open spec fn visible_spec(filter: ThemeFilter) -> Seq<usize> {
    admitted_upto(filter, THEME_COUNT as int)
}

proof fn lemma_admitted_nonempty(filter: ThemeFilter, n: int, i: int)
    requires
        0 <= i < n,
        filter_admits(filter, catalog_appearances()[i]),
    ensures
        admitted_upto(filter, n).len() > 0,
    decreases n,
{
    if n - 1 != i && !filter_admits(filter, catalog_appearances()[n - 1]) {
        lemma_admitted_nonempty(filter, n - 1, i);
    }
}

/// Every filter lists some theme.
pub proof fn lemma_visible_nonempty(filter: ThemeFilter)
    ensures
        visible_spec(filter).len() > 0,
{
    assert(catalog_appearances()[0] == Appearance::Dark);
    assert(catalog_appearances()[1] == Appearance::Light);
    match filter {
        ThemeFilter::Light => lemma_admitted_nonempty(filter, THEME_COUNT as int, 1),
        _ => lemma_admitted_nonempty(filter, THEME_COUNT as int, 0),
    }
}

proof fn lemma_admitted_bounds(filter: ThemeFilter, n: int)
    requires
        n <= THEME_COUNT,
    ensures
        admitted_upto(filter, n).len() <= if n < 0 {
            0
        } else {
            n
        },
        forall|k: int| 0 <= k < admitted_upto(filter, n).len() ==> #[trigger] admitted_upto(filter, n)[k] < n,
    decreases n,
{
    if n > 0 {
        lemma_admitted_bounds(filter, n - 1);
    }
}

/// The catalog indexes of the themes a filter lists, in catalog order.
pub fn visible_themes(filter: ThemeFilter) -> (r: Vec<usize>)
    ensures
        r@ == visible_spec(filter),
        0 < r@.len() <= THEME_COUNT,
        forall|k: int| 0 <= k < r@.len() ==> #[trigger] r@[k] < THEME_COUNT,
{
    let catalog = themes();
    let mut out: Vec<usize> = Vec::new();
    let mut i: usize = 0;
    while i < catalog.len()
        invariant
            i <= catalog.len(),
            catalog@.len() == THEME_COUNT,
            forall|j: int| 0 <= j < THEME_COUNT ==> (#[trigger] catalog@[j]).appearance == catalog_appearances()[j],
            out@ == admitted_upto(filter, i as int),
        decreases catalog.len() - i,
    {
        if filter.admits(catalog[i].appearance) {
            out.push(i);
        }
        i = i + 1;
    }
    proof {
        lemma_visible_nonempty(filter);
        lemma_admitted_bounds(filter, THEME_COUNT as int);
    }
    out
}

/// The first position of `x` in `s`.
pub open spec fn position_of(s: Seq<usize>, x: usize, i: int) -> Option<int>
    decreases s.len() - i,
{
    if i < 0 || i >= s.len() {
        None
    } else if s[i] == x {
        Some(i)
    } else {
        position_of(s, x, i + 1)
    }
}

/// The first position of `x` in `s`.
fn find_position(s: &Vec<usize>, x: usize) -> (r: Option<usize>)
    ensures
        match position_of(s@, x, 0) {
            Some(p) => r == Some(p as usize),
            None => r is None,
        },
{
    let mut i: usize = 0;
    while i < s.len()
        invariant
            i <= s.len(),
            position_of(s@, x, 0) == position_of(s@, x, i as int),
        decreases s.len() - i,
    {
        if s[i] == x {
            return Some(i);
        }
        i = i + 1;
    }
    None
}

/// The theme selected after stepping through the listed themes, wrapping: from the
/// selected theme's place in the list, or from the first place when it is not listed.
pub open spec fn stepped_theme(visible: Seq<usize>, selected: usize, down: bool) -> usize {
    let len = visible.len() as int;
    let pos = match position_of(visible, selected, 0) {
        Some(p) => p,
        None => 0,
    };
    let next = if down {
        (pos + 1) % len
    } else {
        (pos + len - 1) % len
    };
    visible[next]
}

proof fn lemma_position_bound(s: Seq<usize>, x: usize, i: int)
    ensures
        position_of(s, x, i) matches Some(p) ==> 0 <= p < s.len() && s[p] == x,
    decreases s.len() - i,
{
    if 0 <= i < s.len() && s[i] != x {
        lemma_position_bound(s, x, i + 1);
    }
}

proof fn lemma_admitted_increasing(filter: ThemeFilter, n: int)
    requires
        n <= THEME_COUNT,
    ensures
        forall|a: int, b: int|
            0 <= a < b < admitted_upto(filter, n).len() ==> admitted_upto(filter, n)[a]
                < admitted_upto(filter, n)[b],
    decreases n,
{
    if n > 0 {
        lemma_admitted_increasing(filter, n - 1);
        lemma_admitted_bounds(filter, n - 1);
    }
}

proof fn lemma_position_of_distinct(s: Seq<usize>, q: int, i: int)
    requires
        0 <= i <= q < s.len(),
        forall|a: int, b: int| 0 <= a < b < s.len() ==> s[a] < s[b],
    ensures
        position_of(s, s[q], i) == Some(q),
    decreases q - i,
{
    if i < q {
        assert(s[i] < s[q]);
        lemma_position_of_distinct(s, q, i + 1);
    }
}

/// In the theme selector, a step down then a step up, or a step up then a step down,
/// comes back to the theme one started on, when it is one the filter lists.
pub proof fn lemma_theme_step_round_trip(filter: ThemeFilter, selected: usize)
    requires
        visible_spec(filter).contains(selected),
    ensures
        stepped_theme(visible_spec(filter), stepped_theme(visible_spec(filter), selected, true), false)
            == selected,
        stepped_theme(visible_spec(filter), stepped_theme(visible_spec(filter), selected, false), true)
            == selected,
{
    let v = visible_spec(filter);
    let len = v.len() as int;
    lemma_admitted_increasing(filter, THEME_COUNT as int);
    let p = choose|i: int| 0 <= i < v.len() && v[i] == selected;
    lemma_position_of_distinct(v, p, 0);
    crate::state::files::lemma_wrap_round_trip(p, len);
    crate::state::files::lemma_wrap_in_range(p, len);
    let down = (p + 1) % len;
    let up = (p + len - 1) % len;
    lemma_position_of_distinct(v, down, 0);
    lemma_position_of_distinct(v, up, 0);
    assert(crate::state::files::wrap_next(p, len) == down);
    assert(crate::state::files::wrap_previous(p, len) == up);
}

/// The theme selector after an action: moves step through the listed themes, wrapping; the
/// filter moves on, keeping the selected theme when it is still listed.
pub open spec fn selector_updated(before: Overlay, after: Overlay, action: Action) -> bool {
    match before {
        Overlay::ThemeSelector(state) => after matches Overlay::ThemeSelector(after)
            && after.original == state.original && match action {
            Action::MoveDown => after.filter == state.filter && after.selected
                == stepped_theme(visible_spec(state.filter), state.selected, true),
            Action::MoveUp => after.filter == state.filter && after.selected == stepped_theme(
                visible_spec(state.filter),
                state.selected,
                false,
            ),
            Action::ToggleThemeFilter => {
                let visible = visible_spec(next_filter(state.filter));
                &&& after.filter == next_filter(state.filter)
                &&& after.selected == if visible.contains(state.selected) {
                    state.selected
                } else {
                    visible[0]
                }
            },
            _ => after == state,
        },
        _ => after == before,
    }
}

/// Applies an action to the theme selector when it is open: steps through the themes its
/// filter lists, wrapping, or moves to the next filter, selecting the first listed theme
/// when the selected one is no longer listed.
pub fn update(overlay: &mut Overlay, action: Action)
    ensures
        selector_updated(*old(overlay), *final(overlay), action),
{
    match overlay {
        Overlay::ThemeSelector(state) => {
            match action {
                Action::MoveDown | Action::MoveUp => {
                    let visible = visible_themes(state.filter);
                    let pos = match find_position(&visible, state.selected) {
                        Some(p) => p,
                        None => 0,
                    };
                    proof {
                        lemma_position_bound(visible@, state.selected, 0);
                    }
                    let len = visible.len();
                    let next = match action {
                        Action::MoveDown => (pos + 1) % len,
                        _ => (pos + len - 1) % len,
                    };
                    state.selected = visible[next];
                },
                Action::ToggleThemeFilter => {
                    state.filter = state.filter.cycle();
                    let visible = visible_themes(state.filter);
                    let found = find_position(&visible, state.selected);
                    proof {
                        lemma_position_bound(visible@, state.selected, 0);
                        lemma_position_complete(visible@, state.selected, 0);
                    }
                    if found.is_none() {
                        state.selected = visible[0];
                    }
                },
                _ => {},
            }
        },
        _ => {},
    }
}

proof fn lemma_position_complete(s: Seq<usize>, x: usize, i: int)
    requires
        0 <= i,
    ensures
        position_of(s, x, i) is None ==> forall|k: int| i <= k < s.len() ==> s[k] != x,
    decreases s.len() - i,
{
    if i < s.len() && s[i] != x {
        lemma_position_complete(s, x, i + 1);
    }
}

/// The catalog index of the theme with an id.
pub open spec fn index_of_id(id: Seq<char>, i: int) -> Option<int>
    decreases THEME_COUNT - i,
{
    if i < 0 || i >= THEME_COUNT {
        None
    } else if catalog_ids()[i] == id {
        Some(i)
    } else {
        index_of_id(id, i + 1)
    }
}

/// The catalog index of the theme with this id, if there is one.
pub fn entry_by_id(id: &str) -> (r: Option<usize>)
    ensures
        match index_of_id(id@, 0) {
            Some(i) => r == Some(i as usize),
            None => r is None,
        },
{
    let catalog = themes();
    let wanted = crate::text::chars_of(id);
    let mut i: usize = 0;
    while i < catalog.len()
        invariant
            i <= catalog.len(),
            catalog@.len() == THEME_COUNT,
            forall|j: int| 0 <= j < THEME_COUNT ==> (#[trigger] catalog@[j]).id@ == catalog_ids()[j],
            wanted@ == id@,
            index_of_id(id@, 0) == index_of_id(id@, i as int),
        decreases catalog.len() - i,
    {
        let candidate = chars_of(catalog[i].id);
        if chars_eq(&candidate, &wanted) {
            return Some(i);
        }
        i = i + 1;
    }
    None
}

/// The catalog index of the default theme: the first one.
pub fn default_entry() -> (r: usize)
    ensures
        r == 0,
        catalog_ids()[r as int] == "marten"@,
{
    0
}

/// The ids of the catalog's themes are all different.
pub proof fn lemma_theme_ids_unique()
    ensures
        forall|i: int, j: int|
            0 <= i < j < THEME_COUNT ==> catalog_ids()[i] != catalog_ids()[j],
{
    reveal_strlit("marten");
    reveal_strlit("ermine");
    reveal_strlit("catppuccin");
    reveal_strlit("catppuccin-latte");
    reveal_strlit("dracula");
    reveal_strlit("everforest");
    reveal_strlit("everforest-light-soft");
    reveal_strlit("gruvbox");
    reveal_strlit("tokyonight");
    reveal_strlit("rose-pine");
    reveal_strlit("ayu-dark");
    reveal_strlit("ayu-light");
    reveal_strlit("rose-pine-dawn");
    reveal_strlit("flexoki-dark");
    reveal_strlit("nord");
    reveal_strlit("github");
    reveal_strlit("github-light");
    reveal_strlit("flexoki-light");
    assert forall|i: int, j: int| 0 <= i < j < THEME_COUNT implies catalog_ids()[i]
        != catalog_ids()[j] by {
        let a = catalog_ids()[i];
        let b = catalog_ids()[j];
        if a.len() == b.len() {
            assert(a[0] != b[0] || a[1] != b[1] || a[2] != b[2] || a[a.len() - 1] != b[b.len() - 1]
                || a[a.len() - 2] != b[b.len() - 2] || a[a.len() - 3] != b[b.len() - 3]);
        }
    }
}

} // verus!
