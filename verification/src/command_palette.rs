//! The command palette: every command, grouped by section, with its key.
use vstd::prelude::*;

use crate::action::Action;
use crate::state::overlay::{step_next, step_previous, Overlay};

verus! {

/// The sections of the command palette.
#[derive(Debug, Clone, Copy, PartialEq, Eq, Structural)]
pub enum Section {
    Navigation,
    Diff,
    Layout,
    General,
    Settings,
}

impl Section {
    /// The section's title.
    pub fn label(self) -> (r: &'static str)
        ensures
            r@ == match self {
                Section::Navigation => "Navigation"@,
                Section::Diff => "Diff"@,
                Section::Layout => "Layout"@,
                Section::General => "General"@,
                Section::Settings => "Settings"@,
            },
    {
        match self {
            Section::Navigation => "Navigation",
            Section::Diff => "Diff",
            Section::Layout => "Layout",
            Section::General => "General",
            Section::Settings => "Settings",
        }
    }
}

/// A command: its name, what it does, its key and the action it runs.
#[derive(Debug, Clone, Copy)]
pub struct CommandItem {
    pub label: &'static str,
    pub description: &'static str,
    pub keybind: &'static str,
    pub action: Action,
}

/// The commands of a section.
#[derive(Debug, Clone)]
pub struct CommandGroup {
    pub section: Section,
    pub items: Vec<CommandItem>,
}

/// The actions of the palette's commands, in the order they are listed.
pub open spec fn palette_actions() -> Seq<Action> {
    seq![
        Action::ToggleFileFinder,
        Action::ToggleCommitsFinder,
        Action::NextFile,
        Action::PreviousFile,
        Action::NextHunk,
        Action::PreviousHunk,
        Action::ScrollDiffLeft,
        Action::ScrollDiffRight,
        Action::OpenEditor,
        Action::ToggleReviewed,
        Action::ToggleSidebar,
        Action::ToggleDiffLineNumbers,
        Action::ToggleDiffLayout,
        Action::Refresh,
        Action::Quit,
        Action::ToggleThemeSelector,
    ]
}

/// The actions of the commands of groups, in order.
pub open spec fn group_actions(groups: Seq<CommandGroup>) -> Seq<Action>
    decreases groups.len(),
{
    if groups.len() == 0 {
        Seq::empty()
    } else {
        group_actions(groups.drop_last()) + groups.last().items@.map_values(
            |item: CommandItem| item.action,
        )
    }
}

/// A command as the contracts see it: its name, what it does, its key and its action.
pub open spec fn item_model(item: CommandItem) -> (Seq<char>, Seq<char>, Seq<char>, Action) {
    (item.label@, item.description@, item.keybind@, item.action)
}

/// Groups as the contracts see them: each section with its commands, in order.
pub open spec fn groups_model(groups: Seq<CommandGroup>) -> Seq<
    (Section, Seq<(Seq<char>, Seq<char>, Seq<char>, Action)>),
> {
    groups.map_values(
        |g: CommandGroup| (g.section, g.items@.map_values(|i: CommandItem| item_model(i))),
    )
}

/// The palette's commands by section: name, description, key and action of each.
pub open spec fn palette_table() -> Seq<(Section, Seq<(Seq<char>, Seq<char>, Seq<char>, Action)>)> {
    seq![
        (Section::Navigation, seq![
            ("find file"@, "find and jump to a changed file"@, "ctrl+p"@, Action::ToggleFileFinder),
            ("commit history"@, "browse commits and open a historical diff"@, "H"@, Action::ToggleCommitsFinder),
            ("next file"@, "select the next changed file"@, "n"@, Action::NextFile),
            ("previous file"@, "select the previous changed file"@, "p"@, Action::PreviousFile),
            ("next hunk"@, "jump to the next diff hunk"@, "]"@, Action::NextHunk),
            ("previous hunk"@, "jump to the previous diff hunk"@, "["@, Action::PreviousHunk),
        ]),
        (Section::Diff, seq![
            ("scroll diff left"@, "show earlier columns in the diff"@, "h / ←"@, Action::ScrollDiffLeft),
            ("scroll diff right"@, "show later columns in the diff"@, "l / →"@, Action::ScrollDiffRight),
            ("edit hunk"@, "edit hunk on your editor"@, "e"@, Action::OpenEditor),
            ("mark reviewed"@, "mark file as reviewd and collapses it"@, "m"@, Action::ToggleReviewed),
        ]),
        (Section::Layout, seq![
            ("toggle sidebar"@, "show or hide the files sidebar"@, "s"@, Action::ToggleSidebar),
            ("toggle numbers"@, "show or hide diff line numbers"@, "L"@, Action::ToggleDiffLineNumbers),
            ("cycle diff layout"@, "cycle between auto, side-by-side, and unified"@, "v"@, Action::ToggleDiffLayout),
        ]),
        (Section::General, seq![
            ("reload"@, "reload repository status and diff"@, "r"@, Action::Refresh),
            ("quit"@, "exit marten"@, "q"@, Action::Quit),
        ]),
        (Section::Settings, seq![
            ("change theme"@, "preview and select a theme"@, "t"@, Action::ToggleThemeSelector),
        ]),
    ]
}

/// The commands, grouped by section: navigation, diff, layout, general, settings.
pub fn command_groups() -> (groups: Vec<CommandGroup>)
    ensures
        groups_model(groups@) == palette_table(),
        group_actions(groups@) == palette_actions(),
{
    let mut groups: Vec<CommandGroup> = Vec::new();
    groups.push(CommandGroup {
        section: Section::Navigation,
        items: vec![
            CommandItem {
                label: "find file",
                description: "find and jump to a changed file",
                keybind: "ctrl+p",
                action: Action::ToggleFileFinder,
            },
            CommandItem {
                label: "commit history",
                description: "browse commits and open a historical diff",
                keybind: "H",
                action: Action::ToggleCommitsFinder,
            },
            CommandItem {
                label: "next file",
                description: "select the next changed file",
                keybind: "n",
                action: Action::NextFile,
            },
            CommandItem {
                label: "previous file",
                description: "select the previous changed file",
                keybind: "p",
                action: Action::PreviousFile,
            },
            CommandItem {
                label: "next hunk",
                description: "jump to the next diff hunk",
                keybind: "]",
                action: Action::NextHunk,
            },
            CommandItem {
                label: "previous hunk",
                description: "jump to the previous diff hunk",
                keybind: "[",
                action: Action::PreviousHunk,
            },
        ],
    });
    groups.push(CommandGroup {
        section: Section::Diff,
        items: vec![
            CommandItem {
                label: "scroll diff left",
                description: "show earlier columns in the diff",
                keybind: "h / ←",
                action: Action::ScrollDiffLeft,
            },
            CommandItem {
                label: "scroll diff right",
                description: "show later columns in the diff",
                keybind: "l / →",
                action: Action::ScrollDiffRight,
            },
            CommandItem {
                label: "edit hunk",
                description: "edit hunk on your editor",
                keybind: "e",
                action: Action::OpenEditor,
            },
            CommandItem {
                label: "mark reviewed",
                description: "mark file as reviewd and collapses it",
                keybind: "m",
                action: Action::ToggleReviewed,
            },
        ],
    });
    groups.push(CommandGroup {
        section: Section::Layout,
        items: vec![
            CommandItem {
                label: "toggle sidebar",
                description: "show or hide the files sidebar",
                keybind: "s",
                action: Action::ToggleSidebar,
            },
            CommandItem {
                label: "toggle numbers",
                description: "show or hide diff line numbers",
                keybind: "L",
                action: Action::ToggleDiffLineNumbers,
            },
            CommandItem {
                label: "cycle diff layout",
                description: "cycle between auto, side-by-side, and unified",
                keybind: "v",
                action: Action::ToggleDiffLayout,
            },
        ],
    });
    groups.push(CommandGroup {
        section: Section::General,
        items: vec![
            CommandItem {
                label: "reload",
                description: "reload repository status and diff",
                keybind: "r",
                action: Action::Refresh,
            },
            CommandItem {
                label: "quit",
                description: "exit marten",
                keybind: "q",
                action: Action::Quit,
            },
        ],
    });
    groups.push(CommandGroup {
        section: Section::Settings,
        items: vec![
            CommandItem {
                label: "change theme",
                description: "preview and select a theme",
                keybind: "t",
                action: Action::ToggleThemeSelector,
            },
        ],
    });
    proof {
        let g = groups@;
        reveal_with_fuel(group_actions, 6);
        assert(g.drop_last().drop_last().drop_last().drop_last().drop_last() =~= Seq::<
            CommandGroup,
        >::empty());
        assert(group_actions(g) =~= palette_actions());
        let t = palette_table();
        assert forall|k: int| 0 <= k < 5 implies #[trigger] groups_model(g)[k] == t[k] by {
            assert(groups_model(g)[k].1 =~= t[k].1);
        }
        assert(groups_model(g) =~= t);
    }
    groups
}

/// The number of commands.
pub fn command_count() -> (r: usize)
    ensures
        r == palette_actions().len(),
{
    let groups = command_groups();
    let mut total: usize = 0;
    let mut i: usize = 0;
    assert(groups@.take(0) =~= Seq::<CommandGroup>::empty());
    while i < groups.len()
        invariant
            i <= groups.len(),
            group_actions(groups@) == palette_actions(),
            total == group_actions(groups@.take(i as int)).len(),
            group_actions(groups@.take(i as int)).len() <= palette_actions().len(),
        decreases groups.len() - i,
    {
        proof {
            assert(groups@.take(i as int + 1).drop_last() =~= groups@.take(i as int));
            lemma_group_actions_prefix(groups@, i as int + 1);
        }
        total = total + groups[i].items.len();
        i = i + 1;
    }
    assert(groups@.take(i as int) =~= groups@);
    total
}

proof fn lemma_group_actions_prefix(groups: Seq<CommandGroup>, k: int)
    requires
        0 <= k <= groups.len(),
    ensures
        group_actions(groups.take(k)).len() <= group_actions(groups).len(),
    decreases groups.len() - k,
{
    if k < groups.len() {
        lemma_group_actions_prefix(groups, k + 1);
        assert(groups.take(k + 1).drop_last() =~= groups.take(k));
    } else {
        assert(groups.take(k) =~= groups);
    }
}

/// The action of the command selected in the palette, when it is open and its selection is
/// a command.
pub fn selected_action(overlay: &Overlay) -> (r: Option<Action>)
    ensures
        r == match overlay {
            Overlay::CommandPalette(state) => if state.selected < palette_actions().len() {
                Some(palette_actions()[state.selected as int])
            } else {
                None
            },
            _ => None,
        },
{
    match overlay {
        Overlay::CommandPalette(state) => action_at(state.selected),
        _ => None,
    }
}

/// The action of the command at a position of the palette, if there is one.
fn action_at(selected: usize) -> (r: Option<Action>)
    ensures
        r == if selected < palette_actions().len() {
            Some(palette_actions()[selected as int])
        } else {
            None
        },
{
    let groups = command_groups();
    let mut skipped: usize = 0;
    let mut i: usize = 0;
    assert(groups@.take(0) =~= Seq::<CommandGroup>::empty());
    while i < groups.len()
        invariant
            i <= groups.len(),
            group_actions(groups@) == palette_actions(),
            skipped == group_actions(groups@.take(i as int)).len(),
            skipped <= selected,
            group_actions(groups@.take(i as int)).len() <= palette_actions().len(),
        decreases groups.len() - i,
    {
        let ghost prefix = group_actions(groups@.take(i as int));
        let ghost here = groups@[i as int].items@.map_values(|item: CommandItem| item.action);
        proof {
            assert(groups@.take(i as int + 1).drop_last() =~= groups@.take(i as int));
            assert(groups@.take(i as int + 1).last() == groups@[i as int]);
            lemma_group_actions_prefix(groups@, i as int + 1);
            lemma_group_actions_prefix_of(groups@, i as int + 1);
        }
        let n = groups[i].items.len();
        if selected - skipped < n {
            let item = groups[i].items[selected - skipped];
            assert(group_actions(groups@.take(i as int + 1)) == prefix + here);
            assert(here[selected - skipped] == item.action);
            assert((prefix + here)[selected as int] == item.action);
            return Some(item.action);
        }
        skipped = skipped + n;
        i = i + 1;
    }
    assert(groups@.take(i as int) =~= groups@);
    None
}

proof fn lemma_group_actions_prefix_of(groups: Seq<CommandGroup>, k: int)
    requires
        0 <= k <= groups.len(),
    ensures
        forall|j: int|
            0 <= j < group_actions(groups.take(k)).len() ==> #[trigger] group_actions(groups)[j]
                == group_actions(groups.take(k))[j],
    decreases groups.len() - k,
{
    if k < groups.len() {
        lemma_group_actions_prefix_of(groups, k + 1);
        assert(groups.take(k + 1).drop_last() =~= groups.take(k));
    } else {
        assert(groups.take(k) =~= groups);
    }
}

/// The palette after an action: moves step through the commands, wrapping.
pub open spec fn palette_updated(before: Overlay, after: Overlay, action: Action) -> bool {
    match before {
        Overlay::CommandPalette(state) => after matches Overlay::CommandPalette(after)
            && after.selected == match action {
            Action::MoveDown => step_next(state.selected as int, palette_actions().len() as int),
            Action::MoveUp => step_previous(
                state.selected as int,
                palette_actions().len() as int,
            ),
            _ => state.selected as int,
        },
        _ => after == before,
    }
}

/// Moves through the commands, wrapping, when the palette is open.
pub fn update(overlay: &mut Overlay, action: Action)
    requires
        *old(overlay) matches Overlay::CommandPalette(state) ==> state.selected < usize::MAX - 16,
    ensures
        palette_updated(*old(overlay), *final(overlay), action),
{
    match overlay {
        Overlay::CommandPalette(state) => {
            let count = command_count();
            match action {
                Action::MoveDown => state.select_next(count),
                Action::MoveUp => state.select_previous(count),
                _ => {},
            }
        },
        _ => {},
    }
}

} // verus!
