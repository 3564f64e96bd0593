//! What the tray menu and the windows do.

use crate::text::same;
use vstd::prelude::*;
use vstd::string::*;

verus! {

/// An entry of the tray menu.
#[derive(Debug)]
pub struct MenuEntry {
    pub id: String,
    pub label: String,
}

/// What an entry of the tray menu does.
#[derive(Clone, Copy, Debug, PartialEq, Eq, Structural)]
pub enum MenuAction {
    /// Show the main window and give it the focus.
    ShowMain,
    /// Show the widget where it is hidden, and hide it where it is shown.
    ToggleWidget,
    /// Tell the main window that a refresh is asked for.
    RequestRefresh,
    /// Leave the application.
    Quit,
    /// Nothing.
    Ignore,
}

/// The entries of the tray menu, from top to bottom: identifiers and labels.
pub open spec fn menu() -> Seq<(Seq<char>, Seq<char>)> {
    seq![
        ("show"@, "Show AI Allowance"@),
        ("widget"@, "Toggle desktop widget"@),
        ("refresh"@, "Refresh"@),
        ("quit"@, "Quit"@),
    ]
}

/// What the entry of that identifier does.
pub open spec fn action_of(id: Seq<char>) -> MenuAction {
    if id == "show"@ {
        MenuAction::ShowMain
    } else if id == "widget"@ {
        MenuAction::ToggleWidget
    } else if id == "refresh"@ {
        MenuAction::RequestRefresh
    } else if id == "quit"@ {
        MenuAction::Quit
    } else {
        MenuAction::Ignore
    }
}

/// The identifiers and labels of a list of entries.
pub open spec fn entry_views(entries: Seq<MenuEntry>) -> Seq<(Seq<char>, Seq<char>)> {
    entries.map_values(|entry: MenuEntry| (entry.id@, entry.label@))
}

/// The entries of the tray menu, from top to bottom.
pub fn menu_entries() -> (entries: Vec<MenuEntry>)
    ensures
        entry_views(entries@) == menu(),
{
    let mut entries: Vec<MenuEntry> = Vec::new();
    entries.push(MenuEntry { id: "show".to_string(), label: "Show AI Allowance".to_string() });
    entries.push(
        MenuEntry { id: "widget".to_string(), label: "Toggle desktop widget".to_string() },
    );
    entries.push(MenuEntry { id: "refresh".to_string(), label: "Refresh".to_string() });
    entries.push(MenuEntry { id: "quit".to_string(), label: "Quit".to_string() });
    assert(entry_views(entries@) =~= menu());
    entries
}

/// What the entry of that identifier does.
pub fn menu_action(id: &str) -> (action: MenuAction)
    ensures
        action == action_of(id@),
{
    if same(id, "show") {
        MenuAction::ShowMain
    } else if same(id, "widget") {
        MenuAction::ToggleWidget
    } else if same(id, "refresh") {
        MenuAction::RequestRefresh
    } else if same(id, "quit") {
        MenuAction::Quit
    } else {
        MenuAction::Ignore
    }
}

/// Whether a window of that label is hidden in the tray where it is asked to close.
pub fn hides_on_close(label: &str) -> (hides: bool)
    ensures
        hides == (label@ == "main"@ || label@ == "widget"@),
{
    same(label, "main") || same(label, "widget")
}

/// Every entry of the menu does something, and no two do the same.
pub proof fn law_every_menu_entry_acts(i: int, j: int)
    requires
        0 <= i < j < menu().len(),
    ensures
        action_of(menu()[i].0) != MenuAction::Ignore,
        action_of(menu()[j].0) != MenuAction::Ignore,
        action_of(menu()[i].0) != action_of(menu()[j].0),
{
    reveal_strlit("show");
    reveal_strlit("widget");
    reveal_strlit("refresh");
    reveal_strlit("quit");
    assert("show"@[0] == 's');
    assert("widget"@[0] == 'w');
    assert("refresh"@[0] == 'r');
    assert("quit"@[0] == 'q');
}

/// Nothing happens but by an entry of the menu, and each does what it is there for.
pub proof fn law_only_menu_entries_act(id: Seq<char>)
    ensures
        action_of(id) == MenuAction::ShowMain <==> id == "show"@,
        action_of(id) == MenuAction::ToggleWidget <==> id == "widget"@,
        action_of(id) == MenuAction::RequestRefresh <==> id == "refresh"@,
        action_of(id) == MenuAction::Quit <==> id == "quit"@,
        action_of(id) != MenuAction::Ignore <==> exists|i: int|
            0 <= i < menu().len() && (#[trigger] menu()[i]).0 == id,
{
    reveal_strlit("show");
    reveal_strlit("widget");
    reveal_strlit("refresh");
    reveal_strlit("quit");
    assert("show"@[0] == 's');
    assert("widget"@[0] == 'w');
    assert("refresh"@[0] == 'r');
    assert("quit"@[0] == 'q');
    assert(menu()[0].0 == "show"@ && menu()[1].0 == "widget"@);
    assert(menu()[2].0 == "refresh"@ && menu()[3].0 == "quit"@);
}

} // verus!
