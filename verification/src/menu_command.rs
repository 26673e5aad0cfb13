//! The entries of the main menu, the lines the menus show, and the
//! decisions the main menu takes on each key press.

use vstd::prelude::*;
use crate::env_variable::EnvVariable;

verus! {

/// The command that a menu entry runs.
#[derive(PartialEq, Eq, Structural, Clone, Copy, Debug)]
pub enum MenuAction {
    PrintSavedVersions,
    PrintCurrentVersion,
    AddJavaVersion,
    RemoveJavaVersion,
    SetJavaVersion,
}

/// An entry of the main menu: the text shown and the command it runs.
pub struct MenuCommand {
    name: String,
    action: MenuAction,
}

impl View for MenuCommand {
    /// The entry's text and its command.
    type V = (Seq<char>, MenuAction);

    closed spec fn view(&self) -> (Seq<char>, MenuAction) {
        (self.name@, self.action)
    }
}

impl MenuCommand {
    /// An entry with the given text that runs `action`.
    pub fn create_instance(name: &str, action: MenuAction) -> (r: MenuCommand)
        ensures
            r@ == (name@, action),
    {
        MenuCommand { name: String::from_str(name), action }
    }

    /// The entry's text.
    pub fn get_command_name(&self) -> (r: &str)
        ensures
            r@ == self@.0,
    {
        self.name.as_str()
    }

    /// The command that choosing this entry runs.
    pub fn call_func(&self) -> (r: MenuAction)
        ensures
            r == self@.1,
    {
        self.action
    }
}

/// The text that names a command in the menu.
pub open spec fn command_title(a: MenuAction) -> Seq<char> {
    match a {
        MenuAction::PrintSavedVersions => "Print saved versions"@,
        MenuAction::PrintCurrentVersion => "Print current version"@,
        MenuAction::AddJavaVersion => "Add java version"@,
        MenuAction::RemoveJavaVersion => "Remove java version"@,
        MenuAction::SetJavaVersion => "Set java version"@,
    }
}

/// The main menu, top to bottom.
pub open spec fn standard_menu() -> Seq<(Seq<char>, MenuAction)> {
    seq![
        ("Print saved versions"@, MenuAction::PrintSavedVersions),
        ("Print current version"@, MenuAction::PrintCurrentVersion),
        ("Add java version"@, MenuAction::AddJavaVersion),
        ("Remove java version"@, MenuAction::RemoveJavaVersion),
        ("Set java version"@, MenuAction::SetJavaVersion),
    ]
}

/// The entries of the main menu.
pub fn menu_commands() -> (r: Vec<MenuCommand>)
    ensures
        r@.map_values(|c: MenuCommand| c@) == standard_menu(),
{
    let mut commands: Vec<MenuCommand> = Vec::new();
    commands.push(MenuCommand::create_instance("Print saved versions", MenuAction::PrintSavedVersions));
    commands.push(MenuCommand::create_instance("Print current version", MenuAction::PrintCurrentVersion));
    commands.push(MenuCommand::create_instance("Add java version", MenuAction::AddJavaVersion));
    commands.push(MenuCommand::create_instance("Remove java version", MenuAction::RemoveJavaVersion));
    commands.push(MenuCommand::create_instance("Set java version", MenuAction::SetJavaVersion));
    assert(commands@.map_values(|c: MenuCommand| c@) =~= standard_menu());
    commands
}

/// One line of a menu: a leading part shown in bold, the rest, and whether
/// the line is the selected one (shown underlined).
pub struct MenuLine {
    pub head: String,
    pub tail: String,
    pub highlighted: bool,
}

/// The lines of the main menu: the selected entry is marked `-> `.
pub fn main_menu_lines(commands: &Vec<MenuCommand>, selected: usize) -> (r: Vec<MenuLine>)
    ensures
        r@.len() == commands@.len(),
        forall|i: int|
            0 <= i < r@.len() ==> {
                &&& (#[trigger] r@[i]).highlighted == (i == selected)
                &&& r@[i].head@ == (if i == selected { "-> "@ } else { Seq::<char>::empty() })
                &&& r@[i].tail@ == commands@[i]@.0
            },
{
    let mut r: Vec<MenuLine> = Vec::new();
    let mut i: usize = 0;
    while i < commands.len()
        invariant
            i <= commands@.len(),
            r@.len() == i,
            forall|k: int|
                0 <= k < i ==> {
                    &&& (#[trigger] r@[k]).highlighted == (k == selected)
                    &&& r@[k].head@ == (if k == selected { "-> "@ } else { Seq::<char>::empty() })
                    &&& r@[k].tail@ == commands@[k]@.0
                },
        decreases commands@.len() - i,
    {
        let head = if i == selected { String::from_str("-> ") } else { String::new() };
        let tail = String::from_str(commands[i].get_command_name());
        r.push(MenuLine { head, tail, highlighted: i == selected });
        i += 1;
    }
    r
}

/// The lines that list saved Java versions: the name in front (after `-> `
/// on the selected line), then `: ` and the path.
pub fn version_menu_lines(versions: &Vec<EnvVariable>, selected: Option<usize>) -> (r: Vec<MenuLine>)
    ensures
        r@.len() == versions@.len(),
        forall|i: int|
            0 <= i < r@.len() ==> {
                &&& (#[trigger] r@[i]).highlighted == (selected == Some(i as usize))
                &&& r@[i].head@ == (if selected == Some(i as usize) { "-> "@ + versions@[i]@.0 } else { versions@[i]@.0 })
                &&& r@[i].tail@ == ": "@ + versions@[i]@.1
            },
{
    let mut r: Vec<MenuLine> = Vec::new();
    let mut i: usize = 0;
    while i < versions.len()
        invariant
            i <= versions@.len(),
            r@.len() == i,
            forall|k: int|
                0 <= k < i ==> {
                    &&& (#[trigger] r@[k]).highlighted == (selected == Some(k as usize))
                    &&& r@[k].head@ == (if selected == Some(k as usize) { "-> "@ + versions@[k]@.0 } else { versions@[k]@.0 })
                    &&& r@[k].tail@ == ": "@ + versions@[k]@.1
                },
        decreases versions@.len() - i,
    {
        let is_selected = match selected {
            Some(s) => s == i,
            None => false,
        };
        let mut head = if is_selected { String::from_str("-> ") } else { String::new() };
        head.append(versions[i].get_variable_name());
        let mut tail = String::from_str(": ");
        tail.append(versions[i].get_path());
        proof {
            reveal_strlit("");
            assert(Seq::<char>::empty() + versions@[i as int]@.0 =~= versions@[i as int]@.0);
        }
        r.push(MenuLine { head, tail, highlighted: is_selected });
        i += 1;
    }
    r
}

/// A key press as the menus see it.
#[derive(PartialEq, Eq, Structural, Clone, Copy, Debug)]
pub enum MenuKey {
    Up,
    Down,
    Enter,
    Esc,
    Other,
}

/// What the main menu does after a key press.
#[derive(PartialEq, Eq, Structural, Clone, Copy, Debug)]
pub enum MenuDecision {
    /// Keep showing the menu.
    Nothing,
    /// Run the command of the selected entry.
    RunSelected,
    /// Leave the program.
    Exit,
}

/// The selection after `Up` or `Down` in a list of `count` lines: it moves
/// by one unless that would leave the list; other keys keep it.
pub open spec fn moved_selection(selected: int, count: int, key: MenuKey) -> int {
    match key {
        MenuKey::Up => if selected - 1 >= 0 { selected - 1 } else { selected },
        MenuKey::Down => if selected + 1 < count { selected + 1 } else { selected },
        _ => selected,
    }
}

/// Moves the selection as `moved_selection` says.
pub fn move_selection(selected: i32, count: i32, key: MenuKey) -> (r: i32)
    requires
        i32::MIN < selected < i32::MAX,
    ensures
        r == moved_selection(selected as int, count as int, key),
{
    match key {
        MenuKey::Up => if selected - 1 >= 0 { selected - 1 } else { selected },
        MenuKey::Down => if selected + 1 < count { selected + 1 } else { selected },
        _ => selected,
    }
}

/// The main menu's answer to a key press: the new selection and what to do.
/// A key release changes nothing.
pub open spec fn main_menu_next(selected: i32, item_count: usize, key: MenuKey, released: bool) -> (i32, MenuDecision) {
    if released {
        (selected, MenuDecision::Nothing)
    } else {
        match key {
            MenuKey::Up | MenuKey::Down => (
                moved_selection(selected as int, (item_count as i32) as int, key) as i32,
                MenuDecision::Nothing,
            ),
            MenuKey::Enter => (selected, MenuDecision::RunSelected),
            MenuKey::Esc => (selected, MenuDecision::Exit),
            MenuKey::Other => (selected, MenuDecision::Nothing),
        }
    }
}

/// Handles one key press in the main menu of `item_count` entries.
pub fn main_menu_step(selected: i32, item_count: usize, key: MenuKey, released: bool) -> (r: (i32, MenuDecision))
    requires
        i32::MIN < selected < i32::MAX,
    ensures
        r == main_menu_next(selected, item_count, key, released),
{
    if released {
        return (selected, MenuDecision::Nothing);
    }
    match key {
        MenuKey::Up | MenuKey::Down => (move_selection(selected, item_count as i32, key), MenuDecision::Nothing),
        MenuKey::Enter => (selected, MenuDecision::RunSelected),
        MenuKey::Esc => (selected, MenuDecision::Exit),
        MenuKey::Other => (selected, MenuDecision::Nothing),
    }
}

/// Key presses keep the main menu's selection on one of its entries.
pub proof fn lemma_main_menu_selection_in_range(selected: i32, item_count: usize, key: MenuKey, released: bool)
    requires
        0 <= selected < item_count,
        item_count <= i32::MAX,
    ensures
        0 <= main_menu_next(selected, item_count, key, released).0 < item_count,
{
}

/// Each entry of the main menu runs the command that its text names, and
/// every command has exactly one entry.
pub proof fn lemma_menu_entries_run_their_command()
    ensures
        forall|i: int| 0 <= i < standard_menu().len() ==> (#[trigger] standard_menu()[i]).0 == command_title(standard_menu()[i].1),
        forall|a: MenuAction|
            #![trigger command_title(a)]
            exists|i: int| 0 <= i < standard_menu().len() && (#[trigger] standard_menu()[i]).1 == a,
        forall|i: int, j: int|
            0 <= i < standard_menu().len() && 0 <= j < standard_menu().len() && (#[trigger] standard_menu()[i]).1
                == (#[trigger] standard_menu()[j]).1 ==> i == j,
{
    let m = standard_menu();
    assert forall|a: MenuAction|
        #![trigger command_title(a)]
        exists|i: int| 0 <= i < m.len() && (#[trigger] m[i]).1 == a by {
        match a {
            MenuAction::PrintSavedVersions => assert(m[0].1 == a),
            MenuAction::PrintCurrentVersion => assert(m[1].1 == a),
            MenuAction::AddJavaVersion => assert(m[2].1 == a),
            MenuAction::RemoveJavaVersion => assert(m[3].1 == a),
            MenuAction::SetJavaVersion => assert(m[4].1 == a),
        }
    }
}

} // verus!
