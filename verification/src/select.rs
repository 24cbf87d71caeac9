//! The selection loop's decision logic: one synchronous cycle of fetching a
//! page, presenting it for a single choice, and reacting to the user's
//! answer. The terminal interaction and the installer live outside; this
//! module decides every transition.

use vstd::prelude::*;
use vstd::string::StringExecFns;
use crate::session::WorkshopItem;

verus! {

/// The secondary menu offered when the user cancels out of the item list.
pub enum MenuChoice {
    Quit,
    LoadMore,
    ModifySearch,
}

/// The selection loop's state.
pub enum LoopState {
    /// A page is being fetched with the current query.
    Searching,
    /// The page's items are shown for a single choice.
    Presenting(Vec<WorkshopItem>),
    /// Terminal: this item goes to the installer and the config patch.
    Selected(WorkshopItem),
    /// The user is asked for revised search text, which resets the cursor.
    Revising,
    /// Terminal: the loop ends with no selection.
    Quitting,
}

/// React to a fetched page: an empty result prompts for a revised search; a
/// page of items is presented.
pub fn on_page(items: Option<Vec<WorkshopItem>>) -> (s: LoopState)
    ensures
        items is None ==> s is Revising,
        items is Some ==> s is Presenting && s->Presenting_0 == items->0,
{
    match items {
        None => LoopState::Revising,
        Some(v) => LoopState::Presenting(v),
    }
}

/// The user picked one row of the presented page; the first row is the
/// default highlight, so plain confirmation picks the first item.
pub fn on_pick(items: Vec<WorkshopItem>, choice: usize) -> (s: LoopState)
    requires
        choice < items@.len(),
    ensures
        s is Selected,
        s->Selected_0 == items@[choice as int],
{
    let mut items = items;
    LoopState::Selected(items.remove(choice))
}

/// Decide the secondary menu from the chosen row; a dismissed prompt means
/// the default row, which is quitting.
pub fn menu_choice(row: Option<usize>) -> (m: MenuChoice)
    requires
        row is Some ==> row->0 < 3,
    ensures
        row is None ==> m is Quit,
        row == Some(0usize) ==> m is Quit,
        row == Some(1usize) ==> m is LoadMore,
        row == Some(2usize) ==> m is ModifySearch,
{
    match row {
        None => MenuChoice::Quit,
        Some(0) => MenuChoice::Quit,
        Some(1) => MenuChoice::LoadMore,
        Some(_) => MenuChoice::ModifySearch,
    }
}

/// Advance the loop on a menu choice: quitting ends it; loading more
/// re-enters the search with the already-advanced cursor, which yields the
/// next page; modifying the search prompts for new text.
pub fn on_menu(m: &MenuChoice) -> (s: LoopState)
    ensures
        m is Quit ==> s is Quitting,
        m is LoadMore ==> s is Searching,
        m is ModifySearch ==> s is Revising,
{
    match m {
        MenuChoice::Quit => LoopState::Quitting,
        MenuChoice::LoadMore => LoopState::Searching,
        MenuChoice::ModifySearch => LoopState::Revising,
    }
}

/// What to do with the selected item.
pub enum InstallPlan {
    /// Report only; neither download nor config patch.
    NoAction,
    /// Already installed, no update asked: skip the download, still point the
    /// config at the map.
    KeepExisting,
    /// Not installed yet: download, then point the config at the map.
    Download,
    /// Installed, update asked: download again, then point the config at it.
    Redownload,
}

/// Decide what the selection means, from the item's installed flag and the
/// command-line switches.
pub fn plan_selection(installed: bool, no_action: bool, update: bool) -> (p: InstallPlan)
    ensures
        no_action ==> p is NoAction,
        !no_action && installed && !update ==> p is KeepExisting,
        !no_action && !installed ==> p is Download,
        !no_action && installed && update ==> p is Redownload,
{
    if no_action {
        InstallPlan::NoAction
    } else if installed && !update {
        InstallPlan::KeepExisting
    } else if installed {
        InstallPlan::Redownload
    } else {
        InstallPlan::Download
    }
}

/// The fixed usage hint shown above every select-prompt row.
pub open spec fn select_prompt_hint() -> Seq<char> {
    "Select Map using arrow keys. Enter to select. Esc for more options"@
}

/// The select prompt's theme: each row repeats the usage hint, a blank line,
/// then the row's own text. The styling of the hint is the renderer's
/// concern, not decided here.
pub struct ItemSelectorStyle;

impl ItemSelectorStyle {
    /// The text of one select-prompt row.
    pub fn format_select_prompt_item(&self, text: &str) -> (r: String)
        ensures
            r@ == select_prompt_hint() + "\n\n"@ + text@,
    {
        let mut r = String::from_str(
            "Select Map using arrow keys. Enter to select. Esc for more options",
        );
        r.append("\n\n");
        r.append(text);
        proof {
            assert(r@ =~= select_prompt_hint() + "\n\n"@ + text@);
        }
        r
    }
}

} // verus!
