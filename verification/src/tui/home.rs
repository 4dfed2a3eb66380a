//! The text of the home screen.
use vstd::prelude::*;
use crate::cover::terminal::string_push_str;
use crate::highlight::analyzer::{AnalyzerKind, analyzer_id_spec};
use crate::tui::state::TuiState;

verus! {

broadcast use vstd::string::group_string_axioms;

/// The entries of the home menu, the analyzer entry naming the selected one.
pub open spec fn home_items(kind: AnalyzerKind) -> Seq<Seq<char>> {
    seq!["Continue"@, "Open New Book"@, "Select"@, "Analyzer: "@ + analyzer_id_spec(kind), "Quit"@]
}

/// The first `n` entries, one per line, the selected one marked with `> `.
pub open spec fn menu_lines(items: Seq<Seq<char>>, selected: nat, n: nat) -> Seq<char>
    decreases n,
{
    if n == 0 {
        Seq::empty()
    } else {
        let i = (n - 1) as nat;
        menu_lines(items, selected, i) + (if i == selected { "> "@ } else { "  "@ }) + items[i as int] + "\n"@
    }
}

/// The home screen: title, menu, the last error if any, and the key help.
pub open spec fn home_text(state: TuiState) -> Seq<char> {
    "ReadingCLI\n\n"@ + menu_lines(home_items(state.analyzer_kind), state.selected_home_item as nat, 5)
        + match state.home_error {
        Some(e) => "\n"@ + e@ + "\n"@,
        None => Seq::<char>::empty(),
    } + "\nUp/Down: move | Left/Right: switch analyzer | Enter: select | q: quit"@
}

fn push_item(text: &mut String, item: &str, selected: bool)
    ensures
        final(text)@ == old(text)@ + (if selected { "> "@ } else { "  "@ }) + item@ + "\n"@,
{
    if selected {
        string_push_str(text, "> ");
    } else {
        string_push_str(text, "  ");
    }
    string_push_str(text, item);
    string_push_str(text, "\n");
}

fn menu_text(state: &TuiState) -> (menu: String)
    ensures
        menu@ == menu_lines(home_items(state.analyzer_kind), state.selected_home_item as nat, 5),
{
    let ghost items = home_items(state.analyzer_kind);
    let ghost sel = state.selected_home_item as nat;
    let mut menu = String::new();
    push_item(&mut menu, "Continue", state.selected_home_item == 0);
    assert(items[0] == "Continue"@);
    assert(menu_lines(items, sel, 0) =~= Seq::<char>::empty());
    assert(menu@ =~= menu_lines(items, sel, 1));
    push_item(&mut menu, "Open New Book", state.selected_home_item == 1);
    assert(menu@ =~= menu_lines(items, sel, 2));
    push_item(&mut menu, "Select", state.selected_home_item == 2);
    assert(menu@ =~= menu_lines(items, sel, 3));
    let mut analyzer_item = String::new();
    string_push_str(&mut analyzer_item, "Analyzer: ");
    string_push_str(&mut analyzer_item, state.analyzer_kind.analyzer_id());
    push_item(&mut menu, analyzer_item.as_str(), state.selected_home_item == 3);
    assert(menu@ =~= menu_lines(items, sel, 4));
    push_item(&mut menu, "Quit", state.selected_home_item == 4);
    assert(menu@ =~= menu_lines(items, sel, 5));
    menu
}

/// The text of the home screen for `state`.
pub fn home_screen_text(state: &TuiState) -> (text: String)
    ensures
        text@ == home_text(*state),
{
    let mut text = String::new();
    string_push_str(&mut text, "ReadingCLI\n\n");
    let menu = menu_text(state);
    string_push_str(&mut text, menu.as_str());
    match &state.home_error {
        Some(error) => {
            string_push_str(&mut text, "\n");
            string_push_str(&mut text, error.as_str());
            string_push_str(&mut text, "\n");
        },
        None => {},
    }
    string_push_str(&mut text, "\nUp/Down: move | Left/Right: switch analyzer | Enter: select | q: quit");
    text
}

} // verus!
