//! Configuration model for the browser core: sort default, hidden-file
//! default, delete confirmation, the quick-jump table and the history-back
//! key descriptor. Colors and on-disk persistence are handled outside the
//! library; this is the part the controller's decisions depend on.

use vstd::prelude::*;
use crate::text::join_of;
use crate::text::join_path;

verus! {

/// The key an entry listing is ordered by.
#[derive(Debug, Clone, Copy, PartialEq, Eq, Structural)]
pub enum SortMode {
    Name,
    Size,
    Modified,
}

/// Key-binding configuration: a table of two-key quick jumps
/// (key sequence to target directory) and the descriptor of the
/// history-back key.
#[derive(Debug, Clone)]
pub struct KeyBindings {
    pub quick_jumps: Vec<(String, String)>,
    pub history_back: String,
}

/// Behavioral switches of the browser.
#[derive(Debug, Clone)]
pub struct Behavior {
    pub show_hidden: bool,
    pub default_sort: SortMode,
    pub delete_confirmation: bool,
    pub flash_duration_ms: u64,
}

/// The configuration the controller consults.
#[derive(Debug, Clone)]
pub struct Config {
    pub keybindings: KeyBindings,
    pub behavior: Behavior,
}

/// The sort key used when the configuration names none.
pub fn default_sort() -> (r: SortMode)
    ensures
        r == SortMode::Name,
{
    SortMode::Name
}

/// Whether deletion asks for confirmation when the configuration is silent.
pub fn default_delete_confirmation() -> (r: bool)
    ensures
        r == true,
{
    true
}

/// How long a copy flash stays visible when the configuration is silent,
/// in milliseconds.
pub fn default_flash_duration_ms() -> (r: u64)
    ensures
        r == 150,
{
    150
}

/// The key descriptor that pops the jump stack when the configuration
/// names none.
pub fn default_history_back() -> (r: String)
    ensures
        r@ == "ctrl+o"@,
{
    String::from_str("ctrl+o")
}

/// The quick-jump table derived from a home directory: `gh` to the home
/// itself, `gd` to its `Downloads` folder, `gp` to its `Projects` folder.
pub fn default_quick_jumps(home: &str) -> (r: Vec<(String, String)>)
    ensures
        r@.len() == 3,
        r@[0].0@ == "gh"@ && r@[0].1@ == home@,
        r@[1].0@ == "gd"@ && r@[1].1@ == join_of(home@, "Downloads"@),
        r@[2].0@ == "gp"@ && r@[2].1@ == join_of(home@, "Projects"@),
{
    let mut r: Vec<(String, String)> = Vec::new();
    r.push((String::from_str("gh"), String::from_str(home)));
    r.push((String::from_str("gd"), join_path(home, "Downloads")));
    r.push((String::from_str("gp"), join_path(home, "Projects")));
    r
}

impl Default for KeyBindings {
    /// An empty quick-jump table and the default history-back key.
    fn default() -> (r: Self)
        ensures
            r.quick_jumps@.len() == 0,
            r.history_back@ == "ctrl+o"@,
    {
        KeyBindings { quick_jumps: Vec::new(), history_back: default_history_back() }
    }
}

impl Default for Behavior {
    /// Hidden files off, sort by name, confirm deletions, a short flash.
    fn default() -> (r: Self)
        ensures
            r.show_hidden == false,
            r.default_sort == SortMode::Name,
            r.delete_confirmation == true,
            r.flash_duration_ms == 150,
    {
        Behavior {
            show_hidden: false,
            default_sort: default_sort(),
            delete_confirmation: default_delete_confirmation(),
            flash_duration_ms: default_flash_duration_ms(),
        }
    }
}

impl Default for Config {
    fn default() -> (r: Self)
        ensures
            r.keybindings.quick_jumps@.len() == 0,
            r.behavior.show_hidden == false,
            r.behavior.default_sort == SortMode::Name,
            r.behavior.delete_confirmation == true,
    {
        Config { keybindings: KeyBindings::default(), behavior: Behavior::default() }
    }
}

} // verus!
