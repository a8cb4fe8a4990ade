//! The key bindings: which keys stand for which command.

use vstd::prelude::*;
use vstd::slice::slice_index_get;
use vstd::string::StrSliceExecFns;
use crate::texts::spells;

verus! {

/// The settings of the client.
#[derive(Debug, Clone)]
pub struct Config {
    pub keybindings: Keybindings,
}

/// For each command the names of the keys that give it.
#[derive(Debug, Clone)]
pub struct Keybindings {
    pub next_panel: Vec<String>,
    pub prev_panel: Vec<String>,
    pub move_up: Vec<String>,
    pub move_down: Vec<String>,
    pub mark_read: Vec<String>,
    pub new_message: Vec<String>,
    pub reply: Vec<String>,
    pub delete: Vec<String>,
    pub archive: Vec<String>,
    pub quit: Vec<String>,
}

/// A key as a binding can name it.
#[derive(Debug, Clone, Copy, PartialEq, Eq, Structural)]
pub enum Key {
    Backspace,
    Enter,
    Left,
    Right,
    Up,
    Down,
    Tab,
    BackTab,
    Esc,
    Char(char),
    /// What a name that names no key stands for.
    Null,
}

/// The key that the name `name` stands for: one of the nine named keys, the
/// character itself for a name of one ASCII character, and no key for
/// anything else.
pub open spec fn key_of(name: Seq<char>) -> Key {
    if name == "Backspace"@ {
        Key::Backspace
    } else if name == "Enter"@ {
        Key::Enter
    } else if name == "Left"@ {
        Key::Left
    } else if name == "Right"@ {
        Key::Right
    } else if name == "Up"@ {
        Key::Up
    } else if name == "Down"@ {
        Key::Down
    } else if name == "Tab"@ {
        Key::Tab
    } else if name == "BackTab"@ {
        Key::BackTab
    } else if name == "Esc"@ {
        Key::Esc
    } else if name.len() == 1 && '\0' <= name[0] <= '\u{7f}' {
        Key::Char(name[0])
    } else {
        Key::Null
    }
}

/// The key that the name `key` stands for.
pub fn parse_key(key: &str) -> (r: Key)
    ensures
        r == key_of(key@),
{
    if spells(key, "Backspace") {
        Key::Backspace
    } else if spells(key, "Enter") {
        Key::Enter
    } else if spells(key, "Left") {
        Key::Left
    } else if spells(key, "Right") {
        Key::Right
    } else if spells(key, "Up") {
        Key::Up
    } else if spells(key, "Down") {
        Key::Down
    } else if spells(key, "Tab") {
        Key::Tab
    } else if spells(key, "BackTab") {
        Key::BackTab
    } else if spells(key, "Esc") {
        Key::Esc
    } else if key.unicode_len() == 1 && key.is_ascii() {
        Key::Char(key.get_char(0))
    } else {
        assert(!(key@.len() == 1 && '\0' <= key@[0] <= '\u{7f}'));
        Key::Null
    }
}

/// Whether one of the names `bindings` stands for the key `key`.
pub fn matches_key(key: Key, bindings: &[String]) -> (r: bool)
    ensures
        r == exists|i: int| 0 <= i < bindings@.len() && key_of(#[trigger] bindings@[i]@) == key,
{
    let mut i: usize = 0;
    while i < bindings.len()
        invariant
            i <= bindings@.len(),
            forall|j: int| 0 <= j < i ==> key_of(#[trigger] bindings@[j]@) != key,
        decreases bindings@.len() - i,
    {
        if parse_key(slice_index_get(bindings, i).as_str()) == key {
            return true;
        }
        i += 1;
    }
    false
}

/// A list of one key name.
fn one(a: &str) -> (r: Vec<String>)
    ensures
        r.deep_view() == seq![a@],
{
    let mut v: Vec<String> = Vec::new();
    v.push(a.to_owned());
    assert(v.deep_view() =~= seq![a@]);
    v
}

/// A list of two key names.
fn two(a: &str, b: &str) -> (r: Vec<String>)
    ensures
        r.deep_view() == seq![a@, b@],
{
    let mut v: Vec<String> = Vec::new();
    v.push(a.to_owned());
    v.push(b.to_owned());
    assert(v.deep_view() =~= seq![a@, b@]);
    v
}

/// A list of three key names.
fn three(a: &str, b: &str, c: &str) -> (r: Vec<String>)
    ensures
        r.deep_view() == seq![a@, b@, c@],
{
    let mut v: Vec<String> = Vec::new();
    v.push(a.to_owned());
    v.push(b.to_owned());
    v.push(c.to_owned());
    assert(v.deep_view() =~= seq![a@, b@, c@]);
    v
}

impl Default for Config {
    /// The bindings that hold where no settings file says otherwise.
    fn default() -> (r: Config)
        ensures
            r.keybindings.next_panel.deep_view() == seq!["l"@, "Right"@, "Tab"@],
            r.keybindings.prev_panel.deep_view() == seq!["h"@, "Left"@, "BackTab"@],
            r.keybindings.move_up.deep_view() == seq!["k"@, "Up"@],
            r.keybindings.move_down.deep_view() == seq!["j"@, "Down"@],
            r.keybindings.mark_read.deep_view() == seq![" "@],
            r.keybindings.new_message.deep_view() == seq!["n"@],
            r.keybindings.reply.deep_view() == seq!["r"@],
            r.keybindings.delete.deep_view() == seq!["Backspace"@, "d"@],
            r.keybindings.archive.deep_view() == seq!["a"@],
            r.keybindings.quit.deep_view() == seq!["q"@],
    {
        Config {
            keybindings: Keybindings {
                next_panel: three("l", "Right", "Tab"),
                prev_panel: three("h", "Left", "BackTab"),
                move_up: two("k", "Up"),
                move_down: two("j", "Down"),
                mark_read: one(" "),
                new_message: one("n"),
                reply: one("r"),
                delete: two("Backspace", "d"),
                archive: one("a"),
                quit: one("q"),
            },
        }
    }
}

} // verus!
