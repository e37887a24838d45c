//! Keyboard shortcut configuration.
//!
//! A shortcut is a modifier set plus one key, held as the key's upper-case
//! character. The four application actions each own one shortcut; a
//! replacement is accepted only when it collides with none of them.

use vstd::prelude::*;
use vstd::string::{StrSliceExecFns, StringExecFns};

verus! {

/// A key a shortcut may use: a letter or a digit.
pub open spec fn valid_key(c: char) -> bool {
    ('A' <= c && c <= 'Z') || ('0' <= c && c <= '9')
}

/// A name `from_name` accepts: one letter (either case) or one digit.
pub open spec fn valid_key_name(c: char) -> bool {
    ('A' <= c && c <= 'Z') || ('a' <= c && c <= 'z') || ('0' <= c && c <= '9')
}

/// The upper-case form of a key name.
pub open spec fn upper_key(c: char) -> char {
    if 'a' <= c && c <= 'z' {
        ((c as u8) - 32) as char
    } else {
        c
    }
}

/// One keyboard shortcut: modifiers plus a key.
#[derive(Clone, Copy, Debug, PartialEq, Eq, Structural)]
pub struct Shortcut {
    pub ctrl: bool,
    pub alt: bool,
    pub shift: bool,
    pub key: char,
}

impl Shortcut {
    pub open spec fn wf(self) -> bool {
        valid_key(self.key)
    }

    /// A shortcut from a modifier set and a key.
    pub fn new(ctrl: bool, alt: bool, shift: bool, key: char) -> (r: Shortcut)
        requires
            valid_key(key),
        ensures
            r == (Shortcut { ctrl, alt, shift, key }),
            r.wf(),
    {
        Shortcut { ctrl, alt, shift, key }
    }
}

/// The field a shortcut belongs to.
#[derive(Clone, Copy, Debug, PartialEq, Eq, Structural)]
pub enum ShortcutAction {
    Save,
    CopyToClipboard,
    Test,
    TakeScreenshot,
}

/// The shortcuts of the four application actions.
#[derive(Clone, Copy, Debug, PartialEq, Eq, Structural)]
pub struct AllKeyboardShortcuts {
    pub save: Shortcut,
    pub copy_to_clipboard: Shortcut,
    pub test: Shortcut,
    pub take_screenshot: Shortcut,
}

/// The human-readable form: each active modifier followed by `+`, then the
/// key.
pub open spec fn readable_spec(s: Shortcut) -> Seq<char> {
    (if s.ctrl {
        seq!['C', 'T', 'R', 'L', '+']
    } else {
        Seq::<char>::empty()
    }) + (if s.alt {
        seq!['A', 'L', 'T', '+']
    } else {
        Seq::<char>::empty()
    }) + (if s.shift {
        seq!['S', 'H', 'I', 'F', 'T', '+']
    } else {
        Seq::<char>::empty()
    }) + seq![s.key]
}

impl AllKeyboardShortcuts {
    pub open spec fn wf(self) -> bool {
        self.save.wf() && self.copy_to_clipboard.wf() && self.test.wf()
            && self.take_screenshot.wf()
    }

    /// The defaults: control plus S, C, T and D.
    pub fn new() -> (r: AllKeyboardShortcuts)
        ensures
            r.wf(),
            r.save == (Shortcut { ctrl: true, alt: false, shift: false, key: 'S' }),
            r.copy_to_clipboard == (Shortcut { ctrl: true, alt: false, shift: false, key: 'C' }),
            r.test == (Shortcut { ctrl: true, alt: false, shift: false, key: 'T' }),
            r.take_screenshot == (Shortcut { ctrl: true, alt: false, shift: false, key: 'D' }),
    {
        AllKeyboardShortcuts {
            save: Shortcut { ctrl: true, alt: false, shift: false, key: 'S' },
            copy_to_clipboard: Shortcut { ctrl: true, alt: false, shift: false, key: 'C' },
            test: Shortcut { ctrl: true, alt: false, shift: false, key: 'T' },
            take_screenshot: Shortcut { ctrl: true, alt: false, shift: false, key: 'D' },
        }
    }

    /// Replace one action's shortcut; the caller checks validity first with
    /// `check_if_valid`.
    pub fn update_keyboard_shortcut(&mut self, action: ShortcutAction, new_shortcut: Shortcut)
        requires
            old(self).wf(),
            new_shortcut.wf(),
        ensures
            final(self).wf(),
            final(self).save == if action == ShortcutAction::Save {
                new_shortcut
            } else {
                old(self).save
            },
            final(self).copy_to_clipboard == if action == ShortcutAction::CopyToClipboard {
                new_shortcut
            } else {
                old(self).copy_to_clipboard
            },
            final(self).test == if action == ShortcutAction::Test {
                new_shortcut
            } else {
                old(self).test
            },
            final(self).take_screenshot == if action == ShortcutAction::TakeScreenshot {
                new_shortcut
            } else {
                old(self).take_screenshot
            },
    {
        match action {
            ShortcutAction::Save => {
                self.save = new_shortcut;
            },
            ShortcutAction::CopyToClipboard => {
                self.copy_to_clipboard = new_shortcut;
            },
            ShortcutAction::Test => {
                self.test = new_shortcut;
            },
            ShortcutAction::TakeScreenshot => {
                self.take_screenshot = new_shortcut;
            },
        }
    }

    /// Whether a shortcut may be assigned: true exactly when it collides
    /// with none of the four, and otherwise the first action it collides
    /// with.
    pub fn check_if_valid(&self, shortcut: &Shortcut) -> (r: (bool, Option<ShortcutAction>))
        ensures
            r.0 <==> (*shortcut != self.save && *shortcut != self.copy_to_clipboard && *shortcut
                != self.test && *shortcut != self.take_screenshot),
            r.1 == if *shortcut == self.save {
                Some(ShortcutAction::Save)
            } else if *shortcut == self.copy_to_clipboard {
                Some(ShortcutAction::CopyToClipboard)
            } else if *shortcut == self.test {
                Some(ShortcutAction::Test)
            } else if *shortcut == self.take_screenshot {
                Some(ShortcutAction::TakeScreenshot)
            } else {
                None::<ShortcutAction>
            },
    {
        if *shortcut == self.save {
            (false, Some(ShortcutAction::Save))
        } else if *shortcut == self.copy_to_clipboard {
            (false, Some(ShortcutAction::CopyToClipboard))
        } else if *shortcut == self.test {
            (false, Some(ShortcutAction::Test))
        } else if *shortcut == self.take_screenshot {
            (false, Some(ShortcutAction::TakeScreenshot))
        } else {
            (true, None)
        }
    }

    /// One action's shortcut in a human-readable form, such as control plus
    /// the key S.
    pub fn human_readable_shorcut(&self, action: ShortcutAction) -> (r: String)
        requires
            self.wf(),
        ensures
            r@ == readable_spec(
                match action {
                    ShortcutAction::Save => self.save,
                    ShortcutAction::CopyToClipboard => self.copy_to_clipboard,
                    ShortcutAction::Test => self.test,
                    ShortcutAction::TakeScreenshot => self.take_screenshot,
                },
            ),
    {
        let s: Shortcut = match action {
            ShortcutAction::Save => self.save,
            ShortcutAction::CopyToClipboard => self.copy_to_clipboard,
            ShortcutAction::Test => self.test,
            ShortcutAction::TakeScreenshot => self.take_screenshot,
        };
        let mut out = String::from_str("");
        if s.ctrl {
            out.append("CTRL+");
        }
        if s.alt {
            out.append("ALT+");
        }
        if s.shift {
            out.append("SHIFT+");
        }
        out.append(key_str(s.key));
        proof {
            reveal_strlit("");
            reveal_strlit("CTRL+");
            reveal_strlit("ALT+");
            reveal_strlit("SHIFT+");
            assert(out@ =~= readable_spec(s));
        }
        out
    }

    /// The key a single-character name denotes, letters taken
    /// case-insensitively.
    pub fn from_name(&self, key: &str) -> (r: char)
        requires
            key@.len() == 1,
            valid_key_name(key@[0]),
        ensures
            r == upper_key(key@[0]),
            valid_key(r),
    {
        let c = key.get_char(0);
        if 'a' <= c && c <= 'z' {
            ((c as u8) - 32) as char
        } else {
            c
        }
    }
}

impl Default for AllKeyboardShortcuts {
    /// The default shortcut set.
    fn default() -> (r: AllKeyboardShortcuts)
        ensures
            r.wf(),
            r.save == (Shortcut { ctrl: true, alt: false, shift: false, key: 'S' }),
            r.copy_to_clipboard == (Shortcut { ctrl: true, alt: false, shift: false, key: 'C' }),
            r.test == (Shortcut { ctrl: true, alt: false, shift: false, key: 'T' }),
            r.take_screenshot == (Shortcut { ctrl: true, alt: false, shift: false, key: 'D' }),
    {
        AllKeyboardShortcuts::new()
    }
}

/// The one-character string of a key, used to append it to the readable
/// form.
fn key_str(c: char) -> (r: &'static str)
    requires
        valid_key(c),
    ensures
        r@ == seq![c],
{
    let r: &'static str = if c == 'A' {
        "A"
    } else if c == 'B' {
        "B"
    } else if c == 'C' {
        "C"
    } else if c == 'D' {
        "D"
    } else if c == 'E' {
        "E"
    } else if c == 'F' {
        "F"
    } else if c == 'G' {
        "G"
    } else if c == 'H' {
        "H"
    } else if c == 'I' {
        "I"
    } else if c == 'J' {
        "J"
    } else if c == 'K' {
        "K"
    } else if c == 'L' {
        "L"
    } else if c == 'M' {
        "M"
    } else if c == 'N' {
        "N"
    } else if c == 'O' {
        "O"
    } else if c == 'P' {
        "P"
    } else if c == 'Q' {
        "Q"
    } else if c == 'R' {
        "R"
    } else if c == 'S' {
        "S"
    } else if c == 'T' {
        "T"
    } else if c == 'U' {
        "U"
    } else if c == 'V' {
        "V"
    } else if c == 'W' {
        "W"
    } else if c == 'X' {
        "X"
    } else if c == 'Y' {
        "Y"
    } else if c == 'Z' {
        "Z"
    } else if c == '0' {
        "0"
    } else if c == '1' {
        "1"
    } else if c == '2' {
        "2"
    } else if c == '3' {
        "3"
    } else if c == '4' {
        "4"
    } else if c == '5' {
        "5"
    } else if c == '6' {
        "6"
    } else if c == '7' {
        "7"
    } else if c == '8' {
        "8"
    } else {
        "9"
    };
    proof {
        reveal_strlit("A");
        reveal_strlit("B");
        reveal_strlit("C");
        reveal_strlit("D");
        reveal_strlit("E");
        reveal_strlit("F");
        reveal_strlit("G");
        reveal_strlit("H");
        reveal_strlit("I");
        reveal_strlit("J");
        reveal_strlit("K");
        reveal_strlit("L");
        reveal_strlit("M");
        reveal_strlit("N");
        reveal_strlit("O");
        reveal_strlit("P");
        reveal_strlit("Q");
        reveal_strlit("R");
        reveal_strlit("S");
        reveal_strlit("T");
        reveal_strlit("U");
        reveal_strlit("V");
        reveal_strlit("W");
        reveal_strlit("X");
        reveal_strlit("Y");
        reveal_strlit("Z");
        reveal_strlit("0");
        reveal_strlit("1");
        reveal_strlit("2");
        reveal_strlit("3");
        reveal_strlit("4");
        reveal_strlit("5");
        reveal_strlit("6");
        reveal_strlit("7");
        reveal_strlit("8");
        reveal_strlit("9");
        assert(r@ =~= seq![c]);
    }
    r
}

} // verus!
