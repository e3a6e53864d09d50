use vstd::prelude::*;

use crate::first_index::{first_index, lemma_first_index_is, lemma_first_index_none};
use crate::text::{decimal, digit_char, owned, push_char, push_decimal, push_str, str_equal};

verus! {

/// A keyboard key that a binding can name.
#[derive(Debug, Clone, PartialEq, Eq, Hash)]
pub enum Key {
    Space,
    Escape,
    Enter,
    Tab,
    Backspace,
    Delete,
    Home,
    End,
    PageUp,
    PageDown,
    ArrowUp,
    ArrowDown,
    ArrowLeft,
    ArrowRight,
    /// A letter key `KeyA`..`KeyZ`, holding the upper-case letter.
    Letter(char),
    /// A digit key `Digit0`..`Digit9`.
    Digit(u8),
    /// A function key `F1`..`F12`.
    Function(u8),
    /// Any other key, by its name.
    Other(String),
}

/// A mouse button.
#[derive(Debug, Clone, Copy, PartialEq, Eq, Structural, Hash)]
pub enum MouseButton {
    Left,
    Right,
    Middle,
    Back,
    Forward,
    Other(u16),
}

/// What an action is bound to.
#[derive(Debug, Clone, PartialEq, Eq, Hash)]
pub enum InputBinding {
    Key(Key),
    Mouse(MouseButton),
}

pub open spec fn is_digit(c: char) -> bool {
    '0' <= c && c <= '9'
}

pub open spec fn digit_value(c: char) -> int {
    (c as u32) - ('0' as u32)
}

/// The value `str::parse::<u8>` gives for a text of at most two characters:
/// an optional `+` followed by decimal digits.
pub open spec fn spec_parse_small(t: Seq<char>) -> Option<int> {
    if t.len() == 1 && is_digit(t[0]) {
        Some(digit_value(t[0]))
    } else if t.len() == 2 && t[0] == '+' && is_digit(t[1]) {
        Some(digit_value(t[1]))
    } else if t.len() == 2 && is_digit(t[0]) && is_digit(t[1]) {
        Some(10 * digit_value(t[0]) + digit_value(t[1]))
    } else {
        None
    }
}

/// The key a binding name stands for: the fixed names `Space`, `Escape`, ...,
/// `KeyA`..`KeyZ`, `Digit0`..`Digit9` and `F1`..`F12` (the number as `u8`
/// text, so `F05` and `F+5` also give `F5`).
pub open spec fn spec_parse_key_code(n: Seq<char>) -> Option<Key> {
    if n == "Space"@ {
        Some(Key::Space)
    } else if n == "Escape"@ {
        Some(Key::Escape)
    } else if n == "Enter"@ {
        Some(Key::Enter)
    } else if n == "Tab"@ {
        Some(Key::Tab)
    } else if n == "Backspace"@ {
        Some(Key::Backspace)
    } else if n == "Delete"@ {
        Some(Key::Delete)
    } else if n == "Home"@ {
        Some(Key::Home)
    } else if n == "End"@ {
        Some(Key::End)
    } else if n == "PageUp"@ {
        Some(Key::PageUp)
    } else if n == "PageDown"@ {
        Some(Key::PageDown)
    } else if n == "ArrowUp"@ {
        Some(Key::ArrowUp)
    } else if n == "ArrowDown"@ {
        Some(Key::ArrowDown)
    } else if n == "ArrowLeft"@ {
        Some(Key::ArrowLeft)
    } else if n == "ArrowRight"@ {
        Some(Key::ArrowRight)
    } else if n.len() == 4 && n[0] == 'K' && n[1] == 'e' && n[2] == 'y' {
        if 'A' <= n[3] && n[3] <= 'Z' {
            Some(Key::Letter(n[3]))
        } else {
            None
        }
    } else if n.len() == 6 && n.take(5) == "Digit"@ {
        if is_digit(n[5]) {
            Some(Key::Digit(digit_value(n[5]) as u8))
        } else {
            None
        }
    } else if 1 <= n.len() <= 3 && n[0] == 'F' {
        match spec_parse_small(n.skip(1)) {
            Some(v) => if 1 <= v <= 12 {
                Some(Key::Function(v as u8))
            } else {
                None
            },
            None => None,
        }
    } else {
        None
    }
}

/// The mouse button a binding name stands for.
pub open spec fn spec_parse_mouse_button(n: Seq<char>) -> Option<MouseButton> {
    if n == "MouseLeft"@ {
        Some(MouseButton::Left)
    } else if n == "MouseRight"@ {
        Some(MouseButton::Right)
    } else if n == "MouseMiddle"@ {
        Some(MouseButton::Middle)
    } else {
        None
    }
}

/// A binding name: a key name, else a mouse-button name.
pub open spec fn spec_parse_input_binding(n: Seq<char>) -> Option<InputBinding> {
    match spec_parse_key_code(n) {
        Some(k) => Some(InputBinding::Key(k)),
        None => match spec_parse_mouse_button(n) {
            Some(m) => Some(InputBinding::Mouse(m)),
            None => None,
        },
    }
}

fn char_at(s: &str, i: usize) -> (c: char)
    requires
        i < s@.len(),
    ensures
        c == s@[i as int],
{
    s.get_char(i)
}

fn parse_small(s: &str, from: usize) -> (r: Option<u8>)
    requires
        from <= s@.len(),
    ensures
        match r {
            Some(v) => spec_parse_small(s@.skip(from as int)) == Some(v as int),
            None => spec_parse_small(s@.skip(from as int)) is None,
        },
{
    let n = s.unicode_len();
    let ghost t = s@.skip(from as int);
    let len = n - from;
    if len == 1 {
        let c = char_at(s, from);
        if '0' <= c && c <= '9' {
            return Some((c as u32 - '0' as u32) as u8);
        }
        return None;
    }
    if len == 2 {
        let c0 = char_at(s, from);
        let c1 = char_at(s, from + 1);
        if c0 == '+' && '0' <= c1 && c1 <= '9' {
            return Some((c1 as u32 - '0' as u32) as u8);
        }
        if '0' <= c0 && c0 <= '9' && '0' <= c1 && c1 <= '9' {
            let v = 10 * (c0 as u32 - '0' as u32) + (c1 as u32 - '0' as u32);
            return Some(v as u8);
        }
        return None;
    }
    None
}

/// Parses a key name as used in the key-binding files.
pub fn parse_key_code(name: &str) -> (r: Option<Key>)
    ensures
        r == spec_parse_key_code(name@),
{
    if str_equal(name, "Space") {
        return Some(Key::Space);
    }
    if str_equal(name, "Escape") {
        return Some(Key::Escape);
    }
    if str_equal(name, "Enter") {
        return Some(Key::Enter);
    }
    if str_equal(name, "Tab") {
        return Some(Key::Tab);
    }
    if str_equal(name, "Backspace") {
        return Some(Key::Backspace);
    }
    if str_equal(name, "Delete") {
        return Some(Key::Delete);
    }
    if str_equal(name, "Home") {
        return Some(Key::Home);
    }
    if str_equal(name, "End") {
        return Some(Key::End);
    }
    if str_equal(name, "PageUp") {
        return Some(Key::PageUp);
    }
    if str_equal(name, "PageDown") {
        return Some(Key::PageDown);
    }
    if str_equal(name, "ArrowUp") {
        return Some(Key::ArrowUp);
    }
    if str_equal(name, "ArrowDown") {
        return Some(Key::ArrowDown);
    }
    if str_equal(name, "ArrowLeft") {
        return Some(Key::ArrowLeft);
    }
    if str_equal(name, "ArrowRight") {
        return Some(Key::ArrowRight);
    }
    let n = name.unicode_len();
    if n == 4 && char_at(name, 0) == 'K' && char_at(name, 1) == 'e' && char_at(name, 2) == 'y' {
        let c = char_at(name, 3);
        if 'A' <= c && c <= 'Z' {
            return Some(Key::Letter(c));
        }
        return None;
    }
    if n == 6 && char_at(name, 0) == 'D' && char_at(name, 1) == 'i' && char_at(name, 2) == 'g'
        && char_at(name, 3) == 'i' && char_at(name, 4) == 't' {
        proof {
            reveal_strlit("Digit");
        }
        assert(name@.take(5) =~= "Digit"@);
        let c = char_at(name, 5);
        if '0' <= c && c <= '9' {
            return Some(Key::Digit((c as u32 - '0' as u32) as u8));
        }
        return None;
    }
    if n == 6 {
        proof {
            reveal_strlit("Digit");
        }
        assert(name@.take(5) != "Digit"@) by {
            if name@.take(5) == "Digit"@ {
                assert(name@.take(5)[0] == 'D');
                assert(name@.take(5)[1] == 'i');
                assert(name@.take(5)[2] == 'g');
                assert(name@.take(5)[3] == 'i');
                assert(name@.take(5)[4] == 't');
            }
        }
    }
    if 1 <= n && n <= 3 && char_at(name, 0) == 'F' {
        let v = parse_small(name, 1);
        match v {
            Some(v) => {
                if 1 <= v && v <= 12 {
                    return Some(Key::Function(v));
                }
                return None;
            },
            None => return None,
        }
    }
    None
}

/// Parses a mouse-button name as used in the key-binding files.
pub fn parse_mouse_button(name: &str) -> (r: Option<MouseButton>)
    ensures
        r == spec_parse_mouse_button(name@),
{
    if str_equal(name, "MouseLeft") {
        Some(MouseButton::Left)
    } else if str_equal(name, "MouseRight") {
        Some(MouseButton::Right)
    } else if str_equal(name, "MouseMiddle") {
        Some(MouseButton::Middle)
    } else {
        None
    }
}

/// Parses a binding name: a key name, else a mouse-button name.
pub fn parse_input_binding(name: &str) -> (r: Option<InputBinding>)
    ensures
        r == spec_parse_input_binding(name@),
{
    if let Some(key) = parse_key_code(name) {
        return Some(InputBinding::Key(key));
    }
    if let Some(mouse) = parse_mouse_button(name) {
        return Some(InputBinding::Mouse(mouse));
    }
    None
}


/// The name a key is written with in binding files.
pub open spec fn spec_key_name(k: Key) -> Seq<char> {
    match k {
        Key::Space => "Space"@,
        Key::Escape => "Escape"@,
        Key::Enter => "Enter"@,
        Key::Tab => "Tab"@,
        Key::Backspace => "Backspace"@,
        Key::Delete => "Delete"@,
        Key::Home => "Home"@,
        Key::End => "End"@,
        Key::PageUp => "PageUp"@,
        Key::PageDown => "PageDown"@,
        Key::ArrowUp => "ArrowUp"@,
        Key::ArrowDown => "ArrowDown"@,
        Key::ArrowLeft => "ArrowLeft"@,
        Key::ArrowRight => "ArrowRight"@,
        Key::Letter(c) => "Key"@.push(c),
        Key::Digit(d) => "Digit"@ + decimal(d as int),
        Key::Function(n) => "F"@ + decimal(n as int),
        Key::Other(name) => name@,
    }
}

/// The name a mouse button is written with in binding files.
pub open spec fn spec_mouse_name(m: MouseButton) -> Seq<char> {
    match m {
        MouseButton::Left => "MouseLeft"@,
        MouseButton::Right => "MouseRight"@,
        MouseButton::Middle => "MouseMiddle"@,
        MouseButton::Back => "MouseBack"@,
        MouseButton::Forward => "MouseForward"@,
        MouseButton::Other(_) => "MouseOther"@,
    }
}

pub open spec fn spec_binding_name(b: InputBinding) -> Seq<char> {
    match b {
        InputBinding::Key(k) => spec_key_name(k),
        InputBinding::Mouse(m) => spec_mouse_name(m),
    }
}

/// The name of a binding as stored in the settings file: always one that
/// `parse_input_binding` reads back to the same binding (mouse buttons carry
/// the `Mouse` prefix the parser expects).
pub fn binding_name(b: &InputBinding) -> (r: String)
    ensures
        r@ == spec_binding_name(*b),
{
    match b {
        InputBinding::Key(k) => match k {
            Key::Space => owned("Space"),
            Key::Escape => owned("Escape"),
            Key::Enter => owned("Enter"),
            Key::Tab => owned("Tab"),
            Key::Backspace => owned("Backspace"),
            Key::Delete => owned("Delete"),
            Key::Home => owned("Home"),
            Key::End => owned("End"),
            Key::PageUp => owned("PageUp"),
            Key::PageDown => owned("PageDown"),
            Key::ArrowUp => owned("ArrowUp"),
            Key::ArrowDown => owned("ArrowDown"),
            Key::ArrowLeft => owned("ArrowLeft"),
            Key::ArrowRight => owned("ArrowRight"),
            Key::Letter(c) => {
                let mut s = owned("Key");
                push_char(&mut s, *c);
                s
            },
            Key::Digit(d) => {
                let mut s = owned("Digit");
                push_decimal(&mut s, *d as u64);
                s
            },
            Key::Function(n) => {
                let mut s = owned("F");
                push_decimal(&mut s, *n as u64);
                s
            },
            Key::Other(name) => name.clone(),
        },
        InputBinding::Mouse(m) => match m {
            MouseButton::Left => owned("MouseLeft"),
            MouseButton::Right => owned("MouseRight"),
            MouseButton::Middle => owned("MouseMiddle"),
            MouseButton::Back => owned("MouseBack"),
            MouseButton::Forward => owned("MouseForward"),
            MouseButton::Other(_) => owned("MouseOther"),
        },
    }
}

/// The bindings that a binding file can express: the named keys, the letters
/// `A`-`Z`, the digits, `F1`-`F12`, and the left, right and middle buttons.
pub open spec fn is_nameable(b: InputBinding) -> bool {
    match b {
        InputBinding::Key(k) => match k {
            Key::Letter(c) => 'A' <= c && c <= 'Z',
            Key::Digit(d) => d <= 9,
            Key::Function(n) => 1 <= n <= 12,
            Key::Other(_) => false,
            _ => true,
        },
        InputBinding::Mouse(m) => m == MouseButton::Left || m == MouseButton::Right || m
            == MouseButton::Middle,
    }
}

proof fn lemma_letter_roundtrip(c: char)
    requires
        'A' <= c <= 'Z',
    ensures
        spec_parse_key_code("Key"@.push(c)) == Some(Key::Letter(c)),
{
    reveal_strlit("Space");
    reveal_strlit("Escape");
    reveal_strlit("Enter");
    reveal_strlit("Tab");
    reveal_strlit("Backspace");
    reveal_strlit("Delete");
    reveal_strlit("Home");
    reveal_strlit("End");
    reveal_strlit("PageUp");
    reveal_strlit("PageDown");
    reveal_strlit("ArrowUp");
    reveal_strlit("ArrowDown");
    reveal_strlit("ArrowLeft");
    reveal_strlit("ArrowRight");
    reveal_strlit("Key");
    reveal_strlit("Digit");
    reveal_strlit("F");
    reveal_strlit("MouseLeft");
    reveal_strlit("MouseRight");
    reveal_strlit("MouseMiddle");
    let n = "Key"@.push(c);
    assert(n =~= seq!['K', 'e', 'y', c]);
    assert(n != "Home"@) by { assert("Home"@[0] == 'H'); }
}

proof fn lemma_digit_roundtrip(d: u8)
    requires
        d <= 9,
    ensures
        spec_parse_key_code("Digit"@ + decimal(d as int)) == Some(Key::Digit(d)),
{
    reveal_strlit("Space");
    reveal_strlit("Escape");
    reveal_strlit("Enter");
    reveal_strlit("Tab");
    reveal_strlit("Backspace");
    reveal_strlit("Delete");
    reveal_strlit("Home");
    reveal_strlit("End");
    reveal_strlit("PageUp");
    reveal_strlit("PageDown");
    reveal_strlit("ArrowUp");
    reveal_strlit("ArrowDown");
    reveal_strlit("ArrowLeft");
    reveal_strlit("ArrowRight");
    reveal_strlit("Key");
    reveal_strlit("Digit");
    reveal_strlit("F");
    reveal_strlit("MouseLeft");
    reveal_strlit("MouseRight");
    reveal_strlit("MouseMiddle");
    let n = "Digit"@ + decimal(d as int);
    assert(n =~= seq!['D', 'i', 'g', 'i', 't', digit_char(d as int)]);
    assert(n.take(5) =~= "Digit"@);
    assert(n != "Escape"@) by { assert("Escape"@[0] == 'E'); }
    assert(n != "Delete"@) by { assert("Delete"@[1] == 'e'); }
    assert(n != "PageUp"@) by { assert("PageUp"@[0] == 'P'); }
}

proof fn lemma_function_roundtrip(f: u8)
    requires
        1 <= f <= 12,
    ensures
        spec_parse_key_code("F"@ + decimal(f as int)) == Some(Key::Function(f)),
{
    reveal_strlit("Space");
    reveal_strlit("Escape");
    reveal_strlit("Enter");
    reveal_strlit("Tab");
    reveal_strlit("Backspace");
    reveal_strlit("Delete");
    reveal_strlit("Home");
    reveal_strlit("End");
    reveal_strlit("PageUp");
    reveal_strlit("PageDown");
    reveal_strlit("ArrowUp");
    reveal_strlit("ArrowDown");
    reveal_strlit("ArrowLeft");
    reveal_strlit("ArrowRight");
    reveal_strlit("Key");
    reveal_strlit("Digit");
    reveal_strlit("F");
    reveal_strlit("MouseLeft");
    reveal_strlit("MouseRight");
    reveal_strlit("MouseMiddle");
    let n = "F"@ + decimal(f as int);
    if f < 10 {
        assert(n.skip(1) =~= seq![digit_char(f as int)]);
    } else {
        assert(decimal(1) == seq![digit_char(1)]);
        assert(digit_char(1) == '1');
        assert(decimal(f as int) == decimal(1) + seq![digit_char((f % 10) as int)]);
        assert(n.skip(1) =~= seq!['1', digit_char((f % 10) as int)]);
        assert(n != "Tab"@) by { assert("Tab"@[0] == 'T'); }
        assert(n != "End"@) by { assert("End"@[0] == 'E'); }
    }
    assert(n[0] == 'F');
}

proof fn lemma_mouse_roundtrip(m: MouseButton)
    requires
        m == MouseButton::Left || m == MouseButton::Right || m == MouseButton::Middle,
    ensures
        spec_parse_input_binding(spec_mouse_name(m)) == Some(InputBinding::Mouse(m)),
{
    reveal_strlit("Space");
    reveal_strlit("Escape");
    reveal_strlit("Enter");
    reveal_strlit("Tab");
    reveal_strlit("Backspace");
    reveal_strlit("Delete");
    reveal_strlit("Home");
    reveal_strlit("End");
    reveal_strlit("PageUp");
    reveal_strlit("PageDown");
    reveal_strlit("ArrowUp");
    reveal_strlit("ArrowDown");
    reveal_strlit("ArrowLeft");
    reveal_strlit("ArrowRight");
    reveal_strlit("Key");
    reveal_strlit("Digit");
    reveal_strlit("F");
    reveal_strlit("MouseLeft");
    reveal_strlit("MouseRight");
    reveal_strlit("MouseMiddle");
    let n = spec_mouse_name(m);
    assert(n[0] == 'M');
    assert(n != "Backspace"@) by { assert("Backspace"@[0] == 'B'); }
    assert(n != "ArrowDown"@) by { assert("ArrowDown"@[0] == 'A'); }
    assert(n != "ArrowLeft"@) by { assert("ArrowLeft"@[0] == 'A'); }
    assert(n != "ArrowRight"@) by { assert("ArrowRight"@[0] == 'A'); }
    assert(spec_parse_key_code(n) is None);
}

proof fn lemma_named_key_roundtrip(k: Key)
    requires
        !(k is Letter || k is Digit || k is Function || k is Other),
    ensures
        spec_parse_key_code(spec_key_name(k)) == Some(k),
{
    reveal_strlit("Space");
    reveal_strlit("Escape");
    reveal_strlit("Enter");
    reveal_strlit("Tab");
    reveal_strlit("Backspace");
    reveal_strlit("Delete");
    reveal_strlit("Home");
    reveal_strlit("End");
    reveal_strlit("PageUp");
    reveal_strlit("PageDown");
    reveal_strlit("ArrowUp");
    reveal_strlit("ArrowDown");
    reveal_strlit("ArrowLeft");
    reveal_strlit("ArrowRight");
    reveal_strlit("Key");
    reveal_strlit("Digit");
    reveal_strlit("F");
    reveal_strlit("MouseLeft");
    reveal_strlit("MouseRight");
    reveal_strlit("MouseMiddle");
    assert("Escape"@ != "Space"@) by { assert("Escape"@[0] == 'E'); }
    assert("Delete"@ != "Escape"@) by { assert("Escape"@[0] == 'E'); }
    assert("PageUp"@ != "Escape"@) by { assert("Escape"@[0] == 'E'); }
    assert("PageUp"@ != "Delete"@) by { assert("Delete"@[0] == 'D'); }
    assert("Enter"@ != "Space"@) by { assert("Space"@[0] == 'S'); }
    assert("End"@ != "Tab"@) by { assert("Tab"@[0] == 'T'); }
    assert("ArrowDown"@ != "Backspace"@) by { assert("Backspace"@[0] == 'B'); }
    assert("ArrowLeft"@ != "Backspace"@) by { assert("Backspace"@[0] == 'B'); }
    assert("ArrowLeft"@ != "ArrowDown"@) by { assert("ArrowDown"@[5] == 'D'); }
}

/// Writing a binding's name to the settings and reading it back gives the same
/// binding, for every binding a binding file can express.
pub proof fn law_binding_name_roundtrip(b: InputBinding)
    requires
        is_nameable(b),
    ensures
        spec_parse_input_binding(spec_binding_name(b)) == Some(b),
{
    match b {
        InputBinding::Key(k) => match k {
            Key::Letter(c) => lemma_letter_roundtrip(c),
            Key::Digit(d) => lemma_digit_roundtrip(d),
            Key::Function(f) => lemma_function_roundtrip(f),
            _ => lemma_named_key_roundtrip(k),
        },
        InputBinding::Mouse(m) => lemma_mouse_roundtrip(m),
    }
}

} // verus!
