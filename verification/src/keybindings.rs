use vstd::prelude::*;

use crate::input::{
    parse_input_binding, spec_binding_name, spec_key_name, spec_mouse_name, spec_parse_input_binding,
    InputBinding, Key, MouseButton,
};
use crate::first_index::{first_index, last_index, lemma_first_index, lemma_last_index, lemma_first_index_is, lemma_first_index_none};
use crate::text::{owned, str_equal};

verus! {

/// A key, its name (for keys outside the named set) seen as text.
pub enum KeyView {
    Space,
    Escape,
    Enter,
    Tab,
    Backspace,
    Delete,
    Home,
    End,
    PageUp,
    PageDown,
    ArrowUp,
    ArrowDown,
    ArrowLeft,
    ArrowRight,
    Letter(char),
    Digit(u8),
    Function(u8),
    Other(Seq<char>),
}

/// A binding seen as text.
pub enum BindingView {
    Key(KeyView),
    Mouse(MouseButton),
}

pub open spec fn key_view(k: Key) -> KeyView {
    match k {
        Key::Space => KeyView::Space,
        Key::Escape => KeyView::Escape,
        Key::Enter => KeyView::Enter,
        Key::Tab => KeyView::Tab,
        Key::Backspace => KeyView::Backspace,
        Key::Delete => KeyView::Delete,
        Key::Home => KeyView::Home,
        Key::End => KeyView::End,
        Key::PageUp => KeyView::PageUp,
        Key::PageDown => KeyView::PageDown,
        Key::ArrowUp => KeyView::ArrowUp,
        Key::ArrowDown => KeyView::ArrowDown,
        Key::ArrowLeft => KeyView::ArrowLeft,
        Key::ArrowRight => KeyView::ArrowRight,
        Key::Letter(c) => KeyView::Letter(c),
        Key::Digit(d) => KeyView::Digit(d),
        Key::Function(n) => KeyView::Function(n),
        Key::Other(name) => KeyView::Other(name@),
    }
}

pub open spec fn binding_view(b: InputBinding) -> BindingView {
    match b {
        InputBinding::Key(k) => BindingView::Key(key_view(k)),
        InputBinding::Mouse(m) => BindingView::Mouse(m),
    }
}

/// The name a binding is written with (see `spec_binding_name`).
pub open spec fn view_name(b: BindingView) -> Seq<char> {
    match b {
        BindingView::Key(k) => match k {
            KeyView::Space => "Space"@,
            KeyView::Escape => "Escape"@,
            KeyView::Enter => "Enter"@,
            KeyView::Tab => "Tab"@,
            KeyView::Backspace => "Backspace"@,
            KeyView::Delete => "Delete"@,
            KeyView::Home => "Home"@,
            KeyView::End => "End"@,
            KeyView::PageUp => "PageUp"@,
            KeyView::PageDown => "PageDown"@,
            KeyView::ArrowUp => "ArrowUp"@,
            KeyView::ArrowDown => "ArrowDown"@,
            KeyView::ArrowLeft => "ArrowLeft"@,
            KeyView::ArrowRight => "ArrowRight"@,
            KeyView::Letter(c) => spec_key_name(Key::Letter(c)),
            KeyView::Digit(d) => spec_key_name(Key::Digit(d)),
            KeyView::Function(n) => spec_key_name(Key::Function(n)),
            KeyView::Other(name) => name,
        },
        BindingView::Mouse(m) => spec_mouse_name(m),
    }
}

pub proof fn lemma_view_name(b: InputBinding)
    ensures
        view_name(binding_view(b)) == spec_binding_name(b),
{
}

/// A copy of a key.
pub fn copy_key(k: &Key) -> (r: Key)
    ensures
        key_view(r) == key_view(*k),
{
    match k {
        Key::Space => Key::Space,
        Key::Escape => Key::Escape,
        Key::Enter => Key::Enter,
        Key::Tab => Key::Tab,
        Key::Backspace => Key::Backspace,
        Key::Delete => Key::Delete,
        Key::Home => Key::Home,
        Key::End => Key::End,
        Key::PageUp => Key::PageUp,
        Key::PageDown => Key::PageDown,
        Key::ArrowUp => Key::ArrowUp,
        Key::ArrowDown => Key::ArrowDown,
        Key::ArrowLeft => Key::ArrowLeft,
        Key::ArrowRight => Key::ArrowRight,
        Key::Letter(c) => Key::Letter(*c),
        Key::Digit(d) => Key::Digit(*d),
        Key::Function(n) => Key::Function(*n),
        Key::Other(name) => Key::Other(owned(name.as_str())),
    }
}

/// A copy of a binding.
pub fn copy_binding(b: &InputBinding) -> (r: InputBinding)
    ensures
        binding_view(r) == binding_view(*b),
{
    match b {
        InputBinding::Key(k) => InputBinding::Key(copy_key(k)),
        InputBinding::Mouse(m) => InputBinding::Mouse(*m),
    }
}

/// Strict lexicographic order on texts, character by character (the order of
/// `str`'s comparison, since UTF-8 keeps the order of code points).
pub open spec fn lex_lt(a: Seq<char>, b: Seq<char>) -> bool
    decreases a.len(),
{
    if a.len() == 0 {
        b.len() > 0
    } else if b.len() == 0 {
        false
    } else if a[0] != b[0] {
        a[0] < b[0]
    } else {
        lex_lt(a.skip(1), b.skip(1))
    }
}

pub proof fn lemma_lex_irreflexive(a: Seq<char>)
    ensures
        !lex_lt(a, a),
    decreases a.len(),
{
    if a.len() > 0 {
        lemma_lex_irreflexive(a.skip(1));
    }
}

pub proof fn lemma_lex_transitive(a: Seq<char>, b: Seq<char>, c: Seq<char>)
    requires
        lex_lt(a, b),
        lex_lt(b, c),
    ensures
        lex_lt(a, c),
    decreases a.len(),
{
    if a.len() > 0 && b.len() > 0 && c.len() > 0 {
        if a[0] == b[0] && b[0] == c[0] {
            lemma_lex_transitive(a.skip(1), b.skip(1), c.skip(1));
        }
    }
}

pub proof fn lemma_lex_total(a: Seq<char>, b: Seq<char>)
    requires
        a != b,
    ensures
        lex_lt(a, b) || lex_lt(b, a),
    decreases a.len(),
{
    if a.len() > 0 && b.len() > 0 && a[0] == b[0] {
        if a.skip(1) == b.skip(1) {
            assert(a =~= seq![a[0]] + a.skip(1));
            assert(b =~= seq![b[0]] + b.skip(1));
        }
        lemma_lex_total(a.skip(1), b.skip(1));
    } else if a.len() == 0 && b.len() == 0 {
        assert(a =~= b);
    }
}

/// Whether `a` comes strictly before `b`.
pub fn str_less(a: &str, b: &str) -> (r: bool)
    ensures
        r == lex_lt(a@, b@),
{
    let n = a.unicode_len();
    let m = b.unicode_len();
    let mut i: usize = 0;
    assert(a@.skip(0) =~= a@);
    assert(b@.skip(0) =~= b@);
    while i < n && i < m
        invariant
            n == a@.len(),
            m == b@.len(),
            i <= n,
            i <= m,
            a@.take(i as int) == b@.take(i as int),
            lex_lt(a@, b@) == lex_lt(a@.skip(i as int), b@.skip(i as int)),
        decreases n - i,
    {
        let x = a.get_char(i);
        let y = b.get_char(i);
        assert(a@.skip(i as int)[0] == x);
        assert(b@.skip(i as int)[0] == y);
        if x != y {
            return x < y;
        }
        assert(a@.skip(i as int).skip(1) =~= a@.skip(i + 1));
        assert(b@.skip(i as int).skip(1) =~= b@.skip(i + 1));
        assert(a@.take(i + 1) =~= a@.take(i as int).push(x));
        assert(b@.take(i + 1) =~= b@.take(i as int).push(y));
        i = i + 1;
    }
    i < m
}

pub open spec fn actions_of(pairs: Seq<(String, InputBinding)>) -> Seq<Seq<char>> {
    pairs.map_values(|p: (String, InputBinding)| p.0@)
}

/// Whether the actions are in strictly increasing order.
pub open spec fn strictly_sorted(keys: Seq<Seq<char>>) -> bool {
    forall|i: int, j: int| 0 <= i < j < keys.len() ==> lex_lt(#[trigger] keys[i], #[trigger] keys[j])
}

/// Two strictly increasing sequences of texts that hold the same texts are
/// the same sequence.
pub proof fn lemma_sorted_unique(s: Seq<Seq<char>>, t: Seq<Seq<char>>)
    requires
        strictly_sorted(s),
        strictly_sorted(t),
        forall|x: Seq<char>| s.contains(x) <==> t.contains(x),
    ensures
        s == t,
    decreases s.len(),
{
    if s.len() == 0 {
        if t.len() > 0 {
            assert(t.contains(t[0]));
        }
        assert(s =~= t);
    } else {
        assert(s.contains(s[0]));
        assert(t.len() > 0);
        assert(t.contains(t[0]));
        if s[0] != t[0] {
            let k = choose|k: int| 0 <= k < t.len() && t[k] == s[0];
            let m = choose|m: int| 0 <= m < s.len() && s[m] == t[0];
            assert(k > 0);
            assert(m > 0);
            assert(lex_lt(t[0], t[k]));
            assert(lex_lt(s[0], s[m]));
            lemma_lex_transitive(s[0], t[0], s[0]);
            lemma_lex_irreflexive(s[0]);
        }
        let s1 = s.skip(1);
        let t1 = t.skip(1);
        assert forall|x: Seq<char>| s1.contains(x) <==> t1.contains(x) by {
            if s1.contains(x) {
                let i = choose|i: int| 0 <= i < s1.len() && s1[i] == x;
                assert(s[i + 1] == x);
                assert(lex_lt(s[0], s[i + 1]));
                lemma_lex_irreflexive(x);
                assert(t.contains(x));
                let j = choose|j: int| 0 <= j < t.len() && t[j] == x;
                assert(j != 0);
                assert(t1[j - 1] == x);
            }
            if t1.contains(x) {
                let i = choose|i: int| 0 <= i < t1.len() && t1[i] == x;
                assert(t[i + 1] == x);
                assert(lex_lt(t[0], t[i + 1]));
                lemma_lex_irreflexive(x);
                assert(s.contains(x));
                let j = choose|j: int| 0 <= j < s.len() && s[j] == x;
                assert(j != 0);
                assert(s1[j - 1] == x);
            }
        }
        assert forall|i: int, j: int| 0 <= i < j < s1.len() implies lex_lt(#[trigger] s1[i], #[trigger] s1[j]) by {
            assert(s1[i] == s[i + 1] && s1[j] == s[j + 1]);
        }
        assert forall|i: int, j: int| 0 <= i < j < t1.len() implies lex_lt(#[trigger] t1[i], #[trigger] t1[j]) by {
            assert(t1[i] == t[i + 1] && t1[j] == t[j + 1]);
        }
        lemma_sorted_unique(s1, t1);
        assert(s =~= seq![s[0]] + s1);
        assert(t =~= seq![t[0]] + t1);
    }
}

pub open spec fn names_view(v: Seq<(String, String)>) -> Seq<(Seq<char>, Seq<char>)> {
    v.map_values(|p: (String, String)| (p.0@, p.1@))
}

/// Whether a binding name names no binding.
pub open spec fn unparsable() -> spec_fn((Seq<char>, Seq<char>)) -> bool {
    |p: (Seq<char>, Seq<char>)| spec_parse_input_binding(p.1) is None
}

/// The bindings after the (action, binding name) pairs are applied in order;
/// a name that names no binding changes nothing.
pub open spec fn spec_apply_overrides(
    m: Map<Seq<char>, BindingView>,
    o: Seq<(Seq<char>, Seq<char>)>,
) -> Map<Seq<char>, BindingView>
    decreases o.len(),
{
    if o.len() == 0 {
        m
    } else {
        let m2 = spec_apply_overrides(m, o.drop_last());
        match spec_parse_input_binding(o.last().1) {
            Some(b) => m2.insert(o.last().0, binding_view(b)),
            None => m2,
        }
    }
}

/// Where an action is among the pairs.
pub open spec fn pos_of(pairs: Seq<(String, InputBinding)>, a: Seq<char>) -> int {
    choose|i: int| 0 <= i < pairs.len() && pairs[i].0@ == a
}

/// The key bindings: for each action, the key or mouse button that triggers it.
/// The pairs are kept sorted by action, each action once.
#[derive(Debug)]
pub struct KeyBindings {
    map: Vec<(String, InputBinding)>,
}

impl View for KeyBindings {
    type V = Map<Seq<char>, BindingView>;

    closed spec fn view(&self) -> Map<Seq<char>, BindingView> {
        Map::new(
            |a: Seq<char>| actions_of(self.map@).contains(a),
            |a: Seq<char>| binding_view(self.map@[pos_of(self.map@, a)].1),
        )
    }
}

impl KeyBindings {
    #[verifier::type_invariant]
    spec fn sorted(&self) -> bool {
        strictly_sorted(actions_of(self.map@))
    }

    proof fn lemma_view_at(&self, idx: int)
        requires
            0 <= idx < self.map@.len(),
            self.sorted(),
        ensures
            self@.contains_key(self.map@[idx].0@),
            self@[self.map@[idx].0@] == binding_view(self.map@[idx].1),
    {
        let a = self.map@[idx].0@;
        assert(actions_of(self.map@)[idx] == a);
        assert(actions_of(self.map@).contains(a));
        assert(0 <= idx < self.map@.len() && self.map@[idx].0@ == a);
        let j = pos_of(self.map@, a);
        if j != idx {
            assert(actions_of(self.map@)[j] == a);
            if idx < j {
                assert(lex_lt(actions_of(self.map@)[idx], actions_of(self.map@)[j]));
            } else {
                assert(lex_lt(actions_of(self.map@)[j], actions_of(self.map@)[idx]));
            }
            lemma_lex_irreflexive(a);
        }
        assert(self@.dom().contains(a));
    }

    /// No bindings.
    pub fn new() -> (r: KeyBindings)
        ensures
            r@ == Map::<Seq<char>, BindingView>::empty(),
    {
        let r = KeyBindings { map: Vec::new() };
        assert(r@ =~= Map::<Seq<char>, BindingView>::empty());
        r
    }

    fn find(&self, action: &str) -> (r: Result<usize, usize>)
        ensures
            match r {
                Ok(i) => i < self.map@.len() && self.map@[i as int].0@ == action@,
                Err(p) => p <= self.map@.len() && !self@.contains_key(action@) && (forall|k: int|
                    0 <= k < p ==> lex_lt(#[trigger] actions_of(self.map@)[k], action@)) && (forall|
                    k: int,
                |
                    p <= k < self.map@.len() ==> lex_lt(action@, #[trigger] actions_of(self.map@)[k])),
            },
    {
        proof {
            use_type_invariant(self);
        }
        let ghost keys = actions_of(self.map@);
        let mut i: usize = 0;
        while i < self.map.len()
            invariant
                keys == actions_of(self.map@),
                strictly_sorted(keys),
                i <= self.map@.len(),
                forall|k: int| 0 <= k < i ==> lex_lt(#[trigger] keys[k], action@),
            decreases self.map@.len() - i,
        {
            let name = self.map[i].0.as_str();
            assert(keys[i as int] == name@);
            if str_equal(name, action) {
                return Ok(i);
            }
            if !str_less(name, action) {
                proof {
                    lemma_lex_total(name@, action@);
                    assert forall|k: int| i <= k < self.map@.len() implies lex_lt(action@, #[trigger] keys[k]) by {
                        if k > i {
                            lemma_lex_transitive(action@, keys[i as int], keys[k]);
                        }
                    }
                    assert(!self@.contains_key(action@)) by {
                        if actions_of(self.map@).contains(action@) {
                            let k = choose|k: int| 0 <= k < keys.len() && keys[k] == action@;
                            if k < i {
                                lemma_lex_irreflexive(action@);
                            } else {
                                lemma_lex_irreflexive(action@);
                            }
                        }
                    }
                }
                return Err(i);
            }
            i = i + 1;
        }
        proof {
            assert(!self@.contains_key(action@)) by {
                if actions_of(self.map@).contains(action@) {
                    let k = choose|k: int| 0 <= k < keys.len() && keys[k] == action@;
                    lemma_lex_irreflexive(action@);
                }
            }
        }
        Err(i)
    }

    /// The binding of an action.
    pub fn get(&self, action: &str) -> (r: InputBinding)
        requires
            self@.contains_key(action@),
        ensures
            binding_view(r) == self@[action@],
    {
        proof {
            use_type_invariant(self);
        }
        match self.find(action) {
            Ok(i) => {
                proof {
                    self.lemma_view_at(i as int);
                }
                copy_binding(&self.map[i].1)
            },
            Err(_) => {
                proof {
                    assert(false);
                }
                InputBinding::Mouse(MouseButton::Left)
            },
        }
    }

    /// The key of an action bound to a key.
    pub fn key(&self, action: &str) -> (r: Key)
        requires
            self@.contains_key(action@),
            self@[action@] is Key,
        ensures
            self@[action@] == BindingView::Key(key_view(r)),
    {
        match self.get(action) {
            InputBinding::Key(k) => k,
            InputBinding::Mouse(_) => {
                proof {
                    assert(false);
                }
                Key::Space
            },
        }
    }

    /// The mouse button of an action bound to a mouse button.
    pub fn mouse(&self, action: &str) -> (r: MouseButton)
        requires
            self@.contains_key(action@),
            self@[action@] is Mouse,
        ensures
            self@[action@] == BindingView::Mouse(r),
    {
        match self.get(action) {
            InputBinding::Mouse(m) => m,
            InputBinding::Key(_) => {
                proof {
                    assert(false);
                }
                MouseButton::Left
            },
        }
    }

    /// Binds an action, replacing its former binding.
    pub fn set(&mut self, action: &str, binding: InputBinding)
        ensures
            final(self)@ == old(self)@.insert(action@, binding_view(binding)),
    {
        proof {
            use_type_invariant(&*self);
        }
        let ghost old_map = self.map@;
        match self.find(action) {
            Ok(i) => {
                let name = owned(action);
                let mut map: Vec<(String, InputBinding)> = Vec::new();
                std::mem::swap(&mut map, &mut self.map);
                map.set(i, (name, binding));
                assert(actions_of(map@) =~= actions_of(old_map));
                self.map = map;
                proof {
                    assert forall|a: Seq<char>| #[trigger] self@.contains_key(a) == old(self)@.insert(action@, binding_view(binding)).contains_key(a) by {
                        if a == action@ {
                            assert(actions_of(self.map@)[i as int] == a);
                        } else if actions_of(old_map).contains(a) {
                            let k = choose|k: int| 0 <= k < old_map.len() && actions_of(old_map)[k] == a;
                            assert(actions_of(self.map@)[k] == a);
                        }
                    }
                    use_type_invariant(&*self);
                    assert forall|a: Seq<char>| #[trigger] self@.contains_key(a) implies self@[a] == old(self)@.insert(action@, binding_view(binding))[a] by {
                        if a == action@ {
                            self.lemma_view_at(i as int);
                        } else {
                            let k = choose|k: int| 0 <= k < self.map@.len() && actions_of(self.map@)[k] == a;
                            assert(self.map@[k].0@ == a);
                            self.lemma_view_at(k);
                            assert(old_map[k] == self.map@[k]);
                            old(self).lemma_view_at(k);
                        }
                    }
                    assert(self@ =~= old(self)@.insert(action@, binding_view(binding)));
                }
            },
            Err(p) => {
                let name = owned(action);
                let mut map: Vec<(String, InputBinding)> = Vec::new();
                std::mem::swap(&mut map, &mut self.map);
                map.insert(p, (name, binding));
                proof {
                    let keys = actions_of(map@);
                    let ok = actions_of(old_map);
                    assert(keys =~= ok.take(p as int).push(action@) + ok.skip(p as int));
                    assert forall|i: int, j: int| 0 <= i < j < keys.len() implies lex_lt(#[trigger] keys[i], #[trigger] keys[j]) by {
                        if j < p {
                        } else if j == p {
                        } else if i < p {
                            lemma_lex_transitive(keys[i], action@, keys[j]);
                        } else if i == p {
                        } else {
                        }
                    }
                }
                self.map = map;
                proof {
                    use_type_invariant(&*self);
                    let ok = actions_of(old_map);
                    assert forall|a: Seq<char>| #[trigger] self@.contains_key(a) == old(self)@.insert(action@, binding_view(binding)).contains_key(a) by {
                        if a == action@ {
                            assert(actions_of(self.map@)[p as int] == a);
                        } else if ok.contains(a) {
                            let k = choose|k: int| 0 <= k < old_map.len() && ok[k] == a;
                            if k < p {
                                assert(actions_of(self.map@)[k] == a);
                            } else {
                                assert(actions_of(self.map@)[k + 1] == a);
                            }
                        } else if actions_of(self.map@).contains(a) {
                            let k = choose|k: int| 0 <= k < self.map@.len() && actions_of(self.map@)[k] == a;
                            if k < p {
                                assert(ok[k] == a);
                            } else if k > p {
                                assert(ok[k - 1] == a);
                            }
                        }
                    }
                    assert forall|a: Seq<char>| #[trigger] self@.contains_key(a) implies self@[a] == old(self)@.insert(action@, binding_view(binding))[a] by {
                        let k = choose|k: int| 0 <= k < self.map@.len() && actions_of(self.map@)[k] == a;
                        assert(self.map@[k].0@ == a);
                        self.lemma_view_at(k);
                        if k < p {
                            assert(old_map[k] == self.map@[k]);
                            old(self).lemma_view_at(k);
                        } else if k > p {
                            assert(old_map[k - 1] == self.map@[k]);
                            old(self).lemma_view_at(k - 1);
                        }
                    }
                    assert(self@ =~= old(self)@.insert(action@, binding_view(binding)));
                }
            },
        }
    }

    /// Applies overrides from the settings: each (action, binding name) whose
    /// name names a binding rebinds the action; the others are ignored.
    pub fn apply_overrides(&mut self, overrides: &Vec<(String, String)>)
        ensures
            final(self)@ == spec_apply_overrides(old(self)@, names_view(overrides@)),
    {
        let ghost o = names_view(overrides@);
        let mut i: usize = 0;
        while i < overrides.len()
            invariant
                i <= overrides@.len(),
                o == names_view(overrides@),
                self@ == spec_apply_overrides(old(self)@, o.take(i as int)),
            decreases overrides@.len() - i,
        {
            assert(o.take(i + 1).drop_last() =~= o.take(i as int));
            assert(o.take(i + 1).last() == (overrides@[i as int].0@, overrides@[i as int].1@));
            match parse_input_binding(overrides[i].1.as_str()) {
                Some(b) => {
                    self.set(overrides[i].0.as_str(), b);
                },
                None => {},
            }
            i = i + 1;
        }
        assert(o.take(overrides@.len() as int) =~= o);
    }

    /// The bindings of a bindings file, given as (action, binding name) pairs:
    /// every pair binds its action. The first pair whose name names no binding
    /// is the error.
    pub fn from_names(pairs: &Vec<(String, String)>) -> (r: Result<KeyBindings, (String, String)>)
        ensures
            match r {
                Ok(kb) => first_index(names_view(pairs@), unparsable()) < 0 && kb@ == spec_apply_overrides(
                    Map::empty(),
                    names_view(pairs@),
                ),
                Err((a, n)) => first_index(names_view(pairs@), unparsable()) >= 0 && (a@, n@)
                    == names_view(pairs@)[first_index(names_view(pairs@), unparsable())],
            },
    {
        let ghost o = names_view(pairs@);
        let mut i: usize = 0;
        while i < pairs.len()
            invariant
                i <= pairs@.len(),
                o == names_view(pairs@),
                forall|k: int| 0 <= k < i ==> !unparsable()(#[trigger] o[k]),
            decreases pairs@.len() - i,
        {
            if parse_input_binding(pairs[i].1.as_str()).is_none() {
                proof {
                    lemma_first_index_is(o, unparsable(), i as int);
                }
                return Err((owned(pairs[i].0.as_str()), owned(pairs[i].1.as_str())));
            }
            i = i + 1;
        }
        proof {
            lemma_first_index_none(o, unparsable());
        }
        let mut kb = KeyBindings::new();
        kb.apply_overrides(pairs);
        Ok(kb)
    }

    /// Every action with its binding, in the order of the actions.
    pub fn all(&self) -> (r: Vec<(String, InputBinding)>)
        ensures
            strictly_sorted(actions_of(r@)),
            forall|i: int|
                0 <= i < r@.len() ==> self@.contains_key(#[trigger] r@[i].0@) && self@[r@[i].0@]
                    == binding_view(r@[i].1),
            forall|a: Seq<char>| #[trigger] self@.contains_key(a) ==> actions_of(r@).contains(a),
    {
        proof {
            use_type_invariant(self);
        }
        let mut out: Vec<(String, InputBinding)> = Vec::new();
        let mut i: usize = 0;
        while i < self.map.len()
            invariant
                i <= self.map@.len(),
                out@.len() == i,
                strictly_sorted(actions_of(self.map@)),
                forall|k: int| 0 <= k < i ==> (#[trigger] out@[k]).0@ == self.map@[k].0@ && binding_view(out@[k].1) == binding_view(self.map@[k].1),
            decreases self.map@.len() - i,
        {
            out.push((owned(self.map[i].0.as_str()), copy_binding(&self.map[i].1)));
            i = i + 1;
        }
        proof {
            assert(actions_of(out@) =~= actions_of(self.map@));
            assert forall|k: int| 0 <= k < out@.len() implies self@.contains_key(#[trigger] out@[k].0@) && self@[out@[k].0@] == binding_view(out@[k].1) by {
                self.lemma_view_at(k);
            }
        }
        out
    }
}

/// Reading an action after binding it gives the binding written.
pub proof fn law_get_after_set(m: Map<Seq<char>, BindingView>, a: Seq<char>, b: BindingView, q: Seq<char>)
    ensures
        m.insert(a, b).contains_key(a),
        m.insert(a, b)[a] == b,
        q != a ==> (m.insert(a, b).contains_key(q) == m.contains_key(q) && (m.contains_key(q) ==> m.insert(a, b)[q] == m[q])),
{
}

/// A binding saved under its name in the settings and applied back when the
/// settings are read gives the same binding, for every binding a name can
/// express.
pub proof fn law_saved_binding_reloads(m: Map<Seq<char>, BindingView>, a: Seq<char>, b: InputBinding)
    requires
        crate::input::is_nameable(b),
    ensures
        spec_apply_overrides(m, seq![(a, spec_binding_name(b))]) == m.insert(a, binding_view(b)),
{
    crate::input::law_binding_name_roundtrip(b);
    let o = seq![(a, spec_binding_name(b))];
    assert(o.drop_last() =~= Seq::<(Seq<char>, Seq<char>)>::empty());
    assert(o.last() == (a, spec_binding_name(b)));
    assert(spec_apply_overrides(m, o.drop_last()) == m);
    assert(spec_parse_input_binding(o.last().1) == Some(b));
}

/// An override that sets action `a` to a binding: it names `a` and its binding
/// name names a binding.
pub open spec fn sets_action(a: Seq<char>) -> spec_fn((Seq<char>, Seq<char>)) -> bool {
    |p: (Seq<char>, Seq<char>)| p.0 == a && spec_parse_input_binding(p.1) is Some
}

/// Applying overrides binds each action to the binding of the last override
/// that names it with a name naming a binding; an action no such override
/// names keeps its binding (or stays unbound).
pub proof fn law_last_override_wins(m: Map<Seq<char>, BindingView>, o: Seq<(Seq<char>, Seq<char>)>, a: Seq<char>)
    ensures
        ({
            let p = last_index(o, sets_action(a));
            let r = spec_apply_overrides(m, o);
            if p >= 0 {
                r.contains_key(a) && r[a] == binding_view(spec_parse_input_binding(o[p].1)->0)
            } else {
                r.contains_key(a) == m.contains_key(a) && (m.contains_key(a) ==> r[a] == m[a])
            }
        }),
    decreases o.len(),
{
    if o.len() > 0 {
        let t = o.drop_last();
        law_last_override_wins(m, t, a);
        let q = o.last();
        let m2 = spec_apply_overrides(m, t);
        let r = spec_apply_overrides(m, o);
        if sets_action(a)(q) {
            assert(last_index(o, sets_action(a)) == o.len() - 1);
            assert(r == m2.insert(a, binding_view(spec_parse_input_binding(q.1)->0)));
        } else {
            assert(last_index(o, sets_action(a)) == last_index(t, sets_action(a)));
            match spec_parse_input_binding(q.1) {
                Some(b) => {
                    assert(q.0 != a);
                    assert(r == m2.insert(q.0, binding_view(b)));
                },
                None => {
                    assert(r == m2);
                },
            }
            let p = last_index(t, sets_action(a));
            if p >= 0 {
                lemma_last_index(t, sets_action(a));
                assert(t[p] == o[p]);
            }
        }
    }
}

} // verus!
