use vstd::prelude::*;

use crate::keybindings::names_view;
use crate::text::{owned, str_equal};

verus! {

/// The user's settings: the key bindings changed from the defaults, as
/// (action, binding name) pairs, each action once.
#[derive(Debug, Clone, Default)]
pub struct Settings {
    pub keybindings: Vec<(String, String)>,
}

/// The overrides as a map from action to binding name.
pub open spec fn overrides_map(o: Seq<(Seq<char>, Seq<char>)>) -> Map<Seq<char>, Seq<char>>
    decreases o.len(),
{
    if o.len() == 0 {
        Map::empty()
    } else {
        overrides_map(o.drop_last()).insert(o.last().0, o.last().1)
    }
}

proof fn lemma_overrides_update(o: Seq<(Seq<char>, Seq<char>)>, i: int, v: (Seq<char>, Seq<char>))
    requires
        0 <= i < o.len(),
        o[i].0 == v.0,
        forall|k: int| 0 <= k < o.len() && k != i ==> (#[trigger] o[k]).0 != v.0,
    ensures
        overrides_map(o.update(i, v)) == overrides_map(o).insert(v.0, v.1),
    decreases o.len(),
{
    let u = o.update(i, v);
    if i == o.len() - 1 {
        assert(u.drop_last() =~= o.drop_last());
        assert(overrides_map(u) =~= overrides_map(o).insert(v.0, v.1));
    } else {
        assert(u.drop_last() =~= o.drop_last().update(i, v));
        lemma_overrides_update(o.drop_last(), i, v);
        assert(o.last().0 != v.0);
        assert(overrides_map(u) =~= overrides_map(o).insert(v.0, v.1));
    }
}

impl Settings {
    /// Records the binding name of an action.
    pub fn set_binding(&mut self, action: &str, name: &str)
        requires
            forall|i: int, j: int|
                0 <= i < j < old(self).keybindings@.len() ==> (#[trigger] old(self).keybindings@[i]).0@
                    != (#[trigger] old(self).keybindings@[j]).0@,
        ensures
            overrides_map(names_view(final(self).keybindings@)) == overrides_map(
                names_view(old(self).keybindings@),
            ).insert(action@, name@),
            forall|i: int, j: int|
                0 <= i < j < final(self).keybindings@.len() ==> (#[trigger] final(self).keybindings@[i]).0@
                    != (#[trigger] final(self).keybindings@[j]).0@,
    {
        let ghost o = names_view(self.keybindings@);
        let mut i: usize = 0;
        while i < self.keybindings.len()
            invariant
                i <= self.keybindings@.len(),
                self.keybindings@ == old(self).keybindings@,
                o == names_view(self.keybindings@),
                forall|a: int, b: int|
                    0 <= a < b < self.keybindings@.len() ==> (#[trigger] self.keybindings@[a]).0@
                        != (#[trigger] self.keybindings@[b]).0@,
                forall|k: int| 0 <= k < i ==> (#[trigger] self.keybindings@[k]).0@ != action@,
            decreases self.keybindings@.len() - i,
        {
            if str_equal(self.keybindings[i].0.as_str(), action) {
                let ghost before = self.keybindings@;
                self.keybindings.set(i, (owned(action), owned(name)));
                proof {
                    assert(names_view(self.keybindings@) =~= o.update(i as int, (action@, name@)));
                    assert forall|k: int| 0 <= k < o.len() && k != i implies (#[trigger] o[k]).0 != action@ by {
                        if k > i {
                            assert(before[k].0@ != before[i as int].0@);
                        } else {
                            assert(before[k].0@ != before[i as int].0@);
                        }
                    }
                    lemma_overrides_update(o, i as int, (action@, name@));
                    assert forall|a: int, b: int| 0 <= a < b < self.keybindings@.len() implies (#[trigger] self.keybindings@[a]).0@
                        != (#[trigger] self.keybindings@[b]).0@ by {
                        assert(self.keybindings@[a].0@ == before[a].0@);
                        assert(self.keybindings@[b].0@ == before[b].0@);
                    }
                }
                return;
            }
            i = i + 1;
        }
        let ghost before = self.keybindings@;
        self.keybindings.push((owned(action), owned(name)));
        assert(names_view(self.keybindings@).drop_last() =~= o);
    }
}

} // verus!
