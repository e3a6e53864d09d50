use vstd::prelude::*;

use crate::text::{
    ascii_lower, ascii_upper, char_to_uppercase, is_ascii_char, lowercase_of, push_char, push_str, to_lowercase_string, uppercase_of,
};

verus! {

/// Identifier of an item or fluid, e.g. `iron_ore`.
#[derive(Debug, Clone, Eq, Hash)]
pub struct ResourceId(pub String);

impl View for ResourceId {
    type V = Seq<char>;

    open spec fn view(&self) -> Seq<char> {
        self.0@
    }
}

impl PartialEq for ResourceId {
    fn eq(&self, other: &Self) -> (r: bool) {
        self.0 == other.0
    }
}

impl vstd::std_specs::cmp::PartialEqSpecImpl for ResourceId {
    open spec fn obeys_eq_spec() -> bool {
        true
    }

    open spec fn eq_spec(&self, other: &ResourceId) -> bool {
        self.0@ == other.0@
    }
}

/// An amount of a resource that something costs.
#[derive(Debug, Clone)]
pub struct Cost {
    pub resource: ResourceId,
    pub amount: u32,
}

/// `display_name` of an identifier: each `_` becomes a space and the first
/// character of every `_`-separated word is upper-cased.
pub open spec fn spec_display_name(s: Seq<char>) -> Seq<char>
    decreases s.len(),
{
    if s.len() == 0 {
        Seq::empty()
    } else {
        let prefix = s.drop_last();
        let c = s.last();
        if c == '_' {
            spec_display_name(prefix).push(' ')
        } else if prefix.len() == 0 || prefix.last() == '_' {
            spec_display_name(prefix) + uppercase_of(c)
        } else {
            spec_display_name(prefix).push(c)
        }
    }
}

/// Every character of the text is ASCII.
pub open spec fn all_ascii(s: Seq<char>) -> bool {
    forall|k: int| 0 <= k < s.len() ==> is_ascii_char(#[trigger] s[k])
}

/// `spec_display_name` on ASCII text: the first letter of each word raised
/// from `a`-`z` to `A`-`Z`.
pub open spec fn ascii_display_name(s: Seq<char>) -> Seq<char>
    decreases s.len(),
{
    if s.len() == 0 {
        Seq::empty()
    } else {
        let prefix = s.drop_last();
        let c = s.last();
        if c == '_' {
            ascii_display_name(prefix).push(' ')
        } else if prefix.len() == 0 || prefix.last() == '_' {
            ascii_display_name(prefix).push(ascii_upper(c))
        } else {
            ascii_display_name(prefix).push(c)
        }
    }
}

impl ResourceId {
    /// Builds an identifier from a name; identifiers are kept in lowercase.
    pub fn new(id: &str) -> (r: ResourceId)
        ensures
            r@ == lowercase_of(id@),
            all_ascii(id@) ==> r@ == id@.map_values(|c: char| ascii_lower(c)),
    {
        let l = to_lowercase_string(id);
        proof {
            if all_ascii(id@) {
                assert(l@ =~= id@.map_values(|c: char| ascii_lower(c)));
            }
        }
        ResourceId(l)
    }

    /// A copy of the identifier with the same text.
    pub fn duplicate(&self) -> (r: ResourceId)
        ensures
            r@ == self@,
    {
        ResourceId(self.0.clone())
    }

    /// Human-readable name: `iron_ore` becomes `Iron Ore`.
    pub fn display_name(&self) -> (r: String)
        ensures
            r@ == spec_display_name(self@),
            all_ascii(self@) ==> r@ == ascii_display_name(self@),
    {
        let s = self.0.as_str();
        let n = s.unicode_len();
        let mut out = String::new();
        let mut i: usize = 0;
        let mut prev_underscore = true;
        while i < n
            invariant
                n == s@.len(),
                s@ == self@,
                i <= n,
                out@ == spec_display_name(s@.take(i as int)),
                all_ascii(s@) ==> out@ == ascii_display_name(s@.take(i as int)),
                prev_underscore == (i == 0 || s@[i - 1] == '_'),
            decreases n - i,
        {
            let c = s.get_char(i);
            assert(s@.take(i + 1).drop_last() =~= s@.take(i as int));
            if c == '_' {
                push_char(&mut out, ' ');
                prev_underscore = true;
            } else if prev_underscore {
                let up = char_to_uppercase(c);
                proof {
                    if all_ascii(s@) {
                        assert(is_ascii_char(s@[i as int]));
                        assert(up@ =~= seq![ascii_upper(c)]);
                    }
                }
                push_str(&mut out, up.as_str());
                prev_underscore = false;
            } else {
                push_char(&mut out, c);
                prev_underscore = false;
            }
            i = i + 1;
        }
        assert(s@.take(n as int) =~= s@);
        out
    }
}

} // verus!
