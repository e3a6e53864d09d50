use vstd::prelude::*;

use crate::discovery::{contains_str, strings_view};
use crate::first_index::{first_index, lemma_first_index, lemma_first_index_is, lemma_first_index_none};
use crate::text::{owned, push_str, str_equal};

verus! {

/// Whether a path has a `..` component: two dots between separators (or the
/// ends of the path).
pub open spec fn has_parent_component(p: Seq<char>) -> bool {
    exists|i: int|
        0 <= i && i + 2 <= p.len() && #[trigger] p[i] == '.' && p[i + 1] == '.' && (i == 0 || p[i
            - 1] == '/') && (i + 2 == p.len() || p[i + 2] == '/')
}

/// Whether a user-given relative path stays inside the directory it is joined
/// to: it is not absolute (does not start with `/`) and has no `..` component.
/// Paths are read as on Unix targets, as `Path::components` reads them there:
/// `/` is the only separator, `\` is an ordinary character and there are no
/// drive prefixes.
pub open spec fn spec_is_safe_path(p: Seq<char>) -> bool {
    !(p.len() > 0 && p[0] == '/') && !has_parent_component(p)
}

/// Checks a path given by a mod before it is joined to a mod directory.
pub fn is_safe_path(path: &str) -> (r: bool)
    ensures
        r == spec_is_safe_path(path@),
{
    let n = path.unicode_len();
    if n > 0 && path.get_char(0) == '/' {
        return false;
    }
    let mut i: usize = 0;
    while n >= 2 && i <= n - 2
        invariant
            n == path@.len(),
            i <= n,
            forall|k: int|
                0 <= k < i ==> !(k + 2 <= path@.len() && #[trigger] path@[k] == '.' && path@[k + 1]
                    == '.' && (k == 0 || path@[k - 1] == '/') && (k + 2 == path@.len() || path@[k
                    + 2] == '/')),
        decreases n - i,
    {
        let c0 = path.get_char(i);
        let c1 = path.get_char(i + 1);
        let before_ok = i == 0 || path.get_char(i - 1) == '/';
        let after_ok = i + 2 == n || path.get_char(i + 2) == '/';
        if c0 == '.' && c1 == '.' && before_ok && after_ok {
            return false;
        }
        i = i + 1;
    }
    assert(!has_parent_component(path@)) by {
        if has_parent_component(path@) {
            let k = choose|k: int|
                0 <= k && k + 2 <= path@.len() && #[trigger] path@[k] == '.' && path@[k + 1] == '.'
                    && (k == 0 || path@[k - 1] == '/') && (k + 2 == path@.len() || path@[k + 2]
                    == '/');
            assert(k < i);
        }
    }
    true
}

/// The manifest of a mod (`mod.toml`).
#[derive(Debug, Clone)]
pub struct ModManifest {
    pub id: String,
    pub name: String,
    pub version: String,
    pub description: Option<String>,
    pub author: Option<String>,
}

/// A mod found on disk, with its directory and whether it is enabled.
#[derive(Debug, Clone)]
pub struct ActiveMod {
    pub manifest: ModManifest,
    pub path: String,
    pub enabled: bool,
}

/// What is saved of the mods: the identifiers of the disabled ones.
#[derive(Debug, Clone, Default)]
pub struct ModSettings {
    pub disabled: Vec<String>,
}

/// All mods found, in priority order (the base game first).
#[derive(Debug, Clone)]
pub struct ModRegistry {
    pub mods: Vec<ActiveMod>,
}

pub open spec fn mod_has_id(id: Seq<char>) -> spec_fn(ActiveMod) -> bool {
    |m: ActiveMod| m.manifest.id@ == id
}

/// The first mod with the identifier, or -1.
pub open spec fn mod_index(mods: Seq<ActiveMod>, id: Seq<char>) -> int {
    first_index(mods, mod_has_id(id))
}

/// Whether a mod is enabled under saved settings: the base mod always is, the
/// others unless they are listed as disabled.
pub open spec fn enabled_under(m: ActiveMod, disabled: Seq<Seq<char>>) -> bool {
    if m.manifest.id@ == "base"@ {
        true
    } else {
        !disabled.contains(m.manifest.id@)
    }
}

/// The identifiers of the disabled mods, in order.
pub open spec fn spec_disabled_ids(mods: Seq<ActiveMod>) -> Seq<Seq<char>>
    decreases mods.len(),
{
    if mods.len() == 0 {
        Seq::empty()
    } else {
        let rest = spec_disabled_ids(mods.drop_last());
        if mods.last().enabled {
            rest
        } else {
            rest.push(mods.last().manifest.id@)
        }
    }
}

/// The indices of the enabled mods, in priority order.
pub open spec fn spec_enabled_indices(mods: Seq<ActiveMod>) -> Seq<int>
    decreases mods.len(),
{
    if mods.len() == 0 {
        Seq::empty()
    } else {
        let rest = spec_enabled_indices(mods.drop_last());
        if mods.last().enabled {
            rest.push(mods.len() - 1)
        } else {
            rest
        }
    }
}

pub open spec fn usizes(v: Seq<usize>) -> Seq<int> {
    v.map_values(|i: usize| i as int)
}

impl ModRegistry {
    /// Applies saved settings: the base mod is enabled, every other mod is
    /// enabled unless the settings list it as disabled.
    pub fn apply_settings(&mut self, settings: &ModSettings)
        ensures
            final(self).mods@.len() == old(self).mods@.len(),
            forall|i: int|
                0 <= i < final(self).mods@.len() ==> (#[trigger] final(self).mods@[i]).manifest
                    == old(self).mods@[i].manifest && final(self).mods@[i].path == old(
                    self,
                ).mods@[i].path && final(self).mods@[i].enabled == enabled_under(
                    old(self).mods@[i],
                    strings_view(settings.disabled@),
                ),
    {
        let n = self.mods.len();
        let mut i: usize = 0;
        while i < n
            invariant
                n == self.mods@.len(),
                n == old(self).mods@.len(),
                i <= n,
                forall|k: int|
                    0 <= k < n ==> (#[trigger] self.mods@[k]).manifest == old(self).mods@[k].manifest
                        && self.mods@[k].path == old(self).mods@[k].path,
                forall|k: int|
                    0 <= k < i ==> (#[trigger] self.mods@[k]).enabled == enabled_under(
                        old(self).mods@[k],
                        strings_view(settings.disabled@),
                    ),
                forall|k: int| i <= k < n ==> #[trigger] self.mods@[k] == old(self).mods@[k],
            decreases n - i,
        {
            let on = if str_equal(self.mods[i].manifest.id.as_str(), "base") {
                true
            } else {
                !contains_str(&settings.disabled, self.mods[i].manifest.id.as_str())
            };
            self.mods[i].enabled = on;
            i = i + 1;
        }
    }

    /// Switches a mod on or off. The base mod cannot be switched, and an
    /// identifier that names no mod changes nothing. Returns whether the
    /// settings have to be saved (for every identifier but `base`).
    pub fn toggle(&mut self, id: &str) -> (save: bool)
        ensures
            save == (id@ != "base"@),
            final(self).mods@.len() == old(self).mods@.len(),
            forall|i: int|
                0 <= i < final(self).mods@.len() ==> (#[trigger] final(self).mods@[i]).manifest
                    == old(self).mods@[i].manifest && final(self).mods@[i].path == old(
                    self,
                ).mods@[i].path && final(self).mods@[i].enabled == (if id@ != "base"@ && i
                    == mod_index(old(self).mods@, id@) {
                    !old(self).mods@[i].enabled
                } else {
                    old(self).mods@[i].enabled
                }),
    {
        if str_equal(id, "base") {
            return false;
        }
        match self.get_index(id) {
            Some(i) => {
                let on = !self.mods[i].enabled;
                self.mods[i].enabled = on;
            },
            None => {},
        }
        true
    }

    fn get_index(&self, id: &str) -> (r: Option<usize>)
        ensures
            match r {
                Some(i) => mod_index(self.mods@, id@) == i as int && i < self.mods@.len(),
                None => mod_index(self.mods@, id@) < 0,
            },
    {
        let ghost p = mod_has_id(id@);
        let mut i: usize = 0;
        while i < self.mods.len()
            invariant
                i <= self.mods@.len(),
                p == mod_has_id(id@),
                forall|k: int| 0 <= k < i ==> !p(#[trigger] self.mods@[k]),
            decreases self.mods@.len() - i,
        {
            if str_equal(self.mods[i].manifest.id.as_str(), id) {
                proof {
                    lemma_first_index_is(self.mods@, p, i as int);
                }
                return Some(i);
            }
            i = i + 1;
        }
        proof {
            lemma_first_index_none(self.mods@, p);
        }
        None
    }

    /// The settings that record the current state: the disabled mods, in order.
    pub fn save_settings(&self) -> (r: ModSettings)
        ensures
            strings_view(r.disabled@) == spec_disabled_ids(self.mods@),
    {
        let mut disabled: Vec<String> = Vec::new();
        let mut i: usize = 0;
        while i < self.mods.len()
            invariant
                i <= self.mods@.len(),
                strings_view(disabled@) == spec_disabled_ids(self.mods@.take(i as int)),
            decreases self.mods@.len() - i,
        {
            assert(self.mods@.take(i + 1).drop_last() =~= self.mods@.take(i as int));
            assert(self.mods@.take(i + 1).last() == self.mods@[i as int]);
            if !self.mods[i].enabled {
                let ghost before = strings_view(disabled@);
                disabled.push(owned(self.mods[i].manifest.id.as_str()));
                assert(strings_view(disabled@) =~= before.push(self.mods@[i as int].manifest.id@));
            }
            i = i + 1;
        }
        assert(self.mods@.take(self.mods@.len() as int) =~= self.mods@);
        ModSettings { disabled }
    }

    /// The first mod with the identifier.
    pub fn get(&self, id: &str) -> (r: Option<&ActiveMod>)
        ensures
            match r {
                Some(m) => mod_index(self.mods@, id@) >= 0 && *m == self.mods@[mod_index(
                    self.mods@,
                    id@,
                )],
                None => mod_index(self.mods@, id@) < 0,
            },
    {
        match self.get_index(id) {
            Some(i) => Some(&self.mods[i]),
            None => None,
        }
    }

    /// The indices of the enabled mods, in priority order.
    pub fn enabled(&self) -> (r: Vec<usize>)
        ensures
            usizes(r@) == spec_enabled_indices(self.mods@),
    {
        let mut out: Vec<usize> = Vec::new();
        let mut i: usize = 0;
        while i < self.mods.len()
            invariant
                i <= self.mods@.len(),
                usizes(out@) == spec_enabled_indices(self.mods@.take(i as int)),
            decreases self.mods@.len() - i,
        {
            assert(self.mods@.take(i + 1).drop_last() =~= self.mods@.take(i as int));
            assert(self.mods@.take(i + 1).last() == self.mods@[i as int]);
            if self.mods[i].enabled {
                let ghost before = usizes(out@);
                out.push(i);
                assert(usizes(out@) =~= before.push(i as int));
            }
            i = i + 1;
        }
        assert(self.mods@.take(self.mods@.len() as int) =~= self.mods@);
        out
    }

    /// The mods a single data file is looked for in: the enabled ones, the last
    /// first (the last enabled mod that has the file wins); `None` when the
    /// file name is not a safe relative path.
    pub fn load_data_order(&self, filename: &str) -> (r: Option<Vec<usize>>)
        ensures
            match r {
                Some(v) => spec_is_safe_path(filename@) && usizes(v@) == spec_enabled_indices(
                    self.mods@,
                ).reverse(),
                None => !spec_is_safe_path(filename@),
            },
    {
        if !is_safe_path(filename) {
            return None;
        }
        let e = self.enabled();
        let mut out: Vec<usize> = Vec::new();
        let mut k: usize = e.len();
        while k > 0
            invariant
                k <= e@.len(),
                usizes(out@) == usizes(e@).skip(k as int).reverse(),
            decreases k,
        {
            k = k - 1;
            let ghost before = usizes(out@);
            out.push(e[k]);
            assert(usizes(out@) =~= before.push(e@[k as int] as int));
            assert(usizes(e@).skip(k as int).reverse() =~= usizes(e@).skip(k + 1).reverse().push(
                e@[k as int] as int,
            ));
        }
        assert(usizes(e@).skip(0) =~= usizes(e@));
        Some(out)
    }

    /// The mods every version of a data file is collected from: the enabled
    /// ones in priority order; `None` when the file name is not a safe path.
    pub fn load_all_data_order(&self, filename: &str) -> (r: Option<Vec<usize>>)
        ensures
            match r {
                Some(v) => spec_is_safe_path(filename@) && usizes(v@) == spec_enabled_indices(
                    self.mods@,
                ),
                None => !spec_is_safe_path(filename@),
            },
    {
        if !is_safe_path(filename) {
            return None;
        }
        Some(self.enabled())
    }

    /// The file a texture is stored in (`<stem>_<layer>.png`, under a mod's
    /// `textures` directory) and the mods it is looked for in, the last enabled
    /// first; `None` when the stem or the layer is not a safe path.
    pub fn load_texture_order(&self, stem: &str, layer: &str) -> (r: Option<(String, Vec<usize>)>)
        ensures
            match r {
                Some((f, v)) => spec_is_safe_path(stem@) && spec_is_safe_path(layer@) && f@ == stem@
                    + "_"@ + layer@ + ".png"@ && usizes(v@) == spec_enabled_indices(
                    self.mods@,
                ).reverse(),
                None => !(spec_is_safe_path(stem@) && spec_is_safe_path(layer@)),
            },
    {
        if !is_safe_path(stem) || !is_safe_path(layer) {
            return None;
        }
        let mut f = owned(stem);
        push_str(&mut f, "_");
        push_str(&mut f, layer);
        push_str(&mut f, ".png");
        match self.load_data_order(stem) {
            Some(v) => Some((f, v)),
            None => None,
        }
    }

    /// The directory of the base mod.
    pub fn base_path(&self) -> (r: Option<String>)
        ensures
            match r {
                Some(p) => mod_index(self.mods@, "base"@) >= 0 && p@ == self.mods@[mod_index(
                    self.mods@,
                    "base"@,
                )].path@,
                None => mod_index(self.mods@, "base"@) < 0,
            },
    {
        match self.get("base") {
            Some(m) => Some(owned(m.path.as_str())),
            None => None,
        }
    }
}

/// The enabled flags after a toggle, as `toggle` states them.
pub open spec fn toggled(mods: Seq<ActiveMod>, id: Seq<char>, i: int) -> bool {
    if id != "base"@ && i == mod_index(mods, id) {
        !mods[i].enabled
    } else {
        mods[i].enabled
    }
}

/// Toggling a mod twice leaves every mod as it was.
pub proof fn law_toggle_twice_restores(mods: Seq<ActiveMod>, once: Seq<ActiveMod>, id: Seq<char>)
    requires
        once.len() == mods.len(),
        forall|i: int|
            0 <= i < mods.len() ==> (#[trigger] once[i]).manifest == mods[i].manifest
                && once[i].enabled == toggled(mods, id, i),
    ensures
        forall|i: int| 0 <= i < mods.len() ==> toggled(once, id, i) == mods[i].enabled,
{
    assert(mod_index(once, id) == mod_index(mods, id)) by {
        lemma_first_index(mods, mod_has_id(id));
        lemma_first_index(once, mod_has_id(id));
        assert forall|k: int| 0 <= k < mods.len() implies mod_has_id(id)(#[trigger] once[k]) == mod_has_id(id)(mods[k]) by {}
        let a = mod_index(mods, id);
        let b = mod_index(once, id);
        if a >= 0 {
            assert(mod_has_id(id)(once[a]));
        }
        if b >= 0 {
            assert(mod_has_id(id)(mods[b]));
        }
    }
}

/// The base mod is never switched off by a toggle.
pub proof fn law_base_stays_enabled(mods: Seq<ActiveMod>, id: Seq<char>, i: int)
    requires
        0 <= i < mods.len(),
        mods[i].manifest.id@ == "base"@,
        mods[i].enabled,
    ensures
        toggled(mods, id, i),
{
    lemma_first_index(mods, mod_has_id(id));
}

/// The mods in priority order: the base game's mod (the first one with the
/// identifier `base`) moved to the front, the others in the order found.
pub open spec fn base_first(mods: Seq<ActiveMod>) -> Seq<ActiveMod> {
    let p = mod_index(mods, "base"@);
    if p >= 0 {
        seq![mods[p]] + mods.take(p) + mods.skip(p + 1)
    } else {
        mods
    }
}

impl ModRegistry {
    /// The registry of the mods found on disk, the base game's mod first.
    pub fn from_found(found: Vec<ActiveMod>) -> (r: ModRegistry)
        ensures
            r.mods@ == base_first(found@),
    {
        let ghost m0 = found@;
        let mut mods = found;
        assert(mods@ == m0);
        let ghost p = mod_has_id("base"@);
        let mut i: usize = 0;
        while i < mods.len()
            invariant
                i <= mods@.len(),
                mods@ == m0,
                m0 == found@,
                p == mod_has_id("base"@),
                forall|k: int| 0 <= k < i ==> !p(#[trigger] mods@[k]),
            decreases mods@.len() - i,
        {
            if str_equal(mods[i].manifest.id.as_str(), "base") {
                proof {
                    lemma_first_index_is(m0, p, i as int);
                }
                let m = mods.remove(i);
                mods.insert(0, m);
                assert(mods@ =~= seq![m0[i as int]] + m0.take(i as int) + m0.skip(i + 1));
                assert(mod_index(m0, "base"@) == i);
                return ModRegistry { mods };
            }
            i = i + 1;
        }
        proof {
            lemma_first_index_none(m0, p);
        }
        ModRegistry { mods }
    }
}

/// When there is a base mod, the registry lists it first; no mod is lost or added.
pub proof fn law_base_mod_first(mods: Seq<ActiveMod>)
    ensures
        base_first(mods).len() == mods.len(),
        mod_index(mods, "base"@) >= 0 ==> base_first(mods)[0].manifest.id@ == "base"@,
        base_first(mods).to_multiset() == mods.to_multiset(),
{
    let p = mod_index(mods, "base"@);
    lemma_first_index(mods, mod_has_id("base"@));
    if p >= 0 {
        let a = mods.take(p);
        let b = mods.skip(p + 1);
        assert(mods =~= a + seq![mods[p]] + b);
        vstd::seq_lib::lemma_multiset_commutative(a, seq![mods[p]]);
        vstd::seq_lib::lemma_multiset_commutative(a + seq![mods[p]], b);
        vstd::seq_lib::lemma_multiset_commutative(seq![mods[p]] + a, b);
        vstd::seq_lib::lemma_multiset_commutative(seq![mods[p]], a);
    }
}

} // verus!
