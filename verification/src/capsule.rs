use vstd::prelude::*;

use crate::first_index::{first_index, last_index, lemma_first_index, lemma_first_index_is, lemma_first_index_none, lemma_last_index};
use crate::build_menu::{join, join_strings};
use crate::building::{building_pos, BuildingRegistry};
use crate::discovery::strings_view;
use crate::recipe::items_view;
use crate::resource::{spec_display_name, ResourceId};
use crate::text::{decimal, owned, push_decimal, push_str, str_equal};

verus! {

/// The text and colour a status shows from a capsule tier on.
#[derive(Debug, Clone)]
pub struct StatusTier {
    pub tier: usize,
    pub text: String,
    pub color: String,
}

/// A status line of the capsule panel, with its tiers in increasing order.
#[derive(Debug, Clone)]
pub struct StatusDef {
    pub id: String,
    pub label: String,
    pub tiers: Vec<StatusTier>,
}

pub open spec fn reached(tier: usize) -> spec_fn(StatusTier) -> bool {
    |t: StatusTier| t.tier <= tier
}

/// The tier entry shown at a capsule tier: the last entry whose tier is
/// reached, else the first entry.
pub open spec fn spec_status_index(tiers: Seq<StatusTier>, tier: usize) -> int {
    let i = last_index(tiers, reached(tier));
    if i < 0 {
        0
    } else {
        i
    }
}

impl StatusDef {
    /// The entry of this status at a capsule tier.
    pub fn status_for_tier(&self, tier: usize) -> (r: &StatusTier)
        requires
            self.tiers@.len() > 0,
        ensures
            *r == self.tiers@[spec_status_index(self.tiers@, tier)],
    {
        let ghost p = reached(tier);
        let mut i: usize = self.tiers.len();
        while i > 0
            invariant
                i <= self.tiers@.len(),
                p == reached(tier),
                forall|k: int| i <= k < self.tiers@.len() ==> !p(#[trigger] self.tiers@[k]),
            decreases i,
        {
            if self.tiers[i - 1].tier <= tier {
                proof {
                    lemma_last_index(self.tiers@, p);
                    let l = last_index(self.tiers@, p);
                    assert(p(self.tiers@[i - 1]));
                    if l < i - 1 {
                        assert(!p(self.tiers@[i - 1]));
                    }
                    if l > i - 1 {
                        assert(!p(self.tiers@[l]));
                    }
                }
                return &self.tiers[i - 1];
            }
            i = i - 1;
        }
        proof {
            lemma_last_index(self.tiers@, p);
        }
        &self.tiers[0]
    }
}

/// The status lines of the capsule panel.
#[derive(Debug, Clone)]
pub struct CapsuleStatusRegistry {
    pub statuses: Vec<StatusDef>,
}

pub open spec fn status_has_id(id: Seq<char>) -> spec_fn(StatusDef) -> bool {
    |s: StatusDef| s.id@ == id
}

/// Every status has at least one tier entry.
pub open spec fn statuses_wf(s: Seq<StatusDef>) -> bool {
    forall|k: int| 0 <= k < s.len() ==> (#[trigger] s[k]).tiers@.len() > 0
}

impl CapsuleStatusRegistry {
    /// The first status with the identifier.
    pub fn get(&self, id: &str) -> (r: Option<&StatusDef>)
        ensures
            match r {
                Some(s) => first_index(self.statuses@, status_has_id(id@)) >= 0 && *s
                    == self.statuses@[first_index(self.statuses@, status_has_id(id@))],
                None => first_index(self.statuses@, status_has_id(id@)) < 0,
            },
    {
        let ghost p = status_has_id(id@);
        let mut i: usize = 0;
        while i < self.statuses.len()
            invariant
                i <= self.statuses@.len(),
                p == status_has_id(id@),
                forall|k: int| 0 <= k < i ==> !p(#[trigger] self.statuses@[k]),
            decreases self.statuses@.len() - i,
        {
            if str_equal(self.statuses[i].id.as_str(), id) {
                proof {
                    lemma_first_index_is(self.statuses@, p, i as int);
                }
                return Some(&self.statuses[i]);
            }
            i = i + 1;
        }
        proof {
            lemma_first_index_none(self.statuses@, p);
        }
        None
    }

    /// The text of a status at a capsule tier; empty for an unknown status.
    pub fn status_text(&self, id: &str, tier: usize) -> (r: String)
        requires
            statuses_wf(self.statuses@),
        ensures
            first_index(self.statuses@, status_has_id(id@)) < 0 ==> r@ == Seq::<char>::empty(),
            first_index(self.statuses@, status_has_id(id@)) >= 0 ==> ({
                let s = self.statuses@[first_index(self.statuses@, status_has_id(id@))];
                r@ == s.tiers@[spec_status_index(s.tiers@, tier)].text@
            }),
    {
        match self.get(id) {
            Some(s) => {
                proof {
                    lemma_first_index(self.statuses@, status_has_id(id@));
                }
                owned(s.status_for_tier(tier).text.as_str())
            },
            None => {
                let e = String::new();
                assert(e@ =~= Seq::<char>::empty());
                e
            },
        }
    }

    /// The colour of a status at a capsule tier; red (`#ff3333`) for an
    /// unknown status.
    pub fn status_color(&self, id: &str, tier: usize) -> (r: String)
        requires
            statuses_wf(self.statuses@),
        ensures
            first_index(self.statuses@, status_has_id(id@)) < 0 ==> r@ == "#ff3333"@,
            first_index(self.statuses@, status_has_id(id@)) >= 0 ==> ({
                let s = self.statuses@[first_index(self.statuses@, status_has_id(id@))];
                r@ == s.tiers@[spec_status_index(s.tiers@, tier)].color@
            }),
    {
        match self.get(id) {
            Some(s) => {
                proof {
                    lemma_first_index(self.statuses@, status_has_id(id@));
                }
                owned(s.status_for_tier(tier).color.as_str())
            },
            None => owned("#ff3333"),
        }
    }
}

/// Where the capsule is placed and which building it is.
#[derive(Debug, Clone)]
pub struct CapsuleConfig {
    pub spawn_tile_x: i32,
    pub spawn_tile_y: i32,
    pub building_kind: String,
}

impl Default for CapsuleConfig {
    /// At the origin, as the `genesis_ark` building.
    fn default() -> (r: CapsuleConfig)
        ensures
            r.spawn_tile_x == 0,
            r.spawn_tile_y == 0,
            r.building_kind@ == "genesis_ark"@,
    {
        CapsuleConfig { spawn_tile_x: 0, spawn_tile_y: 0, building_kind: owned("genesis_ark") }
    }
}

impl CapsuleConfig {
    /// The textures of the capsule's tiers, in order; none when its building
    /// kind is unknown.
    pub fn tier_texture_stems(&self, registry: &BuildingRegistry) -> (r: Vec<String>)
        ensures
            building_pos(registry.buildings@, self.building_kind@) < 0 ==> r@.len() == 0,
            building_pos(registry.buildings@, self.building_kind@) >= 0 ==> strings_view(r@) == tier_textures(
                registry.buildings@[building_pos(registry.buildings@, self.building_kind@)].tiers@,
            ),
    {
        match registry.get(self.building_kind.as_str()) {
            None => Vec::new(),
            Some(def) => {
                let mut out: Vec<String> = Vec::new();
                let mut i: usize = 0;
                while i < def.tiers.len()
                    invariant
                        i <= def.tiers@.len(),
                        strings_view(out@) == tier_textures(def.tiers@.take(i as int)),
                    decreases def.tiers@.len() - i,
                {
                    let ghost before = strings_view(out@);
                    out.push(owned(def.tiers[i].texture.as_str()));
                    assert(strings_view(out@) =~= before.push(def.tiers@[i as int].texture@));
                    assert(tier_textures(def.tiers@.take(i + 1)) =~= tier_textures(def.tiers@.take(i as int)).push(
                        def.tiers@[i as int].texture@,
                    ));
                    i = i + 1;
                }
                assert(def.tiers@.take(def.tiers@.len() as int) =~= def.tiers@);
                out
            },
        }
    }
}

/// The textures of tiers, in order.
pub open spec fn tier_textures(tiers: Seq<TierInfo>) -> Seq<Seq<char>> {
    tiers.map_values(|t: TierInfo| t.texture@)
}

/// A tier of the capsule: the texture it shows, the log it tells and the
/// items it asks for.
#[derive(Debug, Clone)]
pub struct TierInfo {
    pub texture: String,
    pub log_id: Option<String>,
    pub required_items: Vec<(ResourceId, u32)>,
}

/// An entry of the progression log.
#[derive(Debug, Clone)]
pub struct LogEntry {
    pub id: String,
    pub title: String,
    pub text: String,
}

pub open spec fn log_has_id(id: Seq<char>) -> spec_fn(LogEntry) -> bool {
    |l: LogEntry| l.id@ == id
}

/// The first log entry with the identifier, or -1.
pub open spec fn log_index(logs: Seq<LogEntry>, id: Seq<char>) -> int {
    first_index(logs, log_has_id(id))
}

fn find_log(logs: &Vec<LogEntry>, id: &str) -> (r: Option<usize>)
    ensures
        match r {
            Some(i) => i < logs@.len() && log_index(logs@, id@) == i,
            None => log_index(logs@, id@) < 0,
        },
{
    let ghost p = log_has_id(id@);
    let mut i: usize = 0;
    while i < logs.len()
        invariant
            i <= logs@.len(),
            p == log_has_id(id@),
            forall|k: int| 0 <= k < i ==> !p(#[trigger] logs@[k]),
        decreases logs@.len() - i,
    {
        if str_equal(logs[i].id.as_str(), id) {
            proof {
                lemma_first_index_is(logs@, p, i as int);
            }
            return Some(i);
        }
        i = i + 1;
    }
    proof {
        lemma_first_index_none(logs@, p);
    }
    None
}

/// The log identifier of a tier, or the empty text when it has none.
pub open spec fn log_id_or_empty(t: TierInfo) -> Seq<char> {
    match t.log_id {
        Some(id) => id@,
        None => ""@,
    }
}

/// The title a tier is listed under: the title of its log entry, else its texture.
pub open spec fn tier_title(t: TierInfo, logs: Seq<LogEntry>) -> Seq<char> {
    let p = log_index(logs, log_id_or_empty(t));
    if p >= 0 {
        logs[p].title@
    } else {
        t.texture@
    }
}

pub open spec fn tier_mark(i: int, current: int) -> Seq<char> {
    if i < current {
        "\u{2705}"@
    } else if i == current {
        "\u{25c9}"@
    } else {
        "\u{25cb}"@
    }
}

pub open spec fn tier_state(i: int, current: int) -> Seq<char> {
    if i < current {
        " (compl\u{e9}t\u{e9})"@
    } else if i == current {
        " (en cours)"@
    } else {
        Seq::empty()
    }
}

/// The line of one tier: its mark, number, title and state.
pub open spec fn tier_line(i: int, t: TierInfo, logs: Seq<LogEntry>, current: int) -> Seq<char> {
    " "@ + tier_mark(i, current) + " Tier "@ + decimal(i) + " \u{2014} "@ + tier_title(t, logs) + tier_state(
        i,
        current,
    )
}

/// The line of one required item: nothing delivered yet out of the amount.
pub open spec fn requirement_line(p: (Seq<char>, u32)) -> Seq<char> {
    "  "@ + spec_display_name(p.0) + " 0/"@ + decimal(p.1 as int)
}

pub open spec fn requirement_texts(items: Seq<(Seq<char>, u32)>) -> Seq<Seq<char>> {
    items.map_values(|p: (Seq<char>, u32)| requirement_line(p))
}

pub open spec fn requirement_lines(t: TierInfo) -> Seq<Seq<char>> {
    if t.required_items@.len() > 0 {
        seq!["Items requis :"@] + requirement_texts(items_view(t.required_items@)) + seq![
            Seq::empty(),
            "(Appuyez sur E \u{e0} c\u{f4}t\u{e9} de la capsule)"@,
        ]
    } else {
        Seq::empty()
    }
}

pub open spec fn log_lines(t: TierInfo, logs: Seq<LogEntry>) -> Seq<Seq<char>> {
    match t.log_id {
        Some(id) => {
            let p = log_index(logs, id@);
            if p >= 0 {
                seq![Seq::empty(), "\""@ + logs[p].text@ + "\""@]
            } else {
                Seq::empty()
            }
        },
        None => Seq::empty(),
    }
}

/// The lines of the capsule's progression panel: a heading, one line per tier,
/// then for the current tier the items it asks for and its log text.
pub open spec fn progress_lines(tiers: Seq<TierInfo>, logs: Seq<LogEntry>, current: int) -> Seq<Seq<char>> {
    seq!["CAPSULE GENESIS \u{2014} Progression"@, Seq::empty()] + Seq::new(
        tiers.len(),
        |i: int| tier_line(i, tiers[i], logs, current),
    ) + seq![Seq::<char>::empty()] + (if 0 <= current < tiers.len() {
        requirement_lines(tiers[current]) + log_lines(tiers[current], logs)
    } else {
        Seq::empty()
    })
}

/// The text of the capsule's progression panel, its lines joined by newlines.
pub fn capsule_progress_text(tiers: &Vec<TierInfo>, logs: &Vec<LogEntry>, tier_index: usize) -> (r: String)
    ensures
        r@ == join(progress_lines(tiers@, logs@, tier_index as int), "\n"@),
{
    let ghost cur = tier_index as int;
    let mut lines: Vec<String> = Vec::new();
    lines.push(owned("CAPSULE GENESIS \u{2014} Progression"));
    lines.push(String::new());
    let ghost head = seq!["CAPSULE GENESIS \u{2014} Progression"@, Seq::empty()];
    assert(strings_view(lines@) =~= head + Seq::new(0, |k: int| tier_line(k, tiers@[k], logs@, cur)));
    let mut i: usize = 0;
    while i < tiers.len()
        invariant
            i <= tiers@.len(),
            cur == tier_index as int,
            head == seq!["CAPSULE GENESIS \u{2014} Progression"@, Seq::empty()],
            strings_view(lines@) == head + Seq::new(i as nat, |k: int| tier_line(k, tiers@[k], logs@, cur)),
        decreases tiers@.len() - i,
    {
        let t = &tiers[i];
        let wanted: &str = match &t.log_id {
            Some(id) => id.as_str(),
            None => "",
        };
        let title: &str = match find_log(logs, wanted) {
            Some(p) => logs[p].title.as_str(),
            None => t.texture.as_str(),
        };
        let mut line = owned(" ");
        if i < tier_index {
            push_str(&mut line, "\u{2705}");
        } else if i == tier_index {
            push_str(&mut line, "\u{25c9}");
        } else {
            push_str(&mut line, "\u{25cb}");
        }
        push_str(&mut line, " Tier ");
        push_decimal(&mut line, i as u64);
        push_str(&mut line, " \u{2014} ");
        push_str(&mut line, title);
        if i < tier_index {
            push_str(&mut line, " (compl\u{e9}t\u{e9})");
        } else if i == tier_index {
            push_str(&mut line, " (en cours)");
        }
        assert(line@ =~= tier_line(i as int, tiers@[i as int], logs@, cur));
        let ghost prev = strings_view(lines@);
        lines.push(line);
        assert(strings_view(lines@) =~= prev.push(line@));
        assert(strings_view(lines@) =~= head + Seq::new((i + 1) as nat, |k: int| tier_line(k, tiers@[k], logs@, cur)));
        i = i + 1;
    }
    lines.push(String::new());
    let ghost listed = strings_view(lines@);
    if tier_index < tiers.len() {
        let t = &tiers[tier_index];
        let n = t.required_items.len();
        if n > 0 {
            lines.push(owned("Items requis :"));
            let ghost base = strings_view(lines@);
            assert(base =~= listed.push("Items requis :"@));
            let ghost iv = items_view(t.required_items@);
            let mut j: usize = 0;
            while j < n
                invariant
                    j <= n,
                    n == t.required_items@.len(),
                    iv == items_view(t.required_items@),
                    strings_view(lines@) == base + requirement_texts(iv.take(j as int)),
                decreases n - j,
            {
                let mut line = owned("  ");
                let name = t.required_items[j].0.display_name();
                push_str(&mut line, name.as_str());
                push_str(&mut line, " 0/");
                push_decimal(&mut line, t.required_items[j].1 as u64);
                assert(line@ =~= requirement_line(iv[j as int]));
                let ghost prev = strings_view(lines@);
                lines.push(line);
                assert(strings_view(lines@) =~= prev.push(line@));
                assert(requirement_texts(iv.take(j + 1)) =~= requirement_texts(iv.take(j as int)).push(
                    requirement_line(iv[j as int]),
                ));
                j = j + 1;
            }
            assert(iv.take(n as int) =~= iv);
            let ghost reqs = strings_view(lines@);
            lines.push(String::new());
            lines.push(owned("(Appuyez sur E \u{e0} c\u{f4}t\u{e9} de la capsule)"));
            assert(strings_view(lines@) =~= reqs.push(Seq::empty()).push("(Appuyez sur E \u{e0} c\u{f4}t\u{e9} de la capsule)"@));
        }
        assert(strings_view(lines@) =~= listed + requirement_lines(tiers@[cur]));
        let ghost mid = strings_view(lines@);
        match &t.log_id {
            Some(id) => match find_log(logs, id.as_str()) {
                Some(p) => {
                    lines.push(String::new());
                    let mut line = owned("\"");
                    push_str(&mut line, logs[p].text.as_str());
                    push_str(&mut line, "\"");
                    lines.push(line);
                    assert(strings_view(lines@) =~= mid + log_lines(tiers@[cur], logs@));
                },
                None => {
                    assert(strings_view(lines@) =~= mid + log_lines(tiers@[cur], logs@));
                },
            },
            None => {
                assert(strings_view(lines@) =~= mid + log_lines(tiers@[cur], logs@));
            },
        }
        assert(strings_view(lines@) =~= listed + (requirement_lines(tiers@[cur]) + log_lines(tiers@[cur], logs@)));
    }
    assert(strings_view(lines@) =~= progress_lines(tiers@, logs@, cur));
    join_strings(&lines, "\n")
}

/// The number of tiers to climb: one less than the tiers listed, none for a
/// single tier.
pub fn total_tiers(listed: usize) -> (r: usize)
    ensures
        r == (if listed > 1 {
            listed - 1
        } else {
            0
        }),
{
    if listed > 1 {
        listed - 1
    } else {
        0
    }
}

/// The names of the nine phases of the capsule.
pub open spec fn spec_phase_name(i: int) -> Seq<char> {
    if i == 0 {
        "Phase 0 (R\u{e9}veil)"@
    } else if i == 1 {
        "Phase 1 (\u{c9}tincelle)"@
    } else if i == 2 {
        "Phase 2 (Rouille & Vapeur)"@
    } else if i == 3 {
        "Phase 3 (Fil du Cuivre)"@
    } else if i == 4 {
        "Phase 4 (Pouls)"@
    } else if i == 5 {
        "Phase 5 (Nanites)"@
    } else if i == 6 {
        "Phase 6 (Gen\u{e8}se)"@
    } else if i == 7 {
        "S\u{c9}QUENCE FINALE"@
    } else {
        "APOTH\u{c9}OSE"@
    }
}

fn phase_name(i: usize) -> (r: &'static str)
    ensures
        r@ == spec_phase_name(i as int),
{
    if i == 0 {
        "Phase 0 (R\u{e9}veil)"
    } else if i == 1 {
        "Phase 1 (\u{c9}tincelle)"
    } else if i == 2 {
        "Phase 2 (Rouille & Vapeur)"
    } else if i == 3 {
        "Phase 3 (Fil du Cuivre)"
    } else if i == 4 {
        "Phase 4 (Pouls)"
    } else if i == 5 {
        "Phase 5 (Nanites)"
    } else if i == 6 {
        "Phase 6 (Gen\u{e8}se)"
    } else if i == 7 {
        "S\u{c9}QUENCE FINALE"
    } else {
        "APOTH\u{c9}OSE"
    }
}

pub open spec fn phase_state(i: int, tier: int) -> Seq<char> {
    if i < tier {
        "done"@
    } else if i == tier {
        "current"@
    } else {
        "locked"@
    }
}

/// One phase as an inline table: its number, title and state; the last two
/// phases are set apart.
pub open spec fn phase_item(i: int, tier: int) -> Seq<char> {
    "{id = \""@ + decimal(i) + "\", title = \""@ + spec_phase_name(i) + "\", state = \""@ + phase_state(i, tier)
        + "\", "@ + (if i == 7 || i == 8 {
        "separator = true,"@
    } else {
        Seq::empty()
    }) + "}"@
}

pub open spec fn spec_phase_list(tier: int) -> Seq<char> {
    "items = ["@ + join(Seq::new(9, |i: int| phase_item(i, tier)), ","@) + "]"@
}

fn phase_item_text(i: usize, tier: usize) -> (r: String)
    requires
        i < 9,
    ensures
        r@ == phase_item(i as int, tier as int),
{
    let mut out = owned("{id = \"");
    push_decimal(&mut out, i as u64);
    push_str(&mut out, "\", title = \"");
    push_str(&mut out, phase_name(i));
    push_str(&mut out, "\", state = \"");
    if i < tier {
        push_str(&mut out, "done");
    } else if i == tier {
        push_str(&mut out, "current");
    } else {
        push_str(&mut out, "locked");
    }
    push_str(&mut out, "\", ");
    if i == 7 || i == 8 {
        push_str(&mut out, "separator = true,");
    }
    push_str(&mut out, "}");
    assert(out@ =~= phase_item(i as int, tier as int));
    out
}

/// The list of the capsule's phases, written as the panel's data expects it,
/// with each phase done, current or locked by the capsule's tier.
pub fn phase_list(tier: usize) -> (r: String)
    ensures
        r@ == spec_phase_list(tier as int),
{
    let ghost items = Seq::new(9, |i: int| phase_item(i, tier as int));
    let mut out = owned("items = [");
    let ghost start = out@;
    let mut i: usize = 0;
    while i < 9
        invariant
            i <= 9,
            start == "items = ["@,
            items == Seq::new(9, |k: int| phase_item(k, tier as int)),
            out@ == start + join(items.take(i as int), ","@),
        decreases 9 - i,
    {
        if i > 0 {
            push_str(&mut out, ",");
        }
        let item = phase_item_text(i, tier);
        push_str(&mut out, item.as_str());
        proof {
            assert(items.take(i + 1).drop_last() =~= items.take(i as int));
            if i == 0 {
                assert(items.take(1) =~= seq![items[0]]);
            }
        }
        i = i + 1;
    }
    assert(items.take(9) =~= items);
    push_str(&mut out, "]");
    out
}

/// Whether a data pad is within one tile of the player, diagonals included.
pub open spec fn pad_in_reach(player: (i32, i32), pad: (i32, i32, bool)) -> bool {
    -1 <= pad.0 - player.0 <= 1 && -1 <= pad.1 - player.1 <= 1
}

/// What reading the data pads around the player does, pad by pad: the unread
/// pads in reach are read, in order; each read pad in reach yields a notice.
pub open spec fn spec_pad_reading(player: (i32, i32), pads: Seq<(i32, i32, bool)>) -> (Seq<usize>, nat)
    decreases pads.len(),
{
    if pads.len() == 0 {
        (Seq::empty(), 0)
    } else {
        let (read, notices) = spec_pad_reading(player, pads.drop_last());
        let p = pads.last();
        if !pad_in_reach(player, p) {
            (read, notices)
        } else if p.2 {
            (read, notices + 1)
        } else {
            (read.push((pads.len() - 1) as usize), notices)
        }
    }
}

/// The data pads the player reads: given the player's tile and each pad's tile
/// and whether it was read already, the positions of the pads to read now and
/// how many "already read" notices to show.
pub fn pad_reading(player: (i32, i32), pads: &Vec<(i32, i32, bool)>) -> (r: (Vec<usize>, u64))
    ensures
        (r.0@, r.1 as nat) == spec_pad_reading(player, pads@),
{
    let mut read: Vec<usize> = Vec::new();
    let mut notices: u64 = 0;
    let mut i: usize = 0;
    while i < pads.len()
        invariant
            i <= pads@.len(),
            (read@, notices as nat) == spec_pad_reading(player, pads@.take(i as int)),
            notices <= i,
        decreases pads@.len() - i,
    {
        let (x, y, done) = pads[i];
        let dx = (x as i64) - (player.0 as i64);
        let dy = (y as i64) - (player.1 as i64);
        assert(pads@.take(i + 1).drop_last() =~= pads@.take(i as int));
        assert(pads@.take(i + 1).last() == pads@[i as int]);
        if -1 <= dx && dx <= 1 && -1 <= dy && dy <= 1 {
            if done {
                notices = notices + 1;
            } else {
                read.push(i);
            }
        }
        i = i + 1;
    }
    assert(pads@.take(pads@.len() as int) =~= pads@);
    (read, notices)
}

/// The notice shown when a log is read from a data pad.
pub fn log_read_text(entry: &LogEntry) -> (r: String)
    ensures
        r@ == "Log: "@ + entry.title@ + " \u{2014} "@ + entry.text@,
{
    let mut s = owned("Log: ");
    push_str(&mut s, entry.title.as_str());
    push_str(&mut s, " \u{2014} ");
    push_str(&mut s, entry.text.as_str());
    s
}

/// The title of the capsule's panel.
pub fn capsule_panel_title(name: &str) -> (r: String)
    ensures
        r@ == "Capsule \u{2014} "@ + name@,
{
    let mut s = owned("Capsule \u{2014} ");
    push_str(&mut s, name);
    s
}

} // verus!
