//! Names of generated pages and resources.

use vstd::prelude::*;
use crate::msg::{first_named, Msg, MsgEntry};
use crate::text::{push_padded, signed_padded};

verus! {

/// The number under which the name of map `id` is registered.
pub open spec fn map_name_number(id: i32) -> i32 {
    if id == 12 {
        31
    } else if id == 13 {
        32
    } else if id == 14 {
        41
    } else if id == 15 {
        42
    } else {
        id
    }
}

/// The file name of the page of map `id`: the number with at least two
/// digits, then `.html`.
pub fn map_page(id: i32) -> (s: String)
    ensures
        s@ == signed_padded(id as int, 2) + ".html"@,
{
    let mut out = String::new();
    push_padded(&mut out, id as i64, 2);
    out.append(".html");
    assert(out@ =~= signed_padded(id as int, 2) + ".html"@);
    out
}

/// The number under which the name of map `id` is registered: maps 12 to
/// 15 are registered as 31, 32, 41 and 42, every other map under its own
/// number.
pub fn map_name_id(id: i32) -> (n: i32)
    ensures
        n == map_name_number(id),
{
    match id {
        12 => 31,
        13 => 32,
        14 => 41,
        15 => 42,
        other => other,
    }
}

/// The key of the message that holds the name of map `id`.
pub fn map_name_key(id: i32) -> (s: String)
    ensures
        s@ == "Stage_Name_"@ + signed_padded(map_name_number(id) as int, 2),
{
    let mut out = String::from_str("Stage_Name_");
    push_padded(&mut out, map_name_id(id) as i64, 2);
    out
}

/// The number of the item that catching fish `fish_id` gives.
pub open spec fn fish_item(fish_id: i32) -> Option<u32> {
    if fish_id == 0 {
        Some(0x1f3)
    } else if fish_id == 1 {
        Some(0x30e)
    } else if fish_id == 2 {
        Some(0x1d6)
    } else if 3 <= fish_id <= 8 {
        Some((0x30f + (fish_id - 3)) as u32)
    } else if fish_id == 9 {
        Some(0x204)
    } else if fish_id == 10 {
        Some(0x205)
    } else if 11 <= fish_id <= 17 {
        Some((0x315 + (fish_id - 11)) as u32)
    } else if fish_id == 18 {
        Some(0x367)
    } else {
        None
    }
}

/// The number of the normal item that catching fish `fish_id` gives, for
/// the nineteen kinds of fish there are.
pub fn get_fish_item_id(fish_id: i32) -> (r: Option<u32>)
    ensures
        r == fish_item(fish_id),
{
    match fish_id {
        0 => Some(0x1f3),
        1 => Some(0x30e),
        2 => Some(0x1d6),
        3 => Some(0x30f),
        4 => Some(0x310),
        5 => Some(0x311),
        6 => Some(0x312),
        7 => Some(0x313),
        8 => Some(0x314),
        9 => Some(0x204),
        10 => Some(0x205),
        11 => Some(0x315),
        12 => Some(0x316),
        13 => Some(0x317),
        14 => Some(0x318),
        15 => Some(0x319),
        16 => Some(0x31a),
        17 => Some(0x31b),
        18 => Some(0x367),
        _ => None,
    }
}

/// The number of the icon of a decoration of level `lv`.
pub open spec fn deco_icon(lv: i32) -> int {
    if lv == 4 {
        200
    } else {
        63 + lv
    }
}

/// The path of the icon of a decoration of level `lv`: icon 200 for level
/// 4, icon 63 plus the level otherwise, with at least three digits.
pub fn deco_icon_path(lv: i32) -> (s: String)
    ensures
        s@ == "/resources/item/"@ + signed_padded(deco_icon(lv), 3),
{
    let icon: i64 = if lv == 4 {
        200
    } else {
        63 + lv as i64
    };
    let mut out = String::from_str("/resources/item/");
    push_padded(&mut out, icon, 3);
    out
}

/// The name of map `id`: the message under the map's name key in the
/// first table, or else the one in the second.
pub fn get_map_name<'a>(id: i32, map_name: &'a Msg, map_name_mr: &'a Msg) -> (r: Option<&'a MsgEntry>)
    ensures
        ({
            let key = "Stage_Name_"@ + signed_padded(map_name_number(id) as int, 2);
            match first_named(map_name.entries@, key, 0) {
                Some(i) => r == Some(&map_name.entries@[i]),
                None => match first_named(map_name_mr.entries@, key, 0) {
                    Some(j) => r == Some(&map_name_mr.entries@[j]),
                    None => r is None,
                },
            }
        }),
{
    let key = map_name_key(id);
    match map_name.get_entry(&key) {
        Some(entry) => Some(entry),
        None => map_name_mr.get_entry(&key),
    }
}

/// The file name of the page of quest `quest_no`: the number with at least
/// six digits, then `.html`.
pub fn quest_page(quest_no: i32) -> (s: String)
    ensures
        s@ == signed_padded(quest_no as int, 6) + ".html"@,
{
    let mut out = String::new();
    push_padded(&mut out, quest_no as i64, 6);
    out.append(".html");
    assert(out@ =~= signed_padded(quest_no as int, 6) + ".html"@);
    out
}

/// How the items of a reward table are drawn.
#[derive(Debug, Clone, Copy, PartialEq, Eq, Structural)]
pub enum LotRule {
    Random,
    RandomOut1,
    RandomOut2,
    RandomOut3,
    FirstFix,
}

/// The description of a draw rule.
pub open spec fn rule_text(rule: LotRule) -> Seq<char> {
    match rule {
        LotRule::Random => "Get random amount"@,
        LotRule::RandomOut1 => "Get one"@,
        LotRule::RandomOut2 => "Get two"@,
        LotRule::RandomOut3 => "Get three"@,
        LotRule::FirstFix => "First one fixed"@,
    }
}

/// The description of a draw rule.
pub fn translate_rule(rule: LotRule) -> (s: &'static str)
    ensures
        s@ == rule_text(rule),
{
    match rule {
        LotRule::Random => "Get random amount",
        LotRule::RandomOut1 => "Get one",
        LotRule::RandomOut2 => "Get two",
        LotRule::RandomOut3 => "Get three",
        LotRule::FirstFix => "First one fixed",
    }
}

/// What is shown of a rampage quest.
#[derive(Debug, Clone, Copy, PartialEq, Eq, Structural)]
pub struct HyakuryuQuestData {
    pub fix_wave_order: bool,
    pub lot_high_ex: bool,
    pub lot_true_ed: bool,
    pub final_boss_kill: bool,
    pub has_apex: bool,
    pub is_village: bool,
}

/// `items` joined by ` | `.
pub open spec fn joined(items: Seq<Seq<char>>) -> Seq<char>
    decreases items.len(),
{
    if items.len() == 0 {
        Seq::empty()
    } else if items.len() == 1 {
        items[0]
    } else {
        joined(items.drop_last()) + " | "@ + items.last()
    }
}

/// `items` with `item` behind them where `present`.
pub open spec fn with(items: Seq<Seq<char>>, present: bool, item: Seq<char>) -> Seq<Seq<char>> {
    if present {
        items.push(item)
    } else {
        items
    }
}

impl HyakuryuQuestData {
    /// The remarks that apply to the quest, in the order they are shown.
    pub open spec fn remarks(&self) -> Seq<Seq<char>> {
        let a = with(Seq::empty(), self.fix_wave_order, "Fixed wave order"@);
        let b = with(a, self.lot_high_ex, "Red 7* reward"@);
        let c = with(b, self.lot_true_ed, "After true ending reward"@);
        let d = with(c, self.final_boss_kill, "Requires true ending"@);
        let e = with(d, self.has_apex, "Has apex"@);
        e.push(
            if self.is_village {
                "Village"@
            } else {
                "Hub"@
            },
        )
    }

    /// The remarks that apply to the quest, joined by ` | `.
    pub fn display(&self) -> (s: String)
        ensures
            s@ == joined(self.remarks()),
    {
        let mut out = String::new();
        let ghost mut shown: Seq<Seq<char>> = Seq::empty();
        proof {
            reveal_strlit("Fixed wave order");
            reveal_strlit("Red 7* reward");
            reveal_strlit("After true ending reward");
            reveal_strlit("Requires true ending");
            reveal_strlit("Has apex");
            reveal_strlit("Village");
            reveal_strlit("Hub");
        }
        append_remark(&mut out, Ghost(shown), self.fix_wave_order, "Fixed wave order");
        proof {
            shown = with(shown, self.fix_wave_order, "Fixed wave order"@);
        }
        append_remark(&mut out, Ghost(shown), self.lot_high_ex, "Red 7* reward");
        proof {
            shown = with(shown, self.lot_high_ex, "Red 7* reward"@);
        }
        append_remark(&mut out, Ghost(shown), self.lot_true_ed, "After true ending reward");
        proof {
            shown = with(shown, self.lot_true_ed, "After true ending reward"@);
        }
        append_remark(&mut out, Ghost(shown), self.final_boss_kill, "Requires true ending");
        proof {
            shown = with(shown, self.final_boss_kill, "Requires true ending"@);
        }
        append_remark(&mut out, Ghost(shown), self.has_apex, "Has apex");
        proof {
            shown = with(shown, self.has_apex, "Has apex"@);
        }
        if self.is_village {
            append_remark(&mut out, Ghost(shown), true, "Village");
        } else {
            append_remark(&mut out, Ghost(shown), true, "Hub");
        }
        out
    }
}

/// Appends `item` to the joined text of `shown`, where `present`.
fn append_remark(out: &mut String, Ghost(shown): Ghost<Seq<Seq<char>>>, present: bool, item: &str)
    requires
        old(out)@ == joined(shown),
        shown.len() == 0 <==> old(out)@.len() == 0,
        item@.len() > 0,
    ensures
        final(out)@ == joined(with(shown, present, item@)),
        with(shown, present, item@).len() == 0 <==> final(out)@.len() == 0,
{
    if present {
        let empty = out.as_str().unicode_len() == 0;
        if !empty {
            out.append(" | ");
        }
        out.append(item);
        proof {
            let next = shown.push(item@);
            assert(next.drop_last() =~= shown);
            assert(next.last() == item@);
            if shown.len() == 0 {
                assert(out@ =~= item@);
            }
        }
    }
}

} // verus!
