//! Names, icons and descriptions of the estate's items, contracts and chores.

use vstd::prelude::*;
use crate::text::text_eq;

verus! {

/// The display name of an item.
pub open spec fn name_of(item_id: Seq<char>) -> Seq<char> {
    if item_id == "elixir_water"@ {
        "黄金神水"@
    } else if item_id == "potion_energy"@ {
        "庄园能量饮料"@
    } else if item_id == "estate_badge"@ {
        "庄园荣誉徽章"@
    } else if item_id == "debris_weed"@ {
        "干枯杂草"@
    } else if item_id == "debris_leaves"@ {
        "金色落叶"@
    } else if item_id == "estate_wood"@ {
        "修剪碎木"@
    } else if item_id == "spider_silk"@ {
        "坚韧蛛丝"@
    } else {
        "未知物品"@
    }
}

/// The display name of an item.
pub fn item_name(item_id: &str) -> (r: &'static str)
    ensures
        r@ == name_of(item_id@),
{
    if text_eq(item_id, "elixir_water") {
        "黄金神水"
    } else if text_eq(item_id, "potion_energy") {
        "庄园能量饮料"
    } else if text_eq(item_id, "estate_badge") {
        "庄园荣誉徽章"
    } else if text_eq(item_id, "debris_weed") {
        "干枯杂草"
    } else if text_eq(item_id, "debris_leaves") {
        "金色落叶"
    } else if text_eq(item_id, "estate_wood") {
        "修剪碎木"
    } else if text_eq(item_id, "spider_silk") {
        "坚韧蛛丝"
    } else {
        "未知物品"
    }
}

/// The one-character icon of an item.
pub open spec fn icon_of(item_id: Seq<char>) -> Seq<char> {
    if item_id == "elixir_water"@ {
        "水"@
    } else if item_id == "potion_energy"@ {
        "能"@
    } else if item_id == "estate_badge"@ {
        "章"@
    } else if item_id == "debris_weed"@ {
        "草"@
    } else if item_id == "debris_leaves"@ {
        "叶"@
    } else if item_id == "estate_wood"@ {
        "木"@
    } else if item_id == "spider_silk"@ {
        "丝"@
    } else {
        "物"@
    }
}

/// The one-character icon of an item.
pub fn item_icon(item_id: &str) -> (r: &'static str)
    ensures
        r@ == icon_of(item_id@),
{
    if text_eq(item_id, "elixir_water") {
        "水"
    } else if text_eq(item_id, "potion_energy") {
        "能"
    } else if text_eq(item_id, "estate_badge") {
        "章"
    } else if text_eq(item_id, "debris_weed") {
        "草"
    } else if text_eq(item_id, "debris_leaves") {
        "叶"
    } else if text_eq(item_id, "estate_wood") {
        "木"
    } else if text_eq(item_id, "spider_silk") {
        "丝"
    } else {
        "物"
    }
}

/// The label of an item kind.
pub open spec fn kind_label_of(kind: Seq<char>) -> Seq<char> {
    if kind == "elixir"@ {
        "城堡药剂"@
    } else if kind == "badge"@ {
        "名誉勋章"@
    } else if kind == "debris"@ {
        "仓储废料"@
    } else {
        "庄园原料"@
    }
}

/// The label of an item kind.
pub fn item_kind_label(kind: &str) -> (r: &'static str)
    ensures
        r@ == kind_label_of(kind@),
{
    if text_eq(kind, "elixir") {
        "城堡药剂"
    } else if text_eq(kind, "badge") {
        "名誉勋章"
    } else if text_eq(kind, "debris") {
        "仓储废料"
    } else {
        "庄园原料"
    }
}

/// The description of an item.
pub open spec fn definition_of(item_id: Seq<char>) -> Seq<char> {
    if item_id == "elixir_water"@ {
        "皇家黄金泉水，服用后精力提升 10 点。"@
    } else if item_id == "potion_energy"@ {
        "圣树嫩叶秘制能量魔药，服用后体力提升 20 点。"@
    } else if item_id == "estate_badge"@ {
        "表彰庄园打扫工作的名誉大勋章。"@
    } else if item_id == "debris_weed"@ {
        "勤恳除草所得的干枯杂草。"@
    } else if item_id == "debris_leaves"@ {
        "枫树下清扫得到的高营养金色落叶。"@
    } else if item_id == "estate_wood"@ {
        "修剪粗壮枝桠所得的干柴木段。"@
    } else if item_id == "spider_silk"@ {
        "老蛛网里清扫而得的银白蛛丝。"@
    } else {
        "庄园原料。"@
    }
}

/// The description of an item.
pub fn item_definition(item_id: &str) -> (r: &'static str)
    ensures
        r@ == definition_of(item_id@),
{
    if text_eq(item_id, "elixir_water") {
        "皇家黄金泉水，服用后精力提升 10 点。"
    } else if text_eq(item_id, "potion_energy") {
        "圣树嫩叶秘制能量魔药，服用后体力提升 20 点。"
    } else if text_eq(item_id, "estate_badge") {
        "表彰庄园打扫工作的名誉大勋章。"
    } else if text_eq(item_id, "debris_weed") {
        "勤恳除草所得的干枯杂草。"
    } else if text_eq(item_id, "debris_leaves") {
        "枫树下清扫得到的高营养金色落叶。"
    } else if text_eq(item_id, "estate_wood") {
        "修剪粗壮枝桠所得的干柴木段。"
    } else if text_eq(item_id, "spider_silk") {
        "老蛛网里清扫而得的银白蛛丝。"
    } else {
        "庄园原料。"
    }
}

/// The story line of a contract.
pub open spec fn lore_of(id: Seq<char>) -> Seq<char> {
    if id == "order_001"@ {
        "张爷爷急需干枯野草填充旧瓦盆垫。"@
    } else if id == "order_002"@ {
        "苏菲博士正在试验古代土壤复活发酵大法。"@
    } else if id == "order_003"@ {
        "外墙围栏垮塌，急需高韧性的修剪木桩。"@
    } else if id == "order_004"@ {
        "纺织坊老板需要高强度蜘蛛丝编织绸伞。"@
    } else if id == "order_005"@ {
        "镇长皮特签署了庄园荣誉功勋大建设案。"@
    } else {
        "庄园领主日常建设清单中的民情大单。"@
    }
}

/// The story line of a contract.
pub fn order_lore(id: &str) -> (r: &'static str)
    ensures
        r@ == lore_of(id@),
{
    if text_eq(id, "order_001") {
        "张爷爷急需干枯野草填充旧瓦盆垫。"
    } else if text_eq(id, "order_002") {
        "苏菲博士正在试验古代土壤复活发酵大法。"
    } else if text_eq(id, "order_003") {
        "外墙围栏垮塌，急需高韧性的修剪木桩。"
    } else if text_eq(id, "order_004") {
        "纺织坊老板需要高强度蜘蛛丝编织绸伞。"
    } else if text_eq(id, "order_005") {
        "镇长皮特签署了庄园荣誉功勋大建设案。"
    } else {
        "庄园领主日常建设清单中的民情大单。"
    }
}

/// The one-character icon of a chore kind.
pub open spec fn task_icon_of(kind: Seq<char>) -> Seq<char> {
    if kind == "sign"@ {
        "签"@
    } else if kind == "weed"@ {
        "草"@
    } else if kind == "prune"@ {
        "木"@
    } else if kind == "clean"@ {
        "叶"@
    } else if kind == "web"@ {
        "丝"@
    } else {
        "务"@
    }
}

/// The one-character icon of a chore kind.
pub fn task_icon(kind: &str) -> (r: &'static str)
    ensures
        r@ == task_icon_of(kind@),
{
    if text_eq(kind, "sign") {
        "签"
    } else if text_eq(kind, "weed") {
        "草"
    } else if text_eq(kind, "prune") {
        "木"
    } else if text_eq(kind, "clean") {
        "叶"
    } else if text_eq(kind, "web") {
        "丝"
    } else {
        "务"
    }
}

/// The shop banner of an item.
pub open spec fn promo_of(item_id: Seq<char>) -> Seq<char> {
    if item_id == "elixir_water"@ {
        "皇家极品"@
    } else if item_id == "potion_energy"@ {
        "瞬间满充"@
    } else if item_id == "estate_badge"@ {
        "建功大勋章"@
    } else {
        "精选新品"@
    }
}

/// The shop banner of an item.
pub fn promo_tag(item_id: &str) -> (r: &'static str)
    ensures
        r@ == promo_of(item_id@),
{
    if text_eq(item_id, "elixir_water") {
        "皇家极品"
    } else if text_eq(item_id, "potion_energy") {
        "瞬间满充"
    } else if text_eq(item_id, "estate_badge") {
        "建功大勋章"
    } else {
        "精选新品"
    }
}

/// The stamina a chore kind costs.
pub open spec fn stamina_cost_of(kind: Seq<char>) -> i32 {
    if kind == "weed"@ || kind == "clean"@ {
        3
    } else if kind == "prune"@ || kind == "web"@ {
        4
    } else {
        0
    }
}

/// The stamina a chore kind costs.
pub fn task_stamina(kind: &str) -> (r: i32)
    ensures
        r == stamina_cost_of(kind@),
{
    if text_eq(kind, "weed") || text_eq(kind, "clean") {
        3
    } else if text_eq(kind, "prune") || text_eq(kind, "web") {
        4
    } else {
        0
    }
}

/// Whether an item is one of the four cleaning materials.
pub open spec fn debris_kind(item_id: Seq<char>) -> bool {
    item_id == "debris_weed"@ || item_id == "debris_leaves"@ || item_id == "estate_wood"@
        || item_id == "spider_silk"@
}

/// Whether an item is one of the four cleaning materials.
pub fn is_debris(item_id: &str) -> (r: bool)
    ensures
        r == debris_kind(item_id@),
{
    text_eq(item_id, "debris_weed") || text_eq(item_id, "debris_leaves") || text_eq(
        item_id,
        "estate_wood",
    ) || text_eq(item_id, "spider_silk")
}

} // verus!

verus! {

/// The sections of the estate screen.
#[derive(Clone, Copy, Debug, PartialEq, Eq, Structural)]
pub enum Tab {
    Orders,
    Chores,
    Backpack,
    Shop,
    Profile,
}

/// The heading of a section.
pub open spec fn tab_title_of(tab: Tab) -> Seq<char> {
    match tab {
        Tab::Orders => "居民契约"@,
        Tab::Chores => "庄园内务"@,
        Tab::Backpack => "物资背包"@,
        Tab::Shop => "集市商店"@,
        Tab::Profile => "个人信息"@,
    }
}

/// The one-character badge of a section.
pub open spec fn tab_icon_of(tab: Tab) -> Seq<char> {
    match tab {
        Tab::Orders => "契"@,
        Tab::Chores => "务"@,
        Tab::Backpack => "仓"@,
        Tab::Shop => "市"@,
        Tab::Profile => "人"@,
    }
}

impl Tab {
    /// The heading of the section.
    pub fn title(&self) -> (r: &'static str)
        ensures
            r@ == tab_title_of(*self),
    {
        match self {
            Tab::Orders => "居民契约",
            Tab::Chores => "庄园内务",
            Tab::Backpack => "物资背包",
            Tab::Shop => "集市商店",
            Tab::Profile => "个人信息",
        }
    }

    /// The badge of the section.
    pub fn icon(&self) -> (r: &'static str)
        ensures
            r@ == tab_icon_of(*self),
    {
        match self {
            Tab::Orders => "契",
            Tab::Chores => "务",
            Tab::Backpack => "仓",
            Tab::Shop => "市",
            Tab::Profile => "人",
        }
    }
}

} // verus!
