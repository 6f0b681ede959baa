use vstd::prelude::*;

use crate::bus_puzzle::components::AgentState;
use crate::bus_puzzle::interaction::{gave_up_count, PathfindingAgent};
use crate::bus_puzzle::level_system::{in_language, LevelData, ObjectiveCondition, ObjectiveType};
use crate::bus_puzzle::localization::{
    budget_warning, bus_routes_ready_info, get_text, get_text_with_args, passengers_gave_up_warning,
    passengers_waiting_hint, text_for, Language,
};
use crate::bus_puzzle::resources::GameState;
use crate::bus_puzzle::text::{decimal_text, filled, int_to_string, owned, text_eq};
use crate::bus_puzzle::utils::Rgb;

verus! {

/// What a tip is about.
#[derive(Debug, Clone, Copy, PartialEq, Eq, Structural)]
pub enum TipType {
    LevelGoal,
    Strategy,
    Controls,
    Warning,
}

/// A tip shown to the player.
#[derive(Debug)]
pub struct GameTip {
    pub tip_type: TipType,
    pub title: String,
    pub content: String,
    pub icon: String,
    pub color: Rgb,
}

/// The tips of the current level, whether the tips panel is open, and the level the tips
/// were made for.
#[derive(Debug)]
pub struct TipsManager {
    pub current_tips: Vec<GameTip>,
    pub is_expanded: bool,
    pub last_level_id: String,
}

/// A tip with these parts.
pub open spec fn tip_is(t: GameTip, kind: TipType, title: Seq<char>, content: Seq<char>, icon: Seq<char>, color: Rgb) -> bool {
    &&& t.tip_type == kind
    &&& t.title@ == title
    &&& t.content@ == content
    &&& t.icon@ == icon
    &&& t.color == color
}

fn tip(kind: TipType, title: &str, content: &str, icon: &str, color: Rgb) -> (r: GameTip)
    ensures
        tip_is(r, kind, title@, content@, icon@, color),
{
    GameTip { tip_type: kind, title: owned(title), content: owned(content), icon: owned(icon), color }
}

impl TipsManager {
    /// A manager with no tips, the panel closed and no level seen.
    pub fn new() -> (r: TipsManager)
        ensures
            r.current_tips@.len() == 0,
            !r.is_expanded,
            r.last_level_id@ == Seq::<char>::empty(),
    {
        let r = TipsManager { current_tips: Vec::new(), is_expanded: false, last_level_id: String::new() };
        r
    }

    /// Opens a closed tips panel or closes an open one.
    pub fn toggle_panel(&mut self)
        ensures
            final(self).is_expanded == !old(self).is_expanded,
            final(self).current_tips == old(self).current_tips,
            final(self).last_level_id == old(self).last_level_id,
    {
        self.is_expanded = !self.is_expanded;
    }

    /// Whether the tips were made for another level than `level_data`'s.
    pub fn needs_tips_for(&self, level_data: &LevelData) -> (r: bool)
        ensures
            r == (self.last_level_id@ != level_data.id@),
    {
        !text_eq(self.last_level_id.as_str(), level_data.id.as_str())
    }
}

/// The colour of a kind of tip.
pub open spec fn tip_color(t: TipType) -> Rgb {
    match t {
        TipType::LevelGoal => Rgb { r: 20, g: 80, b: 20 },
        TipType::Strategy => Rgb { r: 90, g: 70, b: 20 },
        TipType::Controls => Rgb { r: 20, g: 60, b: 90 },
        TipType::Warning => Rgb { r: 90, g: 30, b: 20 },
    }
}

/// The colour in which a tip of kind `tip_type` is framed.
pub fn tip_type_color(tip_type: TipType) -> (r: Rgb)
    ensures
        r == tip_color(tip_type),
{
    match tip_type {
        TipType::LevelGoal => Rgb { r: 20, g: 80, b: 20 },
        TipType::Strategy => Rgb { r: 90, g: 70, b: 20 },
        TipType::Controls => Rgb { r: 20, g: 60, b: 90 },
        TipType::Warning => Rgb { r: 90, g: 30, b: 20 },
    }
}

/// The tips shown for the tutorial level.
pub open spec fn tutorial_tips(tips: Seq<GameTip>) -> bool {
    &&& tips.len() == 3
    &&& tip_is(tips[0], TipType::LevelGoal, "关卡目标"@, "连接A站和B站，让红色乘客能够到达目的地"@, "🎯"@, Rgb { r: 20, g: 80, b: 20 })
    &&& tip_is(tips[1], TipType::Strategy, "建设策略"@, "使用直线段是最经济的选择，只需要简单的直线连接即可"@, "💡"@, Rgb { r: 90, g: 70, b: 20 })
    &&& tip_is(tips[2], TipType::Controls, "操作提示"@, "左键放置路段，右键旋转方向，Delete键删除路段"@, "🎮"@, Rgb { r: 20, g: 60, b: 90 })
}

/// The tips shown for the transfer level.
pub open spec fn transfer_tips(tips: Seq<GameTip>) -> bool {
    &&& tips.len() == 3
    &&& tip_is(tips[0], TipType::LevelGoal, "关卡目标"@, "学会使用换乘：乘客需要在中转站换乘前往不同目的地"@, "🎯"@, Rgb { r: 20, g: 80, b: 20 })
    &&& tip_is(tips[1], TipType::Strategy, "换乘策略"@, "规划两条路线：A站→中转站，中转站→B站/C站，让乘客在中转站换乘"@, "🔄"@, Rgb { r: 90, g: 70, b: 20 })
    &&& tip_is(tips[2], TipType::Warning, "避免绕路"@, "避免让乘客换乘太多次，每次换乘都会增加等待时间"@, "⚠️"@, Rgb { r: 90, g: 30, b: 20 })
}

/// The tips shown for the multiple routes level.
pub open spec fn multiple_routes_tips(tips: Seq<GameTip>) -> bool {
    &&& tips.len() == 4
    &&& tip_is(tips[0], TipType::LevelGoal, "关卡目标"@, "管理多条路线，优化整个交通网络的效率"@, "🎯"@, Rgb { r: 20, g: 80, b: 20 })
    &&& tip_is(tips[1], TipType::Strategy, "网络规划"@, "善用中央枢纽作为换乘点，可以减少总的路线段数量"@, "🗺️"@, Rgb { r: 90, g: 70, b: 20 })
    &&& tip_is(tips[2], TipType::Warning, "预算控制"@, "注意控制成本！优先使用便宜的直线段，谨慎使用昂贵的桥梁"@, "💰"@, Rgb { r: 90, g: 30, b: 20 })
    &&& tip_is(tips[3], TipType::Strategy, "跨河策略"@, "河流阻挡了直接路径，使用桥梁路段跨越水面"@, "🌉"@, Rgb { r: 20, g: 70, b: 90 })
}

/// The tips shown for the time pressure level.
pub open spec fn time_pressure_tips(tips: Seq<GameTip>) -> bool {
    &&& tips.len() == 4
    &&& tip_is(tips[0], TipType::LevelGoal, "关卡目标"@, "在60秒内完成网络建设，快速响应是关键"@, "⏰"@, Rgb { r: 20, g: 80, b: 20 })
    &&& tip_is(tips[1], TipType::Strategy, "快速建设"@, "优先建设主要路线，不要追求完美的网络设计"@, "⚡"@, Rgb { r: 90, g: 70, b: 20 })
    &&& tip_is(tips[2], TipType::Warning, "时间压力"@, "乘客耐心较短，延误可能导致大量乘客放弃！"@, "🚨"@, Rgb { r: 90, g: 30, b: 20 })
    &&& tip_is(tips[3], TipType::Strategy, "穿山隧道"@, "山脉阻挡了路径，使用隧道路段穿越山区"@, "🏔️"@, Rgb { r: 60, g: 40, b: 20 })
}

/// The tips shown for a level without tips of its own.
pub open spec fn general_tips(tips: Seq<GameTip>) -> bool {
    &&& tips.len() == 2
    &&& tip_is(tips[0], TipType::Strategy, "基本策略"@, "观察乘客需求，规划最短有效路径"@, "💡"@, Rgb { r: 90, g: 70, b: 20 })
    &&& tip_is(tips[1], TipType::Controls, "操作提示"@, "F4发现公交路线，F6查看乘客状态"@, "🎮"@, Rgb { r: 20, g: 60, b: 90 })
}

/// The tips about segment kinds.
pub open spec fn segment_tips(tips: Seq<GameTip>) -> bool {
    &&& tips.len() == 2
    &&& tip_is(tips[0], TipType::Strategy, "路段选择"@, "直线段(成本1) < 转弯段(成本2) < T型(成本3) < 十字(成本4)"@, "🛤️"@, Rgb { r: 70, g: 70, b: 70 })
    &&& tip_is(tips[1], TipType::Strategy, "特殊路段"@, "桥梁跨越水面(成本5)，隧道穿越山脉(成本6)"@, "🌉"@, Rgb { r: 20, g: 70, b: 90 })
}

impl TipsManager {
    /// Replaces the tips by those of `level_data`'s level and remembers the level.
    pub fn generate_tips_for_level(&mut self, level_data: &LevelData)
        ensures
            final(self).last_level_id@ == level_data.id@,
            final(self).is_expanded == old(self).is_expanded,
            level_data.id@ == "tutorial_01"@ ==> tutorial_tips(final(self).current_tips@),
            level_data.id@ == "level_02_transfer"@ ==> transfer_tips(final(self).current_tips@),
            level_data.id@ == "level_03_multiple_routes"@ ==> multiple_routes_tips(final(self).current_tips@),
            level_data.id@ == "level_04_time_pressure"@ ==> time_pressure_tips(final(self).current_tips@),
            !(level_data.id@ == "tutorial_01"@ || level_data.id@ == "level_02_transfer"@ || level_data.id@ == "level_03_multiple_routes"@ || level_data.id@ == "level_04_time_pressure"@) ==> general_tips(final(self).current_tips@),
    {
        proof {
            reveal_strlit("tutorial_01");
            reveal_strlit("level_02_transfer");
            reveal_strlit("level_03_multiple_routes");
            reveal_strlit("level_04_time_pressure");
            assert("tutorial_01"@.len() == 11);
            assert("level_02_transfer"@.len() == 17);
            assert("level_03_multiple_routes"@.len() == 24);
            assert("level_04_time_pressure"@.len() == 22);
        }
        let id = level_data.id.as_str();
        let tips = if text_eq(id, "tutorial_01") {
            vec![
                tip(TipType::LevelGoal, "关卡目标", "连接A站和B站，让红色乘客能够到达目的地", "🎯", Rgb { r: 20, g: 80, b: 20 }),
                tip(TipType::Strategy, "建设策略", "使用直线段是最经济的选择，只需要简单的直线连接即可", "💡", Rgb { r: 90, g: 70, b: 20 }),
                tip(TipType::Controls, "操作提示", "左键放置路段，右键旋转方向，Delete键删除路段", "🎮", Rgb { r: 20, g: 60, b: 90 }),
            ]
        } else if text_eq(id, "level_02_transfer") {
            vec![
                tip(TipType::LevelGoal, "关卡目标", "学会使用换乘：乘客需要在中转站换乘前往不同目的地", "🎯", Rgb { r: 20, g: 80, b: 20 }),
                tip(TipType::Strategy, "换乘策略", "规划两条路线：A站→中转站，中转站→B站/C站，让乘客在中转站换乘", "🔄", Rgb { r: 90, g: 70, b: 20 }),
                tip(TipType::Warning, "避免绕路", "避免让乘客换乘太多次，每次换乘都会增加等待时间", "⚠️", Rgb { r: 90, g: 30, b: 20 }),
            ]
        } else if text_eq(id, "level_03_multiple_routes") {
            vec![
                tip(TipType::LevelGoal, "关卡目标", "管理多条路线，优化整个交通网络的效率", "🎯", Rgb { r: 20, g: 80, b: 20 }),
                tip(TipType::Strategy, "网络规划", "善用中央枢纽作为换乘点，可以减少总的路线段数量", "🗺️", Rgb { r: 90, g: 70, b: 20 }),
                tip(TipType::Warning, "预算控制", "注意控制成本！优先使用便宜的直线段，谨慎使用昂贵的桥梁", "💰", Rgb { r: 90, g: 30, b: 20 }),
                tip(TipType::Strategy, "跨河策略", "河流阻挡了直接路径，使用桥梁路段跨越水面", "🌉", Rgb { r: 20, g: 70, b: 90 }),
            ]
        } else if text_eq(id, "level_04_time_pressure") {
            vec![
                tip(TipType::LevelGoal, "关卡目标", "在60秒内完成网络建设，快速响应是关键", "⏰", Rgb { r: 20, g: 80, b: 20 }),
                tip(TipType::Strategy, "快速建设", "优先建设主要路线，不要追求完美的网络设计", "⚡", Rgb { r: 90, g: 70, b: 20 }),
                tip(TipType::Warning, "时间压力", "乘客耐心较短，延误可能导致大量乘客放弃！", "🚨", Rgb { r: 90, g: 30, b: 20 }),
                tip(TipType::Strategy, "穿山隧道", "山脉阻挡了路径，使用隧道路段穿越山区", "🏔️", Rgb { r: 60, g: 40, b: 20 }),
            ]
        } else {
            vec![
                tip(TipType::Strategy, "基本策略", "观察乘客需求，规划最短有效路径", "💡", Rgb { r: 90, g: 70, b: 20 }),
                tip(TipType::Controls, "操作提示", "F4发现公交路线，F6查看乘客状态", "🎮", Rgb { r: 20, g: 60, b: 90 }),
            ]
        };
        self.current_tips = tips;
        self.last_level_id = owned(id);
    }

    /// The tips about segment kinds and their costs.
    pub fn get_segment_tips(&self) -> (r: Vec<GameTip>)
        ensures
            segment_tips(r@),
    {
        vec![
            tip(TipType::Strategy, "路段选择", "直线段(成本1) < 转弯段(成本2) < T型(成本3) < 十字(成本4)", "🛤️", Rgb { r: 70, g: 70, b: 70 }),
            tip(TipType::Strategy, "特殊路段", "桥梁跨越水面(成本5)，隧道穿越山脉(成本6)", "🌉", Rgb { r: 20, g: 70, b: 90 }),
        ]
    }
}

/// A tip shown for a while in answer to what happens in the game.
#[derive(Debug)]
pub struct ContextTip {
    pub content: String,
    pub tip_type: TipType,
    pub duration_ms: u64,
}

/// How many of `passengers` wait at a station.
pub open spec fn waiting_count(passengers: Seq<PathfindingAgent>) -> nat
    decreases passengers.len(),
{
    if passengers.len() == 0 {
        0
    } else {
        waiting_count(passengers.drop_last()) + (if passengers.last().state == AgentState::WaitingAtStation {
            1nat
        } else {
            0nat
        })
    }
}

proof fn lemma_waiting_bound(ps: Seq<PathfindingAgent>)
    ensures
        waiting_count(ps) <= ps.len(),
        gave_up_count(ps) <= ps.len(),
    decreases ps.len(),
{
    if ps.len() > 0 {
        lemma_waiting_bound(ps.drop_last());
    }
}

/// The budgets among `objectives` that the cost has gone past four fifths of without
/// passing them, in order.
pub open spec fn budget_alerts(objectives: Seq<ObjectiveCondition>, total_cost: u32) -> Seq<u32>
    decreases objectives.len(),
{
    if objectives.len() == 0 {
        Seq::empty()
    } else {
        let rest = budget_alerts(objectives.drop_last(), total_cost);
        match objectives.last().condition_type {
            ObjectiveType::MaxCost(m) => if total_cost * 5 > m * 4 && total_cost <= m {
                rest.push(m)
            } else {
                rest
            },
            _ => rest,
        }
    }
}

/// The budget alerts of the level in progress.
pub open spec fn budgets_of(gs: GameState) -> Seq<u32> {
    match gs.current_level {
        Some(level) => budget_alerts(level.objectives@, gs.total_cost),
        None => Seq::empty(),
    }
}

/// The situation tip: a warning while one or two passengers gave up, a hint when more than
/// five wait, or news that routes are ready when segments are placed and the one passenger
/// there is waiting. The first of these that applies, as its kind, its duration and the
/// text of its key with its two variants.
pub open spec fn situation_tip(gave_up: nat, waiting: nat, segments: nat, passengers: nat) -> Option<(TipType, u64, Seq<char>, Seq<char>)> {
    if 0 < gave_up < 3 {
        Some((
            TipType::Warning,
            4000u64,
            "⚠️ {0} passengers have given up! Check route connections"@,
            "⚠️ 已有{0}位乘客放弃！检查路线连接"@,
        ))
    } else if waiting > 5 {
        Some((
            TipType::Strategy,
            4000u64,
            "💡 Many passengers are waiting, press F4 to discover bus routes"@,
            "💡 很多乘客在等车，按F4发现公交路线"@,
        ))
    } else if segments > 0 && waiting > 0 && passengers < 2 {
        Some((
            TipType::Strategy,
            3000u64,
            "🚌 Routes are built, waiting for buses to start operating"@,
            "🚌 路线已建好，等待公交车开始运营"@,
        ))
    } else {
        None
    }
}

/// The tips to show now, at most one about the situation and one per budget close to its
/// limit. A situation warning is filled with the count of passengers who gave up, and a
/// budget warning with the cost and the budget.
pub open spec fn tips_due(
    gs: GameState,
    passengers: Seq<PathfindingAgent>,
    segments: nat,
    language: Language,
) -> Seq<(TipType, u64, Seq<char>)> {
    let first = match situation_tip(gave_up_count(passengers), waiting_count(passengers), segments, passengers.len()) {
        Some(t) => {
            let text = in_language(language, t.2, t.3);
            let content = if t.0 == TipType::Warning {
                filled(text, seq![decimal_text(gave_up_count(passengers) as int)])
            } else {
                text
            };
            seq![(t.0, t.1, content)]
        },
        None => Seq::empty(),
    };
    let budgets = budgets_of(gs);
    first + budgets.map_values(|m: u32| (
        TipType::Warning,
        3000u64,
        filled(
            in_language(language, "💰 Budget Warning: {0}/{1}"@, "💰 预算警告: {0}/{1}"@),
            seq![decimal_text(gs.total_cost as int), decimal_text(m as int)],
        ),
    ))
}

/// The tips to show at `now_ms`, at most once every five seconds after the last tip at
/// `last_tip_ms`, and the time to remember as the last tip's when some tip is shown.
pub fn check_contextual_tips(
    game_state: &GameState,
    passengers: &Vec<PathfindingAgent>,
    segments_count: usize,
    language: Language,
    now_ms: u64,
    last_tip_ms: u64,
) -> (r: (Vec<ContextTip>, Option<u64>))
    ensures
        now_ms < last_tip_ms + 5000 ==> r.0@.len() == 0 && r.1 is None,
        now_ms >= last_tip_ms + 5000 ==> {
            let due = tips_due(*game_state, passengers@, segments_count as nat, language);
            &&& r.0@.len() == due.len()
            &&& forall|i: int|
                #![trigger r.0@[i]]
                0 <= i < due.len() ==> r.0@[i].tip_type == due[i].0 && r.0@[i].duration_ms == due[i].1
                    && r.0@[i].content@ == due[i].2
            &&& r.1 == if due.len() > 0 {
                Some(now_ms)
            } else {
                None::<u64>
            }
        },
{
    if (now_ms as u128) < last_tip_ms as u128 + 5000 {
        return (Vec::new(), None);
    }
    let ghost ps = passengers@;
    let mut gave_up: usize = 0;
    let mut waiting: usize = 0;
    let mut i: usize = 0;
    while i < passengers.len()
        invariant
            ps == passengers@,
            i <= ps.len(),
            gave_up == gave_up_count(ps.take(i as int)),
            waiting == waiting_count(ps.take(i as int)),
        decreases passengers.len() - i,
    {
        proof {
            assert(ps.take(i + 1).drop_last() =~= ps.take(i as int));
            lemma_waiting_bound(ps.take(i as int));
        }
        match passengers[i].state {
            AgentState::GaveUp => {
                gave_up = gave_up + 1;
            },
            AgentState::WaitingAtStation => {
                waiting = waiting + 1;
            },
            _ => {},
        }
        i = i + 1;
    }
    assert(ps.take(ps.len() as int) =~= ps);
    let ghost due = tips_due(*game_state, ps, segments_count as nat, language);
    let mut tips: Vec<ContextTip> = Vec::new();
    if gave_up > 0 && gave_up < 3 {
        let count = int_to_string(gave_up as i128);
        let args: [&str; 1] = [count.as_str()];
        let key = passengers_gave_up_warning();
        let content = get_text_with_args(&key, language, args.as_slice());
        proof {
            assert(args@.map_values(|a: &str| a@) =~= seq![decimal_text(gave_up as int)]);
        }
        tips.push(ContextTip { content, tip_type: TipType::Warning, duration_ms: 4000 });
    } else if waiting > 5 {
        let key = passengers_waiting_hint();
        tips.push(ContextTip { content: get_text(&key, language), tip_type: TipType::Strategy, duration_ms: 4000 });
    } else if segments_count > 0 && waiting > 0 && passengers.len() < 2 {
        let key = bus_routes_ready_info();
        tips.push(ContextTip { content: get_text(&key, language), tip_type: TipType::Strategy, duration_ms: 3000 });
    }
    let ghost first_len = tips@.len();
    let ghost budgets = budgets_of(*game_state);
    proof {
        assert(first_len == due.len() - budgets.len());
        assert forall|x: int| 0 <= x < first_len implies #[trigger] tips@[x].tip_type == due[x].0
            && tips@[x].duration_ms == due[x].1 && tips@[x].content@ == due[x].2 by {}
    }
    match &game_state.current_level {
        Some(level_data) => {
            let mut k: usize = 0;
            while k < level_data.objectives.len()
                invariant
                    k <= level_data.objectives@.len(),
                    game_state.current_level == Some(*level_data),
                    budgets == budget_alerts(level_data.objectives@, game_state.total_cost),
                    due == tips_due(*game_state, ps, segments_count as nat, language),
                    first_len <= 1,
                    first_len == due.len() - budgets.len(),
                    tips@.len() == first_len + budget_alerts(level_data.objectives@.take(k as int), game_state.total_cost).len(),
                    forall|x: int| 0 <= x < first_len ==> #[trigger] tips@[x].tip_type == due[x].0
                        && tips@[x].duration_ms == due[x].1 && tips@[x].content@ == due[x].2,
                    forall|x: int|
                        #![trigger tips@[x]]
                        first_len <= x < tips@.len() ==> {
                            let m = budget_alerts(level_data.objectives@.take(k as int), game_state.total_cost)[x - first_len];
                            &&& tips@[x].tip_type == TipType::Warning
                            &&& tips@[x].duration_ms == 3000
                            &&& tips@[x].content@ == filled(
                                in_language(language, "💰 Budget Warning: {0}/{1}"@, "💰 预算警告: {0}/{1}"@),
                                seq![decimal_text(game_state.total_cost as int), decimal_text(m as int)],
                            )
                        },
                decreases level_data.objectives.len() - k,
            {
                proof {
                    assert(level_data.objectives@.take(k + 1).drop_last() =~= level_data.objectives@.take(k as int));
                    assert(level_data.objectives@.take(k + 1).last() == level_data.objectives@[k as int]);
                }
                match level_data.objectives[k].condition_type {
                    ObjectiveType::MaxCost(max_cost) => {
                        let total = game_state.total_cost;
                        if (total as u64) * 5 > (max_cost as u64) * 4 && total <= max_cost {
                            let cost = int_to_string(total as i128);
                            let limit = int_to_string(max_cost as i128);
                            let args: [&str; 2] = [cost.as_str(), limit.as_str()];
                            let key = budget_warning();
                            let content = get_text_with_args(&key, language, args.as_slice());
                            proof {
                                assert(args@.map_values(|a: &str| a@) =~= seq![
                                    decimal_text(total as int),
                                    decimal_text(max_cost as int),
                                ]);
                            }
                            tips.push(ContextTip { content, tip_type: TipType::Warning, duration_ms: 3000 });
                        }
                    },
                    _ => {},
                }
                k = k + 1;
            }
            assert(level_data.objectives@.take(level_data.objectives@.len() as int) =~= level_data.objectives@);
        },
        None => {},
    }
    proof {
        assert forall|x: int| #![trigger tips@[x]] 0 <= x < due.len() implies tips@[x].tip_type == due[x].0
            && tips@[x].duration_ms == due[x].1 && tips@[x].content@ == due[x].2 by {
            if x >= first_len {
                assert(due[x] == (
                    TipType::Warning,
                    3000u64,
                    filled(
                        in_language(language, "💰 Budget Warning: {0}/{1}"@, "💰 预算警告: {0}/{1}"@),
                        seq![decimal_text(game_state.total_cost as int), decimal_text(budgets[x - first_len] as int)],
                    ),
                ));
            }
        }
    }
    let shown = if tips.len() > 0 { Some(now_ms) } else { None };
    (tips, shown)
}

} // verus!
