use vstd::prelude::*;

use crate::bus_puzzle::components::{AgentState, PassengerColor, RouteSegmentType};
use crate::bus_puzzle::interaction::PathfindingAgent;
use crate::bus_puzzle::level_system::{LevelData, ObjectiveCondition};
use crate::bus_puzzle::localization::{language_code, Language};
use crate::bus_puzzle::resources::{GameState, LevelManager};
use crate::bus_puzzle::text::{has_substring, text_contains, text_eq};

verus! {

/// What a button does.
#[derive(Debug, Clone, Copy, PartialEq, Eq, Structural)]
pub enum ButtonType {
    StartGame,
    PauseGame,
    ResumeGame,
    RestartLevel,
    NextLevel,
    MainMenu,
    QuitGame,
    ToggleLanguage,
    InventorySlot(RouteSegmentType),
}

/// What a progress bar shows.
#[derive(Debug, Clone, Copy, PartialEq, Eq, Structural)]
pub enum ProgressBarType {
    ObjectiveProgress,
    TimeRemaining,
    BudgetUsed,
}

/// The result a finished level is shown with; the time in milliseconds.
#[derive(Debug, Clone, Copy, PartialEq, Eq, Structural)]
pub struct LevelCompleteData {
    pub final_score: u32,
    pub completion_time: u64,
}

/// What the level-complete screen shows: whether the level was the last one (then it
/// congratulates, says that every level is done and thanks the player, and offers no next
/// level), the score, the time in milliseconds and the running cost.
#[derive(Debug, Clone, Copy, PartialEq, Eq, Structural)]
pub struct LevelCompleteSummary {
    pub is_final_level: bool,
    pub final_score: u32,
    pub completion_time: u64,
    pub total_cost: u32,
}

/// The level-complete screen's contents: the level is the last when no level follows it in
/// the list; the recorded score and time are shown, or, where they are zero, the running
/// score and the game time.
pub fn level_complete_summary(level_manager: &LevelManager, data: &LevelCompleteData, game_state: &GameState) -> (r: LevelCompleteSummary)
    ensures
        r.is_final_level == (level_manager.current_level_index + 1 >= level_manager.available_levels@.len()),
        r.final_score == (if data.final_score > 0 {
            data.final_score
        } else {
            game_state.score.total_score
        }),
        r.completion_time == (if data.completion_time > 0 {
            data.completion_time
        } else {
            game_state.game_time
        }),
        r.total_cost == game_state.total_cost,
{
    let n = level_manager.available_levels.len();
    let is_final_level = n == 0 || level_manager.current_level_index >= n - 1;
    let final_score = if data.final_score > 0 {
        data.final_score
    } else {
        game_state.score.total_score
    };
    let completion_time = if data.completion_time > 0 {
        data.completion_time
    } else {
        game_state.game_time
    };
    LevelCompleteSummary { is_final_level, final_score, completion_time, total_cost: game_state.total_cost }
}

/// Why and how a game was lost; the time in milliseconds.
#[derive(Debug)]
pub struct GameOverData {
    pub reason: String,
    pub final_score: u32,
    pub game_time: u64,
    pub passengers_gave_up: u32,
}

/// The other language.
pub open spec fn other_language(l: Language) -> Language {
    match l {
        Language::English => Language::Chinese,
        Language::Chinese => Language::English,
    }
}

/// The language the toggle switches to from `language`.
pub fn toggle_language(language: Language) -> (r: Language)
    ensures
        r == other_language(language),
{
    match language {
        Language::English => Language::Chinese,
        Language::Chinese => Language::English,
    }
}

/// The label of the language toggle once `new_language` is chosen: the name of the
/// language it would switch to next.
pub fn language_toggle_label(new_language: Language) -> (r: &'static str)
    ensures
        r@ == (match new_language {
            Language::English => "中文"@,
            Language::Chinese => "English"@,
        }),
{
    match new_language {
        Language::English => "中文",
        Language::Chinese => "English",
    }
}

/// The language a saved code names, if any.
pub open spec fn language_of_code(code: Seq<char>) -> Option<Language> {
    if code == "en"@ {
        Some(Language::English)
    } else if code == "zh"@ {
        Some(Language::Chinese)
    } else {
        None
    }
}

/// Toggling the language twice gives back the language chosen before.
pub proof fn law_toggle_twice(l: Language)
    ensures
        other_language(other_language(l)) == l,
{
}

/// A saved language reads back as the same language: the code a language is saved under
/// parses to it.
pub proof fn law_language_code_round_trip(l: Language)
    ensures
        language_of_code(language_code(l)) == Some(l),
{
    reveal_strlit("en");
    reveal_strlit("zh");
    assert("en"@.len() == 2);
    assert("zh"@.len() == 2);
    assert("en"@[0] != "zh"@[0]);
}

/// The language a saved setting names: `en` or `zh`.
pub fn parse_language_code(code: &str) -> (r: Option<Language>)
    ensures
        r == language_of_code(code@),
{
    if text_eq(code, "en") {
        Some(Language::English)
    } else if text_eq(code, "zh") {
        Some(Language::Chinese)
    } else {
        None
    }
}

/// Moves on to the next level after one is finished, unlocking it; false when every level
/// is done and the game goes back to the main menu.
pub fn advance_to_next_level(level_manager: &mut LevelManager) -> (r: bool)
    requires
        old(level_manager).current_level_index < usize::MAX,
    ensures
        r == (old(level_manager).current_level_index + 1 < old(level_manager).available_levels@.len()),
        r ==> final(level_manager).current_level_index == old(level_manager).current_level_index + 1
            && final(level_manager).unlocked_levels@ == if old(level_manager).current_level_index + 1 < old(
            level_manager,
        ).unlocked_levels@.len() {
            old(level_manager).unlocked_levels@.update(old(level_manager).current_level_index + 1, true)
        } else {
            old(level_manager).unlocked_levels@
        },
        !r ==> final(level_manager).current_level_index == old(level_manager).current_level_index
            && final(level_manager).unlocked_levels == old(level_manager).unlocked_levels,
        final(level_manager).available_levels == old(level_manager).available_levels,
        final(level_manager).level_scores == old(level_manager).level_scores,
{
    let next_level_index = level_manager.current_level_index + 1;
    if next_level_index < level_manager.available_levels.len() {
        if next_level_index < level_manager.unlocked_levels.len() {
            level_manager.unlocked_levels.set(next_level_index, true);
        }
        level_manager.current_level_index = next_level_index;
        true
    } else {
        false
    }
}

/// How many passengers of `color` are still on their way (waiting, travelling or
/// transferring) and how many have arrived.
pub open spec fn color_counts(passengers: Seq<PathfindingAgent>, color: PassengerColor) -> (nat, nat)
    decreases passengers.len(),
{
    if passengers.len() == 0 {
        (0, 0)
    } else {
        let before = color_counts(passengers.drop_last(), color);
        let p = passengers.last();
        if p.color != color {
            before
        } else if p.state == AgentState::WaitingAtStation || p.state == AgentState::Traveling
            || p.state == AgentState::Transferring {
            (before.0 + 1, before.1)
        } else if p.state == AgentState::Arrived {
            (before.0, before.1 + 1)
        } else {
            before
        }
    }
}

proof fn lemma_color_counts_bound(ps: Seq<PathfindingAgent>, color: PassengerColor)
    ensures
        color_counts(ps, color).0 + color_counts(ps, color).1 <= ps.len(),
    decreases ps.len(),
{
    if ps.len() > 0 {
        lemma_color_counts_bound(ps.drop_last(), color);
    }
}

/// The waiting and arrived counts of the passengers of `color`.
pub fn passenger_color_counts(passengers: &Vec<PathfindingAgent>, color: PassengerColor) -> (r: (usize, usize))
    ensures
        r.0 == color_counts(passengers@, color).0,
        r.1 == color_counts(passengers@, color).1,
{
    let mut waiting: usize = 0;
    let mut arrived: usize = 0;
    let mut i: usize = 0;
    while i < passengers.len()
        invariant
            i <= passengers@.len(),
            waiting == color_counts(passengers@.take(i as int), color).0,
            arrived == color_counts(passengers@.take(i as int), color).1,
        decreases passengers.len() - i,
    {
        proof {
            assert(passengers@.take(i + 1).drop_last() =~= passengers@.take(i as int));
            lemma_color_counts_bound(passengers@.take(i as int), color);
        }
        if passengers[i].color == color {
            match passengers[i].state {
                AgentState::WaitingAtStation | AgentState::Traveling | AgentState::Transferring => {
                    waiting = waiting + 1;
                },
                AgentState::Arrived => {
                    arrived = arrived + 1;
                },
                _ => {},
            }
        }
        i = i + 1;
    }
    assert(passengers@.take(passengers@.len() as int) =~= passengers@);
    (waiting, arrived)
}

/// The colours of a list of demands, each once, in the order they first appear.
pub open spec fn colors_once(colors: Seq<PassengerColor>) -> Seq<PassengerColor>
    decreases colors.len(),
{
    if colors.len() == 0 {
        Seq::empty()
    } else {
        let before = colors_once(colors.drop_last());
        if before.contains(colors.last()) {
            before
        } else {
            before.push(colors.last())
        }
    }
}

/// The colours of the passengers a level has, each once, in the order of its demands.
pub fn get_level_passenger_colors(level_data: &LevelData) -> (r: Vec<PassengerColor>)
    ensures
        r@ == colors_once(level_data.passenger_demands@.map_values(|d: crate::bus_puzzle::level_system::PassengerDemand| d.color)),
{
    let ghost cs = level_data.passenger_demands@.map_values(|d: crate::bus_puzzle::level_system::PassengerDemand| d.color);
    let mut colors: Vec<PassengerColor> = Vec::new();
    let mut i: usize = 0;
    while i < level_data.passenger_demands.len()
        invariant
            cs == level_data.passenger_demands@.map_values(|d: crate::bus_puzzle::level_system::PassengerDemand| d.color),
            i <= cs.len(),
            colors@ == colors_once(cs.take(i as int)),
        decreases level_data.passenger_demands.len() - i,
    {
        proof {
            assert(cs.take(i + 1).drop_last() =~= cs.take(i as int));
        }
        let c = level_data.passenger_demands[i].color;
        let mut seen = false;
        let mut k: usize = 0;
        while k < colors.len()
            invariant
                k <= colors@.len(),
                seen == exists|x: int| 0 <= x < k && colors@[x] == c,
            decreases colors.len() - k,
        {
            if colors[k] == c {
                seen = true;
            }
            k = k + 1;
        }
        if !seen {
            colors.push(c);
        }
        i = i + 1;
    }
    assert(cs.take(cs.len() as int) =~= cs);
    colors
}

/// The passenger colours an objective is about: none for every kind of objective.
pub fn get_objective_passenger_colors(objective: &ObjectiveCondition) -> (r: Option<Vec<PassengerColor>>)
    ensures
        r is None,
{
    None
}

/// The advice shown with a lost game, picked by what its reason says.
pub fn get_failure_tip(reason: &str) -> (r: &'static str)
    ensures
        r@ == (if has_substring(reason@, "乘客放弃"@) {
            "💡 提示：尝试建设更短的路径，或者增加换乘站点来减少等待时间"@
        } else if has_substring(reason@, "时间超限"@) {
            "💡 提示：优先连接最重要的站点，不要追求完美的网络设计"@
        } else if has_substring(reason@, "预算超支"@) {
            "💡 提示：多使用便宜的直线段，减少昂贵的复杂路段"@
        } else {
            "💡 提示：分析失败原因，调整策略后重新挑战"@
        }),
{
    if text_contains(reason, "乘客放弃") {
        "💡 提示：尝试建设更短的路径，或者增加换乘站点来减少等待时间"
    } else if text_contains(reason, "时间超限") {
        "💡 提示：优先连接最重要的站点，不要追求完美的网络设计"
    } else if text_contains(reason, "预算超支") {
        "💡 提示：多使用便宜的直线段，减少昂贵的复杂路段"
    } else {
        "💡 提示：分析失败原因，调整策略后重新挑战"
    }
}

} // verus!
