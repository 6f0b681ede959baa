use vstd::prelude::*;

use crate::bus_puzzle::text::{filled, fill_placeholders, owned, placeholder_text, replace_all};

verus! {

/// The languages the game speaks.
#[derive(Debug, Clone, Copy, PartialEq, Eq, Hash, Structural)]
pub enum Language {
    English,
    Chinese,
}

/// The code a language is saved under.
pub open spec fn language_code(l: Language) -> Seq<char> {
    match l {
        Language::English => "en"@,
        Language::Chinese => "zh"@,
    }
}

impl Language {
    /// The language code used in the saved settings.
    pub fn code(&self) -> (r: &'static str)
        ensures
            r@ == language_code(*self),
    {
        match self {
            Language::English => "en",
            Language::Chinese => "zh",
        }
    }

    /// The name of the language in itself.
    pub fn display_name(&self) -> (r: &'static str)
        ensures
            r@ == (match *self {
                Language::English => "English"@,
                Language::Chinese => "中文"@,
            }),
    {
        match self {
            Language::English => "English",
            Language::Chinese => "中文",
        }
    }
}

/// A text in every language the game speaks.
#[derive(Debug, Clone, Copy)]
pub struct LocalizedText {
    pub en: &'static str,
    pub zh: &'static str,
}

/// The variant of a text for a language.
pub open spec fn text_for(t: LocalizedText, language: Language) -> Seq<char> {
    match language {
        Language::English => t.en@,
        Language::Chinese => t.zh@,
    }
}

impl LocalizedText {
    pub fn new(en: &'static str, zh: &'static str) -> (r: LocalizedText)
        ensures
            r.en == en,
            r.zh == zh,
    {
        LocalizedText { en, zh }
    }

    /// The variant for `language`.
    pub fn get(&self, language: Language) -> (r: &'static str)
        ensures
            r@ == text_for(*self, language),
    {
        match language {
            Language::English => self.en,
            Language::Chinese => self.zh,
        }
    }
}

/// The language setting of the game; Chinese unless the player chose otherwise.
#[derive(Debug, Clone, Copy)]
pub struct CurrentLanguage {
    pub language: Language,
}

impl Default for CurrentLanguage {
    fn default() -> (r: CurrentLanguage)
        ensures
            r.language == Language::Chinese,
    {
        CurrentLanguage { language: Language::Chinese }
    }
}

/// A text shown on screen, with the arguments that fill its placeholders.
#[derive(Debug)]
pub struct LocalizedTextComponent {
    pub text_key: LocalizedText,
    pub format_args: Option<Vec<String>>,
}

/// The views of a list of strings.
pub open spec fn string_views(v: Seq<String>) -> Seq<Seq<char>> {
    v.map_values(|a: String| a@)
}

impl LocalizedTextComponent {
    pub fn new(text_key: LocalizedText) -> (r: LocalizedTextComponent)
        ensures
            r.text_key == text_key,
            r.format_args is None,
    {
        LocalizedTextComponent { text_key, format_args: None }
    }

    pub fn with_args(text_key: LocalizedText, args: Vec<String>) -> (r: LocalizedTextComponent)
        ensures
            r.text_key == text_key,
            r.format_args == Some(args),
    {
        LocalizedTextComponent { text_key, format_args: Some(args) }
    }

    /// The text in `language`, its placeholders `{0}`, `{1}`, ... filled with the
    /// arguments in that order.
    pub fn get_text(&self, language: Language) -> (r: String)
        ensures
            r@ == (match self.format_args {
                Some(args) => filled(text_for(self.text_key, language), string_views(args@)),
                None => text_for(self.text_key, language),
            }),
    {
        let base_text = self.text_key.get(language);
        match &self.format_args {
            Some(args) => {
                let ghost av = string_views(args@);
                let mut result = owned(base_text);
                let mut i: usize = 0;
                while i < args.len()
                    invariant
                        av == string_views(args@),
                        i <= args@.len(),
                        result@ == filled(base_text@, av.take(i as int)),
                    decreases args.len() - i,
                {
                    let ph = placeholder_text(i);
                    proof {
                        assert(ph@.len() > 0) by {
                            assert(ph@[0] == '{');
                        }
                        assert(av.take(i + 1).drop_last() =~= av.take(i as int));
                        assert(av.take(i + 1).last() == args@[i as int]@);
                    }
                    result = replace_all(result.as_str(), ph.as_str(), args[i].as_str());
                    i = i + 1;
                }
                assert(av.take(args@.len() as int) =~= av);
                result
            },
            None => owned(base_text),
        }
    }
}

/// The text of `text_key` in `language`.
pub fn get_text(text_key: &LocalizedText, language: Language) -> (r: String)
    ensures
        r@ == text_for(*text_key, language),
{
    owned(text_key.get(language))
}

/// The text of `text_key` in `language`, its placeholders `{0}`, `{1}`, ... filled with
/// `args` in that order.
pub fn get_text_with_args(text_key: &LocalizedText, language: Language, args: &[&str]) -> (r: String)
    ensures
        r@ == filled(text_for(*text_key, language), args@.map_values(|a: &str| a@)),
{
    fill_placeholders(text_key.get(language), args)
}

// The texts of the game.

pub fn game_title() -> (r: LocalizedText)
    ensures
        r.en@ == "Last Stop"@,
        r.zh@ == "下一站"@,
{
    LocalizedText { en: "Last Stop", zh: "下一站" }
}

pub fn start_game() -> (r: LocalizedText)
    ensures
        r.en@ == "Start Game"@,
        r.zh@ == "开始游戏"@,
{
    LocalizedText { en: "Start Game", zh: "开始游戏" }
}

pub fn quit_game() -> (r: LocalizedText)
    ensures
        r.en@ == "Quit Game"@,
        r.zh@ == "退出游戏"@,
{
    LocalizedText { en: "Quit Game", zh: "退出游戏" }
}

pub fn language_setting() -> (r: LocalizedText)
    ensures
        r.en@ == "Language"@,
        r.zh@ == "语言设置"@,
{
    LocalizedText { en: "Language", zh: "语言设置" }
}

pub fn score() -> (r: LocalizedText)
    ensures
        r.en@ == "Score: {0}"@,
        r.zh@ == "分数"@,
{
    LocalizedText { en: "Score: {0}", zh: "分数" }
}

pub fn time() -> (r: LocalizedText)
    ensures
        r.en@ == "Time: {0}"@,
        r.zh@ == "时间"@,
{
    LocalizedText { en: "Time: {0}", zh: "时间" }
}

pub fn cost() -> (r: LocalizedText)
    ensures
        r.en@ == "Cost: {0}"@,
        r.zh@ == "成本"@,
{
    LocalizedText { en: "Cost: {0}", zh: "成本" }
}

pub fn passengers() -> (r: LocalizedText)
    ensures
        r.en@ == "Passengers: {0}"@,
        r.zh@ == "乘客"@,
{
    LocalizedText { en: "Passengers: {0}", zh: "乘客" }
}

pub fn pause() -> (r: LocalizedText)
    ensures
        r.en@ == "Pause"@,
        r.zh@ == "暂停"@,
{
    LocalizedText { en: "Pause", zh: "暂停" }
}

pub fn route_segments() -> (r: LocalizedText)
    ensures
        r.en@ == "Route Segments"@,
        r.zh@ == "路线段"@,
{
    LocalizedText { en: "Route Segments", zh: "路线段" }
}

pub fn objectives() -> (r: LocalizedText)
    ensures
        r.en@ == "Objectives"@,
        r.zh@ == "目标"@,
{
    LocalizedText { en: "Objectives", zh: "目标" }
}

pub fn passenger_status() -> (r: LocalizedText)
    ensures
        r.en@ == "Passenger Status"@,
        r.zh@ == "乘客状态"@,
{
    LocalizedText { en: "Passenger Status", zh: "乘客状态" }
}

pub fn game_paused() -> (r: LocalizedText)
    ensures
        r.en@ == "Game Paused"@,
        r.zh@ == "游戏暂停"@,
{
    LocalizedText { en: "Game Paused", zh: "游戏暂停" }
}

pub fn resume_game() -> (r: LocalizedText)
    ensures
        r.en@ == "Resume Game"@,
        r.zh@ == "继续游戏"@,
{
    LocalizedText { en: "Resume Game", zh: "继续游戏" }
}

pub fn restart_level() -> (r: LocalizedText)
    ensures
        r.en@ == "Restart Level"@,
        r.zh@ == "重新开始"@,
{
    LocalizedText { en: "Restart Level", zh: "重新开始" }
}

pub fn main_menu() -> (r: LocalizedText)
    ensures
        r.en@ == "Main Menu"@,
        r.zh@ == "主菜单"@,
{
    LocalizedText { en: "Main Menu", zh: "主菜单" }
}

pub fn level_complete() -> (r: LocalizedText)
    ensures
        r.en@ == "Level Complete!"@,
        r.zh@ == "关卡完成！"@,
{
    LocalizedText { en: "Level Complete!", zh: "关卡完成！" }
}

pub fn congratulations() -> (r: LocalizedText)
    ensures
        r.en@ == "🎉 Congratulations!"@,
        r.zh@ == "🎉 恭喜通关！"@,
{
    LocalizedText { en: "🎉 Congratulations!", zh: "🎉 恭喜通关！" }
}

pub fn final_score() -> (r: LocalizedText)
    ensures
        r.en@ == "Final Score: {0}"@,
        r.zh@ == "最终得分: {0}"@,
{
    LocalizedText { en: "Final Score: {0}", zh: "最终得分: {0}" }
}

pub fn score_breakdown() -> (r: LocalizedText)
    ensures
        r.en@ == "Score Details: Base:{0} Efficiency:+{1} Speed:+{2} Cost:+{3}"@,
        r.zh@ == "分数明细: 基础:{0} 效率:+{1} 速度:+{2} 成本:+{3}"@,
{
    LocalizedText { en: "Score Details: Base:{0} Efficiency:+{1} Speed:+{2} Cost:+{3}", zh: "分数明细: 基础:{0} 效率:+{1} 速度:+{2} 成本:+{3}" }
}

pub fn completion_time() -> (r: LocalizedText)
    ensures
        r.en@ == "Time: {0}"@,
        r.zh@ == "用时: {0}"@,
{
    LocalizedText { en: "Time: {0}", zh: "用时: {0}" }
}

pub fn total_cost() -> (r: LocalizedText)
    ensures
        r.en@ == "Total Cost: {0}"@,
        r.zh@ == "总成本: {0}"@,
{
    LocalizedText { en: "Total Cost: {0}", zh: "总成本: {0}" }
}

pub fn next_level() -> (r: LocalizedText)
    ensures
        r.en@ == "Next Level"@,
        r.zh@ == "下一关"@,
{
    LocalizedText { en: "Next Level", zh: "下一关" }
}

pub fn retry() -> (r: LocalizedText)
    ensures
        r.en@ == "Retry"@,
        r.zh@ == "重新挑战"@,
{
    LocalizedText { en: "Retry", zh: "重新挑战" }
}

pub fn all_levels_complete() -> (r: LocalizedText)
    ensures
        r.en@ == "You've completed all levels!"@,
        r.zh@ == "您已完成所有关卡！"@,
{
    LocalizedText { en: "You've completed all levels!", zh: "您已完成所有关卡！" }
}

pub fn thank_you() -> (r: LocalizedText)
    ensures
        r.en@ == "Thank you for playing!"@,
        r.zh@ == "感谢游玩！"@,
{
    LocalizedText { en: "Thank you for playing!", zh: "感谢游玩！" }
}

pub fn mission_failed() -> (r: LocalizedText)
    ensures
        r.en@ == "❌ Mission Failed"@,
        r.zh@ == "❌ 任务失败"@,
{
    LocalizedText { en: "❌ Mission Failed", zh: "❌ 任务失败" }
}

pub fn failure_reason() -> (r: LocalizedText)
    ensures
        r.en@ == "Failure Reason: {0}"@,
        r.zh@ == "失败原因: {0}"@,
{
    LocalizedText { en: "Failure Reason: {0}", zh: "失败原因: {0}" }
}

pub fn game_statistics() -> (r: LocalizedText)
    ensures
        r.en@ == "Game Statistics:"@,
        r.zh@ == "本次游戏统计:"@,
{
    LocalizedText { en: "Game Statistics:", zh: "本次游戏统计:" }
}

pub fn score_earned() -> (r: LocalizedText)
    ensures
        r.en@ == "Score Earned: {0}"@,
        r.zh@ == "获得分数: {0}"@,
{
    LocalizedText { en: "Score Earned: {0}", zh: "获得分数: {0}" }
}

pub fn game_duration() -> (r: LocalizedText)
    ensures
        r.en@ == "Game Duration: {0}"@,
        r.zh@ == "游戏时长: {0}"@,
{
    LocalizedText { en: "Game Duration: {0}", zh: "游戏时长: {0}" }
}

pub fn passengers_gave_up() -> (r: LocalizedText)
    ensures
        r.en@ == "Passengers Gave Up: {0}"@,
        r.zh@ == "放弃的乘客: {0}"@,
{
    LocalizedText { en: "Passengers Gave Up: {0}", zh: "放弃的乘客: {0}" }
}

pub fn dont_give_up() -> (r: LocalizedText)
    ensures
        r.en@ == "Don't give up, try again!"@,
        r.zh@ == "不要灰心，再试一次！"@,
{
    LocalizedText { en: "Don't give up, try again!", zh: "不要灰心，再试一次！" }
}

pub fn waiting() -> (r: LocalizedText)
    ensures
        r.en@ == "Waiting: {0}"@,
        r.zh@ == "等待: {0}"@,
{
    LocalizedText { en: "Waiting: {0}", zh: "等待: {0}" }
}

pub fn arrived() -> (r: LocalizedText)
    ensures
        r.en@ == "Arrived: {0}"@,
        r.zh@ == "到达: {0}"@,
{
    LocalizedText { en: "Arrived: {0}", zh: "到达: {0}" }
}

pub fn gave_up() -> (r: LocalizedText)
    ensures
        r.en@ == "Gave Up: {0}"@,
        r.zh@ == "放弃: {0}"@,
{
    LocalizedText { en: "Gave Up: {0}", zh: "放弃: {0}" }
}

pub fn level_tutorial() -> (r: LocalizedText)
    ensures
        r.en@ == "First Connection"@,
        r.zh@ == "第一次连接"@,
{
    LocalizedText { en: "First Connection", zh: "第一次连接" }
}

pub fn level_transfer() -> (r: LocalizedText)
    ensures
        r.en@ == "Learn Transfers"@,
        r.zh@ == "学会换乘"@,
{
    LocalizedText { en: "Learn Transfers", zh: "学会换乘" }
}

pub fn level_multiple() -> (r: LocalizedText)
    ensures
        r.en@ == "Multiple Routes"@,
        r.zh@ == "多条路线"@,
{
    LocalizedText { en: "Multiple Routes", zh: "多条路线" }
}

pub fn level_time_pressure() -> (r: LocalizedText)
    ensures
        r.en@ == "Time Challenge"@,
        r.zh@ == "时间挑战"@,
{
    LocalizedText { en: "Time Challenge", zh: "时间挑战" }
}

pub fn station_a() -> (r: LocalizedText)
    ensures
        r.en@ == "Station A"@,
        r.zh@ == "A站"@,
{
    LocalizedText { en: "Station A", zh: "A站" }
}

pub fn station_b() -> (r: LocalizedText)
    ensures
        r.en@ == "Station B"@,
        r.zh@ == "B站"@,
{
    LocalizedText { en: "Station B", zh: "B站" }
}

pub fn station_c() -> (r: LocalizedText)
    ensures
        r.en@ == "Station C"@,
        r.zh@ == "C站"@,
{
    LocalizedText { en: "Station C", zh: "C站" }
}

pub fn transfer_hub() -> (r: LocalizedText)
    ensures
        r.en@ == "Transfer Hub"@,
        r.zh@ == "中转站"@,
{
    LocalizedText { en: "Transfer Hub", zh: "中转站" }
}

pub fn north_station() -> (r: LocalizedText)
    ensures
        r.en@ == "North Station"@,
        r.zh@ == "北站"@,
{
    LocalizedText { en: "North Station", zh: "北站" }
}

pub fn south_station() -> (r: LocalizedText)
    ensures
        r.en@ == "South Station"@,
        r.zh@ == "南站"@,
{
    LocalizedText { en: "South Station", zh: "南站" }
}

pub fn northeast_station() -> (r: LocalizedText)
    ensures
        r.en@ == "Northeast Station"@,
        r.zh@ == "东北站"@,
{
    LocalizedText { en: "Northeast Station", zh: "东北站" }
}

pub fn southeast_station() -> (r: LocalizedText)
    ensures
        r.en@ == "Southeast Station"@,
        r.zh@ == "东南站"@,
{
    LocalizedText { en: "Southeast Station", zh: "东南站" }
}

pub fn central_hub() -> (r: LocalizedText)
    ensures
        r.en@ == "Central Hub"@,
        r.zh@ == "中央枢纽"@,
{
    LocalizedText { en: "Central Hub", zh: "中央枢纽" }
}

pub fn start_station() -> (r: LocalizedText)
    ensures
        r.en@ == "Start Station"@,
        r.zh@ == "起点站"@,
{
    LocalizedText { en: "Start Station", zh: "起点站" }
}

pub fn target_station_a() -> (r: LocalizedText)
    ensures
        r.en@ == "Target Station A"@,
        r.zh@ == "目标站A"@,
{
    LocalizedText { en: "Target Station A", zh: "目标站A" }
}

pub fn target_station_b() -> (r: LocalizedText)
    ensures
        r.en@ == "Target Station B"@,
        r.zh@ == "目标站B"@,
{
    LocalizedText { en: "Target Station B", zh: "目标站B" }
}

pub fn target_station_c() -> (r: LocalizedText)
    ensures
        r.en@ == "Target Station C"@,
        r.zh@ == "目标站C"@,
{
    LocalizedText { en: "Target Station C", zh: "目标站C" }
}

pub fn objective_connect_all() -> (r: LocalizedText)
    ensures
        r.en@ == "Connect all passengers to destinations"@,
        r.zh@ == "连接所有乘客到目的地"@,
{
    LocalizedText { en: "Connect all passengers to destinations", zh: "连接所有乘客到目的地" }
}

pub fn objective_max_transfers() -> (r: LocalizedText)
    ensures
        r.en@ == "Maximum {0} transfers"@,
        r.zh@ == "最多使用{0}次换乘"@,
{
    LocalizedText { en: "Maximum {0} transfers", zh: "最多使用{0}次换乘" }
}

pub fn objective_max_segments() -> (r: LocalizedText)
    ensures
        r.en@ == "Use at most {0} route segments"@,
        r.zh@ == "最多使用{0}个路线段"@,
{
    LocalizedText { en: "Use at most {0} route segments", zh: "最多使用{0}个路线段" }
}

pub fn objective_max_cost() -> (r: LocalizedText)
    ensures
        r.en@ == "Total cost ≤ {0}"@,
        r.zh@ == "总成本不超过{0}"@,
{
    LocalizedText { en: "Total cost ≤ {0}", zh: "总成本不超过{0}" }
}

pub fn objective_time_limit() -> (r: LocalizedText)
    ensures
        r.en@ == "Complete within {0} seconds"@,
        r.zh@ == "在{0}秒内完成"@,
{
    LocalizedText { en: "Complete within {0} seconds", zh: "在{0}秒内完成" }
}

pub fn objective_passenger_satisfaction() -> (r: LocalizedText)
    ensures
        r.en@ == "Passenger satisfaction ≥ {0}%"@,
        r.zh@ == "乘客满意度达到{0}%"@,
{
    LocalizedText { en: "Passenger satisfaction ≥ {0}%", zh: "乘客满意度达到{0}%" }
}

pub fn tutorial_description() -> (r: LocalizedText)
    ensures
        r.en@ == "Learn basic route connection by transporting red passengers from Station A to Station B"@,
        r.zh@ == "学习基本的路线连接操作，将红色乘客从A站送到B站"@,
{
    LocalizedText { en: "Learn basic route connection by transporting red passengers from Station A to Station B", zh: "学习基本的路线连接操作，将红色乘客从A站送到B站" }
}

pub fn transfer_description() -> (r: LocalizedText)
    ensures
        r.en@ == "Learn to use the transfer system by connecting different routes through transfer stations"@,
        r.zh@ == "学习使用换乘系统，通过中转站连接不同的路线"@,
{
    LocalizedText { en: "Learn to use the transfer system by connecting different routes through transfer stations", zh: "学习使用换乘系统，通过中转站连接不同的路线" }
}

pub fn multiple_description() -> (r: LocalizedText)
    ensures
        r.en@ == "Manage multiple independent routes and optimize the entire transportation network"@,
        r.zh@ == "管理多条独立路线，优化整个交通网络"@,
{
    LocalizedText { en: "Manage multiple independent routes and optimize the entire transportation network", zh: "管理多条独立路线，优化整个交通网络" }
}

pub fn time_pressure_description() -> (r: LocalizedText)
    ensures
        r.en@ == "Quickly build an efficient transportation network within limited time"@,
        r.zh@ == "在有限时间内快速建设高效的交通网络"@,
{
    LocalizedText { en: "Quickly build an efficient transportation network within limited time", zh: "在有限时间内快速建设高效的交通网络" }
}

pub fn passengers_gave_up_warning() -> (r: LocalizedText)
    ensures
        r.en@ == "⚠️ {0} passengers have given up! Check route connections"@,
        r.zh@ == "⚠️ 已有{0}位乘客放弃！检查路线连接"@,
{
    LocalizedText { en: "⚠️ {0} passengers have given up! Check route connections", zh: "⚠️ 已有{0}位乘客放弃！检查路线连接" }
}

pub fn passengers_waiting_hint() -> (r: LocalizedText)
    ensures
        r.en@ == "💡 Many passengers are waiting, press F4 to discover bus routes"@,
        r.zh@ == "💡 很多乘客在等车，按F4发现公交路线"@,
{
    LocalizedText { en: "💡 Many passengers are waiting, press F4 to discover bus routes", zh: "💡 很多乘客在等车，按F4发现公交路线" }
}

pub fn bus_routes_ready_info() -> (r: LocalizedText)
    ensures
        r.en@ == "🚌 Routes are built, waiting for buses to start operating"@,
        r.zh@ == "🚌 路线已建好，等待公交车开始运营"@,
{
    LocalizedText { en: "🚌 Routes are built, waiting for buses to start operating", zh: "🚌 路线已建好，等待公交车开始运营" }
}

pub fn budget_warning() -> (r: LocalizedText)
    ensures
        r.en@ == "💰 Budget Warning: {0}/{1}"@,
        r.zh@ == "💰 预算警告: {0}/{1}"@,
{
    LocalizedText { en: "💰 Budget Warning: {0}/{1}", zh: "💰 预算警告: {0}/{1}" }
}

} // verus!
