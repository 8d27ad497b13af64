//! Shared data of the estate game: the player, the storeroom, contracts,
//! chores, mini-game results and the advert reward policy.

use vstd::prelude::*;

verus! {

/// The player's standing.
#[derive(Clone)]
pub struct Player {
    pub user_id: String,
    pub nickname: String,
    pub level: i32,
    pub exp: i32,
    pub coins: i32,
    pub gems: i32,
    pub current_stamina: i32,
    pub max_stamina: i32,
    pub score_2048: i32,
    pub score_match3: i32,
    pub score_make10: i32,
    pub ad_claim_date: String,
    pub ad_stamina_claims_today: i32,
}

/// The player's standing with text as character sequences.
pub struct PlayerView {
    pub user_id: Seq<char>,
    pub nickname: Seq<char>,
    pub level: i32,
    pub exp: i32,
    pub coins: i32,
    pub gems: i32,
    pub current_stamina: i32,
    pub max_stamina: i32,
    pub score_2048: i32,
    pub score_match3: i32,
    pub score_make10: i32,
    pub ad_claim_date: Seq<char>,
    pub ad_stamina_claims_today: i32,
}

impl View for Player {
    type V = PlayerView;

    open spec fn view(&self) -> PlayerView {
        PlayerView {
            user_id: self.user_id@,
            nickname: self.nickname@,
            level: self.level,
            exp: self.exp,
            coins: self.coins,
            gems: self.gems,
            current_stamina: self.current_stamina,
            max_stamina: self.max_stamina,
            score_2048: self.score_2048,
            score_match3: self.score_match3,
            score_make10: self.score_make10,
            ad_claim_date: self.ad_claim_date@,
            ad_stamina_claims_today: self.ad_stamina_claims_today,
        }
    }
}

/// A stack of items in the storeroom.
#[derive(Clone)]
pub struct InventoryItem {
    pub item_id: String,
    pub count: i32,
    pub name: String,
    pub item_type: String,
}

/// A stack of items with text as character sequences.
pub struct ItemView {
    pub item_id: Seq<char>,
    pub count: i32,
    pub name: Seq<char>,
    pub item_type: Seq<char>,
}

impl View for InventoryItem {
    type V = ItemView;

    open spec fn view(&self) -> ItemView {
        ItemView {
            item_id: self.item_id@,
            count: self.count,
            name: self.name@,
            item_type: self.item_type@,
        }
    }
}

/// How many of an item a contract asks for.
#[derive(Clone)]
pub struct Requirement {
    pub item_id: String,
    pub count: i32,
}

/// A requirement with text as character sequences.
pub struct RequirementView {
    pub item_id: Seq<char>,
    pub count: i32,
}

impl View for Requirement {
    type V = RequirementView;

    open spec fn view(&self) -> RequirementView {
        RequirementView { item_id: self.item_id@, count: self.count }
    }
}

/// A resident's contract: deliver the required items for coins and experience.
#[derive(Clone)]
pub struct Order {
    pub order_id: String,
    pub status: String,
    pub title: String,
    pub requirements: Vec<Requirement>,
    pub coins_reward: i32,
    pub exp_reward: i32,
}

/// A contract with text as character sequences.
pub struct OrderView {
    pub order_id: Seq<char>,
    pub status: Seq<char>,
    pub title: Seq<char>,
    pub requirements: Seq<RequirementView>,
    pub coins_reward: i32,
    pub exp_reward: i32,
}

impl View for Order {
    type V = OrderView;

    open spec fn view(&self) -> OrderView {
        OrderView {
            order_id: self.order_id@,
            status: self.status@,
            title: self.title@,
            requirements: self.requirements@.map_values(|r: Requirement| r@),
            coins_reward: self.coins_reward,
            exp_reward: self.exp_reward,
        }
    }
}

/// An estate chore with its progress.
#[derive(Clone)]
pub struct Task {
    pub task_id: String,
    pub title: String,
    pub description: String,
    pub target_progress: i32,
    pub current_progress: i32,
    pub claimed: bool,
    pub task_type: String,
}

/// A chore with text as character sequences.
pub struct TaskView {
    pub task_id: Seq<char>,
    pub title: Seq<char>,
    pub description: Seq<char>,
    pub target_progress: i32,
    pub current_progress: i32,
    pub claimed: bool,
    pub task_type: Seq<char>,
}

impl View for Task {
    type V = TaskView;

    open spec fn view(&self) -> TaskView {
        TaskView {
            task_id: self.task_id@,
            title: self.title@,
            description: self.description@,
            target_progress: self.target_progress,
            current_progress: self.current_progress,
            claimed: self.claimed,
            task_type: self.task_type@,
        }
    }
}

/// The whole local game state.
#[derive(Clone)]
pub struct GameState {
    pub player: Player,
    pub inventory: Vec<InventoryItem>,
    pub orders: Vec<Order>,
    pub tasks: Vec<Task>,
    pub transactions: Vec<String>,
}

/// The local game state with text as character sequences.
pub struct GameStateView {
    pub player: PlayerView,
    pub inventory: Seq<ItemView>,
    pub orders: Seq<OrderView>,
    pub tasks: Seq<TaskView>,
    pub transactions: Seq<Seq<char>>,
}

impl View for GameState {
    type V = GameStateView;

    open spec fn view(&self) -> GameStateView {
        GameStateView {
            player: self.player@,
            inventory: self.inventory@.map_values(|i: InventoryItem| i@),
            orders: self.orders@.map_values(|o: Order| o@),
            tasks: self.tasks@.map_values(|t: Task| t@),
            transactions: self.transactions@.map_values(|s: String| s@),
        }
    }
}

/// One reward line of a mini-game result.
#[derive(Clone)]
pub struct GameReward {
    pub item_id: String,
    pub count: i32,
}

/// What a finished mini-game hands back to the estate.
#[derive(Clone)]
pub struct GameRunResult {
    pub game_id: String,
    pub score: i32,
    pub rewards: Vec<GameReward>,
}

/// How watching an advert restores stamina.
#[derive(Clone)]
pub struct AdRewardPolicy {
    pub placement_id: String,
    pub enabled: bool,
    pub stamina_reward: i32,
    pub daily_limit: i32,
    pub cooldown_seconds: i32,
}

impl Default for AdRewardPolicy {
    fn default() -> (p: Self)
        ensures
            p.placement_id@ == "reward_stamina"@,
            p.enabled,
            p.stamina_reward == 8,
            p.daily_limit == 6,
            p.cooldown_seconds == 45,
    {
        Self {
            placement_id: "reward_stamina".to_owned(),
            enabled: true,
            stamina_reward: 8,
            daily_limit: 6,
            cooldown_seconds: 45,
        }
    }
}

} // verus!
