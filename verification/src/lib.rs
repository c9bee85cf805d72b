pub mod a11y;
pub mod alerts;
pub mod balance;
pub mod content;
pub mod dispatch;
pub mod game;
pub mod metrics;
pub mod mining;
pub mod node;
pub mod power;
pub mod play;
pub mod player;
pub mod production;
pub mod radar;
pub mod resources;
pub mod shell;
pub mod starter;
pub mod tally;
pub mod text;
pub mod topology;
pub mod world;

pub use alerts::{AlertEntry, AlertHistory, MAX_OBJECT_ALERTS};
pub use dispatch::{
    DispatchAssignment, DispatchBoard, DispatchIntent, DispatchPhase, DispatchPolicy, DispatchPriority,
    DispatchReceiverState, DispatchVerb,
};
pub use game::{sample_content, sample_game_state, GameState, SimulationError};
pub use metrics::{RunMetrics, RunMetricsSnapshot};
pub use mining::{Deposit, MiningExtractor};
pub use node::{GridPosition, NodeId};
pub use power::{Battery, BatteryBank, BatteryOwner, GeneratorSnapshot, PowerGenerator, PowerGrid, PowerSnapshot};
pub use production::{CraftSnapshot, FactoryProduction, ProductionBlockReason, RecipeRuntime};
pub use radar::{DeploymentRadar, RadarSnapshot};
pub use resources::{Inventory, InventoryError, InventorySnapshot};
pub use topology::{Topology, TopologyNode};
pub use world::{
    FactoryNode, FactorySnapshot, GeneratorPowerLine, Hauler, HaulerSnapshot, LivenessSummary, ScenarioSnapshot,
    SourceNode, SourceSnapshot, StructureSnapshot, TickSnapshot, TopologySnapshot, WorldMutation, WorldState,
};
pub use player::{
    CompactAllowanceSnapshot, CompactBuilding, CompactBuildingSnapshot, CompactDeposit, CompactDepositSnapshot,
    CompactEditError, CompactGame, CompactGameParts, CompactMarketSnapshot, CompactRecipe, CompactSaveError,
    CompactSnapshot, CompactTruck, CompactTruckSnapshot, CompactTruckTask, COMPACT_SAVE_VERSION, COMPACT_WORLD_HEIGHT,
    COMPACT_WORLD_WIDTH,
};
