pub mod cells;
pub mod protocol;
pub mod seqs;
pub mod text;
pub mod building_template;
pub mod map;
pub mod validation;
pub mod line;
pub mod pathfinding;
pub mod queue;
pub mod density;
pub mod map_template;
pub mod commands;
pub mod snapshot;
pub mod metrics;
pub mod dev_commands;
pub mod itinerary;
pub mod clock;
