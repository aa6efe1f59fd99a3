pub mod decode;
pub mod messages;
pub mod onion;
pub mod pheromone;
