pub mod color;
pub mod dungeon;
pub mod game;
pub mod grid;
pub mod movement;
pub mod object;
pub mod text;
pub mod turn;
pub mod visibility;
