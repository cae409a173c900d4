pub mod event;
pub mod fixed;
pub mod game;
pub mod random;
pub mod sys;
pub mod world;
