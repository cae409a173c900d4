pub mod aster;
pub mod bullet;
pub mod control;
pub mod draw;
pub mod inertia;
pub mod physics;
