pub mod ai;
pub mod battle;
pub mod campaign;
pub mod campaign_laws;
pub mod controls;
pub mod deployment;
pub mod document;
pub mod handoff;
pub mod idset;
pub mod input;
pub mod motion;
pub mod renderer;
pub mod requests;
pub mod sandbox;
pub mod save;
pub mod seed_order;
pub mod session;
pub mod siege;
pub mod tactical;
pub mod terrain;
pub mod text;
