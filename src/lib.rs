//! Neuroevolution of small fixed-topology feed-forward networks.
pub mod chance;
pub mod network;
pub mod frozen_lake;
pub mod population;
pub mod snake;
