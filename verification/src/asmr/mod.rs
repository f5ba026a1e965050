//! The algebra the pipeline is built from: state, traces, observation, novelty,
//! structure, actions, governance, recovery and minimisation.
pub mod action;
pub mod anomaly;
pub mod compose;
pub mod decision;
pub mod governance;
pub mod laws;
pub mod novelty;
pub mod observe;
pub mod order;
pub mod privacy;
pub mod recovery;
pub mod scale;
pub mod state;
pub mod trace;
pub mod trust;
