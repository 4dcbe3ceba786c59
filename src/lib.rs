//! Moderation core for a single community server: a correlator that matches
//! incoming reactions against registered waits, a tracker of recent joiners
//! with raid detection, and the decisions of the approval and raid workflows.
pub mod event;
pub mod tracker;
pub mod correlator;
pub mod raid;
pub mod approval;
pub mod ingest;
