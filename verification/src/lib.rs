//! A weighted-membership registry for ink! smart contracts.
//!
//! One admin maintains a list of members, each with an account and a voting
//! weight, together with the running total of all weights. The registry is a
//! pure state machine: the host tells it who is calling, and gets back either
//! the error or the notifications of what has changed.

pub mod account;
pub mod error;
pub mod event;
pub mod group_simple;
pub mod helpers;
pub mod laws;
pub mod message;
pub mod storage;
pub mod update;
pub mod voting_group;

pub use crate::error::{ContractError, InkGroupError};
pub use crate::event::{AdminUpdate, GroupEvent, MemberAddition, MemberRemoval, MemberUpdate};
pub use crate::group_simple::InkGroupSimple;
pub use crate::helpers::{checked_total, find_member, validate_unique_members};
pub use crate::message::InkGroup;
pub use crate::storage::Member;
pub use crate::voting_group::InkVotingGroup;
