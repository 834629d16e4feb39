//! Roster and attendance bookkeeping for a team's recurring sign-up sheet.
//!
//! A [`team::Team`] holds the persistent roster; a [`game::Game`] is the
//! ephemeral sheet of answers for the next game. The library keeps the two
//! consistent, computes when a sheet expires, and mints the opaque tokens
//! that stand in for user accounts. It reaches no store and no network:
//! every operation takes the documents that the caller has loaded and hands
//! back what is to be stored.
//!
//! * [`random`] mints tokens: team keys, admin secrets, player ids and game
//!   keys.
//! * [`calendar`], [`cron`] and [`schedule`] compute the instant at which a
//!   schedule fires next on the wall clock of a time zone.
//! * [`table`] and [`attendance`] hold the roster and the answers;
//!   [`reconcile`] gives every member of the roster an entry on the sheet.
//! * [`team`] founds teams, checks the admin secret, and changes roster and
//!   settings.
//! * [`lifecycle`] opens, fills and shows sign-up sheets; [`rows`] lays out
//!   their lines.
//! * [`store`] says in which order the documents of an operation are
//!   written.
//! * [`text`] reads the fields of forms and orders texts.

pub mod error;
pub mod text;
pub mod table;
pub mod calendar;
pub mod cron;
pub mod schedule;
pub mod attendance;
pub mod reconcile;
pub mod game;
pub mod team;
pub mod rows;
pub mod lifecycle;
pub mod store;
pub mod random;
