//! Judge for a grid puzzle: two agents walk an N x N board whose cells hold
//! numbers and whose cell boundaries may carry walls.  A solution gives the
//! agents' starting cells and a sequence of actions (swap the numbers under
//! the agents, then move each agent or not); the judge validates every move
//! against the wall layout, replays the actions, measures how much the replay
//! smoothed the board (sum of squared differences over unwalled neighbours),
//! and lays out a picture of the board after any prefix of the actions.

pub mod board;
pub mod minmax;
pub mod parse;
pub mod rough;
pub mod scene;
pub mod score;
pub mod sim;
