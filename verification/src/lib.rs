pub mod alphabeta;
pub mod best;
pub mod cli;
pub mod counter;
pub mod eval;
pub mod input;
pub mod move_list;
pub mod moves;
pub mod order;
pub mod position;
pub mod run;
pub mod search;
pub mod text;

pub use crate::cli::Cli;
pub use crate::counter::{eval_counter, reset_eval_counter, EvalCounter};
pub use crate::move_list::MoveList;
pub use crate::moves::{Lane, Side};
pub use crate::position::Position;
pub use crate::run::{
    minimax_black, minimax_black_ab, minimax_black_ab_improved, minimax_black_improved,
    minimax_white, minimax_white_ab, minimax_white_ab_improved, minimax_white_improved,
};
