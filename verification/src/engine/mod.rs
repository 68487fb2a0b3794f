//! Move generation, evaluation and search.

pub mod chesslaws;
pub mod clock;
pub mod eval;
pub mod gamelaws;
pub mod history;
pub mod learnlaws;
pub mod movegen;
pub mod movepicker;
pub mod orderlaws;
pub mod perft;
pub mod pickerlaws;
pub mod play;
pub mod search;
pub mod search_params;
pub mod see;
pub mod seelaws;
pub mod tm;
pub mod tt;
pub mod valuelaws;
