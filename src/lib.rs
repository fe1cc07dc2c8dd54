//! Rule engine of a falling-block puzzle game: the playing field, the active
//! piece, collision testing, rotation with horizontal kicks, line clearing,
//! scoring, level progression and the highscore lists.

pub mod shapes;
pub mod piece;
pub mod game;
pub mod highscores;
