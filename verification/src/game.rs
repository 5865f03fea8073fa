//! A full game: the player's board against the opponent's board, struck in
//! alternating turns until one side has no ship afloat.

use vstd::prelude::*;

use crate::board::{strike_post, GameBoard, StrikeError, StrikeOutcome};
use crate::generate::{generate_game_board, BoardGenError};
use crate::ship::Point;

verus! {

/// The two boards of a running game and whether it has ended.
pub struct Game {
    pub player_board: GameBoard,
    pub bot_board: GameBoard,
    pub is_game_over: bool,
}

impl Game {
    /// Game invariant: both boards are well formed, and the game is over
    /// exactly when one side has no ship afloat.
    pub open spec fn wf(self) -> bool {
        &&& self.player_board.wf()
        &&& self.bot_board.wf()
        &&& (self.is_game_over <==> (self.player_board.ships_left == 0
            || self.bot_board.ships_left == 0))
    }

    /// Creates a game. The player's board, already placed, is supplied; the
    /// opponent's board is generated at random and starts untouched.
    pub fn new(player_board: GameBoard) -> (r: Result<Game, BoardGenError>)
        requires
            player_board.wf(),
        ensures
            r matches Ok(g) ==> g.wf() && g.player_board == player_board && g.bot_board.wf()
                && g.bot_board.fresh() && g.bot_board.ships_left == 5 && (g.is_game_over
                <==> player_board.ships_left == 0),
    {
        let bot_board = match generate_game_board() {
            Ok(b) => b,
            Err(e) => {
                return Err(e);
            },
        };
        let over = player_board.ships_left == 0;
        Ok(Game { player_board, bot_board, is_game_over: over })
    }

    /// Resolves a strike on the player's board (when `is_player_board_hit`)
    /// or on the opponent's board, leaving the other board alone, and ends
    /// the game when the struck board's last ship sinks. Once the game is
    /// over, every further strike is rejected unchanged.
    pub fn update_hit(&mut self, is_player_board_hit: bool, target: Point) -> (r: Result<
        StrikeOutcome,
        StrikeError,
    >)
        requires
            old(self).wf(),
            target.0 <= 9,
            target.1 <= 9,
        ensures
            final(self).wf(),
            old(self).is_game_over ==> r == Err::<StrikeOutcome, StrikeError>(
                StrikeError::GameAlreadyOver,
            ) && *final(self) == *old(self),
            !old(self).is_game_over && is_player_board_hit ==> strike_post(
                old(self).player_board,
                final(self).player_board,
                target@,
                r,
            ) && final(self).bot_board == old(self).bot_board,
            !old(self).is_game_over && !is_player_board_hit ==> strike_post(
                old(self).bot_board,
                final(self).bot_board,
                target@,
                r,
            ) && final(self).player_board == old(self).player_board,
            final(self).is_game_over == (final(self).player_board.ships_left == 0
                || final(self).bot_board.ships_left == 0),
    {
        if self.is_game_over {
            return Err(StrikeError::GameAlreadyOver);
        }
        let r = if is_player_board_hit {
            self.player_board.resolve_strike(&target)
        } else {
            self.bot_board.resolve_strike(&target)
        };
        if is_player_board_hit {
            if self.player_board.ships_left == 0 {
                self.is_game_over = true;
            }
        } else {
            if self.bot_board.ships_left == 0 {
                self.is_game_over = true;
            }
        }
        r
    }
}

} // verus!
