use vstd::prelude::*;

verus! {

/// Counters over the life of all games played.
#[derive(Debug, Clone, Copy, PartialEq, Eq, Structural)]
pub struct GameStats {
    pub total_moves: usize,
    pub total_games_started: usize,
    pub total_games_won: usize,
}

impl Default for GameStats {
    fn default() -> (r: GameStats)
        ensures
            r == (GameStats { total_moves: 0, total_games_started: 0, total_games_won: 0 }),
    {
        GameStats { total_moves: 0, total_games_started: 0, total_games_won: 0 }
    }
}

impl GameStats {
    /// Counts one applied move.
    pub fn record_move(&mut self)
        requires
            old(self).total_moves < usize::MAX,
        ensures
            *final(self) == (GameStats { total_moves: (old(self).total_moves + 1) as usize, ..*old(self) }),
    {
        self.total_moves += 1;
    }

    /// Counts one new deal.
    pub fn record_game_start(&mut self)
        requires
            old(self).total_games_started < usize::MAX,
        ensures
            *final(self) == (GameStats {
                total_games_started: (old(self).total_games_started + 1) as usize,
                ..*old(self)
            }),
    {
        self.total_games_started += 1;
    }

    /// Counts one won game.
    pub fn record_win(&mut self)
        requires
            old(self).total_games_won < usize::MAX,
        ensures
            *final(self) == (GameStats { total_games_won: (old(self).total_games_won + 1) as usize, ..*old(self) }),
    {
        self.total_games_won += 1;
    }
}

} // verus!
