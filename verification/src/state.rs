//! The state container: all games, keyed by identifier. A closed game
//! leaves a tombstone behind, so its identifier stays addressable and
//! consistently reports a stale handle.

use vstd::prelude::*;
use crate::api::{
    all_games_resp, response_from_game, response_from_games, single_game_resp, ChangedGame,
    Response,
};
use crate::errors::{Error, ErrorType};
use crate::game::{
    fresh_game, navigate_outcome, play_outcome, spec_repr, Game, GameV, ReprV,
};
use crate::rules::{fen_parse, start_fen};

verus! {

/// A slot of the state map: a live game, or the tombstone of a closed one.
pub enum GameCell {
    Present(Game),
    Tombstone,
}

/// Mathematical model of a `GameCell`.
pub enum CellV {
    Present(GameV),
    Tombstone,
}

impl View for GameCell {
    type V = CellV;

    open spec fn view(&self) -> CellV {
        match self {
            GameCell::Present(g) => CellV::Present(g@),
            GameCell::Tombstone => CellV::Tombstone,
        }
    }
}

/// Whether the state holds an entry (live or tombstoned) for `id`.
pub open spec fn has_id(s: Seq<(Seq<char>, CellV)>, id: Seq<char>) -> bool {
    exists|i: int| 0 <= i < s.len() && (#[trigger] s[i]).0 == id
}

/// Index of the entry for `id`; unique when identifiers are distinct.
pub open spec fn id_index(s: Seq<(Seq<char>, CellV)>, id: Seq<char>) -> int {
    choose|i: int| 0 <= i < s.len() && (#[trigger] s[i]).0 == id
}

/// Game identifiers are pairwise distinct.
pub open spec fn distinct_ids(s: Seq<(Seq<char>, CellV)>) -> bool {
    forall|i: int, j: int| 0 <= i < j < s.len() ==> (#[trigger] s[i]).0 != (#[trigger] s[j]).0
}

/// How a lookup of `id` fails, if it does: `BadHandle` for an unknown
/// identifier, `StaleHandle` for a tombstoned one.
pub open spec fn game_op_err(s: Seq<(Seq<char>, CellV)>, id: Seq<char>) -> Option<ErrorType> {
    if !has_id(s, id) {
        Some(ErrorType::BadHandle)
    } else if s[id_index(s, id)].1 is Tombstone {
        Some(ErrorType::StaleHandle)
    } else {
        None
    }
}

/// The live game stored under `id` (meaningful when the lookup succeeds).
pub open spec fn cell_game(s: Seq<(Seq<char>, CellV)>, id: Seq<char>) -> GameV {
    s[id_index(s, id)].1->Present_0
}

/// Create or replace the entry for `id`.
pub open spec fn upsert(s: Seq<(Seq<char>, CellV)>, id: Seq<char>, c: CellV) -> Seq<
    (Seq<char>, CellV),
> {
    if has_id(s, id) {
        s.update(id_index(s, id), (id, c))
    } else {
        s.push((id, c))
    }
}

/// Identifier and derived view of every present game, in map order;
/// tombstones are skipped.
pub open spec fn present_reprs(s: Seq<(Seq<char>, CellV)>) -> Seq<(Seq<char>, ReprV)>
    decreases s.len(),
{
    if s.len() == 0 {
        Seq::empty()
    } else {
        let rest = present_reprs(s.drop_last());
        match s.last().1 {
            CellV::Present(g) => rest.push((s.last().0, spec_repr(g))),
            CellV::Tombstone => rest,
        }
    }
}

/// The number of present games.
pub open spec fn present_count(s: Seq<(Seq<char>, CellV)>) -> int
    decreases s.len(),
{
    if s.len() == 0 {
        0int
    } else {
        present_count(s.drop_last()) + if s.last().1 is Present {
            1int
        } else {
            0int
        }
    }
}

/// Law: a whole-state response carries one entry per present game.
pub proof fn lemma_present_reprs_len(s: Seq<(Seq<char>, CellV)>)
    ensures
        present_reprs(s).len() == present_count(s),
    decreases s.len(),
{
    if s.len() > 0 {
        lemma_present_reprs_len(s.drop_last());
    }
}

/// Under distinct identifiers, an index holding `id` is the id index.
pub proof fn lemma_id_index_of(s: Seq<(Seq<char>, CellV)>, id: Seq<char>, i: int)
    requires
        distinct_ids(s),
        0 <= i < s.len(),
        s[i].0 == id,
    ensures
        has_id(s, id),
        id_index(s, id) == i,
{
    assert(has_id(s, id));
    let j = id_index(s, id);
    if i < j {
        assert(s[i].0 != s[j].0);
    } else if j < i {
        assert(s[j].0 != s[i].0);
    }
}

/// Law: a fresh state holds no entry, so every identifier misses and every
/// game operation on it reports a bad handle.
pub proof fn lemma_fresh_state_unknown(s: Seq<(Seq<char>, CellV)>, id: Seq<char>)
    requires
        s.len() == 0,
    ensures
        !has_id(s, id),
        game_op_err(s, id) == Some(ErrorType::BadHandle),
{
}

/// Law: closing a game leaves its identifier addressable as a tombstone, so
/// every later game operation on it reports a stale handle.
pub proof fn lemma_close_then_stale(s: Seq<(Seq<char>, CellV)>, id: Seq<char>)
    requires
        distinct_ids(s),
        has_id(s, id),
    ensures
        game_op_err(s.update(id_index(s, id), (id, CellV::Tombstone)), id) == Some(
            ErrorType::StaleHandle,
        ),
{
    let i = id_index(s, id);
    let s2 = s.update(i, (id, CellV::Tombstone));
    assert(s2[i].0 == id);
    assert forall|a: int, b: int| 0 <= a < b < s2.len() implies (#[trigger] s2[a]).0 != (
    #[trigger] s2[b]).0 by {
        assert(s2[a].0 == s[a].0);
        assert(s2[b].0 == s[b].0);
    }
    lemma_id_index_of(s2, id, i);
}

/// Owns every game, keyed by identifier. Single-game operations mutate one
/// game and answer with its view; whole-state operations mutate the map and
/// answer with the views of all present games.
pub struct StateHandle {
    games: Vec<(String, GameCell)>,
}

/// Model of a raw entry vector: identifier views paired with cell models.
pub open spec fn state_view(gs: Seq<(String, GameCell)>) -> Seq<(Seq<char>, CellV)> {
    Seq::new(gs.len(), |i: int| (gs[i].0@, gs[i].1@))
}

impl View for StateHandle {
    type V = Seq<(Seq<char>, CellV)>;

    closed spec fn view(&self) -> Seq<(Seq<char>, CellV)> {
        state_view(self.games@)
    }
}

impl StateHandle {
    #[verifier::type_invariant]
    spec fn wf(self) -> bool {
        distinct_ids(self@)
    }

    /// A state holding no games.
    pub fn new() -> (r: StateHandle)
        ensures
            r@ == Seq::<(Seq<char>, CellV)>::empty(),
    {
        let r = StateHandle { games: Vec::new() };
        proof {
            assert(r@ =~= Seq::<(Seq<char>, CellV)>::empty());
        }
        r
    }

    /// Index of the entry for `id`, if any.
    fn find_index(&self, id: &String) -> (r: Option<usize>)
        ensures
            r matches Some(i) ==> ((i as int) < self@.len() && self@[i as int].0 == id@),
            r is None ==> !has_id(self@, id@),
    {
        let n = self.games.len();
        let mut j: usize = 0;
        while j < n
            invariant
                n == self.games@.len(),
                j <= n,
                forall|k: int| 0 <= k < j ==> (#[trigger] self@[k]).0 != id@,
            decreases n - j,
        {
            proof {
                assert(self@[j as int] == (self.games@[j as int].0@, self.games@[j as int].1@));
            }
            if self.games[j].0 == *id {
                return Some(j);
            }
            j = j + 1;
        }
        None
    }

    /// Run `play` on the game registered under `id` and answer with that
    /// game's view. An unknown identifier reports `BadHandle`, a closed one
    /// `StaleHandle`; a game-level failure propagates and the state is
    /// unchanged.
    pub fn play(&mut self, id: &String, from: String, to: String) -> (r: Result<Response, Error>)
        ensures
            game_op_err(old(self)@, id@) matches Some(k) ==> (r matches Err(e) && e.error_type == k
                && (e.id matches Some(s) && s@ == id@) && final(self)@ == old(self)@),
            game_op_err(old(self)@, id@) is None ==> (match play_outcome(
                cell_game(old(self)@, id@),
                from@,
                to@,
            ) {
                Ok(g2) => r matches Ok(resp) && final(self)@ == old(self)@.update(
                    id_index(old(self)@, id@),
                    (id@, CellV::Present(g2)),
                ) && single_game_resp(resp, id@, spec_repr(g2)),
                Err(k) => r matches Err(e) && e.error_type == k && e.id is None && final(self)@
                    == old(self)@,
            }),
    {
        proof {
            use_type_invariant(&*self);
        }
        let ghost s0 = self@;
        let idx = match self.find_index(id) {
            Some(i) => i,
            None => {
                return Err(Error::new(ErrorType::BadHandle).with_id(id));
            },
        };
        proof {
            lemma_id_index_of(s0, id@, idx as int);
        }
        let mut games: Vec<(String, GameCell)> = Vec::new();
        core::mem::swap(&mut self.games, &mut games);
        proof {
            assert(self@ =~= Seq::<(Seq<char>, CellV)>::empty());
            assert(s0[idx as int] == (games@[idx as int].0@, games@[idx as int].1@));
        }
        let (gid, cell) = games.remove(idx);
        match cell {
            GameCell::Tombstone => {
                games.insert(idx, (gid, GameCell::Tombstone));
                let ghost s1 = state_view(games@);
                proof {
                    assert(s1 =~= s0);
                }
                core::mem::swap(&mut self.games, &mut games);
                proof {
                    assert(self@ == s1);
                }
                Err(Error::new(ErrorType::StaleHandle).with_id(id))
            },
            GameCell::Present(mut g) => {
                proof {
                    assert(s0[idx as int].1 == CellV::Present(g@));
                }
                match g.play(&from, &to) {
                    Ok(()) => {
                        let repr = g.get_repr();
                        let ghost gv = g@;
                        games.insert(idx, (gid, GameCell::Present(g)));
                        let ghost s1 = state_view(games@);
                        proof {
                            assert(s1 =~= s0.update(idx as int, (id@, CellV::Present(gv))));
                            assert forall|a: int, b: int|
                                0 <= a < b < s1.len() implies (#[trigger] s1[a]).0 != (
                            #[trigger] s1[b]).0 by {
                                assert(s1[a].0 == s0[a].0);
                                assert(s1[b].0 == s0[b].0);
                            }
                        }
                        core::mem::swap(&mut self.games, &mut games);
                        proof {
                            assert(self@ == s1);
                        }
                        Ok(response_from_game(id.clone(), repr))
                    },
                    Err(e) => {
                        games.insert(idx, (gid, GameCell::Present(g)));
                        let ghost s1 = state_view(games@);
                        proof {
                            assert(s1 =~= s0);
                        }
                        core::mem::swap(&mut self.games, &mut games);
                        proof {
                            assert(self@ == s1);
                        }
                        Err(e)
                    },
                }
            },
        }
    }

    /// Run `navigate_back` on the game registered under `id` and answer
    /// with that game's view. Never fails on a live game.
    pub fn navigate_back(&mut self, id: &String, back: u16) -> (r: Result<Response, Error>)
        ensures
            game_op_err(old(self)@, id@) matches Some(k) ==> (r matches Err(e) && e.error_type == k
                && (e.id matches Some(s) && s@ == id@) && final(self)@ == old(self)@),
            game_op_err(old(self)@, id@) is None ==> {
                let g2 = navigate_outcome(cell_game(old(self)@, id@), back as int);
                r matches Ok(resp) && final(self)@ == old(self)@.update(
                    id_index(old(self)@, id@),
                    (id@, CellV::Present(g2)),
                ) && single_game_resp(resp, id@, spec_repr(g2))
            },
    {
        proof {
            use_type_invariant(&*self);
        }
        let ghost s0 = self@;
        let idx = match self.find_index(id) {
            Some(i) => i,
            None => {
                return Err(Error::new(ErrorType::BadHandle).with_id(id));
            },
        };
        proof {
            lemma_id_index_of(s0, id@, idx as int);
        }
        let mut games: Vec<(String, GameCell)> = Vec::new();
        core::mem::swap(&mut self.games, &mut games);
        proof {
            assert(self@ =~= Seq::<(Seq<char>, CellV)>::empty());
            assert(s0[idx as int] == (games@[idx as int].0@, games@[idx as int].1@));
        }
        let (gid, cell) = games.remove(idx);
        match cell {
            GameCell::Tombstone => {
                games.insert(idx, (gid, GameCell::Tombstone));
                let ghost s1 = state_view(games@);
                proof {
                    assert(s1 =~= s0);
                }
                core::mem::swap(&mut self.games, &mut games);
                proof {
                    assert(self@ == s1);
                }
                Err(Error::new(ErrorType::StaleHandle).with_id(id))
            },
            GameCell::Present(mut g) => {
                proof {
                    assert(s0[idx as int].1 == CellV::Present(g@));
                }
                g.navigate_back(back);
                let repr = g.get_repr();
                let ghost gv = g@;
                games.insert(idx, (gid, GameCell::Present(g)));
                let ghost s1 = state_view(games@);
                proof {
                    assert(s1 =~= s0.update(idx as int, (id@, CellV::Present(gv))));
                    assert forall|a: int, b: int|
                        0 <= a < b < s1.len() implies (#[trigger] s1[a]).0 != (
                    #[trigger] s1[b]).0 by {
                        assert(s1[a].0 == s0[a].0);
                        assert(s1[b].0 == s0[b].0);
                    }
                }
                core::mem::swap(&mut self.games, &mut games);
                proof {
                    assert(self@ == s1);
                }
                Ok(response_from_game(id.clone(), repr))
            },
        }
    }

    /// Answer with the views of all present games, in map order.
    pub fn get_all_games(&self) -> (r: Result<Response, Error>)
        ensures
            r matches Ok(resp) && all_games_resp(resp, present_reprs(self@)),
    {
        let mut changed: Vec<ChangedGame> = Vec::new();
        proof {
            assert(self@.take(0) =~= Seq::<(Seq<char>, CellV)>::empty());
            assert(changed.deep_view() =~= Seq::<(Seq<char>, ReprV)>::empty());
        }
        let n = self.games.len();
        let mut i: usize = 0;
        while i < n
            invariant
                n == self.games@.len(),
                i <= n,
                changed.deep_view() == present_reprs(self@.take(i as int)),
            decreases n - i,
        {
            proof {
                assert(self@[i as int] == (self.games@[i as int].0@, self.games@[i as int].1@));
                assert(self@.take(i + 1).drop_last() =~= self@.take(i as int));
                assert(self@.take(i + 1).last() == self@[i as int]);
            }
            let ghost c0 = changed.deep_view();
            match &self.games[i].1 {
                GameCell::Present(g) => {
                    let repr = g.get_repr();
                    let cid = self.games[i].0.clone();
                    changed.push(ChangedGame { id: cid, game: repr });
                    proof {
                        assert(changed.deep_view() =~= c0.push((self@[i as int].0, spec_repr(
                            self@[i as int].1->Present_0,
                        ))));
                    }
                },
                GameCell::Tombstone => {},
            }
            i = i + 1;
        }
        proof {
            assert(self@.take(n as int) =~= self@);
        }
        Ok(response_from_games(changed))
    }

    /// Create a game on the standard starting position under `id`, creating
    /// or replacing the entry, and answer with all present games.
    pub fn new_game_default(&mut self, id: &String) -> (r: Result<Response, Error>)
        ensures
            final(self)@ == upsert(old(self)@, id@, CellV::Present(fresh_game(start_fen()))),
            r matches Ok(resp) && all_games_resp(resp, present_reprs(final(self)@)),
    {
        proof {
            use_type_invariant(&*self);
        }
        let ghost s0 = self@;
        let idx_opt = self.find_index(id);
        let g = Game::new();
        let mut games: Vec<(String, GameCell)> = Vec::new();
        core::mem::swap(&mut self.games, &mut games);
        proof {
            assert(self@ =~= Seq::<(Seq<char>, CellV)>::empty());
        }
        match idx_opt {
            Some(i) => {
                proof {
                    lemma_id_index_of(s0, id@, i as int);
                }
                let _old_cell = games.remove(i);
                games.insert(i, (id.clone(), GameCell::Present(g)));
            },
            None => {
                games.push((id.clone(), GameCell::Present(g)));
            },
        }
        let ghost s1 = state_view(games@);
        proof {
            assert(s1 =~= upsert(s0, id@, CellV::Present(fresh_game(start_fen()))));
            assert forall|a: int, b: int| 0 <= a < b < s1.len() implies (#[trigger] s1[a]).0
                != (#[trigger] s1[b]).0 by {
                if b < s0.len() {
                    assert(s1[a].0 == s0[a].0);
                    assert(s1[b].0 == s0[b].0);
                } else {
                    assert(s1[a].0 == s0[a].0);
                    assert(s1[b].0 == id@);
                }
            }
        }
        core::mem::swap(&mut self.games, &mut games);
        proof {
            assert(self@ == s1);
        }
        match self.get_all_games() {
            Ok(resp) => Ok(resp),
            Err(_) => unreached(),
        }
    }

    /// Create a game under `id` on a position parsed from `fen`, creating
    /// or replacing the entry, and answer with all present games. A FEN
    /// that does not parse reports `Parse`; one denoting an illegal
    /// position reports `ChessRules`; the state is then unchanged.
    pub fn new_game_fen(&mut self, id: &String, fen: String) -> (r: Result<Response, Error>)
        ensures
            fen_parse(fen@) matches Ok(f) ==> (final(self)@ == upsert(
                old(self)@,
                id@,
                CellV::Present(fresh_game(f)),
            ) && (r matches Ok(resp) && all_games_resp(resp, present_reprs(final(self)@)))),
            fen_parse(fen@) is Err ==> (r matches Err(e) && final(self)@ == old(self)@ && e.id
                is None && e.error_type == (if fen_parse(fen@) == Err::<Seq<char>, bool>(true) {
                ErrorType::Parse
            } else {
                ErrorType::ChessRules
            })),
    {
        proof {
            use_type_invariant(&*self);
        }
        let ghost s0 = self@;
        let g = match Game::from_fen(fen) {
            Ok(g) => g,
            Err(e) => {
                return Err(e);
            },
        };
        let idx_opt = self.find_index(id);
        let mut games: Vec<(String, GameCell)> = Vec::new();
        core::mem::swap(&mut self.games, &mut games);
        proof {
            assert(self@ =~= Seq::<(Seq<char>, CellV)>::empty());
        }
        match idx_opt {
            Some(i) => {
                proof {
                    lemma_id_index_of(s0, id@, i as int);
                }
                let _old_cell = games.remove(i);
                games.insert(i, (id.clone(), GameCell::Present(g)));
            },
            None => {
                games.push((id.clone(), GameCell::Present(g)));
            },
        }
        let ghost s1 = state_view(games@);
        proof {
            assert(s1 =~= upsert(s0, id@, CellV::Present(fresh_game(fen_parse(fen@)->Ok_0))));
            assert forall|a: int, b: int| 0 <= a < b < s1.len() implies (#[trigger] s1[a]).0
                != (#[trigger] s1[b]).0 by {
                if b < s0.len() {
                    assert(s1[a].0 == s0[a].0);
                    assert(s1[b].0 == s0[b].0);
                } else {
                    assert(s1[a].0 == s0[a].0);
                    assert(s1[b].0 == id@);
                }
            }
        }
        core::mem::swap(&mut self.games, &mut games);
        proof {
            assert(self@ == s1);
        }
        match self.get_all_games() {
            Ok(resp) => Ok(resp),
            Err(_) => unreached(),
        }
    }

    /// Replace the entry of the live game under `id` with a tombstone and
    /// answer with the remaining present games. Closing twice reports
    /// `StaleHandle`; an unknown identifier reports `BadHandle`.
    pub fn close_game(&mut self, id: &String) -> (r: Result<Response, Error>)
        ensures
            game_op_err(old(self)@, id@) matches Some(k) ==> (r matches Err(e) && e.error_type == k
                && (e.id matches Some(s) && s@ == id@) && final(self)@ == old(self)@),
            game_op_err(old(self)@, id@) is None ==> (final(self)@ == old(self)@.update(
                id_index(old(self)@, id@),
                (id@, CellV::Tombstone),
            ) && (r matches Ok(resp) && all_games_resp(resp, present_reprs(final(self)@)))),
    {
        proof {
            use_type_invariant(&*self);
        }
        let ghost s0 = self@;
        let idx = match self.find_index(id) {
            Some(i) => i,
            None => {
                return Err(Error::new(ErrorType::BadHandle).with_id(id));
            },
        };
        proof {
            lemma_id_index_of(s0, id@, idx as int);
        }
        let mut games: Vec<(String, GameCell)> = Vec::new();
        core::mem::swap(&mut self.games, &mut games);
        proof {
            assert(self@ =~= Seq::<(Seq<char>, CellV)>::empty());
            assert(s0[idx as int] == (games@[idx as int].0@, games@[idx as int].1@));
        }
        let (gid, cell) = games.remove(idx);
        match cell {
            GameCell::Tombstone => {
                games.insert(idx, (gid, GameCell::Tombstone));
                let ghost s1 = state_view(games@);
                proof {
                    assert(s1 =~= s0);
                }
                core::mem::swap(&mut self.games, &mut games);
                proof {
                    assert(self@ == s1);
                }
                Err(Error::new(ErrorType::StaleHandle).with_id(id))
            },
            GameCell::Present(_g) => {
                games.insert(idx, (gid, GameCell::Tombstone));
                let ghost s1 = state_view(games@);
                proof {
                    assert(s1 =~= s0.update(idx as int, (id@, CellV::Tombstone)));
                    assert forall|a: int, b: int|
                        0 <= a < b < s1.len() implies (#[trigger] s1[a]).0 != (
                    #[trigger] s1[b]).0 by {
                        assert(s1[a].0 == s0[a].0);
                        assert(s1[b].0 == s0[b].0);
                    }
                }
                core::mem::swap(&mut self.games, &mut games);
                proof {
                    assert(self@ == s1);
                }
                match self.get_all_games() {
                    Ok(resp) => Ok(resp),
                    Err(_) => unreached(),
                }
            },
        }
    }
}

impl Default for StateHandle {
    /// A freshly-defaulted state holds no games.
    fn default() -> (r: StateHandle)
        ensures
            r@ == Seq::<(Seq<char>, CellV)>::empty(),
    {
        StateHandle::new()
    }
}

} // verus!
