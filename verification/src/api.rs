//! Request and response types of the line-oriented protocol, and the
//! dispatcher that drives state operations from decoded requests.

use vstd::prelude::*;
use crate::errors::{spec_message, Error, ErrorRepr, ErrorType};
use crate::game::{fresh_game, navigate_outcome, play_outcome, spec_repr, GameRepr, ReprV};
use crate::rules::start_fen;
use crate::state::{cell_game, game_op_err, id_index, present_reprs, upsert, CellV, StateHandle};

verus! {

/// Arguments of a `play` request: a game identifier and the source and
/// target squares of the move.
pub struct PlayArgs {
    pub id: String,
    pub to: String,
    pub from: String,
}

/// Arguments of a `navigate_back` request.
pub struct NavigateBackArgs {
    pub id: String,
    pub back: u16,
}

/// Arguments of a `get_all_games` request.
pub struct GetAllGamesArgs {}

/// Arguments of a `new_game` request: the game starts on the standard
/// starting position.
pub struct NewGameArgs {
    pub id: String,
}

/// A decoded request, tagged by method.
pub enum Request {
    Play(PlayArgs),
    NavigateBack(NavigateBackArgs),
    GetAllGames(GetAllGamesArgs),
    NewGame(NewGameArgs),
}

/// One changed game in a response: its identifier and its derived view.
#[derive(Debug)]
pub struct ChangedGame {
    pub id: String,
    pub game: GameRepr,
}

impl View for ChangedGame {
    type V = (Seq<char>, ReprV);

    open spec fn view(&self) -> (Seq<char>, ReprV) {
        (self.id@, self.game@)
    }
}

impl DeepView for ChangedGame {
    type V = (Seq<char>, ReprV);

    open spec fn deep_view(&self) -> (Seq<char>, ReprV) {
        self@
    }
}

/// One wire response: either an error, or the derived views of the games
/// the operation changed (or listed).
#[derive(Debug)]
pub struct Response {
    pub error: Option<ErrorRepr>,
    pub changed_games: Vec<ChangedGame>,
}

/// A successful single-game response: no error, and exactly the one changed
/// game.
pub open spec fn single_game_resp(resp: Response, id: Seq<char>, g: ReprV) -> bool {
    &&& resp.error is None
    &&& resp.changed_games.deep_view() == seq![(id, g)]
}

/// A successful whole-state response: no error, one entry per present game.
pub open spec fn all_games_resp(resp: Response, games: Seq<(Seq<char>, ReprV)>) -> bool {
    &&& resp.error is None
    &&& resp.changed_games.deep_view() == games
}

/// An in-band error response: no changed games, and the error of kind `k`
/// with its fixed message, concerning the game `gid` when one is known.
pub open spec fn error_resp(resp: Response, k: ErrorType, gid: Option<Seq<char>>) -> bool {
    &&& resp.changed_games@.len() == 0
    &&& resp.error matches Some(er) && er.error_type == k && er.message@ == spec_message(k) && (
    match gid {
        Some(s) => er.game_id matches Some(t) && t@ == s,
        None => er.game_id is None,
    })
}

/// Wrap a recoverable error into an in-band error response.
pub fn response_from_error(error: Error) -> (r: Response)
    ensures
        error_resp(
            r,
            error.error_type,
            match error.id {
                Some(s) => Some(s@),
                None => None::<Seq<char>>,
            },
        ),
        r.error matches Some(er) && er.underlying_error == error.source,
{
    Response { error: Some(ErrorRepr::from_error(error)), changed_games: Vec::new() }
}

/// A response that carries exactly one changed game.
pub fn response_from_game(id: String, repr: GameRepr) -> (r: Response)
    ensures
        single_game_resp(r, id@, repr@),
{
    let ghost idv = id@;
    let ghost gv = repr@;
    let mut changed_games: Vec<ChangedGame> = Vec::new();
    changed_games.push(ChangedGame { id, game: repr });
    proof {
        assert(changed_games.deep_view() =~= seq![(idv, gv)]);
    }
    Response { error: None, changed_games }
}

/// A response that carries the given changed games.
pub fn response_from_games(games: Vec<ChangedGame>) -> (r: Response)
    ensures
        r.error is None,
        r.changed_games == games,
{
    Response { error: None, changed_games: games }
}

/// What dispatching one request does: how the state steps from `s0` to
/// `s1`, and what the response reports. Handle failures and game-level
/// failures are recoverable and answered in-band.
pub open spec fn dispatch_post(
    request: Request,
    s0: Seq<(Seq<char>, CellV)>,
    s1: Seq<(Seq<char>, CellV)>,
    resp: Response,
) -> bool {
    match request {
        Request::Play(a) => match game_op_err(s0, a.id@) {
            Some(k) => s1 == s0 && error_resp(resp, k, Some(a.id@)),
            None => match play_outcome(cell_game(s0, a.id@), a.from@, a.to@) {
                Ok(g2) => s1 == s0.update(id_index(s0, a.id@), (a.id@, CellV::Present(g2)))
                    && single_game_resp(resp, a.id@, spec_repr(g2)),
                Err(k) => s1 == s0 && error_resp(resp, k, None),
            },
        },
        Request::NavigateBack(a) => match game_op_err(s0, a.id@) {
            Some(k) => s1 == s0 && error_resp(resp, k, Some(a.id@)),
            None => {
                let g2 = navigate_outcome(cell_game(s0, a.id@), a.back as int);
                s1 == s0.update(id_index(s0, a.id@), (a.id@, CellV::Present(g2)))
                    && single_game_resp(resp, a.id@, spec_repr(g2))
            },
        },
        Request::GetAllGames(_) => s1 == s0 && all_games_resp(resp, present_reprs(s0)),
        Request::NewGame(a) => s1 == upsert(s0, a.id@, CellV::Present(fresh_game(start_fen())))
            && all_games_resp(resp, present_reprs(s1)),
    }
}

/// Dispatch a decoded request to the matching state operation. No operation
/// here can fail fatally, so the result is always a response: successes
/// carry the changed games, recoverable errors are reported in-band.
pub fn dispatch_request(request: Request, state: &mut StateHandle) -> (r: Result<Response, Error>)
    ensures
        r matches Ok(resp) && dispatch_post(request, old(state)@, final(state)@, resp),
{
    let result = match &request {
        Request::Play(a) => state.play(&a.id, a.from.clone(), a.to.clone()),
        Request::NavigateBack(a) => state.navigate_back(&a.id, a.back),
        Request::GetAllGames(_) => state.get_all_games(),
        Request::NewGame(a) => state.new_game_default(&a.id),
    };
    handle_fatal_error(result)
}

/// Convert a recoverable error into an in-band response and let a fatal one
/// (`PoisonedHandle`) pass through.
pub fn handle_fatal_error(result: Result<Response, Error>) -> (r: Result<Response, Error>)
    ensures
        result matches Ok(resp0) ==> (r matches Ok(resp) && resp == resp0),
        result matches Err(e) ==> (if e.error_type != ErrorType::PoisonedHandle {
            r matches Ok(resp) && error_resp(
                resp,
                e.error_type,
                match e.id {
                    Some(s) => Some(s@),
                    None => None::<Seq<char>>,
                },
            )
        } else {
            r matches Err(e2) && e2 == e
        }),
{
    match result {
        Ok(response) => Ok(response),
        Err(err) => {
            if err.is_recoverable() {
                Ok(response_from_error(err))
            } else {
                Err(err)
            }
        },
    }
}

} // verus!
