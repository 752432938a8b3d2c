//! Adapter over the `shakmaty` chess-rules library.
//!
//! A position is carried through this crate as its canonical FEN text: the
//! string that `shakmaty::fen::fen` renders for it. The adapter exposes the
//! rules engine through trusted wrappers from plain strings to plain values;
//! what an outside call returns is given a name (an uninterpreted spec
//! function of the arguments), and the rest of the crate is verified against
//! those names.

use vstd::prelude::*;
use crate::errors::{Error, ErrorType};
use shakmaty::Position;

verus! {

/// Canonical FEN of the standard starting position.
pub open spec fn start_fen() -> Seq<char> {
    "rnbqkbnr/pppppppp/8/8/8/8/PPPPPPPP/RNBQKBNR w KQkq - 0 1"@
}

/// What parsing a FEN text and validating the position yields: the canonical
/// FEN of the denoted position, or on failure whether the text itself was
/// malformed (`Err(true)`) as opposed to denoting an illegal position
/// (`Err(false)`).
pub uninterp spec fn fen_parse(s: Seq<char>) -> Result<Seq<char>, bool>;

/// A FEN text is valid when it is the canonical FEN of a legal position.
pub open spec fn valid_fen(f: Seq<char>) -> bool {
    fen_parse(f) == Ok::<Seq<char>, bool>(f)
}

/// Canonical FEN after playing the SAN move `san` on the position `fen`,
/// or `None` when `san` does not read as SAN or has no unique legal
/// interpretation there.
pub uninterp spec fn san_apply(fen: Seq<char>, san: Seq<char>) -> Option<Seq<char>>;

/// SAN text of the move that the UCI pair `from ++ to` resolves to on the
/// position `fen`, or `None` when no legal move matches.
pub uninterp spec fn fromto_san(fen: Seq<char>, from: Seq<char>, to: Seq<char>) -> Option<
    Seq<char>,
>;

/// Source and target square text of the move that the SAN `san` resolves to
/// on the position `fen`; on failure, whether the text was malformed
/// (`Err(true)`) as opposed to naming no unique legal move (`Err(false)`).
pub uninterp spec fn san_fromto(fen: Seq<char>, san: Seq<char>) -> Result<
    (Seq<char>, Seq<char>),
    bool,
>;

/// Source and target square text of every legal move on the position `fen`,
/// in the order the rules library enumerates them.
pub uninterp spec fn legal_fromto(fen: Seq<char>) -> Seq<(Seq<char>, Seq<char>)>;

/// Whether the side to move on the position `fen` is in check.
pub uninterp spec fn fen_check(fen: Seq<char>) -> bool;

/// Whether the SAN move `san` is a capture on the position `fen`.
pub uninterp spec fn san_capture(fen: Seq<char>, san: Seq<char>) -> bool;

pub open spec fn is_file_char(c: char) -> bool {
    'a' <= c && c <= 'h'
}

pub open spec fn is_rank_char(c: char) -> bool {
    '1' <= c && c <= '8'
}

pub open spec fn is_square_text(a: char, b: char) -> bool {
    is_file_char(a) && is_rank_char(b)
}

pub open spec fn is_role_char(c: char) -> bool {
    c == 'p' || c == 'P' || c == 'n' || c == 'N' || c == 'b' || c == 'B' || c == 'r' || c == 'R'
        || c == 'q' || c == 'Q' || c == 'k' || c == 'K'
}

pub open spec fn is_ascii_char(c: char) -> bool {
    (c as u32) < 128
}

/// Exactly the texts that `shakmaty::uci::Uci::from_ascii` accepts: a
/// from/to square pair, optionally followed by a promotion role; a drop
/// (role, `@`, target square — a fifth character is then not inspected);
/// or the null move `0000`.
pub open spec fn is_uci_text(s: Seq<char>) -> bool {
    if s.len() == 4 {
        (s[0] == '0' && s[1] == '0' && s[2] == '0' && s[3] == '0') || (is_square_text(s[2], s[3])
            && (is_square_text(s[0], s[1]) || (s[1] == '@' && is_role_char(s[0]))))
    } else if s.len() == 5 {
        is_square_text(s[2], s[3]) && ((s[1] == '@' && is_role_char(s[0]) && is_ascii_char(s[4]))
            || (is_square_text(s[0], s[1]) && is_role_char(s[4])))
    } else {
        false
    }
}

fn rules_error(error_type: ErrorType, description: String) -> (r: Error)
    ensures
        r.error_type == error_type,
        r.id is None,
{
    Error { error_type, source: Some(description), id: None }
}

/// Relies on `shakmaty::fen::fen` and `shakmaty::Chess::default`: the FEN of
/// the default position is the standard starting FEN, which parses back to
/// itself.
#[verifier::external_body]
pub(crate) fn startpos_fen() -> (r: String)
    ensures
        r@ == start_fen(),
        valid_fen(r@),
{
    shakmaty::fen::fen(&shakmaty::Chess::default())
}

/// Relies on `shakmaty::fen::Fen::from_str` (malformed text) followed by
/// `Fen::position::<Chess>` (illegal position), and on `shakmaty::fen::fen`
/// rendering a canonical FEN that parses back to the same position.
#[verifier::external_body]
pub(crate) fn parse_fen(s: &str) -> (r: Result<String, Error>)
    ensures
        r is Ok <==> fen_parse(s@) is Ok,
        r matches Ok(f) ==> fen_parse(s@) matches Ok(g) && g == f@ && valid_fen(f@),
        r matches Err(e) ==> e.id is None && e.error_type == (if fen_parse(s@) == Err::<
            Seq<char>,
            bool,
        >(true) {
            ErrorType::Parse
        } else {
            ErrorType::ChessRules
        }),
{
    let setup: shakmaty::fen::Fen = s.parse().map_err(|e| rules_error(ErrorType::Parse, format!("{:?}", e)))?;
    let pos: shakmaty::Chess = setup.position().map_err(|e| rules_error(ErrorType::ChessRules, format!("{:?}", e)))?;
    Ok(shakmaty::fen::fen(&pos))
}

/// Relies on `shakmaty::san::SanPlus::from_str`, `San::to_move` and
/// `Position::play_unchecked`: the position after a legal SAN move is again
/// legal and its rendered FEN is canonical.
#[verifier::external_body]
pub(crate) fn apply_san(fen: &str, san: &str) -> (r: Option<String>)
    requires
        valid_fen(fen@),
    ensures
        r is Some <==> san_apply(fen@, san@) is Some,
        r matches Some(f) ==> san_apply(fen@, san@) == Some(f@) && valid_fen(f@),
{
    let setup: shakmaty::fen::Fen = fen.parse().ok()?;
    let mut pos: shakmaty::Chess = setup.position().ok()?;
    let sp: shakmaty::san::SanPlus = san.parse().ok()?;
    let m = sp.san.to_move(&pos).ok()?;
    pos.play_unchecked(&m);
    Some(shakmaty::fen::fen(&pos))
}

/// Relies on `shakmaty::uci::Uci::from_str` (whose accepted texts
/// `is_uci_text` restates), `Uci::to_move` and `SanPlus::from_move`: the SAN
/// rendered for a legal move resolves back to that move, so applying it to
/// the position succeeds.
#[verifier::external_body]
pub(crate) fn resolve_fromto(fen: &str, from: &str, to: &str) -> (r: Result<String, Error>)
    requires
        valid_fen(fen@),
    ensures
        r is Ok <==> (is_uci_text(from@ + to@) && fromto_san(fen@, from@, to@) is Some),
        r matches Ok(san) ==> fromto_san(fen@, from@, to@) == Some(san@) && (san_apply(fen@, san@)
            matches Some(f2) && valid_fen(f2)),
        r matches Err(e) ==> e.id is None && e.error_type == (if !is_uci_text(from@ + to@) {
            ErrorType::Parse
        } else {
            ErrorType::ChessRules
        }),
{
    let setup: shakmaty::fen::Fen = fen.parse().map_err(|e| rules_error(ErrorType::ChessRules, format!("{:?}", e)))?;
    let pos: shakmaty::Chess = setup.position().map_err(|e| rules_error(ErrorType::ChessRules, format!("{:?}", e)))?;
    let uci: shakmaty::uci::Uci = format!("{}{}", from, to).parse().map_err(|e| rules_error(ErrorType::Parse, format!("{:?}", e)))?;
    let m = uci.to_move(&pos).map_err(|e| rules_error(ErrorType::ChessRules, format!("{:?}", e)))?;
    Ok(shakmaty::san::SanPlus::from_move(pos, &m).to_string())
}

/// Relies on `shakmaty::san::SanPlus::from_str` (malformed text) and
/// `San::to_move` (no unique legal move); a legal move of standard chess
/// always has a source square.
#[verifier::external_body]
pub(crate) fn resolve_san(fen: &str, san: &str) -> (r: Result<(String, String), Error>)
    requires
        valid_fen(fen@),
    ensures
        r is Ok <==> san_fromto(fen@, san@) is Ok,
        r matches Ok(p) ==> san_fromto(fen@, san@) matches Ok(q) && q == (p.0@, p.1@),
        r matches Err(e) ==> e.id is None && e.error_type == (if san_fromto(fen@, san@) == Err::<
            (Seq<char>, Seq<char>),
            bool,
        >(true) {
            ErrorType::Parse
        } else {
            ErrorType::ChessRules
        }),
{
    let setup: shakmaty::fen::Fen = fen.parse().map_err(|e| rules_error(ErrorType::ChessRules, format!("{:?}", e)))?;
    let pos: shakmaty::Chess = setup.position().map_err(|e| rules_error(ErrorType::ChessRules, format!("{:?}", e)))?;
    let sp: shakmaty::san::SanPlus = san.parse().map_err(|e| rules_error(ErrorType::Parse, format!("{:?}", e)))?;
    let m = sp.san.to_move(&pos).map_err(|e| rules_error(ErrorType::ChessRules, format!("{:?}", e)))?;
    let from = m.from().ok_or_else(|| rules_error(ErrorType::ChessRules, String::new()))?;
    Ok((from.to_string(), m.to().to_string()))
}

/// Relies on `shakmaty::Position::legals` and `Move::from`/`Move::to`: legal
/// moves of standard chess are never drops, so each has a source square.
#[verifier::external_body]
pub(crate) fn legal_moves(fen: &str) -> (r: Vec<(String, String)>)
    requires
        valid_fen(fen@),
    ensures
        r.deep_view() == legal_fromto(fen@),
{
    let mut out = Vec::new();
    let setup: shakmaty::fen::Fen = match fen.parse() { Ok(f) => f, Err(_) => return out };
    let pos: shakmaty::Chess = match setup.position() { Ok(p) => p, Err(_) => return out };
    for m in pos.legals() {
        out.push((m.from().unwrap().to_string(), m.to().to_string()));
    }
    out
}

/// Relies on `shakmaty::Position::is_check`.
#[verifier::external_body]
pub(crate) fn check_fen(fen: &str) -> (r: bool)
    requires
        valid_fen(fen@),
    ensures
        r == fen_check(fen@),
{
    let setup: shakmaty::fen::Fen = match fen.parse() { Ok(f) => f, Err(_) => return false };
    match setup.position::<shakmaty::Chess>() { Ok(p) => p.is_check(), Err(_) => false }
}

/// Relies on `shakmaty::san::SanPlus::from_str`, `San::to_move` and
/// `Move::is_capture`; the requires make every step succeed.
#[verifier::external_body]
pub(crate) fn capture_san(fen: &str, san: &str) -> (r: bool)
    requires
        valid_fen(fen@),
        san_apply(fen@, san@) is Some,
    ensures
        r == san_capture(fen@, san@),
{
    let setup: shakmaty::fen::Fen = match fen.parse() { Ok(f) => f, Err(_) => return false };
    let pos: shakmaty::Chess = match setup.position() { Ok(p) => p, Err(_) => return false };
    let sp: shakmaty::san::SanPlus = match san.parse() { Ok(s) => s, Err(_) => return false };
    match sp.san.to_move(&pos) { Ok(m) => m.is_capture(), Err(_) => false }
}

} // verus!
