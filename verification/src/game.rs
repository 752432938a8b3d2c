//! A single chess game: an initial position, the tree of moves explored from
//! it, and the current line (the path from the root to the user's focus).

use vstd::prelude::*;
use crate::rules::{
    fen_parse, fromto_san, is_uci_text, legal_fromto, fen_check, san_apply, san_capture,
    san_fromto, start_fen, valid_fen,
};
use crate::rules;
use crate::errors::{Error, ErrorType};

verus! {

/// A node of the move tree. The root is a sentinel carrying no SAN; every
/// other node holds the SAN move reaching it from its parent's position.
/// `children[0]` is the main line; later entries are sidelines in the order
/// they were first played.
#[derive(Debug)]
pub struct Branch {
    pub san: Option<String>,
    pub children: Vec<Branch>,
    /// Engine evaluation in tenths of pawns. Opaque to the core; reserved.
    pub evaluation: Option<i16>,
}

/// Mathematical model of a `Branch`.
#[verifier::ext_equal]
pub struct TreeV {
    pub san: Option<Seq<char>>,
    pub children: Seq<TreeV>,
    pub evaluation: Option<i16>,
}

pub open spec fn branch_view(b: Branch) -> TreeV
    decreases b,
    via branch_view_decreases
{
    TreeV {
        san: match b.san {
            Some(s) => Some(s@),
            None => None,
        },
        children: Seq::new(
            b.children@.len(),
            |i: int|
                if 0 <= i < b.children@.len() {
                    branch_view(b.children@[i])
                } else {
                    arbitrary()
                },
        ),
        evaluation: b.evaluation,
    }
}

#[via_fn]
proof fn branch_view_decreases(b: Branch) {
    assert forall|i: int| 0 <= i < b.children@.len() implies decreases_to!(
        b => b.children@[i]) by {
        assert(decreases_to!(b => b.children));
        assert(decreases_to!(b.children => b.children@));
        assert(decreases_to!(b.children@ => b.children@[i]));
    }
}

impl View for Branch {
    type V = TreeV;

    open spec fn view(&self) -> TreeV {
        branch_view(*self)
    }
}

pub open spec fn new_leaf(san: Seq<char>) -> TreeV {
    TreeV { san: Some(san), children: Seq::empty(), evaluation: None }
}

/// Whether `t` has a child carrying the SAN `san`.
pub open spec fn has_child(t: TreeV, san: Seq<char>) -> bool {
    exists|i: int| 0 <= i < t.children.len() && (#[trigger] t.children[i]).san == Some(san)
}

/// Index of the child of `t` carrying `san`; unique when `tree_wf(t)`.
pub open spec fn child_index(t: TreeV, san: Seq<char>) -> int {
    choose|i: int| 0 <= i < t.children.len() && (#[trigger] t.children[i]).san == Some(san)
}

pub open spec fn child_at(t: TreeV, san: Seq<char>) -> TreeV {
    t.children[child_index(t, san)]
}

/// Every non-root node carries a SAN, and siblings carry pairwise distinct
/// SANs: the same move from the same position is never duplicated.
pub open spec fn tree_wf(t: TreeV) -> bool
    decreases t,
{
    &&& (forall|i: int| 0 <= i < t.children.len() ==> (#[trigger] t.children[i]).san is Some)
    &&& (forall|i: int, j: int|
        0 <= i < j < t.children.len() ==> (#[trigger] t.children[i]).san != (
        #[trigger] t.children[j]).san)
    &&& (forall|i: int| 0 <= i < t.children.len() ==> tree_wf(#[trigger] t.children[i]))
}

/// Following `path` from `t` by matching SANs succeeds at every step.
pub open spec fn tree_has_path(t: TreeV, path: Seq<Seq<char>>) -> bool
    decreases path.len(),
{
    path.len() == 0 || (has_child(t, path[0]) && tree_has_path(
        child_at(t, path[0]),
        path.drop_first(),
    ))
}

/// The node reached by following `path` from `t`.
pub open spec fn tree_at(t: TreeV, path: Seq<Seq<char>>) -> TreeV
    decreases path.len(),
{
    if path.len() == 0 {
        t
    } else {
        tree_at(child_at(t, path[0]), path.drop_first())
    }
}

/// The tree after recording the move `san` at the node reached by `path`:
/// an existing child with that SAN is reused, otherwise a fresh leaf is
/// appended; everything else is unchanged.
pub open spec fn tree_insert(t: TreeV, path: Seq<Seq<char>>, san: Seq<char>) -> TreeV
    decreases path.len(),
{
    if path.len() == 0 {
        if has_child(t, san) {
            t
        } else {
            TreeV { san: t.san, children: t.children.push(new_leaf(san)), evaluation: t.evaluation }
        }
    } else {
        TreeV {
            san: t.san,
            children: t.children.update(
                child_index(t, path[0]),
                tree_insert(child_at(t, path[0]), path.drop_first(), san),
            ),
            evaluation: t.evaluation,
        }
    }
}

/// Every SAN stored in the tree is legal in the position produced by
/// replaying its ancestors from `fen`.
pub open spec fn tree_legal(fen: Seq<char>, t: TreeV) -> bool
    decreases t,
{
    forall|i: int|
        0 <= i < t.children.len() ==> ((#[trigger] t.children[i]).san matches Some(s) && (san_apply(
            fen,
            s,
        ) matches Some(f2) && valid_fen(f2) && tree_legal(f2, t.children[i])))
}

/// The FEN reached by replaying `line` from `init`; `None` as soon as a move
/// fails to apply.
pub open spec fn line_fen(init: Seq<char>, line: Seq<Seq<char>>) -> Option<Seq<char>>
    decreases line.len(),
{
    if line.len() == 0 {
        Some(init)
    } else {
        match line_fen(init, line.drop_last()) {
            Some(f) => san_apply(f, line.last()),
            None => None,
        }
    }
}

/// Every move of `line` applies, and every intermediate FEN is valid.
pub open spec fn line_ok(init: Seq<char>, line: Seq<Seq<char>>) -> bool
    decreases line.len(),
{
    if line.len() == 0 {
        true
    } else {
        line_ok(init, line.drop_last()) && (line_fen(init, line.drop_last()) matches Some(f)
            && (san_apply(f, line.last()) matches Some(f2) && valid_fen(f2)))
    }
}

pub proof fn lemma_line_ok_fen(init: Seq<char>, line: Seq<Seq<char>>)
    requires
        line_ok(init, line),
    ensures
        line_fen(init, line) is Some,
        line.len() > 0 ==> valid_fen(line_fen(init, line)->Some_0),
    decreases line.len(),
{
    if line.len() > 0 {
        lemma_line_ok_fen(init, line.drop_last());
    }
}

/// A prefix of a line that replays is itself a line that replays.
pub proof fn lemma_line_ok_prefix(init: Seq<char>, line: Seq<Seq<char>>, k: int)
    requires
        line_ok(init, line),
        0 <= k <= line.len(),
    ensures
        line_ok(init, line.take(k)),
    decreases line.len(),
{
    if k == line.len() {
        assert(line.take(k) =~= line);
    } else {
        assert(line.drop_last().take(k) =~= line.take(k));
        lemma_line_ok_prefix(init, line.drop_last(), k);
    }
}

/// Under distinct sibling SANs, an index holding `san` is the child index.
pub proof fn lemma_child_index_of(t: TreeV, san: Seq<char>, i: int)
    requires
        tree_wf(t),
        0 <= i < t.children.len(),
        t.children[i].san == Some(san),
    ensures
        has_child(t, san),
        child_index(t, san) == i,
{
    assert(has_child(t, san));
    let j = child_index(t, san);
    if i < j {
        assert(t.children[i].san != t.children[j].san);
    } else if j < i {
        assert(t.children[j].san != t.children[i].san);
    }
}

impl Branch {
    /// A fresh sentinel root: no SAN, no children.
    pub fn new_root() -> (r: Branch)
        ensures
            r@ == (TreeV { san: None, children: Seq::empty(), evaluation: None }),
    {
        let r = Branch { san: None, children: Vec::new(), evaluation: None };
        proof {
            assert(r@.children =~= Seq::<TreeV>::empty());
            assert(r@ =~= (TreeV { san: None, children: Seq::empty(), evaluation: None }));
        }
        r
    }

    /// Index of the first child carrying `san`, if any.
    fn find_child(&self, san: &String) -> (r: Option<usize>)
        ensures
            r matches Some(i) ==> (i < self.children.len() && self@.children[i as int].san
                == Some(san@)),
            r is None ==> !has_child(self@, san@),
    {
        let n = self.children.len();
        let mut j: usize = 0;
        while j < n
            invariant
                n == self.children.len(),
                j <= n,
                forall|k: int| 0 <= k < j ==> (#[trigger] self@.children[k]).san != Some(san@),
            decreases n - j,
        {
            proof {
                assert(self@.children[j as int] == branch_view(self.children@[j as int]));
            }
            match &self.children[j].san {
                Some(s) => {
                    if *s == *san {
                        return Some(j);
                    }
                },
                None => {},
            }
            j = j + 1;
        }
        None
    }
}

/// Record `san` at the node reached by following `path[idx..]` from `b`:
/// reuse an existing child with that SAN or append a fresh leaf.
fn branch_insert(b: &mut Branch, path: &Vec<String>, idx: usize, san: &String)
    requires
        idx <= path.len(),
        tree_wf(old(b)@),
        tree_has_path(old(b)@, path.deep_view().skip(idx as int)),
    ensures
        final(b)@ == tree_insert(old(b)@, path.deep_view().skip(idx as int), san@),
    decreases path.len() - idx,
{
    let ghost rest = path.deep_view().skip(idx as int);
    if idx == path.len() {
        proof {
            assert(rest =~= Seq::<Seq<char>>::empty());
        }
        match b.find_child(san) {
            Some(i) => {
                proof {
                    lemma_child_index_of(b@, san@, i as int);
                }
            },
            None => {
                let ghost t = b@;
                let leaf = Branch { san: Some(san.clone()), children: Vec::new(), evaluation: None };
                proof {
                    assert(leaf@.children =~= Seq::<TreeV>::empty());
                    assert(leaf@ =~= new_leaf(san@));
                }
                b.children.push(leaf);
                proof {
                    assert forall|k: int| 0 <= k < t.children.len() implies b@.children[k]
                        == t.children[k] by {
                        assert(b.children@[k] == old(b).children@[k]);
                    }
                    assert(b@.children =~= t.children.push(new_leaf(san@)));
                    assert(b@ =~= tree_insert(t, rest, san@));
                }
            },
        }
    } else {
        let ghost t = b@;
        proof {
            assert(rest[0] == path.deep_view()[idx as int]);
            assert(path.deep_view()[idx as int] == path@[idx as int]@);
        }
        match b.find_child(&path[idx]) {
            None => {
                proof {
                    assert(has_child(t, rest[0]));
                }
                unreached()
            },
            Some(i) => {
                proof {
                    lemma_child_index_of(t, rest[0], i as int);
                }
                let mut child = b.children.remove(i);
                proof {
                    assert(child == old(b).children@[i as int]);
                    assert(child@ == t.children[i as int]);
                    assert(rest.drop_first() =~= path.deep_view().skip(idx as int + 1));
                    assert(child_at(t, rest[0]) == t.children[i as int]);
                }
                branch_insert(&mut child, path, idx + 1, san);
                b.children.insert(i, child);
                proof {
                    assert(b.children@ =~= old(b).children@.update(i as int, child));
                    assert forall|k: int|
                        0 <= k < t.children.len() && k != i implies b@.children[k]
                        == t.children[k] by {
                        assert(b.children@[k] == old(b).children@[k]);
                    }
                    assert(b@.children[i as int] == child@);
                    assert(b@.children =~= t.children.update(
                        child_index(t, rest[0]),
                        tree_insert(child_at(t, rest[0]), rest.drop_first(), san@),
                    ));
                    assert(b@ =~= tree_insert(t, rest, san@));
                }
            },
        }
    }
}

/// Recording a move never changes the SAN of the node it starts from.
pub proof fn lemma_insert_same_san(t: TreeV, path: Seq<Seq<char>>, san: Seq<char>)
    ensures
        tree_insert(t, path, san).san == t.san,
{
    if path.len() == 0 {
        if has_child(t, san) {
        } else {
        }
    } else {
    }
}

/// Recording a move preserves well-formedness of the tree.
pub proof fn lemma_insert_wf(t: TreeV, path: Seq<Seq<char>>, san: Seq<char>)
    requires
        tree_wf(t),
        tree_has_path(t, path),
    ensures
        tree_wf(tree_insert(t, path, san)),
    decreases path.len(),
{
    let t2 = tree_insert(t, path, san);
    if path.len() == 0 {
        if !has_child(t, san) {
            assert(tree_wf(new_leaf(san)));
            assert forall|i: int, j: int| 0 <= i < j < t2.children.len() implies (
            #[trigger] t2.children[i]).san != (#[trigger] t2.children[j]).san by {
                if j == t.children.len() {
                    assert(t2.children[i] == t.children[i]);
                    assert(t2.children[j] == new_leaf(san));
                }
            }
        }
    } else {
        let i = child_index(t, path[0]);
        let c = child_at(t, path[0]);
        lemma_insert_wf(c, path.drop_first(), san);
        lemma_insert_same_san(c, path.drop_first(), san);
        assert forall|k: int, j: int| 0 <= k < j < t2.children.len() implies (
        #[trigger] t2.children[k]).san != (#[trigger] t2.children[j]).san by {
            assert(t2.children[k].san == t.children[k].san);
            assert(t2.children[j].san == t.children[j].san);
        }
    }
}

/// After recording `san` at the node reached by `path`, the tree has the
/// extended path `path.push(san)`.
pub proof fn lemma_insert_path(t: TreeV, path: Seq<Seq<char>>, san: Seq<char>)
    requires
        tree_wf(t),
        tree_has_path(t, path),
    ensures
        tree_has_path(tree_insert(t, path, san), path.push(san)),
    decreases path.len(),
{
    let t2 = tree_insert(t, path, san);
    lemma_insert_wf(t, path, san);
    if path.len() == 0 {
        if has_child(t, san) {
            assert(has_child(t2, san));
        } else {
            let n = t.children.len();
            assert(t2.children[n as int] == new_leaf(san));
            assert(has_child(t2, san));
        }
        assert(path.push(san)[0] == san);
        assert(path.push(san).drop_first() =~= Seq::<Seq<char>>::empty());
        assert(tree_has_path(child_at(t2, san), Seq::<Seq<char>>::empty()));
    } else {
        assert(has_child(t, path[0]));
        let i = child_index(t, path[0]);
        let c = child_at(t, path[0]);
        assert(0 <= i < t.children.len() && t.children[i].san == Some(path[0]));
        lemma_insert_same_san(c, path.drop_first(), san);
        let rec = tree_insert(c, path.drop_first(), san);
        assert(t2.children[i] == rec);
        assert(rec.san == Some(path[0]));
        lemma_child_index_of(t2, path[0], i);
        lemma_insert_path(c, path.drop_first(), san);
        assert(path.push(san)[0] == path[0]);
        assert(path.push(san).drop_first() =~= path.drop_first().push(san));
        assert(child_at(t2, path[0]) == rec);
        assert(tree_has_path(child_at(t2, path[0]), path.push(san).drop_first()));
    }
}

/// A tree also has every prefix of a path it has.
pub proof fn lemma_path_take(t: TreeV, path: Seq<Seq<char>>, k: int)
    requires
        tree_has_path(t, path),
        0 <= k <= path.len(),
    ensures
        tree_has_path(t, path.take(k)),
    decreases path.len(),
{
    if k == 0 {
        assert(path.take(k) =~= Seq::<Seq<char>>::empty());
    } else {
        assert(path.take(k)[0] == path[0]);
        assert(path.take(k).drop_first() =~= path.drop_first().take(k - 1));
        lemma_path_take(child_at(t, path[0]), path.drop_first(), k - 1);
    }
}

/// Replaying a line one move at a time from the front.
pub proof fn lemma_line_fen_front(init: Seq<char>, line: Seq<Seq<char>>)
    requires
        line.len() > 0,
    ensures
        line_fen(init, line) == (match san_apply(init, line[0]) {
            Some(f) => line_fen(f, line.drop_first()),
            None => None::<Seq<char>>,
        }),
    decreases line.len(),
{
    if line.len() == 1 {
        assert(line.drop_last() =~= Seq::<Seq<char>>::empty());
        assert(line.drop_first() =~= Seq::<Seq<char>>::empty());
    } else {
        lemma_line_fen_front(init, line.drop_last());
        assert(line.drop_last()[0] == line[0]);
        assert(line.drop_last().drop_first() =~= line.drop_first().drop_last());
        assert(line.drop_first().last() == line.last());
    }
}

/// Recording a legal move keeps every SAN in the tree legal.
pub proof fn lemma_insert_legal(fen: Seq<char>, t: TreeV, path: Seq<Seq<char>>, san: Seq<char>)
    requires
        tree_wf(t),
        tree_legal(fen, t),
        tree_has_path(t, path),
        line_fen(fen, path) matches Some(pf) && (san_apply(pf, san) matches Some(f2) && valid_fen(
            f2,
        )),
    ensures
        tree_legal(fen, tree_insert(t, path, san)),
    decreases path.len(),
{
    let t2 = tree_insert(t, path, san);
    if path.len() == 0 {
        if !has_child(t, san) {
            let n = t.children.len();
            assert(t2.children[n as int] == new_leaf(san));
            assert forall|i: int|
                0 <= i < t2.children.len() implies ((#[trigger] t2.children[i]).san matches Some(s)
                && (san_apply(fen, s) matches Some(f2) && valid_fen(f2) && tree_legal(
                f2,
                t2.children[i],
            ))) by {
                if i < n {
                    assert(t2.children[i] == t.children[i]);
                } else {
                    assert(tree_legal(san_apply(fen, san)->Some_0, new_leaf(san)));
                }
            }
        }
    } else {
        let i = child_index(t, path[0]);
        let c = child_at(t, path[0]);
        assert(c.san == Some(path[0]));
        let fc = san_apply(fen, path[0])->Some_0;
        lemma_line_fen_front(fen, path);
        lemma_insert_legal(fc, c, path.drop_first(), san);
        lemma_insert_same_san(c, path.drop_first(), san);
        let rec = tree_insert(c, path.drop_first(), san);
        assert forall|k: int|
            0 <= k < t2.children.len() implies ((#[trigger] t2.children[k]).san matches Some(s) && (
        san_apply(fen, s) matches Some(f2) && valid_fen(f2) && tree_legal(
            f2,
            t2.children[k],
        ))) by {
            if k != i {
                assert(t2.children[k] == t.children[k]);
            } else {
                assert(t2.children[k] == rec);
            }
        }
    }
}

/// Replaying one more move of the line steps the prefix FEN by `san_apply`.
pub proof fn lemma_line_fen_step(init: Seq<char>, line: Seq<Seq<char>>, k: int)
    requires
        0 <= k < line.len(),
    ensures
        line_fen(init, line.take(k + 1)) == (match line_fen(init, line.take(k)) {
            Some(f) => san_apply(f, line[k]),
            None => None::<Seq<char>>,
        }),
{
    assert(line.take(k + 1).drop_last() =~= line.take(k));
    assert(line.take(k + 1).last() == line[k]);
}

/// Mathematical model of a `GameRepr`.
#[verifier::ext_equal]
pub struct ReprV {
    pub available_moves: Seq<(Seq<char>, Seq<Seq<char>>)>,
    pub fen: Seq<char>,
    pub is_takes: bool,
    pub is_check: bool,
}

/// Pure, serializable snapshot of a game, sufficient for a GUI to render
/// the current position and its legal moves.
#[derive(Debug)]
pub struct GameRepr {
    /// Legal moves grouped by source square, in order of first appearance;
    /// each entry lists the target squares in enumeration order.
    pub available_moves: Vec<(String, Vec<String>)>,
    /// FEN of the current position.
    pub fen: String,
    /// Whether the last move of the current line was a capture.
    pub is_takes: bool,
    /// Whether the side to move is in check.
    pub is_check: bool,
}

impl View for GameRepr {
    type V = ReprV;

    open spec fn view(&self) -> ReprV {
        ReprV {
            available_moves: self.available_moves.deep_view(),
            fen: self.fen@,
            is_takes: self.is_takes,
            is_check: self.is_check,
        }
    }
}

/// The keys of a grouped move table are pairwise distinct.
pub open spec fn distinct_keys(s: Seq<(Seq<char>, Seq<Seq<char>>)>) -> bool {
    forall|i: int, j: int| 0 <= i < j < s.len() ==> (#[trigger] s[i]).0 != (#[trigger] s[j]).0
}

/// One step of grouping: append `to` to the entry of `from`, or start a new
/// entry at the end.
pub open spec fn group_insert(
    acc: Seq<(Seq<char>, Seq<Seq<char>>)>,
    from: Seq<char>,
    to: Seq<char>,
) -> Seq<(Seq<char>, Seq<Seq<char>>)> {
    if exists|i: int| 0 <= i < acc.len() && (#[trigger] acc[i]).0 == from {
        let i = choose|i: int| 0 <= i < acc.len() && (#[trigger] acc[i]).0 == from;
        acc.update(i, (from, acc[i].1.push(to)))
    } else {
        acc.push((from, seq![to]))
    }
}

/// Group a move list by source square, preserving order of appearance.
pub open spec fn group_moves(ms: Seq<(Seq<char>, Seq<char>)>) -> Seq<
    (Seq<char>, Seq<Seq<char>>),
>
    decreases ms.len(),
{
    if ms.len() == 0 {
        Seq::empty()
    } else {
        group_insert(group_moves(ms.drop_last()), ms.last().0, ms.last().1)
    }
}

/// What `get_repr` computes, as a function of the game model alone.
pub open spec fn spec_repr(g: GameV) -> ReprV {
    ReprV {
        available_moves: group_moves(legal_fromto(cur_fen(g))),
        fen: cur_fen(g),
        is_takes: if g.line.len() == 0 {
            false
        } else {
            san_capture(line_fen(g.init, g.line.drop_last())->Some_0, g.line.last())
        },
        is_check: fen_check(cur_fen(g)),
    }
}

/// Append the pair `(from, to)` to the grouped table `map`: the target
/// square joins the entry of its source square, or starts a new entry.
pub fn insert_from_to(from: String, to: String, map: &mut Vec<(String, Vec<String>)>)
    requires
        distinct_keys(old(map).deep_view()),
    ensures
        final(map).deep_view() == group_insert(old(map).deep_view(), from@, to@),
        distinct_keys(final(map).deep_view()),
{
    let ghost m0 = map.deep_view();
    let n = map.len();
    let mut j: usize = 0;
    while j < n
        invariant
            n == map.len(),
            j <= n,
            *map == *old(map),
            distinct_keys(m0),
            forall|k: int| 0 <= k < j ==> (#[trigger] m0[k]).0 != from@,
            m0 == map.deep_view(),
        decreases n - j,
    {
        if map[j].0 == from {
            proof {
                assert(m0[j as int].0 == from@);
                assert(exists|i: int| 0 <= i < m0.len() && (#[trigger] m0[i]).0 == from@);
                let i = choose|i: int| 0 <= i < m0.len() && (#[trigger] m0[i]).0 == from@;
                if i < j {
                    assert(m0[i].0 != m0[j as int].0);
                } else if j < i {
                    assert(m0[j as int].0 != m0[i].0);
                }
                assert(i == j);
            }
            let mut pair = map.remove(j);
            pair.1.push(to);
            map.insert(j, pair);
            proof {
                assert(map.deep_view() =~~= m0.update(j as int, (from@, m0[j as int].1.push(to@))));
                assert(map.deep_view() =~~= group_insert(m0, from@, to@));
                let m2 = map.deep_view();
                assert forall|a: int, b: int| 0 <= a < b < m2.len() implies (#[trigger] m2[a]).0
                    != (#[trigger] m2[b]).0 by {
                    assert(m2[a].0 == m0[a].0);
                    assert(m2[b].0 == m0[b].0);
                }
            }
            return ;
        }
        j = j + 1;
    }
    map.push((from, make_singleton(to)));
    proof {
        assert(!(exists|i: int| 0 <= i < m0.len() && (#[trigger] m0[i]).0 == from@));
        assert(map.deep_view() =~~= m0.push((from@, seq![to@])));
        assert(map.deep_view() =~~= group_insert(m0, from@, to@));
    }
}

fn make_singleton(to: String) -> (r: Vec<String>)
    ensures
        r.deep_view() == seq![to@],
{
    let mut r: Vec<String> = Vec::new();
    r.push(to);
    proof {
        assert(r.deep_view() =~= seq![to@]);
    }
    r
}

/// The grouped table of all legal moves on the position `fen`.
fn available_moves(fen: &str) -> (r: Vec<(String, Vec<String>)>)
    requires
        valid_fen(fen@),
    ensures
        r.deep_view() == group_moves(legal_fromto(fen@)),
{
    let moves = rules::legal_moves(fen);
    let ghost ms = moves.deep_view();
    let mut map: Vec<(String, Vec<String>)> = Vec::new();
    proof {
        assert(map.deep_view() =~= Seq::<(Seq<char>, Seq<Seq<char>>)>::empty());
        assert(ms.take(0) =~= Seq::<(Seq<char>, Seq<char>)>::empty());
    }
    let n = moves.len();
    let mut i: usize = 0;
    while i < n
        invariant
            n == moves.len(),
            i <= n,
            ms == moves.deep_view(),
            ms == legal_fromto(fen@),
            map.deep_view() == group_moves(ms.take(i as int)),
            distinct_keys(map.deep_view()),
        decreases n - i,
    {
        let from = moves[i].0.clone();
        let to = moves[i].1.clone();
        proof {
            assert(ms[i as int] == (from@, to@));
        }
        insert_from_to(from, to, &mut map);
        proof {
            assert(ms.take(i + 1).drop_last() =~= ms.take(i as int));
            assert(ms.take(i + 1).last() == ms[i as int]);
        }
        i = i + 1;
    }
    proof {
        assert(ms.take(n as int) =~= ms);
    }
    map
}

/// Reserved: one side of the board in the game metadata.
#[derive(Debug)]
pub struct Player {}

/// Reserved: a link to an external game service.
#[derive(Debug)]
pub struct Lichess {}

/// Textual metadata about a game. Reserved, empty in this version.
#[derive(Debug)]
pub struct GameInfo {
    players: (Option<Player>, Option<Player>),
    game_title: String,
    lichess: Option<Lichess>,
}

fn empty_game_info() -> GameInfo {
    GameInfo { players: (None, None), game_title: String::new(), lichess: None }
}

/// Mathematical model of a `Game`: the canonical FEN of its initial
/// position, the SANs of the current line, and the move tree.
#[verifier::ext_equal]
pub struct GameV {
    pub init: Seq<char>,
    pub line: Seq<Seq<char>>,
    pub tree: TreeV,
}

/// The model of a game just created on the position `init`.
pub open spec fn fresh_game(init: Seq<char>) -> GameV {
    GameV {
        init,
        line: Seq::empty(),
        tree: TreeV { san: None, children: Seq::empty(), evaluation: None },
    }
}

/// The FEN of the position at the end of the current line.
pub open spec fn cur_fen(g: GameV) -> Seq<char> {
    line_fen(g.init, g.line)->Some_0
}

/// What `play` does to a game model: resolve the squares to a SAN on the
/// current position, record it in the tree at the current line, and append
/// it to the line; or fail with `Parse` (malformed UCI text) or
/// `ChessRules` (no legal move).
pub open spec fn play_outcome(g: GameV, from: Seq<char>, to: Seq<char>) -> Result<
    GameV,
    ErrorType,
> {
    if !is_uci_text(from + to) {
        Err(ErrorType::Parse)
    } else {
        match fromto_san(cur_fen(g), from, to) {
            None => Err(ErrorType::ChessRules),
            Some(san) => Ok(
                GameV { init: g.init, line: g.line.push(san), tree: tree_insert(g.tree, g.line, san) },
            ),
        }
    }
}

/// What `navigate_back` does to a game model: truncate the line by `back`
/// moves, saturating at the initial position; the tree is untouched.
pub open spec fn navigate_outcome(g: GameV, back: int) -> GameV {
    GameV {
        init: g.init,
        line: g.line.take(
            if back >= g.line.len() {
                0
            } else {
                g.line.len() - back
            },
        ),
        tree: g.tree,
    }
}

/// One game: an immutable initial position, the current line, and the tree
/// of every move played or analysed from the initial position.
#[derive(Debug)]
pub struct Game {
    /// Textual information about the game. Reserved.
    game_info: GameInfo,
    /// SAN moves leading from the initial position to the current focus.
    current_line: Vec<String>,
    /// Canonical FEN of the starting position of the game.
    initial_position: String,
    /// Tree of moves played or analysed during the game.
    game_tree: Branch,
}

impl View for Game {
    type V = GameV;

    closed spec fn view(&self) -> GameV {
        GameV {
            init: self.initial_position@,
            line: self.current_line.deep_view(),
            tree: self.game_tree@,
        }
    }
}

impl Game {
    /// Internal well-formedness, maintained by every operation: the initial
    /// FEN is valid, the current line replays from it, the tree is a
    /// deduplicated tree of legal moves, and the current line is a path in
    /// the tree.
    #[verifier::type_invariant]
    spec fn wf(self) -> bool {
        &&& valid_fen(self@.init)
        &&& line_ok(self@.init, self@.line)
        &&& self@.tree.san is None
        &&& tree_wf(self@.tree)
        &&& tree_has_path(self@.tree, self@.line)
        &&& tree_legal(self@.init, self@.tree)
    }

    /// A game on the standard starting position.
    pub fn new() -> (r: Game)
        ensures
            r@ == fresh_game(start_fen()),
    {
        let fen = rules::startpos_fen();
        let g = Game {
            game_info: empty_game_info(),
            current_line: Vec::new(),
            initial_position: fen,
            game_tree: Branch::new_root(),
        };
        proof {
            assert(g@.line =~= Seq::<Seq<char>>::empty());
            assert(tree_wf(g@.tree));
            assert(tree_legal(g@.init, g@.tree));
            assert(g@ =~= fresh_game(start_fen()));
        }
        g
    }

    /// A game whose initial position is parsed from a FEN text.
    pub fn from_fen(fen_string: String) -> (r: Result<Game, Error>)
        ensures
            r is Ok <==> fen_parse(fen_string@) is Ok,
            r matches Ok(g) ==> (fen_parse(fen_string@) matches Ok(f) && g@ == fresh_game(f)),
            r matches Err(e) ==> (e.id is None && e.error_type == (if fen_parse(fen_string@)
                == Err::<Seq<char>, bool>(true) {
                ErrorType::Parse
            } else {
                ErrorType::ChessRules
            })),
    {
        match rules::parse_fen(fen_string.as_str()) {
            Ok(f) => {
                let g = Game {
                    game_info: empty_game_info(),
                    current_line: Vec::new(),
                    initial_position: f,
                    game_tree: Branch::new_root(),
                };
                proof {
                    assert(g@.line =~= Seq::<Seq<char>>::empty());
                    assert(tree_wf(g@.tree));
                    assert(tree_legal(g@.init, g@.tree));
                    assert(g@ =~= fresh_game(fen_parse(fen_string@)->Ok_0));
                }
                Ok(g)
            },
            Err(e) => Err(e),
        }
    }

    /// FEN after replaying the first `k` moves of the current line.
    fn replay_prefix(&self, k: usize) -> (r: String)
        requires
            k <= self.current_line@.len(),
        ensures
            line_fen(self@.init, self@.line.take(k as int)) == Some(r@),
            valid_fen(r@),
    {
        proof {
            use_type_invariant(&*self);
            assert(self@.line.take(0) =~= Seq::<Seq<char>>::empty());
        }
        let mut fen = self.initial_position.clone();
        let mut i: usize = 0;
        while i < k
            invariant
                i <= k,
                k <= self.current_line@.len(),
                line_fen(self@.init, self@.line.take(i as int)) == Some(fen@),
                valid_fen(fen@),
            decreases k - i,
        {
            proof {
                use_type_invariant(&*self);
                lemma_line_ok_prefix(self@.init, self@.line, i + 1);
                assert(self@.line.take(i + 1).drop_last() =~= self@.line.take(i as int));
                assert(self@.line.take(i + 1).last() == self@.line[i as int]);
                lemma_line_fen_step(self@.init, self@.line, i as int);
                assert(self@.line[i as int] == self.current_line@[i as int]@);
            }
            let san = &self.current_line[i];
            fen = match rules::apply_san(fen.as_str(), san.as_str()) {
                Some(next) => next,
                None => unreached(),
            };
            i = i + 1;
        }
        fen
    }

    /// FEN of the position at the end of the current line.
    pub fn current_fen(&self) -> (r: String)
        ensures
            line_fen(self@.init, self@.line) == Some(r@),
            r@ == cur_fen(self@),
            valid_fen(r@),
    {
        proof {
            assert(self@.line.take(self.current_line@.len() as int) =~= self@.line);
        }
        self.replay_prefix(self.current_line.len())
    }

    /// Play the move given by its source and target squares on the current
    /// position: record its SAN in the tree (reusing an existing child) and
    /// append it to the current line. On failure the game is unchanged.
    pub fn play(&mut self, from: &String, to: &String) -> (r: Result<(), Error>)
        ensures
            r is Ok <==> play_outcome(old(self)@, from@, to@) is Ok,
            r matches Ok(()) ==> final(self)@ == play_outcome(old(self)@, from@, to@)->Ok_0,
            r matches Err(e) ==> (final(self)@ == old(self)@ && e.id is None && (play_outcome(
                old(self)@,
                from@,
                to@,
            ) matches Err(k) && e.error_type == k)),
    {
        proof {
            use_type_invariant(&*self);
        }
        let ghost g0 = self@;
        let cur = self.replay_prefix(self.current_line.len());
        proof {
            assert(g0.line.take(self.current_line@.len() as int) =~= g0.line);
        }
        let san = match rules::resolve_fromto(cur.as_str(), from.as_str(), to.as_str()) {
            Ok(s) => s,
            Err(e) => {
                return Err(e);
            },
        };
        let mut tmp = Game::new();
        core::mem::swap(self, &mut tmp);
        let Game { game_info, current_line, initial_position, game_tree } = tmp;
        let mut current_line = current_line;
        let mut game_tree = game_tree;
        proof {
            assert(current_line.deep_view().skip(0) =~= g0.line);
        }
        branch_insert(&mut game_tree, &current_line, 0, &san);
        current_line.push(san);
        proof {
            assert(current_line.deep_view() =~= g0.line.push(san@));
            lemma_insert_same_san(g0.tree, g0.line, san@);
            lemma_insert_wf(g0.tree, g0.line, san@);
            lemma_insert_path(g0.tree, g0.line, san@);
            lemma_insert_legal(g0.init, g0.tree, g0.line, san@);
            assert(g0.line.push(san@).drop_last() =~= g0.line);
        }
        let g2 = Game { game_info, current_line, initial_position, game_tree };
        proof {
            assert(g2@ =~= play_outcome(g0, from@, to@)->Ok_0);
        }
        *self = g2;
        Ok(())
    }

    /// Play a move given in SAN: resolve it on the current position to a
    /// source/target square pair and play that pair.
    pub fn play_san(&mut self, san: String) -> (r: Result<(), Error>)
        ensures
            san_fromto(cur_fen(old(self)@), san@) matches Ok(p) ==> {
                &&& (r is Ok <==> play_outcome(old(self)@, p.0, p.1) is Ok)
                &&& (r matches Ok(()) ==> final(self)@ == play_outcome(old(self)@, p.0, p.1)->Ok_0)
                &&& (r matches Err(e) ==> (final(self)@ == old(self)@ && e.id is None && (
                play_outcome(old(self)@, p.0, p.1) matches Err(k) && e.error_type == k)))
            },
            san_fromto(cur_fen(old(self)@), san@) matches Err(b) ==> (r matches Err(e)
                && final(self)@ == old(self)@ && e.id is None && e.error_type == (if b {
                ErrorType::Parse
            } else {
                ErrorType::ChessRules
            })),
    {
        proof {
            use_type_invariant(&*self);
        }
        let cur = self.replay_prefix(self.current_line.len());
        proof {
            assert(self@.line.take(self.current_line@.len() as int) =~= self@.line);
        }
        match rules::resolve_san(cur.as_str(), san.as_str()) {
            Ok((from, to)) => self.play(&from, &to),
            Err(e) => Err(e),
        }
    }

    /// The SAN moves of the current line. Every line a game holds replays
    /// legally from its initial position (`line_ok`).
    pub fn current_line(&self) -> (r: &Vec<String>)
        ensures
            r.deep_view() == self@.line,
            line_ok(self@.init, self@.line),
            valid_fen(self@.init),
    {
        proof {
            use_type_invariant(&*self);
        }
        &self.current_line
    }

    /// The move tree. The tree of every game is well-formed (no duplicated
    /// sibling SANs), holds only legal moves, and contains the current line
    /// as a path from the root.
    pub fn game_tree(&self) -> (r: &Branch)
        ensures
            r@ == self@.tree,
            self@.tree.san is None,
            tree_wf(self@.tree),
            tree_legal(self@.init, self@.tree),
            tree_has_path(self@.tree, self@.line),
    {
        proof {
            use_type_invariant(&*self);
        }
        &self.game_tree
    }

    /// Derived view of the game: the current position's FEN, its legal
    /// moves grouped by source square, whether the side to move is in
    /// check, and whether the last move was a capture. Never mutates the
    /// game.
    pub fn get_repr(&self) -> (r: GameRepr)
        ensures
            r@ == spec_repr(self@),
    {
        proof {
            use_type_invariant(&*self);
        }
        let len = self.current_line.len();
        if len == 0 {
            let fen = self.replay_prefix(0);
            proof {
                assert(self@.line.take(0) =~= self@.line);
            }
            let moves = available_moves(fen.as_str());
            let is_check = rules::check_fen(fen.as_str());
            let r = GameRepr { available_moves: moves, fen, is_takes: false, is_check };
            proof {
                assert(r@ =~= spec_repr(self@));
            }
            r
        } else {
            let prev = self.replay_prefix(len - 1);
            proof {
                lemma_line_ok_fen(self@.init, self@.line);
                assert(self@.line.take(len as int) =~= self@.line);
                lemma_line_fen_step(self@.init, self@.line, len - 1 as int);
                assert(self@.line.take(len - 1 as int) =~= self@.line.drop_last());
                assert(self@.line[len - 1 as int] == self@.line.last());
                assert(self@.line[len - 1 as int] == self.current_line@[len - 1 as int]@);
            }
            let last = &self.current_line[len - 1];
            let fen = match rules::apply_san(prev.as_str(), last.as_str()) {
                Some(c) => c,
                None => unreached(),
            };
            let is_takes = rules::capture_san(prev.as_str(), last.as_str());
            let moves = available_moves(fen.as_str());
            let is_check = rules::check_fen(fen.as_str());
            let r = GameRepr { available_moves: moves, fen, is_takes, is_check };
            proof {
                assert(r@ =~= spec_repr(self@));
            }
            r
        }
    }

    /// Truncate the current line by `back` moves, saturating at the initial
    /// position. The move tree is untouched, so explored branches remain.
    pub fn navigate_back(&mut self, back: u16)
        ensures
            final(self)@ == navigate_outcome(old(self)@, back as int),
    {
        proof {
            use_type_invariant(&*self);
        }
        let ghost g0 = self@;
        let len = self.current_line.len();
        let b = back as usize;
        let new_length: usize = if b >= len {
            0
        } else {
            len - b
        };
        let mut tmp = Game::new();
        core::mem::swap(self, &mut tmp);
        let Game { game_info, current_line, initial_position, game_tree } = tmp;
        let mut current_line = current_line;
        current_line.truncate(new_length);
        proof {
            assert(current_line.deep_view() =~= g0.line.take(new_length as int));
            lemma_line_ok_prefix(g0.init, g0.line, new_length as int);
            lemma_path_take(g0.tree, g0.line, new_length as int);
        }
        let g2 = Game { game_info, current_line, initial_position, game_tree };
        proof {
            assert(g2@ =~= navigate_outcome(g0, back as int));
        }
        *self = g2;
    }
}

impl Default for Game {
    /// A game on the standard starting position.
    fn default() -> (r: Game)
        ensures
            r@ == fresh_game(start_fen()),
    {
        Game::new()
    }
}

/// Law: in a line that replays — as the current line of every game does,
/// see `Game::current_line` — every SAN is legal in the position reached by
/// replaying the moves before it from the initial position.
pub proof fn lemma_current_line_legal(init: Seq<char>, line: Seq<Seq<char>>, i: int)
    requires
        line_ok(init, line),
        0 <= i < line.len(),
    ensures
        line_fen(init, line.take(i)) matches Some(f) && san_apply(f, line[i]) is Some,
{
    lemma_line_ok_prefix(init, line, i + 1);
    assert(line.take(i + 1).drop_last() =~= line.take(i));
    assert(line.take(i + 1).last() == line[i]);
}

/// Law: recording the same SAN at the same node twice is the same as
/// recording it once, and the resulting tree stays well-formed, so no node
/// ever holds two children with one SAN.
pub proof fn lemma_tree_dedup(t: TreeV, path: Seq<Seq<char>>, san: Seq<char>)
    requires
        tree_wf(t),
        tree_has_path(t, path),
    ensures
        tree_wf(tree_insert(t, path, san)),
        has_child(tree_at(tree_insert(t, path, san), path), san),
        tree_insert(tree_insert(t, path, san), path, san) == tree_insert(t, path, san),
    decreases path.len(),
{
    let t2 = tree_insert(t, path, san);
    lemma_insert_wf(t, path, san);
    if path.len() == 0 {
        if has_child(t, san) {
        } else {
            let n = t.children.len();
            assert(t2.children[n as int] == new_leaf(san));
            assert(has_child(t2, san));
        }
    } else {
        assert(has_child(t, path[0]));
        let i = child_index(t, path[0]);
        let c = child_at(t, path[0]);
        assert(0 <= i < t.children.len() && t.children[i].san == Some(path[0]));
        lemma_insert_same_san(c, path.drop_first(), san);
        let rec = tree_insert(c, path.drop_first(), san);
        assert(t2.children[i] == rec);
        lemma_child_index_of(t2, path[0], i);
        lemma_tree_dedup(c, path.drop_first(), san);
        assert(child_at(t2, path[0]) == rec);
        let t3 = tree_insert(t2, path, san);
        assert(t3.children =~= t2.children);
        assert(t3 =~= t2);
    }
}

/// Law: after a successful `play`, navigating back one move restores the
/// previous line — and with it the previous position — while the child the
/// play recorded remains in the tree.
pub proof fn lemma_navigate_inverse(g: GameV, from: Seq<char>, to: Seq<char>)
    requires
        tree_wf(g.tree),
        tree_has_path(g.tree, g.line),
        play_outcome(g, from, to) matches Ok(g2),
    ensures
        play_outcome(g, from, to) matches Ok(g2) && {
            let back = navigate_outcome(g2, 1);
            &&& back.line == g.line
            &&& back.init == g.init
            &&& line_fen(back.init, back.line) == line_fen(g.init, g.line)
            &&& tree_has_path(g2.tree, g.line.push(fromto_san(cur_fen(g), from, to)->Some_0))
        },
{
    let san = fromto_san(cur_fen(g), from, to)->Some_0;
    let g2 = play_outcome(g, from, to)->Ok_0;
    assert(g2.line.take(g.line.len() as int) =~= g.line);
    lemma_insert_path(g.tree, g.line, san);
}

/// Law: navigating back at least the whole line resets to the initial
/// position, and navigating back zero moves changes nothing.
pub proof fn lemma_navigate_saturates(g: GameV, back: int)
    ensures
        back >= g.line.len() ==> (navigate_outcome(g, back).line == Seq::<Seq<char>>::empty()
            && line_fen(g.init, navigate_outcome(g, back).line) == Some(g.init)),
        navigate_outcome(g, 0) == g,
{
    assert(g.line.take(0) =~= Seq::<Seq<char>>::empty());
    assert(g.line.take(g.line.len() as int) =~= g.line);
    assert(navigate_outcome(g, 0) =~= g);
}

/// Law: the derived view is a pure function of the game model — equal
/// models yield equal views, so serializing `get_repr` of one state twice
/// gives identical bytes under a fixed key order.
pub proof fn lemma_repr_pure(a: &Game, b: &Game)
    requires
        a@ == b@,
    ensures
        spec_repr(a@) == spec_repr(b@),
{
}



} // verus!
