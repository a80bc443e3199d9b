//! What holds of the rules: facts about the model that the engine relies on,
//! and the laws of the game that follow from its definitions.

use crate::layout::{
    checkers_in, higher, initial_counts, lower, mirror, no_counts, plays_both_dice, Layout,
};
use crate::rustgammon::{Color, Submove};
use vstd::prelude::*;

verus! {

/// An entry of a flat map comes from one of the mapped items.
pub proof fn lemma_flat_map_member<A, B>(items: Seq<A>, f: spec_fn(A) -> Seq<B>, entry: B) -> (idx:
    int)
    requires
        items.flat_map(f).contains(entry),
    ensures
        0 <= idx < items.len(),
        f(items[idx]).contains(entry),
    decreases items.len(),
{
    if items.len() == 0 {
        assert(items.map_values(f) =~= Seq::empty());
        0
    } else {
        let front = items.drop_last();
        assert(items =~= front.push(items.last()));
        front.lemma_flat_map_push(f, items.last());
        if f(items.last()).contains(entry) {
            items.len() - 1
        } else {
            let at = items.flat_map(f).lemma_contains_to_index(entry);
            assert(front.flat_map(f)[at] == entry);
            lemma_flat_map_member(front, f, entry)
        }
    }
}

/// Replacing one count changes the number of checkers by the difference.
pub proof fn lemma_checkers_in_update(counts: Seq<int>, pos: int, checkers: int)
    requires
        0 <= pos < counts.len(),
    ensures
        checkers_in(counts.update(pos, checkers)) == checkers_in(counts) - counts[pos] + checkers,
    decreases counts.len(),
{
    if pos == counts.len() - 1 {
        assert(counts.update(pos, checkers).drop_last() =~= counts.drop_last());
    } else {
        lemma_checkers_in_update(counts.drop_last(), pos, checkers);
        assert(counts.update(pos, checkers).drop_last() =~= counts.drop_last().update(
            pos,
            checkers,
        ));
    }
}

/// Where no count is negative, no position holds more than there is in all.
pub proof fn lemma_checkers_in_bounds(counts: Seq<int>, pos: int)
    requires
        forall|i: int| 0 <= i < counts.len() ==> 0 <= #[trigger] counts[i],
        0 <= pos < counts.len(),
    ensures
        0 <= counts[pos] <= checkers_in(counts),
    decreases counts.len(),
{
    lemma_checkers_in_nonnegative(counts.drop_last());
    if pos < counts.len() - 1 {
        lemma_checkers_in_bounds(counts.drop_last(), pos);
    }
}

/// Where no count is negative, neither is their sum.
pub proof fn lemma_checkers_in_nonnegative(counts: Seq<int>)
    requires
        forall|i: int| 0 <= i < counts.len() ==> 0 <= #[trigger] counts[i],
    ensures
        0 <= checkers_in(counts),
    decreases counts.len(),
{
    if counts.len() > 0 {
        lemma_checkers_in_nonnegative(counts.drop_last());
    }
}

/// Where no count is negative, two positions together hold no more than
/// there is in all.
pub proof fn lemma_checkers_in_pair(counts: Seq<int>, pos: int, other: int)
    requires
        forall|i: int| 0 <= i < counts.len() ==> 0 <= #[trigger] counts[i],
        0 <= pos < counts.len(),
        0 <= other < counts.len(),
        pos != other,
    ensures
        counts[pos] + counts[other] <= checkers_in(counts),
{
    let rest = counts.update(pos, 0);
    lemma_checkers_in_update(counts, pos, 0);
    lemma_checkers_in_bounds(rest, other);
}

/// A legal submove on a valid layout moves checkers without making or losing
/// any: the layout stays valid and each side keeps its number of checkers.
pub proof fn lemma_do_submove_keeps_checkers(layout: Layout, color: Color, submove: Submove)
    requires
        layout.valid(),
        layout.can_do_submove(color, submove),
    ensures
        layout.do_submove(color, submove).valid(),
        layout.do_submove(color, submove).total(Color::Red) == layout.total(Color::Red),
        layout.do_submove(color, submove).total(Color::White) == layout.total(Color::White),
        layout.hits(color, submove) ==> layout.count(color.opposite(), 0) < i8::MAX,
        layout.count(color, submove.from as int) >= 1,
        submove.destination() != submove.from ==> layout.count(
            color,
            submove.destination() as int,
        ) < i8::MAX,
{
    let other = color.opposite();
    let from = submove.from as int;
    let landing = submove.destination() as int;
    let there = mirror(landing);
    if layout.hits(color, submove) {
        lemma_checkers_in_pair(layout.side(other), 0, there);
        lemma_checkers_in_update(layout.side(other), 0, layout.count(other, 0) + 1);
        lemma_checkers_in_update(
            layout.side(other).update(0, layout.count(other, 0) + 1),
            there,
            0,
        );
    }
    let cleared = if layout.hits(color, submove) {
        layout.place(other, 0, layout.count(other, 0) + 1).place(other, there, 0)
    } else {
        layout
    };
    assert(cleared.side(color) == layout.side(color));
    let lifted = cleared.place(color, from, cleared.count(color, from) - 1);
    lemma_checkers_in_bounds(layout.side(color), from);
    lemma_checkers_in_update(cleared.side(color), from, cleared.count(color, from) - 1);
    lemma_checkers_in_update(lifted.side(color), landing, lifted.count(color, landing) + 1);
    if landing != from {
        lemma_checkers_in_pair(layout.side(color), from, landing);
    }
}

/// Every move that the ordered search finds can be played as it stands,
/// plays at least one die and at most all of them, and plays the dice in the
/// order given: its last entry with the first die.
pub proof fn lemma_ordered_moves(layout: Layout, color: Color, dice: Seq<usize>, mov: Seq<Submove>)
    requires
        layout.ordered_moves(color, dice).contains(mov),
    ensures
        layout.playable(color, mov),
        1 <= mov.len() <= dice.len(),
        forall|i: int| 0 <= i < mov.len() ==> (#[trigger] mov[mov.len() - 1 - i]).die == dice[i],
    decreases dice.len(),
{
    if dice.len() == 0 {
        assert(layout.ordered_moves(color, dice) =~= Seq::empty());
    } else {
        let legal = |submove: Submove| layout.can_do_submove(color, submove);
        let candidates = Layout::candidates(dice[0]);
        let submoves = layout.list_submoves(color, dice[0]);
        let rest_dice = dice.drop_first();
        let idx = lemma_flat_map_member(submoves, layout.continue_with(color, rest_dice), mov);
        let submove = submoves[idx];
        candidates.lemma_filter_pred(legal, idx);
        candidates.lemma_filter_contains_rev(legal, submove);
        candidates.lemma_contains_to_index(submove);
        assert(submove.die == dice[0]);
        let next_layout = layout.do_submove(color, submove);
        let next = next_layout.ordered_moves(color, rest_dice);
        let continuations = if next.len() == 0 {
            seq![Seq::<Submove>::empty()]
        } else {
            next
        };
        let grown = continuations.map_values(|rest: Seq<Submove>| rest.push(submove));
        assert(layout.moves_after(color, submove, rest_dice) == grown);
        let at = grown.lemma_contains_to_index(mov);
        let rest = continuations[at];
        assert(mov == rest.push(submove));
        assert(mov.last() == submove);
        assert(mov.drop_last() =~= rest);
        assert(layout.can_do_submove(color, submove)) by {
            assert(legal(submoves[idx]));
        }
        if next.len() != 0 {
            lemma_ordered_moves(next_layout, color, rest_dice, rest);
            assert forall|i: int| 0 <= i < mov.len() implies (#[trigger] mov[mov.len() - 1
                - i]).die == dice[i] by {
                if i > 0 {
                    assert(mov[mov.len() - 1 - i] == rest[rest.len() - 1 - (i - 1)]);
                    assert(rest_dice[i - 1] == dice[i]);
                }
            }
        }
        assert(next_layout.playable(color, rest));
        assert(layout.playable(color, mov));
    }
}

/// Every legal move can be played as it stands.
pub proof fn lemma_legal_moves_playable(
    layout: Layout,
    color: Color,
    roll: (usize, usize),
    mov: Seq<Submove>,
)
    requires
        layout.can_do_move(color, roll, mov),
    ensures
        layout.playable(color, mov),
{
    if roll.0 == roll.1 {
        lemma_ordered_moves(layout, color, seq![roll.0, roll.0, roll.0, roll.0], mov);
    } else {
        let high_dice = seq![higher(roll), lower(roll)];
        let low_dice = seq![lower(roll), higher(roll)];
        let high_moves = layout.ordered_moves(color, high_dice);
        let low_moves = layout.ordered_moves(color, low_dice);
        let high_both = high_moves.filter(plays_both_dice());
        let low_both = low_moves.filter(plays_both_dice());
        if high_both.contains(mov) {
            high_moves.lemma_filter_contains_rev(plays_both_dice(), mov);
        }
        if low_both.contains(mov) {
            low_moves.lemma_filter_contains_rev(plays_both_dice(), mov);
        }
        if high_moves.contains(mov) {
            lemma_ordered_moves(layout, color, high_dice, mov);
        } else {
            if (high_both + low_both).contains(mov) {
                let at = (high_both + low_both).lemma_contains_to_index(mov);
                if at < high_both.len() {
                    assert(high_both[at] == mov);
                } else {
                    assert(low_both[at - high_both.len()] == mov);
                }
            }
            assert(low_moves.contains(mov));
            lemma_ordered_moves(layout, color, low_dice, mov);
        }
    }
}

/// A move that can be played moves checkers without making or losing any:
/// the layout stays valid and each side keeps its number of checkers.
pub proof fn lemma_do_move_keeps_checkers(layout: Layout, color: Color, mov: Seq<Submove>)
    requires
        layout.valid(),
        layout.playable(color, mov),
    ensures
        layout.do_move(color, mov).valid(),
        layout.do_move(color, mov).total(Color::Red) == layout.total(Color::Red),
        layout.do_move(color, mov).total(Color::White) == layout.total(Color::White),
    decreases mov.len(),
{
    if mov.len() > 0 {
        lemma_do_submove_keeps_checkers(layout, color, mov.last());
        lemma_do_move_keeps_checkers(layout.do_submove(color, mov.last()), color, mov.drop_last());
    }
}

/// A layout without checkers is valid.
pub proof fn lemma_empty_layout()
    ensures
        Layout::empty().valid(),
        Layout::empty().total(Color::Red) == 0,
        Layout::empty().total(Color::White) == 0,
{
    reveal_with_fuel(checkers_in, 27);
    assert(checkers_in(no_counts()) == 0);
}

/// At the start of a game each side has fifteen checkers.
pub proof fn lemma_initial_layout()
    ensures
        Layout::initial().valid(),
        Layout::initial().total(Color::Red) == 15,
        Layout::initial().total(Color::White) == 15,
{
    reveal_with_fuel(checkers_in, 27);
    assert(checkers_in(initial_counts()) == 15);
}

/// Conservation: in every position that a game reaches from its start by
/// moves that can be played, each side has its fifteen checkers.
pub proof fn lemma_conservation(turns: Seq<(Color, Seq<Submove>)>, color: Color)
    requires
        Layout::initial().turns_playable(turns),
    ensures
        Layout::initial().after_turns(turns).valid(),
        Layout::initial().after_turns(turns).total(color) == 15,
{
    lemma_initial_layout();
    lemma_turns_keep_checkers(Layout::initial(), turns);
}

/// Turns that can be played keep the layout valid and leave each side its
/// number of checkers.
pub proof fn lemma_turns_keep_checkers(layout: Layout, turns: Seq<(Color, Seq<Submove>)>)
    requires
        layout.valid(),
        layout.turns_playable(turns),
    ensures
        layout.after_turns(turns).valid(),
        layout.after_turns(turns).total(Color::Red) == layout.total(Color::Red),
        layout.after_turns(turns).total(Color::White) == layout.total(Color::White),
    decreases turns.len(),
{
    if turns.len() > 0 {
        let (color, mov) = turns.first();
        lemma_do_move_keeps_checkers(layout, color, mov);
        lemma_turns_keep_checkers(layout.do_move(color, mov), turns.drop_first());
    }
}

/// Both dice must be played where they can: for a roll of two different
/// dice, where either order of the dice yields a move of two submoves, every
/// legal move has two submoves.
pub proof fn lemma_both_dice_mandatory(
    layout: Layout,
    color: Color,
    roll: (usize, usize),
    found: Seq<Submove>,
    mov: Seq<Submove>,
)
    requires
        roll.0 != roll.1,
        found.len() == 2,
        layout.ordered_moves(color, seq![higher(roll), lower(roll)]).contains(found)
            || layout.ordered_moves(color, seq![lower(roll), higher(roll)]).contains(found),
        layout.list_moves(color, roll).contains(mov),
    ensures
        mov.len() == 2,
{
    let high_moves = layout.ordered_moves(color, seq![higher(roll), lower(roll)]);
    let low_moves = layout.ordered_moves(color, seq![lower(roll), higher(roll)]);
    let high_both = high_moves.filter(plays_both_dice());
    let low_both = low_moves.filter(plays_both_dice());
    if high_moves.contains(found) {
        let at = high_moves.lemma_contains_to_index(found);
        high_moves.lemma_filter_contains(plays_both_dice(), at);
        high_both.lemma_contains_to_index(found);
    } else {
        let at = low_moves.lemma_contains_to_index(found);
        low_moves.lemma_filter_contains(plays_both_dice(), at);
        low_both.lemma_contains_to_index(found);
    }
    assert((high_both + low_both).len() > 0);
    let at = (high_both + low_both).lemma_contains_to_index(mov);
    if at < high_both.len() {
        high_moves.lemma_filter_pred(plays_both_dice(), at);
    } else {
        low_moves.lemma_filter_pred(plays_both_dice(), at - high_both.len());
    }
}

/// The higher die is preferred: for a roll of two different dice, where
/// neither order of the dice yields a move of two submoves and the higher die
/// can be played, every legal move is one submove of the higher die.
pub proof fn lemma_higher_die_preferred(
    layout: Layout,
    color: Color,
    roll: (usize, usize),
    mov: Seq<Submove>,
)
    requires
        roll.0 != roll.1,
        forall|other: Seq<Submove>|
            layout.ordered_moves(color, seq![higher(roll), lower(roll)]).contains(other)
                ==> other.len() != 2,
        forall|other: Seq<Submove>|
            layout.ordered_moves(color, seq![lower(roll), higher(roll)]).contains(other)
                ==> other.len() != 2,
        layout.ordered_moves(color, seq![higher(roll), lower(roll)]).len() >= 1,
        layout.list_moves(color, roll).contains(mov),
    ensures
        mov.len() == 1,
        mov[0].die == higher(roll),
{
    let high_dice = seq![higher(roll), lower(roll)];
    let high_moves = layout.ordered_moves(color, high_dice);
    let low_moves = layout.ordered_moves(color, seq![lower(roll), higher(roll)]);
    let high_both = high_moves.filter(plays_both_dice());
    let low_both = low_moves.filter(plays_both_dice());
    if high_both.len() > 0 {
        high_moves.lemma_filter_pred(plays_both_dice(), 0);
        assert(high_both.contains(high_both[0]));
        high_moves.lemma_filter_contains_rev(plays_both_dice(), high_both[0]);
    }
    if low_both.len() > 0 {
        low_moves.lemma_filter_pred(plays_both_dice(), 0);
        assert(low_both.contains(low_both[0]));
        low_moves.lemma_filter_contains_rev(plays_both_dice(), low_both[0]);
    }
    assert(layout.list_moves(color, roll) == high_moves);
    lemma_ordered_moves(layout, color, high_dice, mov);
    assert(mov[mov.len() - 1 - 0].die == high_dice[0]);
}

/// A blot is hit and nothing else: where a submove lands on a point of the
/// board that the other side holds with a single checker, that checker goes
/// to its owner's bar, which then holds one more, and leaves its point empty.
/// Any other submove leaves the other side as it was. A submove into the
/// bear-off position hits nothing, whatever stands there.
pub proof fn lemma_hit_semantics(layout: Layout, color: Color, submove: Submove)
    requires
        layout.well_formed(),
    ensures
        layout.hits(color, submove) ==> {
            &&& layout.do_submove(color, submove).count(color.opposite(), 0) == layout.count(
                color.opposite(),
                0,
            ) + 1
            &&& layout.do_submove(color, submove).count(
                color.opposite(),
                mirror(submove.destination() as int),
            ) == 0
            &&& forall|pos: int|
                pos != 0 && pos != mirror(submove.destination() as int) ==> layout.do_submove(
                    color,
                    submove,
                ).count(color.opposite(), pos) == layout.count(color.opposite(), pos)
        },
        !layout.hits(color, submove) ==> layout.do_submove(color, submove).side(color.opposite())
            == layout.side(color.opposite()),
        submove.destination() == 25 ==> !layout.hits(color, submove),
{
}

/// Bearing off is gated: a submove into the bear-off position is illegal
/// while a checker of the mover is on the bar or in the outer boards, and
/// once all are home it is legal exactly when a checker stands at its start
/// and none stands behind it as far as the point that the die bears off.
pub proof fn lemma_bear_off_gating(layout: Layout, color: Color, submove: Submove)
    requires
        submove.destination() == 25,
    ensures
        !layout.all_home(color) ==> !layout.can_do_submove(color, submove),
        layout.all_home(color) ==> (layout.can_do_submove(color, submove) <==> {
            &&& layout.count(color, submove.from as int) != 0
            &&& submove.from != 25
            &&& !layout.held_behind(color, submove)
        }),
{
    if layout.all_home(color) {
        assert(layout.count(color, 0) <= 0);
    }
}

} // verus!
