//! Why every operation of the game logic keeps a game consistent
//! (`game_wf`): lemmas over the plain-value models of the operations.

use crate::gambling_manager::{
    g_ante, g_end, g_is_turn, g_leave, g_pass, g_seated, g_start, g_take_control, id_index,
    lemma_g_leave_seated, lemma_id_index, next_turn, GamblingRoundView,
};
use crate::game_logic::{cards_ok, holds_ok, table_ok, Table, TurnInfo, TurnPhase};
use crate::interrupt_manager::{stack_ok, stacks_ok, StackView};
use crate::game_logic::{
    action_over, after_step, discard_spent, game_wf, gambling_targets, is_action_root,
    other_targets, play_on_all, root_ok, rotate_to, settle, spec_pass, spec_play_list,
    spec_play_single, spec_process_card, spec_process_root, with_phase, with_table, GameLogicView,
};
use crate::interrupt_manager::{multi_stack, single_stack, spec_push};
use crate::game_logic::{
    discard_at, has_dup, insert_desc, lemma_set_player_wf, sort_desc, spec_discard_and_draw, spec_order_after_draw,
    spec_play_card, with_players,
};
use crate::drink::{discardable_cards, DrinkCard};
use crate::player::{drew_to_full, drink_outcome, pv_discard, pv_drink};
use crate::player_card::{
    card_can_play, root_can_play, spec_pre_interrupt_play, ShouldInterrupt, TargetStyle,
};
use crate::interrupt_manager::current_turn;
use crate::interrupt_manager::{
    spec_increment, apply_root, as_player_cards, current_interrupt, drink_effect, resolve_cards,
    resolve_player_cards, spec_resolve, GameInterruptData, GameInterruptType, InterruptRoot,
    ResolveView, SessionView,
};
use crate::player_card::{
    card_ok, interrupt_outcome, root_card_ok, InterruptPlayerCard, PlayerCard,
    ShouldCancelPreviousCard,
};
use crate::player::PlayerView;
use crate::player_card::{
    spec_interrupt_play, spec_post_interrupt_play, PostInterruptPlay, RootCardEffect, RootPlayerCard,
    RootPlayerCardInterruptData,
};
use crate::player_manager::{
    discard_all, spec_next_alive, NextPlayerUUIDOption, alive_uuids, all_in, lemma_alive_uuids_in, lemma_same_seating_index, lemma_uuid_index, seat,
    seat_set, seated, uuid_index,
};
use crate::uuid::PlayerUUID;
use vstd::prelude::*;

verus! {

/// `b` seats the same players as `a`, in the same order, each holding the
/// same cards.
pub open spec fn same_seats(
    a: Seq<(PlayerUUID, PlayerView)>,
    b: Seq<(PlayerUUID, PlayerView)>,
) -> bool {
    &&& a.len() == b.len()
    &&& forall|i: int|
        0 <= i < a.len() ==> (#[trigger] b[i]).0 == a[i].0 && b[i].1.cards() == a[i].1.cards()
}

/// Seating the same players in the same order keeps every fact about who
/// is seated.
pub proof fn lemma_same_ids(a: Seq<(PlayerUUID, PlayerView)>, b: Seq<(PlayerUUID, PlayerView)>)
    requires
        a.len() == b.len(),
        forall|i: int| 0 <= i < a.len() ==> (#[trigger] b[i]).0 == a[i].0,
    ensures
        forall|w: PlayerUUID| #[trigger] uuid_index(b, w) == uuid_index(a, w),
        forall|w: PlayerUUID| #[trigger] seated(b, w) == seated(a, w),
        forall|ids: Seq<PlayerUUID>| #[trigger] all_in(ids, b) == all_in(ids, a),
        forall|g: Option<GamblingRoundView>| #[trigger] g_seated(g, b) == g_seated(g, a),
        forall|st: StackView| #[trigger] stack_ok(st, b) == stack_ok(st, a),
        forall|sts: Seq<StackView>| #[trigger] stacks_ok(sts, b) == stacks_ok(sts, a),
{
    lemma_same_seating_index(b, a);
    assert forall|sts: Seq<StackView>| #[trigger] stacks_ok(sts, b) == stacks_ok(sts, a) by {
        if stacks_ok(sts, a) {
            assert forall|k: int| 0 <= k < sts.len() implies stack_ok(#[trigger] sts[k], b) by {
                assert(stack_ok(sts[k], a));
            }
        }
        if stacks_ok(sts, b) {
            assert forall|k: int| 0 <= k < sts.len() implies stack_ok(#[trigger] sts[k], a) by {
                assert(stack_ok(sts[k], b));
            }
        }
    }
}

/// Seating the same players keeps every fact about who is seated, and
/// keeps every card held a game card.
pub proof fn lemma_same_seats(a: Seq<(PlayerUUID, PlayerView)>, b: Seq<(PlayerUUID, PlayerView)>)
    requires
        same_seats(a, b),
    ensures
        forall|w: PlayerUUID| #[trigger] uuid_index(b, w) == uuid_index(a, w),
        forall|w: PlayerUUID| #[trigger] seated(b, w) == seated(a, w),
        forall|ids: Seq<PlayerUUID>| #[trigger] all_in(ids, b) == all_in(ids, a),
        forall|g: Option<GamblingRoundView>| #[trigger] g_seated(g, b) == g_seated(g, a),
        forall|st: StackView| #[trigger] stack_ok(st, b) == stack_ok(st, a),
        forall|sts: Seq<StackView>| #[trigger] stacks_ok(sts, b) == stacks_ok(sts, a),
        cards_ok(a) ==> cards_ok(b),
{
    lemma_same_ids(a, b);
    if cards_ok(a) {
        assert forall|i: int| 0 <= i < b.len() implies holds_ok(#[trigger] b[i].1) by {
            assert(holds_ok(a[i].1));
        }
    }
}

/// `same_seats` chains.
pub proof fn lemma_same_seats_trans(
    a: Seq<(PlayerUUID, PlayerView)>,
    b: Seq<(PlayerUUID, PlayerView)>,
    c: Seq<(PlayerUUID, PlayerView)>,
)
    requires
        same_seats(a, b),
        same_seats(b, c),
    ensures
        same_seats(a, c),
{
    assert forall|i: int| 0 <= i < a.len() implies (#[trigger] c[i]).0 == a[i].0 && c[i].1.cards()
        == a[i].1.cards() by {
        assert(b[i].0 == a[i].0);
    }
}

/// Replacing a player by one holding the same cards seats the same
/// players.
pub proof fn lemma_seat_set_same(players: Seq<(PlayerUUID, PlayerView)>, u: PlayerUUID, p: PlayerView)
    requires
        seated(players, u) ==> p.cards() == seat(players, u).cards(),
    ensures
        same_seats(players, seat_set(players, u, p)),
{
    lemma_uuid_index(players, u);
}

/// An ante keeps the players seated and the round's players seated.
pub proof fn lemma_g_ante(g: Option<GamblingRoundView>, players: Seq<(PlayerUUID, PlayerView)>, u: PlayerUUID)
    requires
        g_seated(g, players),
    ensures
        same_seats(players, g_ante(g, players, u).1),
        g_seated(g_ante(g, players, u).0, g_ante(g, players, u).1),
        g_ante(g, players, u).0 is Some <==> g is Some,
        g_ante(g, players, u).0 matches Some(r2) ==> r2.winner == g->0.winner && r2.active
            == g->0.active,
{
    let p2 = g_ante(g, players, u).1;
    lemma_seat_set_same(
        players,
        u,
        crate::player::pv_change_gold(seat(players, u), -1),
    );
    lemma_same_seats(players, p2);
}

/// Passing in a round keeps the players seated and the round's players
/// seated; the turn keeps its player, and either stays or moves to
/// ordering drinks as the round ends.
pub proof fn lemma_g_pass(
    g: Option<GamblingRoundView>,
    players: Seq<(PlayerUUID, PlayerView)>,
    t: TurnInfo,
)
    requires
        g_seated(g, players),
    ensures
        ({
            let (g2, p2, t2) = g_pass(g, players, t);
            &&& same_seats(players, p2)
            &&& g_seated(g2, p2)
            &&& t2.player_turn == t.player_turn
            &&& t2.drinks_to_order == t.drinks_to_order
            &&& (t2 == t || (g2 is None && t2.turn_phase == TurnPhase::OrderDrinks))
            &&& g is None ==> g2 is None
        }),
{
    if let Some(r) = g {
        if next_turn(r.active, r.current) == r.winner {
            lemma_seat_set_same(
                players,
                r.winner,
                crate::player::pv_change_gold(seat(players, r.winner), r.pot),
            );
        }
    }
}

/// Taking control by a seated player keeps the round's players seated.
pub proof fn lemma_g_take_control(
    g: Option<GamblingRoundView>,
    u: PlayerUUID,
    need: bool,
    players: Seq<(PlayerUUID, PlayerView)>,
)
    requires
        g_seated(g, players),
        seated(players, u),
    ensures
        g_seated(g_take_control(g, u, need), players),
        g_take_control(g, u, need) is Some <==> g is Some,
{
}

/// Starting a round by a seated player keeps the players seated and the
/// round's players seated.
pub proof fn lemma_g_start(g: Option<GamblingRoundView>, players: Seq<(PlayerUUID, PlayerView)>, u: PlayerUUID)
    requires
        g_seated(g, players),
        g is None ==> seated(players, u),
    ensures
        same_seats(players, g_start(g, players, u).1),
        g_seated(g_start(g, players, u).0, g_start(g, players, u).1),
{
    if g is None {
        lemma_alive_uuids_in(players);
        let g0 = Some(
            GamblingRoundView {
                active: alive_uuids(players),
                current: u,
                winner: u,
                pot: 0,
                need_cheating: false,
            },
        );
        lemma_g_ante(g0, players, u);
    }
}

/// A root card's effect on its target keeps the players seated (each
/// holding the same cards) and the round's players seated.
pub proof fn lemma_interrupt_play(
    card: RootPlayerCard,
    target: PlayerUUID,
    players: Seq<(PlayerUUID, PlayerView)>,
    g: Option<GamblingRoundView>,
)
    requires
        g_seated(g, players),
    ensures
        ({
            let (p2, g2) = spec_interrupt_play(card, target, players, g);
            &&& same_seats(players, p2)
            &&& g_seated(g2, p2)
            &&& g2 is Some <==> g is Some
            &&& g2 matches Some(r2) ==> r2.winner == g->0.winner && r2.active == g->0.active
        }),
{
    match card.effect {
        RootCardEffect::GamblingImIn | RootCardEffect::IRaise => {
            lemma_g_ante(g, players, target);
        },
        RootCardEffect::ChangeOtherPlayerFortitude(a)
        | RootCardEffect::ChangeAllOtherPlayerFortitude(a) => {
            lemma_seat_set_same(
                players,
                target,
                crate::player::pv_change_fortitude(seat(players, target), a as int),
            );
            lemma_same_seats(players, spec_interrupt_play(card, target, players, g).0);
        },
        _ => {},
    }
}

/// A root card acting on each of several targets keeps the players seated
/// (each holding the same cards) and the round's players seated.
pub proof fn lemma_play_on_all(
    card: RootPlayerCard,
    targets: Seq<PlayerUUID>,
    players: Seq<(PlayerUUID, PlayerView)>,
    g: Option<GamblingRoundView>,
)
    requires
        g_seated(g, players),
    ensures
        ({
            let (p2, g2) = play_on_all(card, targets, players, g);
            &&& same_seats(players, p2)
            &&& g_seated(g2, p2)
            &&& g2 is Some <==> g is Some
        }),
    decreases targets.len(),
{
    if targets.len() > 0 {
        lemma_play_on_all(card, targets.drop_last(), players, g);
        let (p1, g1) = play_on_all(card, targets.drop_last(), players, g);
        lemma_interrupt_play(card, targets.last(), p1, g1);
        lemma_same_seats_trans(players, p1, spec_interrupt_play(card, targets.last(), p1, g1).0);
    }
}

/// What follows a root card's interrupt keeps the table consistent when
/// the card's owner is seated: the players stay seated (each holding the
/// same cards), the turn keeps its player, and either the turn stays or the
/// round of gambling ends and drinks are ordered.
pub proof fn lemma_post_interrupt_play(d: RootPlayerCardInterruptData, owner: PlayerUUID, s: Table)
    requires
        table_ok(s),
        seated(s.players, owner),
    ensures
        ({
            let s2 = spec_post_interrupt_play(d, owner, s);
            &&& table_ok(s2)
            &&& same_seats(s.players, s2.players)
            &&& s2.turn.player_turn == s.turn.player_turn
            &&& s2.turn.drinks_to_order == s.turn.drinks_to_order
            &&& (s2.turn == s.turn || (s2.gambling is None && s2.turn.turn_phase
                == TurnPhase::OrderDrinks))
            &&& s.gambling is None ==> s2.gambling is None
        }),
{
    match d.post_interrupt_play {
        PostInterruptPlay::Nothing => {},
        PostInterruptPlay::PassIfOwnersGamblingTurn => {
            lemma_g_pass(s.gambling, s.players, s.turn);
        },
        PostInterruptPlay::TakeControlOfRound => {
            lemma_g_take_control(s.gambling, owner, false, s.players);
        },
    }
}

/// Interrupt cards resolved without a round of gambling leave none.
pub proof fn lemma_resolve_cards_none(cards: Seq<GameInterruptData>, cur: Option<GameInterruptType>)
    ensures
        resolve_cards(cards, cur, None).2 is None,
    decreases cards.len(),
{
    if cards.len() > 0 {
        let rest = cards.drop_last();
        let (r, leaves) = interrupt_outcome(cards.last().card, cur);
        if r != ShouldCancelPreviousCard::No {
            if rest.len() > 0 {
                lemma_resolve_cards_none(rest.drop_last(), cur);
            }
        } else {
            lemma_resolve_cards_none(rest, cur);
        }
    }
}

/// A stack's root acting for a session keeps the table consistent when the
/// root card's owner (and, for a card that makes players ante, the target)
/// is seated: the players stay seated (each holding the same cards), the
/// turn keeps its player, and either the turn stays or the round of
/// gambling ends and drinks are ordered. An Action card changes neither the
/// turn nor the round.
pub proof fn lemma_apply_root(root: InterruptRoot, ses: SessionView, s: Table)
    requires
        table_ok(s),
        root matches InterruptRoot::RootPlayerCard(r) ==> {
            &&& seated(s.players, r.root_card_owner_uuid)
            &&& (r.root_card.effect is GamblingImIn || r.root_card.effect is IRaise) ==> seated(
                s.players,
                ses.target,
            )
        },
    ensures
        ({
            let s2 = apply_root(root, ses, s);
            &&& table_ok(s2)
            &&& same_seats(s.players, s2.players)
            &&& s2.turn.player_turn == s.turn.player_turn
            &&& s2.turn.drinks_to_order == s.turn.drinks_to_order
            &&& (s2.turn == s.turn || (s2.gambling is None && s2.turn.turn_phase
                == TurnPhase::OrderDrinks))
            &&& s.gambling is None ==> s2.gambling is None
            &&& root_ok(root) && is_action_root(root) ==> s2.turn == s.turn && s2.gambling
                == s.gambling
        }),
{
    match root {
        InterruptRoot::RootPlayerCard(r) => {
            lemma_interrupt_play(r.root_card, ses.target, s.players, s.gambling);
            let (p, g) = spec_interrupt_play(r.root_card, ses.target, s.players, s.gambling);
            let s1 = Table { players: p, gambling: g, ..s };
            lemma_same_seats(s.players, p);
            match r.root_card.interrupt_data_or {
                Some(d) => {
                    lemma_post_interrupt_play(d, r.root_card_owner_uuid, s1);
                    lemma_same_seats_trans(
                        s.players,
                        p,
                        spec_post_interrupt_play(d, r.root_card_owner_uuid, s1).players,
                    );
                },
                None => {},
            }
        },
        InterruptRoot::Drink(d) => {
            if seated(s.players, ses.target) && ses.root_type == GameInterruptType::AboutToDrink {
                lemma_seat_set_same(
                    s.players,
                    ses.target,
                    drink_effect(d.drink, seat(s.players, ses.target)),
                );
                lemma_same_seats(
                    s.players,
                    seat_set(s.players, ses.target, drink_effect(d.drink, seat(s.players, ses.target))),
                );
            }
        },
    }
}

/// The interrupt cards as player cards are all game cards.
pub proof fn lemma_as_player_cards_ok(cards: Seq<(PlayerUUID, InterruptPlayerCard)>)
    ensures
        forall|j: int|
            0 <= j < as_player_cards(cards).len() ==> card_ok(#[trigger] as_player_cards(cards)[j].1),
        as_player_cards(cards).len() == cards.len(),
    decreases cards.len(),
{
    if cards.len() > 0 {
        lemma_as_player_cards_ok(cards.drop_last());
    }
}

/// The player cards handed back by a resolution are game cards, when the
/// root is.
pub proof fn lemma_resolve_cards_ok(r: ResolveView)
    requires
        r.root matches Some((c, _)) ==> root_card_ok(c),
    ensures
        forall|j: int|
            0 <= j < resolve_player_cards(r).len() ==> card_ok(#[trigger] resolve_player_cards(r)[j].1),
{
    lemma_as_player_cards_ok(r.cards);
    let root: Seq<(PlayerUUID, PlayerCard)> = match r.root {
        Some((c, u)) => seq![(u, PlayerCard::RootPlayerCard(c))],
        None => Seq::empty(),
    };
    assert forall|j: int| 0 <= j < resolve_player_cards(r).len() implies card_ok(
        #[trigger] resolve_player_cards(r)[j].1,
    ) by {
        if j >= root.len() {
            assert(resolve_player_cards(r)[j] == as_player_cards(r.cards)[j - root.len()]);
        }
    }
}

/// The interrupt state of a consistent game: the stacks can be resolved,
/// there is at most one, its root is a game card, and an Action card's
/// interrupt only happens in the action phase without a round of gambling;
/// a round of gambling only happens in the action phase.
pub open spec fn interrupt_wf(stacks: Seq<StackView>, s: Table) -> bool {
    &&& table_ok(s)
    &&& stacks_ok(stacks, s.players)
    &&& stacks.len() <= 1
    &&& forall|i: int| 0 <= i < stacks.len() ==> root_ok(#[trigger] stacks[i].root)
    &&& (stacks.len() > 0 && is_action_root(stacks[0].root)) ==> {
        &&& s.turn.turn_phase == TurnPhase::Action
        &&& s.gambling is None
    }
    &&& s.gambling is Some ==> s.turn.turn_phase == TurnPhase::Action
}

/// Resolving the current session keeps the interrupt state consistent, the
/// players seated (each holding the same cards) and the turn's player; the
/// cards handed back are game cards; and an Action card handed back ends
/// its stack in the action phase without a round of gambling.
pub proof fn lemma_resolve(stacks: Seq<StackView>, s: Table)
    requires
        stacks.len() > 0,
        interrupt_wf(stacks, s),
    ensures
        ({
            let (r, ns, nt) = spec_resolve(stacks, s);
            &&& interrupt_wf(ns, nt)
            &&& same_seats(s.players, nt.players)
            &&& nt.turn.player_turn == s.turn.player_turn
            &&& nt.turn.drinks_to_order == s.turn.drinks_to_order
            &&& forall|j: int|
                0 <= j < resolve_player_cards(r).len() ==> card_ok(
                    #[trigger] resolve_player_cards(r)[j].1,
                )
            &&& action_over(r) ==> {
                &&& ns.len() == 0
                &&& nt.gambling is None
                &&& nt.turn.turn_phase == TurnPhase::Action
            }
        }),
{
    let st = stacks[0];
    assert(stack_ok(st, s.players));
    assert(root_ok(st.root));
    let rest = stacks.drop_first();
    let ses = st.sessions.last();
    let remaining = st.sessions.drop_last();
    let cur = current_interrupt(rest);
    let (cancel, spent_cards, g1) = resolve_cards(ses.cards, cur, s.gambling);
    crate::interrupt_manager::lemma_resolve_cards_seated(ses.cards, cur, s.gambling, s.players);
    if s.gambling is None {
        lemma_resolve_cards_none(ses.cards, cur);
    }
    let s1 = Table { gambling: g1, ..s };
    assert(table_ok(s1));
    let (r, ns, nt) = spec_resolve(stacks, s);
    assert(st.sessions[st.sessions.len() - 1] == ses);
    if cancel != ShouldCancelPreviousCard::Negate && cancel == ShouldCancelPreviousCard::No {
        lemma_apply_root(st.root, ses, s1);
    }
    assert(same_seats(s.players, nt.players));
    lemma_same_seats(s.players, nt.players);
    if ns.len() > 0 {
        let st2 = ns[0];
        assert(st2.root == st.root);
        assert(stack_ok(st2, s.players)) by {
            assert forall|i: int, j: int|
                0 <= i < st2.sessions.len() && 0 <= j < st2.sessions[i].cards.len() implies seated(
                s.players,
                (#[trigger] st2.sessions[i].cards[j]).card_owner_uuid,
            ) by {
                assert(st2.sessions[i] == st.sessions[i]);
            }
            if let InterruptRoot::RootPlayerCard(rr) = st.root {
                if rr.root_card.effect is GamblingImIn || rr.root_card.effect is IRaise {
                    assert forall|i: int| 0 <= i < st2.sessions.len() implies seated(
                        s.players,
                        (#[trigger] st2.sessions[i]).target,
                    ) by {
                        assert(st2.sessions[i] == st.sessions[i]);
                    }
                }
            }
        }
        assert(stacks_ok(ns, s.players));
    }
    if let Some((c, _)) = r.root {
        assert(st.root matches InterruptRoot::RootPlayerCard(rr) && rr.root_card == c);
    }
    lemma_resolve_cards_ok(r);
}

/// Moving the turn to interrupt on keeps the interrupt state consistent,
/// the players seated (each holding the same cards) and the turn's player;
/// the cards handed back are game cards; and an Action card handed back
/// ends its stack in the action phase without a round of gambling.
pub proof fn lemma_increment(stacks: Seq<StackView>, s: Table, is_passing: bool)
    requires
        interrupt_wf(stacks, s),
    ensures
        spec_increment(stacks, s, is_passing) matches Ok((r, ns, nt)) ==> {
            &&& interrupt_wf(ns, nt)
            &&& same_seats(s.players, nt.players)
            &&& nt.turn.player_turn == s.turn.player_turn
            &&& nt.turn.drinks_to_order == s.turn.drinks_to_order
            &&& r matches Some(res) ==> {
                &&& forall|j: int|
                    0 <= j < resolve_player_cards(res).len() ==> card_ok(
                        #[trigger] resolve_player_cards(res)[j].1,
                    )
                &&& action_over(res) ==> {
                    &&& ns.len() == 0
                    &&& nt.gambling is None
                    &&& nt.turn.turn_phase == TurnPhase::Action
                }
            }
        },
{
    if stacks.len() > 0 {
        lemma_resolve(stacks, s);
        let st = stacks[0];
        if let NextPlayerUUIDOption::Next(n) = spec_next_alive(s.players, st.turn) {
            let ns = stacks.update(0, StackView { turn: n, ..st });
            assert(stack_ok(st, s.players));
            assert(stack_ok(ns[0], s.players));
            assert(stacks_ok(ns, s.players));
        }
    }
}

/// Discarding game cards keeps everyone seated and every card held a game
/// card.
pub proof fn lemma_discard_all_ok(
    players: Seq<(PlayerUUID, PlayerView)>,
    cards: Seq<(PlayerUUID, PlayerCard)>,
)
    requires
        cards_ok(players),
        forall|j: int| 0 <= j < cards.len() ==> card_ok(#[trigger] cards[j].1),
    ensures
        cards_ok(discard_all(players, cards)),
        discard_all(players, cards).len() == players.len(),
        forall|i: int|
            0 <= i < players.len() ==> (#[trigger] discard_all(players, cards)[i]).0 == players[i].0,
    decreases cards.len(),
{
    crate::player_manager::lemma_discard_all_index(players, cards);
    if cards.len() > 0 {
        let rest = discard_all(players, cards.drop_last());
        lemma_discard_all_ok(players, cards.drop_last());
        let (u, c) = cards.last();
        assert(card_ok(cards[cards.len() - 1].1));
        let p = seat(rest, u);
        let p2 = crate::player::pv_discard(p, c);
        lemma_uuid_index(rest, u);
        if seated(rest, u) {
            assert(holds_ok(p));
            assert(holds_ok(p2)) by {
                broadcast use vstd::seq_lib::group_to_multiset_ensures;

                assert forall|x: PlayerCard| #[trigger] p2.cards().count(x) > 0 implies card_ok(x) by {
                    if x != c {
                        assert(p.cards().count(x) > 0);
                    }
                }
            }
            let out = seat_set(rest, u, p2);
            assert forall|i: int| 0 <= i < out.len() implies holds_ok(#[trigger] out[i].1) by {
                if i != uuid_index(rest, u) {
                    assert(out[i] == rest[i]);
                }
            }
        }
    }
}

/// Settling an interrupt step of a consistent game succeeds and keeps it
/// consistent, when the cards handed back are game cards and an Action card
/// handed back ended its stack in the action phase without a round of
/// gambling.
pub proof fn lemma_settle(v: GameLogicView, r: Option<ResolveView>)
    requires
        game_wf(v),
        r matches Some(res) ==> {
            &&& forall|j: int|
                0 <= j < resolve_player_cards(res).len() ==> card_ok(
                    #[trigger] resolve_player_cards(res)[j].1,
                )
            &&& action_over(res) ==> {
                &&& v.stacks.len() == 0
                &&& v.table.gambling is None
                &&& v.table.turn.turn_phase == TurnPhase::Action
            }
        },
    ensures
        settle(v, r) matches Ok(v2) && game_wf(v2),
{
    if let Some(res) = r {
        let v1 = if action_over(res) {
            with_phase(v, TurnPhase::OrderDrinks)
        } else {
            v
        };
        let cards = resolve_player_cards(res);
        lemma_discard_all_ok(v1.table.players, cards);
        let v2 = discard_spent(v1, res);
        lemma_same_ids(v1.table.players, v2.table.players);
    }
}

/// Passing keeps a consistent game consistent.
pub proof fn lemma_pass_wf(v: GameLogicView, u: PlayerUUID)
    requires
        game_wf(v),
    ensures
        game_wf(spec_pass(v, u).1),
{
    if v.stacks.len() > 0 {
        if current_turn(v.stacks) == Some(u) {
            lemma_increment(v.stacks, v.table, true);
            if let Ok(x) = spec_increment(v.stacks, v.table, true) {
                let v1 = after_step(v, x);
                lemma_same_seats(v.table.players, v1.table.players);
                lemma_settle(v1, x.0);
            }
        }
    } else if g_is_turn(v.table.gambling, u) {
        lemma_g_pass(v.table.gambling, v.table.players, v.table.turn);
        let (g, p, t) = g_pass(v.table.gambling, v.table.players, v.table.turn);
        lemma_same_seats(v.table.players, p);
    }
}

/// A card's effect before any interrupt keeps the interrupt state and the
/// seating consistent, when the card may be played by a seated player.
pub proof fn lemma_pre_wf(card: RootPlayerCard, u: PlayerUUID, s: Table, stacks: Seq<StackView>)
    requires
        interrupt_wf(stacks, s),
        seated(s.players, u),
        root_card_ok(card),
        root_can_play(card, u, s.gambling, stacks.len() > 0, s.turn),
    ensures
        ({
            let (si, t1) = spec_pre_interrupt_play(card, u, s);
            &&& interrupt_wf(stacks, t1)
            &&& same_seats(s.players, t1.players)
            &&& t1.turn.player_turn == s.turn.player_turn
            &&& si == ShouldInterrupt::Yes ==> t1.turn.turn_phase == s.turn.turn_phase
        }),
{
    let (si, t1) = spec_pre_interrupt_play(card, u, s);
    match card.effect {
        RootCardEffect::GamblingImIn => {
            if s.gambling is Some {
                lemma_g_take_control(s.gambling, u, false, s.players);
            } else {
                lemma_g_start(s.gambling, s.players, u);
                lemma_same_seats(s.players, t1.players);
            }
        },
        RootCardEffect::WinningHand => {
            lemma_g_take_control(s.gambling, u, true, s.players);
        },
        RootCardEffect::GamblingCheat => {
            lemma_g_take_control(s.gambling, u, false, s.players);
        },
        RootCardEffect::GainFortitudeAnytime(a) => {
            lemma_seat_set_same(
                s.players,
                u,
                crate::player::pv_change_fortitude(seat(s.players, u), a as int),
            );
            lemma_same_seats(s.players, t1.players);
        },
        RootCardEffect::WenchBringSomeDrinks => {
            lemma_seat_set_same(s.players, u, crate::player::pv_change_gold(seat(s.players, u), -1));
            lemma_same_seats(s.players, t1.players);
        },
        _ => {},
    }
}

/// Every identifier of the rotation is one of the identifiers.
pub proof fn lemma_rotate_all_in(ids: Seq<PlayerUUID>, u: PlayerUUID, players: Seq<(PlayerUUID, PlayerView)>)
    requires
        all_in(ids, players),
    ensures
        all_in(rotate_to(ids, u), players),
        rotate_to(ids, u).len() == ids.len(),
        rotate_to(ids, u).len() > 0 ==> all_in(rotate_to(ids, u).drop_first(), players),
{
    lemma_id_index(ids, u);
    let r = rotate_to(ids, u);
    let i = if id_index(ids, u) < 0 {
        0
    } else {
        id_index(ids, u)
    };
    assert forall|k: int| 0 <= k < r.len() implies uuid_index(players, #[trigger] r[k]) >= 0 by {
        if k < ids.len() - i {
            assert(r[k] == ids[i + k]);
        } else {
            assert(r[k] == ids[k - (ids.len() - i)]);
        }
    }
    if r.len() > 0 {
        assert forall|k: int| 0 <= k < r.drop_first().len() implies uuid_index(
            players,
            #[trigger] r.drop_first()[k],
        ) >= 0 by {
            assert(r.drop_first()[k] == r[k + 1]);
        }
    }
}

/// Playing a root card at one target keeps a consistent game consistent and
/// hands back the same card.
pub proof fn lemma_single_wf(v: GameLogicView, card: RootPlayerCard, u: PlayerUUID, target: PlayerUUID)
    requires
        game_wf(v),
        seated(v.table.players, u),
        root_card_ok(card),
        root_can_play(card, u, v.table.gambling, v.stacks.len() > 0, v.table.turn),
        card.target_style == TargetStyle::SelfPlayer || card.target_style
            == TargetStyle::SingleOtherPlayer,
    ensures
        game_wf(spec_play_single(v, card, u, target).1),
        spec_play_single(v, card, u, target).0 matches Ok(Some(c)) ==> c == card,
        spec_play_single(v, card, u, target).0 matches Err((c, _)) ==> c == card,
{
    lemma_pre_wf(card, u, v.table, v.stacks);
    let (si, t1) = spec_pre_interrupt_play(card, u, v.table);
    let v1 = with_table(v, t1);
    lemma_same_seats(v.table.players, t1.players);
    if si == ShouldInterrupt::Yes {
        match card.interrupt_data_or {
            Some(d) => {
                if v1.stacks.len() == 0 {
                    let st = single_stack(card, u, target, d.interrupt_type_output);
                    assert(stack_ok(st, t1.players));
                    let ns = seq![st];
                    assert(stacks_ok(ns, t1.players));
                }
            },
            None => {
                lemma_interrupt_play(card, target, t1.players, t1.gambling);
                let (p, g) = spec_interrupt_play(card, target, t1.players, t1.gambling);
                lemma_same_seats(t1.players, p);
            },
        }
    }
}

/// Playing a root card at a list of targets, all seated, keeps a consistent
/// game consistent and hands back the same card.
pub proof fn lemma_list_wf(
    v: GameLogicView,
    card: RootPlayerCard,
    u: PlayerUUID,
    other: Option<PlayerUUID>,
    targets: Seq<PlayerUUID>,
)
    requires
        game_wf(v),
        seated(v.table.players, u),
        root_card_ok(card),
        root_can_play(card, u, v.table.gambling, v.stacks.len() > 0, v.table.turn),
        all_in(targets, v.table.players),
    ensures
        game_wf(spec_play_list(v, card, u, other, targets).1),
        spec_play_list(v, card, u, other, targets).0 matches Ok(Some(c)) ==> c == card,
        spec_play_list(v, card, u, other, targets).0 matches Err((c, _)) ==> c == card,
{
    if other is None {
        lemma_pre_wf(card, u, v.table, v.stacks);
        let (si, t1) = spec_pre_interrupt_play(card, u, v.table);
        let v1 = with_table(v, t1);
        lemma_same_seats(v.table.players, t1.players);
        if si == ShouldInterrupt::Yes {
            match card.interrupt_data_or {
                Some(d) => {
                    if v1.stacks.len() == 0 && targets.len() > 0 {
                        let st = multi_stack(card, u, targets, d.interrupt_type_output);
                        assert(stack_ok(st, t1.players)) by {
                            assert forall|i: int| 0 <= i < st.sessions.len() implies seated(
                                t1.players,
                                (#[trigger] st.sessions[i]).target,
                            ) by {
                                assert(st.sessions[i].target == targets[targets.len() - 1 - i]);
                                assert(uuid_index(v.table.players, targets[targets.len() - 1 - i]) >= 0);
                            }
                        }
                        let ns = seq![st];
                        assert(stacks_ok(ns, t1.players));
                    }
                },
                None => {
                    lemma_play_on_all(card, targets, t1.players, t1.gambling);
                    let (p, g) = play_on_all(card, targets, t1.players, t1.gambling);
                    lemma_same_seats(t1.players, p);
                },
            }
        }
    }
}

/// Playing a root card keeps a consistent game consistent and hands back
/// the same card, when the player is seated.
pub proof fn lemma_process_root_wf(
    v: GameLogicView,
    card: RootPlayerCard,
    u: PlayerUUID,
    other: Option<PlayerUUID>,
)
    requires
        game_wf(v),
        seated(v.table.players, u),
        root_card_ok(card),
    ensures
        game_wf(spec_process_root(v, card, u, other).1),
        spec_process_root(v, card, u, other).0 matches Ok(Some(c)) ==> c == card,
        spec_process_root(v, card, u, other).0 matches Err((c, _)) ==> c == card,
{
    if root_can_play(card, u, v.table.gambling, v.stacks.len() > 0, v.table.turn) {
        match card.target_style {
            TargetStyle::SelfPlayer => {
                lemma_single_wf(v, card, u, u);
            },
            TargetStyle::SingleOtherPlayer => {
                if let Some(t) = other {
                    lemma_single_wf(v, card, u, t);
                }
            },
            TargetStyle::AllOtherPlayers => {
                lemma_alive_uuids_in(v.table.players);
                lemma_rotate_all_in(alive_uuids(v.table.players), u, v.table.players);
                lemma_list_wf(v, card, u, other, other_targets(v.table.players, u));
            },
            TargetStyle::AllGamblingPlayersIncludingSelf => {
                let active = match v.table.gambling {
                    Some(r) => r.active,
                    None => Seq::<PlayerUUID>::empty(),
                };
                lemma_rotate_all_in(active, u, v.table.players);
                lemma_list_wf(v, card, u, other, gambling_targets(v.table.gambling, u));
            },
        }
    }
}

/// Playing a card keeps a consistent game consistent and hands back the
/// same card, when the card is a game card and the player is seated.
pub proof fn lemma_process_card_wf(
    v: GameLogicView,
    card: PlayerCard,
    u: PlayerUUID,
    other: Option<PlayerUUID>,
)
    requires
        game_wf(v),
        seated(v.table.players, u),
        card_ok(card),
    ensures
        game_wf(spec_process_card(v, card, u, other).1),
        spec_process_card(v, card, u, other).0 matches Ok(Some(c)) ==> c == card,
        spec_process_card(v, card, u, other).0 matches Err((c, _)) ==> c == card,
{
    if card_can_play(card, u, v.table.gambling, v.stacks, v.table.turn) {
        match card {
            PlayerCard::RootPlayerCard(r) => {
                lemma_process_root_wf(v, r, u, other);
            },
            PlayerCard::InterruptPlayerCard(c) => {
                if other is None {
                    crate::interrupt_manager::lemma_push_ok(v.stacks, c, u, v.table.players);
                    let pushed = spec_push(v.stacks, c, u);
                    assert(interrupt_wf(pushed, v.table));
                    lemma_increment(pushed, v.table, false);
                    if let Ok(x) = spec_increment(pushed, v.table, false) {
                        let v1 = after_step(v, x);
                        lemma_same_seats(v.table.players, v1.table.players);
                        lemma_settle(v1, x.0);
                    }
                }
            },
        }
    }
}

/// Playing a card from the hand keeps a consistent game consistent.
pub proof fn lemma_play_card_wf(v: GameLogicView, u: PlayerUUID, other: Option<PlayerUUID>, idx: int)
    requires
        game_wf(v),
        idx >= 0,
    ensures
        game_wf(spec_play_card(v, u, other, idx).1),
{
    broadcast use vstd::seq_lib::group_to_multiset_ensures;

    if seated(v.table.players, u) {
        let p = seat(v.table.players, u);
        if idx < p.hand.len() && idx >= 0 {
            crate::player_manager::lemma_uuid_index(v.table.players, u);
            assert(holds_ok(p));
            let card = p.hand[idx];
            let p1 = PlayerView { hand: p.hand.remove(idx), ..p };
            assert(p.cards().count(card) > 0);
            assert(holds_ok(p1)) by {
                assert forall|c: PlayerCard| #[trigger] p1.cards().count(c) > 0 implies card_ok(c) by {
                    assert(p.cards().count(c) > 0);
                }
            }
            lemma_set_player_wf(v, u, p1);
            let v1 = with_players(v, seat_set(v.table.players, u, p1));
            crate::player_manager::lemma_seat_set_index(v.table.players, u, p1);
            lemma_process_card_wf(v1, card, u, other);
            let (res, v2) = spec_process_card(v1, card, u, other);
            let q = seat(v2.table.players, u);
            if seated(v2.table.players, u) {
                crate::player_manager::lemma_uuid_index(v2.table.players, u);
                assert(holds_ok(q));
                match res {
                    Ok(Some(c)) => {
                        let q2 = pv_discard(q, c);
                        assert(holds_ok(q2)) by {
                            assert forall|x: PlayerCard| #[trigger] q2.cards().count(x) > 0 implies card_ok(
                                x,
                            ) by {
                                if x != c {
                                    assert(q.cards().count(x) > 0);
                                }
                            }
                        }
                        lemma_set_player_wf(v2, u, q2);
                    },
                    Err((c, m)) => {
                        let j = if idx > q.hand.len() {
                            q.hand.len() as int
                        } else {
                            idx
                        };
                        let q2 = PlayerView { hand: q.hand.insert(j, c), ..q };
                        assert(holds_ok(q2)) by {
                            assert forall|x: PlayerCard| #[trigger] q2.cards().count(x) > 0 implies card_ok(
                                x,
                            ) by {
                                if x != c {
                                    assert(q.cards().count(x) > 0);
                                }
                            }
                        }
                        lemma_set_player_wf(v2, u, q2);
                    },
                    Ok(None) => {},
                }
            }
        }
    }
}

/// Taking cards out of the hand onto the discard pile keeps the cards the
/// player holds.
pub proof fn lemma_discard_at_cards(p: PlayerView, desc: Seq<usize>)
    ensures
        discard_at(p, desc).0.cards() == p.cards(),
        discard_at(p, desc).0.drink_me_pile == p.drink_me_pile,
    decreases desc.len(),
{
    broadcast use vstd::seq_lib::group_to_multiset_ensures;

    if desc.len() > 0 && desc[0] < p.hand.len() {
        let i = desc[0] as int;
        let p1 = PlayerView {
            hand: p.hand.remove(i),
            discard_pile: p.discard_pile.push(p.hand[i]),
            ..p
        };
        assert(p1.cards() =~= p.cards());
        lemma_discard_at_cards(p1, desc.drop_first());
    }
}

/// Discarding and drawing keeps a consistent game consistent.
pub proof fn lemma_discard_and_draw_wf(
    v: GameLogicView,
    u: PlayerUUID,
    indices: Seq<usize>,
    drawn: PlayerView,
)
    requires
        game_wf(v),
        spec_discard_and_draw(v, u, indices, drawn).0 is Ok ==> drew_to_full(
            discard_at(seat(v.table.players, u), sort_desc(indices)).0,
            drawn,
        ),
    ensures
        game_wf(spec_discard_and_draw(v, u, indices, drawn).1),
{
    if v.table.turn.player_turn == u && v.table.turn.turn_phase == TurnPhase::DiscardAndDraw
        && seated(v.table.players, u) && !has_dup(indices) {
        let p = seat(v.table.players, u);
        crate::player_manager::lemma_uuid_index(v.table.players, u);
        assert(holds_ok(p));
        let (mid, ok) = discard_at(p, sort_desc(indices));
        lemma_discard_at_cards(p, sort_desc(indices));
        assert(holds_ok(mid));
        if !ok {
            lemma_set_player_wf(v, u, mid);
        } else {
            assert(holds_ok(drawn));
            lemma_set_player_wf(v, u, drawn);
        }
    }
}

/// The next player found is seated.
pub proof fn lemma_next_alive_seated(players: Seq<(PlayerUUID, PlayerView)>, u: PlayerUUID)
    ensures
        spec_next_alive(players, u) matches NextPlayerUUIDOption::Next(n) ==> seated(players, n),
{
    let c = uuid_index(players, u);
    if c >= 0 {
        lemma_next_alive_from_range(players, c, 1);
        if let Some(i) = crate::player_manager::next_alive_from(players, c, 1) {
            let n = players[i].0;
            lemma_uuid_index(players, n);
        }
    }
}

/// The position found is a seat.
pub proof fn lemma_next_alive_from_range(players: Seq<(PlayerUUID, PlayerView)>, c: int, k: nat)
    ensures
        crate::player_manager::next_alive_from(players, c, k) matches Some(i) ==> 0 <= i
            < players.len(),
    decreases (if players.len() > 1 {
        players.len() - 1
    } else {
        1
    }) + 1 - k,
{
    let limit: int = if players.len() > 1 {
        players.len() - 1
    } else {
        1
    };
    if !(k > limit || players.len() == 0) {
        if players[(c + k) % (players.len() as int)].1.is_out() {
            lemma_next_alive_from_range(players, c, k + 1);
        }
    }
}

/// Ordering a drink keeps a consistent game consistent, whatever was
/// drawn.
pub proof fn lemma_order_wf(v: GameLogicView, u: PlayerUUID, other: PlayerUUID, drawn: Option<DrinkCard>)
    requires
        game_wf(v),
        v.table.turn.turn_phase == TurnPhase::OrderDrinks,
    ensures
        game_wf(spec_order_after_draw(v, u, other, drawn).1),
{
    if !(drawn is Some && !seated(v.table.players, other)) {
        let v1 = match drawn {
            Some(c) => {
                let q = seat(v.table.players, other);
                let q2 = PlayerView { drink_me_pile: q.drink_me_pile.push(c), ..q };
                crate::player_manager::lemma_uuid_index(v.table.players, other);
                assert(holds_ok(q));
                lemma_set_player_wf(v, other, q2);
                with_players(v, seat_set(v.table.players, other, q2))
            },
            None => v,
        };
        let v2 = with_table(
            v1,
            Table {
                turn: TurnInfo {
                    drinks_to_order: (v1.table.turn.drinks_to_order - 1) as i32,
                    ..v1.table.turn
                },
                ..v1.table
            },
        );
        assert(game_wf(v2));
        if v2.table.turn.drinks_to_order == 0 && seated(v2.table.players, u) {
            let p = seat(v2.table.players, u);
            crate::player_manager::lemma_uuid_index(v2.table.players, u);
            assert(holds_ok(p));
            assert(pv_drink(p).cards() == p.cards());
            lemma_set_player_wf(v2, u, pv_drink(p));
            let (drinks, ignored, _) = drink_outcome(p.drink_me_pile);
            let v3 = GameLogicView {
                table: Table { players: seat_set(v2.table.players, u, pv_drink(p)), ..v2.table },
                drink_discard: v2.drink_discard + discardable_cards(drinks, ignored),
                ..v2
            };
            assert(game_wf(v3));
            lemma_next_alive_seated(v3.table.players, v3.table.turn.player_turn);
        }
    }
}

/// Every element of `s` is above every later one.
pub open spec fn strictly_desc(s: Seq<usize>) -> bool {
    forall|i: int, j: int| 0 <= i < j < s.len() ==> s[i] > s[j]
}

/// No element of `s` is below a later one.
pub open spec fn non_increasing(s: Seq<usize>) -> bool {
    forall|i: int, j: int| 0 <= i < j < s.len() ==> s[i] >= s[j]
}

/// `insert_desc` adds `x` to the elements, keeps the order, and keeps it
/// strict when `x` is new.
pub proof fn lemma_insert_desc_props(s: Seq<usize>, x: usize)
    requires
        non_increasing(s),
    ensures
        insert_desc(s, x).len() == s.len() + 1,
        forall|y: usize|
            #![trigger insert_desc(s, x).contains(y)]
            #![trigger s.contains(y)]
            insert_desc(s, x).contains(y) <==> (s.contains(y) || y == x),
        non_increasing(insert_desc(s, x)),
        strictly_desc(s) && !s.contains(x) ==> strictly_desc(insert_desc(s, x)),
    decreases s.len(),
{
    let r = insert_desc(s, x);
    if s.len() == 0 {
        assert(r =~= seq![x]);
        assert forall|y: usize| r.contains(y) <==> (s.contains(y) || y == x) by {
            if r.contains(y) {
                let k = choose|k: int| 0 <= k < r.len() && r[k] == y;
                assert(k == 0);
            }
            if y == x {
                assert(r[0] == y);
            }
        }
    } else if x >= s[0] {
        assert(r =~= seq![x] + s);
        assert forall|y: usize| r.contains(y) <==> (s.contains(y) || y == x) by {
            if r.contains(y) {
                let k = choose|k: int| 0 <= k < r.len() && r[k] == y;
                if k > 0 {
                    assert(s[k - 1] == y);
                }
            }
            if s.contains(y) {
                let k = choose|k: int| 0 <= k < s.len() && s[k] == y;
                assert(r[k + 1] == y);
            }
            if y == x {
                assert(r[0] == y);
            }
        }
        if strictly_desc(s) && !s.contains(x) {
            assert(s[0] != x) by {
                assert(s.contains(s[0]));
            }
        }
    } else {
        let rest = s.drop_first();
        let t = insert_desc(rest, x);
        lemma_insert_desc_props(rest, x);
        assert(r =~= seq![s[0]] + t);
        assert forall|y: usize| rest.contains(y) implies y <= s[0] by {
            let k = choose|k: int| 0 <= k < rest.len() && rest[k] == y;
            assert(s[k + 1] == y);
        }
        assert forall|y: usize| r.contains(y) <==> (s.contains(y) || y == x) by {
            if r.contains(y) {
                let k = choose|k: int| 0 <= k < r.len() && r[k] == y;
                if k > 0 {
                    assert(t[k - 1] == y);
                    assert(t.contains(y));
                    if rest.contains(y) {
                        let m = choose|m: int| 0 <= m < rest.len() && rest[m] == y;
                        assert(s[m + 1] == y);
                    }
                } else {
                    assert(s[0] == y);
                }
            }
            if s.contains(y) {
                let k = choose|k: int| 0 <= k < s.len() && s[k] == y;
                if k > 0 {
                    assert(rest[k - 1] == y);
                    assert(rest.contains(y));
                    let m = choose|m: int| 0 <= m < t.len() && t[m] == y;
                    assert(r[m + 1] == y);
                } else {
                    assert(r[0] == y);
                }
            }
            if y == x {
                assert(t.contains(x));
                let m = choose|m: int| 0 <= m < t.len() && t[m] == x;
                assert(r[m + 1] == y);
            }
        }
        assert forall|i: int, j: int| 0 <= i < j < r.len() implies r[i] >= r[j] by {
            if i > 0 {
                assert(r[i] == t[i - 1] && r[j] == t[j - 1]);
            } else {
                assert(r[j] == t[j - 1]);
                assert(t.contains(t[j - 1]));
                if rest.contains(t[j - 1]) {
                    assert(t[j - 1] <= s[0]);
                }
            }
        }
        if strictly_desc(s) && !s.contains(x) {
            assert forall|y: usize| rest.contains(y) implies y < s[0] by {
                let k = choose|k: int| 0 <= k < rest.len() && rest[k] == y;
                assert(s[k + 1] == y);
            }
            assert(!rest.contains(x)) by {
                if rest.contains(x) {
                    let k = choose|k: int| 0 <= k < rest.len() && rest[k] == x;
                    assert(s[k + 1] == x);
                }
            }
            assert forall|i: int, j: int| 0 <= i < j < r.len() implies r[i] > r[j] by {
                if i > 0 {
                    assert(r[i] == t[i - 1] && r[j] == t[j - 1]);
                } else {
                    assert(r[j] == t[j - 1]);
                    assert(t.contains(t[j - 1]));
                }
            }
        }
    }
}

/// Sorting from the largest down keeps the positions, orders them, and,
/// with no position twice, orders them strictly.
pub proof fn lemma_sort_desc_props(s: Seq<usize>)
    ensures
        sort_desc(s).len() == s.len(),
        forall|y: usize|
            #![trigger sort_desc(s).contains(y)]
            #![trigger s.contains(y)]
            sort_desc(s).contains(y) <==> s.contains(y),
        non_increasing(sort_desc(s)),
        !has_dup(s) ==> strictly_desc(sort_desc(s)),
    decreases s.len(),
{
    if s.len() > 0 {
        let init = s.drop_last();
        lemma_sort_desc_props(init);
        lemma_insert_desc_props(sort_desc(init), s.last());
        assert forall|y: usize| s.contains(y) <==> (init.contains(y) || y == s.last()) by {
            if s.contains(y) {
                let k = choose|k: int| 0 <= k < s.len() && s[k] == y;
                if k < s.len() - 1 {
                    assert(init[k] == y);
                }
            }
            if init.contains(y) {
                let k = choose|k: int| 0 <= k < init.len() && init[k] == y;
                assert(s[k] == y);
            }
            if y == s.last() {
                assert(s[s.len() - 1] == y);
            }
        }
        if !has_dup(s) {
            assert(!has_dup(init)) by {
                if has_dup(init) {
                    let (i, j) = choose|i: int, j: int| 0 <= i < j < init.len() && init[i] == init[j];
                    assert(s[i] == s[j]);
                }
            }
            assert(!init.contains(s.last())) by {
                if init.contains(s.last()) {
                    let k = choose|k: int| 0 <= k < init.len() && init[k] == s.last();
                    assert(s[k] == s[s.len() - 1]);
                }
            }
        }
    } else {
        assert(sort_desc(s) =~= s);
    }
}

/// Taking out cards at strictly decreasing positions succeeds exactly when
/// the first position holds a card, and a failure takes nothing out.
pub proof fn lemma_discard_at_strict(p: PlayerView, desc: Seq<usize>)
    requires
        strictly_desc(desc),
    ensures
        discard_at(p, desc).1 == (desc.len() == 0 || desc[0] < p.hand.len()),
        !discard_at(p, desc).1 ==> discard_at(p, desc).0 == p,
    decreases desc.len(),
{
    if desc.len() > 0 && desc[0] < p.hand.len() {
        let q = PlayerView {
            hand: p.hand.remove(desc[0] as int),
            discard_pile: p.discard_pile.push(p.hand[desc[0] as int]),
            ..p
        };
        let rest = desc.drop_first();
        assert forall|i: int, j: int| 0 <= i < j < rest.len() implies rest[i] > rest[j] by {
            assert(rest[i] == desc[i + 1] && rest[j] == desc[j + 1]);
        }
        lemma_discard_at_strict(q, rest);
        if rest.len() > 0 {
            assert(rest[0] == desc[1]);
        }
    }
}

/// A refused discard changes nothing: each error, in its turn, leaves the
/// game as it was. When the player whose turn it is discards in the discard
/// phase with no position twice, the discard is refused exactly when some
/// position is beyond the hand.
pub proof fn law_refused_discard_changes_nothing(
    v: GameLogicView,
    u: PlayerUUID,
    indices: Seq<usize>,
    drawn: PlayerView,
)
    ensures
        spec_discard_and_draw(v, u, indices, drawn).0 is Err ==> spec_discard_and_draw(
            v,
            u,
            indices,
            drawn,
        ).1 == v,
        v.table.turn.player_turn == u && v.table.turn.turn_phase == TurnPhase::DiscardAndDraw
            && seated(v.table.players, u) && !has_dup(indices) ==> (spec_discard_and_draw(
            v,
            u,
            indices,
            drawn,
        ).0 is Err <==> exists|k: int|
            0 <= k < indices.len() && indices[k] >= seat(v.table.players, u).hand.len()),
{
    if v.table.turn.player_turn == u && v.table.turn.turn_phase == TurnPhase::DiscardAndDraw
        && seated(v.table.players, u) && !has_dup(indices) {
        let p = seat(v.table.players, u);
        let desc = sort_desc(indices);
        lemma_sort_desc_props(indices);
        lemma_discard_at_strict(p, desc);
        lemma_uuid_index(v.table.players, u);
        if !discard_at(p, desc).1 {
            assert(desc.len() > 0);
            assert(seat_set(v.table.players, u, p) =~= v.table.players);
            assert(desc.contains(desc[0]));
            let k = choose|k: int| 0 <= k < indices.len() && indices[k] == desc[0];
            assert(indices[k] >= p.hand.len());
        } else {
            assert forall|k: int| 0 <= k < indices.len() implies indices[k] < p.hand.len() by {
                assert(indices.contains(indices[k]));
                let j = choose|j: int| 0 <= j < desc.len() && desc[j] == indices[k];
                if j > 0 {
                    assert(desc[0] > desc[j]);
                }
            }
        }
    }
}

/// A play refused before the card acts leaves the game as it was: by a
/// player not in the game, for a position beyond the hand, or of a card
/// that cannot be played at this time; the card stays where it was in the
/// hand.
pub proof fn law_refused_play_changes_nothing(
    v: GameLogicView,
    u: PlayerUUID,
    other: Option<PlayerUUID>,
    idx: int,
)
    requires
        0 <= idx,
    ensures
        !seated(v.table.players, u) ==> spec_play_card(v, u, other, idx) == (
            Err::<(), Seq<char>>(crate::game_logic::no_player_message(u)),
            v,
        ),
        seated(v.table.players, u) && idx >= seat(v.table.players, u).hand.len()
            ==> spec_play_card(v, u, other, idx) == (Err::<(), Seq<char>>("Card does not exist"@), v),
        seated(v.table.players, u) && idx < seat(v.table.players, u).hand.len() && !card_can_play(
            seat(v.table.players, u).hand[idx],
            u,
            v.table.gambling,
            v.stacks,
            v.table.turn,
        ) ==> spec_play_card(v, u, other, idx) == (
            Err::<(), Seq<char>>("Card cannot be played at this time"@),
            v,
        ),
{
    let players = v.table.players;
    if seated(players, u) {
        let p = seat(players, u);
        if idx < p.hand.len() {
            let card = p.hand[idx];
            if !card_can_play(card, u, v.table.gambling, v.stacks, v.table.turn) {
                let x = PlayerView { hand: p.hand.remove(idx), ..p };
                let v1 = with_players(v, seat_set(players, u, x));
                lemma_uuid_index(players, u);
                crate::player_manager::lemma_seat_set_index(players, u, x);
                let players1 = seat_set(players, u, x);
                assert(seat(players1, u) == x);
                let q = seat(v1.table.players, u);
                assert(q.hand.insert(idx, card) =~= p.hand);
                let y = PlayerView { hand: q.hand.insert(idx, card), ..q };
                assert(y == p);
                assert(seat_set(players1, u, y) =~= players);
            }
        }
    }
}

/// Whether position `j` is one of `idx`.
pub open spec fn in_idx(idx: Seq<usize>, j: int) -> bool {
    exists|k: int| 0 <= k < idx.len() && idx[k] as int == j
}

/// The cards of `h` whose positions are not among `idx`, in their order.
pub open spec fn kept_cards(h: Seq<PlayerCard>, idx: Seq<usize>) -> Seq<PlayerCard>
    decreases h.len(),
{
    if h.len() == 0 {
        Seq::empty()
    } else if in_idx(idx, h.len() - 1) {
        kept_cards(h.drop_last(), idx)
    } else {
        kept_cards(h.drop_last(), idx).push(h.last())
    }
}

/// The cards of `h` at the positions `idx`, in the order of `idx`.
pub open spec fn cards_at(h: Seq<PlayerCard>, idx: Seq<usize>) -> Seq<PlayerCard> {
    Seq::new(idx.len(), |i: int| h[idx[i] as int])
}

/// Which cards are kept depends only on which positions of the hand are
/// named.
pub proof fn lemma_kept_same_positions(h: Seq<PlayerCard>, a: Seq<usize>, b: Seq<usize>)
    requires
        forall|j: int| 0 <= j < h.len() ==> (in_idx(a, j) <==> in_idx(b, j)),
    ensures
        kept_cards(h, a) == kept_cards(h, b),
    decreases h.len(),
{
    if h.len() > 0 {
        lemma_kept_same_positions(h.drop_last(), a, b);
        assert(in_idx(a, h.len() - 1) <==> in_idx(b, h.len() - 1));
    }
}

/// With no position of the hand named, every card is kept.
pub proof fn lemma_kept_all(h: Seq<PlayerCard>, idx: Seq<usize>)
    requires
        forall|j: int| 0 <= j < h.len() ==> !in_idx(idx, j),
    ensures
        kept_cards(h, idx) == h,
    decreases h.len(),
{
    if h.len() > 0 {
        lemma_kept_all(h.drop_last(), idx);
        assert(!in_idx(idx, h.len() - 1));
        assert(h.drop_last().push(h.last()) =~= h);
    }
}

/// Taking out the card at `d`, beyond every position of `idx`, keeps what
/// naming `d` among the positions would keep.
pub proof fn lemma_kept_remove(h: Seq<PlayerCard>, d: usize, idx: Seq<usize>)
    requires
        d < h.len(),
        forall|k: int| 0 <= k < idx.len() ==> idx[k] < d,
    ensures
        kept_cards(h.remove(d as int), idx) == kept_cards(h, idx.push(d)),
    decreases h.len(),
{
    let idx2 = idx.push(d);
    assert forall|j: int| #[trigger] in_idx(idx2, j) <==> (in_idx(idx, j) || j == d) by {
        if in_idx(idx2, j) {
            let k = choose|k: int| 0 <= k < idx2.len() && idx2[k] as int == j;
            if k < idx.len() {
                assert(idx[k] == idx2[k]);
            }
        }
        if in_idx(idx, j) {
            let k = choose|k: int| 0 <= k < idx.len() && idx[k] as int == j;
            assert(idx2[k] == idx[k]);
        }
        if j == d {
            assert(idx2[idx.len() as int] as int == j);
        }
    }
    assert forall|j: int| j >= d implies !#[trigger] in_idx(idx, j) by {
        if in_idx(idx, j) {
            let k = choose|k: int| 0 <= k < idx.len() && idx[k] as int == j;
        }
    }
    if d == h.len() - 1 {
        assert(h.remove(d as int) =~= h.drop_last());
        assert(in_idx(idx2, h.len() - 1));
        lemma_kept_same_positions(h.drop_last(), idx, idx2);
    } else {
        let t = h.drop_last();
        lemma_kept_remove(t, d, idx);
        let hr = h.remove(d as int);
        assert(hr.drop_last() =~= t.remove(d as int));
        assert(hr.last() == h.last());
        assert(!in_idx(idx, hr.len() - 1));
        assert(!in_idx(idx2, h.len() - 1));
    }
}

/// Taking out the cards at strictly decreasing positions, all in the hand,
/// keeps the other cards in their order and puts the taken ones on the
/// discard pile in the order they were taken.
pub proof fn lemma_discard_at_kept(p: PlayerView, desc: Seq<usize>)
    requires
        strictly_desc(desc),
        desc.len() == 0 || desc[0] < p.hand.len(),
    ensures
        discard_at(p, desc).0 == (PlayerView {
            hand: kept_cards(p.hand, desc),
            discard_pile: p.discard_pile + cards_at(p.hand, desc),
            ..p
        }),
    decreases desc.len(),
{
    if desc.len() == 0 {
        lemma_kept_all(p.hand, desc);
        assert(p.discard_pile + cards_at(p.hand, desc) =~= p.discard_pile);
    } else {
        let d = desc[0];
        let q = PlayerView {
            hand: p.hand.remove(d as int),
            discard_pile: p.discard_pile.push(p.hand[d as int]),
            ..p
        };
        let rest = desc.drop_first();
        assert forall|i: int, j: int| 0 <= i < j < rest.len() implies rest[i] > rest[j] by {
            assert(rest[i] == desc[i + 1] && rest[j] == desc[j + 1]);
        }
        assert forall|k: int| 0 <= k < rest.len() implies rest[k] < d by {
            assert(rest[k] == desc[k + 1]);
        }
        if rest.len() > 0 {
            assert(rest[0] == desc[1]);
        }
        lemma_discard_at_kept(q, rest);
        lemma_kept_remove(p.hand, d, rest);
        let r2 = rest.push(d);
        assert forall|j: int| 0 <= j < p.hand.len() implies (in_idx(r2, j) <==> in_idx(desc, j)) by {
            if in_idx(r2, j) {
                let k = choose|k: int| 0 <= k < r2.len() && r2[k] as int == j;
                if k < rest.len() {
                    assert(desc[k + 1] == r2[k]);
                } else {
                    assert(desc[0] == r2[k]);
                }
            }
            if in_idx(desc, j) {
                let k = choose|k: int| 0 <= k < desc.len() && desc[k] as int == j;
                if k > 0 {
                    assert(r2[k - 1] == desc[k]);
                } else {
                    assert(r2[rest.len() as int] == desc[0]);
                }
            }
        }
        lemma_kept_same_positions(p.hand, r2, desc);
        assert(cards_at(q.hand, rest) =~= cards_at(p.hand, desc).drop_first()) by {
            assert forall|i: int| 0 <= i < rest.len() implies cards_at(q.hand, rest)[i]
                == cards_at(p.hand, desc).drop_first()[i] by {
                assert(rest[i] == desc[i + 1]);
                assert(rest[i] < d);
            }
        }
        assert(q.discard_pile + cards_at(q.hand, rest) =~= p.discard_pile + cards_at(p.hand, desc));
    }
}

/// A discard that goes through keeps in the hand the cards at the other
/// positions, in their order, puts the discarded cards on the discard pile
/// (the one from the largest position first), and then fills the hand
/// back to a full hand (or keeps it if larger), the kept cards first.
pub proof fn law_discard_keeps_the_rest_in_order(
    p: PlayerView,
    indices: Seq<usize>,
    drawn: PlayerView,
)
    requires
        !has_dup(indices),
        forall|k: int| 0 <= k < indices.len() ==> indices[k] < p.hand.len(),
        drew_to_full(discard_at(p, sort_desc(indices)).0, drawn),
    ensures
        ({
            let kept = kept_cards(p.hand, indices);
            let mid = discard_at(p, sort_desc(indices)).0;
            &&& discard_at(p, sort_desc(indices)).1
            &&& mid.hand == kept
            &&& mid.discard_pile == p.discard_pile + cards_at(p.hand, sort_desc(indices))
            &&& drawn.hand.len() == if kept.len() >= crate::player::full_hand() {
                kept.len()
            } else {
                crate::player::full_hand()
            }
            &&& drawn.hand.subrange(0, kept.len() as int) == kept
        }),
{
    let desc = sort_desc(indices);
    lemma_sort_desc_props(indices);
    if desc.len() > 0 {
        assert(desc.contains(desc[0]));
        let k = choose|k: int| 0 <= k < indices.len() && indices[k] == desc[0];
    }
    lemma_discard_at_strict(p, desc);
    lemma_discard_at_kept(p, desc);
    assert forall|j: int| 0 <= j < p.hand.len() implies (in_idx(indices, j) <==> in_idx(desc, j)) by {
        if in_idx(indices, j) {
            let k = choose|k: int| 0 <= k < indices.len() && indices[k] as int == j;
            assert(indices.contains(indices[k]));
            let m = choose|m: int| 0 <= m < desc.len() && desc[m] == indices[k];
        }
        if in_idx(desc, j) {
            let k = choose|k: int| 0 <= k < desc.len() && desc[k] as int == j;
            assert(desc.contains(desc[k]));
            let m = choose|m: int| 0 <= m < indices.len() && indices[m] == desc[k];
        }
    }
    lemma_kept_same_positions(p.hand, desc, indices);
}

/// Replacing one seated player by one with the same hand leaves every
/// seated player's hand, and every player's position, as it was.
pub proof fn lemma_seat_set_keeps_hands(
    players: Seq<(PlayerUUID, PlayerView)>,
    w: PlayerUUID,
    p: PlayerView,
)
    requires
        seated(players, w) ==> p.hand == seat(players, w).hand,
    ensures
        forall|x: PlayerUUID| #[trigger] uuid_index(seat_set(players, w, p), x) == uuid_index(players, x),
        forall|x: PlayerUUID|
            seated(players, x) ==> #[trigger] seat(seat_set(players, w, p), x).hand == seat(players, x).hand,
{
    crate::player_manager::lemma_seat_set_index(players, w, p);
    lemma_uuid_index(players, w);
    assert forall|x: PlayerUUID|
        seated(players, x) implies #[trigger] seat(seat_set(players, w, p), x).hand == seat(players, x).hand by {
        lemma_uuid_index(players, x);
    }
}

/// What a root card does before any interrupt leaves every hand, and every
/// player's position, as it was.
pub proof fn lemma_pre_interrupt_keeps_hands(card: RootPlayerCard, u: PlayerUUID, s: Table)
    ensures
        forall|x: PlayerUUID|
            #[trigger] uuid_index(spec_pre_interrupt_play(card, u, s).1.players, x) == uuid_index(
                s.players,
                x,
            ),
        forall|x: PlayerUUID|
            seated(s.players, x) ==> #[trigger] seat(spec_pre_interrupt_play(card, u, s).1.players, x).hand
                == seat(s.players, x).hand,
{
    let players = s.players;
    match card.effect {
        RootCardEffect::GamblingImIn => {
            if s.gambling is None {
                lemma_seat_set_keeps_hands(
                    players,
                    u,
                    crate::player::pv_change_gold(seat(players, u), -1),
                );
            }
        },
        RootCardEffect::GainFortitudeAnytime(a) => {
            lemma_seat_set_keeps_hands(
                players,
                u,
                crate::player::pv_change_fortitude(seat(players, u), a as int),
            );
        },
        RootCardEffect::WenchBringSomeDrinks => {
            lemma_seat_set_keeps_hands(
                players,
                u,
                crate::player::pv_change_gold(seat(players, u), -1),
            );
        },
        _ => {},
    }
}

/// A card refused by `spec_process_card` is handed back as it was, and no
/// hand, and no player's position, has changed.
pub proof fn lemma_refused_process_keeps_hands(
    v: GameLogicView,
    card: PlayerCard,
    u: PlayerUUID,
    other: Option<PlayerUUID>,
)
    ensures
        ({
            let (res, v2) = spec_process_card(v, card, u, other);
            res matches Err((c, _)) ==> {
                &&& c == card
                &&& forall|x: PlayerUUID| #[trigger] uuid_index(v2.table.players, x) == uuid_index(
                    v.table.players,
                    x,
                )
                &&& forall|x: PlayerUUID|
                    seated(v.table.players, x) ==> #[trigger] seat(v2.table.players, x).hand == seat(
                        v.table.players,
                        x,
                    ).hand
            }
        }),
{
    match card {
        PlayerCard::RootPlayerCard(r) => {
            lemma_pre_interrupt_keeps_hands(r, u, v.table);
        },
        PlayerCard::InterruptPlayerCard(_) => {},
    }
}

/// A play by a seated player of a card in their hand leaves their hand,
/// when refused, as it was (the card goes back to its place) and, when it
/// goes through, as it was without that card.
pub proof fn law_played_card_leaves_the_hand(
    v: GameLogicView,
    u: PlayerUUID,
    other: Option<PlayerUUID>,
    idx: int,
)
    requires
        0 <= idx,
        seated(v.table.players, u),
        idx < seat(v.table.players, u).hand.len(),
    ensures
        spec_play_card(v, u, other, idx).0 is Err ==> seat(
            spec_play_card(v, u, other, idx).1.table.players,
            u,
        ).hand == seat(v.table.players, u).hand,
        spec_play_card(v, u, other, idx).0 is Ok ==> seat(
            spec_play_card(v, u, other, idx).1.table.players,
            u,
        ).hand == seat(v.table.players, u).hand.remove(idx),
{
    let players = v.table.players;
    let p = seat(players, u);
    let card = p.hand[idx];
    let x = PlayerView { hand: p.hand.remove(idx), ..p };
    let v1 = with_players(v, seat_set(players, u, x));
    lemma_uuid_index(players, u);
    crate::player_manager::lemma_seat_set_index(players, u, x);
    let p1 = v1.table.players;
    assert(seat(p1, u) == x);
    let (res, v2) = spec_process_card(v1, card, u, other);
    lemma_refused_process_keeps_hands(v1, card, u, other);
    lemma_process_card_keeps_hands(v1, card, u, other);
    assert(seated(p1, u));
    let p2 = v2.table.players;
    let q = seat(p2, u);
    assert(q.hand == x.hand);
    assert(seated(p2, u));
    lemma_uuid_index(p2, u);
    match res {
        Err((c, _)) => {
            assert(q.hand.insert(idx, c) =~= p.hand);
            let y = PlayerView { hand: q.hand.insert(idx, c), ..q };
            crate::player_manager::lemma_seat_set_index(p2, u, y);
            assert(seat(seat_set(p2, u, y), u) == y);
        },
        Ok(Some(c)) => {
            crate::player_manager::lemma_seat_set_index(p2, u, pv_discard(q, c));
            assert(seat(seat_set(p2, u, pv_discard(q, c)), u) == pv_discard(q, c));
        },
        Ok(None) => {},
    }
}

/// `b` seats the players of `a` where they were, each holding the hand
/// they held in `a`.
pub open spec fn hands_kept(a: Seq<(PlayerUUID, PlayerView)>, b: Seq<(PlayerUUID, PlayerView)>) -> bool {
    &&& forall|x: PlayerUUID| #[trigger] uuid_index(b, x) == uuid_index(a, x)
    &&& forall|x: PlayerUUID| seated(a, x) ==> #[trigger] seat(b, x).hand == seat(a, x).hand
}

/// Keeping hands is transitive.
pub proof fn lemma_hands_kept_trans(
    a: Seq<(PlayerUUID, PlayerView)>,
    b: Seq<(PlayerUUID, PlayerView)>,
    c: Seq<(PlayerUUID, PlayerView)>,
)
    requires
        hands_kept(a, b),
        hands_kept(b, c),
    ensures
        hands_kept(a, c),
{
    assert forall|x: PlayerUUID| seated(a, x) implies #[trigger] seat(c, x).hand == seat(a, x).hand by {
        assert(uuid_index(b, x) == uuid_index(a, x));
        assert(seat(b, x).hand == seat(a, x).hand);
    }
}

/// A card's effect on its target keeps every hand.
pub proof fn lemma_interrupt_play_keeps_hands(
    card: RootPlayerCard,
    t: PlayerUUID,
    players: Seq<(PlayerUUID, PlayerView)>,
    g: Option<GamblingRoundView>,
)
    ensures
        hands_kept(players, spec_interrupt_play(card, t, players, g).0),
{
    match card.effect {
        RootCardEffect::GamblingImIn | RootCardEffect::IRaise => {
            if g is Some {
                lemma_seat_set_keeps_hands(players, t, crate::player::pv_change_gold(seat(players, t), -1));
            }
        },
        RootCardEffect::ChangeOtherPlayerFortitude(a) | RootCardEffect::ChangeAllOtherPlayerFortitude(
            a,
        ) => {
            lemma_seat_set_keeps_hands(
                players,
                t,
                crate::player::pv_change_fortitude(seat(players, t), a as int),
            );
        },
        _ => {},
    }
}

/// What follows a root card's interrupt keeps every hand.
pub proof fn lemma_post_interrupt_keeps_hands(
    data: RootPlayerCardInterruptData,
    u: PlayerUUID,
    s: Table,
)
    ensures
        hands_kept(s.players, spec_post_interrupt_play(data, u, s).players),
{
    if data.post_interrupt_play == PostInterruptPlay::PassIfOwnersGamblingTurn && g_is_turn(
        s.gambling,
        u,
    ) {
        let r = s.gambling->0;
        if next_turn(r.active, r.current) == r.winner {
            lemma_seat_set_keeps_hands(
                s.players,
                r.winner,
                crate::player::pv_change_gold(seat(s.players, r.winner), r.pot),
            );
        }
    }
}

/// A stack's root acting keeps every hand.
pub proof fn lemma_apply_root_keeps_hands(root: InterruptRoot, ses: SessionView, s: Table)
    ensures
        hands_kept(s.players, apply_root(root, ses, s).players),
{
    match root {
        InterruptRoot::RootPlayerCard(r) => {
            let (p, g) = spec_interrupt_play(r.root_card, ses.target, s.players, s.gambling);
            lemma_interrupt_play_keeps_hands(r.root_card, ses.target, s.players, s.gambling);
            let s1 = Table { players: p, gambling: g, ..s };
            match r.root_card.interrupt_data_or {
                Some(d) => {
                    lemma_post_interrupt_keeps_hands(d, r.root_card_owner_uuid, s1);
                    lemma_hands_kept_trans(
                        s.players,
                        p,
                        spec_post_interrupt_play(d, r.root_card_owner_uuid, s1).players,
                    );
                },
                None => {},
            }
        },
        InterruptRoot::Drink(d) => {
            if seated(s.players, ses.target) {
                lemma_seat_set_keeps_hands(
                    s.players,
                    ses.target,
                    drink_effect(d.drink, seat(s.players, ses.target)),
                );
            }
        },
    }
}

/// Moving an interrupt on keeps every hand.
pub proof fn lemma_increment_keeps_hands(stacks: Seq<StackView>, s: Table, is_passing: bool)
    ensures
        spec_increment(stacks, s, is_passing) matches Ok(x) ==> hands_kept(s.players, x.2.players),
{
    if stacks.len() > 0 {
        let st = stacks[0];
        let ses = st.sessions.last();
        let (cancel, sp, g1) = resolve_cards(ses.cards, current_interrupt(stacks.drop_first()), s.gambling);
        let s1 = Table { gambling: g1, ..s };
        lemma_apply_root_keeps_hands(st.root, ses, s1);
    }
}

/// Cards going back to their owners' discard piles keep every hand.
pub proof fn lemma_discard_all_keeps_hands(
    players: Seq<(PlayerUUID, PlayerView)>,
    cards: Seq<(PlayerUUID, PlayerCard)>,
)
    ensures
        hands_kept(players, discard_all(players, cards)),
    decreases cards.len(),
{
    if cards.len() > 0 {
        let rest = discard_all(players, cards.drop_last());
        lemma_discard_all_keeps_hands(players, cards.drop_last());
        let (u, c) = cards.last();
        lemma_seat_set_keeps_hands(rest, u, pv_discard(seat(rest, u), c));
        lemma_hands_kept_trans(players, rest, discard_all(players, cards));
    }
}

/// Settling after an interrupt step keeps every hand.
pub proof fn lemma_settle_keeps_hands(v: GameLogicView, r: Option<ResolveView>)
    ensures
        settle(v, r) matches Ok(v2) ==> hands_kept(v.table.players, v2.table.players),
        settle(v, r) matches Err((_, v2)) ==> v2 == v,
{
    match r {
        Some(res) => {
            lemma_discard_all_keeps_hands(v.table.players, resolve_player_cards(res));
        },
        None => {},
    }
}

/// A root card acting on each target in turn keeps every hand.
pub proof fn lemma_play_on_all_keeps_hands(
    card: RootPlayerCard,
    targets: Seq<PlayerUUID>,
    players: Seq<(PlayerUUID, PlayerView)>,
    g: Option<GamblingRoundView>,
)
    ensures
        hands_kept(players, play_on_all(card, targets, players, g).0),
    decreases targets.len(),
{
    if targets.len() > 0 {
        let (p1, g1) = play_on_all(card, targets.drop_last(), players, g);
        lemma_play_on_all_keeps_hands(card, targets.drop_last(), players, g);
        lemma_interrupt_play_keeps_hands(card, targets.last(), p1, g1);
        lemma_hands_kept_trans(players, p1, play_on_all(card, targets, players, g).0);
    }
}

/// Playing a card, however it turns out, keeps every hand.
pub proof fn lemma_process_card_keeps_hands(
    v: GameLogicView,
    card: PlayerCard,
    u: PlayerUUID,
    other: Option<PlayerUUID>,
)
    ensures
        hands_kept(v.table.players, spec_process_card(v, card, u, other).1.table.players),
{
    assert(hands_kept(v.table.players, v.table.players));
    match card {
        PlayerCard::RootPlayerCard(r) => {
            let (si, t1) = spec_pre_interrupt_play(r, u, v.table);
            lemma_pre_interrupt_keeps_hands(r, u, v.table);
            assert(hands_kept(v.table.players, t1.players));
            lemma_interrupt_play_keeps_hands(r, other->0, t1.players, t1.gambling);
            lemma_interrupt_play_keeps_hands(r, u, t1.players, t1.gambling);
            lemma_hands_kept_trans(
                v.table.players,
                t1.players,
                spec_interrupt_play(r, other->0, t1.players, t1.gambling).0,
            );
            lemma_hands_kept_trans(
                v.table.players,
                t1.players,
                spec_interrupt_play(r, u, t1.players, t1.gambling).0,
            );
            lemma_play_on_all_keeps_hands(r, other_targets(v.table.players, u), t1.players, t1.gambling);
            lemma_hands_kept_trans(
                v.table.players,
                t1.players,
                play_on_all(r, other_targets(v.table.players, u), t1.players, t1.gambling).0,
            );
            lemma_play_on_all_keeps_hands(
                r,
                gambling_targets(v.table.gambling, u),
                t1.players,
                t1.gambling,
            );
            lemma_hands_kept_trans(
                v.table.players,
                t1.players,
                play_on_all(r, gambling_targets(v.table.gambling, u), t1.players, t1.gambling).0,
            );
        },
        PlayerCard::InterruptPlayerCard(c) => {
            let stacks = spec_push(v.stacks, c, u);
            lemma_increment_keeps_hands(stacks, v.table, false);
            match spec_increment(stacks, v.table, false) {
                Ok(x) => {
                    lemma_settle_keeps_hands(after_step(v, x), x.0);
                    match settle(after_step(v, x), x.0) {
                        Ok(v2) => {
                            lemma_hands_kept_trans(v.table.players, x.2.players, v2.table.players);
                        },
                        Err(_) => {},
                    }
                },
                Err(_) => {},
            }
        },
    }
}

/// A root card acting on a list of targets acts on the first target first
/// and then on the rest, in the order of the list.
pub proof fn lemma_play_on_all_first(
    card: RootPlayerCard,
    targets: Seq<PlayerUUID>,
    players: Seq<(PlayerUUID, PlayerView)>,
    g: Option<GamblingRoundView>,
)
    requires
        targets.len() > 0,
    ensures
        play_on_all(card, targets, players, g) == ({
            let (p1, g1) = spec_interrupt_play(card, targets[0], players, g);
            play_on_all(card, targets.drop_first(), p1, g1)
        }),
    decreases targets.len(),
{
    if targets.len() > 1 {
        let init = targets.drop_last();
        let rest = targets.drop_first();
        lemma_play_on_all_first(card, init, players, g);
        assert(init.drop_first() =~= rest.drop_last());
        assert(init[0] == targets[0]);
        assert(rest.last() == targets.last());
        let (p1, g1) = spec_interrupt_play(card, targets[0], players, g);
        assert(play_on_all(card, rest.drop_last(), p1, g1) == play_on_all(card, init, players, g));
        assert(play_on_all(card, rest, p1, g1) == ({
            let (q, h) = play_on_all(card, rest.drop_last(), p1, g1);
            spec_interrupt_play(card, rest.last(), q, h)
        }));
        assert(play_on_all(card, targets, players, g) == ({
            let (q, h) = play_on_all(card, init, players, g);
            spec_interrupt_play(card, targets.last(), q, h)
        }));
    } else {
        let empty = Seq::<PlayerUUID>::empty();
        assert(targets.drop_last() =~= empty);
        assert(targets.drop_first() =~= empty);
        assert(play_on_all(card, empty, players, g) == (players, g));
        let (p1, g1) = spec_interrupt_play(card, targets[0], players, g);
        assert(play_on_all(card, empty, p1, g1) == (p1, g1));
        assert(targets.last() == targets[0]);
    }
}

/// Playing a root card aimed at a list of players: directed at one player,
/// it is refused with the card handed back and the game as it was (the card
/// does nothing); otherwise a card that takes effect at once, without an
/// interrupt, acts on each target in the order of the list, the first
/// target first, and is handed back to be discarded.
pub proof fn law_card_on_list_plays_targets_in_order(
    v: GameLogicView,
    card: RootPlayerCard,
    u: PlayerUUID,
    other: Option<PlayerUUID>,
    targets: Seq<PlayerUUID>,
)
    ensures
        other is Some ==> spec_play_list(v, card, u, other, targets) == (
            Err::<Option<RootPlayerCard>, (RootPlayerCard, Seq<char>)>(
                (card, "Cannot direct this card at another player"@),
            ),
            v,
        ),
        ({
            let (si, t1) = spec_pre_interrupt_play(card, u, v.table);
            other is None && si == ShouldInterrupt::Yes && card.interrupt_data_or is None ==> {
                let (p, g) = play_on_all(card, targets, t1.players, t1.gambling);
                &&& spec_play_list(v, card, u, other, targets) == (
                    Ok::<Option<RootPlayerCard>, (RootPlayerCard, Seq<char>)>(Some(card)),
                    with_table(with_table(v, t1), Table { players: p, gambling: g, ..t1 }),
                )
                &&& targets.len() > 0 ==> (p, g) == ({
                    let (p1, g1) = spec_interrupt_play(card, targets[0], t1.players, t1.gambling);
                    play_on_all(card, targets.drop_first(), p1, g1)
                })
            }
        }),
{
    let (si, t1) = spec_pre_interrupt_play(card, u, v.table);
    if targets.len() > 0 {
        lemma_play_on_all_first(card, targets, t1.players, t1.gambling);
    }
}

} // verus!
