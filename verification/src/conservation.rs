use crate::consistency::{interrupt_wf, lemma_increment, lemma_same_seats, same_seats};
use crate::game_logic::{
    after_step, action_over, discard_at, discard_spent, game_wf, gambling_targets, holds_ok,
    lemma_set_player_wf, other_targets, settle, sort_desc, spec_discard_and_draw, spec_drink_phase,
    spec_next_turn, spec_order_after_draw, spec_pass, spec_play_card, spec_play_list,
    spec_play_single, spec_process_card, spec_process_root, spec_skip, with_players, with_table,
    GameLogicView, Table,
};
use crate::player::drew_to_full;
use crate::player_card::{
    card_can_play, card_ok, root_can_play, root_card_ok, spec_interrupt_play,
    spec_pre_interrupt_play, ShouldInterrupt, TargetStyle,
};
use crate::gambling_manager::{g_is_turn, g_pass};
use crate::interrupt_manager::current_turn;
use crate::interrupt_manager::{
    as_player_cards, cards_top_first, current_interrupt, drain_cards, multi_stack,
    resolve_cards, resolve_player_cards, root_resolve, single_stack, spec_increment, spec_push,
    spec_resolve, spent, stack_ok, stacks_ok, GameInterruptData, GameInterruptType, InterruptRoot,
    ResolveView, SessionView, StackView,
};
use crate::player_card::{InterruptPlayerCard, RootPlayerCard};
use crate::player::{pv_discard, PlayerView};
use crate::player_card::PlayerCard;
use crate::player_manager::{
    discard_all, lemma_discard_all_index, lemma_seat_set_index, lemma_uuid_index, seat, seat_set,
    seated, uuid_index,
};
use crate::uuid::PlayerUUID;
use vstd::multiset::Multiset;
use vstd::prelude::*;

verus! {

/// The card `c` if its owner `o` is `u`, else nothing.
pub open spec fn owned_one(o: PlayerUUID, c: PlayerCard, u: PlayerUUID) -> Multiset<PlayerCard> {
    if o == u {
        Multiset::singleton(c)
    } else {
        Multiset::empty()
    }
}

/// The interrupt cards of a session that `u` owns.
pub open spec fn session_owned(cards: Seq<GameInterruptData>, u: PlayerUUID) -> Multiset<PlayerCard>
    decreases cards.len(),
{
    if cards.len() == 0 {
        Multiset::empty()
    } else {
        session_owned(cards.drop_last(), u).add(
            owned_one(
                cards.last().card_owner_uuid,
                PlayerCard::InterruptPlayerCard(cards.last().card),
                u,
            ),
        )
    }
}

/// The interrupt cards of the sessions that `u` owns.
pub open spec fn sessions_owned(sessions: Seq<SessionView>, u: PlayerUUID) -> Multiset<PlayerCard>
    decreases sessions.len(),
{
    if sessions.len() == 0 {
        Multiset::empty()
    } else {
        sessions_owned(sessions.drop_last(), u).add(session_owned(sessions.last().cards, u))
    }
}

/// The root card of a stack, if `u` owns it.
pub open spec fn root_owned(root: InterruptRoot, u: PlayerUUID) -> Multiset<PlayerCard> {
    match root {
        InterruptRoot::RootPlayerCard(r) => owned_one(
            r.root_card_owner_uuid,
            PlayerCard::RootPlayerCard(r.root_card),
            u,
        ),
        InterruptRoot::Drink(_) => Multiset::empty(),
    }
}

/// The cards of a stack that `u` owns.
pub open spec fn stack_owned(st: StackView, u: PlayerUUID) -> Multiset<PlayerCard> {
    root_owned(st.root, u).add(sessions_owned(st.sessions, u))
}

/// The cards of the stacks that `u` owns.
pub open spec fn stacks_owned(stacks: Seq<StackView>, u: PlayerUUID) -> Multiset<PlayerCard>
    decreases stacks.len(),
{
    if stacks.len() == 0 {
        Multiset::empty()
    } else {
        stack_owned(stacks[0], u).add(stacks_owned(stacks.drop_first(), u))
    }
}

/// The cards of a list of cards with owners that `u` owns.
pub open spec fn pairs_owned(cs: Seq<(PlayerUUID, PlayerCard)>, u: PlayerUUID) -> Multiset<
    PlayerCard,
>
    decreases cs.len(),
{
    if cs.len() == 0 {
        Multiset::empty()
    } else {
        pairs_owned(cs.drop_last(), u).add(owned_one(cs.last().0, cs.last().1, u))
    }
}

/// The cards `u` holds: hand, draw pile and discard pile (nothing when not
/// seated).
pub open spec fn held(players: Seq<(PlayerUUID, PlayerView)>, u: PlayerUUID) -> Multiset<PlayerCard> {
    if seated(players, u) {
        seat(players, u).cards()
    } else {
        Multiset::empty()
    }
}

/// Owned cards of a joined list are those of its parts.
pub proof fn lemma_pairs_owned_concat(
    a: Seq<(PlayerUUID, PlayerCard)>,
    b: Seq<(PlayerUUID, PlayerCard)>,
    u: PlayerUUID,
)
    ensures
        pairs_owned(a + b, u) == pairs_owned(a, u).add(pairs_owned(b, u)),
    decreases b.len(),
{
    if b.len() == 0 {
        assert(a + b =~= a);
        assert(pairs_owned(a, u).add(Multiset::empty()) =~= pairs_owned(a, u));
    } else {
        lemma_pairs_owned_concat(a, b.drop_last(), u);
        assert((a + b).drop_last() =~= a + b.drop_last());
        assert((a + b).last() == b.last());
        assert(pairs_owned(a + b, u) =~= pairs_owned(a, u).add(pairs_owned(b, u)));
    }
}

/// Interrupt cards as player cards, for a joined list.
pub proof fn lemma_as_player_cards_concat(
    a: Seq<(PlayerUUID, crate::player_card::InterruptPlayerCard)>,
    b: Seq<(PlayerUUID, crate::player_card::InterruptPlayerCard)>,
)
    ensures
        as_player_cards(a + b) == as_player_cards(a) + as_player_cards(b),
    decreases b.len(),
{
    if b.len() == 0 {
        assert(a + b =~= a);
        assert(as_player_cards(a) + as_player_cards(b) =~= as_player_cards(a));
    } else {
        lemma_as_player_cards_concat(a, b.drop_last());
        assert((a + b).drop_last() =~= a + b.drop_last());
        assert((a + b).last() == b.last());
        assert(as_player_cards(a + b) =~= as_player_cards(a) + as_player_cards(b));
    }
}

/// The owned cards of interrupt cards given with their owners.
pub open spec fn spent_owned(
    cs: Seq<(PlayerUUID, crate::player_card::InterruptPlayerCard)>,
    u: PlayerUUID,
) -> Multiset<PlayerCard> {
    pairs_owned(as_player_cards(cs), u)
}

/// Owned spent cards of a joined list are those of its parts.
pub proof fn lemma_spent_owned_concat(
    a: Seq<(PlayerUUID, crate::player_card::InterruptPlayerCard)>,
    b: Seq<(PlayerUUID, crate::player_card::InterruptPlayerCard)>,
    u: PlayerUUID,
)
    ensures
        spent_owned(a + b, u) == spent_owned(a, u).add(spent_owned(b, u)),
{
    lemma_as_player_cards_concat(a, b);
    lemma_pairs_owned_concat(as_player_cards(a), as_player_cards(b), u);
}

/// The owned card of one spent card.
pub proof fn lemma_spent_owned_one(d: GameInterruptData, u: PlayerUUID)
    ensures
        spent_owned(seq![spent(d)], u) == owned_one(
            d.card_owner_uuid,
            PlayerCard::InterruptPlayerCard(d.card),
            u,
        ),
{
    let s = seq![spent(d)];
    let e = Seq::<(PlayerUUID, crate::player_card::InterruptPlayerCard)>::empty();
    assert(s.drop_last() =~= e);
    assert(as_player_cards(e) =~= Seq::<(PlayerUUID, PlayerCard)>::empty());
    assert(as_player_cards(s) =~= seq![(d.card_owner_uuid, PlayerCard::InterruptPlayerCard(d.card))]);
    let a = as_player_cards(s);
    assert(a.drop_last() =~= Seq::<(PlayerUUID, PlayerCard)>::empty());
    assert(pairs_owned(a.drop_last(), u) =~= Multiset::<PlayerCard>::empty());
    assert(a.last() == (d.card_owner_uuid, PlayerCard::InterruptPlayerCard(d.card)));
    assert(spent_owned(s, u) =~= owned_one(
        d.card_owner_uuid,
        PlayerCard::InterruptPlayerCard(d.card),
        u,
    ));
}

/// Resolving a session spends every one of its cards.
pub proof fn lemma_resolve_cards_owned(
    cards: Seq<GameInterruptData>,
    cur: Option<crate::interrupt_manager::GameInterruptType>,
    g: Option<crate::gambling_manager::GamblingRoundView>,
    u: PlayerUUID,
)
    ensures
        spent_owned(resolve_cards(cards, cur, g).1, u) == session_owned(cards, u),
    decreases cards.len(),
{
    if cards.len() == 0 {
        assert(as_player_cards(Seq::<(PlayerUUID, crate::player_card::InterruptPlayerCard)>::empty())
            =~= Seq::<(PlayerUUID, PlayerCard)>::empty());
    } else {
        let d = cards.last();
        let rest = cards.drop_last();
        let (r, leaves) = crate::player_card::interrupt_outcome(d.card, cur);
        let g1 = if leaves {
            crate::gambling_manager::g_leave(g, d.card_owner_uuid)
        } else {
            g
        };
        lemma_spent_owned_one(d, u);
        if r != crate::player_card::ShouldCancelPreviousCard::No {
            if rest.len() > 0 {
                let sp = resolve_cards(rest.drop_last(), cur, g1).1;
                lemma_resolve_cards_owned(rest.drop_last(), cur, g1, u);
                lemma_spent_owned_one(rest.last(), u);
                lemma_spent_owned_concat(seq![spent(rest.last())], seq![spent(d)], u);
                assert(seq![spent(rest.last())] + seq![spent(d)] =~= seq![spent(rest.last()), spent(d)]);
                lemma_spent_owned_concat(seq![spent(rest.last()), spent(d)], sp, u);
                assert(session_owned(rest, u) =~= session_owned(rest.drop_last(), u).add(
                    owned_one(
                        rest.last().card_owner_uuid,
                        PlayerCard::InterruptPlayerCard(rest.last().card),
                        u,
                    ),
                ));
                assert(session_owned(cards, u) =~= session_owned(rest.drop_last(), u).add(
                    owned_one(
                        rest.last().card_owner_uuid,
                        PlayerCard::InterruptPlayerCard(rest.last().card),
                        u,
                    ),
                ).add(owned_one(d.card_owner_uuid, PlayerCard::InterruptPlayerCard(d.card), u)));
                assert(spent_owned(resolve_cards(cards, cur, g).1, u) =~= session_owned(cards, u));
            } else {
                assert(session_owned(rest, u) =~= Multiset::<PlayerCard>::empty());
                assert(spent_owned(resolve_cards(cards, cur, g).1, u) =~= session_owned(cards, u));
            }
        } else {
            let sp = resolve_cards(rest, cur, g1).1;
            lemma_resolve_cards_owned(rest, cur, g1, u);
            lemma_spent_owned_concat(seq![spent(d)], sp, u);
            assert(spent_owned(resolve_cards(cards, cur, g).1, u) =~= session_owned(cards, u));
        }
    }
}

/// A session's cards taken top first are all its cards.
pub proof fn lemma_cards_top_first_owned(cards: Seq<GameInterruptData>, u: PlayerUUID)
    ensures
        spent_owned(cards_top_first(cards), u) == session_owned(cards, u),
    decreases cards.len(),
{
    if cards.len() == 0 {
        assert(as_player_cards(Seq::<(PlayerUUID, crate::player_card::InterruptPlayerCard)>::empty())
            =~= Seq::<(PlayerUUID, PlayerCard)>::empty());
    } else {
        lemma_cards_top_first_owned(cards.drop_last(), u);
        lemma_spent_owned_one(cards.last(), u);
        lemma_spent_owned_concat(seq![spent(cards.last())], cards_top_first(cards.drop_last()), u);
        assert(spent_owned(cards_top_first(cards), u) =~= session_owned(cards, u));
    }
}

/// Draining sessions takes all their cards.
pub proof fn lemma_drain_owned(sessions: Seq<SessionView>, u: PlayerUUID)
    ensures
        spent_owned(drain_cards(sessions), u) == sessions_owned(sessions, u),
    decreases sessions.len(),
{
    if sessions.len() == 0 {
        assert(as_player_cards(Seq::<(PlayerUUID, crate::player_card::InterruptPlayerCard)>::empty())
            =~= Seq::<(PlayerUUID, PlayerCard)>::empty());
    } else {
        lemma_drain_owned(sessions.drop_last(), u);
        lemma_cards_top_first_owned(sessions.last().cards, u);
        lemma_spent_owned_concat(
            drain_cards(sessions.drop_last()),
            cards_top_first(sessions.last().cards),
            u,
        );
    }
}

/// Seats holding the same cards give every player the same cards.
pub proof fn lemma_held_same_seats(
    a: Seq<(PlayerUUID, PlayerView)>,
    b: Seq<(PlayerUUID, PlayerView)>,
    u: PlayerUUID,
)
    requires
        same_seats(a, b),
    ensures
        held(a, u) == held(b, u),
        seated(a, u) == seated(b, u),
{
    crate::consistency::lemma_same_seats(a, b);
    if seated(a, u) {
        lemma_uuid_index(a, u);
        let i = uuid_index(a, u);
        assert(b[i].1.cards() == a[i].1.cards());
    }
}

/// Replacing a seated player's state changes only what they hold.
pub proof fn lemma_held_seat_set(
    players: Seq<(PlayerUUID, PlayerView)>,
    w: PlayerUUID,
    p: PlayerView,
    u: PlayerUUID,
)
    requires
        seated(players, w),
    ensures
        held(seat_set(players, w, p), u) == if u == w {
            p.cards()
        } else {
            held(players, u)
        },
        seated(seat_set(players, w, p), u) == seated(players, u),
{
    lemma_seat_set_index(players, w, p);
    lemma_uuid_index(players, w);
    lemma_uuid_index(players, u);
    if u != w && seated(players, u) {
        assert(uuid_index(players, u) != uuid_index(players, w));
    }
}

/// Discarding hands each card to its owner, when every owner is seated.
pub proof fn lemma_discard_all_held(
    players: Seq<(PlayerUUID, PlayerView)>,
    cs: Seq<(PlayerUUID, PlayerCard)>,
    u: PlayerUUID,
)
    requires
        forall|j: int| 0 <= j < cs.len() ==> seated(players, #[trigger] cs[j].0),
    ensures
        held(discard_all(players, cs), u) == held(players, u).add(pairs_owned(cs, u)),
    decreases cs.len(),
{
    if cs.len() == 0 {
        assert(held(players, u).add(Multiset::empty()) =~= held(players, u));
    } else {
        let rest = discard_all(players, cs.drop_last());
        assert forall|j: int| 0 <= j < cs.drop_last().len() implies seated(
            players,
            #[trigger] cs.drop_last()[j].0,
        ) by {
            assert(cs.drop_last()[j] == cs[j]);
        }
        lemma_discard_all_held(players, cs.drop_last(), u);
        lemma_discard_all_index(players, cs.drop_last());
        let (w, c) = cs.last();
        assert(seated(players, cs[cs.len() - 1].0));
        assert(seated(rest, w));
        lemma_held_seat_set(rest, w, pv_discard(seat(rest, w), c), u);
        let q = seat(rest, w);
        assert(pv_discard(q, c).cards() =~= q.cards().insert(c)) by {
            vstd::seq_lib::to_multiset_build(q.discard_pile, c);
        }
        assert(held(discard_all(players, cs), u) =~= held(players, u).add(pairs_owned(cs, u)));
    }
}

/// The owned cards of the resolve data of a stack's root and spent cards.
pub proof fn lemma_root_resolve_owned(
    root: InterruptRoot,
    cs: Seq<(PlayerUUID, InterruptPlayerCard)>,
    u: PlayerUUID,
)
    ensures
        pairs_owned(resolve_player_cards(root_resolve(root, cs)), u) == root_owned(root, u).add(
            spent_owned(cs, u),
        ),
{
    let r = root_resolve(root, cs);
    match root {
        InterruptRoot::RootPlayerCard(rc) => {
            let head = seq![(rc.root_card_owner_uuid, PlayerCard::RootPlayerCard(rc.root_card))];
            assert(resolve_player_cards(r) =~= head + as_player_cards(cs));
            lemma_pairs_owned_concat(head, as_player_cards(cs), u);
            assert(head.drop_last() =~= Seq::<(PlayerUUID, PlayerCard)>::empty());
            assert(pairs_owned(head.drop_last(), u) =~= Multiset::<PlayerCard>::empty());
            assert(pairs_owned(head, u) =~= root_owned(root, u));
        },
        InterruptRoot::Drink(_) => {
            assert(resolve_player_cards(r) =~= as_player_cards(cs));
            assert(root_owned(root, u).add(spent_owned(cs, u)) =~= spent_owned(cs, u));
        },
    }
}

/// The owned cards of resolve data holding only spent cards.
pub proof fn lemma_plain_resolve_owned(cs: Seq<(PlayerUUID, InterruptPlayerCard)>, u: PlayerUUID)
    ensures
        pairs_owned(
            resolve_player_cards(ResolveView { root: None, cards: cs, drink: None }),
            u,
        ) == spent_owned(cs, u),
{
    assert(resolve_player_cards(ResolveView { root: None, cards: cs, drink: None })
        =~= as_player_cards(cs));
}

/// The cards on the first stack and on the others.
pub proof fn lemma_stacks_owned_cons(st: StackView, rest: Seq<StackView>, u: PlayerUUID)
    ensures
        stacks_owned(seq![st] + rest, u) == stack_owned(st, u).add(stacks_owned(rest, u)),
{
    assert((seq![st] + rest).drop_first() =~= rest);
    assert((seq![st] + rest)[0] == st);
}

/// Resolving the current session moves cards from the stacks to the resolve
/// data and loses none.
pub proof fn lemma_resolve_owned(stacks: Seq<StackView>, s: crate::game_logic::Table, u: PlayerUUID)
    requires
        stacks.len() > 0,
        stacks[0].sessions.len() > 0,
    ensures
        ({
            let (r, ns, nt) = spec_resolve(stacks, s);
            stacks_owned(stacks, u) == stacks_owned(ns, u).add(
                pairs_owned(resolve_player_cards(r), u),
            )
        }),
{
    let st = stacks[0];
    let rest = stacks.drop_first();
    let ses = st.sessions.last();
    let remaining = st.sessions.drop_last();
    let (cancel, spent_cards, g1) = resolve_cards(ses.cards, current_interrupt(rest), s.gambling);
    lemma_resolve_cards_owned(ses.cards, current_interrupt(rest), s.gambling, u);
    assert(sessions_owned(st.sessions, u) == sessions_owned(remaining, u).add(
        session_owned(ses.cards, u),
    ));
    let (r, ns, nt) = spec_resolve(stacks, s);
    if cancel == crate::player_card::ShouldCancelPreviousCard::Negate {
        lemma_root_resolve_owned(st.root, drain_cards(remaining) + spent_cards, u);
        lemma_spent_owned_concat(drain_cards(remaining), spent_cards, u);
        lemma_drain_owned(remaining, u);
        assert(stacks_owned(stacks, u) =~= stacks_owned(ns, u).add(
            pairs_owned(resolve_player_cards(r), u),
        ));
    } else if remaining.len() > 0 {
        let st2 = StackView { turn: remaining.last().target, sessions: remaining, ..st };
        lemma_stacks_owned_cons(st2, rest, u);
        lemma_plain_resolve_owned(spent_cards, u);
        assert(stacks_owned(stacks, u) =~= stacks_owned(ns, u).add(
            pairs_owned(resolve_player_cards(r), u),
        ));
    } else {
        lemma_root_resolve_owned(st.root, spent_cards, u);
        assert(sessions_owned(remaining, u) =~= Multiset::<PlayerCard>::empty());
        assert(stacks_owned(stacks, u) =~= stacks_owned(ns, u).add(
            pairs_owned(resolve_player_cards(r), u),
        ));
    }
}

/// The cards handed back by a step of an interrupt, if any.
pub open spec fn step_owned(r: Option<ResolveView>, u: PlayerUUID) -> Multiset<PlayerCard> {
    match r {
        Some(res) => pairs_owned(resolve_player_cards(res), u),
        None => Multiset::empty(),
    }
}

/// Moving the turn to interrupt on loses no card: what leaves the stacks
/// is handed back.
pub proof fn lemma_increment_owned(
    stacks: Seq<StackView>,
    s: crate::game_logic::Table,
    is_passing: bool,
    u: PlayerUUID,
)
    requires
        stacks.len() > 0 ==> stacks[0].sessions.len() > 0,
    ensures
        spec_increment(stacks, s, is_passing) matches Ok((r, ns, nt)) ==> stacks_owned(stacks, u)
            == stacks_owned(ns, u).add(step_owned(r, u)),
{
    if stacks.len() > 0 {
        lemma_resolve_owned(stacks, s, u);
        let st = stacks[0];
        let r = spec_increment(stacks, s, is_passing);
        if let Ok((None, ns, nt)) = r {
            let st2 = ns[0];
            assert(ns.drop_first() =~= stacks.drop_first());
            assert(stack_owned(st2, u) == stack_owned(st, u));
            assert(stacks_owned(stacks, u) =~= stacks_owned(ns, u).add(step_owned(None, u)));
        }
    }
}

/// Playing an interrupt card on the current session puts it on the stacks.
pub proof fn lemma_push_owned(stacks: Seq<StackView>, c: InterruptPlayerCard, w: PlayerUUID, u: PlayerUUID)
    requires
        stacks.len() > 0,
        stacks[0].sessions.len() > 0,
    ensures
        stacks_owned(spec_push(stacks, c, w), u) == stacks_owned(stacks, u).add(
            owned_one(w, PlayerCard::InterruptPlayerCard(c), u),
        ),
{
    let st = stacks[0];
    let ses = st.sessions.last();
    let ns = spec_push(stacks, c, w);
    let sessions2 = ns[0].sessions;
    let d = GameInterruptData { card: c, card_interrupt_type: c.interrupt_type_output, card_owner_uuid: w };
    assert(sessions2.drop_last() =~= st.sessions.drop_last());
    assert(sessions2.last().cards =~= ses.cards.push(d));
    assert(ses.cards.push(d).drop_last() =~= ses.cards);
    assert(session_owned(ses.cards.push(d), u) =~= session_owned(ses.cards, u).add(
        owned_one(w, PlayerCard::InterruptPlayerCard(c), u),
    ));
    assert(ns.drop_first() =~= stacks.drop_first());
    assert(stacks_owned(ns, u) =~= stacks_owned(stacks, u).add(
        owned_one(w, PlayerCard::InterruptPlayerCard(c), u),
    ));
}

/// Sessions without interrupt cards hold no card.
pub proof fn lemma_empty_sessions_owned(sessions: Seq<SessionView>, u: PlayerUUID)
    requires
        forall|i: int| 0 <= i < sessions.len() ==> (#[trigger] sessions[i]).cards.len() == 0,
    ensures
        sessions_owned(sessions, u) == Multiset::<PlayerCard>::empty(),
    decreases sessions.len(),
{
    if sessions.len() > 0 {
        assert forall|i: int| 0 <= i < sessions.drop_last().len() implies (
        #[trigger] sessions.drop_last()[i]).cards.len() == 0 by {
            assert(sessions.drop_last()[i] == sessions[i]);
        }
        lemma_empty_sessions_owned(sessions.drop_last(), u);
        assert(sessions[sessions.len() - 1].cards.len() == 0);
        assert(session_owned(sessions.last().cards, u) =~= Multiset::<PlayerCard>::empty());
        assert(sessions_owned(sessions, u) =~= Multiset::<PlayerCard>::empty());
    }
}

/// A new stack holds only its root card.
pub proof fn lemma_new_stack_owned(
    card: RootPlayerCard,
    owner: PlayerUUID,
    targets: Seq<PlayerUUID>,
    t: GameInterruptType,
    u: PlayerUUID,
)
    ensures
        stacks_owned(seq![single_stack(card, owner, targets[0], t)], u) == owned_one(
            owner,
            PlayerCard::RootPlayerCard(card),
            u,
        ),
        stacks_owned(seq![multi_stack(card, owner, targets, t)], u) == owned_one(
            owner,
            PlayerCard::RootPlayerCard(card),
            u,
        ),
{
    let e = Seq::<StackView>::empty();
    let a = single_stack(card, owner, targets[0], t);
    let b = multi_stack(card, owner, targets, t);
    lemma_stacks_owned_cons(a, e, u);
    lemma_stacks_owned_cons(b, e, u);
    assert(seq![a] + e =~= seq![a]);
    assert(seq![b] + e =~= seq![b]);
    lemma_empty_sessions_owned(a.sessions, u);
    lemma_empty_sessions_owned(b.sessions, u);
    assert(stacks_owned(seq![a], u) =~= owned_one(owner, PlayerCard::RootPlayerCard(card), u));
    assert(stacks_owned(seq![b], u) =~= owned_one(owner, PlayerCard::RootPlayerCard(card), u));
}

/// A player who is not seated owns no card on the stacks.
pub proof fn lemma_unseated_owns_nothing(
    stacks: Seq<StackView>,
    players: Seq<(PlayerUUID, PlayerView)>,
    u: PlayerUUID,
)
    requires
        stacks_ok(stacks, players),
        !seated(players, u),
    ensures
        stacks_owned(stacks, u) == Multiset::<PlayerCard>::empty(),
    decreases stacks.len(),
{
    if stacks.len() > 0 {
        let st = stacks[0];
        assert(stack_ok(st, players));
        assert(stacks_ok(stacks.drop_first(), players)) by {
            assert forall|i: int| 0 <= i < stacks.drop_first().len() implies stack_ok(
                #[trigger] stacks.drop_first()[i],
                players,
            ) by {
                assert(stacks.drop_first()[i] == stacks[i + 1]);
            }
        }
        lemma_unseated_owns_nothing(stacks.drop_first(), players, u);
        lemma_unseated_sessions(st.sessions, players, u);
        assert(stacks_owned(stacks, u) =~= Multiset::<PlayerCard>::empty());
    }
}

/// A player who is not seated owns no interrupt card of the sessions.
proof fn lemma_unseated_sessions(
    sessions: Seq<SessionView>,
    players: Seq<(PlayerUUID, PlayerView)>,
    u: PlayerUUID,
)
    requires
        forall|i: int, j: int|
            0 <= i < sessions.len() && 0 <= j < sessions[i].cards.len() ==> seated(
                players,
                (#[trigger] sessions[i].cards[j]).card_owner_uuid,
            ),
        !seated(players, u),
    ensures
        sessions_owned(sessions, u) == Multiset::<PlayerCard>::empty(),
    decreases sessions.len(),
{
    if sessions.len() > 0 {
        let last = sessions.len() - 1;
        assert forall|i: int, j: int|
            0 <= i < sessions.drop_last().len() && 0 <= j < sessions.drop_last()[i].cards.len()
                implies seated(
            players,
            (#[trigger] sessions.drop_last()[i].cards[j]).card_owner_uuid,
        ) by {
            assert(sessions.drop_last()[i] == sessions[i]);
        }
        lemma_unseated_sessions(sessions.drop_last(), players, u);
        lemma_unseated_cards(sessions[last].cards, players, u);
    }
}

/// A player who is not seated owns no card of a session.
proof fn lemma_unseated_cards(
    cards: Seq<GameInterruptData>,
    players: Seq<(PlayerUUID, PlayerView)>,
    u: PlayerUUID,
)
    requires
        forall|j: int| 0 <= j < cards.len() ==> seated(players, (#[trigger] cards[j]).card_owner_uuid),
        !seated(players, u),
    ensures
        session_owned(cards, u) == Multiset::<PlayerCard>::empty(),
    decreases cards.len(),
{
    if cards.len() > 0 {
        assert forall|j: int| 0 <= j < cards.drop_last().len() implies seated(
            players,
            (#[trigger] cards.drop_last()[j]).card_owner_uuid,
        ) by {
            assert(cards.drop_last()[j] == cards[j]);
        }
        lemma_unseated_cards(cards.drop_last(), players, u);
        assert(seated(players, cards[cards.len() - 1].card_owner_uuid));
        assert(session_owned(cards, u) =~= Multiset::<PlayerCard>::empty());
    }
}

/// Every card of a list is among the cards its owner owns in it.
pub proof fn lemma_pairs_member(cs: Seq<(PlayerUUID, PlayerCard)>, j: int)
    requires
        0 <= j < cs.len(),
    ensures
        pairs_owned(cs, cs[j].0).count(cs[j].1) > 0,
    decreases cs.len(),
{
    if j < cs.len() - 1 {
        lemma_pairs_member(cs.drop_last(), j);
        assert(cs.drop_last()[j] == cs[j]);
    }
}

/// The player cards `u` owns in the game: those they hold and those of
/// theirs on the interrupt stacks.
pub open spec fn owned_cards(v: GameLogicView, u: PlayerUUID) -> Multiset<PlayerCard> {
    held(v.table.players, u).add(stacks_owned(v.stacks, u))
}

/// The owners of the cards handed back by a step of an interrupt are
/// seated.
pub proof fn lemma_step_owners_seated(stacks: Seq<StackView>, s: Table, is_passing: bool)
    requires
        interrupt_wf(stacks, s),
    ensures
        spec_increment(stacks, s, is_passing) matches Ok((Some(res), ns, nt)) ==> forall|j: int|
            0 <= j < resolve_player_cards(res).len() ==> seated(
                nt.players,
                #[trigger] resolve_player_cards(res)[j].0,
            ),
{
    lemma_increment(stacks, s, is_passing);
    if let Ok((Some(res), ns, nt)) = spec_increment(stacks, s, is_passing) {
        lemma_same_seats(s.players, nt.players);
        let cs = resolve_player_cards(res);
        assert forall|j: int| 0 <= j < cs.len() implies seated(nt.players, #[trigger] cs[j].0) by {
            let w = cs[j].0;
            lemma_increment_owned(stacks, s, is_passing, w);
            lemma_pairs_member(cs, j);
            assert(stacks_owned(stacks, w).count(cs[j].1) > 0);
            if !seated(s.players, w) {
                lemma_unseated_owns_nothing(stacks, s.players, w);
            }
        }
    }
}

/// Handing back the cards of an interrupt step puts each with its owner.
pub proof fn lemma_settle_owned(v: GameLogicView, r: Option<ResolveView>, u: PlayerUUID)
    requires
        r matches Some(res) ==> forall|j: int|
            0 <= j < resolve_player_cards(res).len() ==> seated(
                v.table.players,
                #[trigger] resolve_player_cards(res)[j].0,
            ),
    ensures
        settle(v, r) matches Ok(v2) ==> owned_cards(v2, u) == owned_cards(v, u).add(
            step_owned(r, u),
        ),
{
    match r {
        None => {
            assert(owned_cards(v, u).add(step_owned(r, u)) =~= owned_cards(v, u));
        },
        Some(res) => {
            let base = if action_over(res) {
                match spec_skip(v) {
                    Ok(v2) => v2,
                    Err(_) => v,
                }
            } else {
                v
            };
            assert(base.table.players == v.table.players);
            assert(base.stacks == v.stacks);
            lemma_discard_all_held(v.table.players, resolve_player_cards(res), u);
            if settle(v, r) is Ok {
                assert(settle(v, r) == Ok::<GameLogicView, (Seq<char>, GameLogicView)>(
                    discard_spent(base, res),
                ));
                assert(owned_cards(discard_spent(base, res), u) =~= owned_cards(v, u).add(
                    step_owned(r, u),
                ));
            }
        },
    }
}

/// A step of an interrupt followed by handing back its cards loses no
/// card, and in a consistent game the handing back always succeeds.
pub proof fn lemma_step_and_settle_owned(v: GameLogicView, is_passing: bool, u: PlayerUUID)
    requires
        interrupt_wf(v.stacks, v.table),
    ensures
        spec_increment(v.stacks, v.table, is_passing) matches Ok(x) ==> (settle(after_step(v, x), x.0) matches Ok(v2)
            && owned_cards(v2, u) == owned_cards(v, u) && forall|y: PlayerUUID|
            #[trigger] seated(v2.table.players, y) == seated(v.table.players, y)),
{
    lemma_increment(v.stacks, v.table, is_passing);
    lemma_increment_owned(v.stacks, v.table, is_passing, u);
    lemma_step_owners_seated(v.stacks, v.table, is_passing);
    if let Ok(x) = spec_increment(v.stacks, v.table, is_passing) {
        let v1 = after_step(v, x);
        lemma_held_same_seats(v.table.players, v1.table.players, u);
        lemma_settle_owned(v1, x.0, u);
        lemma_same_seats(v.table.players, v1.table.players);
        if let Some(res) = x.0 {
            if action_over(res) {
                assert(spec_skip(v1) is Ok);
            }
            lemma_discard_all_index(v1.table.players, resolve_player_cards(res));
        }
        assert(owned_cards(v1, u).add(step_owned(x.0, u)) =~= owned_cards(v, u));
    }
}

/// Passing never creates or loses a card: every player owns the same
/// cards, in hand, deck or on the interrupt stacks, before and after.
pub proof fn law_pass_keeps_owned_cards(v: GameLogicView, u: PlayerUUID, w: PlayerUUID)
    requires
        game_wf(v),
    ensures
        owned_cards(spec_pass(v, u).1, w) == owned_cards(v, w),
{
    if v.stacks.len() > 0 {
        if current_turn(v.stacks) == Some(u) {
            lemma_step_and_settle_owned(v, true, w);
        }
    } else if g_is_turn(v.table.gambling, u) {
        crate::consistency::lemma_g_pass(v.table.gambling, v.table.players, v.table.turn);
        let (g, p, t) = g_pass(v.table.gambling, v.table.players, v.table.turn);
        lemma_held_same_seats(v.table.players, p, w);
    }
}

/// Whether a played card was left on an interrupt stack.
pub open spec fn left_on_stack<T>(res: Result<Option<T>, (T, Seq<char>)>) -> bool {
    res matches Ok(None)
}

/// Playing a root card at one target keeps every card: the card itself ends
/// on a new stack or is handed back.
pub proof fn lemma_single_owned(
    v: GameLogicView,
    card: RootPlayerCard,
    u: PlayerUUID,
    target: PlayerUUID,
    w: PlayerUUID,
)
    requires
        game_wf(v),
        seated(v.table.players, u),
        root_card_ok(card),
        root_can_play(card, u, v.table.gambling, v.stacks.len() > 0, v.table.turn),
    ensures
        ({
            let (res, v2) = spec_play_single(v, card, u, target);
            &&& owned_cards(v2, w) == owned_cards(v, w).add(
                if left_on_stack(res) {
                    owned_one(u, PlayerCard::RootPlayerCard(card), w)
                } else {
                    Multiset::empty()
                },
            )
            &&& forall|y: PlayerUUID| #[trigger] seated(v2.table.players, y) == seated(v.table.players, y)
        }),
{
    crate::consistency::lemma_pre_wf(card, u, v.table, v.stacks);
    let (si, t1) = spec_pre_interrupt_play(card, u, v.table);
    let v1 = with_table(v, t1);
    lemma_held_same_seats(v.table.players, t1.players, w);
    lemma_same_seats(v.table.players, t1.players);
    let (res, v2) = spec_play_single(v, card, u, target);
    if si == ShouldInterrupt::Yes {
        match card.interrupt_data_or {
            Some(d) => {
                if v1.stacks.len() == 0 {
                    lemma_new_stack_owned(card, u, seq![target], d.interrupt_type_output, w);
                    assert(seq![target][0] == target);
                    assert(owned_cards(v2, w) =~= owned_cards(v, w).add(
                        owned_one(u, PlayerCard::RootPlayerCard(card), w),
                    ));
                } else {
                    assert(owned_cards(v2, w) =~= owned_cards(v, w).add(Multiset::empty()));
                }
            },
            None => {
                crate::consistency::lemma_interrupt_play(card, target, t1.players, t1.gambling);
                let (p, g) = spec_interrupt_play(card, target, t1.players, t1.gambling);
                lemma_held_same_seats(t1.players, p, w);
                lemma_same_seats(t1.players, p);
                assert(owned_cards(v2, w) =~= owned_cards(v, w).add(Multiset::empty()));
            },
        }
    } else {
        assert(owned_cards(v2, w) =~= owned_cards(v, w).add(Multiset::empty()));
    }
}

/// Playing a root card at a list of targets keeps every card: the card
/// itself ends on a new stack or is handed back.
pub proof fn lemma_list_owned(
    v: GameLogicView,
    card: RootPlayerCard,
    u: PlayerUUID,
    other: Option<PlayerUUID>,
    targets: Seq<PlayerUUID>,
    w: PlayerUUID,
)
    requires
        game_wf(v),
        seated(v.table.players, u),
        root_card_ok(card),
        root_can_play(card, u, v.table.gambling, v.stacks.len() > 0, v.table.turn),
    ensures
        ({
            let (res, v2) = spec_play_list(v, card, u, other, targets);
            &&& owned_cards(v2, w) == owned_cards(v, w).add(
                if left_on_stack(res) {
                    owned_one(u, PlayerCard::RootPlayerCard(card), w)
                } else {
                    Multiset::empty()
                },
            )
            &&& forall|y: PlayerUUID| #[trigger] seated(v2.table.players, y) == seated(v.table.players, y)
        }),
{
    let (res, v2) = spec_play_list(v, card, u, other, targets);
    if other is None {
        crate::consistency::lemma_pre_wf(card, u, v.table, v.stacks);
        let (si, t1) = spec_pre_interrupt_play(card, u, v.table);
        let v1 = with_table(v, t1);
        lemma_held_same_seats(v.table.players, t1.players, w);
        lemma_same_seats(v.table.players, t1.players);
        if si == ShouldInterrupt::Yes {
            match card.interrupt_data_or {
                Some(d) => {
                    if v1.stacks.len() == 0 && targets.len() > 0 {
                        lemma_new_stack_owned(card, u, targets, d.interrupt_type_output, w);
                        assert(owned_cards(v2, w) =~= owned_cards(v, w).add(
                            owned_one(u, PlayerCard::RootPlayerCard(card), w),
                        ));
                    } else {
                        assert(owned_cards(v2, w) =~= owned_cards(v, w).add(Multiset::empty()));
                    }
                },
                None => {
                    crate::consistency::lemma_play_on_all(card, targets, t1.players, t1.gambling);
                    let (p, g) = crate::game_logic::play_on_all(
                        card,
                        targets,
                        t1.players,
                        t1.gambling,
                    );
                    lemma_held_same_seats(t1.players, p, w);
                    lemma_same_seats(t1.players, p);
                    assert(owned_cards(v2, w) =~= owned_cards(v, w).add(Multiset::empty()));
                },
            }
        } else {
            assert(owned_cards(v2, w) =~= owned_cards(v, w).add(Multiset::empty()));
        }
    } else {
        assert(owned_cards(v2, w) =~= owned_cards(v, w).add(Multiset::empty()));
    }
}

/// Playing a root card keeps every card: the card itself ends on a new
/// stack or is handed back.
pub proof fn lemma_process_root_owned(
    v: GameLogicView,
    card: RootPlayerCard,
    u: PlayerUUID,
    other: Option<PlayerUUID>,
    w: PlayerUUID,
)
    requires
        game_wf(v),
        seated(v.table.players, u),
        root_card_ok(card),
    ensures
        ({
            let (res, v2) = spec_process_root(v, card, u, other);
            &&& owned_cards(v2, w) == owned_cards(v, w).add(
                if left_on_stack(res) {
                    owned_one(u, PlayerCard::RootPlayerCard(card), w)
                } else {
                    Multiset::empty()
                },
            )
            &&& forall|y: PlayerUUID| #[trigger] seated(v2.table.players, y) == seated(v.table.players, y)
        }),
{
    if root_can_play(card, u, v.table.gambling, v.stacks.len() > 0, v.table.turn) {
        match card.target_style {
            TargetStyle::SelfPlayer => {
                lemma_single_owned(v, card, u, u, w);
            },
            TargetStyle::SingleOtherPlayer => {
                if let Some(t) = other {
                    lemma_single_owned(v, card, u, t, w);
                }
            },
            TargetStyle::AllOtherPlayers => {
                lemma_list_owned(v, card, u, other, other_targets(v.table.players, u), w);
            },
            TargetStyle::AllGamblingPlayersIncludingSelf => {
                lemma_list_owned(v, card, u, other, gambling_targets(v.table.gambling, u), w);
            },
        }
    }
    let (res, v2) = spec_process_root(v, card, u, other);
    if !left_on_stack(res) {
        assert(owned_cards(v, w).add(Multiset::empty()) =~= owned_cards(v, w));
    }
}

/// Playing a card keeps every card: the card itself ends on an interrupt
/// stack or is handed back.
pub proof fn lemma_process_card_owned(
    v: GameLogicView,
    card: PlayerCard,
    u: PlayerUUID,
    other: Option<PlayerUUID>,
    w: PlayerUUID,
)
    requires
        game_wf(v),
        seated(v.table.players, u),
        card_ok(card),
    ensures
        ({
            let (res, v2) = spec_process_card(v, card, u, other);
            &&& owned_cards(v2, w) == owned_cards(v, w).add(
                if left_on_stack(res) {
                    owned_one(u, card, w)
                } else {
                    Multiset::empty()
                },
            )
            &&& forall|y: PlayerUUID| #[trigger] seated(v2.table.players, y) == seated(v.table.players, y)
        }),
{
    let (res, v2) = spec_process_card(v, card, u, other);
    if card_can_play(card, u, v.table.gambling, v.stacks, v.table.turn) {
        match card {
            PlayerCard::RootPlayerCard(r) => {
                lemma_process_root_owned(v, r, u, other, w);
            },
            PlayerCard::InterruptPlayerCard(c) => {
                if other is None {
                    crate::interrupt_manager::lemma_push_ok(v.stacks, c, u, v.table.players);
                    let pushed = spec_push(v.stacks, c, u);
                    assert(interrupt_wf(pushed, v.table));
                    assert(stack_ok(v.stacks[0], v.table.players));
                    lemma_push_owned(v.stacks, c, u, w);
                    let vp = GameLogicView { stacks: pushed, ..v };
                    lemma_uuid_index(v.table.players, u);
                    assert(spec_increment(pushed, v.table, false) is Ok);
                    lemma_step_and_settle_owned(vp, false, w);
                    assert(owned_cards(v2, w) =~= owned_cards(v, w).add(owned_one(u, card, w)));
                } else {
                    assert(owned_cards(v2, w) =~= owned_cards(v, w).add(Multiset::empty()));
                }
            },
        }
    } else {
        assert(owned_cards(v2, w) =~= owned_cards(v, w).add(Multiset::empty()));
    }
}

/// Playing a card from the hand never creates or loses a card: every
/// player owns the same cards, in hand, deck or on the interrupt stacks,
/// before and after, whether the play succeeds or not.
pub proof fn law_play_card_keeps_owned_cards(
    v: GameLogicView,
    u: PlayerUUID,
    other: Option<PlayerUUID>,
    idx: int,
    w: PlayerUUID,
)
    requires
        game_wf(v),
        idx >= 0,
    ensures
        owned_cards(spec_play_card(v, u, other, idx).1, w) == owned_cards(v, w),
{
    broadcast use vstd::seq_lib::group_to_multiset_ensures;

    if seated(v.table.players, u) {
        let p = seat(v.table.players, u);
        if idx < p.hand.len() {
            lemma_uuid_index(v.table.players, u);
            assert(holds_ok(p));
            let card = p.hand[idx];
            let p1 = PlayerView { hand: p.hand.remove(idx), ..p };
            assert(p.cards().count(card) > 0);
            assert(holds_ok(p1)) by {
                assert forall|c: PlayerCard| #[trigger] p1.cards().count(c) > 0 implies card_ok(c) by {
                    assert(p.cards().count(c) > 0);
                }
            }
            assert(p1.cards().insert(card) =~= p.cards());
            lemma_set_player_wf(v, u, p1);
            let v1 = with_players(v, seat_set(v.table.players, u, p1));
            lemma_held_seat_set(v.table.players, u, p1, w);
            lemma_held_seat_set(v.table.players, u, p1, u);
            assert(owned_cards(v1, w).add(owned_one(u, card, w)) =~= owned_cards(v, w));
            lemma_process_card_owned(v1, card, u, other, w);
            crate::consistency::lemma_process_card_wf(v1, card, u, other);
            let (res, v2) = spec_process_card(v1, card, u, other);
            let q = seat(v2.table.players, u);
            assert(seated(v2.table.players, u));
            match res {
                Ok(Some(c)) => {
                    let q2 = pv_discard(q, c);
                    lemma_held_seat_set(v2.table.players, u, q2, w);
                    assert(q2.cards() =~= q.cards().insert(c));
                    assert(c == card);
                    let fin = spec_play_card(v, u, other, idx).1;
                    assert(fin == with_players(v2, seat_set(v2.table.players, u, q2)));
                    assert(owned_cards(v2, w) == owned_cards(v1, w).add(Multiset::empty()));
                    if w == u {
                        assert(held(fin.table.players, w) == held(v2.table.players, w).insert(card));
                    } else {
                        assert(held(fin.table.players, w) == held(v2.table.players, w));
                    }
                    assert(owned_cards(fin, w) =~= owned_cards(v2, w).add(owned_one(u, card, w)));
                    assert(owned_cards(fin, w) =~= owned_cards(v, w));
                },
                Err((c, m)) => {
                    let j = if idx > q.hand.len() {
                        q.hand.len() as int
                    } else {
                        idx
                    };
                    let q2 = PlayerView { hand: q.hand.insert(j, c), ..q };
                    lemma_held_seat_set(v2.table.players, u, q2, w);
                    assert(q2.cards() =~= q.cards().insert(c));
                    assert(c == card);
                    let fin = spec_play_card(v, u, other, idx).1;
                    assert(fin == with_players(v2, seat_set(v2.table.players, u, q2)));
                    assert(owned_cards(v2, w) == owned_cards(v1, w).add(Multiset::empty()));
                    if w == u {
                        assert(held(fin.table.players, w) == held(v2.table.players, w).insert(card));
                    } else {
                        assert(held(fin.table.players, w) == held(v2.table.players, w));
                    }
                    assert(owned_cards(fin, w) =~= owned_cards(v2, w).add(owned_one(u, card, w)));
                    assert(owned_cards(fin, w) =~= owned_cards(v, w));
                },
                Ok(None) => {
                    assert(owned_cards(spec_play_card(v, u, other, idx).1, w) =~= owned_cards(v, w));
                },
            }
        }
    }
}

/// Discarding and drawing back to a full hand never creates or loses a
/// card: every player owns the same cards before and after.
pub proof fn law_discard_and_draw_keeps_owned_cards(
    v: GameLogicView,
    u: PlayerUUID,
    indices: Seq<usize>,
    drawn: PlayerView,
    w: PlayerUUID,
)
    requires
        spec_discard_and_draw(v, u, indices, drawn).0 is Ok ==> drew_to_full(
            discard_at(seat(v.table.players, u), sort_desc(indices)).0,
            drawn,
        ),
    ensures
        owned_cards(spec_discard_and_draw(v, u, indices, drawn).1, w) == owned_cards(v, w),
{
    if seated(v.table.players, u) {
        let p = seat(v.table.players, u);
        crate::consistency::lemma_discard_at_cards(p, sort_desc(indices));
        let (mid, ok) = discard_at(p, sort_desc(indices));
        lemma_held_seat_set(v.table.players, u, mid, w);
        lemma_held_seat_set(v.table.players, u, drawn, w);
    }
}

/// Ordering a drink never creates or loses a card: drinks are not player
/// cards, and every player owns the same cards before and after.
pub proof fn law_order_drink_keeps_owned_cards(
    v: GameLogicView,
    u: PlayerUUID,
    other: PlayerUUID,
    drawn: Option<crate::drink::DrinkCard>,
    w: PlayerUUID,
)
    ensures
        owned_cards(spec_order_after_draw(v, u, other, drawn).1, w) == owned_cards(v, w),
{
    let players = v.table.players;
    let v1 = match drawn {
        Some(c) => {
            let q = seat(players, other);
            if seated(players, other) {
                lemma_held_seat_set(
                    players,
                    other,
                    PlayerView { drink_me_pile: q.drink_me_pile.push(c), ..q },
                    w,
                );
            }
            with_players(
                v,
                seat_set(players, other, PlayerView { drink_me_pile: q.drink_me_pile.push(c), ..q }),
            )
        },
        None => v,
    };
    let p1 = v1.table.players;
    if seated(p1, u) {
        let p = seat(p1, u);
        lemma_held_seat_set(p1, u, crate::player::pv_drink(p), w);
        assert(crate::player::pv_drink(p).cards() =~= p.cards());
    }
}

/// The interrupt cards of a session with their owners, from the bottom up.
pub open spec fn session_cards(cards: Seq<GameInterruptData>) -> Seq<(PlayerUUID, InterruptPlayerCard)> {
    cards.map_values(|d: GameInterruptData| spent(d))
}

/// Resolving a session spends each of its interrupt cards exactly once:
/// the spent cards, with their owners, are the session's cards in another
/// order, none lost and none repeated.
pub proof fn law_resolve_spends_each_card_once(
    cards: Seq<GameInterruptData>,
    cur: Option<GameInterruptType>,
    g: Option<crate::gambling_manager::GamblingRoundView>,
)
    ensures
        resolve_cards(cards, cur, g).1.to_multiset() == session_cards(cards).to_multiset(),
    decreases cards.len(),
{
    broadcast use vstd::seq_lib::group_to_multiset_ensures;

    if cards.len() == 0 {
        assert(session_cards(cards) =~= resolve_cards(cards, cur, g).1);
    } else {
        let d = cards.last();
        let rest = cards.drop_last();
        let (r, leaves) = crate::player_card::interrupt_outcome(d.card, cur);
        let g1 = if leaves {
            crate::gambling_manager::g_leave(g, d.card_owner_uuid)
        } else {
            g
        };
        assert(session_cards(cards) =~= session_cards(rest).push(spent(d)));
        if r != crate::player_card::ShouldCancelPreviousCard::No {
            if rest.len() > 0 {
                let e = rest.last();
                let sp = resolve_cards(rest.drop_last(), cur, g1).1;
                law_resolve_spends_each_card_once(rest.drop_last(), cur, g1);
                assert(session_cards(rest) =~= session_cards(rest.drop_last()).push(spent(e)));
                vstd::seq_lib::lemma_seq_union_to_multiset_commutative(seq![spent(e), spent(d)], sp);
                assert(sp + seq![spent(e), spent(d)] =~= sp.push(spent(e)).push(spent(d)));
                assert(resolve_cards(cards, cur, g).1 == seq![spent(e), spent(d)] + sp);
            } else {
                assert(session_cards(cards) =~= resolve_cards(cards, cur, g).1);
            }
        } else {
            let sp = resolve_cards(rest, cur, g1).1;
            law_resolve_spends_each_card_once(rest, cur, g1);
            vstd::seq_lib::lemma_seq_union_to_multiset_commutative(seq![spent(d)], sp);
            assert(sp + seq![spent(d)] =~= sp.push(spent(d)));
            assert(resolve_cards(cards, cur, g).1 == seq![spent(d)] + sp);
        }
    }
}

/// Resolving the current session of the first stack hands back, in the
/// resolve data, each interrupt card of that session exactly once; when the
/// root is negated, each card of the stack's earlier sessions comes back
/// with them, also exactly once.
pub proof fn law_resolve_hands_back_each_card_once(stacks: Seq<StackView>, s: Table)
    requires
        stacks.len() > 0,
        stacks[0].sessions.len() > 0,
    ensures
        ({
            let st = stacks[0];
            let ses = st.sessions.last();
            let cancel = resolve_cards(ses.cards, current_interrupt(stacks.drop_first()), s.gambling).0;
            let handed = spec_resolve(stacks, s).0.cards.to_multiset();
            if cancel == crate::player_card::ShouldCancelPreviousCard::Negate {
                handed == drain_cards(st.sessions.drop_last()).to_multiset().add(
                    session_cards(ses.cards).to_multiset(),
                )
            } else {
                handed == session_cards(ses.cards).to_multiset()
            }
        }),
{
    let st = stacks[0];
    let ses = st.sessions.last();
    let cur = current_interrupt(stacks.drop_first());
    law_resolve_spends_each_card_once(ses.cards, cur, s.gambling);
    let sp = resolve_cards(ses.cards, cur, s.gambling).1;
    vstd::seq_lib::lemma_multiset_commutative(drain_cards(st.sessions.drop_last()), sp);
}

} // verus!
