use rand::seq::SliceRandom;
use vstd::prelude::*;

verus! {

/// Calls `rand::seq::SliceRandom::shuffle` with `rand::thread_rng()`: the
/// items are put in a random order. All that is promised is that the same
/// items remain (the crate shuffles by swapping elements); which order comes
/// out depends on the random generator.
#[verifier::external_body]
fn shuffle_items<T>(items: &mut Vec<T>)
    ensures
        final(items)@.to_multiset() == old(items)@.to_multiset(),
        final(items)@.len() == old(items)@.len(),
{
    items.shuffle(&mut rand::thread_rng());
}

/// Drawing from a deck with piles `draw0` and `discard0` gave `card` and left
/// the piles `draw1` and `discard1`: the top of the draw pile, or, with an
/// empty draw pile, an item of the discard pile, which was shuffled into
/// the draw pile first; nothing when both are empty.
pub open spec fn drew_card<T>(
    draw0: Seq<T>,
    discard0: Seq<T>,
    card: Option<T>,
    draw1: Seq<T>,
    discard1: Seq<T>,
) -> bool {
    &&& draw0.len() > 0 ==> {
        &&& card == Some(draw0.last())
        &&& draw1 == draw0.drop_last()
        &&& discard1 == discard0
    }
    &&& draw0.len() == 0 ==> {
        &&& discard1 == Seq::<T>::empty()
        &&& (card is None <==> discard0.len() == 0)
        &&& card matches Some(c) ==> draw1.push(c).to_multiset() == discard0.to_multiset()
        &&& card is None ==> draw1 == Seq::<T>::empty()
    }
}

/// A deck with a draw pile and a discard pile. When the draw pile runs out,
/// the discard pile is shuffled into it.
#[derive(Clone, Debug)]
pub struct AutoShufflingDeck<T> {
    /// The draw pile; its last item is its top.
    pub draw_pile: Vec<T>,
    pub discard_pile: Vec<T>,
}

impl<T> AutoShufflingDeck<T> {
    /// All items of the deck, draw pile first.
    pub open spec fn all_items(&self) -> Seq<T> {
        self.draw_pile@ + self.discard_pile@
    }

    /// The number of items in the deck.
    pub open spec fn total(&self) -> nat {
        self.draw_pile@.len() + self.discard_pile@.len()
    }

    /// A deck whose draw pile holds the given items in a random order.
    pub fn new(items: Vec<T>) -> (deck: Self)
        ensures
            deck.draw_pile@.to_multiset() == items@.to_multiset(),
            deck.draw_pile@.len() == items@.len(),
            deck.discard_pile@ == Seq::<T>::empty(),
    {
        let mut items = items;
        shuffle_items(&mut items);
        AutoShufflingDeck { draw_pile: items, discard_pile: Vec::new() }
    }

    /// Draws the top item. If the draw pile is empty, the discard pile is
    /// first shuffled into it. Returns `None` only when both piles are
    /// empty.
    pub fn draw_card(&mut self) -> (card: Option<T>)
        ensures
            drew_card(
                old(self).draw_pile@,
                old(self).discard_pile@,
                card,
                final(self).draw_pile@,
                final(self).discard_pile@,
            ),
            old(self).draw_pile@.len() > 0 ==> {
                &&& card == Some(old(self).draw_pile@.last())
                &&& final(self).draw_pile@ == old(self).draw_pile@.drop_last()
                &&& final(self).discard_pile@ == old(self).discard_pile@
            },
            old(self).draw_pile@.len() == 0 ==> {
                &&& final(self).discard_pile@ == Seq::<T>::empty()
                &&& (card is None <==> old(self).discard_pile@.len() == 0)
                &&& card matches Some(c) ==> final(self).draw_pile@.push(c).to_multiset()
                    == old(self).discard_pile@.to_multiset()
                &&& card is None ==> final(self).draw_pile@ == Seq::<T>::empty()
            },
            final(self).total() + (if card is Some { 1int } else { 0int }) == old(self).total(),
    {
        if self.draw_pile.len() == 0 {
            self.draw_pile.append(&mut self.discard_pile);
            shuffle_items(&mut self.draw_pile);
        }
        let ghost before = self.draw_pile@;
        let r = self.draw_pile.pop();
        proof {
            if before.len() > 0 {
                assert(before == self.draw_pile@.push(r->0));
            }
            if old(self).draw_pile@.len() > 0 {
                assert(r == Some(old(self).draw_pile@.last()));
                assert(self.draw_pile@ =~= old(self).draw_pile@.drop_last());
            }
            assert(old(self).draw_pile@.len() == 0 ==> self.discard_pile@ == Seq::<T>::empty());
            assert(old(self).draw_pile@.len() == 0 ==> (r is None <==> old(self).discard_pile@.len() == 0));
            assert(old(self).draw_pile@.len() == 0 ==> (r matches Some(c) ==> self.draw_pile@.push(c).to_multiset() == old(self).discard_pile@.to_multiset()));
            assert(old(self).draw_pile@.len() == 0 ==> (r is None ==> self.draw_pile@ == Seq::<T>::empty()));
        }
        r
    }

    /// Puts an item on the discard pile.
    pub fn discard_card(&mut self, card: T)
        ensures
            final(self).draw_pile@ == old(self).draw_pile@,
            final(self).discard_pile@ == old(self).discard_pile@.push(card),
    {
        self.discard_pile.push(card);
    }

    /// The number of items in the draw pile.
    pub fn draw_pile_size(&self) -> (n: usize)
        ensures
            n == self.draw_pile@.len(),
    {
        self.draw_pile.len()
    }

    /// The number of items in the discard pile.
    pub fn discard_pile_size(&self) -> (n: usize)
        ensures
            n == self.discard_pile@.len(),
    {
        self.discard_pile.len()
    }
}

} // verus!
