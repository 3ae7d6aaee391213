//! What the side pots add up to: no more than was committed, and all of it
//! where the highest commitment belongs to a player who shows a hand.

use crate::card::HandRank;
use crate::pots::{
    all_winnings, committed_below, contends, layer_chips, layer_share, lemma_layer_chips,
    lemma_lowest_above, lemma_top_score, lemma_winner_count, lowest_above, slice_of, top_score,
    winner_count, winnings_above, wins_layer,
};
use crate::state::{lemma_total_bounds, total};
use vstd::prelude::*;

verus! {

/// The sum of a sequence of numbers.
pub open spec fn sum(amounts: Seq<int>) -> int
    decreases amounts.len(),
{
    if amounts.len() == 0 {
        0
    } else {
        sum(amounts.drop_last()) + amounts.last()
    }
}

/// What each player gets of one layer.
pub open spec fn layer_shares(
    bets: Seq<u32>,
    ranks: Seq<Option<HandRank>>,
    prev: int,
    level: int,
) -> Seq<int> {
    Seq::new(bets.len(), |i: int| layer_share(bets, ranks, prev, level, i))
}

/// What each player gets of all layers above `prev`.
pub open spec fn winnings_from(bets: Seq<u32>, ranks: Seq<Option<HandRank>>, prev: int) -> Seq<int> {
    Seq::new(bets.len(), |i: int| winnings_above(bets, ranks, prev, i))
}

/// Some player who shows a hand has committed as much as anyone.
pub open spec fn top_is_shown(bets: Seq<u32>, ranks: Seq<Option<HandRank>>) -> bool {
    exists|c: int|
        0 <= c < bets.len() && (#[trigger] ranks[c]).is_some() && forall|j: int|
            0 <= j < bets.len() ==> bets[j] <= bets[c]
}

/// The sum of a sequence built entry by entry from two others is the sum of
/// their sums.
pub proof fn lemma_sum_pointwise(a: Seq<int>, b: Seq<int>, c: Seq<int>)
    requires
        a.len() == b.len(),
        c.len() == a.len(),
        forall|i: int| 0 <= i < a.len() ==> c[i] == a[i] + b[i],
    ensures
        sum(c) == sum(a) + sum(b),
    decreases a.len(),
{
    if a.len() > 0 {
        lemma_sum_pointwise(a.drop_last(), b.drop_last(), c.drop_last());
    }
}

/// A sequence of zeros sums to zero.
pub proof fn lemma_sum_zeros(a: Seq<int>)
    requires
        forall|i: int| 0 <= i < a.len() ==> a[i] == 0,
    ensures
        sum(a) == 0,
    decreases a.len(),
{
    if a.len() > 0 {
        lemma_sum_zeros(a.drop_last());
    }
}

/// Adding numbers to chip amounts entry by entry adds their sum to the
/// total.
pub proof fn lemma_total_plus(x: Seq<u32>, y: Seq<int>, z: Seq<u32>)
    requires
        x.len() == y.len(),
        z.len() == x.len(),
        forall|i: int| 0 <= i < x.len() ==> z[i] == x[i] + y[i],
    ensures
        total(z) == total(x) + sum(y),
    decreases x.len(),
{
    if x.len() > 0 {
        lemma_total_plus(x.drop_last(), y.drop_last(), z.drop_last());
    }
}

/// The shares of the first `m` players in one layer: an even share for each
/// winner among them and the remainder once.
proof fn lemma_layer_shares_prefix(
    bets: Seq<u32>,
    ranks: Seq<Option<HandRank>>,
    prev: int,
    level: int,
    m: int,
)
    requires
        bets.len() == ranks.len(),
        0 <= m <= bets.len(),
        0 <= prev < level,
    ensures
        sum(layer_shares(bets, ranks, prev, level).take(m)) == winner_count(bets, ranks, level, m)
            * (layer_chips(bets, prev, level) / winner_count(
            bets,
            ranks,
            level,
            bets.len() as int,
        )) + if winner_count(bets, ranks, level, m) > 0 {
            layer_chips(bets, prev, level) % winner_count(bets, ranks, level, bets.len() as int)
        } else {
            0
        },
    decreases m,
{
    let shares = layer_shares(bets, ranks, prev, level);
    let n = bets.len() as int;
    let w = winner_count(bets, ranks, level, n);
    let chips = layer_chips(bets, prev, level);
    if m > 0 {
        lemma_layer_shares_prefix(bets, ranks, prev, level, m - 1);
        lemma_winner_count(bets, ranks, level, m - 1);
        lemma_winner_count(bets, ranks, level, n);
        assert(shares.take(m).drop_last() =~= shares.take(m - 1));
        let before = winner_count(bets, ranks, level, m - 1);
        let q = chips / w;
        assert((before + 1) * q == before * q + q) by (nonlinear_arith);
    }
}

/// The shares in one layer add up to its chips where a player wins it, and
/// to nothing where nobody contends.
pub proof fn lemma_layer_shares_sum(
    bets: Seq<u32>,
    ranks: Seq<Option<HandRank>>,
    prev: int,
    level: int,
)
    requires
        bets.len() == ranks.len(),
        0 <= prev < level,
    ensures
        winner_count(bets, ranks, level, bets.len() as int) > 0 ==> sum(
            layer_shares(bets, ranks, prev, level),
        ) == layer_chips(bets, prev, level),
        winner_count(bets, ranks, level, bets.len() as int) == 0 ==> sum(
            layer_shares(bets, ranks, prev, level),
        ) == 0,
        0 <= sum(layer_shares(bets, ranks, prev, level)) <= layer_chips(bets, prev, level),
{
    let n = bets.len() as int;
    let shares = layer_shares(bets, ranks, prev, level);
    let w = winner_count(bets, ranks, level, n);
    let chips = layer_chips(bets, prev, level);
    lemma_layer_shares_prefix(bets, ranks, prev, level, n);
    lemma_winner_count(bets, ranks, level, n);
    lemma_layer_chips(bets, prev, level);
    assert(shares.take(n) =~= shares);
    if w > 0 {
        assert(w * (chips / w) + chips % w == chips) by (nonlinear_arith)
            requires
                w > 0,
        ;
    }
}

/// A contender for a layer makes somebody win it.
pub proof fn lemma_contender_wins(
    bets: Seq<u32>,
    ranks: Seq<Option<HandRank>>,
    level: int,
    c: int,
)
    requires
        bets.len() == ranks.len(),
        0 <= c < bets.len(),
        contends(bets, ranks, level, c),
    ensures
        winner_count(bets, ranks, level, bets.len() as int) > 0,
{
    let n = bets.len() as int;
    lemma_top_score(bets, ranks, level, n);
    crate::card::lemma_score_nonnegative(ranks[c].unwrap());
    let w = choose|i: int|
        0 <= i < n && contends(bets, ranks, level, i) && (#[trigger] ranks[i]).unwrap().score()
            == top_score(bets, ranks, level, n);
    lemma_winner_count(bets, ranks, level, n);
    lemma_winner_count(bets, ranks, level, w);
    assert(winner_count(bets, ranks, level, w) < winner_count(bets, ranks, level, w + 1)
        <= winner_count(bets, ranks, level, n));
}

/// With every commitment within `cap`, the layers up to `cap` hold all that
/// was committed.
pub proof fn lemma_committed_all(bets: Seq<u32>, cap: int)
    requires
        forall|i: int| 0 <= i < bets.len() ==> bets[i] <= cap,
        0 <= cap,
    ensures
        committed_below(bets, cap) == total(bets),
    decreases bets.len(),
{
    if bets.len() > 0 {
        let front = bets.drop_last();
        lemma_committed_all(front, cap);
    }
}

/// What the players win of the layers above `prev` is no more than the
/// chips committed above `prev`, and all of them where the highest
/// commitment belongs to a player who shows a hand.
pub proof fn lemma_winnings_sum(bets: Seq<u32>, ranks: Seq<Option<HandRank>>, prev: int)
    requires
        bets.len() == ranks.len(),
        0 <= prev,
    ensures
        0 <= sum(winnings_from(bets, ranks, prev)) <= total(bets) - committed_below(bets, prev),
        top_is_shown(bets, ranks) ==> sum(winnings_from(bets, ranks, prev)) == total(bets)
            - committed_below(bets, prev),
    decreases 0x1_0000_0000 - prev,
{
    let level = lowest_above(bets, prev);
    let all = winnings_from(bets, ranks, prev);
    lemma_lowest_above(bets, prev);
    lemma_layer_chips(bets, 0, prev);
    if prev < level < 0x1_0000_0000 {
        let shares = layer_shares(bets, ranks, prev, level);
        let rest = winnings_from(bets, ranks, level);
        lemma_winnings_sum(bets, ranks, level);
        lemma_layer_shares_sum(bets, ranks, prev, level);
        lemma_layer_chips(bets, prev, level);
        lemma_sum_pointwise(shares, rest, all);
        if top_is_shown(bets, ranks) {
            let c = choose|c: int|
                0 <= c < bets.len() && (#[trigger] ranks[c]).is_some() && forall|j: int|
                    0 <= j < bets.len() ==> bets[j] <= bets[c];
            lemma_contender_wins(bets, ranks, level, c);
        }
    } else {
        lemma_committed_all(bets, prev);
        lemma_sum_zeros(all);
    }
}

/// Nobody wins a negative amount.
pub proof fn lemma_winnings_nonnegative(
    bets: Seq<u32>,
    ranks: Seq<Option<HandRank>>,
    prev: int,
    i: int,
)
    requires
        bets.len() == ranks.len(),
        0 <= prev,
        0 <= i < bets.len(),
    ensures
        0 <= winnings_above(bets, ranks, prev, i),
    decreases 0x1_0000_0000 - prev,
{
    let level = lowest_above(bets, prev);
    if prev < level < 0x1_0000_0000 {
        lemma_winnings_nonnegative(bets, ranks, level, i);
        lemma_layer_chips(bets, prev, level);
        lemma_winner_count(bets, ranks, level, bets.len() as int);
        lemma_winner_count(bets, ranks, level, i);
        let w = winner_count(bets, ranks, level, bets.len() as int);
        let chips = layer_chips(bets, prev, level);
        if wins_layer(bets, ranks, level, i) {
            assert(winner_count(bets, ranks, level, i + 1) <= w);
            assert(chips / w >= 0 && chips % w >= 0) by (nonlinear_arith)
                requires
                    chips >= 0,
                    w > 0,
            ;
        }
    }
}

/// No entry of a sequence of numbers that are not negative exceeds their
/// sum.
pub proof fn lemma_sum_bounds(a: Seq<int>)
    requires
        forall|i: int| 0 <= i < a.len() ==> 0 <= a[i],
    ensures
        0 <= sum(a),
        forall|i: int| 0 <= i < a.len() ==> #[trigger] a[i] <= sum(a),
    decreases a.len(),
{
    if a.len() > 0 {
        let front = a.drop_last();
        lemma_sum_bounds(front);
        assert forall|i: int| 0 <= i < a.len() implies #[trigger] a[i] <= sum(a) by {
            if i < front.len() {
                assert(front[i] == a[i]);
            }
        }
    }
}

/// What the players win at a showdown is no more than was committed, and
/// all of it where the highest commitment belongs to a player who shows a
/// hand.
pub proof fn lemma_all_winnings_sum(bets: Seq<u32>, ranks: Seq<Option<HandRank>>)
    requires
        bets.len() == ranks.len(),
    ensures
        0 <= sum(all_winnings(bets, ranks)) <= total(bets),
        top_is_shown(bets, ranks) ==> sum(all_winnings(bets, ranks)) == total(bets),
        forall|i: int|
            0 <= i < bets.len() ==> 0 <= #[trigger] all_winnings(bets, ranks)[i] <= total(bets),
{
    assert forall|i: int| 0 <= i < bets.len() implies 0 <= #[trigger] all_winnings(bets, ranks)[i] by {
        lemma_winnings_nonnegative(bets, ranks, 0, i);
    }
    lemma_sum_bounds(all_winnings(bets, ranks));
    lemma_winnings_sum(bets, ranks, 0);
    assert(committed_below(bets, 0) == 0) by {
        lemma_zero_layer(bets);
    }
}

/// A player who shows no hand wins nothing of the layers above `prev`.
pub proof fn lemma_no_hand_no_winnings(
    bets: Seq<u32>,
    ranks: Seq<Option<HandRank>>,
    prev: int,
    i: int,
)
    requires
        0 <= i < ranks.len(),
        ranks[i].is_none(),
    ensures
        winnings_above(bets, ranks, prev, i) == 0,
    decreases 0x1_0000_0000 - prev,
{
    let level = lowest_above(bets, prev);
    if prev < level < 0x1_0000_0000 {
        lemma_no_hand_no_winnings(bets, ranks, level, i);
    }
}

/// The layer from nothing to nothing holds nothing.
proof fn lemma_zero_layer(bets: Seq<u32>)
    ensures
        layer_chips(bets, 0, 0) == 0,
    decreases bets.len(),
{
    if bets.len() > 0 {
        lemma_zero_layer(bets.drop_last());
    }
}

} // verus!
