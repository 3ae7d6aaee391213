//! Side pots: how the chips committed in a hand are split among the players
//! who stayed in, layer by layer.

use crate::card::HandRank;
use crate::state::total;
use vstd::prelude::*;

verus! {

/// The lowest commitment above `prev`; `prev` itself where there is none.
pub open spec fn lowest_above(bets: Seq<u32>, prev: int) -> int
    decreases bets.len(),
{
    if bets.len() == 0 {
        prev
    } else {
        let rest = lowest_above(bets.drop_last(), prev);
        let b = bets.last() as int;
        if b > prev && (rest == prev || b < rest) {
            b
        } else {
            rest
        }
    }
}

/// What a commitment `b` adds to the layer between `prev` and `level`.
pub open spec fn slice_of(b: int, prev: int, level: int) -> int {
    if b <= prev {
        0
    } else if b - prev < level - prev {
        b - prev
    } else {
        level - prev
    }
}

/// The chips of the layer between `prev` and `level`.
pub open spec fn layer_chips(bets: Seq<u32>, prev: int, level: int) -> int
    decreases bets.len(),
{
    if bets.len() == 0 {
        0
    } else {
        layer_chips(bets.drop_last(), prev, level) + slice_of(bets.last() as int, prev, level)
    }
}

/// Player `i` may win the layer that ends at `level`: they show a hand and
/// have committed at least `level`.
pub open spec fn contends(bets: Seq<u32>, ranks: Seq<Option<HandRank>>, level: int, i: int) -> bool {
    bets[i] >= level && ranks[i].is_some()
}

/// The best score among the first `upto` players who contend for the layer;
/// -1 where none of them does.
pub open spec fn top_score(
    bets: Seq<u32>,
    ranks: Seq<Option<HandRank>>,
    level: int,
    upto: int,
) -> int
    decreases upto,
{
    if upto <= 0 {
        -1
    } else {
        let rest = top_score(bets, ranks, level, upto - 1);
        if contends(bets, ranks, level, upto - 1) && ranks[upto - 1].unwrap().score() > rest {
            ranks[upto - 1].unwrap().score()
        } else {
            rest
        }
    }
}

/// Player `i` wins the layer: they contend, and no contender is stronger.
pub open spec fn wins_layer(bets: Seq<u32>, ranks: Seq<Option<HandRank>>, level: int, i: int) -> bool {
    contends(bets, ranks, level, i) && ranks[i].unwrap().score() == top_score(
        bets,
        ranks,
        level,
        bets.len() as int,
    )
}

/// How many of the first `upto` players win the layer.
pub open spec fn winner_count(
    bets: Seq<u32>,
    ranks: Seq<Option<HandRank>>,
    level: int,
    upto: int,
) -> int
    decreases upto,
{
    if upto <= 0 {
        0
    } else {
        winner_count(bets, ranks, level, upto - 1) + if wins_layer(bets, ranks, level, upto - 1) {
            1int
        } else {
            0int
        }
    }
}

/// What player `i` gets of the layer between `prev` and `level`: an even
/// share if they win it, and the remainder too if they are the first winner
/// in hand order.
pub open spec fn layer_share(
    bets: Seq<u32>,
    ranks: Seq<Option<HandRank>>,
    prev: int,
    level: int,
    i: int,
) -> int {
    if wins_layer(bets, ranks, level, i) {
        let winners = winner_count(bets, ranks, level, bets.len() as int);
        let chips = layer_chips(bets, prev, level);
        chips / winners + if winner_count(bets, ranks, level, i) == 0 {
            chips % winners
        } else {
            0
        }
    } else {
        0
    }
}

/// What player `i` gets of all layers above `prev`.
pub open spec fn winnings_above(
    bets: Seq<u32>,
    ranks: Seq<Option<HandRank>>,
    prev: int,
    i: int,
) -> int
    decreases 0x1_0000_0000 - prev,
{
    let level = lowest_above(bets, prev);
    if prev < level < 0x1_0000_0000 {
        layer_share(bets, ranks, prev, level, i) + winnings_above(bets, ranks, level, i)
    } else {
        0
    }
}

/// What each player wins at a showdown, given what each has committed and
/// the hand each shows.
pub open spec fn all_winnings(bets: Seq<u32>, ranks: Seq<Option<HandRank>>) -> Seq<int> {
    Seq::new(bets.len(), |i: int| winnings_above(bets, ranks, 0, i))
}

/// The chips committed up to `cap` by all players: what the layers up to
/// `cap` hold together.
pub open spec fn committed_below(bets: Seq<u32>, cap: int) -> int {
    layer_chips(bets, 0, cap)
}

/// `lowest_above` is a commitment above `prev`, and no commitment lies
/// strictly between them; or it is `prev`, and no commitment is above.
pub proof fn lemma_lowest_above(bets: Seq<u32>, prev: int)
    ensures
        lowest_above(bets, prev) >= prev,
        lowest_above(bets, prev) > prev ==> exists|i: int|
            0 <= i < bets.len() && #[trigger] bets[i] == lowest_above(bets, prev),
        forall|i: int|
            0 <= i < bets.len() && #[trigger] bets[i] > prev ==> prev < lowest_above(bets, prev)
                <= bets[i],
    decreases bets.len(),
{
    if bets.len() > 0 {
        let front = bets.drop_last();
        lemma_lowest_above(front, prev);
        assert forall|i: int| 0 <= i < bets.len() && #[trigger] bets[i] > prev implies prev
            < lowest_above(bets, prev) <= bets[i] by {
            if i < front.len() {
                assert(front[i] == bets[i]);
            }
        }
    }
}

/// A layer holds no more than was committed, and layers stack up.
pub proof fn lemma_layer_chips(bets: Seq<u32>, prev: int, level: int)
    requires
        0 <= prev <= level,
    ensures
        0 <= layer_chips(bets, prev, level),
        committed_below(bets, level) == committed_below(bets, prev) + layer_chips(
            bets,
            prev,
            level,
        ),
        committed_below(bets, level) <= total(bets),
    decreases bets.len(),
{
    if bets.len() > 0 {
        lemma_layer_chips(bets.drop_last(), prev, level);
    }
}

/// The chips of a layer, counted over a longer list, are no fewer.
pub proof fn lemma_layer_chips_prefix(bets: Seq<u32>, prev: int, level: int, k: int)
    requires
        0 <= prev <= level,
        0 <= k <= bets.len(),
    ensures
        0 <= layer_chips(bets.take(k), prev, level) <= layer_chips(bets, prev, level),
    decreases bets.len() - k,
{
    lemma_layer_chips(bets.take(k), prev, level);
    if k < bets.len() {
        lemma_layer_chips_prefix(bets, prev, level, k + 1);
        assert(bets.take(k + 1).drop_last() =~= bets.take(k));
        assert(layer_chips(bets.take(k + 1), prev, level) == layer_chips(
            bets.take(k),
            prev,
            level,
        ) + slice_of(bets.take(k + 1).last() as int, prev, level));
    } else {
        assert(bets.take(k) =~= bets);
        lemma_layer_chips(bets, prev, level);
    }
}

/// The top score is the score of a contender wherever one exists; a player
/// wins among the first `upto` only if they are one of them.
pub proof fn lemma_top_score(bets: Seq<u32>, ranks: Seq<Option<HandRank>>, level: int, upto: int)
    requires
        0 <= upto <= bets.len(),
    ensures
        top_score(bets, ranks, level, upto) >= -1,
        forall|i: int|
            0 <= i < upto && contends(bets, ranks, level, i) ==> (#[trigger] ranks[i]).unwrap().score()
                <= top_score(bets, ranks, level, upto),
        top_score(bets, ranks, level, upto) >= 0 ==> exists|i: int|
            0 <= i < upto && contends(bets, ranks, level, i) && (#[trigger] ranks[i]).unwrap().score()
                == top_score(bets, ranks, level, upto),
    decreases upto,
{
    if upto > 0 {
        lemma_top_score(bets, ranks, level, upto - 1);
        let rest = top_score(bets, ranks, level, upto - 1);
        if rest >= 0 {
            let w = choose|i: int|
                0 <= i < upto - 1 && contends(bets, ranks, level, i) && (#[trigger] ranks[i]).unwrap().score()
                    == rest;
            assert(0 <= w < upto);
        }
        if contends(bets, ranks, level, upto - 1) {
            crate::card::lemma_score_nonnegative(ranks[upto - 1].unwrap());
        }
    }
}

/// The winners among the first `upto` players are at most `upto`.
pub proof fn lemma_winner_count(bets: Seq<u32>, ranks: Seq<Option<HandRank>>, level: int, upto: int)
    requires
        0 <= upto,
    ensures
        0 <= winner_count(bets, ranks, level, upto) <= upto,
        forall|i: int|
            0 <= i < upto && wins_layer(bets, ranks, level, i) ==> winner_count(
                bets,
                ranks,
                level,
                i,
            ) < #[trigger] winner_count(bets, ranks, level, i + 1) <= winner_count(
                bets,
                ranks,
                level,
                upto,
            ),
    decreases upto,
{
    if upto > 0 {
        lemma_winner_count(bets, ranks, level, upto - 1);
    }
}

/// Finds the lowest commitment above `prev`; gives `prev` back where there
/// is none.
fn find_lowest_above(bets: &Vec<u32>, prev: u32) -> (level: u32)
    ensures
        level == lowest_above(bets@, prev as int),
{
    let mut level: u32 = prev;
    let mut i: usize = 0;
    while i < bets.len()
        invariant
            i <= bets.len(),
            level == lowest_above(bets@.take(i as int), prev as int),
        decreases bets.len() - i,
    {
        assert(bets@.take(i as int + 1).drop_last() =~= bets@.take(i as int));
        let b = bets[i];
        if b > prev && (level == prev || b < level) {
            level = b;
        }
        i += 1;
    }
    assert(bets@.take(bets.len() as int) =~= bets@);
    level
}

/// Adds up the chips of the layer between `prev` and `level`.
fn layer_total(bets: &Vec<u32>, prev: u32, level: u32) -> (chips: u32)
    requires
        prev <= level,
        total(bets@) <= u32::MAX,
    ensures
        chips == layer_chips(bets@, prev as int, level as int),
{
    let mut chips: u32 = 0;
    let mut i: usize = 0;
    proof {
        lemma_layer_chips(bets@, 0, prev as int);
        lemma_layer_chips(bets@, prev as int, level as int);
    }
    while i < bets.len()
        invariant
            i <= bets.len(),
            prev <= level,
            chips == layer_chips(bets@.take(i as int), prev as int, level as int),
            layer_chips(bets@, prev as int, level as int) <= u32::MAX,
        decreases bets.len() - i,
    {
        proof {
            assert(bets@.take(i as int + 1).drop_last() =~= bets@.take(i as int));
            lemma_layer_chips_prefix(bets@, prev as int, level as int, i as int + 1);
        }
        let b = bets[i];
        if b > prev {
            let part = if b - prev < level - prev {
                b - prev
            } else {
                level - prev
            };
            chips = chips + part;
        }
        i += 1;
    }
    assert(bets@.take(bets.len() as int) =~= bets@);
    chips
}

/// The best score among the contenders of the layer that ends at `level`.
fn best_contender(bets: &Vec<u32>, ranks: &Vec<Option<HandRank>>, level: u32) -> (top: Option<u32>)
    requires
        bets.len() == ranks.len(),
    ensures
        match top {
            Some(t) => t == top_score(bets@, ranks@, level as int, bets.len() as int),
            None => top_score(bets@, ranks@, level as int, bets.len() as int) == -1,
        },
{
    let mut top: Option<u32> = None;
    let mut i: usize = 0;
    while i < bets.len()
        invariant
            i <= bets.len(),
            bets.len() == ranks.len(),
            match top {
                Some(t) => t == top_score(bets@, ranks@, level as int, i as int),
                None => top_score(bets@, ranks@, level as int, i as int) == -1,
            },
        decreases bets.len() - i,
    {
        if bets[i] >= level {
            match &ranks[i] {
                Some(rank) => {
                    let score = rank.strength();
                    let better = match top {
                        Some(t) => score > t,
                        None => true,
                    };
                    if better {
                        top = Some(score);
                    }
                },
                None => {},
            }
        }
        i += 1;
    }
    top
}

/// Whether the player at `i` wins the layer, given the best score among its
/// contenders.
fn is_layer_winner(
    bets: &Vec<u32>,
    ranks: &Vec<Option<HandRank>>,
    level: u32,
    top: Option<u32>,
    i: usize,
) -> (wins: bool)
    requires
        bets.len() == ranks.len(),
        i < bets.len(),
        match top {
            Some(t) => t == top_score(bets@, ranks@, level as int, bets.len() as int),
            None => top_score(bets@, ranks@, level as int, bets.len() as int) == -1,
        },
    ensures
        wins == wins_layer(bets@, ranks@, level as int, i as int),
{
    proof {
        lemma_top_score(bets@, ranks@, level as int, bets.len() as int);
    }
    if bets[i] < level {
        return false;
    }
    match (&ranks[i], top) {
        (Some(rank), Some(t)) => rank.strength() == t,
        (Some(rank), None) => {
            proof {
                crate::card::lemma_score_nonnegative(*rank);
            }
            false
        },
        _ => false,
    }
}

/// Counts the winners of the layer.
fn count_winners(
    bets: &Vec<u32>,
    ranks: &Vec<Option<HandRank>>,
    level: u32,
    top: Option<u32>,
) -> (count: usize)
    requires
        bets.len() == ranks.len(),
        match top {
            Some(t) => t == top_score(bets@, ranks@, level as int, bets.len() as int),
            None => top_score(bets@, ranks@, level as int, bets.len() as int) == -1,
        },
    ensures
        count == winner_count(bets@, ranks@, level as int, bets.len() as int),
{
    let mut count: usize = 0;
    let mut i: usize = 0;
    while i < bets.len()
        invariant
            i <= bets.len(),
            bets.len() == ranks.len(),
            match top {
                Some(t) => t == top_score(bets@, ranks@, level as int, bets.len() as int),
                None => top_score(bets@, ranks@, level as int, bets.len() as int) == -1,
            },
            count == winner_count(bets@, ranks@, level as int, i as int),
            count <= i,
        decreases bets.len() - i,
    {
        if is_layer_winner(bets, ranks, level, top, i) {
            count += 1;
        }
        i += 1;
    }
    count
}

/// An even share of `chips` among `winners`, with the remainder on top for
/// the first of them.
pub fn share_of(chips: u32, winners: usize, first: bool) -> (amount: u32)
    requires
        winners > 0,
    ensures
        amount == chips as int / winners as int + if first {
            chips as int % winners as int
        } else {
            0
        },
        amount <= chips,
{
    let w: u64 = winners as u64;
    let c: u64 = chips as u64;
    let q: u64 = c / w;
    let r: u64 = c % w;
    proof {
        assert(q * w + r == c) by (nonlinear_arith)
            requires
                q == c / w,
                r == c % w,
                w > 0,
        ;
        assert(q <= q * w) by (nonlinear_arith)
            requires
                w >= 1,
                q >= 0,
        ;
    }
    if first {
        (q + r) as u32
    } else {
        q as u32
    }
}

/// A vector of `n` zeros.
fn zeros(n: usize) -> (v: Vec<u32>)
    ensures
        v@.len() == n,
        forall|i: int| 0 <= i < n ==> v@[i] == 0,
{
    let mut v: Vec<u32> = Vec::with_capacity(n);
    let mut i: usize = 0;
    while i < n
        invariant
            i <= n,
            v@.len() == i,
            forall|j: int| 0 <= j < i ==> v@[j] == 0,
        decreases n - i,
    {
        v.push(0);
        i += 1;
    }
    v
}

/// Splits the chips committed in a hand among the players who show a hand.
///
/// Commitments are cut into layers at each distinct amount. A layer goes to
/// the strongest hands among the players who committed at least up to its
/// top, in even shares, the remainder to the first of them in hand order. A
/// layer that no such player contends for goes to nobody.
pub fn side_pot_winnings(bets: &Vec<u32>, ranks: &Vec<Option<HandRank>>) -> (won: Vec<u32>)
    requires
        bets.len() == ranks.len(),
        total(bets@) <= u32::MAX,
    ensures
        won@.len() == bets.len(),
        forall|i: int| 0 <= i < bets.len() ==> won@[i] == #[trigger] all_winnings(bets@, ranks@)[i],
        forall|i: int| 0 <= i < bets.len() ==> #[trigger] won@[i] <= total(bets@),
{
    let n = bets.len();
    let mut won = zeros(n);
    let mut prev: u32 = 0;
    proof {
        lemma_layer_chips(bets@, 0, 0);
    }
    loop
        invariant
            n == bets.len(),
            bets.len() == ranks.len(),
            total(bets@) <= u32::MAX,
            won@.len() == n,
            forall|i: int|
                0 <= i < n ==> won@[i] + winnings_above(bets@, ranks@, prev as int, i)
                    == #[trigger] winnings_above(bets@, ranks@, 0, i),
            forall|i: int| 0 <= i < n ==> #[trigger] won@[i] <= committed_below(bets@, prev as int),
            committed_below(bets@, prev as int) <= total(bets@),
        ensures
            won@.len() == n,
            forall|i: int| 0 <= i < n ==> won@[i] == #[trigger] winnings_above(bets@, ranks@, 0, i),
            forall|i: int| 0 <= i < n ==> #[trigger] won@[i] <= total(bets@),
        decreases u32::MAX - prev,
    {
        let level = find_lowest_above(bets, prev);
        proof {
            lemma_lowest_above(bets@, prev as int);
        }
        if level == prev {
            break;
        }
        proof {
            lemma_layer_chips(bets@, prev as int, level as int);
        }
        let chips = layer_total(bets, prev, level);
        let top = best_contender(bets, ranks, level);
        let winners = count_winners(bets, ranks, level, top);
        let ghost before = won@;
        let mut seen: usize = 0;
        let mut i: usize = 0;
        while i < n
            invariant
                n == bets.len(),
                bets.len() == ranks.len(),
                i <= n,
                won@.len() == n,
                before.len() == n,
                prev < level,
                chips == layer_chips(bets@, prev as int, level as int),
                winners == winner_count(bets@, ranks@, level as int, n as int),
                seen == winner_count(bets@, ranks@, level as int, i as int),
                seen <= i,
                match top {
                    Some(t) => t == top_score(bets@, ranks@, level as int, bets.len() as int),
                    None => top_score(bets@, ranks@, level as int, bets.len() as int) == -1,
                },
                forall|j: int|
                    0 <= j < i ==> #[trigger] won@[j] == before[j] + layer_share(
                        bets@,
                        ranks@,
                        prev as int,
                        level as int,
                        j,
                    ),
                forall|j: int| i <= j < n ==> #[trigger] won@[j] == before[j],
                forall|j: int| 0 <= j < i ==> #[trigger] won@[j] <= before[j] + chips,
                forall|j: int| 0 <= j < n ==> #[trigger] before[j] <= committed_below(bets@, prev as int),
                committed_below(bets@, level as int) == committed_below(bets@, prev as int) + chips,
                committed_below(bets@, level as int) <= u32::MAX,
            decreases n - i,
        {
            if is_layer_winner(bets, ranks, level, top, i) {
                proof {
                    lemma_winner_count(bets@, ranks@, level as int, n as int);
                    assert(winner_count(bets@, ranks@, level as int, i as int + 1) <= winners);
                }
                let amount = share_of(chips, winners, seen == 0);
                let sum = won[i] + amount;
                won.set(i, sum);
                seen += 1;
            }
            i += 1;
        }
        prev = level;
    }
    won
}

} // verus!
