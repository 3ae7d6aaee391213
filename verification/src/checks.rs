//! Tests, at run time, of what the engine and the room rely on. Code that
//! builds or changes a state by hand can ask before it calls them.

use crate::room::Room;
use crate::start::seated_twice;
use crate::state::{find_index, find_player, total, GamePhase, GameState, PlayerId};
use crate::streets::{cards_to_come, is_betting_phase};
use std::collections::HashMap;
use vstd::prelude::*;

verus! {

/// Adds up chip amounts.
pub fn sum_amounts(amounts: &Vec<u32>) -> (sum: u128)
    ensures
        sum == total(amounts@),
{
    let mut sum: u128 = 0;
    let mut i: usize = 0;
    while i < amounts.len()
        invariant
            i <= amounts.len(),
            sum == total(amounts@.take(i as int)),
            sum <= i * 0xffff_ffff,
        decreases amounts.len() - i,
    {
        assert(amounts@.take(i as int + 1).drop_last() =~= amounts@.take(i as int));
        sum = sum + amounts[i] as u128;
        i += 1;
    }
    assert(amounts@.take(amounts.len() as int) =~= amounts@);
    sum
}

/// Whether some id occurs twice in the list.
fn listed_twice(ids: &Vec<PlayerId>) -> (twice: bool)
    ensures
        twice == !ids@.no_duplicates(),
{
    let len = ids.len();
    let mut i: usize = 0;
    while i < len
        invariant
            i <= len,
            len == ids@.len(),
            forall|a: int, b: int| 0 <= a < i && 0 <= b < len && a != b ==> ids@[a] != ids@[b],
        decreases len - i,
    {
        let mut j: usize = i + 1;
        while j < len
            invariant
                i < len,
                i < j <= len,
                len == ids@.len(),
                forall|b: int| i < b < j ==> ids@[i as int] != ids@[b],
            decreases len - j,
        {
            if ids[i] == ids[j] {
                return true;
            }
            j += 1;
        }
        i += 1;
    }
    false
}

/// Whether the list holds the id.
fn is_listed(ids: &Vec<PlayerId>, id: PlayerId) -> (listed: bool)
    ensures
        listed == ids@.contains(id),
{
    let mut i: usize = 0;
    while i < ids.len()
        invariant
            i <= ids.len(),
            forall|j: int| 0 <= j < i ==> ids@[j] != id,
        decreases ids.len() - i,
    {
        if ids[i] == id {
            return true;
        }
        i += 1;
    }
    false
}

/// Every key of `indices` is in `order`.
pub open spec fn keys_listed(indices: Map<PlayerId, usize>, order: Seq<PlayerId>) -> bool {
    forall|id: PlayerId| #[trigger] indices.contains_key(id) ==> order.contains(id)
}

/// The first `upto` of `keys` are in `order`.
pub open spec fn listed_upto(keys: Seq<PlayerId>, order: Seq<PlayerId>, upto: int) -> bool {
    forall|j: int| 0 <= j < upto ==> order.contains(#[trigger] keys[j])
}

proof fn lemma_listed_all(indices: Map<PlayerId, usize>, keys: Seq<PlayerId>, order: Seq<PlayerId>)
    requires
        keys.to_set() == indices.dom(),
    ensures
        listed_upto(keys, order, keys.len() as int) == keys_listed(indices, order),
{
    if listed_upto(keys, order, keys.len() as int) {
        assert forall|id: PlayerId| #[trigger] indices.contains_key(id) implies order.contains(id) by {
            let j = choose|j: int| 0 <= j < keys.len() && keys[j] == id;
        }
    }
    if keys_listed(indices, order) {
        assert forall|j: int| 0 <= j < keys.len() implies order.contains(#[trigger] keys[j]) by {
            assert(keys.to_set().contains(keys[j]));
        }
    }
}

/// Whether every player who has a position is in the hand.
fn indexed_are_listed(indices: &HashMap<PlayerId, usize>, order: &Vec<PlayerId>) -> (ok: bool)
    ensures
        ok == keys_listed(indices@, order@),
{
    broadcast use vstd::std_specs::hash::group_hash_axioms;

    let mut ok = true;
    for k in it: indices.keys()
        invariant
            it.seq().unref().to_set() == indices@.dom(),
            ok == listed_upto(it.seq().unref(), order@, it.index() as int),
            it.index() == it.seq().len() ==> ok == keys_listed(indices@, order@),
    {
        assert(listed_upto(it.seq().unref(), order@, it.seq().len() as int) == keys_listed(
            indices@,
            order@,
        )) by {
            lemma_listed_all(indices@, it.seq().unref(), order@);
        }
        if !is_listed(order, *k) {
            ok = false;
        }
    }
    ok
}

/// Every key of `connected` is a key of `members`.
pub open spec fn all_members<A, B>(connected: Map<PlayerId, A>, members: Map<PlayerId, B>) -> bool {
    forall|id: PlayerId| #[trigger] connected.contains_key(id) ==> members.contains_key(id)
}

/// The first `upto` of `keys` are keys of `members`.
pub open spec fn members_upto<B>(keys: Seq<PlayerId>, members: Map<PlayerId, B>, upto: int) -> bool {
    forall|j: int| 0 <= j < upto ==> members.contains_key(#[trigger] keys[j])
}

proof fn lemma_members_all<A, B>(
    connected: Map<PlayerId, A>,
    keys: Seq<PlayerId>,
    members: Map<PlayerId, B>,
)
    requires
        keys.to_set() == connected.dom(),
    ensures
        members_upto(keys, members, keys.len() as int) == all_members(connected, members),
{
    if members_upto(keys, members, keys.len() as int) {
        assert forall|id: PlayerId| #[trigger]
            connected.contains_key(id) implies members.contains_key(id) by {
            let j = choose|j: int| 0 <= j < keys.len() && keys[j] == id;
        }
    }
    if all_members(connected, members) {
        assert forall|j: int| 0 <= j < keys.len() implies members.contains_key(
            #[trigger] keys[j],
        ) by {
            assert(keys.to_set().contains(keys[j]));
        }
    }
}

impl GameState {
    /// Tests whether the state is fit for the settling of a hand.
    pub fn is_showdown_ready(&self) -> (ready: bool)
        ensures
            ready == self@.showdown_ready(),
    {
        let n = self.hand_player_order.len();
        if listed_twice(&self.hand_player_order) {
            return false;
        }
        if self.bets.len() != n || self.player_cards.len() != n {
            return false;
        }
        if !indexed_are_listed(&self.player_indices, &self.hand_player_order) {
            return false;
        }
        let mut stacks: u128 = 0;
        let mut i: usize = 0;
        while i < n
            invariant
                i <= n,
                n == self@.n(),
                forall|j: int|
                    0 <= j < i ==> self@.players.contains_key(#[trigger] self@.hand_player_order[j]),
                forall|j: int|
                    0 <= j < i ==> self@.player_indices.contains_key(
                        #[trigger] self@.hand_player_order[j],
                    ) && self@.player_indices[self@.hand_player_order[j]] == j,
                forall|j: int|
                    0 <= j < i ==> (#[trigger] self@.player_at(j)).wins < u32::MAX
                        && self@.player_at(j).losses < u32::MAX,
                stacks == total(self@.stacks().take(i as int)),
                stacks <= i * 0xffff_ffff,
            decreases n - i,
        {
            let id = self.hand_player_order[i];
            match find_index(&self.player_indices, id) {
                Some(k) => {
                    if k != i {
                        return false;
                    }
                },
                None => {
                    return false;
                },
            }
            match find_player(&self.players, id) {
                Some(p) => {
                    if p.wins == u32::MAX || p.losses == u32::MAX {
                        assert(!(self@.player_at(i as int).wins < u32::MAX && self@.player_at(
                            i as int,
                        ).losses < u32::MAX));
                        return false;
                    }
                    proof {
                        assert(self@.stacks().take(i as int + 1).drop_last() =~= self@.stacks().take(
                            i as int,
                        ));
                    }
                    stacks = stacks + p.stack as u128;
                },
                None => {
                    return false;
                },
            }
            i += 1;
        }
        proof {
            assert(self@.stacks().take(n as int) =~= self@.stacks());
        }
        let committed = sum_amounts(&self.bets);
        if committed != self.pot as u128 {
            return false;
        }
        stacks + committed <= 0xffff_ffff
    }

    /// The chips in play in the hand.
    fn chips_in_play(&self) -> (chips: u64)
        requires
            self@.showdown_ready(),
        ensures
            chips == self@.chips(),
    {
        let n = self.hand_player_order.len();
        let mut stacks: u64 = 0;
        let mut i: usize = 0;
        proof {
            crate::state::lemma_total_bounds(self@.stacks());
        }
        while i < n
            invariant
                i <= n,
                n == self@.n(),
                self@.showdown_ready(),
                stacks == total(self@.stacks().take(i as int)),
                stacks <= total(self@.stacks()),
                0 <= total(self@.stacks()) <= u32::MAX,
            decreases n - i,
        {
            proof {
                assert(self@.stacks().take(i as int + 1).drop_last() =~= self@.stacks().take(
                    i as int,
                ));
                lemma_total_take(self@.stacks(), i as int + 1);
            }
            stacks = stacks + self.stack_at(i) as u64;
            i += 1;
        }
        proof {
            assert(self@.stacks().take(n as int) =~= self@.stacks());
        }
        stacks + self.pot as u64
    }

    /// Tests whether the state is fit for the betting rounds of a hand.
    pub fn is_betting_ready(&self) -> (ready: bool)
        ensures
            ready == self@.betting_ready(),
    {
        if !self.is_showdown_ready() {
            return false;
        }
        let n = self.hand_player_order.len();
        let to_come: usize = match self.phase {
            GamePhase::PreFlop => 5,
            GamePhase::Flop => 2,
            GamePhase::Turn => 1,
            GamePhase::River => 0,
            _ => {
                return false;
            },
        };
        if n < 2 || self.player_has_acted.len() != n || self.community_cards.len() != 5
            || self.cur_player_idx >= n || self.deck.len() < to_come {
            return false;
        }
        let mut i: usize = 0;
        while i < n
            invariant
                i <= n,
                n == self@.n(),
                self@.bets.len() == n,
                forall|j: int| 0 <= j < i ==> #[trigger] self@.bets[j] <= self@.max_bet,
            decreases n - i,
        {
            if self.bets[i] > self.max_bet {
                return false;
            }
            i += 1;
        }
        let limit = self.chips_in_play() + self.big_blind as u64;
        self.big_blind <= self.last_raise_amount && self.max_bet as u64 <= limit
            && self.last_raise_amount as u64 <= limit && 2 * limit <= 0xffff_ffff
    }
}

/// The sum of a front part of a sequence is no more than the sum of all.
pub proof fn lemma_total_take(amounts: Seq<u32>, k: int)
    requires
        0 <= k <= amounts.len(),
    ensures
        0 <= total(amounts.take(k)) <= total(amounts),
    decreases amounts.len() - k,
{
    crate::state::lemma_total_bounds(amounts.take(k));
    if k < amounts.len() {
        lemma_total_take(amounts, k + 1);
        assert(amounts.take(k + 1).drop_last() =~= amounts.take(k));
    } else {
        assert(amounts.take(k) =~= amounts);
    }
}

impl GameState {
    /// Tests whether every seated player is a member with a seat number.
    pub fn seats_are_known(&self) -> (known: bool)
        ensures
            known == self@.seats_known(),
    {
        let len = self.seated_players.len();
        let mut i: usize = 0;
        while i < len
            invariant
                i <= len,
                len == self@.seated_players.len(),
                forall|k: int|
                    0 <= k < i ==> self@.players.contains_key(#[trigger] self@.seated_players[k])
                        && self@.players[self@.seated_players[k]].seat_id.is_some(),
            decreases len - i,
        {
            match find_player(&self.players, self.seated_players[i]) {
                Some(p) => {
                    if p.seat_id.is_none() {
                        return false;
                    }
                },
                None => {
                    return false;
                },
            }
            i += 1;
        }
        true
    }
}

/// Whether everyone connected is a member.
fn connected_are_members<A, B>(connected: &HashMap<PlayerId, A>, members: &HashMap<PlayerId, B>) -> (ok:
    bool)
    ensures
        ok == all_members(connected@, members@),
{
    broadcast use vstd::std_specs::hash::group_hash_axioms;

    let mut ok = true;
    for k in it: connected.keys()
        invariant
            it.seq().unref().to_set() == connected@.dom(),
            ok == members_upto(it.seq().unref(), members@, it.index() as int),
            it.index() == it.seq().len() ==> ok == all_members(connected@, members@),
    {
        assert(members_upto(it.seq().unref(), members@, it.seq().len() as int) == all_members(
            connected@,
            members@,
        )) by {
            lemma_members_all(connected@, it.seq().unref(), members@);
        }
        if !members.contains_key(k) {
            ok = false;
        }
    }
    ok
}

impl Room {
    /// Tests whether the room is in a state that its operations keep.
    pub fn is_well_formed(&self) -> (ok: bool)
        ensures
            ok == self@.well_formed(),
    {
        if self.game_state.small_blind > self.game_state.big_blind {
            return false;
        }
        if seated_twice(&self.game_state.seated_players) {
            return false;
        }
        if !self.game_state.seats_are_known() {
            return false;
        }
        match self.game_state.phase {
            GamePhase::WaitingForPlayers | GamePhase::Showdown => {},
            _ => {
                if !self.game_state.is_betting_ready() {
                    return false;
                }
            },
        }
        let ok = connected_are_members(&self.players, &self.game_state.players);
        proof {
            let g = self@.game_state;
            if !ok {
                let id = choose|id: PlayerId| #[trigger]
                    self.players@.contains_key(id) && !self.game_state.players@.contains_key(id);
                assert(self@.players.contains_key(id) && !g.players.contains_key(id));
            }
        }
        ok
    }
}

} // verus!
