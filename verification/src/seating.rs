//! Seats around the table: where a player who sits down goes in the seated
//! order, and whether a seat is free.

use crate::state::{find_player, GameState, GameView, Player, PlayerId};
use std::collections::HashMap;
use vstd::prelude::*;

verus! {

/// A new player at `seat` goes before a player at `existing`, as seen from
/// the seat `anchor` of the first seated player: seats from the anchor
/// upwards come first, seats below it after them, and within each part the
/// lower seat comes first.
pub open spec fn sits_before(anchor: u8, seat: u8, existing: u8) -> bool {
    if (seat >= anchor) == (existing >= anchor) {
        seat < existing
    } else {
        seat < anchor
    }
}

impl GameView {
    /// Every seated player is a member of the room who has a seat number.
    pub open spec fn seats_known(self) -> bool {
        forall|k: int|
            0 <= k < self.seated_players.len() ==> self.players.contains_key(
                #[trigger] self.seated_players[k],
            ) && self.players[self.seated_players[k]].seat_id.is_some()
    }

    /// The seat number of the `k`-th seated player.
    pub open spec fn seat_of(self, k: int) -> u8 {
        self.players[self.seated_players[k]].seat_id.unwrap()
    }

    /// The first position from `k` on whose player a new player at `seat`
    /// goes before; the number of seated players where there is none.
    pub open spec fn insertion_index_from(self, seat: u8, k: int) -> int
        decreases self.seated_players.len() - k,
    {
        if k >= self.seated_players.len() {
            self.seated_players.len() as int
        } else if sits_before(self.seat_of(0), seat, self.seat_of(k)) {
            k
        } else {
            self.insertion_index_from(seat, k + 1)
        }
    }

    /// Where a new player at `seat` goes in the seated order.
    pub open spec fn insertion_index(self, seat: u8) -> int {
        self.insertion_index_from(seat, 0)
    }

    /// The insertion index is a position of the seated order or its end;
    /// the new player goes before the player there and before none of the
    /// players ahead of it.
    pub proof fn lemma_insertion_index(self, seat: u8, k: int)
        requires
            0 <= k <= self.seated_players.len(),
        ensures
            k <= self.insertion_index_from(seat, k) <= self.seated_players.len(),
            self.insertion_index_from(seat, k) < self.seated_players.len() ==> sits_before(
                self.seat_of(0),
                seat,
                self.seat_of(self.insertion_index_from(seat, k)),
            ),
            forall|j: int|
                k <= j < self.insertion_index_from(seat, k) ==> !sits_before(
                    self.seat_of(0),
                    seat,
                    #[trigger] self.seat_of(j),
                ),
        decreases self.seated_players.len() - k,
    {
        if k < self.seated_players.len() && !sits_before(self.seat_of(0), seat, self.seat_of(k)) {
            self.lemma_insertion_index(seat, k + 1);
        }
    }
}

/// Some member other than `except` has the seat `seat_id`.
pub open spec fn seat_is_taken(players: Map<PlayerId, Player>, seat_id: u8, except: PlayerId) -> bool {
    exists|id: PlayerId| holds_seat(players, seat_id, except, id)
}

/// The member `id` has the seat `seat_id` and is not `except`.
pub open spec fn holds_seat(
    players: Map<PlayerId, Player>,
    seat_id: u8,
    except: PlayerId,
    id: PlayerId,
) -> bool {
    players.contains_key(id) && id != except && players[id].seat_id == Some(seat_id)
}

/// One of the first `upto` of `keys` holds the seat.
pub open spec fn found_among(
    players: Map<PlayerId, Player>,
    seat_id: u8,
    except: PlayerId,
    keys: Seq<PlayerId>,
    upto: int,
) -> bool {
    exists|j: int| 0 <= j < upto && holds_seat(players, seat_id, except, #[trigger] keys[j])
}

proof fn lemma_found_step(
    players: Map<PlayerId, Player>,
    seat_id: u8,
    except: PlayerId,
    keys: Seq<PlayerId>,
    upto: int,
)
    requires
        0 <= upto < keys.len(),
    ensures
        found_among(players, seat_id, except, keys, upto + 1) == (found_among(
            players,
            seat_id,
            except,
            keys,
            upto,
        ) || holds_seat(players, seat_id, except, keys[upto])),
{
    if found_among(players, seat_id, except, keys, upto) {
        let j = choose|j: int|
            0 <= j < upto && holds_seat(players, seat_id, except, #[trigger] keys[j]);
        assert(0 <= j < upto + 1);
    }
    if found_among(players, seat_id, except, keys, upto + 1) {
        let j = choose|j: int|
            0 <= j < upto + 1 && holds_seat(players, seat_id, except, #[trigger] keys[j]);
        assert(j < upto || j == upto);
    }
}

proof fn lemma_found_all(
    players: Map<PlayerId, Player>,
    seat_id: u8,
    except: PlayerId,
    keys: Seq<PlayerId>,
)
    requires
        keys.to_set() == players.dom(),
    ensures
        found_among(players, seat_id, except, keys, keys.len() as int) == seat_is_taken(
            players,
            seat_id,
            except,
        ),
{
}

/// Whether some member other than `except` has the seat `seat_id`.
pub fn seat_taken(players: &HashMap<PlayerId, Player>, seat_id: u8, except: PlayerId) -> (taken:
    bool)
    ensures
        taken == seat_is_taken(players@, seat_id, except),
{
    broadcast use vstd::std_specs::hash::group_hash_axioms;

    let mut taken = false;
    for k in it: players.keys()
        invariant
            it.seq().unref().to_set() == players@.dom(),
            taken == found_among(players@, seat_id, except, it.seq().unref(), it.index() as int),
            it.index() == it.seq().len() ==> taken == seat_is_taken(players@, seat_id, except),
    {
        assert(found_among(players@, seat_id, except, it.seq().unref(), it.index() + 1) == (
        found_among(players@, seat_id, except, it.seq().unref(), it.index() as int) || holds_seat(
            players@,
            seat_id,
            except,
            *k,
        ))) by {
            lemma_found_step(players@, seat_id, except, it.seq().unref(), it.index() as int);
        }
        assert(found_among(players@, seat_id, except, it.seq().unref(), it.seq().len() as int)
            == seat_is_taken(players@, seat_id, except)) by {
            lemma_found_all(players@, seat_id, except, it.seq().unref());
        }
        match find_player(players, *k) {
            Some(p) => {
                let same = match p.seat_id {
                    Some(s) => s == seat_id,
                    None => false,
                };
                if same && *k != except {
                    taken = true;
                }
            },
            None => {},
        }
    }
    taken
}

impl GameState {
    /// The seat number of the `k`-th seated player.
    fn seat_at(&self, k: usize) -> (seat: u8)
        requires
            self@.seats_known(),
            k < self@.seated_players.len(),
        ensures
            seat == self@.seat_of(k as int),
    {
        match find_player(&self.players, self.seated_players[k]) {
            Some(p) => match p.seat_id {
                Some(seat) => seat,
                None => 0,
            },
            None => 0,
        }
    }

    /// Finds where a player who sits down at `new_player_seat_id` goes in
    /// the seated order, which runs around the table from the first seated
    /// player.
    pub fn find_insertion_index(&self, new_player_seat_id: u8) -> (index: usize)
        requires
            self@.seats_known(),
        ensures
            index == self@.insertion_index(new_player_seat_id),
            index <= self@.seated_players.len(),
    {
        let len = self.seated_players.len();
        if len == 0 {
            return 0;
        }
        let anchor = self.seat_at(0);
        let mut k: usize = 0;
        while k < len
            invariant
                k <= len,
                len == self@.seated_players.len(),
                len > 0,
                self@.seats_known(),
                anchor == self@.seat_of(0),
                self@.insertion_index_from(new_player_seat_id, k as int) == self@.insertion_index(
                    new_player_seat_id,
                ),
            decreases len - k,
        {
            let existing = self.seat_at(k);
            let before = if (new_player_seat_id >= anchor) == (existing >= anchor) {
                new_player_seat_id < existing
            } else {
                new_player_seat_id < anchor
            };
            if before {
                return k;
            }
            k += 1;
        }
        len
    }
}

/// How far a seat is from the seat `anchor`, going around the table in the
/// direction of rising seat numbers.
pub open spec fn seat_distance(anchor: u8, seat: u8) -> int {
    if seat >= anchor {
        seat - anchor
    } else {
        seat + 256 - anchor
    }
}

/// The seats run around the table: seen from the first, each is farther
/// than the one before it.
pub open spec fn in_table_order(seats: Seq<u8>) -> bool {
    forall|i: int, j: int|
        0 <= i < j < seats.len() ==> seat_distance(seats[0], seats[i]) < seat_distance(
            seats[0],
            seats[j],
        )
}

/// The first position from `k` on whose seat a new seat goes before; the
/// number of seats where there is none.
pub open spec fn place_from(seats: Seq<u8>, seat: u8, k: int) -> int
    decreases seats.len() - k,
{
    if k >= seats.len() {
        seats.len() as int
    } else if sits_before(seats[0], seat, seats[k]) {
        k
    } else {
        place_from(seats, seat, k + 1)
    }
}

/// A new seat fits the seats taken: seen from the first seat taken, either
/// it lies before a seat taken that is not below the first, or none is
/// below the first; or it lies below the first with no seat taken between
/// them.
pub open spec fn seat_fits(seats: Seq<u8>, seat: u8) -> bool {
    if seats.len() == 0 {
        true
    } else if seat >= seats[0] {
        (exists|k: int| 0 <= k < seats.len() && seats[0] <= #[trigger] seats[k] && seat < seats[k])
            || (forall|k: int| 0 <= k < seats.len() ==> seats[0] <= #[trigger] seats[k])
    } else {
        forall|k: int| 0 <= k < seats.len() ==> !(seat < #[trigger] seats[k] < seats[0])
    }
}

/// The place of a new seat is a position of the seats or their end; the
/// new seat goes before the seat there and before none ahead of it.
pub proof fn lemma_place_from(seats: Seq<u8>, seat: u8, k: int)
    requires
        0 <= k <= seats.len(),
    ensures
        k <= place_from(seats, seat, k) <= seats.len(),
        place_from(seats, seat, k) < seats.len() ==> sits_before(
            seats[0],
            seat,
            seats[place_from(seats, seat, k)],
        ),
        forall|j: int|
            k <= j < place_from(seats, seat, k) ==> !sits_before(seats[0], seat, #[trigger] seats[j]),
    decreases seats.len() - k,
{
    if k < seats.len() && !sits_before(seats[0], seat, seats[k]) {
        lemma_place_from(seats, seat, k + 1);
    }
}

/// Law of the seats: seats that run around the table still do so after a
/// free seat that fits them was put in its place.
pub proof fn lemma_place_keeps_order(seats: Seq<u8>, seat: u8)
    requires
        in_table_order(seats),
        !seats.contains(seat),
        seat_fits(seats, seat),
    ensures
        in_table_order(seats.insert(place_from(seats, seat, 0), seat)),
{
    let at = place_from(seats, seat, 0);
    let after = seats.insert(at, seat);
    lemma_place_from(seats, seat, 0);
    if seats.len() > 0 {
        let anchor = seats[0];
        if seat < anchor {
            assert forall|i: int, j: int| 0 <= i < j < after.len() implies seat_distance(
                after[0],
                after[i],
            ) < seat_distance(after[0], after[j]) by {
                if i > 0 {
                    assert(seat_distance(anchor, seats[i - 1]) < seat_distance(anchor, seats[j - 1]));
                }
            }
        } else {
            assert forall|k: int| at <= k < seats.len() implies seat_distance(anchor, seat)
                < seat_distance(anchor, #[trigger] seats[k]) by {
                if at < seats.len() {
                    if k > at {
                        assert(seat_distance(anchor, seats[at]) < seat_distance(anchor, seats[k]));
                    }
                }
            }
            assert forall|k: int| 0 <= k < at implies seat_distance(anchor, #[trigger] seats[k])
                < seat_distance(anchor, seat) by {
                if seats[k] < anchor {
                    if at >= seats.len() {
                        if exists|m: int|
                            0 <= m < seats.len() && seats[0] <= #[trigger] seats[m] && seat
                                < seats[m] {
                            let m = choose|m: int|
                                0 <= m < seats.len() && seats[0] <= #[trigger] seats[m] && seat
                                    < seats[m];
                            assert(sits_before(anchor, seat, seats[m]));
                        }
                    }
                }
            }
            assert forall|i: int, j: int| 0 <= i < j < after.len() implies seat_distance(
                after[0],
                after[i],
            ) < seat_distance(after[0], after[j]) by {
                let before_i = if i < at {
                    i
                } else {
                    i - 1
                };
                let before_j = if j < at {
                    j
                } else {
                    j - 1
                };
                if i != at && j != at {
                    assert(seat_distance(anchor, seats[before_i]) < seat_distance(
                        anchor,
                        seats[before_j],
                    ));
                }
            }
        }
    }
}

impl GameView {
    /// The seat numbers of the seated players, in seated order.
    pub open spec fn seat_numbers(self) -> Seq<u8> {
        Seq::new(self.seated_players.len(), |k: int| self.seat_of(k))
    }

    /// The seated players sit in the order of their seats around the table.
    pub open spec fn seats_in_order(self) -> bool {
        self.seats_known() && in_table_order(self.seat_numbers())
    }

    /// Law of the seated order: players who sit in the order of their seats
    /// around the table still do so after a member who is not seated took
    /// a free seat that fits the seats taken.
    pub proof fn lemma_seat_taken_in_order(self, id: PlayerId, seat: u8, p: Player)
        requires
            self.seats_in_order(),
            !self.seated_players.contains(id),
            !self.seat_numbers().contains(seat),
            seat_fits(self.seat_numbers(), seat),
            p.seat_id == Some(seat),
        ensures
            (GameView {
                players: self.players.insert(id, p),
                seated_players: self.seated_players.insert(self.insertion_index(seat), id),
                ..self
            }).seats_in_order(),
    {
        let at = self.insertion_index(seat);
        let after = GameView {
            players: self.players.insert(id, p),
            seated_players: self.seated_players.insert(at, id),
            ..self
        };
        self.lemma_insertion_index(seat, 0);
        self.lemma_insertion_index_is_place(seat, 0);
        lemma_place_keeps_order(self.seat_numbers(), seat);
        assert forall|k: int| 0 <= k < after.seated_players.len() implies after.players.contains_key(
            #[trigger] after.seated_players[k],
        ) && after.players[after.seated_players[k]].seat_id.is_some() && after.seat_of(k)
            == self.seat_numbers().insert(at, seat)[k] by {
        }
    }

    /// The insertion index is the place of the seat among the seat numbers.
    pub proof fn lemma_insertion_index_is_place(self, seat: u8, k: int)
        requires
            0 <= k <= self.seated_players.len(),
        ensures
            self.insertion_index_from(seat, k) == place_from(self.seat_numbers(), seat, k),
        decreases self.seated_players.len() - k,
    {
        if k < self.seated_players.len() {
            if !sits_before(self.seat_of(0), seat, self.seat_of(k)) {
                self.lemma_insertion_index_is_place(seat, k + 1);
            }
        }
    }
}

} // verus!
