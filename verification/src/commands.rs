//! The lines a player types: how they are cut into words, and what they
//! ask for.

use crate::client::{ClientState, ClientView};
use crate::message::{ClientMessage, PlayerActionType};
use crate::state::{find_player, GamePhase, PlayerAction, PlayerId, PlayerState, RoomId};
use vstd::prelude::*;
use vstd::string::{StrSliceExecFns, StringExecFns};

verus! {

/// Whether a character is white space, as `char::is_whitespace` of the
/// standard library tells.
pub uninterp spec fn is_white_space(c: char) -> bool;

/// The text in lower case, as `str::to_lowercase` of the standard library
/// gives it.
pub uninterp spec fn lowercase_of(text: Seq<char>) -> Seq<char>;

/// The identifier that a text stands for, as `Uuid::parse_str` of the uuid
/// crate reads it, taken as a 128-bit number; nothing where it reads none.
pub uninterp spec fn id_of_text(text: Seq<char>) -> Option<u128>;

/// Tells whether a character is white space: `char::is_whitespace` of the
/// standard library. The result is given a name and nothing more is
/// claimed of it.
#[verifier::external_body]
fn is_space(c: char) -> (space: bool)
    ensures
        space == is_white_space(c),
{
    c.is_whitespace()
}

/// Puts a word in lower case: `str::to_lowercase` of the standard library.
/// The result is given a name and nothing more is claimed of it.
#[verifier::external_body]
fn lowercase(word: &str) -> (lower: String)
    ensures
        lower@ == lowercase_of(word@),
{
    word.to_lowercase()
}

/// Reads an identifier: `Uuid::parse_str` of the uuid crate, with the
/// identifier taken as the 128-bit number that `Uuid::as_u128` gives. The
/// result is given a name and nothing more is claimed of it.
#[verifier::external_body]
fn read_id(word: &str) -> (id: Option<u128>)
    ensures
        id == id_of_text(word@),
{
    match uuid::Uuid::parse_str(word) {
        Ok(id) => Some(id.as_u128()),
        Err(_) => None,
    }
}

/// The value of a decimal digit; nothing for another character.
pub open spec fn digit_value(c: char) -> Option<nat> {
    if c == '0' {
        Some(0)
    } else if c == '1' {
        Some(1)
    } else if c == '2' {
        Some(2)
    } else if c == '3' {
        Some(3)
    } else if c == '4' {
        Some(4)
    } else if c == '5' {
        Some(5)
    } else if c == '6' {
        Some(6)
    } else if c == '7' {
        Some(7)
    } else if c == '8' {
        Some(8)
    } else if c == '9' {
        Some(9)
    } else {
        None
    }
}

/// The number that decimal digits stand for; nothing where a character is
/// no digit. No digits stand for zero.
pub open spec fn digits_value(text: Seq<char>) -> Option<nat>
    decreases text.len(),
{
    if text.len() == 0 {
        Some(0)
    } else {
        match (digits_value(text.drop_last()), digit_value(text.last())) {
            (Some(front), Some(d)) => Some(front * 10 + d),
            _ => None,
        }
    }
}

/// The number up to `max` that a text stands for: decimal digits, at least
/// one, with or without a plus sign in front.
pub open spec fn amount_of_text(text: Seq<char>, max: nat) -> Option<nat> {
    let digits = if text.len() > 0 && text[0] == '+' {
        text.drop_first()
    } else {
        text
    };
    if digits.len() == 0 {
        None
    } else {
        match digits_value(digits) {
            Some(v) if v <= max => Some(v),
            _ => None,
        }
    }
}

/// Reads a chip amount: `str::parse::<u32>` of the standard library, which
/// takes decimal digits with an optional plus sign in front and refuses
/// what does not fit.
#[verifier::external_body]
fn read_amount(word: &str) -> (amount: Option<u32>)
    ensures
        match amount {
            Some(v) => amount_of_text(word@, 0xffff_ffff) == Some(v as nat),
            None => amount_of_text(word@, 0xffff_ffff).is_none(),
        },
{
    word.parse::<u32>().ok()
}

/// Reads a seat number: `str::parse::<u8>` of the standard library, which
/// takes decimal digits with an optional plus sign in front and refuses
/// what does not fit.
#[verifier::external_body]
fn read_seat(word: &str) -> (seat: Option<u8>)
    ensures
        match seat {
            Some(v) => amount_of_text(word@, 255) == Some(v as nat),
            None => amount_of_text(word@, 255).is_none(),
        },
{
    word.parse::<u8>().ok()
}

/// The first position from `k` on that is marked; the length where none
/// is.
pub open spec fn next_marked(marks: Seq<bool>, k: int) -> int
    decreases marks.len() - k,
{
    if k >= marks.len() {
        marks.len() as int
    } else if marks[k] {
        k
    } else {
        next_marked(marks, k + 1)
    }
}

/// The first position from `k` on that is not marked; the length where all
/// are.
pub open spec fn next_unmarked(marks: Seq<bool>, k: int) -> int
    decreases marks.len() - k,
{
    if k >= marks.len() {
        marks.len() as int
    } else if !marks[k] {
        k
    } else {
        next_unmarked(marks, k + 1)
    }
}

/// The longest runs of positions that are not marked, from position `k`
/// on: each as the position where it begins and the position after its
/// end.
pub open spec fn runs_from(marks: Seq<bool>, k: int) -> Seq<(int, int)>
    decreases marks.len() - k,
    when 0 <= k
    via runs_from_decreases
{
    let start = next_unmarked(marks, k);
    if start >= marks.len() {
        Seq::empty()
    } else {
        let end = next_marked(marks, start);
        seq![(start, end)] + runs_from(marks, end)
    }
}

#[via_fn]
proof fn runs_from_decreases(marks: Seq<bool>, k: int) {
    let start = next_unmarked(marks, k);
    if start < marks.len() {
        lemma_next_unmarked(marks, k);
        lemma_next_marked(marks, start);
    }
}

/// A run begins at `next_unmarked`, no earlier than `k`, on a position
/// that is not marked.
pub proof fn lemma_next_unmarked(marks: Seq<bool>, k: int)
    requires
        0 <= k,
    ensures
        next_unmarked(marks, k) < marks.len() ==> k <= next_unmarked(marks, k) && !marks[next_unmarked(
            marks,
            k,
        )],
    decreases marks.len() - k,
{
    if k < marks.len() && marks[k] {
        lemma_next_unmarked(marks, k + 1);
    }
}

/// A run that begins at `k` ends after `k`, at `next_marked`.
pub proof fn lemma_next_marked(marks: Seq<bool>, k: int)
    requires
        0 <= k < marks.len(),
        !marks[k],
    ensures
        k < next_marked(marks, k) <= marks.len(),
    decreases marks.len() - k,
{
    assert(next_marked(marks, k) == next_marked(marks, k + 1));
    if k + 1 < marks.len() && !marks[k + 1] {
        lemma_next_marked(marks, k + 1);
    } else if k + 1 < marks.len() {
        assert(next_marked(marks, k + 1) == k + 1);
    } else {
        assert(next_marked(marks, k + 1) == marks.len());
    }
}

/// The runs as pairs of numbers.
pub open spec fn as_ranges(runs: Seq<(usize, usize)>) -> Seq<(int, int)> {
    runs.map_values(|r: (usize, usize)| (r.0 as int, r.1 as int))
}

/// Finds the longest runs of positions that are not marked.
pub fn find_runs(marks: &Vec<bool>) -> (runs: Vec<(usize, usize)>)
    ensures
        as_ranges(runs@) == runs_from(marks@, 0),
        forall|i: int|
            0 <= i < runs@.len() ==> (#[trigger] runs@[i]).0 <= runs@[i].1 <= marks@.len(),
{
    let len = marks.len();
    let mut runs: Vec<(usize, usize)> = Vec::new();
    let mut k: usize = 0;
    while k < len
        invariant
            k <= len,
            len == marks@.len(),
            as_ranges(runs@) + runs_from(marks@, k as int) == runs_from(marks@, 0),
            forall|i: int| 0 <= i < runs@.len() ==> (#[trigger] runs@[i]).0 <= runs@[i].1 <= len,
        decreases len - k,
    {
        let mut start = k;
        while start < len && marks[start]
            invariant
                k <= start <= len,
                len == marks@.len(),
                next_unmarked(marks@, start as int) == next_unmarked(marks@, k as int),
            decreases len - start,
        {
            start += 1;
        }
        if start >= len {
            k = len;
        } else {
            let mut end = start + 1;
            proof {
                lemma_next_marked(marks@, start as int);
            }
            while end < len && !marks[end]
                invariant
                    start < end <= len,
                    len == marks@.len(),
                    next_marked(marks@, end as int) == next_marked(marks@, start as int),
                decreases len - end,
            {
                end += 1;
            }
            let ghost before = as_ranges(runs@);
            runs.push((start, end));
            proof {
                let run = (start as int, end as int);
                assert(before.push(run) + runs_from(marks@, end as int) =~= before + (seq![run]
                    + runs_from(marks@, end as int)));
            }
            k = end;
        }
    }
    runs
}

/// For each position of a text, whether it holds white space.
pub open spec fn spaces_of(text: Seq<char>) -> Seq<bool> {
    text.map_values(|c: char| is_white_space(c))
}

/// The words of a text: the longest runs of characters that are no white
/// space.
pub open spec fn words(text: Seq<char>) -> Seq<Seq<char>> {
    runs_from(spaces_of(text), 0).map_values(|r: (int, int)| text.subrange(r.0, r.1))
}

/// The texts of a list of words.
pub open spec fn texts(words: Seq<&str>) -> Seq<Seq<char>> {
    words.map_values(|w: &str| w@)
}

/// Cuts a line into its words.
pub fn split_words<'a>(input: &'a str) -> (found: Vec<&'a str>)
    ensures
        texts(found@) == words(input@),
{
    let len = input.unicode_len();
    let mut spaces: Vec<bool> = Vec::with_capacity(len);
    let mut i: usize = 0;
    while i < len
        invariant
            i <= len,
            len == input@.len(),
            spaces@.len() == i,
            forall|j: int| 0 <= j < i ==> spaces@[j] == is_white_space(input@[j]),
        decreases len - i,
    {
        spaces.push(is_space(input.get_char(i)));
        i += 1;
    }
    proof {
        assert(spaces@ =~= spaces_of(input@));
    }
    let runs = find_runs(&spaces);
    let mut found: Vec<&'a str> = Vec::with_capacity(runs.len());
    let mut k: usize = 0;
    while k < runs.len()
        invariant
            k <= runs.len(),
            len == input@.len(),
            len == spaces@.len(),
            as_ranges(runs@) == runs_from(spaces_of(input@), 0),
            forall|i: int| 0 <= i < runs@.len() ==> (#[trigger] runs@[i]).0 <= runs@[i].1 <= len,
            found@.len() == k,
            forall|j: int| 0 <= j < k ==> (#[trigger] found@[j])@ == words(input@)[j],
        decreases runs.len() - k,
    {
        let (start, end) = runs[k];
        found.push(input.substring_char(start, end));
        k += 1;
    }
    found
}

/// Whether two texts are the same.
pub fn same_text(a: &str, b: &str) -> (same: bool)
    ensures
        same == (a@ == b@),
{
    let len = a.unicode_len();
    if len != b.unicode_len() {
        return false;
    }
    let mut i: usize = 0;
    while i < len
        invariant
            i <= len,
            len == a@.len(),
            len == b@.len(),
            forall|j: int| 0 <= j < i ==> a@[j] == b@[j],
        decreases len - i,
    {
        if a.get_char(i) != b.get_char(i) {
            return false;
        }
        i += 1;
    }
    assert(a@ =~= b@);
    true
}

/// Whether a text holds a colon.
pub fn has_colon(text: &str) -> (found: bool)
    ensures
        found == text@.contains(':'),
{
    let len = text.unicode_len();
    let mut i: usize = 0;
    while i < len
        invariant
            i <= len,
            len == text@.len(),
            forall|j: int| 0 <= j < i ==> text@[j] != ':',
        decreases len - i,
    {
        if text.get_char(i) == ':' {
            return true;
        }
        i += 1;
    }
    false
}

/// What a player asks for before they are in a room.
#[derive(Debug)]
pub enum LoginCommand {
    /// To create a room on a server, under a nickname.
    Create { server_addr: String, nickname: String },
    /// To join a room on a server, under a nickname.
    Join { server_addr: String, room_id: RoomId, nickname: String },
}

/// What the words of a line ask for before the player is in a room, where
/// `command` is the first word in lower case and `room` the identifier
/// that the third word stands for: `create` with an address and a
/// nickname, or `join` with an address, a room and a nickname. An address
/// holds a colon.
pub open spec fn login_command_of(
    words: Seq<Seq<char>>,
    command: Seq<char>,
    room: Option<u128>,
    asked: Option<LoginCommand>,
) -> bool {
    if words.len() == 3 && command == "create"@ && words[1].contains(':') {
        asked matches Some(LoginCommand::Create { server_addr, nickname }) && server_addr@
            == words[1] && nickname@ == words[2]
    } else if words.len() == 4 && command == "join"@ && room.is_some() && words[1].contains(':') {
        asked matches Some(LoginCommand::Join { server_addr, room_id, nickname }) && server_addr@
            == words[1] && room_id == room.unwrap() && nickname@ == words[3]
    } else {
        asked.is_none()
    }
}

/// Tells what the words of a line ask for before the player is in a room.
pub fn login_command(words: &Vec<&str>, command: &str, room: Option<u128>) -> (asked: Option<
    LoginCommand,
>)
    ensures
        login_command_of(texts(words@), command@, room, asked),
{
    let n = words.len();
    if n == 3 && same_text(command, "create") && has_colon(words[1]) {
        Some(
            LoginCommand::Create {
                server_addr: String::from_str(words[1]),
                nickname: String::from_str(words[2]),
            },
        )
    } else if n == 4 && same_text(command, "join") {
        match room {
            Some(room_id) => {
                if has_colon(words[1]) {
                    Some(
                        LoginCommand::Join {
                            server_addr: String::from_str(words[1]),
                            room_id,
                            nickname: String::from_str(words[3]),
                        },
                    )
                } else {
                    None
                }
            },
            None => None,
        }
    } else {
        None
    }
}

/// Reads a line typed before the player is in a room.
pub fn parse_login_input(input: &str) -> (asked: Option<LoginCommand>)
    ensures
        words(input@).len() < 3 ==> asked.is_none(),
        words(input@).len() >= 3 ==> login_command_of(
            words(input@),
            lowercase_of(words(input@)[0]),
            id_of_text(words(input@)[2]),
            asked,
        ),
{
    let parts = split_words(input);
    if parts.len() < 3 {
        return None;
    }
    let command = lowercase(parts[0]);
    let room = read_id(parts[2]);
    login_command(&parts, command.as_str(), room)
}

/// The player is seated: they have an id, and the copy of the game has
/// them in the seated order.
pub open spec fn is_seated(app: ClientView) -> bool {
    match (app.my_id, app.game_state) {
        (Some(me), Some(g)) => g.seated_players.contains(me),
        _ => false,
    }
}

/// The player may start a hand: they are the host, seated, and no hand is
/// running.
pub open spec fn may_start(app: ClientView) -> bool {
    app.my_id == app.host_id && is_seated(app) && match app.game_state {
        Some(g) => g.phase == GamePhase::WaitingForPlayers || g.phase == GamePhase::Showdown,
        None => false,
    }
}

/// The player is out of the game: their record in the copy of the game is
/// offline.
pub open spec fn has_lost(app: ClientView) -> bool {
    match (app.my_id, app.game_state) {
        (Some(me), Some(g)) => g.players.contains_key(me) && g.players[me].state
            == PlayerState::Offline,
        _ => false,
    }
}

/// The first of the actions from position `k` on that is a check or a
/// call, as the action to perform.
pub open spec fn first_check_or_call(actions: Seq<PlayerActionType>, k: int) -> Option<
    PlayerAction,
>
    decreases actions.len() - k,
{
    if k >= actions.len() {
        None
    } else {
        match actions[k] {
            PlayerActionType::Check => Some(PlayerAction::Check),
            PlayerActionType::Call(_) => Some(PlayerAction::Call),
            _ => first_check_or_call(actions, k + 1),
        }
    }
}

/// What the words of a line ask for in a room, where `command` is the
/// first word in lower case.
///
/// The host, seated and between hands, starts a hand with `start`. A
/// player who is not seated, or is out of the game, takes a seat with
/// `seat`, a seat number and a stack. A seated player folds with `f` or
/// `fold`; checks or calls, whichever is open to them, with `c`, `check`
/// or `call`; and bets or raises with `b`, `r`, `bet` or `raise` and an
/// amount.
pub open spec fn room_command_of(words: Seq<Seq<char>>, command: Seq<char>, app: ClientView) -> Option<
    ClientMessage,
> {
    if words.len() == 0 {
        None
    } else if may_start(app) && command == "start"@ {
        Some(ClientMessage::StartHand)
    } else if !is_seated(app) || has_lost(app) {
        if command == "seat"@ && words.len() == 3 {
            match (amount_of_text(words[1], 255), amount_of_text(words[2], 0xffff_ffff)) {
                (Some(seat), Some(stack)) => Some(
                    ClientMessage::RequestSeat { seat_id: seat as u8, stack: stack as u32 },
                ),
                _ => None,
            }
        } else {
            None
        }
    } else if command == "f"@ || command == "fold"@ {
        Some(ClientMessage::PerformAction(PlayerAction::Fold))
    } else if command == "c"@ || command == "check"@ || command == "call"@ {
        match first_check_or_call(app.valid_actions, 0) {
            Some(action) => Some(ClientMessage::PerformAction(action)),
            None => None,
        }
    } else if command == "b"@ || command == "r"@ || command == "bet"@ || command == "raise"@ {
        if words.len() > 1 {
            match amount_of_text(words[1], 0xffff_ffff) {
                Some(amount) => Some(
                    ClientMessage::PerformAction(PlayerAction::BetOrRaise(amount as u32)),
                ),
                None => None,
            }
        } else {
            None
        }
    } else {
        None
    }
}

/// Whether the player is seated.
fn seated_in_copy(app: &ClientState) -> (seated: bool)
    ensures
        seated == is_seated(app@),
{
    match (app.my_id, &app.game_state) {
        (Some(me), Some(g)) => {
            let len = g.seated_players.len();
            let mut i: usize = 0;
            while i < len
                invariant
                    i <= len,
                    len == g@.seated_players.len(),
                    app@.my_id == Some(me),
                    app@.game_state == Some(g@),
                    forall|j: int| 0 <= j < i ==> g@.seated_players[j] != me,
                decreases len - i,
            {
                if g.seated_players[i] == me {
                    return true;
                }
                i += 1;
            }
            false
        },
        _ => false,
    }
}

/// Whether the player is out of the game.
fn lost_in_copy(app: &ClientState) -> (lost: bool)
    ensures
        lost == has_lost(app@),
{
    match (app.my_id, &app.game_state) {
        (Some(me), Some(g)) => match find_player(&g.players, me) {
            Some(p) => p.state == PlayerState::Offline,
            None => false,
        },
        _ => false,
    }
}

/// Picks the check or the call that is open to the player.
fn pick_check_or_call(actions: &Vec<PlayerActionType>) -> (picked: Option<PlayerAction>)
    ensures
        picked == first_check_or_call(actions@, 0),
{
    let mut i: usize = 0;
    while i < actions.len()
        invariant
            i <= actions.len(),
            first_check_or_call(actions@, i as int) == first_check_or_call(actions@, 0),
        decreases actions.len() - i,
    {
        match actions[i] {
            PlayerActionType::Check => {
                return Some(PlayerAction::Check);
            },
            PlayerActionType::Call(_) => {
                return Some(PlayerAction::Call);
            },
            _ => {},
        }
        i += 1;
    }
    None
}

/// Tells what the words of a line ask for in a room.
pub fn room_command(words: &Vec<&str>, command: &str, app: &ClientState) -> (asked: Option<
    ClientMessage,
>)
    ensures
        asked == room_command_of(texts(words@), command@, app@),
{
    let n = words.len();
    if n == 0 {
        return None;
    }
    let seated = seated_in_copy(app);
    let between_hands = match &app.game_state {
        Some(g) => g.phase == GamePhase::WaitingForPlayers || g.phase == GamePhase::Showdown,
        None => false,
    };
    if app.my_id == app.host_id && seated && between_hands && same_text(command, "start") {
        return Some(ClientMessage::StartHand);
    }
    if !seated || lost_in_copy(app) {
        if same_text(command, "seat") && n == 3 {
            match (read_seat(words[1]), read_amount(words[2])) {
                (Some(seat_id), Some(stack)) => Some(ClientMessage::RequestSeat { seat_id, stack }),
                _ => None,
            }
        } else {
            None
        }
    } else if same_text(command, "f") || same_text(command, "fold") {
        Some(ClientMessage::PerformAction(PlayerAction::Fold))
    } else if same_text(command, "c") || same_text(command, "check") || same_text(command, "call") {
        match pick_check_or_call(&app.valid_actions) {
            Some(action) => Some(ClientMessage::PerformAction(action)),
            None => None,
        }
    } else if same_text(command, "b") || same_text(command, "r") || same_text(command, "bet")
        || same_text(command, "raise") {
        if n > 1 {
            match read_amount(words[1]) {
                Some(amount) => Some(ClientMessage::PerformAction(PlayerAction::BetOrRaise(amount))),
                None => None,
            }
        } else {
            None
        }
    } else {
        None
    }
}

/// Reads a line typed in a room.
pub fn parse_in_room_input(input: &str, app: &ClientState) -> (asked: Option<ClientMessage>)
    ensures
        words(input@).len() == 0 ==> asked.is_none(),
        words(input@).len() > 0 ==> asked == room_command_of(
            words(input@),
            lowercase_of(words(input@)[0]),
            app@,
        ),
{
    let parts = split_words(input);
    if parts.len() == 0 {
        return None;
    }
    let command = lowercase(parts[0]);
    room_command(&parts, command.as_str(), app)
}

} // verus!
