//! What a client and the server say to each other about a game, and what a
//! client does with the server's answer.

use crate::board::GameState;
use crate::field::GameError;
use crate::render::{decimal, decimal_string};
use vstd::prelude::*;
use vstd::string::{StringExecFns, StringSliceAdditionalSpecFns};

verus! {

/// What a message is about. A message begins with the kind's number as a decimal
/// numeral.
#[derive(Debug, Clone, Copy, PartialEq, Eq, Structural)]
pub enum MessageTypes {
    Move,
    WannaPlay,
    GetAvailablePlayers,
    Unknown,
}

/// A move as the server reads it from a message.
#[derive(Debug, Clone, Copy)]
pub struct UserMove {
    pub tempid: u128,
    pub move_pos: u8,
}

/// What a client is doing.
#[allow(non_camel_case_types)]
#[derive(Debug, Clone, Copy, PartialEq, Eq, Structural)]
pub enum ClientState {
    FREE_TO_PLAY,
    ACTIVELY_PLAYING,
    AWAITING_RESPONSE,
}

/// A move as a client writes it into a message.
#[derive(Debug, Clone, Copy)]
pub struct MoveMessage {
    pub user_id: u128,
    pub player_move: u8,
}

/// What a client has got back for a move it has sent.
#[derive(Debug, Clone, Copy, PartialEq, Eq, Structural)]
pub enum MoveReply {
    /// There is no connection to send the move on.
    NoConnection,
    /// An answer of this many bytes has come.
    Received(usize),
    /// Sending or receiving has failed.
    Failed,
}

/// What the server has got when it waited for a message.
#[derive(Debug, Clone, Copy, PartialEq, Eq, Structural)]
pub enum Incoming {
    /// A message that is text.
    Text,
    /// A message that is not text.
    NotText,
    /// Receiving has failed.
    Failed,
}

/// The client's side of a game played through the server.
#[derive(Debug, Clone, Copy)]
pub struct ConnectionManager {
    pub user_id: u128,
    pub last_state: GameState,
}

/// Whether `b` is the character of a decimal digit.
pub open spec fn is_digit(b: u8) -> bool {
    48 <= b <= 57
}

/// Whether `bytes` are digits only.
pub open spec fn all_digits(bytes: Seq<u8>) -> bool {
    forall|i: int| 0 <= i < bytes.len() ==> is_digit(#[trigger] bytes[i])
}

/// The number that the digits `digits` write.
pub open spec fn number(digits: Seq<u8>) -> int
    decreases digits.len(),
{
    if digits.len() == 0 {
        0
    } else {
        number(digits.drop_last()) * 10 + (digits.last() - 48)
    }
}

/// `bytes` without a plus sign at their head.
pub open spec fn unsigned_part(bytes: Seq<u8>) -> Seq<u8> {
    if bytes.len() > 0 && bytes[0] == 43 {
        bytes.subrange(1, bytes.len() as int)
    } else {
        bytes
    }
}

/// The number up to 255 that `bytes` are a decimal numeral of: one digit or
/// more, after a plus sign or none, and nothing else.
pub open spec fn numeral(bytes: Seq<u8>) -> Option<u8> {
    let digits = unsigned_part(bytes);
    if digits.len() > 0 && all_digits(digits) && number(digits) <= 255 {
        Some(number(digits) as u8)
    } else {
        None
    }
}

/// The head of a row of digits writes no more than the row.
proof fn lemma_number_grows(digits: Seq<u8>, k: int)
    requires
        all_digits(digits),
        0 <= k <= digits.len(),
    ensures
        0 <= number(digits.take(k)) <= number(digits),
    decreases digits.len() - k,
{
    lemma_number_nonnegative(digits.take(k));
    if k == digits.len() {
        assert(digits.take(k) =~= digits);
    } else {
        assert(digits.take(k + 1).drop_last() =~= digits.take(k));
        assert(is_digit(digits[k]));
        lemma_number_grows(digits, k + 1);
    }
}

/// Digits write no negative number.
proof fn lemma_number_nonnegative(digits: Seq<u8>)
    requires
        all_digits(digits),
    ensures
        0 <= number(digits),
    decreases digits.len(),
{
    if digits.len() > 0 {
        assert(is_digit(digits.last()));
        assert forall|i: int| 0 <= i < digits.drop_last().len() implies is_digit(
            #[trigger] digits.drop_last()[i],
        ) by {
            assert(is_digit(digits[i]));
        }
        lemma_number_nonnegative(digits.drop_last());
    }
}

/// Reads a decimal numeral of a number up to 255.
pub fn parse_numeral(bytes: &[u8]) -> (r: Option<u8>)
    ensures
        r == numeral(bytes@),
{
    let len = bytes.len();
    let start: usize = if len > 0 && bytes[0] == 43 {
        1
    } else {
        0
    };
    let ghost digits = unsigned_part(bytes@);
    if start == len {
        return None;
    }
    let mut acc: u32 = 0;
    let mut i: usize = start;
    while i < len
        invariant
            start <= i <= len,
            len == bytes@.len(),
            digits == bytes@.subrange(start as int, len as int),
            digits == unsigned_part(bytes@),
            all_digits(digits.take(i - start)),
            acc == number(digits.take(i - start)),
            acc <= 255,
        decreases len - i,
    {
        let b = bytes[i];
        assert(b == digits[i - start]);
        if b < 48 || b > 57 {
            return None;
        }
        assert(digits.take(i + 1 - start).drop_last() =~= digits.take(i - start));
        acc = acc * 10 + (b - 48) as u32;
        if acc > 255 {
            proof {
                if all_digits(digits) {
                    lemma_number_grows(digits, i + 1 - start);
                }
            }
            return None;
        }
        i = i + 1;
    }
    assert(digits.take(i - start) =~= digits);
    Some(acc as u8)
}

impl MessageTypes {
    /// The kind with the number `tag`.
    pub open spec fn of_tag(tag: u8) -> MessageTypes {
        if tag == 0 {
            MessageTypes::Move
        } else if tag == 1 {
            MessageTypes::WannaPlay
        } else if tag == 2 {
            MessageTypes::GetAvailablePlayers
        } else {
            MessageTypes::Unknown
        }
    }

    /// The kind that the numeral `bytes` names.
    pub open spec fn of_numeral(bytes: Seq<u8>) -> MessageTypes {
        match numeral(bytes) {
            Some(tag) => MessageTypes::of_tag(tag),
            None => MessageTypes::Unknown,
        }
    }

    /// The number of the kind.
    pub open spec fn tag(self) -> u8 {
        match self {
            MessageTypes::Unknown => 0xFF,
            MessageTypes::Move => 0,
            MessageTypes::WannaPlay => 1,
            MessageTypes::GetAvailablePlayers => 2,
        }
    }

    /// The number of the kind.
    pub fn value(&self) -> (r: u8)
        ensures
            r == self.tag(),
    {
        match *self {
            MessageTypes::Unknown => 0xFF,
            MessageTypes::Move => 0,
            MessageTypes::WannaPlay => 1,
            MessageTypes::GetAvailablePlayers => 2,
        }
    }
}

impl From<u8> for MessageTypes {
    fn from(orig: u8) -> (r: Self) {
        match orig {
            0 => MessageTypes::Move,
            1 => MessageTypes::WannaPlay,
            2 => MessageTypes::GetAvailablePlayers,
            _ => MessageTypes::Unknown,
        }
    }
}

impl vstd::std_specs::convert::FromSpecImpl<u8> for MessageTypes {
    open spec fn obeys_from_spec() -> bool {
        true
    }

    open spec fn from_spec(orig: u8) -> Self {
        MessageTypes::of_tag(orig)
    }
}

impl<'a> From<&'a str> for MessageTypes {
    fn from(orig: &'a str) -> (r: Self) {
        match parse_numeral(orig.as_bytes()) {
            Some(tag) => MessageTypes::from(tag),
            None => MessageTypes::Unknown,
        }
    }
}

impl<'a> vstd::std_specs::convert::FromSpecImpl<&'a str> for MessageTypes {
    open spec fn obeys_from_spec() -> bool {
        true
    }

    open spec fn from_spec(orig: &'a str) -> Self {
        MessageTypes::of_numeral(orig.spec_bytes())
    }
}

/// Every kind is the kind of its number.
pub proof fn kind_of_own_tag(kind: MessageTypes)
    ensures
        MessageTypes::of_tag(kind.tag()) == kind,
{
}

/// The text of a message: the number of its kind as a numeral, then the payload.
pub open spec fn framed(kind: MessageTypes, payload: Seq<char>) -> Seq<char> {
    decimal(kind.tag() as nat) + payload
}

/// Writes a message of the kind `kind` with the payload `payload`.
pub fn frame(kind: &MessageTypes, payload: &str) -> (r: String)
    ensures
        r@ == framed(*kind, payload@),
{
    let mut text = decimal_string(kind.value() as u32);
    text.append(payload);
    text
}

/// The kind of a message, told by its first byte.
pub fn message_kind(message: &[u8]) -> (r: MessageTypes)
    requires
        message@.len() > 0,
    ensures
        r == MessageTypes::of_numeral(message@.subrange(0, 1)),
{
    let head = vstd::slice::slice_subrange(message, 0, 1);
    match parse_numeral(head) {
        Some(tag) => MessageTypes::from(tag),
        None => MessageTypes::Unknown,
    }
}

/// The payload of a message: all after its first byte.
pub fn message_payload(message: &[u8]) -> (r: &[u8])
    requires
        message@.len() > 0,
    ensures
        r@ == message@.subrange(1, message@.len() as int),
{
    vstd::slice::slice_subrange(message, 1, message.len())
}

/// The byte that the server answers with: 1 to acknowledge a message that is
/// text, 0 for one that is not, 100 where receiving failed.
pub open spec fn answer_to(incoming: Incoming) -> u8 {
    match incoming {
        Incoming::Text => 1,
        Incoming::NotText => 0,
        Incoming::Failed => 100,
    }
}

/// Chooses the byte that the server answers with.
pub fn server_answer(incoming: Incoming) -> (r: u8)
    ensures
        r == answer_to(incoming),
{
    match incoming {
        Incoming::Text => 1,
        Incoming::NotText => 0,
        Incoming::Failed => 100,
    }
}

impl ConnectionManager {
    /// A client with the game in the state `last_state`.
    pub fn new(user_id: u128, last_state: GameState) -> (r: Self)
        ensures
            r.user_id == user_id,
            r.last_state == last_state,
    {
        ConnectionManager { user_id, last_state }
    }

    /// The message that tells the server of a move from `move_position`.
    pub fn move_message(&self, move_position: u8) -> (r: MoveMessage)
        ensures
            r.user_id == self.user_id,
            r.player_move == move_position,
    {
        MoveMessage { user_id: self.user_id, player_move: move_position }
    }

    /// What is reported where the move cannot be made in the client's own state.
    pub open spec fn local_failure(e: GameError) -> Seq<char> {
        "Error while making move locally: "@ + e.name()
    }

    /// Takes the server's answer to a move that was sent. An answer of one byte
    /// acknowledges the move: it is then made in the client's own state, which is
    /// returned. After any other answer, and where the move is refused, the state
    /// stays as it is and the reason is reported.
    pub fn make_move(&mut self, move_position: u8, reply: MoveReply) -> (r: Result<
        GameState,
        String,
    >)
        requires
            old(self).last_state@.wf(),
        ensures
            final(self).user_id == old(self).user_id,
            final(self).last_state@.wf(),
            match reply {
                MoveReply::NoConnection => final(self).last_state == old(self).last_state && (
                r matches Err(text) && text@ == "No connection to the server."@),
                MoveReply::Received(1) => match old(self).last_state@.make_move(
                    move_position as int,
                ) {
                    Ok(next) => final(self).last_state@ == next && (r matches Ok(g) && g@ == next),
                    Err(e) => final(self).last_state == old(self).last_state && (r matches Err(
                        text,
                    ) && text@ == ConnectionManager::local_failure(e)),
                },
                _ => final(self).last_state == old(self).last_state && (r matches Err(text)
                    && text@ == "Error while sending the move to the server."@),
            },
    {
        match reply {
            MoveReply::NoConnection => Err(String::from_str("No connection to the server.")),
            MoveReply::Received(1) => {
                // first, make the move and then return updated state to the UI
                let new_state_maybe = self.last_state.make_move(move_position as usize);
                match new_state_maybe {
                    Ok(new_state) => {
                        self.last_state = new_state;
                        Ok(new_state)
                    },
                    Err(e) => {
                        let mut text = String::from_str("Error while making move locally: ");
                        text.append(e.to_str());
                        Err(text)
                    },
                }
            },
            _ => Err(String::from_str("Error while sending the move to the server.")),
        }
    }

    /// The state of the game as the client knows it.
    pub fn get_last_state(&self) -> (r: GameState)
        ensures
            r == self.last_state,
    {
        self.last_state
    }
}

} // verus!
