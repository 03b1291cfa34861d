//! The turn-authority controller: the one owner of the board and of whose
//! turn it is. It applies the local player's intents and the peer's messages,
//! derives the end of the game, and queues the messages to send.
//!
//! Each peer is authoritative for its own player only: a move received from
//! the peer is trusted and applied without checking that the peer held the
//! turn. The two peers are taken to be one coherent, non-adversarial session.
use vstd::prelude::*;
use vstd::string::StringExecFns;

use crate::messages::{encodable, views, Message, MessageView};
use crate::othello_board::{
    count_of, empty_cells, placed, placement_error, start_cells, valid_cells, OthelloBoard,
};

verus! {

/// How a finished game went for the local player.
#[derive(Clone, Copy, Debug, PartialEq, Eq, Structural)]
pub enum GameResult {
    PlayerWon,
    PlayerLost,
    Tie,
}

/// Where the session stands. It only moves forward, from `NoConnection` to
/// `Playing` to `GameEnded`, until a restart.
#[derive(Clone, Copy, Debug, PartialEq, Eq, Structural)]
pub enum GameState {
    NoConnection,
    Playing,
    GameEnded(GameResult),
}

/// The controller's state, turn flags, chat log and queue of messages to send.
pub struct GameController {
    pub state: GameState,
    pub board: OthelloBoard,
    /// Whether this peer accepted the connection; the host plays piece 0.
    pub is_host: bool,
    /// Whether the local player may place or pass now.
    pub player_turn: bool,
    /// Whether the peer's last act was a pass.
    pub opponent_passed: bool,
    chat_messages: Vec<String>,
    outgoing: Vec<Message>,
}

/// The controller as a mathematical value.
pub struct ControllerView {
    pub state: GameState,
    /// The grid, as `OthelloBoard`'s view.
    pub cells: Seq<Option<u8>>,
    /// The grid that an undo goes back to.
    pub saved: Seq<Option<u8>>,
    pub is_host: bool,
    pub player_turn: bool,
    pub opponent_passed: bool,
    /// The chat log, oldest line first.
    pub chat: Seq<Seq<char>>,
    /// Messages queued for the peer, oldest first.
    pub outgoing: Seq<MessageView>,
}

/// The views of the chat lines.
pub open spec fn chat_view(lines: Seq<String>) -> Seq<Seq<char>> {
    lines.map_values(|s: String| s@)
}

pub open spec fn turn_error_text() -> Seq<char> {
    "ERROR: Wait for your opponent's turn!"@
}

pub open spec fn pass_error_text() -> Seq<char> {
    "ERROR: Can't pass if it is not your turn!"@
}

pub open spec fn pass_warning_text() -> Seq<char> {
    "WARNING: "@ + "Opponent forfeited their turn."@
}

pub open spec fn undo_warning_text() -> Seq<char> {
    "WARNING: "@ + "The last move was undone by the opponent."@
}

/// The piece a move places: the host plays 0 and its peer 1.
pub open spec fn mover(is_host: bool, from_opponent: bool) -> u8 {
    if is_host == from_opponent {
        1
    } else {
        0
    }
}

/// The result for the local player: a tie on equal counts, otherwise a win
/// when its own colour has more pieces.
pub open spec fn outcome(cells: Seq<Option<u8>>, is_host: bool) -> GameResult {
    let player0 = count_of(cells, 0);
    let player1 = count_of(cells, 1);
    if player0 == player1 {
        GameResult::Tie
    } else if is_host && player0 > player1 {
        GameResult::PlayerWon
    } else if !is_host && player1 > player0 {
        GameResult::PlayerWon
    } else {
        GameResult::PlayerLost
    }
}

/// A controller with no connection, an empty board and nothing logged or queued.
pub open spec fn fresh() -> ControllerView {
    ControllerView {
        state: GameState::NoConnection,
        cells: empty_cells(),
        saved: empty_cells(),
        is_host: false,
        player_turn: true,
        opponent_passed: false,
        chat: Seq::empty(),
        outgoing: Seq::empty(),
    }
}

/// Connecting starts a game on the four centre pieces; the host moves first.
pub open spec fn connect_step(v: ControllerView, host: bool) -> ControllerView {
    ControllerView {
        state: GameState::Playing,
        cells: start_cells(),
        saved: start_cells(),
        is_host: host,
        player_turn: host,
        opponent_passed: false,
        ..v
    }
}

/// A pass by the local player: refused out of turn; when the peer passed
/// just before, the game ends; otherwise the turn goes to the peer.
pub open spec fn pass_step(v: ControllerView) -> ControllerView {
    if !v.player_turn {
        ControllerView { chat: v.chat.push(pass_error_text()), ..v }
    } else if v.opponent_passed {
        ControllerView {
            state: GameState::GameEnded(outcome(v.cells, v.is_host)),
            outgoing: v.outgoing.push(MessageView::GameEnded),
            ..v
        }
    } else {
        ControllerView {
            player_turn: false,
            opponent_passed: false,
            outgoing: v.outgoing.push(MessageView::PassTurn),
            ..v
        }
    }
}

/// A placement, by the local player or received from the peer. A local one
/// out of turn, or one the board refuses, only logs an error. An accepted one
/// is queued for the peer when local and hands the turn over; when a player
/// is left without pieces, a pass is forced at once.
pub open spec fn place_step(v: ControllerView, rank: usize, file: usize, from_opponent: bool) -> ControllerView {
    if !from_opponent && !v.player_turn {
        ControllerView { chat: v.chat.push(turn_error_text()), ..v }
    } else {
        match placement_error(v.cells, rank as int, file as int) {
            Some(e) => ControllerView { chat: v.chat.push("ERROR: "@ + e.text()), ..v },
            None => {
                let w = ControllerView {
                    cells: placed(v.cells, rank as int, file as int, mover(v.is_host, from_opponent)),
                    saved: v.cells,
                    player_turn: !v.player_turn,
                    opponent_passed: false,
                    outgoing: if from_opponent {
                        v.outgoing
                    } else {
                        v.outgoing.push(MessageView::SetPiece((rank, file)))
                    },
                    ..v
                };
                if count_of(w.cells, 0) == 0 || count_of(w.cells, 1) == 0 {
                    pass_step(ControllerView { opponent_passed: true, ..w })
                } else {
                    w
                }
            },
        }
    }
}

/// A chat line: local lines are also queued for the peer.
pub open spec fn chat_step(v: ControllerView, text: Seq<char>, from_opponent: bool) -> ControllerView {
    if from_opponent {
        ControllerView { chat: v.chat.push("opponent: "@ + text), ..v }
    } else {
        ControllerView {
            chat: v.chat.push("player: "@ + text),
            outgoing: v.outgoing.push(MessageView::TextMessage(text)),
            ..v
        }
    }
}

/// The local player gives up.
pub open spec fn surrender_step(v: ControllerView) -> ControllerView {
    ControllerView {
        state: GameState::GameEnded(GameResult::PlayerLost),
        outgoing: v.outgoing.push(MessageView::Surrender),
        ..v
    }
}

/// The local player takes back the last placement.
pub open spec fn undo_step(v: ControllerView) -> ControllerView {
    ControllerView {
        cells: v.saved,
        player_turn: !v.player_turn,
        opponent_passed: false,
        outgoing: v.outgoing.push(MessageView::UndoMove),
        ..v
    }
}

/// A message from the peer. A liveness probe changes nothing; any other
/// message first clears `opponent_passed`, then takes effect.
pub open spec fn remote_step(v: ControllerView, m: MessageView) -> ControllerView {
    let u = ControllerView { opponent_passed: false, ..v };
    match m {
        MessageView::TestConnection => v,
        MessageView::TextMessage(t) => chat_step(u, t, true),
        MessageView::Surrender => ControllerView {
            state: GameState::GameEnded(GameResult::PlayerWon),
            ..u
        },
        MessageView::SetPiece(p) => place_step(u, p.0, p.1, true),
        MessageView::UndoMove => ControllerView {
            cells: u.saved,
            player_turn: !u.player_turn,
            chat: u.chat.push(undo_warning_text()),
            ..u
        },
        MessageView::GameEnded => ControllerView {
            state: GameState::GameEnded(outcome(u.cells, u.is_host)),
            ..u
        },
        MessageView::PassTurn => ControllerView {
            player_turn: !u.player_turn,
            opponent_passed: true,
            chat: u.chat.push(pass_warning_text()),
            ..u
        },
    }
}

/// A step of play that hands the turn over when accepted.
pub enum TurnEvent {
    /// The local player places on `(rank, file)`.
    Place(usize, usize),
    /// The peer's placement on `(rank, file)` arrives.
    OpponentPlace(usize, usize),
    /// The local player passes.
    Pass,
    /// The peer's pass arrives.
    OpponentPass,
}

/// The state after `e`.
pub open spec fn apply_event(v: ControllerView, e: TurnEvent) -> ControllerView {
    match e {
        TurnEvent::Place(r, f) => place_step(v, r, f, false),
        TurnEvent::OpponentPlace(r, f) => remote_step(v, MessageView::SetPiece((r, f))),
        TurnEvent::Pass => pass_step(v),
        TurnEvent::OpponentPass => remote_step(v, MessageView::PassTurn),
    }
}

/// Whether `e` is accepted in `v`: a placement the board takes (a local one
/// in turn), a local pass in turn that does not end the game, any pass of
/// the peer.
pub open spec fn accepted(v: ControllerView, e: TurnEvent) -> bool {
    match e {
        TurnEvent::Place(r, f) => v.player_turn && placement_error(v.cells, r as int, f as int) is None,
        TurnEvent::OpponentPlace(r, f) => placement_error(v.cells, r as int, f as int) is None,
        TurnEvent::Pass => v.player_turn && !v.opponent_passed,
        TurnEvent::OpponentPass => true,
    }
}

/// The state after the events, in order.
pub open spec fn play(v: ControllerView, es: Seq<TurnEvent>) -> ControllerView
    decreases es.len(),
{
    if es.len() == 0 {
        v
    } else {
        apply_event(play(v, es.drop_last()), es.last())
    }
}

/// Whether each event is accepted in the state that the ones before it left.
pub open spec fn all_accepted(v: ControllerView, es: Seq<TurnEvent>) -> bool
    decreases es.len(),
{
    es.len() == 0 || (all_accepted(v, es.drop_last()) && accepted(play(v, es.drop_last()), es.last()))
}

/// Each accepted placement or pass, local or remote, flips `player_turn`
/// exactly once. A pass forced when a player is left without pieces always
/// meets `opponent_passed` set, so it ends the game (or is refused out of
/// turn) and never flips the turn a second time.
pub proof fn lemma_accepted_step_flips_turn(v: ControllerView, e: TurnEvent)
    requires
        accepted(v, e),
    ensures
        apply_event(v, e).player_turn == !v.player_turn,
{
}

/// Over any sequence of accepted placements and passes the turn strictly
/// alternates: after `n` of them, `player_turn` has flipped `n` times.
pub proof fn lemma_turn_alternates(v: ControllerView, es: Seq<TurnEvent>)
    requires
        all_accepted(v, es),
    ensures
        play(v, es).player_turn == (v.player_turn != (es.len() % 2 == 1)),
    decreases es.len(),
{
    if es.len() > 0 {
        lemma_turn_alternates(v, es.drop_last());
        lemma_accepted_step_flips_turn(play(v, es.drop_last()), es.last());
    }
}

/// Two passes in a row end the game: one side passes, the other receives
/// that pass and passes in turn, and its game ends with the result its board
/// gives, the peer being told.
pub proof fn lemma_double_pass_ends_game(a: ControllerView, b: ControllerView)
    requires
        a.player_turn,
        !a.opponent_passed,
        !b.player_turn,
    ensures
        pass_step(a).outgoing == a.outgoing.push(MessageView::PassTurn),
        !pass_step(a).player_turn,
        ({
            let b2 = remote_step(b, MessageView::PassTurn);
            &&& pass_step(b2).state == GameState::GameEnded(outcome(b.cells, b.is_host))
            &&& pass_step(b2).outgoing == b.outgoing.push(MessageView::GameEnded)
        }),
{
}

/// A surrender ends the game as lost for the side that gives up and, once
/// its message arrives, as won for the peer.
pub proof fn lemma_surrender_ends_both(a: ControllerView, b: ControllerView)
    ensures
        surrender_step(a).state == GameState::GameEnded(GameResult::PlayerLost),
        surrender_step(a).outgoing == a.outgoing.push(MessageView::Surrender),
        remote_step(b, MessageView::Surrender).state == GameState::GameEnded(GameResult::PlayerWon),
{
}

/// The state after the peer's messages, applied in arrival order.
pub open spec fn remote_steps(v: ControllerView, ms: Seq<MessageView>) -> ControllerView
    decreases ms.len(),
{
    if ms.len() == 0 {
        v
    } else {
        remote_step(remote_steps(v, ms.drop_last()), ms.last())
    }
}

impl View for GameController {
    type V = ControllerView;

    closed spec fn view(&self) -> ControllerView {
        ControllerView {
            state: self.state,
            cells: self.board@,
            saved: self.board.saved(),
            is_host: self.is_host,
            player_turn: self.player_turn,
            opponent_passed: self.opponent_passed,
            chat: chat_view(self.chat_messages@),
            outgoing: views(self.outgoing@),
        }
    }
}

impl GameController {
    /// The board is well formed and every queued message can be encoded.
    pub closed spec fn wf(&self) -> bool {
        &&& self.board.wf()
        &&& forall|i: int| 0 <= i < self@.outgoing.len() ==> encodable(#[trigger] self@.outgoing[i])
    }

    /// A well-formed controller holds two grids of 64 valid squares: the
    /// current one and the one an undo goes back to.
    pub proof fn lemma_wf_grids(&self)
        requires
            self.wf(),
        ensures
            valid_cells(self@.cells),
            valid_cells(self@.saved),
    {
    }

    pub fn new() -> (c: Self)
        ensures
            c.wf(),
            c@ == fresh(),
    {
        let c = GameController {
            state: GameState::NoConnection,
            board: OthelloBoard::empty(),
            is_host: false,
            player_turn: true,
            opponent_passed: false,
            chat_messages: Vec::new(),
            outgoing: Vec::new(),
        };
        proof {
            assert(chat_view(c.chat_messages@) =~= Seq::empty());
            assert(views(c.outgoing@) =~= Seq::empty());
        }
        c
    }

    /// The player whose piece stands on `(rank, file)`, if any.
    pub fn get_piece_at(&self, rank: usize, file: usize) -> (r: Option<u8>)
        requires
            self.wf(),
            rank < 8,
            file < 8,
        ensures
            r == self@.cells[rank * 8 + file],
    {
        self.board.get_piece_at(rank, file)
    }

    /// The chat log, oldest line first.
    pub fn get_chat_messages(&self) -> (r: &Vec<String>)
        ensures
            chat_view(r@) == self@.chat,
    {
        &self.chat_messages
    }

    /// Starts a game once the link to the peer stands: `host` tells whether
    /// this side accepted the connection. The host moves first.
    pub fn connect_to(&mut self, host: bool)
        requires
            old(self).wf(),
        ensures
            final(self).wf(),
            final(self)@ == connect_step(old(self)@, host),
    {
        self.board = OthelloBoard::new();
        self.state = GameState::Playing;
        self.is_host = host;
        self.player_turn = host;
        self.opponent_passed = false;
    }

    /// Places a piece for the local player, or for the peer when
    /// `from_opponent`; see `place_step`.
    pub fn try_set_piece_on_board(&mut self, rank: usize, file: usize, from_opponent: bool)
        requires
            old(self).wf(),
        ensures
            final(self).wf(),
            final(self)@ == place_step(old(self)@, rank, file, from_opponent),
    {
        if !from_opponent && !self.player_turn {
            self.log(String::from_str("ERROR: Wait for your opponent's turn!"));
            return ;
        }
        let player = self.swap_player_if_not_host(from_opponent) as u8;
        match self.board.set_piece(rank, file, player) {
            Err(error) => {
                let mut line = String::from_str("ERROR: ");
                line.append(error.message().as_str());
                self.log(line);
                return ;
            },
            Ok(_) => {},
        }
        if !from_opponent {
            self.send(Message::SetPiece((rank, file)));
        }
        self.player_turn = !self.player_turn;
        self.opponent_passed = false;
        let (player0, player1) = self.board.count_pieces();
        if player0 == 0 || player1 == 0 {
            self.opponent_passed = true;
            self.try_pass_turn();
        }
    }

    /// Passes the local player's turn; see `pass_step`.
    pub fn try_pass_turn(&mut self)
        requires
            old(self).wf(),
        ensures
            final(self).wf(),
            final(self)@ == pass_step(old(self)@),
    {
        if !self.player_turn {
            self.log(String::from_str("ERROR: Can't pass if it is not your turn!"));
            return ;
        }
        if self.opponent_passed {
            let result = self.check_if_player_won();
            self.state = GameState::GameEnded(result);
            self.send(Message::GameEnded());
            return ;
        }
        self.player_turn = false;
        self.opponent_passed = false;
        self.send(Message::PassTurn());
    }

    /// Logs a chat line: the local player's is also queued for the peer.
    pub fn push_chat_message(&mut self, msg: String, from_opponent: bool)
        requires
            old(self).wf(),
        ensures
            final(self).wf(),
            final(self)@ == chat_step(old(self)@, msg@, from_opponent),
    {
        if from_opponent {
            let mut line = String::from_str("opponent: ");
            line.append(msg.as_str());
            self.log(line);
        } else {
            let mut line = String::from_str("player: ");
            line.append(msg.as_str());
            self.log(line);
            self.send(Message::TextMessage(msg));
        }
    }

    /// Logs a warning line.
    pub fn push_warning_to_chat(&mut self, msg: &str)
        requires
            old(self).wf(),
        ensures
            final(self).wf(),
            final(self)@ == (ControllerView {
                chat: old(self)@.chat.push("WARNING: "@ + msg@),
                ..old(self)@
            }),
    {
        let mut line = String::from_str("WARNING: ");
        line.append(msg);
        self.log(line);
    }

    /// The local player gives up: the game is lost and the peer is told.
    pub fn surrender(&mut self)
        requires
            old(self).wf(),
        ensures
            final(self).wf(),
            final(self)@ == surrender_step(old(self)@),
    {
        self.send(Message::Surrender());
        self.state = GameState::GameEnded(GameResult::PlayerLost);
    }

    /// Takes back the last placement, hands the turn back and tells the peer.
    pub fn undo_last_move(&mut self)
        requires
            old(self).wf(),
        ensures
            final(self).wf(),
            final(self)@ == undo_step(old(self)@),
    {
        self.board.revert_to_last_state();
        self.player_turn = !self.player_turn;
        self.opponent_passed = false;
        self.send(Message::UndoMove());
    }

    /// Drops the session: no connection, an empty board, an empty chat log
    /// and nothing left to send, whatever came before.
    pub fn restart_game(&mut self)
        requires
            old(self).wf(),
        ensures
            final(self).wf(),
            final(self)@ == fresh(),
    {
        *self = GameController::new();
    }

    /// Applies one message received from the peer; see `remote_step`.
    pub fn handle_remote_message(&mut self, msg: Message)
        requires
            old(self).wf(),
        ensures
            final(self).wf(),
            final(self)@ == remote_step(old(self)@, msg@),
    {
        match msg {
            Message::TestConnection() => {},
            Message::TextMessage(text) => {
                self.opponent_passed = false;
                self.push_chat_message(text, true);
            },
            Message::Surrender() => {
                self.opponent_passed = false;
                self.state = GameState::GameEnded(GameResult::PlayerWon);
            },
            Message::SetPiece(pos) => {
                self.opponent_passed = false;
                self.try_set_piece_on_board(pos.0, pos.1, true);
            },
            Message::UndoMove() => {
                self.opponent_passed = false;
                self.board.revert_to_last_state();
                self.player_turn = !self.player_turn;
                self.push_warning_to_chat("The last move was undone by the opponent.");
            },
            Message::GameEnded() => {
                self.opponent_passed = false;
                let result = self.check_if_player_won();
                self.state = GameState::GameEnded(result);
            },
            Message::PassTurn() => {
                self.player_turn = !self.player_turn;
                self.opponent_passed = true;
                self.push_warning_to_chat("Opponent forfeited their turn.");
            },
        }
    }

    /// Applies a batch of messages received from the peer, in arrival order.
    pub fn drain_remote_events(&mut self, inbound: Vec<Message>)
        requires
            old(self).wf(),
        ensures
            final(self).wf(),
            final(self)@ == remote_steps(old(self)@, views(inbound@)),
    {
        let ghost all = views(inbound@);
        let ghost mut done: int = 0;
        let mut rest = inbound;
        proof {
            assert(all.take(0) =~= Seq::<MessageView>::empty());
            assert(views(rest@) =~= all.subrange(0, all.len() as int));
        }
        while rest.len() > 0
            invariant
                self.wf(),
                0 <= done <= all.len(),
                rest.len() == all.len() - done,
                views(rest@) == all.subrange(done, all.len() as int),
                self@ == remote_steps(old(self)@, all.take(done)),
            decreases rest.len(),
        {
            let ghost before = rest@;
            proof {
                assert(views(before)[0] == before[0]@);
                assert(all[done] == views(before)[0]);
            }
            let m = rest.remove(0);
            self.handle_remote_message(m);
            proof {
                assert(all.take(done + 1).drop_last() =~= all.take(done));
                assert(all.take(done + 1).last() == all[done]);
                assert(views(rest@) =~= all.subrange(done + 1, all.len() as int)) by {
                    assert(rest@ =~= before.subrange(1, before.len() as int));
                    assert forall|i: int| 0 <= i < rest.len() implies views(rest@)[i] == all[done + 1 + i] by {
                        assert(views(before)[i + 1] == before[i + 1]@);
                    }
                }
                done = done + 1;
            }
        }
        proof {
            assert(all.take(done) =~= all);
        }
    }

    /// Hands over the queued messages, oldest first, and empties the queue.
    pub fn take_outgoing(&mut self) -> (r: Vec<Message>)
        requires
            old(self).wf(),
        ensures
            final(self).wf(),
            views(r@) == old(self)@.outgoing,
            forall|i: int| 0 <= i < r.len() ==> encodable(#[trigger] r[i]@),
            final(self)@ == (ControllerView { outgoing: Seq::empty(), ..old(self)@ }),
    {
        let mut out: Vec<Message> = Vec::new();
        std::mem::swap(&mut out, &mut self.outgoing);
        proof {
            assert(views(self.outgoing@) =~= Seq::empty());
            assert forall|i: int| 0 <= i < out.len() implies encodable(#[trigger] out[i]@) by {
                assert(encodable(old(self)@.outgoing[i]));
                assert(views(out@)[i] == out[i]@);
            }
        }
        out
    }

    /// The result for the local player on the current board.
    pub fn check_if_player_won(&self) -> (r: GameResult)
        requires
            self.wf(),
        ensures
            r == outcome(self@.cells, self@.is_host),
    {
        let (player0, player1) = self.board.count_pieces();
        if player0 == player1 {
            return GameResult::Tie;
        }
        if self.is_host && player0 > player1 {
            return GameResult::PlayerWon;
        }
        if !self.is_host && player1 > player0 {
            return GameResult::PlayerWon;
        }
        GameResult::PlayerLost
    }

    /// Whether a move is player 1's: the peer's moves for the host, the
    /// local player's for the other side.
    fn swap_player_if_not_host(&self, from_opponent: bool) -> (r: bool)
        ensures
            r as u8 == mover(self@.is_host, from_opponent),
    {
        if !self.is_host {
            !from_opponent
        } else {
            from_opponent
        }
    }

    /// Appends a line to the chat log.
    fn log(&mut self, line: String)
        requires
            old(self).wf(),
        ensures
            final(self).wf(),
            final(self)@ == (ControllerView { chat: old(self)@.chat.push(line@), ..old(self)@ }),
    {
        self.chat_messages.push(line);
        proof {
            assert(chat_view(self.chat_messages@) =~= chat_view(old(self).chat_messages@).push(
                line@,
            ));
        }
    }

    /// Queues a message for the peer.
    fn send(&mut self, msg: Message)
        requires
            old(self).wf(),
            encodable(msg@),
        ensures
            final(self).wf(),
            final(self)@ == (ControllerView {
                outgoing: old(self)@.outgoing.push(msg@),
                ..old(self)@
            }),
    {
        let ghost m = msg@;
        self.outgoing.push(msg);
        proof {
            assert(views(self.outgoing@) =~= views(old(self).outgoing@).push(m));
        }
    }
}

} // verus!
