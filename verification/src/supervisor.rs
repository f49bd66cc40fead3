use vstd::prelude::*;
use vstd::string::StringExecFns;

use std::str::FromStr;
use std::sync::mpsc::Receiver;
use std::sync::mpsc::Sender;

use crate::accumulator::derive_model;
use crate::accumulator::EvalModel;
use crate::accumulator::SFEvalOutputAccumulator;
use crate::accumulator::StockfishEval;
use crate::info::InfoModel;
use crate::score::Color;
use crate::score::GameOutcome;
use crate::text::dec_str;
use crate::text::usize_to_string;

verus! {

// ---------------------------------------------------------------------------
// Errors.
// ---------------------------------------------------------------------------
#[derive(Debug, Clone, Copy, PartialEq, Eq, Structural)]
pub enum StockfishError {
    /// Invalid input to Stockfish.
    InvalidInput,
    /// Stockfish process is busy.
    Busy,
    /// Stockfish process is not evaluating.
    NotEvaluating,
}

/// Constraint on how long/deeply Stockfish should evaluate a given position.
pub enum EvalConstraint {
    MaxTimeMillis(u64),
    MaxDepth(usize),
}

impl Default for EvalConstraint {
    /// "Default" constraint is a depth of 25.
    fn default() -> (r: Self)
        ensures
            r == EvalConstraint::MaxDepth(25usize),
    {
        EvalConstraint::MaxDepth(25)
    }
}

// ---------------------------------------------------------------------------
// The position, modelled by exactly what the evaluation logic reads of it:
// whose turn it is, and whether the game is already over.
// ---------------------------------------------------------------------------
#[derive(Clone, Copy, Debug, PartialEq, Eq, Structural)]
pub enum PositionStatus {
    Ongoing,
    Stalemate,
    Checkmate,
}

/// A validated board state: the side to move and the terminal status, read
/// off once when the position string is validated.
#[derive(Clone, Copy, Debug, PartialEq, Eq, Structural)]
pub struct Position {
    pub side_to_move: Color,
    pub status: PositionStatus,
}

// ---------------------------------------------------------------------------
// Trusted view of the chess crate: positions are validated and read by it.
// ---------------------------------------------------------------------------
/// What the chess crate reads off a position string: `None` for a string it
/// cannot parse or whose board fails its sanity checks, else the board's
/// side to move and terminal status. A function of the string alone.
pub uninterp spec fn fen_model(s: Seq<char>) -> Option<Position>;

/// Relies on `chess::Board::from_str` (which parses a FEN string and only
/// returns sane boards), `Board::is_sane`, `Board::side_to_move` and
/// `Board::status`: together they read a position string into its side to
/// move and game status, deterministically in the string.
#[verifier::external_body]
fn read_fen(fen: &str) -> (r: Option<Position>)
    ensures
        r == fen_model(fen@),
{
    let board = chess::Board::from_str(fen).ok()?;
    if !board.is_sane() {
        return None;
    }
    let side_to_move = match board.side_to_move() {
        chess::Color::White => Color::White,
        chess::Color::Black => Color::Black,
    };
    let status = match board.status() {
        chess::BoardStatus::Ongoing => PositionStatus::Ongoing,
        chess::BoardStatus::Stalemate => PositionStatus::Stalemate,
        chess::BoardStatus::Checkmate => PositionStatus::Checkmate,
    };
    Some(Position { side_to_move, status })
}

/// Parse and validate a position string, reading off what the evaluation
/// logic needs: the side to move, and whether the game is already over.
/// `None` for a malformed or illegal position string.
pub fn validate_fen(fen: &str) -> (r: Option<Position>)
    ensures
        r == fen_model(fen@),
{
    read_fen(fen)
}

// ---------------------------------------------------------------------------
// Trusted view of the process bridge: two channel endpoints whose far ends
// are serviced outside the library.
// ---------------------------------------------------------------------------
#[verifier::external_type_specification]
#[verifier::external_body]
#[verifier::reject_recursive_types(T)]
pub struct ExReceiver<T>(Receiver<T>);

#[verifier::external_type_specification]
#[verifier::external_body]
#[verifier::reject_recursive_types(T)]
pub struct ExSender<T>(Sender<T>);

/// Relies on `std::sync::mpsc::Sender::send`: enqueues the line for the far
/// end; when the far end is gone the line is dropped.
#[verifier::external_body]
fn channel_send(tx: &Sender<String>, line: String) {
    let _ = tx.send(line);
}

/// Relies on `std::sync::mpsc::Receiver::try_recv`: `Ok(Some)` carries the
/// next buffered line, `Ok(None)` means none is buffered yet, and `Err`
/// means the sending side is gone and nothing more will ever arrive.
#[verifier::external_body]
fn channel_try_recv(rx: &Receiver<String>) -> (r: Result<Option<String>, ()>) {
    match rx.try_recv() {
        Ok(line) => Ok(Some(line)),
        Err(std::sync::mpsc::TryRecvError::Empty) => Ok(None),
        Err(std::sync::mpsc::TryRecvError::Disconnected) => Err(()),
    }
}

/// Relies on `num_cpus::get`: the number of logical CPUs available, which
/// the crate documents to be at least one.
#[verifier::external_body]
fn cpu_count() -> (n: usize)
    ensures
        n >= 1,
{
    num_cpus::get()
}

// ---------------------------------------------------------------------------
// Protocol command lines.
// ---------------------------------------------------------------------------
fn cmd_position(fen: &str) -> (r: String)
    ensures
        r@ == "position fen "@ + fen@,
{
    let mut s = <String as StringExecFns>::from_str("position fen ");
    s.append(fen);
    s
}

fn cmd_set_threads(n: usize) -> (r: String)
    ensures
        r@ == "setoption name Threads value "@ + dec_str(n as int),
{
    let mut s = <String as StringExecFns>::from_str("setoption name Threads value ");
    let num = usize_to_string(n);
    s.append(num.as_str());
    s
}

// ---------------------------------------------------------------------------
// The supervisor state machine.
// ---------------------------------------------------------------------------
/// Mathematical image of the supervisor state.
#[verifier::ext_equal]
pub struct SupModel {
    pub busy: bool,
    pub position: Option<Position>,
    pub records: Seq<InfoModel>,
}

/// The state of a freshly constructed supervisor: idle, no position, no
/// records.
pub open spec fn initial_model() -> SupModel {
    SupModel { busy: false, position: None, records: Seq::<InfoModel>::empty() }
}

/// The state after a stop: idle, position kept, records cleared.
pub open spec fn stopped_model(m: SupModel) -> SupModel {
    SupModel { busy: false, position: m.position, records: Seq::<InfoModel>::empty() }
}

/// The outcome of a checkmate: the side to move is mated, so the other side
/// wins.
pub open spec fn win_for(side_to_move: Color) -> GameOutcome {
    match side_to_move {
        Color::White => GameOutcome::BlackWin,
        Color::Black => GameOutcome::WhiteWin,
    }
}

/// The evaluation reported for a finished game: no continuations, zero
/// depth and node count, only the outcome.
pub open spec fn terminal_model(o: GameOutcome) -> EvalModel {
    EvalModel {
        eval_depth: 0,
        n_nodes: 0,
        continuations: Seq::<crate::accumulator::ContModel>::empty(),
        outcome: Some(o),
    }
}

pub open spec fn opt_eval_model(o: Option<StockfishEval>) -> Option<EvalModel> {
    match o {
        Some(e) => Some(e@),
        None => None,
    }
}

/// Supervisor of one external engine process: owns the two channel ends of
/// the process bridge, the accumulator of the in-flight analysis, and the
/// busy/idle flag.
#[derive(Debug)]
pub struct Stockfish {
    rx: Receiver<String>,
    tx: Sender<String>,
    busy: bool,
    accumulator: SFEvalOutputAccumulator,
    current_position: Option<Position>,
}

impl Stockfish {
    pub closed spec fn model(&self) -> SupModel {
        SupModel {
            busy: self.busy,
            position: self.current_position,
            records: self.accumulator@,
        }
    }

    pub closed spec fn wf(&self) -> bool {
        self.accumulator.wf() && (self.busy ==> self.current_position is Some)
    }

    /// Build a supervisor over the two channel ends of an engine bridge: the
    /// receiver carries the engine's output lines, the sender its input
    /// lines.
    pub fn new(rx: Receiver<String>, tx: Sender<String>) -> (r: Self)
        ensures
            r.wf(),
            r.model() == initial_model(),
    {
        Self {
            rx,
            tx,
            busy: false,
            accumulator: SFEvalOutputAccumulator::new(),
            current_position: None,
        }
    }

    /// Send a command to Stockfish.
    fn sf_proc_stdin_writeln(&self, line: String) {
        channel_send(&self.tx, line);
    }

    /// Non-blocking. Read a line from Stockfish's stdout, if available.
    fn sf_proc_stdout_readline(&self) -> (r: Option<String>) {
        match channel_try_recv(&self.rx) {
            Ok(line) => line,
            Err(()) => None,
        }
    }

    /// Non-blocking. Read all available lines from Stockfish's stdout.
    fn sf_proc_stdout_readlines(&self) -> (r: Vec<String>) {
        let mut out: Vec<String> = Vec::new();
        let mut fuel: u64 = u64::MAX;
        while fuel > 0
            decreases fuel,
        {
            match self.sf_proc_stdout_readline() {
                Some(line) => {
                    out.push(line);
                },
                None => {
                    return out;
                },
            }
            fuel = fuel - 1;
        }
        out
    }

    /// Configure the Stockfish process to use the given number of threads,
    /// as set automatically by examining the number of cores on the system.
    ///
    /// Returns the number of cores that were found.
    pub fn auto_set_n_threads(&mut self) -> (n: usize)
        requires
            old(self).wf(),
        ensures
            final(self).wf(),
            final(self).model() == old(self).model(),
            n >= 1,
    {
        let n_cores = cpu_count();
        self.set_n_threads(n_cores);
        n_cores
    }

    /// Forward a thread-count configuration command to the engine; the
    /// supervisor state is untouched.
    pub fn set_n_threads(&mut self, n_cores: usize)
        requires
            old(self).wf(),
        ensures
            final(self).wf(),
            final(self).model() == old(self).model(),
    {
        let cmd = cmd_set_threads(n_cores);
        self.sf_proc_stdin_writeln(cmd);
    }

    /// Blocking method. Send an `isready` command, and wait until a
    /// `readyok` response is received; the wait is bounded only by an
    /// astronomically large retry budget, and ends early when the engine's
    /// side of the bridge is gone.
    ///
    /// Any other output received during this waiting period will be ignored
    /// and discarded.
    pub fn wait_until_ready(&mut self)
        requires
            old(self).wf(),
        ensures
            final(self).wf(),
            final(self).model() == old(self).model(),
    {
        self.sf_proc_stdin_writeln(<String as StringExecFns>::from_str("isready"));
        let ready = <String as StringExecFns>::from_str("readyok");
        let mut fuel: u64 = u64::MAX;
        while fuel > 0
            invariant
                self.wf(),
                self.model() == old(self).model(),
            decreases fuel,
        {
            match channel_try_recv(&self.rx) {
                Ok(Some(line)) => {
                    if line == ready {
                        return ;
                    }
                },
                Ok(None) => {},
                Err(()) => {
                    return ;
                },
            }
            fuel = fuel - 1;
        }
    }

    /// Stop the current evaluation, if any, and wait until the process is
    /// ready to receive new commands: afterwards the supervisor is idle and
    /// the accumulator is empty.
    pub fn stop_evaluation(&mut self)
        requires
            old(self).wf(),
        ensures
            final(self).wf(),
            final(self).model() == stopped_model(old(self).model()),
    {
        self.sf_proc_stdin_writeln(<String as StringExecFns>::from_str("stop"));
        self.wait_until_ready();
        self.busy = false;
        self.accumulator.clear();
    }

    /// Record a validated position and begin searching it: the position
    /// command and the `go` command are sent, the accumulator starts the new
    /// cycle empty, and the supervisor is busy.
    pub fn begin_evaluation(&mut self, position_fen: &str, position: Position)
        requires
            old(self).wf(),
            !old(self).model().busy,
        ensures
            final(self).wf(),
            final(self).model() == (SupModel {
                busy: true,
                position: Some(position),
                records: Seq::<InfoModel>::empty(),
            }),
    {
        let cmd = cmd_position(position_fen);
        self.sf_proc_stdin_writeln(cmd);
        self.current_position = Some(position);
        self.accumulator.clear();
        self.sf_proc_stdin_writeln(<String as StringExecFns>::from_str("go"));
        self.busy = true;
    }

    /// Start an evaluation of the given board position, stopping any
    /// evaluation already running first.
    ///
    /// # Errors
    /// Will return an error if the position string is malformed or illegal;
    /// the supervisor is then idle with its previous position kept.
    pub fn restart_evaluation(&mut self, position_fen: &str) -> (r: Result<(), StockfishError>)
        requires
            old(self).wf(),
        ensures
            final(self).wf(),
            ({
                let before = old(self).model();
                let after = final(self).model();
                match r {
                    Ok(()) => fen_model(position_fen@) is Some && after.busy && after.position
                        == fen_model(position_fen@) && after.records == Seq::<InfoModel>::empty(),
                    Err(e) => fen_model(position_fen@) is None && e
                        == StockfishError::InvalidInput && !after.busy && after.position
                        == before.position && after.records == (if before.busy {
                        Seq::<InfoModel>::empty()
                    } else {
                        before.records
                    }),
                }
            }),
    {
        if self.busy {
            self.stop_evaluation();
        }
        match validate_fen(position_fen) {
            None => Err(StockfishError::InvalidInput),
            Some(position) => {
                self.begin_evaluation(position_fen, position);
                Ok(())
            },
        }
    }

    /// Get the current evaluation of the current board position: drain and
    /// accumulate the engine's output, then report either the terminal
    /// outcome of the position — stopping the search — or the evaluation
    /// derived from everything accumulated so far.
    ///
    /// # Errors
    /// Will return an error if no evaluation is running.
    pub fn get_current_evaluation(&mut self) -> (r: Result<
        Option<StockfishEval>,
        StockfishError,
    >)
        requires
            old(self).wf(),
        ensures
            final(self).wf(),
            !old(self).model().busy ==> (r matches Err(e) && e == StockfishError::NotEvaluating
                && final(self).model() == old(self).model()),
            old(self).model().busy ==> ({
                let p = old(self).model().position->Some_0;
                let before = old(self).model();
                let after = final(self).model();
                &&& (p.status is Checkmate ==> ((r matches Ok(o) && opt_eval_model(o) == Some(
                    terminal_model(win_for(p.side_to_move)))) && after == stopped_model(before)))
                &&& (p.status is Stalemate ==> ((r matches Ok(o) && opt_eval_model(o) == Some(
                    terminal_model(GameOutcome::Draw))) && after == stopped_model(before)))
                &&& (p.status is Ongoing ==> (after.busy && after.position == before.position
                    && before.records == after.records.take(before.records.len() as int) && (
                r matches Ok(o) && opt_eval_model(o) == derive_model(
                    after.records,
                    p.side_to_move,
                    None,
                ))))
            }),
    {
        if !self.busy {
            return Err(StockfishError::NotEvaluating);
        }
        let lines = self.sf_proc_stdout_readlines();
        self.accumulator.process_lines(lines.as_slice());
        let p = match self.current_position {
            Some(p) => p,
            None => {
                proof {
                    assert(false);
                }
                return Err(StockfishError::InvalidInput);
            },
        };
        let curr_turn = p.side_to_move;
        // determine game outcome
        let outcome = match p.status {
            PositionStatus::Ongoing => None,
            PositionStatus::Stalemate => Some(GameOutcome::Draw),
            PositionStatus::Checkmate => match curr_turn {
                Color::White => Some(GameOutcome::BlackWin),
                Color::Black => Some(GameOutcome::WhiteWin),
            },
        };
        match outcome {
            Some(oc) => {
                self.stop_evaluation();
                let ev = StockfishEval {
                    eval_depth: 0,
                    n_nodes: 0,
                    continuations: Vec::new(),
                    outcome: Some(oc),
                };
                proof {
                    assert(ev@.continuations =~= Seq::<crate::accumulator::ContModel>::empty());
                    assert(ev@ =~= terminal_model(oc));
                }
                Ok(Some(ev))
            },
            None => {
                let derived = self.accumulator.derive_evaluation(curr_turn, outcome);
                proof {
                    assert(old(self).model().records == self.model().records.take(
                        old(self).model().records.len() as int,
                    )) by {
                        assert(self.model().records.take(old(self).model().records.len() as int)
                            =~= old(self).model().records);
                    }
                }
                Ok(derived)
            },
        }
    }
}

// ---------------------------------------------------------------------------
// State-machine laws.
// ---------------------------------------------------------------------------
/// A freshly constructed supervisor is idle, so a poll before any start is
/// refused with `NotEvaluating` by the poll contract.
pub proof fn lemma_poll_before_start_rejected()
    ensures
        !initial_model().busy,
{
}

/// Round trip: a stop always leaves the supervisor idle, whatever state it
/// was in, so a poll that follows a stop — with no start between — is
/// refused with `NotEvaluating` by the poll contract.
pub proof fn lemma_stop_then_poll_rejected(m: SupModel)
    ensures
        !stopped_model(m).busy,
        stopped_model(m).records == Seq::<InfoModel>::empty(),
{
}

} // verus!

