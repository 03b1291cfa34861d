//! The 8×8 board: placement with validation, capture of flanked pieces in all
//! eight directions, piece tallies and a single-level undo.
use vstd::prelude::*;
use vstd::string::StringExecFns;

use crate::Position;

verus! {

/// Whether `(rank, file)` lies on the board.
pub open spec fn on_board(rank: int, file: int) -> bool {
    0 <= rank < 8 && 0 <= file < 8
}

/// Index of square `(rank, file)` in the row-major cell sequence.
pub open spec fn square(rank: int, file: int) -> int {
    rank * 8 + file
}

/// What square `(rank, file)` of `cells` holds.
pub open spec fn at(cells: Seq<Option<u8>>, rank: int, file: int) -> Option<u8> {
    cells[square(rank, file)]
}

/// The other player.
pub open spec fn opponent(player: u8) -> u8 {
    if player == 0 {
        1
    } else {
        0
    }
}

/// A grid of 64 squares, each empty or holding a piece of player 0 or 1.
pub open spec fn valid_cells(cells: Seq<Option<u8>>) -> bool {
    &&& cells.len() == 64
    &&& forall|i: int| 0 <= i < 64 && (#[trigger] cells[i]) is Some ==> cells[i]->Some_0 < 2
}

/// The grid with no piece on it.
pub open spec fn empty_cells() -> Seq<Option<u8>> {
    Seq::new(64, |i: int| None)
}

/// The grid at the start of a game: the four centre pieces, crosswise.
pub open spec fn start_cells() -> Seq<Option<u8>> {
    empty_cells().update(square(3, 3), Some(1u8)).update(square(3, 4), Some(0u8)).update(
        square(4, 3),
        Some(0u8),
    ).update(square(4, 4), Some(1u8))
}

/// Number of pieces of `player` in `cells`.
pub open spec fn count_of(cells: Seq<Option<u8>>, player: u8) -> nat
    decreases cells.len(),
{
    if cells.len() == 0 {
        0
    } else {
        count_of(cells.drop_last(), player) + if cells.last() == Some(player) {
            1nat
        } else {
            0nat
        }
    }
}

/// Coordinate reached from `x` after `k` steps in direction `d` (negative, zero or positive).
pub open spec fn step(x: int, d: int, k: int) -> int {
    if d > 0 {
        x + k
    } else if d < 0 {
        x - k
    } else {
        x
    }
}

/// A direction is one of the eight neighbouring offsets.
pub open spec fn is_direction(dr: int, df: int) -> bool {
    -1 <= dr <= 1 && -1 <= df <= 1 && !(dr == 0 && df == 0)
}

/// How many pieces of `player`'s opponent follow one another on the ray from
/// `(rank, file)` in direction `(dr, df)`, counting from step `k` on.
pub open spec fn opponent_run(
    cells: Seq<Option<u8>>,
    rank: int,
    file: int,
    dr: int,
    df: int,
    player: u8,
    k: int,
) -> nat
    decreases 8 - k,
{
    if 1 <= k < 8 && on_board(step(rank, dr, k), step(file, df, k)) && at(
        cells,
        step(rank, dr, k),
        step(file, df, k),
    ) == Some(opponent(player)) {
        1 + opponent_run(cells, rank, file, dr, df, player, k + 1)
    } else {
        0
    }
}

/// How many pieces `player` captures along one ray: the run of opponent
/// pieces next to the placed one, when a piece of `player` closes it on the
/// board; none when the run meets an empty square or the edge.
pub open spec fn captured_run(
    cells: Seq<Option<u8>>,
    rank: int,
    file: int,
    dr: int,
    df: int,
    player: u8,
) -> nat {
    let n: int = opponent_run(cells, rank, file, dr, df, player, 1) as int;
    let end_rank = step(rank, dr, n + 1);
    let end_file = step(file, df, n + 1);
    if on_board(end_rank, end_file) && at(cells, end_rank, end_file) == Some(player) {
        n as nat
    } else {
        0
    }
}

/// The squares flipped along one ray, nearest first.
pub open spec fn ray_flips(
    cells: Seq<Option<u8>>,
    rank: int,
    file: int,
    dr: int,
    df: int,
    player: u8,
) -> Seq<Position> {
    Seq::new(
        captured_run(cells, rank, file, dr, df, player),
        |i: int| (step(rank, dr, i + 1) as usize, step(file, df, i + 1) as usize),
    )
}

/// The eight directions, in the order in which rays are cast.
pub open spec fn directions() -> Seq<(int, int)> {
    seq![(-1, -1), (-1, 0), (-1, 1), (0, -1), (0, 1), (1, -1), (1, 0), (1, 1)]
}

/// The squares flipped along the first `n` directions.
pub open spec fn flips_upto(
    cells: Seq<Option<u8>>,
    rank: int,
    file: int,
    player: u8,
    n: int,
) -> Seq<Position>
    decreases n,
{
    if n <= 0 {
        Seq::empty()
    } else {
        flips_upto(cells, rank, file, player, n - 1) + ray_flips(
            cells,
            rank,
            file,
            directions()[n - 1].0,
            directions()[n - 1].1,
            player,
        )
    }
}

/// Every square that placing `player` on `(rank, file)` flips, ray by ray.
pub open spec fn flips(cells: Seq<Option<u8>>, rank: int, file: int, player: u8) -> Seq<Position> {
    flips_upto(cells, rank, file, player, 8)
}

/// `cells` with each square of `squares` turned to `player`.
pub open spec fn apply_flips(cells: Seq<Option<u8>>, squares: Seq<Position>, player: u8) -> Seq<
    Option<u8>,
>
    decreases squares.len(),
{
    if squares.len() == 0 {
        cells
    } else {
        apply_flips(cells, squares.drop_last(), player).update(
            square(squares.last().0 as int, squares.last().1 as int),
            Some(player),
        )
    }
}

/// The grid after `player` takes the empty square `(rank, file)`: that square
/// and every captured one hold `player`, the rest is as it was.
pub open spec fn placed(cells: Seq<Option<u8>>, rank: int, file: int, player: u8) -> Seq<
    Option<u8>,
> {
    apply_flips(cells.update(square(rank, file), Some(player)), flips(cells, rank, file, player), player)
}

/// Why a placement is refused.
#[derive(Clone, Copy, Debug, PartialEq, Eq, Structural)]
pub enum PlacementError {
    /// The rank or the file is past the last row or column.
    OutOfBounds,
    /// The square already holds a piece.
    OccupiedSquare,
}

/// The error, if any, that placing on `(rank, file)` of `cells` meets.
pub open spec fn placement_error(cells: Seq<Option<u8>>, rank: int, file: int) -> Option<
    PlacementError,
> {
    if !on_board(rank, file) {
        Some(PlacementError::OutOfBounds)
    } else if at(cells, rank, file) is Some {
        Some(PlacementError::OccupiedSquare)
    } else {
        None
    }
}

impl PlacementError {
    /// The sentence shown to the player.
    pub open spec fn text(self) -> Seq<char> {
        match self {
            PlacementError::OutOfBounds => "Invalid piece position given. Either the rank or the file are outside of the game board's upper bounds. Maximum rank: h, maximum file: 8."@,
            PlacementError::OccupiedSquare => "There already is a piece at the given position. Pieces must be placed on empty squares."@,
        }
    }

    pub fn message(&self) -> (r: String)
        ensures
            r@ == self.text(),
    {
        match self {
            PlacementError::OutOfBounds => String::from_str(
                "Invalid piece position given. Either the rank or the file are outside of the game board's upper bounds. Maximum rank: h, maximum file: 8.",
            ),
            PlacementError::OccupiedSquare => String::from_str(
                "There already is a piece at the given position. Pieces must be placed on empty squares.",
            ),
        }
    }
}

/// The board, with the grid as it stood before the last placement.
pub struct OthelloBoard {
    cells: Vec<Option<u8>>,
    saved: Vec<Option<u8>>,
}

impl View for OthelloBoard {
    type V = Seq<Option<u8>>;

    /// The current grid, row-major: square `(rank, file)` at `rank * 8 + file`.
    closed spec fn view(&self) -> Seq<Option<u8>> {
        self.cells@
    }
}

impl OthelloBoard {
    /// The grid that `revert_to_last_state` goes back to.
    pub closed spec fn saved(&self) -> Seq<Option<u8>> {
        self.saved@
    }

    pub open spec fn wf(&self) -> bool {
        valid_cells(self@) && valid_cells(self.saved())
    }

    /// A board set up for a new game: the four centre pieces.
    pub fn new() -> (b: Self)
        ensures
            b.wf(),
            b@ == start_cells(),
            b.saved() == start_cells(),
    {
        let mut cells = empty_grid();
        cells.set(3 * 8 + 3, Some(1));
        cells.set(3 * 8 + 4, Some(0));
        cells.set(4 * 8 + 3, Some(0));
        cells.set(4 * 8 + 4, Some(1));
        let saved = copy_cells(&cells);
        OthelloBoard { cells, saved }
    }

    /// A board with no piece on it.
    pub fn empty() -> (b: Self)
        ensures
            b.wf(),
            b@ == empty_cells(),
            b.saved() == empty_cells(),
    {
        OthelloBoard { cells: empty_grid(), saved: empty_grid() }
    }

    /// The player whose piece stands on `(rank, file)`, if any.
    pub fn get_piece_at(&self, rank: usize, file: usize) -> (r: Option<u8>)
        requires
            self.wf(),
            rank < 8,
            file < 8,
        ensures
            r == at(self@, rank as int, file as int),
    {
        self.cells[rank * 8 + file]
    }

    /// How many pieces each player has: `(player 0, player 1)`.
    pub fn count_pieces(&self) -> (r: (usize, usize))
        requires
            self.wf(),
        ensures
            r.0 == count_of(self@, 0),
            r.1 == count_of(self@, 1),
    {
        let mut player0: usize = 0;
        let mut player1: usize = 0;
        let mut i: usize = 0;
        while i < 64
            invariant
                self.wf(),
                i <= 64,
                player0 == count_of(self@.take(i as int), 0),
                player1 == count_of(self@.take(i as int), 1),
                player0 + player1 <= i,
            decreases 64 - i,
        {
            proof {
                assert(self@.take(i + 1).drop_last() =~= self@.take(i as int));
            }
            match self.cells[i] {
                Some(0) => player0 = player0 + 1,
                Some(_) => player1 = player1 + 1,
                None => {},
            }
            i = i + 1;
        }
        proof {
            assert(self@.take(64) =~= self@);
        }
        (player0, player1)
    }

    /// Puts a piece of `which_player` on `(rank, file)` and flips every piece
    /// of the opponent that the new one flanks, in all eight directions.
    /// Returns the flipped squares; on error the board is left as it was.
    pub fn set_piece(&mut self, rank: usize, file: usize, which_player: u8) -> (r: Result<
        Vec<Position>,
        PlacementError,
    >)
        requires
            old(self).wf(),
            which_player < 2,
        ensures
            final(self).wf(),
            match placement_error(old(self)@, rank as int, file as int) {
                Some(e) => r == Err::<Vec<Position>, PlacementError>(e) && *final(self) == *old(
                    self,
                ),
                None => {
                    &&& r is Ok
                    &&& r->Ok_0@ == flips(old(self)@, rank as int, file as int, which_player)
                    &&& final(self)@ == placed(old(self)@, rank as int, file as int, which_player)
                    &&& at(final(self)@, rank as int, file as int) == Some(which_player)
                    &&& final(self).saved() == old(self)@
                },
            },
    {
        if rank > 7 || file > 7 {
            return Err(PlacementError::OutOfBounds);
        }
        if self.cells[rank * 8 + file].is_some() {
            return Err(PlacementError::OccupiedSquare);
        }
        let flipped = self.check_for_flanks(rank, file, which_player);
        self.saved = copy_cells(&self.cells);
        self.cells.set(rank * 8 + file, Some(which_player));
        self.flip_pieces_if_needed(&flipped, which_player);
        Ok(flipped)
    }

    /// Goes back to the grid as it stood before the last placement. Only one
    /// level is kept: a second call changes nothing more.
    pub fn revert_to_last_state(&mut self)
        requires
            old(self).wf(),
        ensures
            final(self).wf(),
            final(self)@ == old(self).saved(),
            final(self).saved() == old(self).saved(),
    {
        self.cells = copy_cells(&self.saved);
    }

    /// The squares that a piece of `player` on `(rank, file)` flanks, ray by ray.
    fn check_for_flanks(&self, rank: usize, file: usize, player: u8) -> (v: Vec<Position>)
        requires
            self.wf(),
            rank < 8,
            file < 8,
            player < 2,
        ensures
            v@ == flips(self@, rank as int, file as int, player),
            forall|i: int| 0 <= i < v.len() ==> v[i].0 < 8 && v[i].1 < 8,
    {
        let mut v: Vec<Position> = Vec::new();
        let mut d: usize = 0;
        while d < 8
            invariant
                self.wf(),
                rank < 8,
                file < 8,
                player < 2,
                d <= 8,
                v@ == flips_upto(self@, rank as int, file as int, player, d as int),
                forall|i: int| 0 <= i < v.len() ==> v[i].0 < 8 && v[i].1 < 8,
            decreases 8 - d,
        {
            let (dr, df) = direction(d);
            let mut run = self.cast_ray(rank, file, dr, df, player);
            v.append(&mut run);
            d = d + 1;
        }
        v
    }

    /// The squares captured on the ray from `(rank, file)` in direction
    /// `(dr, df)`: scan outward over the opponent's pieces; keep them when a
    /// piece of `player` ends the run, drop them at an empty square or the edge.
    fn cast_ray(&self, rank: usize, file: usize, dr: i8, df: i8, player: u8) -> (run: Vec<
        Position,
    >)
        requires
            self.wf(),
            rank < 8,
            file < 8,
            player < 2,
            is_direction(dr as int, df as int),
        ensures
            run@ == ray_flips(self@, rank as int, file as int, dr as int, df as int, player),
            forall|i: int| 0 <= i < run.len() ==> run[i].0 < 8 && run[i].1 < 8,
    {
        let ghost cells = self@;
        let ghost (rk, fl, dk, dl) = (rank as int, file as int, dr as int, df as int);
        let mut run: Vec<Position> = Vec::new();
        let mut r: i64 = rank as i64 + dr as i64;
        let mut f: i64 = file as i64 + df as i64;
        loop
            invariant
                self.wf(),
                cells == self@,
                rank < 8,
                file < 8,
                player < 2,
                is_direction(dk, dl),
                rk == rank,
                fl == file,
                dk == dr,
                dl == df,
                run.len() < 8,
                r == step(rk, dk, run.len() + 1),
                f == step(fl, dl, run.len() + 1),
                run@ == Seq::new(
                    run.len() as nat,
                    |i: int| (step(rk, dk, i + 1) as usize, step(fl, dl, i + 1) as usize),
                ),
                forall|i: int| 0 <= i < run.len() ==> run[i].0 < 8 && run[i].1 < 8,
                opponent_run(cells, rk, fl, dk, dl, player, 1) == run.len() + opponent_run(
                    cells,
                    rk,
                    fl,
                    dk,
                    dl,
                    player,
                    run.len() + 1,
                ),
            decreases 8 - run.len(),
        {
            if r < 0 || r >= 8 || f < 0 || f >= 8 {
                proof {
                    assert(Seq::<Position>::empty() =~= ray_flips(cells, rk, fl, dk, dl, player));
                }
                return Vec::new();
            }
            match self.cells[(r * 8 + f) as usize] {
                None => {
                    proof {
                        assert(Seq::<Position>::empty() =~= ray_flips(cells, rk, fl, dk, dl, player));
                    }
                    return Vec::new();
                },
                Some(p) => {
                    if p == player {
                        proof {
                            assert(run@ =~= ray_flips(cells, rk, fl, dk, dl, player));
                        }
                        return run;
                    }
                    let ghost k = run.len() + 1;
                    assert(opponent_run(cells, rk, fl, dk, dl, player, k) == 1 + opponent_run(
                        cells,
                        rk,
                        fl,
                        dk,
                        dl,
                        player,
                        k + 1,
                    ));
                    run.push((r as usize, f as usize));
                    r = r + dr as i64;
                    f = f + df as i64;
                    proof {
                        assert(run@ =~= Seq::new(
                            run.len() as nat,
                            |i: int| (step(rk, dk, i + 1) as usize, step(fl, dl, i + 1) as usize),
                        ));
                    }
                },
            }
        }
    }

    /// Turns every square of `squares` to `player`.
    fn flip_pieces_if_needed(&mut self, squares: &Vec<Position>, player: u8)
        requires
            valid_cells(old(self)@),
            valid_cells(old(self).saved()),
            player < 2,
            forall|i: int| 0 <= i < squares.len() ==> squares[i].0 < 8 && squares[i].1 < 8,
        ensures
            final(self).wf(),
            final(self)@ == apply_flips(old(self)@, squares@, player),
            final(self).saved() == old(self).saved(),
            forall|j: int| 0 <= j < 64 && old(self)@[j] == Some(player) ==> final(self)@[j] == Some(
                player,
            ),
    {
        let ghost start = self@;
        let mut i: usize = 0;
        while i < squares.len()
            invariant
                i <= squares.len(),
                player < 2,
                self.wf(),
                self.saved() == old(self).saved(),
                self@ == apply_flips(start, squares@.take(i as int), player),
                forall|j: int| 0 <= j < 64 && start[j] == Some(player) ==> self@[j] == Some(player),
                forall|j: int| 0 <= j < squares.len() ==> squares[j].0 < 8 && squares[j].1 < 8,
            decreases squares.len() - i,
        {
            let (r, f) = squares[i];
            proof {
                assert(squares@.take(i + 1).drop_last() =~= squares@.take(i as int));
            }
            self.cells.set(r * 8 + f, Some(player));
            i = i + 1;
        }
        proof {
            assert(squares@.take(squares.len() as int) =~= squares@);
        }
    }
}

/// Placing a piece on an empty board always succeeds, flips nothing, and the
/// tally afterwards shows exactly that one piece: one for its player, none
/// for the other.
pub proof fn lemma_place_on_empty_board(rank: int, file: int, player: u8)
    requires
        on_board(rank, file),
        player < 2,
    ensures
        placement_error(empty_cells(), rank, file) is None,
        flips(empty_cells(), rank, file, player) == Seq::<Position>::empty(),
        count_of(placed(empty_cells(), rank, file, player), player) == 1,
        count_of(placed(empty_cells(), rank, file, player), opponent(player)) == 0,
{
    let cells = empty_cells();
    assert forall|n: int| 0 <= n <= 8 implies flips_upto(cells, rank, file, player, n)
        =~= Seq::<Position>::empty() by {
        lemma_no_flips_on_empty(rank, file, player, n);
    }
    assert(placed(cells, rank, file, player) == cells.update(square(rank, file), Some(player)));
    lemma_count_empty(cells, player);
    lemma_count_empty(cells, opponent(player));
    lemma_count_update(cells, square(rank, file), Some(player), player);
    lemma_count_update(cells, square(rank, file), Some(player), opponent(player));
}

proof fn lemma_no_flips_on_empty(rank: int, file: int, player: u8, n: int)
    requires
        0 <= n <= 8,
    ensures
        flips_upto(empty_cells(), rank, file, player, n) =~= Seq::<Position>::empty(),
    decreases n,
{
    if n > 0 {
        lemma_no_flips_on_empty(rank, file, player, n - 1);
        let (dr, df) = directions()[n - 1];
        assert(opponent_run(empty_cells(), rank, file, dr, df, player, 1) == 0);
        assert(captured_run(empty_cells(), rank, file, dr, df, player) == 0);
    }
}

/// Whether `(x, y)` is among the squares captured along the `d`-th direction.
pub open spec fn on_captured_ray(
    cells: Seq<Option<u8>>,
    rank: int,
    file: int,
    player: u8,
    d: int,
    x: int,
    y: int,
) -> bool {
    exists|k: int|
        1 <= k <= captured_run(cells, rank, file, directions()[d].0, directions()[d].1, player)
            && x == #[trigger] step(rank, directions()[d].0, k) && y == step(
            file,
            directions()[d].1,
            k,
        )
}

/// Whether placing `player` on `(rank, file)` flips `(x, y)`: the square lies,
/// in one of the eight directions, within a run of opponent pieces that a
/// piece of `player` closes.
pub open spec fn flanked(cells: Seq<Option<u8>>, rank: int, file: int, player: u8, x: int, y: int) -> bool {
    exists|d: int| 0 <= d < 8 && #[trigger] on_captured_ray(cells, rank, file, player, d, x, y)
}

/// The capture rule square by square: after `player` takes the empty square
/// `(rank, file)`, that square and every flanked square hold `player`, and
/// every other square holds what it held.
pub proof fn lemma_placed_square_by_square(
    cells: Seq<Option<u8>>,
    rank: int,
    file: int,
    player: u8,
    x: int,
    y: int,
)
    requires
        valid_cells(cells),
        on_board(rank, file),
        on_board(x, y),
    ensures
        at(placed(cells, rank, file, player), x, y) == if (x == rank && y == file) || flanked(
            cells,
            rank,
            file,
            player,
            x,
            y,
        ) {
            Some(player)
        } else {
            at(cells, x, y)
        },
{
    let fl = flips(cells, rank, file, player);
    let start = cells.update(square(rank, file), Some(player));
    let pos = (x as usize, y as usize);
    let i = square(x, y);
    lemma_flips_upto_members(cells, rank, file, player, 8, x, y);
    assert(fl == flips_upto(cells, rank, file, player, 8));
    assert forall|j: int| 0 <= j < fl.len() implies fl[j].0 < 8 && fl[j].1 < 8 by {
        assert(flips_upto(cells, rank, file, player, 8)[j].0 < 8);
    }
    assert(fl.contains(pos) <==> flanked(cells, rank, file, player, x, y));
    lemma_apply_flips_at(start, fl, player, i);
    let hit = exists|j: int| 0 <= j < fl.len() && square(fl[j].0 as int, fl[j].1 as int) == i;
    assert(hit <==> fl.contains(pos)) by {
        if hit {
            let j = choose|j: int| 0 <= j < fl.len() && square(fl[j].0 as int, fl[j].1 as int) == i;
            assert(fl[j] == pos);
        }
        if fl.contains(pos) {
            let j = choose|j: int| 0 <= j < fl.len() && fl[j] == pos;
            assert(square(fl[j].0 as int, fl[j].1 as int) == i);
        }
    }
    assert(start[i] == if x == rank && y == file {
        Some(player)
    } else {
        cells[i]
    });
}

/// What a square holds after squares on the board are turned to `player`.
proof fn lemma_apply_flips_at(cells: Seq<Option<u8>>, squares: Seq<Position>, player: u8, i: int)
    requires
        cells.len() == 64,
        0 <= i < 64,
        forall|j: int| 0 <= j < squares.len() ==> squares[j].0 < 8 && squares[j].1 < 8,
    ensures
        apply_flips(cells, squares, player).len() == 64,
        apply_flips(cells, squares, player)[i] == if exists|j: int|
            0 <= j < squares.len() && square(squares[j].0 as int, squares[j].1 as int) == i {
            Some(player)
        } else {
            cells[i]
        },
    decreases squares.len(),
{
    if squares.len() > 0 {
        let rest = squares.drop_last();
        lemma_apply_flips_at(cells, rest, player, i);
        let last = squares.len() - 1;
        if exists|j: int| 0 <= j < rest.len() && square(rest[j].0 as int, rest[j].1 as int) == i {
            let j = choose|j: int|
                0 <= j < rest.len() && square(rest[j].0 as int, rest[j].1 as int) == i;
            assert(squares[j] == rest[j]);
        }
        if square(squares[last].0 as int, squares[last].1 as int) == i {
            assert(squares.last() == squares[last]);
        }
        if exists|j: int|
            0 <= j < squares.len() && square(squares[j].0 as int, squares[j].1 as int) == i {
            let j = choose|j: int|
                0 <= j < squares.len() && square(squares[j].0 as int, squares[j].1 as int) == i;
            if j < last {
                assert(rest[j] == squares[j]);
            }
        }
    }
}

/// The squares of a run of opponent pieces lie on the board and hold the
/// opponent's pieces.
proof fn lemma_run_on_board(
    cells: Seq<Option<u8>>,
    rank: int,
    file: int,
    dr: int,
    df: int,
    player: u8,
    k: int,
    j: int,
)
    requires
        1 <= k <= j < k + opponent_run(cells, rank, file, dr, df, player, k),
    ensures
        on_board(step(rank, dr, j), step(file, df, j)),
        at(cells, step(rank, dr, j), step(file, df, j)) == Some(opponent(player)),
    decreases j - k,
{
    if j > k {
        lemma_run_on_board(cells, rank, file, dr, df, player, k + 1, j);
    }
}

/// The flips along the first `n` directions lie on the board, and `(x, y)` is
/// among them exactly when it is captured along one of those directions.
proof fn lemma_flips_upto_members(
    cells: Seq<Option<u8>>,
    rank: int,
    file: int,
    player: u8,
    n: int,
    x: int,
    y: int,
)
    requires
        0 <= n <= 8,
        on_board(x, y),
    ensures
        forall|j: int|
            0 <= j < flips_upto(cells, rank, file, player, n).len() ==> #[trigger] flips_upto(
                cells,
                rank,
                file,
                player,
                n,
            )[j].0 < 8 && flips_upto(cells, rank, file, player, n)[j].1 < 8,
        flips_upto(cells, rank, file, player, n).contains((x as usize, y as usize)) <==> exists|
            d: int,
        | 0 <= d < n && #[trigger] on_captured_ray(cells, rank, file, player, d, x, y),
    decreases n,
{
    if n > 0 {
        lemma_flips_upto_members(cells, rank, file, player, n - 1, x, y);
        let d = n - 1;
        let (dr, df) = directions()[d];
        let prev = flips_upto(cells, rank, file, player, d);
        let ray = ray_flips(cells, rank, file, dr, df, player);
        let all = flips_upto(cells, rank, file, player, n);
        assert(all == prev + ray);
        let c = captured_run(cells, rank, file, dr, df, player);
        assert forall|i: int| 0 <= i < ray.len() implies on_board(
            #[trigger] step(rank, dr, i + 1),
            step(file, df, i + 1),
        ) by {
            lemma_run_on_board(cells, rank, file, dr, df, player, 1, i + 1);
        }
        assert forall|j: int| 0 <= j < all.len() implies #[trigger] all[j].0 < 8 && all[j].1 < 8 by {
            if j >= prev.len() {
                assert(all[j] == ray[j - prev.len()]);
            }
        }
        let pos = (x as usize, y as usize);
        if all.contains(pos) {
            let j = choose|j: int| 0 <= j < all.len() && all[j] == pos;
            if j >= prev.len() {
                let i = j - prev.len();
                assert(ray[i] == pos);
                assert(on_board(step(rank, dr, i + 1), step(file, df, i + 1)));
                assert(step(rank, dr, i + 1) == x);
                assert(on_captured_ray(cells, rank, file, player, d, x, y));
            } else {
                assert(prev[j] == pos);
                assert(prev.contains(pos));
            }
        }
        if exists|e: int| 0 <= e < n && #[trigger] on_captured_ray(cells, rank, file, player, e, x, y) {
            let e = choose|e: int|
                0 <= e < n && #[trigger] on_captured_ray(cells, rank, file, player, e, x, y);
            if e == d {
                let k = choose|k: int|
                    1 <= k <= c && x == #[trigger] step(rank, dr, k) && y == step(file, df, k);
                assert(ray[k - 1] == pos);
                assert(all[prev.len() + k - 1] == pos);
            } else {
                assert(prev.contains(pos));
                let j = choose|j: int| 0 <= j < prev.len() && prev[j] == pos;
                assert(all[j] == pos);
            }
        }
    }
}

/// A placement on an empty square changes no other square's occupancy (a
/// capture changes a piece's owner, never whether a piece is there) and
/// raises the number of pieces on the board by one.
pub proof fn lemma_placement_adds_one_piece(cells: Seq<Option<u8>>, rank: int, file: int, player: u8)
    requires
        valid_cells(cells),
        placement_error(cells, rank, file) is None,
        player < 2,
    ensures
        valid_cells(placed(cells, rank, file, player)),
        forall|x: int, y: int|
            on_board(x, y) && !(x == rank && y == file) ==> (#[trigger] at(
                placed(cells, rank, file, player),
                x,
                y,
            ) is Some <==> at(cells, x, y) is Some),
        count_of(placed(cells, rank, file, player), 0) + count_of(
            placed(cells, rank, file, player),
            1,
        ) == count_of(cells, 0) + count_of(cells, 1) + 1,
{
    let after = placed(cells, rank, file, player);
    let mid = cells.update(square(rank, file), Some(player));
    assert(after.len() == 64) by {
        lemma_flips_upto_members(cells, rank, file, player, 8, 0, 0);
        assert forall|j: int| 0 <= j < flips(cells, rank, file, player).len() implies flips(
            cells,
            rank,
            file,
            player,
        )[j].0 < 8 && flips(cells, rank, file, player)[j].1 < 8 by {
            assert(flips_upto(cells, rank, file, player, 8)[j].0 < 8);
        }
        lemma_apply_flips_at(mid, flips(cells, rank, file, player), player, 0);
    }
    assert forall|i: int| 0 <= i < 64 implies (#[trigger] after[i] is Some <==> mid[i] is Some) && (
    after[i] is Some ==> after[i]->Some_0 < 2) by {
        let x = i / 8;
        let y = i % 8;
        assert(square(x, y) == i);
        lemma_placed_square_by_square(cells, rank, file, player, x, y);
        if flanked(cells, rank, file, player, x, y) && !(x == rank && y == file) {
            let d = choose|d: int| 0 <= d < 8 && #[trigger] on_captured_ray(cells, rank, file, player, d, x, y);
            let (dr, df) = directions()[d];
            let k = choose|k: int|
                1 <= k <= captured_run(cells, rank, file, dr, df, player) && x == #[trigger] step(rank, dr, k)
                    && y == step(file, df, k);
            lemma_run_on_board(cells, rank, file, dr, df, player, 1, k);
        }
    }
    assert forall|x: int, y: int| on_board(x, y) && !(x == rank && y == file) implies (#[trigger] at(
        after,
        x,
        y,
    ) is Some <==> at(cells, x, y) is Some) by {
        assert(after[square(x, y)] is Some <==> mid[square(x, y)] is Some);
    }
    lemma_count_update(cells, square(rank, file), Some(player), 0);
    lemma_count_update(cells, square(rank, file), Some(player), 1);
    lemma_same_occupancy_same_total(after, mid);
}

/// Two grids with pieces on the same squares hold as many pieces in all.
proof fn lemma_same_occupancy_same_total(a: Seq<Option<u8>>, b: Seq<Option<u8>>)
    requires
        a.len() == b.len(),
        forall|i: int| 0 <= i < a.len() ==> (#[trigger] a[i] is Some <==> b[i] is Some),
        forall|i: int| 0 <= i < a.len() && (#[trigger] a[i]) is Some ==> a[i]->Some_0 < 2,
        forall|i: int| 0 <= i < b.len() && (#[trigger] b[i]) is Some ==> b[i]->Some_0 < 2,
    ensures
        count_of(a, 0) + count_of(a, 1) == count_of(b, 0) + count_of(b, 1),
    decreases a.len(),
{
    if a.len() > 0 {
        let n = a.len() - 1;
        assert(a[n] is Some <==> b[n] is Some);
        lemma_same_occupancy_same_total(a.drop_last(), b.drop_last());
    }
}

/// A grid with no piece has no piece of any player.
pub proof fn lemma_count_empty(cells: Seq<Option<u8>>, player: u8)
    requires
        forall|i: int| 0 <= i < cells.len() ==> (#[trigger] cells[i]) is None,
    ensures
        count_of(cells, player) == 0,
    decreases cells.len(),
{
    if cells.len() > 0 {
        lemma_count_empty(cells.drop_last(), player);
    }
}

/// Changing one square changes a player's tally by what left and what came.
pub proof fn lemma_count_update(cells: Seq<Option<u8>>, i: int, x: Option<u8>, player: u8)
    requires
        0 <= i < cells.len(),
    ensures
        count_of(cells.update(i, x), player) + (if cells[i] == Some(player) {
            1int
        } else {
            0int
        }) == count_of(cells, player) + (if x == Some(player) {
            1int
        } else {
            0int
        }),
    decreases cells.len(),
{
    if i == cells.len() - 1 {
        assert(cells.update(i, x).drop_last() =~= cells.drop_last());
    } else {
        assert(cells.update(i, x).drop_last() =~= cells.drop_last().update(i, x));
        lemma_count_update(cells.drop_last(), i, x, player);
    }
}

/// The `d`-th direction of `directions()`.
fn direction(d: usize) -> (r: (i8, i8))
    requires
        d < 8,
    ensures
        (r.0 as int, r.1 as int) == directions()[d as int],
        is_direction(r.0 as int, r.1 as int),
{
    match d {
        0 => (-1, -1),
        1 => (-1, 0),
        2 => (-1, 1),
        3 => (0, -1),
        4 => (0, 1),
        5 => (1, -1),
        6 => (1, 0),
        _ => (1, 1),
    }
}

/// A grid of 64 empty squares.
fn empty_grid() -> (v: Vec<Option<u8>>)
    ensures
        v@ == empty_cells(),
{
    let mut v: Vec<Option<u8>> = Vec::new();
    let mut i: usize = 0;
    while i < 64
        invariant
            i <= 64,
            v@ == Seq::new(i as nat, |j: int| None::<u8>),
        decreases 64 - i,
    {
        v.push(None);
        i = i + 1;
    }
    proof {
        assert(v@ =~= empty_cells());
    }
    v
}

/// An element-for-element copy of a grid.
fn copy_cells(v: &Vec<Option<u8>>) -> (r: Vec<Option<u8>>)
    ensures
        r@ == v@,
{
    let mut r: Vec<Option<u8>> = Vec::new();
    let mut i: usize = 0;
    while i < v.len()
        invariant
            i <= v.len(),
            r@ == v@.take(i as int),
        decreases v.len() - i,
    {
        proof {
            assert(v@.take(i + 1) =~= v@.take(i as int).push(v@[i as int]));
        }
        r.push(v[i]);
        i = i + 1;
    }
    proof {
        assert(v@.take(v.len() as int) =~= v@);
    }
    r
}

} // verus!
