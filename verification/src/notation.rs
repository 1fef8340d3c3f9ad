//! Writing the piece placement of a position, and the proof that reading it
//! gives the same squares back.

use vstd::prelude::*;
use vstd::string::StringExecFns;
use crate::boardb::{BoardB, Piece};
use crate::fen::{
    is_letter, letters_known, nothing_placed, piece_of, place, place_all, place_char, skip_of,
    FenError, Placement,
};
use crate::pieces::{PieceType, Side};

verus! {

/// The square that comes `j`-th in a placement: the ranks from the eighth
/// down, each from the first file up.
pub open spec fn text_square(j: int) -> int {
    j % 8 + 8 * (7 - j / 8)
}

/// The letter that stands for a piece: lower case for Black, upper case for
/// White.
pub open spec fn letter_of(p: Piece) -> char {
    match p.side {
        Side::Black => match p.ty {
            PieceType::Pawn => 'p',
            PieceType::Rook => 'r',
            PieceType::Knight => 'n',
            PieceType::Bishop => 'b',
            PieceType::Queen => 'q',
            PieceType::King => 'k',
        },
        Side::White => match p.ty {
            PieceType::Pawn => 'P',
            PieceType::Rook => 'R',
            PieceType::Knight => 'N',
            PieceType::Bishop => 'B',
            PieceType::Queen => 'Q',
            PieceType::King => 'K',
        },
    }
}

/// The digit that stands for a run of `k` empty squares, `k` from 1 to 8.
pub open spec fn digit_of(k: int) -> char {
    if k == 1 {
        '1'
    } else if k == 2 {
        '2'
    } else if k == 3 {
        '3'
    } else if k == 4 {
        '4'
    } else if k == 5 {
        '5'
    } else if k == 6 {
        '6'
    } else if k == 7 {
        '7'
    } else {
        '8'
    }
}

/// The digit for a run of `run` empty squares, and nothing for no run.
pub open spec fn run_text(run: int) -> Seq<char> {
    if run > 0 {
        seq![digit_of(run)]
    } else {
        seq![]
    }
}

/// The empty squares that are pending once square `j` has been looked at,
/// `run` having been pending before.
pub open spec fn run_after(sq: Seq<Option<Piece>>, j: int, run: int) -> int {
    if sq[text_square(j)] is Some {
        0
    } else {
        run + 1
    }
}

/// What square `j` adds to the placement, `run` empty squares being pending:
/// a piece's letter behind the pending run, and at the end of a rank the run
/// that is pending then and the `/` before the next rank.
pub open spec fn square_text(sq: Seq<Option<Piece>>, j: int, run: int) -> Seq<char> {
    let head = match sq[text_square(j)] {
        Some(p) => run_text(run) + seq![letter_of(p)],
        None => seq![],
    };
    let tail = if j % 8 == 7 {
        run_text(run_after(sq, j, run)) + (if j < 63 {
            seq!['/']
        } else {
            seq![]
        })
    } else {
        seq![]
    };
    head + tail
}

/// The placement of the squares from the `j`-th on, `run` empty squares being
/// pending.
pub open spec fn emit(sq: Seq<Option<Piece>>, j: int, run: int) -> Seq<char>
    decreases 64 - j,
{
    if j >= 64 {
        seq![]
    } else {
        square_text(sq, j, run) + emit(
            sq,
            j + 1,
            if j % 8 == 7 {
                0
            } else {
                run_after(sq, j, run)
            },
        )
    }
}

/// The placement of 64 squares: the ranks from the eighth down, separated by
/// `/`, each with a letter for a piece and a digit for a run of empty squares.
pub open spec fn placement_of(sq: Seq<Option<Piece>>) -> Seq<char> {
    emit(sq, 0, 0)
}

fn push_letter(out: &mut String, p: Piece)
    ensures
        final(out)@ == old(out)@.push(letter_of(p)),
{
    proof {
        reveal_strlit("p");
        reveal_strlit("r");
        reveal_strlit("n");
        reveal_strlit("b");
        reveal_strlit("q");
        reveal_strlit("k");
        reveal_strlit("P");
        reveal_strlit("R");
        reveal_strlit("N");
        reveal_strlit("B");
        reveal_strlit("Q");
        reveal_strlit("K");
    }
    let text = match p.side {
        Side::Black => match p.ty {
            PieceType::Pawn => "p",
            PieceType::Rook => "r",
            PieceType::Knight => "n",
            PieceType::Bishop => "b",
            PieceType::Queen => "q",
            PieceType::King => "k",
        },
        Side::White => match p.ty {
            PieceType::Pawn => "P",
            PieceType::Rook => "R",
            PieceType::Knight => "N",
            PieceType::Bishop => "B",
            PieceType::Queen => "Q",
            PieceType::King => "K",
        },
    };
    assert(text@ =~= seq![letter_of(p)]);
    out.append(text);
    assert(out@ =~= old(out)@.push(letter_of(p)));
}

fn push_run(out: &mut String, run: u8)
    requires
        run <= 8,
    ensures
        final(out)@ == old(out)@ + run_text(run as int),
{
    if run == 0 {
        assert(out@ =~= old(out)@ + run_text(run as int));
        return ;
    }
    proof {
        reveal_strlit("1");
        reveal_strlit("2");
        reveal_strlit("3");
        reveal_strlit("4");
        reveal_strlit("5");
        reveal_strlit("6");
        reveal_strlit("7");
        reveal_strlit("8");
    }
    let text = match run {
        1 => "1",
        2 => "2",
        3 => "3",
        4 => "4",
        5 => "5",
        6 => "6",
        7 => "7",
        _ => "8",
    };
    assert(text@ =~= run_text(run as int));
    out.append(text);
}

impl BoardB {
    /// The piece placement of the position: the ranks from the eighth down,
    /// separated by `/`, each with a letter for a piece and a digit for a run
    /// of empty squares.
    pub fn placement(&self) -> (s: String)
        ensures
            s@ == placement_of(self@.squares),
    {
        let mut out = String::new();
        let mut run: u8 = 0;
        let mut j: usize = 0;
        let ghost sq = self@.squares;
        assert(out@ + emit(sq, 0, 0) =~= emit(sq, 0, 0));
        while j < 64
            invariant
                j <= 64,
                run <= j % 8,
                sq == self@.squares,
                placement_of(sq) == out@ + emit(sq, j as int, run as int),
            decreases 64 - j,
        {
            let ghost before = out@;
            let ghost run0 = run as int;
            let at = j % 8 + 8 * (7 - j / 8);
            match self.board[at] {
                Some(p) => {
                    push_run(&mut out, run);
                    push_letter(&mut out, p);
                    run = 0;
                },
                None => {
                    run = run + 1;
                },
            }
            if j % 8 == 7 {
                push_run(&mut out, run);
                if j < 63 {
                    proof {
                        reveal_strlit("/");
                    }
                    out.append("/");
                    assert("/"@ =~= seq!['/']);
                }
                run = 0;
            }
            proof {
                assert(out@ =~= before + square_text(sq, j as int, run0));
                assert(before + emit(sq, j as int, run0) =~= out@ + emit(
                    sq,
                    j + 1,
                    run as int,
                ));
            }
            j += 1;
        }
        assert(out@ + emit(sq, 64, run as int) =~= out@);
        out
    }
}

/// Reading one text after another is reading the second from where the first
/// has led.
pub proof fn lemma_place_concat(st: Placement, a: Seq<char>, b: Seq<char>)
    ensures
        place_all(st, a + b) == (match place_all(st, a) {
            Ok(mid) => place_all(mid, b),
            Err(e) => Err(e),
        }),
    decreases a.len(),
{
    if a.len() == 0 {
        assert(a + b =~= b);
    } else {
        assert((a + b)[0] == a[0]);
        assert((a + b).drop_first() =~= a.drop_first() + b);
        match place_char(st, a[0]) {
            Ok(next) => {
                lemma_place_concat(next, a.drop_first(), b);
            },
            Err(e) => {},
        }
    }
}

/// Reading a run's digit moves on by the run.
proof fn lemma_place_run(st: Placement, run: int)
    requires
        0 <= run <= 8,
    ensures
        place_all(st, run_text(run)) == Ok::<Placement, FenError>(
            Placement { col: st.col + run, ..st },
        ),
{
    if run > 0 {
        let s = run_text(run);
        assert(s[0] == digit_of(run));
        assert(skip_of(digit_of(run)) == Some(run));
        assert(s.drop_first() =~= seq![]);
        let next = Placement { col: st.col + run, ..st };
        assert(place_char(st, s[0]) == Ok::<Placement, FenError>(next));
        assert(place_all(next, s.drop_first()) == Ok::<Placement, FenError>(next));
    }
}

/// Reading a piece's letter puts the piece on the square that is due.
proof fn lemma_place_letter(st: Placement, p: Piece)
    requires
        0 <= st.col <= 7,
        0 <= st.row <= 7,
    ensures
        place_all(st, seq![letter_of(p)]) is Ok,
        place_all(st, seq![letter_of(p)])->Ok_0.squares == st.squares.update(
            st.col + 8 * (7 - st.row),
            Some(p),
        ),
        place_all(st, seq![letter_of(p)])->Ok_0.col == st.col + 1,
        place_all(st, seq![letter_of(p)])->Ok_0.row == st.row,
{
    let s = seq![letter_of(p)];
    let c = letter_of(p);
    assert(s[0] == c);
    assert(s.drop_first() =~= seq![]);
    assert(c != '/');
    assert(skip_of(c) is None);
    assert(is_letter(c));
    assert(piece_of(c) == Some(p));
    let next = place_char(st, c)->Ok_0;
    assert(place_all(next, s.drop_first()) == Ok::<Placement, FenError>(next));
}

proof fn lemma_place_slash(st: Placement)
    ensures
        place_all(st, seq!['/']) == Ok::<Placement, FenError>(
            Placement { col: 0, row: st.row + 1, ..st },
        ),
{
    let s = seq!['/'];
    assert(s[0] == '/');
    assert(s.drop_first() =~= seq![]);
    let next = Placement { col: 0, row: st.row + 1, ..st };
    assert(place_all(next, s.drop_first()) == Ok::<Placement, FenError>(next));
}

/// The state of reading when the squares before the `j`-th have been read and
/// `run` empty squares are pending: the pieces before the `j`-th square stand
/// where `sq` has them, the other squares are empty, and the next piece is
/// due where the pending run began.
pub open spec fn read_up_to(st: Placement, sq: Seq<Option<Piece>>, j: int, run: int) -> bool {
    &&& 0 <= j <= 64
    &&& 0 <= run
    &&& st.squares.len() == 64
    &&& j < 64 ==> run <= j % 8 && st.row == j / 8 && st.col == j % 8 - run
    &&& forall|i: int| 0 <= i < j ==> st.squares[#[trigger] text_square(i)] == sq[text_square(i)]
    &&& forall|i: int| j <= i < 64 ==> st.squares[#[trigger] text_square(i)] is None
}

/// Reading what one square adds to the placement.
proof fn lemma_place_square(st: Placement, sq: Seq<Option<Piece>>, j: int, run: int)
    requires
        sq.len() == 64,
        0 <= j < 64,
        read_up_to(st, sq, j, run),
    ensures
        place_all(st, square_text(sq, j, run)) is Ok,
        read_up_to(
            place_all(st, square_text(sq, j, run))->Ok_0,
            sq,
            j + 1,
            if j % 8 == 7 {
                0
            } else {
                run_after(sq, j, run)
            },
        ),
{
    let head = match sq[text_square(j)] {
        Some(p) => run_text(run) + seq![letter_of(p)],
        None => seq![],
    };
    let run1 = run_after(sq, j, run);
    let digits = if j % 8 == 7 {
        run_text(run1)
    } else {
        seq![]
    };
    let slash = if j % 8 == 7 && j < 63 {
        seq!['/']
    } else {
        seq![]
    };
    assert(square_text(sq, j, run) =~= head + (digits + slash));
    lemma_place_concat(st, head, digits + slash);
    // the head
    let mid = match sq[text_square(j)] {
        Some(p) => {
            lemma_place_concat(st, run_text(run), seq![letter_of(p)]);
            lemma_place_run(st, run);
            let due = Placement { col: st.col + run, ..st };
            lemma_place_letter(due, p);
            place_all(due, seq![letter_of(p)])->Ok_0
        },
        None => {
            assert(place_all(st, head) == Ok::<Placement, FenError>(st));
            st
        },
    };
    assert(place_all(st, head) == Ok::<Placement, FenError>(mid));
    assert(mid.row == j / 8);
    assert(mid.col == j % 8 + 1 - run1);
    assert(mid.squares.len() == 64);
    assert forall|i: int| 0 <= i < j + 1 implies mid.squares[#[trigger] text_square(i)]
        == sq[text_square(i)] by {
        if i < j {
            assert(text_square(i) != text_square(j));
        }
    }
    assert forall|i: int| j + 1 <= i < 64 implies mid.squares[#[trigger] text_square(i)]
        is None by {
        assert(text_square(i) != text_square(j));
    }
    // the end of the rank
    lemma_place_concat(mid, digits, slash);
    if j % 8 == 7 {
        lemma_place_run(mid, run1);
        let fin = Placement { col: mid.col + run1, ..mid };
        if j < 63 {
            lemma_place_slash(fin);
        } else {
            assert(place_all(fin, slash) == Ok::<Placement, FenError>(fin));
        }
    } else {
        assert(place_all(mid, digits) == Ok::<Placement, FenError>(mid));
        assert(place_all(mid, slash) == Ok::<Placement, FenError>(mid));
    }
}

/// Reading the placement of the squares from the `j`-th on completes the
/// board.
proof fn lemma_place_emit(st: Placement, sq: Seq<Option<Piece>>, j: int, run: int)
    requires
        sq.len() == 64,
        read_up_to(st, sq, j, run),
    ensures
        place_all(st, emit(sq, j, run)) is Ok,
        place_all(st, emit(sq, j, run))->Ok_0.squares == sq,
    decreases 64 - j,
{
    if j >= 64 {
        assert forall|k: int| 0 <= k < 64 implies st.squares[k] == sq[k] by {
            let i = k % 8 + 8 * (7 - k / 8);
            assert(text_square(i) == k);
        }
        assert(st.squares =~= sq);
    } else {
        let next_run = if j % 8 == 7 {
            0
        } else {
            run_after(sq, j, run)
        };
        lemma_place_square(st, sq, j, run);
        lemma_place_concat(st, square_text(sq, j, run), emit(sq, j + 1, next_run));
        lemma_place_emit(place_all(st, square_text(sq, j, run))->Ok_0, sq, j + 1, next_run);
    }
}

/// Every letter of a placement that was written stands for a piece.
proof fn lemma_emit_letters(sq: Seq<Option<Piece>>, j: int, run: int)
    requires
        0 <= j,
        0 <= run <= 8,
        j < 64 ==> run <= j % 8,
    ensures
        letters_known(emit(sq, j, run)),
    decreases 64 - j,
{
    if j < 64 {
        let next_run: int = if j % 8 == 7 {
            0
        } else {
            run_after(sq, j, run)
        };
        lemma_emit_letters(sq, j + 1, next_run);
        let here = square_text(sq, j, run);
        let rest = emit(sq, j + 1, next_run);
        assert forall|i: int| 0 <= i < here.len() && is_letter(#[trigger] here[i]) implies piece_of(
            here[i],
        ) is Some by {
            match sq[text_square(j)] {
                Some(p) => {
                    assert(piece_of(letter_of(p)) == Some(p));
                },
                None => {},
            }
        }
        assert forall|i: int|
            0 <= i < (here + rest).len() && is_letter(#[trigger] (here + rest)[i]) implies piece_of(
            (here + rest)[i],
        ) is Some by {
            if i < here.len() {
                assert((here + rest)[i] == here[i]);
            } else {
                assert((here + rest)[i] == rest[i - here.len()]);
            }
        }
    }
}

/// Reading the placement of 64 squares gives those squares back: what is
/// written can be read, and holds piece for piece and gap for gap what was
/// written.
pub proof fn lemma_placement_round_trip(sq: Seq<Option<Piece>>)
    requires
        sq.len() == 64,
    ensures
        letters_known(placement_of(sq)),
        place(placement_of(sq)) is Ok,
        place(placement_of(sq))->Ok_0.squares == sq,
{
    lemma_emit_letters(sq, 0, 0);
    lemma_place_emit(nothing_placed(), sq, 0, 0);
}

/// Reading a placement keeps the board at 64 squares.
pub proof fn lemma_place_keeps_size(st: Placement, s: Seq<char>)
    requires
        st.squares.len() == 64,
        0 <= st.col,
        0 <= st.row,
    ensures
        place_all(st, s) is Ok ==> place_all(st, s)->Ok_0.squares.len() == 64,
    decreases s.len(),
{
    if s.len() > 0 {
        match place_char(st, s[0]) {
            Ok(next) => {
                lemma_place_keeps_size(next, s.drop_first());
            },
            Err(e) => {},
        }
    }
}

/// A placement that can be read, once written out again, reads as the same
/// squares.
pub proof fn lemma_notation_round_trip(s: Seq<char>)
    requires
        place(s) is Ok,
    ensures
        place(placement_of(place(s)->Ok_0.squares)) is Ok,
        place(placement_of(place(s)->Ok_0.squares))->Ok_0.squares == place(s)->Ok_0.squares,
{
    lemma_place_keeps_size(nothing_placed(), s);
    lemma_placement_round_trip(place(s)->Ok_0.squares);
}

} // verus!
