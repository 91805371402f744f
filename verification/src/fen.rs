//! The interchange codec: six space-separated fields describing a full
//! position. Each field has a spec-level grammar here, stated over character
//! sequences, and an executable parser proved to return exactly what the
//! grammar allows. Decoding is all-or-nothing: any field failure aborts the
//! whole decode.

use vstd::prelude::*;

use crate::bitboard::{lemma_with_bit, lemma_zero_has_no_bit};
use crate::board::{lemma_place_preserves, no_overlap, place, sq_empty_all, BoardSide, BoardView,
    CastlingRights};
use crate::errors::InvalidFenString;
use crate::piece::{pm_index, Color, Piece};
use crate::piece_map::PieceMap;
use crate::position::{Axis, Position};

verus! {

/// The index of the first occurrence of `c` in `s`, or `s.len()` when `c`
/// does not occur.
pub open spec fn find_char(s: Seq<char>, c: char) -> int
    decreases s.len(),
{
    if s.len() == 0 {
        0
    } else if s[0] == c {
        0
    } else {
        1 + find_char(s.subrange(1, s.len() as int), c)
    }
}

/// `find_char` points at the first occurrence: everything before it differs
/// from `c`, and it lands on `c` unless `c` is absent.
pub proof fn lemma_find_char(s: Seq<char>, c: char)
    ensures
        0 <= find_char(s, c) <= s.len(),
        find_char(s, c) < s.len() ==> s[find_char(s, c)] == c,
        forall|j: int| 0 <= j < find_char(s, c) ==> s[j] != c,
    decreases s.len(),
{
    if s.len() == 0 {
    } else if s[0] == c {
    } else {
        let tail = s.subrange(1, s.len() as int);
        lemma_find_char(tail, c);
        assert forall|j: int| 0 <= j < find_char(s, c) implies s[j] != c by {
            if j > 0 {
                assert(tail[j - 1] != c);
            }
        }
    }
}

/// A scan that saw no `c` before position `k`, and either the end or a `c`
/// at `k`, has found the first occurrence.
pub proof fn lemma_find_char_is(s: Seq<char>, c: char, k: int)
    requires
        0 <= k <= s.len(),
        forall|j: int| 0 <= j < k ==> s[j] != c,
        k < s.len() ==> s[k] == c,
    ensures
        find_char(s, c) == k,
    decreases s.len(),
{
    if s.len() == 0 {
    } else if s[0] == c {
    } else {
        let tail = s.subrange(1, s.len() as int);
        assert forall|j: int| 0 <= j < k - 1 implies tail[j] != c by {
            assert(s[j + 1] != c);
        }
        lemma_find_char_is(tail, c, k - 1);
    }
}

/// `s` cut at every occurrence of `sep`: the list of fields, in order,
/// without the separators. A sequence without `sep` is one field; each
/// separator ends a field, so a trailing separator yields an empty last
/// field.
pub open spec fn spec_split(s: Seq<char>, sep: char) -> Seq<Seq<char>>
    decreases s.len(),
{
    let i = find_char(s, sep);
    if 0 <= i < s.len() {
        seq![s.subrange(0, i)] + spec_split(s.subrange(i + 1, s.len() as int), sep)
    } else {
        seq![s]
    }
}

/// Splits a string at every occurrence of `sep`, exactly as `spec_split`
/// cuts its view.
pub fn split_str<'a>(s: &'a str, sep: char) -> (r: Vec<&'a str>)
    ensures
        r@.map_values(|t: &str| t@) == spec_split(s@, sep),
{
    let len = s.unicode_len();
    let mut parts: Vec<&'a str> = Vec::new();
    let mut start: usize = 0;
    let mut i: usize = 0;
    proof {
        assert(s@.subrange(0, len as int) =~= s@);
        assert(parts@.map_values(|t: &str| t@) =~= Seq::<Seq<char>>::empty());
        assert(parts@.map_values(|t: &str| t@) + spec_split(s@, sep) =~= spec_split(s@, sep));
    }
    while i < len
        invariant
            start <= i <= len,
            len == s@.len(),
            forall|j: int| start <= j < i ==> s@[j] != sep,
            spec_split(s@, sep) == parts@.map_values(|t: &str| t@) + spec_split(
                s@.subrange(start as int, len as int),
                sep,
            ),
        decreases len - i,
    {
        let c = s.get_char(i);
        if c == sep {
            let field = s.substring_char(start, i);
            proof {
                let rest = s@.subrange(start as int, len as int);
                assert forall|j: int| 0 <= j < i - start implies rest[j] != sep by {
                    assert(s@[start + j] != sep);
                }
                assert(rest[i - start] == sep);
                lemma_find_char_is(rest, sep, i - start);
                assert(rest.subrange(0, i - start) =~= field@);
                assert(rest.subrange(i - start + 1, rest.len() as int) =~= s@.subrange(
                    i as int + 1,
                    len as int,
                ));
                assert(spec_split(rest, sep) == seq![field@] + spec_split(
                    s@.subrange(i as int + 1, len as int),
                    sep,
                ));
                assert((parts@.push(field)).map_values(|t: &str| t@) =~= parts@.map_values(
                    |t: &str| t@,
                ).push(field@));
                assert(parts@.map_values(|t: &str| t@) + seq![field@] + spec_split(
                    s@.subrange(i as int + 1, len as int),
                    sep,
                ) =~= parts@.map_values(|t: &str| t@).push(field@) + spec_split(
                    s@.subrange(i as int + 1, len as int),
                    sep,
                ));
            }
            parts.push(field);
            start = i + 1;
        }
        i += 1;
    }
    let field = s.substring_char(start, len);
    proof {
        let rest = s@.subrange(start as int, len as int);
        assert forall|j: int| 0 <= j < rest.len() implies rest[j] != sep by {
            assert(s@[start + j] != sep);
        }
        lemma_find_char_is(rest, sep, rest.len() as int);
        assert(spec_split(rest, sep) == seq![rest]);
        assert(rest =~= field@);
        assert((parts@.push(field)).map_values(|t: &str| t@) =~= parts@.map_values(
            |t: &str| t@,
        ).push(field@));
        assert(parts@.map_values(|t: &str| t@) + seq![field@] =~= parts@.map_values(
            |t: &str| t@,
        ).push(field@));
    }
    parts.push(field);
    parts
}

/// Whether `c` is a decimal digit.
pub open spec fn is_digit_char(c: char) -> bool {
    48 <= (c as int) && (c as int) <= 57
}

/// The value of a decimal digit.
pub open spec fn digit_val(c: char) -> int {
    (c as int) - 48
}

/// Whether every character of `s` is a decimal digit.
pub open spec fn all_digits(s: Seq<char>) -> bool {
    forall|i: int| 0 <= i < s.len() ==> is_digit_char(#[trigger] s[i])
}

/// The number written by a sequence of decimal digits, most significant
/// first.
pub open spec fn digits_value(s: Seq<char>) -> int
    decreases s.len(),
{
    if s.len() == 0 {
        0
    } else {
        digits_value(s.drop_last()) * 10 + digit_val(s.last())
    }
}

/// A digit string's value is nonnegative and no smaller than the value of
/// any of its prefixes.
pub proof fn lemma_digits_value_prefix(s: Seq<char>, i: int)
    requires
        all_digits(s),
        0 <= i <= s.len(),
    ensures
        0 <= digits_value(s.subrange(0, i)) <= digits_value(s),
    decreases s.len() - i,
{
    if i == s.len() {
        assert(s.subrange(0, i) =~= s);
        lemma_digits_value_nonneg(s);
    } else {
        lemma_digits_value_prefix(s, i + 1);
        let longer = s.subrange(0, i + 1);
        assert(longer.drop_last() =~= s.subrange(0, i));
        lemma_digits_value_nonneg(s.subrange(0, i));
        assert(is_digit_char(s[i]));
        assert(longer.last() == s[i]);
        assert(digits_value(longer) == digits_value(s.subrange(0, i)) * 10 + digit_val(s[i]));
    }
}

/// A digit string's value is nonnegative.
pub proof fn lemma_digits_value_nonneg(s: Seq<char>)
    requires
        all_digits(s),
    ensures
        digits_value(s) >= 0,
    decreases s.len(),
{
    if s.len() == 0 {
    } else {
        assert(all_digits(s.drop_last()));
        lemma_digits_value_nonneg(s.drop_last());
        assert(is_digit_char(s.last()));
    }
}

/// The clock-field grammar: one or more decimal digits whose value fits in
/// 32 bits; nothing else.
pub open spec fn spec_parse_u32(s: Seq<char>) -> Option<u32> {
    if s.len() > 0 && all_digits(s) && digits_value(s) < 0x1_0000_0000 {
        Some(digits_value(s) as u32)
    } else {
        None
    }
}

/// Decodes a clock field: a base-10 unsigned integer. Non-numeric content,
/// an empty field and a value beyond 32 bits all fail.
pub fn parse_move_clock_fen_field(string: &str) -> (r: Result<u32, InvalidFenString>)
    ensures
        match r {
            Ok(v) => spec_parse_u32(string@) == Some(v),
            Err(e) => spec_parse_u32(string@) is None,
        },
{
    let len = string.unicode_len();
    if len == 0 {
        return Err(InvalidFenString);
    }
    let mut acc: u64 = 0;
    let mut i: usize = 0;
    while i < len
        invariant
            0 <= i <= len,
            len == string@.len(),
            all_digits(string@.subrange(0, i as int)),
            acc == digits_value(string@.subrange(0, i as int)),
            acc <= 0xffff_ffff,
        decreases len - i,
    {
        let c = string.get_char(i);
        let code = c as u32;
        if code < 48 || code > 57 {
            return Err(InvalidFenString);
        }
        let d = (code - 48) as u64;
        let next = acc * 10 + d;
        proof {
            let prefix = string@.subrange(0, i as int);
            let longer = string@.subrange(0, i as int + 1);
            assert(longer.drop_last() =~= prefix);
            assert(longer.last() == string@[i as int]);
            assert(all_digits(longer));
            assert(digits_value(longer) == digits_value(prefix) * 10 + digit_val(string@[i as int]));
        }
        if next > 0xffff_ffff {
            proof {
                if all_digits(string@) {
                    lemma_digits_value_prefix(string@, i as int + 1);
                }
            }
            return Err(InvalidFenString);
        }
        acc = next;
        i += 1;
    }
    proof {
        assert(string@.subrange(0, len as int) =~= string@);
    }
    Ok(acc as u32)
}

/// The side-to-move grammar: the first character decides, `'w'` for White
/// and `'b'` for Black; an empty field or any other first character fails.
pub open spec fn spec_parse_turn(s: Seq<char>) -> Option<Color> {
    if s.len() == 0 {
        None
    } else if s[0] == 'w' {
        Some(Color::White)
    } else if s[0] == 'b' {
        Some(Color::Black)
    } else {
        None
    }
}

/// Decodes the side-to-move field.
pub fn parse_current_turn_fen_field(string: &str) -> (r: Result<Color, InvalidFenString>)
    ensures
        match r {
            Ok(v) => spec_parse_turn(string@) == Some(v),
            Err(e) => spec_parse_turn(string@) is None,
        },
{
    if string.unicode_len() == 0 {
        return Err(InvalidFenString);
    }
    let c = string.get_char(0);
    if c == 'w' {
        Ok(Color::White)
    } else if c == 'b' {
        Ok(Color::Black)
    } else {
        Err(InvalidFenString)
    }
}

/// The castling-field grammar, scanned from position `i` with the rights
/// granted so far: `'-'` stops the field, keeping what was collected; a
/// letter grants one permission, its case naming the color — lowercase
/// grants to White, uppercase to Black — and its letter the wing; anything
/// else fails.
pub open spec fn spec_parse_castling_from(s: Seq<char>, i: int, acc: CastlingRights) -> Option<
    CastlingRights,
>
    decreases s.len() - i,
{
    if i < 0 || i >= s.len() {
        Some(acc)
    } else {
        let c = s[i];
        if c == '-' {
            Some(acc)
        } else if c == 'k' {
            spec_parse_castling_from(s, i + 1, acc.spec_with(Color::White, BoardSide::KingSide, true))
        } else if c == 'q' {
            spec_parse_castling_from(
                s,
                i + 1,
                acc.spec_with(Color::White, BoardSide::QueenSide, true),
            )
        } else if c == 'K' {
            spec_parse_castling_from(s, i + 1, acc.spec_with(Color::Black, BoardSide::KingSide, true))
        } else if c == 'Q' {
            spec_parse_castling_from(
                s,
                i + 1,
                acc.spec_with(Color::Black, BoardSide::QueenSide, true),
            )
        } else {
            None
        }
    }
}

/// The castling-field grammar, from a clean slate.
pub open spec fn spec_parse_castling(s: Seq<char>) -> Option<CastlingRights> {
    spec_parse_castling_from(s, 0, CastlingRights::spec_none())
}

/// Decodes the castling field. The rights start cleared and the field only
/// adds, so the decoded rights are exactly the granted ones. The case
/// convention is the codebase's own: lowercase grants to White, uppercase to
/// Black.
pub fn parse_castling_rights_fen_field(string: &str) -> (r: Result<CastlingRights, InvalidFenString>)
    ensures
        match r {
            Ok(v) => spec_parse_castling(string@) == Some(v),
            Err(e) => spec_parse_castling(string@) is None,
        },
{
    let len = string.unicode_len();
    let mut out = CastlingRights::none();
    let mut i: usize = 0;
    while i < len
        invariant
            0 <= i <= len,
            len == string@.len(),
            spec_parse_castling(string@) == spec_parse_castling_from(string@, i as int, out),
        decreases len - i,
    {
        let character = string.get_char(i);
        if character == '-' {
            return Ok(out);
        } else if character == 'k' {
            out.set(Color::White, BoardSide::KingSide);
        } else if character == 'q' {
            out.set(Color::White, BoardSide::QueenSide);
        } else if character == 'K' {
            out.set(Color::Black, BoardSide::KingSide);
        } else if character == 'Q' {
            out.set(Color::Black, BoardSide::QueenSide);
        } else {
            return Err(InvalidFenString);
        }
        i += 1;
    }
    Ok(out)
}

/// The en-passant-field grammar: an empty field fails; a field opening with
/// `'-'` means no target; otherwise exactly two characters naming a square,
/// rank letter then file digit. A third character fails.
pub open spec fn spec_parse_en_passant(s: Seq<char>) -> Option<Option<Position>> {
    if s.len() == 0 {
        None
    } else if s[0] == '-' {
        Some(None)
    } else if s.len() != 2 {
        None
    } else {
        match Position::spec_from_chars(s[0], s[1]) {
            Ok(p) => Some(Some(p)),
            Err(e) => None,
        }
    }
}

/// Decodes the en-passant field.
pub fn parse_en_passant_fen_field(string: &str) -> (r: Result<
    Option<Position>,
    InvalidFenString,
>)
    ensures
        match r {
            Ok(v) => spec_parse_en_passant(string@) == Some(v),
            Err(e) => spec_parse_en_passant(string@) is None,
        },
{
    let len = string.unicode_len();
    if len == 0 {
        return Err(InvalidFenString);
    }
    let first_character = string.get_char(0);
    if first_character == '-' {
        return Ok(None);
    }
    if len != 2 {
        return Err(InvalidFenString);
    }
    let second_character = string.get_char(1);
    match Position::from_chars(first_character, second_character) {
        Ok(position) => Ok(Some(position)),
        Err(e) => Err(InvalidFenString),
    }
}

/// The twelve all-empty bitboards the placement field starts from: the
/// empty board is the baseline, and letters only add.
pub open spec fn spec_zero_boards() -> Seq<u64> {
    Seq::new(12, |i: int| 0u64)
}

/// One rank line of the placement field, scanned from position `i` with the
/// file cursor at `f`: a digit advances the cursor by its value without
/// writing; a recognized letter puts its piece at (rank, cursor) — provided
/// the cursor is still on the rank — and advances by one; an unrecognized
/// character fails. Characters walking past the rank's end are consumed
/// without writing.
pub open spec fn spec_parse_rank_line(
    line: Seq<char>,
    i: int,
    f: int,
    boards: Seq<u64>,
    rank: int,
) -> Option<Seq<u64>>
    decreases line.len() - i,
{
    if i < 0 || i >= line.len() {
        Some(boards)
    } else {
        let c = line[i];
        if is_digit_char(c) {
            spec_parse_rank_line(line, i + 1, f + digit_val(c), boards, rank)
        } else {
            match Piece::spec_from_char(c) {
                Err(e) => None,
                Ok(piece) => {
                    let placed = if 0 <= f < 8 {
                        place(boards, pm_index(piece.ptype.idx(), piece.color.idx()), rank * 8 + f)
                    } else {
                        boards
                    };
                    spec_parse_rank_line(line, i + 1, f + 1, placed, rank)
                },
            }
        }
    }
}

/// The slash-separated rank lines, most significant rank first: line 0
/// fills rank 7 and so on down. Lines beyond the eighth are ignored, as are
/// missing lines (their ranks stay empty).
pub open spec fn spec_parse_lines(lines: Seq<Seq<char>>, li: int, boards: Seq<u64>) -> Option<
    Seq<u64>,
>
    decreases lines.len() - li,
{
    if li < 0 || li >= lines.len() || li >= 8 {
        Some(boards)
    } else {
        match spec_parse_rank_line(lines[li], 0, 0, boards, 7 - li) {
            None => None,
            Some(b) => spec_parse_lines(lines, li + 1, b),
        }
    }
}

/// The placement-field grammar: the twelve bitboards written by the rank
/// lines, from an empty board.
pub open spec fn spec_parse_placement(s: Seq<char>) -> Option<Seq<u64>> {
    spec_parse_lines(spec_split(s, '/'), 0, spec_zero_boards())
}

/// Decodes one rank line into the given piece map, as `spec_parse_rank_line`
/// reads it. On failure the map is discarded by the caller, so nothing is
/// promised of it.
pub fn parse_line_in_fen_data_field(line: &str, rank: Axis, board: &mut PieceMap) -> (r: Result<
    (),
    InvalidFenString,
>)
    ensures
        match spec_parse_rank_line(line@, 0, 0, old(board)@, rank.idx()) {
            Some(b) => r is Ok && final(board)@ == b,
            None => r is Err,
        },
{
    let len = line.unicode_len();
    let mut f: usize = 0;
    let ghost mut fspec: int = 0;
    let mut i: usize = 0;
    while i < len
        invariant
            0 <= i <= len,
            len == line@.len(),
            0 <= fspec,
            fspec < 8 ==> f == fspec,
            fspec >= 8 ==> f == 8,
            spec_parse_rank_line(line@, 0, 0, old(board)@, rank.idx()) == spec_parse_rank_line(
                line@,
                i as int,
                fspec,
                board@,
                rank.idx(),
            ),
        decreases len - i,
    {
        let c = line.get_char(i);
        let code = c as u32;
        if code >= 48 && code <= 57 {
            let d = (code - 48) as usize;
            f = f + d;
            if f > 8 {
                f = 8;
            }
            proof {
                fspec = fspec + digit_val(c);
            }
        } else {
            match Piece::from_char(c) {
                Err(e) => {
                    return Err(InvalidFenString);
                },
                Ok(piece) => {
                    if f < 8 {
                        let ghost prev = board@;
                        let file = Axis::from_index(f).unwrap();
                        let position = Position::new(rank, file);
                        let mut bb = board.get(&piece);
                        bb.set(position);
                        board.set(&piece, bb);
                        proof {
                            assert(board@ =~= place(
                                prev,
                                pm_index(piece.ptype.idx(), piece.color.idx()),
                                rank.idx() * 8 + fspec,
                            ));
                        }
                    }
                    f = f + 1;
                    if f > 8 {
                        f = 8;
                    }
                    proof {
                        fspec = fspec + 1;
                    }
                },
            }
        }
        i += 1;
    }
    Ok(())
}

/// Decodes the whole placement field into a fresh piece map, as
/// `spec_parse_placement` reads it.
pub fn parse_data_fen_field(string: &str) -> (r: Result<PieceMap, InvalidFenString>)
    ensures
        match r {
            Ok(pm) => spec_parse_placement(string@) == Some(pm@),
            Err(e) => spec_parse_placement(string@) is None,
        },
{
    let lines = split_str(string, '/');
    let ghost linesv = lines@.map_values(|t: &str| t@);
    let mut board = PieceMap::new();
    proof {
        assert(board@ =~= spec_zero_boards());
    }
    let count = if lines.len() < 8 {
        lines.len()
    } else {
        8
    };
    let mut li: usize = 0;
    while li < count
        invariant
            0 <= li <= count,
            count <= lines.len(),
            count <= 8,
            lines.len() <= 8 ==> count == lines.len(),
            lines.len() > 8 ==> count == 8,
            linesv == lines@.map_values(|t: &str| t@),
            spec_parse_placement(string@) == spec_parse_lines(linesv, li as int, board@),
        decreases count - li,
    {
        let rank = Axis::from_index(7 - li).unwrap();
        let line = lines[li];
        proof {
            assert(line@ == linesv[li as int]);
        }
        match parse_line_in_fen_data_field(line, rank, &mut board) {
            Err(e) => {
                return Err(InvalidFenString);
            },
            Ok(u) => {
            },
        }
        li += 1;
    }
    Ok(board)
}

/// All squares below `bound` are empty on every bitboard.
pub open spec fn empty_below(boards: Seq<u64>, bound: int) -> bool {
    forall|sq: int| 0 <= sq < bound ==> sq_empty_all(boards, sq)
}

/// A rank line writes each square of its rank at most once — letters only
/// ever place on the still-untouched part of the rank — so it keeps the
/// bitboards free of overlaps, and it never touches a rank below its own.
pub proof fn lemma_parse_rank_line_wf(line: Seq<char>, i: int, f: int, boards: Seq<u64>, rank: int)
    requires
        boards.len() == 12,
        no_overlap(boards),
        0 <= rank < 8,
        0 <= f,
        spec_parse_rank_line(line, i, f, boards, rank) is Some,
        empty_below(boards, 8 * rank),
        forall|sq: int| 8 * rank + f <= sq < 8 * rank + 8 ==> sq_empty_all(boards, sq),
    ensures
        spec_parse_rank_line(line, i, f, boards, rank)->Some_0.len() == 12,
        no_overlap(spec_parse_rank_line(line, i, f, boards, rank)->Some_0),
        empty_below(spec_parse_rank_line(line, i, f, boards, rank)->Some_0, 8 * rank),
    decreases line.len() - i,
{
    if i < 0 || i >= line.len() {
    } else {
        let c = line[i];
        if is_digit_char(c) {
            lemma_parse_rank_line_wf(line, i + 1, f + digit_val(c), boards, rank);
        } else {
            match Piece::spec_from_char(c) {
                Err(e) => {
                },
                Ok(piece) => {
                    let pi = pm_index(piece.ptype.idx(), piece.color.idx());
                    if 0 <= f < 8 {
                        let sq0 = rank * 8 + f;
                        let placed = place(boards, pi, sq0);
                        assert(sq_empty_all(boards, sq0));
                        lemma_place_preserves(boards, pi, sq0);
                        assert forall|sq: int|
                            8 * rank + (f + 1) <= sq < 8 * rank + 8 implies sq_empty_all(
                            placed,
                            sq,
                        ) by {
                            assert(sq_empty_all(boards, sq));
                            assert forall|p: int| 0 <= p < 12 implies !crate::bitboard::bit_at(
                                #[trigger] placed[p],
                                sq,
                            ) by {
                                if p == pi {
                                    lemma_with_bit(boards[pi], sq0, sq);
                                }
                            }
                        }
                        assert forall|sq: int| 0 <= sq < 8 * rank implies sq_empty_all(
                            placed,
                            sq,
                        ) by {
                            assert(sq_empty_all(boards, sq));
                            assert forall|p: int| 0 <= p < 12 implies !crate::bitboard::bit_at(
                                #[trigger] placed[p],
                                sq,
                            ) by {
                                if p == pi {
                                    lemma_with_bit(boards[pi], sq0, sq);
                                }
                            }
                        }
                        lemma_parse_rank_line_wf(line, i + 1, f + 1, placed, rank);
                    } else {
                        lemma_parse_rank_line_wf(line, i + 1, f + 1, boards, rank);
                    }
                },
            }
        }
    }
}

/// The rank lines fill distinct ranks from the top down, so the decoded
/// placement keeps the bitboards free of overlaps.
pub proof fn lemma_parse_lines_wf(lines: Seq<Seq<char>>, li: int, boards: Seq<u64>)
    requires
        boards.len() == 12,
        no_overlap(boards),
        0 <= li,
        li < 8 ==> empty_below(boards, 8 * (8 - li)),
        spec_parse_lines(lines, li, boards) is Some,
    ensures
        spec_parse_lines(lines, li, boards)->Some_0.len() == 12,
        no_overlap(spec_parse_lines(lines, li, boards)->Some_0),
    decreases lines.len() - li,
{
    if li >= lines.len() || li >= 8 {
    } else {
        let rank = 7 - li;
        let stepped = spec_parse_rank_line(lines[li], 0, 0, boards, rank);
        assert forall|sq: int| 8 * rank + 0 <= sq < 8 * rank + 8 implies sq_empty_all(
            boards,
            sq,
        ) by {
            assert(sq < 8 * (8 - li));
        }
        lemma_parse_rank_line_wf(lines[li], 0, 0, boards, rank);
        lemma_parse_lines_wf(lines, li + 1, stepped->Some_0);
    }
}

/// Law: the placement field writes each square at most once, so a decoded
/// position never holds one square in two of the twelve bitboards.
pub proof fn lemma_placement_no_overlap(s: Seq<char>)
    requires
        spec_parse_placement(s) is Some,
    ensures
        spec_parse_placement(s)->Some_0.len() == 12,
        no_overlap(spec_parse_placement(s)->Some_0),
{
    let zero = spec_zero_boards();
    assert forall|sq: int, p1: int, p2: int|
        0 <= sq < 64 && 0 <= p1 < 12 && 0 <= p2 < 12 && p1 != p2 && #[trigger] crate::bitboard::bit_at(
            zero[p1],
            sq,
        ) implies !(#[trigger] crate::bitboard::bit_at(zero[p2], sq)) by {
        lemma_zero_has_no_bit(sq);
    }
    assert forall|sq: int| 0 <= sq < 64 implies sq_empty_all(zero, sq) by {
        lemma_zero_has_no_bit(sq);
    }
    lemma_parse_lines_wf(spec_split(s, '/'), 0, zero);
}

/// The whole six-field grammar: the position a well-formed interchange
/// string describes, or `None` when any field — or the field count itself —
/// is malformed. Decoding is all-or-nothing.
pub open spec fn spec_from_fen(s: Seq<char>) -> Option<BoardView> {
    let fields = spec_split(s, ' ');
    if fields.len() != 6 {
        None
    } else {
        match (spec_parse_placement(fields[0]),
            spec_parse_turn(fields[1]),
            spec_parse_castling(fields[2]),
            spec_parse_en_passant(fields[3]),
            spec_parse_u32(fields[4]),
            spec_parse_u32(fields[5]),
        ) {
            (Some(boards), Some(turn), Some(rights), Some(ep), Some(half), Some(full)) => Some(
                BoardView {
                    boards,
                    current_turn: turn,
                    castling_rights: rights,
                    en_passant_target: ep,
                    half_move_clock: half,
                    full_move_clock: full,
                },
            ),
            _ => None,
        }
    }
}

/// Law: every position the codec accepts is well formed — twelve bitboards
/// with no square held by two of them.
pub proof fn lemma_from_fen_wf(s: Seq<char>)
    requires
        spec_from_fen(s) is Some,
    ensures
        spec_from_fen(s)->Some_0.wf(),
{
    let fields = spec_split(s, ' ');
    lemma_placement_no_overlap(fields[0]);
}

} // verus!
