//! The lines of the game engine's text, one function a line: who plays, the
//! size of the board and of the piece, and their rows.

use vstd::prelude::*;

verus! {

/// Why a number could not be read.
#[derive(Debug, Clone, Copy, PartialEq, Eq, Structural)]
pub enum NumberError {
    /// There was nothing to read.
    Empty,
    /// A character was no decimal digit.
    InvalidDigit,
    /// The number does not fit its type.
    Overflow,
}

/// Why a line could not be read.
#[derive(Debug, Clone, Copy, PartialEq, Eq, Structural)]
pub enum ParseError {
    /// The player line has no `p`.
    MissingPlayerMark,
    /// What follows the `p` of the player line is no number of a player.
    PlayerNumber(NumberError),
    /// The board's header has fewer than three words.
    AnfieldHeader,
    /// The second word of the board's header is no width.
    AnfieldWidth(NumberError),
    /// The third word of the board's header is no height.
    AnfieldHeight(NumberError),
    /// The piece's header has fewer than three words.
    PieceHeader,
    /// The second word of the piece's header is no width.
    PieceWidth(NumberError),
    /// The third word of the piece's header is no height.
    PieceHeight(NumberError),
    /// A row of the board has no blank after its number.
    GridRowFormat,
    /// A row of the board is shorter than the board is wide.
    GridRowLength { found: usize, expected: usize },
    /// A row of the piece is shorter than the piece is wide.
    PieceRowLength { found: usize, expected: usize },
}

/// The board as the engine sends it.
#[derive(Debug)]
pub struct Anfield {
    pub width: usize,
    pub height: usize,
    pub grid: Vec<Vec<char>>,
}

/// The piece as the engine sends it.
#[derive(Debug)]
pub struct Piece {
    pub width: usize,
    pub height: usize,
    pub shape: Vec<Vec<char>>,
}

/// One turn's input as the engine sends it.
#[derive(Debug)]
pub struct GameInput {
    pub player_number: u8,
    pub anfield: Anfield,
    pub piece: Piece,
}

/// Whether a character is white space.
pub open spec fn is_space(c: char) -> bool {
    let code = c as u32;
    ||| 0x09 <= code <= 0x0D
    ||| code == 0x20
    ||| code == 0x85
    ||| code == 0xA0
    ||| code == 0x1680
    ||| 0x2000 <= code <= 0x200A
    ||| code == 0x2028
    ||| code == 0x2029
    ||| code == 0x202F
    ||| code == 0x205F
    ||| code == 0x3000
}

/// Whether a character is a decimal digit.
pub open spec fn is_digit(c: char) -> bool {
    '0' <= c <= '9'
}

/// The test for white space.
pub open spec fn space_pred() -> spec_fn(char) -> bool {
    |c: char| is_space(c)
}

/// The test for anything but white space.
pub open spec fn ink_pred() -> spec_fn(char) -> bool {
    |c: char| !is_space(c)
}

/// The test for a decimal digit.
pub open spec fn digit_pred() -> spec_fn(char) -> bool {
    |c: char| is_digit(c)
}

/// The test for any character but `mark`.
pub open spec fn other_than(mark: char) -> spec_fn(char) -> bool {
    |c: char| c != mark
}

/// The test for the character `mark`.
pub open spec fn same_as(mark: char) -> spec_fn(char) -> bool {
    |c: char| c == mark
}

/// The length of the longest prefix of `s` whose characters all satisfy
/// `keep`.
pub open spec fn leading(s: Seq<char>, keep: spec_fn(char) -> bool) -> nat
    decreases s.len(),
{
    if s.len() > 0 && keep(s[0]) {
        1 + leading(s.drop_first(), keep)
    } else {
        0
    }
}

/// The length of the longest suffix of `s` whose characters all satisfy
/// `keep`.
pub open spec fn trailing(s: Seq<char>, keep: spec_fn(char) -> bool) -> nat
    decreases s.len(),
{
    if s.len() > 0 && keep(s.last()) {
        1 + trailing(s.drop_last(), keep)
    } else {
        0
    }
}

/// `s` without the white space at its start and at its end.
pub open spec fn trimmed(s: Seq<char>) -> Seq<char> {
    let rest = s.skip(leading(s, space_pred()) as int);
    rest.take(rest.len() - trailing(rest, space_pred()))
}

/// `s` without the characters `mark` at its end.
pub open spec fn without_trailing(s: Seq<char>, mark: char) -> Seq<char> {
    s.take(s.len() - trailing(s, same_as(mark)))
}

/// The words of `s`: its longest runs of characters that are no white space.
pub open spec fn words(s: Seq<char>) -> Seq<Seq<char>>
    decreases s.len(),
{
    if s.len() == 0 {
        Seq::empty()
    } else if is_space(s[0]) {
        words(s.drop_first())
    } else {
        let run = leading(s, ink_pred());
        if 0 < run <= s.len() {
            seq![s.take(run as int)] + words(s.skip(run as int))
        } else {
            Seq::empty()
        }
    }
}

/// The number that the digits `s` continue from `so_far`, read from the left
/// and up to `max`: the first character that is no digit, or the first digit
/// that takes the number past `max`, ends the reading with its error.
pub open spec fn scan_digits(s: Seq<char>, so_far: nat, max: nat) -> Result<nat, NumberError>
    decreases s.len(),
{
    if s.len() == 0 {
        Ok(so_far)
    } else if !is_digit(s[0]) {
        Err(NumberError::InvalidDigit)
    } else {
        let next = so_far * 10 + (s[0] as u32 - 48) as nat;
        if next > max {
            Err(NumberError::Overflow)
        } else {
            scan_digits(s.drop_first(), next, max)
        }
    }
}

/// The number that `s` stands for, up to `max`: decimal digits, with a plus
/// sign before them or without.
pub open spec fn unsigned_of(s: Seq<char>, max: nat) -> Result<nat, NumberError> {
    if s.len() == 0 {
        Err(NumberError::Empty)
    } else if s.len() == 1 && (s[0] == '+' || s[0] == '-') {
        Err(NumberError::InvalidDigit)
    } else if s[0] == '+' {
        scan_digits(s.drop_first(), 0, max)
    } else {
        scan_digits(s, 0, max)
    }
}

/// What the player line says: the number behind the first `p` of the
/// trimmed line, as far as digits follow it.
pub open spec fn player_of(line: Seq<char>) -> Result<u8, ParseError> {
    let text = trimmed(line);
    let mark = leading(text, other_than('p'));
    if mark >= text.len() {
        Err(ParseError::MissingPlayerMark)
    } else {
        let rest = text.skip(mark as int + 1);
        let digits = rest.take(leading(rest, digit_pred()) as int);
        match unsigned_of(digits, 255) {
            Ok(number) => Ok(number as u8),
            Err(error) => Err(ParseError::PlayerNumber(error)),
        }
    }
}

/// The two numbers of a header: its second word, and its third without the
/// colons at its end. `Err(None)` stands for a header of fewer than three
/// words, `Err(Some(..))` for a number that cannot be read, with `true` for
/// the first one.
pub open spec fn dimensions_of(line: Seq<char>) -> Result<(usize, usize), Option<
    (bool, NumberError),
>> {
    let parts = words(trimmed(line));
    if parts.len() < 3 {
        Err(None)
    } else {
        match unsigned_of(parts[1], usize::MAX as nat) {
            Err(error) => Err(Some((true, error))),
            Ok(width) => match unsigned_of(without_trailing(parts[2], ':'), usize::MAX as nat) {
                Err(error) => Err(Some((false, error))),
                Ok(height) => Ok((width as usize, height as usize)),
            },
        }
    }
}

/// What the board's header says.
pub open spec fn anfield_dimensions_of(line: Seq<char>) -> Result<(usize, usize), ParseError> {
    match dimensions_of(line) {
        Ok(size) => Ok(size),
        Err(None) => Err(ParseError::AnfieldHeader),
        Err(Some((first, error))) => if first {
            Err(ParseError::AnfieldWidth(error))
        } else {
            Err(ParseError::AnfieldHeight(error))
        },
    }
}

/// What the piece's header says.
pub open spec fn piece_dimensions_of(line: Seq<char>) -> Result<(usize, usize), ParseError> {
    match dimensions_of(line) {
        Ok(size) => Ok(size),
        Err(None) => Err(ParseError::PieceHeader),
        Err(Some((first, error))) => if first {
            Err(ParseError::PieceWidth(error))
        } else {
            Err(ParseError::PieceHeight(error))
        },
    }
}

/// The first `width` characters of `content`, or as many as there are.
pub open spec fn row_start(content: Seq<char>, width: usize) -> Seq<char> {
    if content.len() <= width {
        content
    } else {
        content.take(width as int)
    }
}

/// What a row of the board says: the first `width` characters behind the
/// first blank of the trimmed line.
pub open spec fn grid_row_of(line: Seq<char>, width: usize) -> Result<Seq<char>, ParseError> {
    let text = trimmed(line);
    let blank = leading(text, other_than(' '));
    if blank >= text.len() {
        Err(ParseError::GridRowFormat)
    } else {
        let row = row_start(text.skip(blank as int + 1), width);
        if row.len() != width {
            Err(ParseError::GridRowLength { found: row.len() as usize, expected: width })
        } else {
            Ok(row)
        }
    }
}

/// What a row of the piece says: the first `width` characters of the
/// trimmed line.
pub open spec fn piece_row_of(line: Seq<char>, width: usize) -> Result<Seq<char>, ParseError> {
    let row = row_start(trimmed(line), width);
    if row.len() != width {
        Err(ParseError::PieceRowLength { found: row.len() as usize, expected: width })
    } else {
        Ok(row)
    }
}

/// Whether `result` is `wanted`, a row compared by its characters.
pub open spec fn row_is(result: Result<Vec<char>, ParseError>, wanted: Result<
    Seq<char>,
    ParseError,
>) -> bool {
    match result {
        Ok(row) => wanted == Ok::<Seq<char>, ParseError>(row@),
        Err(error) => wanted == Err::<Seq<char>, ParseError>(error),
    }
}

proof fn lemma_leading_bound(s: Seq<char>, keep: spec_fn(char) -> bool)
    ensures
        leading(s, keep) <= s.len(),
    decreases s.len(),
{
    if s.len() > 0 && keep(s[0]) {
        lemma_leading_bound(s.drop_first(), keep);
    }
}

proof fn lemma_trailing_bound(s: Seq<char>, keep: spec_fn(char) -> bool)
    ensures
        trailing(s, keep) <= s.len(),
    decreases s.len(),
{
    if s.len() > 0 && keep(s.last()) {
        lemma_trailing_bound(s.drop_last(), keep);
    }
}

fn space(c: char) -> (yes: bool)
    ensures
        yes == is_space(c),
{
    let code: u32 = c as u32;
    (0x09 <= code && code <= 0x0D) || code == 0x20 || code == 0x85 || code == 0xA0 || code
        == 0x1680 || (0x2000 <= code && code <= 0x200A) || code == 0x2028 || code == 0x2029
        || code == 0x202F || code == 0x205F || code == 0x3000
}

fn digit(c: char) -> (yes: bool)
    ensures
        yes == is_digit(c),
{
    '0' <= c && c <= '9'
}

/// The characters of a line.
fn chars_of(line: &str) -> (chars: Vec<char>)
    ensures
        chars@ == line@,
{
    let count = line.unicode_len();
    let mut chars: Vec<char> = Vec::new();
    let mut i: usize = 0;
    while i < count
        invariant
            count == line@.len(),
            i <= count,
            chars@ == line@.take(i as int),
        decreases count - i,
    {
        chars.push(line.get_char(i));
        assert(chars@ =~= line@.take(i + 1));
        i += 1;
    }
    assert(line@.take(count as int) =~= line@);
    chars
}

/// The characters of `text` from `from` up to `to`.
fn part_of(text: &Vec<char>, from: usize, to: usize) -> (part: Vec<char>)
    requires
        from <= to <= text@.len(),
    ensures
        part@ == text@.subrange(from as int, to as int),
{
    let mut part: Vec<char> = Vec::new();
    let mut i: usize = from;
    while i < to
        invariant
            from <= i <= to <= text@.len(),
            part@ == text@.subrange(from as int, i as int),
        decreases to - i,
    {
        part.push(text[i]);
        assert(part@ =~= text@.subrange(from as int, i + 1));
        i += 1;
    }
    part
}

fn trim(text: &Vec<char>) -> (out: Vec<char>)
    ensures
        out@ == trimmed(text@),
{
    let ghost pred = space_pred();
    let mut from: usize = 0;
    assert(text@.skip(0) =~= text@);
    while from < text.len() && space(text[from])
        invariant
            from <= text@.len(),
            pred == space_pred(),
            leading(text@, pred) == from + leading(text@.skip(from as int), pred),
        decreases text@.len() - from,
    {
        assert(text@.skip(from as int).drop_first() =~= text@.skip(from + 1));
        from += 1;
    }
    let ghost rest = text@.skip(from as int);
    let mut to: usize = text.len();
    assert(rest.take(text@.len() - from) =~= rest);
    while to > from && space(text[to - 1])
        invariant
            from <= to <= text@.len(),
            pred == space_pred(),
            rest == text@.skip(from as int),
            trailing(rest, pred) == (text@.len() - to) + trailing(rest.take(to - from), pred),
        decreases to,
    {
        assert(rest.take(to - from).drop_last() =~= rest.take(to - from - 1));
        to -= 1;
    }
    proof {
        assert(rest.take(text@.len() - from) =~= rest) by {
            assert(rest.len() == text@.len() - from);
        }
        assert(rest.take(rest.len() - trailing(rest, pred)) =~= text@.subrange(
            from as int,
            to as int,
        ));
    }
    part_of(text, from, to)
}

/// The index of the first `mark` in `text`, or the length of `text` where
/// there is none.
fn find(text: &Vec<char>, mark: char) -> (at: usize)
    ensures
        at == leading(text@, other_than(mark)),
        at <= text@.len(),
{
    let ghost pred = other_than(mark);
    let mut at: usize = 0;
    assert(text@.skip(0) =~= text@);
    while at < text.len() && text[at] != mark
        invariant
            at <= text@.len(),
            pred == other_than(mark),
            leading(text@, pred) == at + leading(text@.skip(at as int), pred),
        decreases text@.len() - at,
    {
        assert(text@.skip(at as int).drop_first() =~= text@.skip(at + 1));
        at += 1;
    }
    at
}

fn scan(text: &Vec<char>, from: usize, max: u128) -> (result: Result<u128, NumberError>)
    requires
        from <= text@.len(),
        max <= 0xffff_ffff_ffff_ffff,
    ensures
        match result {
            Ok(number) => scan_digits(text@.skip(from as int), 0, max as nat) == Ok::<
                nat,
                NumberError,
            >(number as nat) && number <= max,
            Err(error) => scan_digits(text@.skip(from as int), 0, max as nat) == Err::<
                nat,
                NumberError,
            >(error),
        },
{
    let mut number: u128 = 0;
    let mut i: usize = from;
    while i < text.len()
        invariant
            from <= i <= text@.len(),
            number <= max <= 0xffff_ffff_ffff_ffff,
            scan_digits(text@.skip(from as int), 0, max as nat) == scan_digits(
                text@.skip(i as int),
                number as nat,
                max as nat,
            ),
        decreases text@.len() - i,
    {
        let c = text[i];
        assert(text@.skip(i as int).drop_first() =~= text@.skip(i + 1));
        assert(text@.skip(i as int)[0] == c);
        if !digit(c) {
            return Err(NumberError::InvalidDigit);
        }
        let next: u128 = number * 10 + ((c as u32 - 48) as u128);
        if next > max {
            return Err(NumberError::Overflow);
        }
        number = next;
        i += 1;
    }
    Ok(number)
}

fn parse_unsigned(text: &Vec<char>, max: u128) -> (result: Result<u128, NumberError>)
    requires
        max <= 0xffff_ffff_ffff_ffff,
    ensures
        match result {
            Ok(number) => unsigned_of(text@, max as nat) == Ok::<nat, NumberError>(number as nat)
                && number <= max,
            Err(error) => unsigned_of(text@, max as nat) == Err::<nat, NumberError>(error),
        },
{
    if text.len() == 0 {
        return Err(NumberError::Empty);
    }
    if text.len() == 1 && (text[0] == '+' || text[0] == '-') {
        return Err(NumberError::InvalidDigit);
    }
    assert(text@.skip(0) =~= text@);
    assert(text@.skip(1) =~= text@.drop_first());
    if text[0] == '+' {
        scan(text, 1, max)
    } else {
        scan(text, 0, max)
    }
}

/// The words of a text, as rows of characters.
pub open spec fn rows_of(parts: Seq<Vec<char>>) -> Seq<Seq<char>> {
    Seq::new(parts.len(), |i: int| parts[i]@)
}

fn split_words(text: &Vec<char>) -> (parts: Vec<Vec<char>>)
    ensures
        rows_of(parts@) == words(text@),
{
    let mut parts: Vec<Vec<char>> = Vec::new();
    let mut i: usize = 0;
    assert(text@.skip(0) =~= text@);
    assert(rows_of(parts@) + words(text@) =~= words(text@));
    while i < text.len()
        invariant
            i <= text@.len(),
            words(text@) == rows_of(parts@) + words(text@.skip(i as int)),
        decreases text@.len() - i,
    {
        let ghost rest = text@.skip(i as int);
        if space(text[i]) {
            assert(rest.drop_first() =~= text@.skip(i + 1));
            i += 1;
        } else {
            let ghost pred = ink_pred();
            let mut end: usize = i;
            while end < text.len() && !space(text[end])
                invariant
                    i <= end <= text@.len(),
                    pred == ink_pred(),
                    rest == text@.skip(i as int),
                    leading(rest, pred) == (end - i) + leading(text@.skip(end as int), pred),
                decreases text@.len() - end,
            {
                assert(text@.skip(end as int).drop_first() =~= text@.skip(end + 1));
                end += 1;
            }
            let word = part_of(text, i, end);
            proof {
                assert(leading(rest, pred) == end - i);
                assert(rest.take(end - i) =~= text@.subrange(i as int, end as int));
                assert(rest.skip(end - i) =~= text@.skip(end as int));
                assert(rows_of(parts@.push(word)) =~= rows_of(parts@) + seq![word@]);
            }
            parts.push(word);
            i = end;
        }
    }
    assert(rows_of(parts@) + words(text@.skip(i as int)) =~= rows_of(parts@));
    parts
}

fn strip_trailing(text: &Vec<char>, mark: char) -> (out: Vec<char>)
    ensures
        out@ == without_trailing(text@, mark),
{
    let ghost pred = same_as(mark);
    let mut to: usize = text.len();
    assert(text@.take(text@.len() as int) =~= text@);
    while to > 0 && text[to - 1] == mark
        invariant
            to <= text@.len(),
            pred == same_as(mark),
            trailing(text@, pred) == (text@.len() - to) + trailing(text@.take(to as int), pred),
        decreases to,
    {
        assert(text@.take(to as int).drop_last() =~= text@.take(to - 1));
        to -= 1;
    }
    assert(text@.take(text@.len() - trailing(text@, pred)) =~= text@.subrange(0, to as int));
    part_of(text, 0, to)
}

fn parse_dimensions(line: &str) -> (result: Result<(usize, usize), Option<(bool, NumberError)>>)
    ensures
        result == dimensions_of(line@),
{
    let text = trim(&chars_of(line));
    let parts = split_words(&text);
    if parts.len() < 3 {
        return Err(None);
    }
    assert(rows_of(parts@)[1] == parts@[1]@);
    assert(rows_of(parts@)[2] == parts@[2]@);
    let limit: u128 = usize::MAX as u128;
    match parse_unsigned(&parts[1], limit) {
        Err(error) => Err(Some((true, error))),
        Ok(width) => {
            let tail = strip_trailing(&parts[2], ':');
            match parse_unsigned(&tail, limit) {
                Err(error) => Err(Some((false, error))),
                Ok(height) => Ok((width as usize, height as usize)),
            }
        },
    }
}

/// Reads the number of the player from the first line of a turn.
pub fn parse_player_line(line: &str) -> (result: Result<u8, ParseError>)
    ensures
        result == player_of(line@),
{
    let text = trim(&chars_of(line));
    let mark = find(&text, 'p');
    if mark >= text.len() {
        return Err(ParseError::MissingPlayerMark);
    }
    let rest = part_of(&text, mark + 1, text.len());
    let ghost pred = digit_pred();
    let mut end: usize = 0;
    assert(rest@.skip(0) =~= rest@);
    while end < rest.len() && digit(rest[end])
        invariant
            end <= rest@.len(),
            pred == digit_pred(),
            leading(rest@, pred) == end + leading(rest@.skip(end as int), pred),
        decreases rest@.len() - end,
    {
        assert(rest@.skip(end as int).drop_first() =~= rest@.skip(end + 1));
        end += 1;
    }
    let digits = part_of(&rest, 0, end);
    match parse_unsigned(&digits, 255) {
        Ok(number) => Ok(number as u8),
        Err(error) => Err(ParseError::PlayerNumber(error)),
    }
}

/// Reads width and height from the header of the board.
pub fn parse_anfield_dimensions(line: &str) -> (result: Result<(usize, usize), ParseError>)
    ensures
        result == anfield_dimensions_of(line@),
{
    match parse_dimensions(line) {
        Ok(size) => Ok(size),
        Err(None) => Err(ParseError::AnfieldHeader),
        Err(Some((first, error))) => if first {
            Err(ParseError::AnfieldWidth(error))
        } else {
            Err(ParseError::AnfieldHeight(error))
        },
    }
}

/// Reads width and height from the header of the piece.
pub fn parse_piece_dimensions(line: &str) -> (result: Result<(usize, usize), ParseError>)
    ensures
        result == piece_dimensions_of(line@),
{
    match parse_dimensions(line) {
        Ok(size) => Ok(size),
        Err(None) => Err(ParseError::PieceHeader),
        Err(Some((first, error))) => if first {
            Err(ParseError::PieceWidth(error))
        } else {
            Err(ParseError::PieceHeight(error))
        },
    }
}

/// Reads the cells of a row of the board: what follows the number of the
/// row and the blank behind it.
pub fn parse_grid_row(line: &str, width: usize) -> (result: Result<Vec<char>, ParseError>)
    ensures
        row_is(result, grid_row_of(line@, width)),
{
    let text = trim(&chars_of(line));
    let blank = find(&text, ' ');
    if blank >= text.len() {
        return Err(ParseError::GridRowFormat);
    }
    let available: usize = text.len() - blank - 1;
    let taken: usize = if available <= width {
        available
    } else {
        width
    };
    let row = part_of(&text, blank + 1, blank + 1 + taken);
    assert(row@ =~= row_start(text@.skip(blank + 1), width));
    if taken != width {
        Err(ParseError::GridRowLength { found: taken, expected: width })
    } else {
        Ok(row)
    }
}

/// Reads the cells of a row of the piece.
pub fn parse_piece_row(line: &str, width: usize) -> (result: Result<Vec<char>, ParseError>)
    ensures
        row_is(result, piece_row_of(line@, width)),
{
    let text = trim(&chars_of(line));
    let taken: usize = if text.len() <= width {
        text.len()
    } else {
        width
    };
    let row = part_of(&text, 0, taken);
    assert(row@ =~= row_start(text@, width));
    if taken != width {
        Err(ParseError::PieceRowLength { found: taken, expected: width })
    } else {
        Ok(row)
    }
}

/// The `i`-th of the lines; a line that is not there reads as an empty one,
/// as a reader at the end of its input gives it.
pub open spec fn line_at(lines: Seq<String>, i: int) -> Seq<char> {
    if 0 <= i < lines.len() {
        lines[i]@
    } else {
        Seq::empty()
    }
}

/// What one row says, of the board or of the piece.
pub open spec fn row_of(line: Seq<char>, width: usize, of_board: bool) -> Result<
    Seq<char>,
    ParseError,
> {
    if of_board {
        grid_row_of(line, width)
    } else {
        piece_row_of(line, width)
    }
}

/// What the `count` lines from `from` say as rows: the rows in order, or the
/// error of the first line that cannot be read.
pub open spec fn block_of(
    lines: Seq<String>,
    from: int,
    count: nat,
    width: usize,
    of_board: bool,
) -> Result<Seq<Seq<char>>, ParseError>
    decreases count,
{
    if count == 0 {
        Ok(Seq::empty())
    } else {
        match block_of(lines, from, (count - 1) as nat, width, of_board) {
            Err(error) => Err(error),
            Ok(rows) => match row_of(line_at(lines, from + count - 1), width, of_board) {
                Err(error) => Err(error),
                Ok(row) => Ok(rows.push(row)),
            },
        }
    }
}

/// What the lines from `from` say of the board: the header, a line that is
/// passed over, and as many rows as the header states.
pub open spec fn anfield_of(lines: Seq<String>, from: int) -> Result<
    (usize, usize, Seq<Seq<char>>),
    ParseError,
> {
    match anfield_dimensions_of(line_at(lines, from)) {
        Err(error) => Err(error),
        Ok((width, height)) => match block_of(lines, from + 2, height as nat, width, true) {
            Err(error) => Err(error),
            Ok(rows) => Ok((width, height, rows)),
        },
    }
}

/// What the lines from `from` say of the piece: the header and as many rows
/// as it states.
pub open spec fn piece_of(lines: Seq<String>, from: int) -> Result<
    (usize, usize, Seq<Seq<char>>),
    ParseError,
> {
    match piece_dimensions_of(line_at(lines, from)) {
        Err(error) => Err(error),
        Ok((width, height)) => match block_of(lines, from + 1, height as nat, width, false) {
            Err(error) => Err(error),
            Ok(rows) => Ok((width, height, rows)),
        },
    }
}

/// Whether `result` is the board that `wanted` describes, or its error.
pub open spec fn anfield_is(
    result: Result<Anfield, ParseError>,
    wanted: Result<(usize, usize, Seq<Seq<char>>), ParseError>,
) -> bool {
    match result {
        Ok(anfield) => wanted == Ok::<(usize, usize, Seq<Seq<char>>), ParseError>(
            (anfield.width, anfield.height, rows_of(anfield.grid@)),
        ),
        Err(error) => wanted == Err::<(usize, usize, Seq<Seq<char>>), ParseError>(error),
    }
}

/// Whether `result` is the piece that `wanted` describes, or its error.
pub open spec fn piece_is(
    result: Result<Piece, ParseError>,
    wanted: Result<(usize, usize, Seq<Seq<char>>), ParseError>,
) -> bool {
    match result {
        Ok(piece) => wanted == Ok::<(usize, usize, Seq<Seq<char>>), ParseError>(
            (piece.width, piece.height, rows_of(piece.shape@)),
        ),
        Err(error) => wanted == Err::<(usize, usize, Seq<Seq<char>>), ParseError>(error),
    }
}

/// Whether `result` is the turn that the lines describe: the player of the
/// first line, the board of the lines behind it, and the piece of the lines
/// behind the board; or the error of the first line that cannot be read.
pub open spec fn game_input_is(result: Result<GameInput, ParseError>, lines: Seq<String>) -> bool {
    match player_of(line_at(lines, 0)) {
        Err(error) => result == Err::<GameInput, ParseError>(error),
        Ok(player) => match anfield_of(lines, 1) {
            Err(error) => result == Err::<GameInput, ParseError>(error),
            Ok(board) => match piece_of(lines, 3 + board.1) {
                Err(error) => result == Err::<GameInput, ParseError>(error),
                Ok(piece) => result matches Ok(input) && input.player_number == player
                    && anfield_is(Ok(input.anfield), Ok(board)) && piece_is(
                    Ok(input.piece),
                    Ok(piece),
                ),
            },
        },
    }
}

fn read_block(
    lines: &[String],
    header: usize,
    gap: usize,
    count: usize,
    width: usize,
    of_board: bool,
) -> (result: Result<Vec<Vec<char>>, ParseError>)
    requires
        gap <= 2,
    ensures
        match result {
            Ok(rows) => block_of(lines@, header + gap, count as nat, width, of_board) == Ok::<
                Seq<Seq<char>>,
                ParseError,
            >(rows_of(rows@)),
            Err(error) => block_of(lines@, header + gap, count as nat, width, of_board) == Err::<
                Seq<Seq<char>>,
                ParseError,
            >(error),
        },
{
    let ghost from = header + gap;
    let mut rows: Vec<Vec<char>> = Vec::new();
    let mut i: usize = 0;
    assert(rows_of(rows@) =~= Seq::<Seq<char>>::empty());
    while i < count
        invariant
            i <= count,
            gap <= 2,
            from == header + gap,
            block_of(lines@, from, i as nat, width, of_board) == Ok::<Seq<Seq<char>>, ParseError>(
                rows_of(rows@),
            ),
        ensures
            i == count,
        decreases count - i,
    {
        let there = header < lines.len() && gap < lines.len() - header && i < lines.len() - header
            - gap;
        let line: &str = if there {
            lines[header + gap + i].as_str()
        } else {
            ""
        };
        proof {
            if !there {
                reveal_strlit("");
                assert(line@ =~= Seq::<char>::empty());
            }
            assert(line@ == line_at(lines@, from + i));
        }
        let row = if of_board {
            parse_grid_row(line, width)
        } else {
            parse_piece_row(line, width)
        };
        match row {
            Err(error) => {
                proof {
                    lemma_block_fails(lines@, from, (i + 1) as nat, count as nat, width, of_board);
                }
                return Err(error);
            },
            Ok(cells) => {
                assert(rows_of(rows@.push(cells)) =~= rows_of(rows@).push(cells@));
                rows.push(cells);
            },
        }
        i += 1;
    }
    Ok(rows)
}

proof fn lemma_block_fails(
    lines: Seq<String>,
    from: int,
    failed: nat,
    count: nat,
    width: usize,
    of_board: bool,
)
    requires
        failed <= count,
        block_of(lines, from, failed, width, of_board) is Err,
    ensures
        block_of(lines, from, count, width, of_board) == block_of(
            lines,
            from,
            failed,
            width,
            of_board,
        ),
    decreases count,
{
    if failed < count {
        lemma_block_fails(lines, from, failed, (count - 1) as nat, width, of_board);
    }
}

/// Rows of the board that were all read were all there: a row that is missing
/// reads as an empty line, which is no row of the board.
proof fn lemma_block_needs_lines(lines: Seq<String>, from: int, count: nat, width: usize)
    requires
        from >= 0,
        count > 0,
        block_of(lines, from, count, width, true) is Ok,
    ensures
        from + count <= lines.len(),
{
    let last = line_at(lines, from + count - 1);
    assert(row_of(last, width, true) is Ok);
    if from + count > lines.len() {
        assert(last =~= Seq::<char>::empty());
        assert(leading(last, space_pred()) == 0);
        assert(last.skip(0) =~= last);
        assert(trailing(last, space_pred()) == 0);
        assert(trimmed(last) =~= Seq::<char>::empty());
        assert(leading(trimmed(last), other_than(' ')) == 0);
    }
}

fn text_at(lines: &[String], i: usize) -> (line: &str)
    ensures
        line@ == line_at(lines@, i as int),
{
    if i < lines.len() {
        lines[i].as_str()
    } else {
        proof {
            reveal_strlit("");
        }
        let line = "";
        assert(line@ =~= Seq::<char>::empty());
        line
    }
}

fn parse_anfield_from(lines: &[String], from: usize) -> (result: Result<Anfield, ParseError>)
    ensures
        anfield_is(result, anfield_of(lines@, from as int)),
{
    match parse_anfield_dimensions(text_at(lines, from)) {
        Err(error) => Err(error),
        Ok((width, height)) => match read_block(lines, from, 2, height, width, true) {
            Err(error) => Err(error),
            Ok(grid) => Ok(Anfield { width, height, grid }),
        },
    }
}

fn parse_piece_from(lines: &[String], from: usize) -> (result: Result<Piece, ParseError>)
    ensures
        piece_is(result, piece_of(lines@, from as int)),
{
    match parse_piece_dimensions(text_at(lines, from)) {
        Err(error) => Err(error),
        Ok((width, height)) => match read_block(lines, from, 1, height, width, false) {
            Err(error) => Err(error),
            Ok(shape) => Ok(Piece { width, height, shape }),
        },
    }
}

/// Reads the board from its lines: the header, the line of column numbers,
/// which is passed over, and the rows. Lines that are missing read as
/// empty ones.
pub fn parse_anfield(lines: &[String]) -> (result: Result<Anfield, ParseError>)
    ensures
        anfield_is(result, anfield_of(lines@, 0)),
{
    parse_anfield_from(lines, 0)
}

/// Reads the piece from its lines: the header and the rows. Lines that are
/// missing read as empty ones.
pub fn parse_piece(lines: &[String]) -> (result: Result<Piece, ParseError>)
    ensures
        piece_is(result, piece_of(lines@, 0)),
{
    parse_piece_from(lines, 0)
}

/// Reads one turn from its lines: the player line, the lines of the board
/// and the lines of the piece. Lines that are missing read as empty ones.
pub fn parse_game_input(lines: &[String]) -> (result: Result<GameInput, ParseError>)
    ensures
        game_input_is(result, lines@),
{
    let player_number = match parse_player_line(text_at(lines, 0)) {
        Err(error) => {
            return Err(error);
        },
        Ok(number) => number,
    };
    let anfield = match parse_anfield_from(lines, 1) {
        Err(error) => {
            return Err(error);
        },
        Ok(anfield) => anfield,
    };
    let total: usize = lines.len();
    proof {
        if anfield.height > 0 {
            lemma_block_needs_lines(lines@, 3, anfield.height as nat, anfield.width);
        }
    }
    assert(anfield.height == 0 || 3 + anfield.height <= total);
    let behind: usize = 3 + anfield.height;
    let piece = match parse_piece_from(lines, behind) {
        Err(error) => {
            return Err(error);
        },
        Ok(piece) => piece,
    };
    Ok(GameInput { player_number, anfield, piece })
}

} // verus!
