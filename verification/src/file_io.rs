//! The text that trajectories are read from and lanes are written to, and
//! what reading can go wrong with. The library frames the text as bytes; it
//! opens no file, and it leaves the coordinates to the caller.
//!
//! A line of a trajectory file holds the number of the trajectory and then
//! two coordinates for each point, with one blank between the fields. A lane
//! is written as a line with its number and the number of its points, a line
//! with its points, and an empty line.
use vstd::prelude::*;
use vstd::string::StringSliceAdditionalSpecFns;

verus! {

/// Why a file of trajectories was not read.
#[derive(Debug, Clone, Copy, PartialEq, Eq, Structural)]
pub enum FileError {
    /// The file could not be opened.
    FileOpenError,
    /// The number of a trajectory is no number.
    IdError,
    /// A line does not hold two coordinates for each point.
    DimensionMismatchError,
    /// A coordinate or a time is not what its format asks for.
    DimensionPointError,
}

/// The seconds from the start of 1970 to the time that `time` gives as
/// year, month, day, an underscore, hour, minute and second, read as UTC;
/// `None` for a text that is no such time.
pub uninterp spec fn utc_seconds(time: Seq<char>) -> Option<i64>;

/// Reads `time` with chrono's `TimeZone::datetime_from_str`, on `Utc` and in
/// the format `%Y%m%d_%H%M%S`, and takes `DateTime::timestamp` of what it
/// gives. Both depend on the text alone: the result is `utc_seconds` of it,
/// `None` where the first returns an error.
#[verifier::external_body]
#[allow(deprecated)]
fn parse_utc_seconds(time: &str) -> (seconds: Option<i64>)
    ensures
        seconds == utc_seconds(time@),
{
    match chrono::TimeZone::datetime_from_str(&chrono::Utc, time, "%Y%m%d_%H%M%S") {
        Ok(date) => Some(date.timestamp()),
        Err(_) => None,
    }
}

/// What `time_to_second` returns when the text was read as `seconds`.
pub open spec fn second_or_error(seconds: Option<i64>) -> Result<i64, FileError> {
    match seconds {
        Some(second) => Ok(second),
        None => Err(FileError::DimensionPointError),
    }
}

/// The seconds since the start of 1970 of a time written as year, month,
/// day, underscore, hour, minute, second.
pub fn time_to_second(time: &str) -> (second: Result<i64, FileError>)
    ensures
        second == second_or_error(utc_seconds(time@)),
{
    match parse_utc_seconds(time) {
        Some(second) => Ok(second),
        None => Err(FileError::DimensionPointError),
    }
}

/// The value of a decimal digit; `None` for any other byte.
pub open spec fn digit_value(byte: u8) -> Option<nat> {
    if 48 <= byte <= 57 {
        Some((byte - 48) as nat)
    } else {
        None
    }
}

/// The number that the first `upto` bytes of `text` give in decimal digits;
/// `None` when one of them is no digit or the number is more than a `usize`
/// holds.
pub open spec fn digits_value(text: Seq<u8>, upto: int) -> Option<nat>
    decreases upto,
{
    if upto <= 0 {
        Some(0)
    } else {
        match (digits_value(text, upto - 1), digit_value(text[upto - 1])) {
            (Some(front), Some(last)) => if front * 10 + last <= usize::MAX {
                Some(front * 10 + last)
            } else {
                None
            },
            _ => None,
        }
    }
}

/// A number that a `usize` holds, as a `usize`.
pub open spec fn number_of(value: Option<nat>) -> Option<usize> {
    match value {
        Some(number) => Some(number as usize),
        None => None,
    }
}

/// The number that `text` gives: one decimal digit or more, with or without
/// a `+` before them. `None` for any other text and for a number that is
/// more than a `usize` holds.
pub open spec fn decimal_number(text: Seq<u8>) -> Option<usize> {
    let digits = if text.len() > 0 && text[0] == 43 {
        text.skip(1)
    } else {
        text
    };
    if digits.len() == 0 {
        None
    } else {
        number_of(digits_value(digits, digits.len() as int))
    }
}

/// The decimal digits of a number, without a leading zero.
pub open spec fn decimal_digits(number: nat) -> Seq<u8>
    decreases number,
{
    if number < 10 {
        seq![(48 + number) as u8]
    } else {
        decimal_digits(number / 10).push((48 + number % 10) as u8)
    }
}

/// A text whose front gives no number gives none.
pub proof fn lemma_digits_value_none(text: Seq<u8>, front: int, upto: int)
    requires
        0 <= front <= upto,
        digits_value(text, front) is None,
    ensures
        digits_value(text, upto) is None,
    decreases upto - front,
{
    if front < upto {
        lemma_digits_value_none(text, front, upto - 1);
    }
}

/// The number that the front of a text gives depends on that front alone.
pub proof fn lemma_digits_value_front(text: Seq<u8>, other: Seq<u8>, upto: int)
    requires
        0 <= upto <= text.len(),
        upto <= other.len(),
        forall|k: int| 0 <= k < upto ==> text[k] == other[k],
    ensures
        digits_value(text, upto) == digits_value(other, upto),
    decreases upto,
{
    if upto > 0 {
        lemma_digits_value_front(text, other, upto - 1);
    }
}

/// Reading the digits of a number gives the number back.
pub proof fn lemma_decimal_digits(number: nat)
    requires
        number <= usize::MAX,
    ensures
        decimal_digits(number).len() >= 1,
        forall|k: int|
            0 <= k < decimal_digits(number).len() ==> 48 <= #[trigger] decimal_digits(number)[k] <= 57,
        digits_value(decimal_digits(number), decimal_digits(number).len() as int) == Some(number),
        decimal_number(decimal_digits(number)) == Some(number as usize),
    decreases number,
{
    let digits = decimal_digits(number);
    if number >= 10 {
        let front = decimal_digits(number / 10);
        lemma_decimal_digits(number / 10);
        lemma_digits_value_front(digits, front, front.len() as int);
        assert(digits[front.len() as int] == (48 + number % 10) as u8);
        assert(digits_value(digits, digits.len() as int) == Some(number));
        assert(digits[0] == front[0]);
    } else {
        assert(digits_value(digits, 0) == Some(0nat));
        assert(digit_value(digits[0]) == Some(number));
    }
}

/// What `trajectory_id` returns when the text was read as `number`.
pub open spec fn id_or_error(number: Option<usize>) -> Result<usize, FileError> {
    match number {
        Some(id) => Ok(id),
        None => Err(FileError::IdError),
    }
}

/// The number of the trajectory that a line starts with.
pub fn trajectory_id(token: &[u8]) -> (id: Result<usize, FileError>)
    ensures
        id == id_or_error(decimal_number(token@)),
{
    let len = token.len();
    let start: usize = if len > 0 && token[0] == 43 {
        1
    } else {
        0
    };
    let ghost digits = if start == 1 {
        token@.skip(1)
    } else {
        token@
    };
    if start == len {
        return Err(FileError::IdError);
    }
    let mut number: usize = 0;
    let mut at: usize = start;
    while at < len
        invariant
            start <= at <= len,
            len == token@.len(),
            digits.len() == len - start,
            forall|k: int| 0 <= k < digits.len() ==> digits[k] == token@[k + start],
            decimal_number(token@) == number_of(digits_value(digits, digits.len() as int)),
            digits_value(digits, at - start) == Some(number as nat),
        decreases len - at,
    {
        let byte = token[at];
        if byte < 48 || byte > 57 {
            proof {
                lemma_digits_value_none(digits, at - start + 1, digits.len() as int);
            }
            return Err(FileError::IdError);
        }
        let last = (byte - 48) as usize;
        if number > (usize::MAX - last) / 10 {
            proof {
                lemma_digits_value_none(digits, at - start + 1, digits.len() as int);
            }
            return Err(FileError::IdError);
        }
        number = number * 10 + last;
        at += 1;
    }
    Ok(number)
}

/// How many points a line of `field_count` fields holds: the first field is
/// the number of the trajectory, and each point takes two of the others.
pub open spec fn points_in_line(field_count: nat) -> Result<nat, FileError> {
    if field_count == 0 {
        Err(FileError::IdError)
    } else if (field_count - 1) % 2 != 0 {
        Err(FileError::DimensionMismatchError)
    } else {
        Ok(((field_count - 1) / 2) as nat)
    }
}

/// Checks that the fields of a line are a trajectory number and two
/// coordinates for each point, and counts the points.
pub fn point_count(field_count: usize) -> (points: Result<usize, FileError>)
    ensures
        match (points, points_in_line(field_count as nat)) {
            (Ok(count), Ok(expected)) => count == expected,
            (Err(error), Err(expected)) => error == expected,
            _ => false,
        },
{
    if field_count == 0 {
        Err(FileError::IdError)
    } else if (field_count - 1) % 2 != 0 {
        Err(FileError::DimensionMismatchError)
    } else {
        Ok((field_count - 1) / 2)
    }
}

/// The places of the blanks among the first `upto` bytes of a line,
/// ascending.
pub open spec fn blanks(line: Seq<u8>, upto: int) -> Seq<int>
    decreases upto,
{
    if upto <= 0 {
        Seq::empty()
    } else if line[upto - 1] == 32 {
        blanks(line, upto - 1).push(upto - 1)
    } else {
        blanks(line, upto - 1)
    }
}

/// Where the field at `at` starts, given the places of the blanks.
pub open spec fn field_start(cuts: Seq<int>, at: int) -> int {
    if at == 0 {
        0
    } else {
        cuts[at - 1] + 1
    }
}

/// The fields of a line: what stands before the first blank, between two
/// blanks, and behind the last blank, each by the place where it starts and
/// the place behind its end. A line without a blank is one field; two
/// blanks in a row have an empty field between them.
pub open spec fn fields(line: Seq<u8>) -> Seq<(usize, usize)> {
    let cuts = blanks(line, line.len() as int);
    Seq::new(
        cuts.len() + 1,
        |at: int|
            (
                field_start(cuts, at) as usize,
                (if at == cuts.len() {
                    line.len() as int
                } else {
                    cuts[at]
                }) as usize,
            ),
    )
}

/// The blanks lie within the text that was looked at.
pub proof fn lemma_blanks(line: Seq<u8>, upto: int)
    requires
        0 <= upto <= line.len(),
    ensures
        blanks(line, upto).len() <= upto,
        forall|k: int| 0 <= k < blanks(line, upto).len() ==> 0 <= #[trigger] blanks(line, upto)[k] < upto,
    decreases upto,
{
    if upto > 0 {
        lemma_blanks(line, upto - 1);
    }
}

/// Splits a line into its fields.
pub fn split_fields(line: &[u8]) -> (split: Vec<(usize, usize)>)
    ensures
        split@ == fields(line@),
        split.len() >= 1,
        forall|at: int| 0 <= at < split.len() ==> (#[trigger] split@[at]).0 <= split@[at].1 <= line@.len(),
{
    let len = line.len();
    let mut split: Vec<(usize, usize)> = Vec::new();
    let mut start: usize = 0;
    let mut at: usize = 0;
    while at < len
        invariant
            at <= len,
            len == line@.len(),
            split.len() == blanks(line@, at as int).len(),
            start == field_start(blanks(line@, at as int), split.len() as int),
            start <= at,
            forall|k: int|
                0 <= k < split.len() ==> #[trigger] split@[k] == (
                    field_start(blanks(line@, at as int), k) as usize,
                    blanks(line@, at as int)[k] as usize,
                ),
            forall|k: int| 0 <= k < split.len() ==> (#[trigger] split@[k]).0 <= split@[k].1 <= at,
        decreases len - at,
    {
        let ghost cuts = blanks(line@, at as int);
        proof {
            lemma_blanks(line@, at as int);
        }
        if line[at] == 32 {
            split.push((start, at));
            start = at + 1;
        }
        proof {
            let next = blanks(line@, at + 1);
            assert forall|k: int| 0 <= k < split.len() implies #[trigger] split@[k] == (
                field_start(next, k) as usize,
                next[k] as usize,
            ) by {
                if k < cuts.len() {
                    assert(next[k] == cuts[k]);
                    assert(field_start(next, k) == field_start(cuts, k));
                }
            }
        }
        at += 1;
    }
    proof {
        lemma_blanks(line@, len as int);
    }
    split.push((start, len));
    assert(split@ =~= fields(line@));
    split
}

/// What a line of a trajectory file holds: the number of the trajectory
/// and the fields of its coordinates, two for each point, or why the line
/// is not read. The fields are counted before the number is read.
pub open spec fn trajectory_line(line: Seq<u8>) -> Result<(usize, Seq<(usize, usize)>), FileError> {
    let split = fields(line);
    match points_in_line(split.len()) {
        Err(error) => Err(error),
        Ok(_) => match decimal_number(line.subrange(split[0].0 as int, split[0].1 as int)) {
            None => Err(FileError::IdError),
            Some(id) => Ok((id, split.skip(1))),
        },
    }
}

/// Reads a line of a trajectory file up to its coordinates: the number of
/// the trajectory, and where in the line each coordinate stands.
pub fn read_trajectory_line(line: &[u8]) -> (read: Result<(usize, Vec<(usize, usize)>), FileError>)
    ensures
        match (read, trajectory_line(line@)) {
            (Ok((id, coordinates)), Ok((expected_id, expected))) => id == expected_id && coordinates@
                == expected,
            (Err(error), Err(expected)) => error == expected,
            _ => false,
        },
{
    let mut split = split_fields(line);
    match point_count(split.len()) {
        Err(error) => Err(error),
        Ok(_) => {
            let (start, end) = split[0];
            match trajectory_id(&line[start..end]) {
                Err(error) => Err(error),
                Ok(id) => {
                    let ghost all = split@;
                    split.remove(0);
                    assert(split@ =~= all.skip(1));
                    Ok((id, split))
                },
            }
        },
    }
}

/// The number of the trajectory of each of the first `upto` reports: the
/// first report starts trajectory 0, and a report of another vessel than
/// the report before it starts the next trajectory.
pub open spec fn trajectory_numbers(vessels: Seq<Vec<u8>>, upto: int) -> Seq<usize>
    decreases upto,
{
    if upto <= 0 {
        Seq::empty()
    } else if upto == 1 {
        seq![0usize]
    } else {
        let before = trajectory_numbers(vessels, upto - 1);
        if vessels[upto - 1]@ == vessels[upto - 2]@ {
            before.push(before.last())
        } else {
            before.push((before.last() + 1) as usize)
        }
    }
}

/// Whether two texts are the same.
pub fn same_bytes(first: &[u8], second: &[u8]) -> (same: bool)
    ensures
        same == (first@ == second@),
{
    if first.len() != second.len() {
        return false;
    }
    let mut at: usize = 0;
    while at < first.len()
        invariant
            at <= first.len(),
            first.len() == second.len(),
            forall|k: int| 0 <= k < at ==> first@[k] == second@[k],
        decreases first.len() - at,
    {
        if first[at] != second[at] {
            return false;
        }
        at += 1;
    }
    assert(first@ =~= second@);
    true
}

/// Gathers position reports into trajectories: gives the number of the
/// trajectory of each report, from the vessel of each report. The reports
/// of one vessel that follow each other make one trajectory.
pub fn gather_reports(vessels: &Vec<Vec<u8>>) -> (numbers: Vec<usize>)
    ensures
        numbers@ == trajectory_numbers(vessels@, vessels.len() as int),
{
    let mut numbers: Vec<usize> = Vec::new();
    let mut at: usize = 0;
    while at < vessels.len()
        invariant
            at <= vessels.len(),
            numbers.len() == at,
            numbers@ == trajectory_numbers(vessels@, at as int),
            at > 0 ==> numbers@.last() < at,
        decreases vessels.len() - at,
    {
        if at == 0 {
            numbers.push(0);
        } else {
            let last = numbers[at - 1];
            if same_bytes(vessels[at].as_slice(), vessels[at - 1].as_slice()) {
                numbers.push(last);
            } else {
                numbers.push(last + 1);
            }
        }
        at += 1;
    }
    numbers
}

/// The words between the number of a lane and the number of its points.
pub open spec fn lane_words() -> Seq<u8> {
    " cluster\tpoint num: ".spec_bytes()
}

/// The points of the first `upto` of `coordinates` as they are written: the
/// two coordinates of each with a blank between them and a tab behind them.
pub open spec fn points_text(coordinates: Seq<(Vec<u8>, Vec<u8>)>, upto: int) -> Seq<u8>
    decreases upto,
{
    if upto <= 0 {
        Seq::empty()
    } else {
        points_text(coordinates, upto - 1) + coordinates[upto - 1].0@ + seq![32u8]
            + coordinates[upto - 1].1@ + seq![9u8]
    }
}

/// A lane as it is written: a line with its number, the words, and the
/// number of its points; a line with its points; an empty line.
pub open spec fn lane_text(id: usize, coordinates: Seq<(Vec<u8>, Vec<u8>)>) -> Seq<u8> {
    decimal_digits(id as nat) + lane_words() + decimal_digits(coordinates.len()) + seq![10u8]
        + points_text(coordinates, coordinates.len() as int) + seq![10u8, 10u8]
}

/// Appends `more` to `text`.
pub fn push_bytes(text: &mut Vec<u8>, more: &[u8])
    ensures
        final(text)@ == old(text)@ + more@,
{
    let mut at: usize = 0;
    assert(text@ =~= old(text)@ + more@.take(0));
    while at < more.len()
        invariant
            at <= more.len(),
            text@ == old(text)@ + more@.take(at as int),
        decreases more.len() - at,
    {
        text.push(more[at]);
        assert(text@ =~= old(text)@ + more@.take(at + 1));
        at += 1;
    }
    assert(more@.take(at as int) =~= more@);
}

/// Appends the decimal digits of `number` to `text`.
pub fn push_decimal(text: &mut Vec<u8>, number: usize)
    ensures
        final(text)@ == old(text)@ + decimal_digits(number as nat),
    decreases number,
{
    if number >= 10 {
        push_decimal(text, number / 10);
    }
    text.push(48 + (number % 10) as u8);
    assert(text@ =~= old(text)@ + decimal_digits(number as nat));
}

/// Writes a lane with number `id` whose points have the coordinates
/// `coordinates`, each already written out.
pub fn write_lane(id: usize, coordinates: &Vec<(Vec<u8>, Vec<u8>)>) -> (text: Vec<u8>)
    ensures
        text@ == lane_text(id, coordinates@),
{
    let mut text: Vec<u8> = Vec::new();
    push_decimal(&mut text, id);
    push_bytes(&mut text, " cluster\tpoint num: ".as_bytes());
    push_decimal(&mut text, coordinates.len());
    text.push(10);
    let ghost head = text@;
    assert(head =~= decimal_digits(id as nat) + lane_words() + decimal_digits(coordinates@.len())
        + seq![10u8]);
    let mut at: usize = 0;
    assert(text@ =~= head + points_text(coordinates@, 0));
    while at < coordinates.len()
        invariant
            at <= coordinates.len(),
            text@ == head + points_text(coordinates@, at as int),
        decreases coordinates.len() - at,
    {
        push_bytes(&mut text, coordinates[at].0.as_slice());
        text.push(32);
        push_bytes(&mut text, coordinates[at].1.as_slice());
        text.push(9);
        assert(text@ =~= head + points_text(coordinates@, at + 1));
        at += 1;
    }
    text.push(10);
    text.push(10);
    assert(text@ =~= lane_text(id, coordinates@));
    text
}

} // verus!
