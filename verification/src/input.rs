//! Parsing a strike coordinate out of the characters the player typed.
//!
//! A coordinate names a row by a letter A through J (either case) and a
//! column by a number 1 through 10; every other character is ignored. A
//! second letter, a second number, or a leading zero is rejected, as is
//! input with no letter or no number.

use vstd::prelude::*;

use crate::ship::Point;

verus! {

/// Why no strike coordinate could be read from the input.
#[derive(PartialEq, Eq, Structural, Debug, Clone, Copy)]
pub enum TargetParseError {
    MultipleLetterCoordinates,
    MultipleNumericCoordinates,
    NoLetterCoordinates,
    NoNumericCoordinates,
}

/// The character names a row: a letter A through J, in either case.
pub open spec fn is_row_letter(c: char) -> bool {
    ||| 'A' as u32 <= c as u32 <= 'J' as u32
    ||| 'a' as u32 <= c as u32 <= 'j' as u32
}

/// The row a letter names, counted from row A as zero.
pub open spec fn row_of_letter(c: char) -> int {
    if c as u32 <= 'J' as u32 {
        c as u32 - 'A' as u32
    } else {
        c as u32 - 'a' as u32
    }
}

/// The character is a decimal digit.
pub open spec fn is_digit_char(c: char) -> bool {
    '0' as u32 <= c as u32 <= '9' as u32
}

/// The value of a decimal digit.
pub open spec fn digit_val(c: char) -> int {
    c as u32 - '0' as u32
}

/// Scans the input from position `i` with the row and column read so far,
/// and yields what was read, or the first error met. A letter after a
/// letter is an error; a digit after a number only extends 1 to 10; a
/// leading zero is an error; any other character is skipped.
pub open spec fn scan_coords(
    s: Seq<char>,
    i: int,
    row: Option<int>,
    num: Option<int>,
) -> Result<(Option<int>, Option<int>), TargetParseError>
    decreases s.len() - i,
{
    if i < 0 || i >= s.len() {
        Ok((row, num))
    } else {
        let c = s[i];
        if is_row_letter(c) {
            match row {
                Some(_) => Err(TargetParseError::MultipleLetterCoordinates),
                None => scan_coords(s, i + 1, Some(row_of_letter(c)), num),
            }
        } else if is_digit_char(c) {
            match num {
                Some(n) => if n == 1 && digit_val(c) == 0 {
                    scan_coords(s, i + 1, row, Some(10))
                } else {
                    Err(TargetParseError::MultipleNumericCoordinates)
                },
                None => if digit_val(c) != 0 {
                    scan_coords(s, i + 1, row, Some(digit_val(c)))
                } else {
                    Err(TargetParseError::MultipleNumericCoordinates)
                },
            }
        } else {
            scan_coords(s, i + 1, row, num)
        }
    }
}

/// The strike coordinate the input names: the column number less one, then
/// the row the letter names; or the first error the scan meets, a missing
/// letter, or a missing number.
pub open spec fn parse_target_spec(s: Seq<char>) -> Result<(int, int), TargetParseError> {
    match scan_coords(s, 0, None, None) {
        Err(e) => Err(e),
        Ok((row_opt, num_opt)) => match (row_opt, num_opt) {
            (Option::None, _) => Err(TargetParseError::NoLetterCoordinates),
            (Option::Some(_), Option::None) => Err(TargetParseError::NoNumericCoordinates),
            (Option::Some(r), Option::Some(n)) => Ok((n - 1, r)),
        },
    }
}

/// The row and column an exec scan holds, as the spec scan sees them.
pub open spec fn opt_int(o: Option<u8>) -> Option<int> {
    match o {
        Option::Some(v) => Option::Some(v as int),
        Option::None => Option::None,
    }
}

/// Reads a strike coordinate from the typed characters. The returned point
/// always lies on the grid.
pub fn parse_target(input: &Vec<char>) -> (r: Result<Point, TargetParseError>)
    ensures
        r matches Ok(p) ==> p.0 <= 9 && p.1 <= 9 && parse_target_spec(input@) == Ok::<
            (int, int),
            TargetParseError,
        >((p.0 as int, p.1 as int)),
        r matches Err(e) ==> parse_target_spec(input@) == Err::<(int, int), TargetParseError>(e),
{
    let n = input.len();
    let mut i: usize = 0;
    let mut row: Option<u8> = None;
    let mut num: Option<u8> = None;
    while i < n
        invariant
            i <= n,
            n == input@.len(),
            scan_coords(input@, 0, None, None) == scan_coords(
                input@,
                i as int,
                opt_int(row),
                opt_int(num),
            ),
            row matches Some(v) ==> v <= 9,
            num matches Some(v) ==> 1 <= v <= 10,
        decreases n - i,
    {
        let c = input[i];
        let u = c as u32;
        let ghost step = scan_coords(input@, i as int, opt_int(row), opt_int(num));
        if (u >= 'A' as u32 && u <= 'J' as u32) || (u >= 'a' as u32 && u <= 'j' as u32) {
            proof {
                assert(is_row_letter(c));
            }
            if row.is_some() {
                proof {
                    assert(step == Err::<(Option<int>, Option<int>), TargetParseError>(
                        TargetParseError::MultipleLetterCoordinates,
                    ));
                }
                return Err(TargetParseError::MultipleLetterCoordinates);
            }
            row = Some(
                if u <= 'J' as u32 {
                    (u - 'A' as u32) as u8
                } else {
                    (u - 'a' as u32) as u8
                },
            );
            proof {
                assert(opt_int(row) == Option::Some(row_of_letter(c)));
                assert(step == scan_coords(input@, i as int + 1, opt_int(row), opt_int(num)));
            }
        } else if u >= '0' as u32 && u <= '9' as u32 {
            proof {
                assert(is_digit_char(c));
                assert(!is_row_letter(c));
            }
            match num {
                Some(d) => {
                    if d == 1 && u == '0' as u32 {
                        num = Some(10);
                        proof {
                            assert(opt_int(num) == Option::Some(10int));
                            assert(step == scan_coords(
                                input@,
                                i as int + 1,
                                opt_int(row),
                                opt_int(num),
                            ));
                        }
                    } else {
                        proof {
                            assert(step == Err::<(Option<int>, Option<int>), TargetParseError>(
                                TargetParseError::MultipleNumericCoordinates,
                            ));
                        }
                        return Err(TargetParseError::MultipleNumericCoordinates);
                    }
                },
                None => {
                    if u != '0' as u32 {
                        num = Some((u - '0' as u32) as u8);
                        proof {
                            assert(opt_int(num) == Option::Some(digit_val(c)));
                            assert(step == scan_coords(
                                input@,
                                i as int + 1,
                                opt_int(row),
                                opt_int(num),
                            ));
                        }
                    } else {
                        proof {
                            assert(digit_val(c) == 0);
                            assert(step == Err::<(Option<int>, Option<int>), TargetParseError>(
                                TargetParseError::MultipleNumericCoordinates,
                            ));
                        }
                        return Err(TargetParseError::MultipleNumericCoordinates);
                    }
                },
            }
        } else {
            proof {
                assert(!is_row_letter(c));
                assert(!is_digit_char(c));
                assert(step == scan_coords(input@, i as int + 1, opt_int(row), opt_int(num)));
            }
        }
        i = i + 1;
    }
    match (row, num) {
        (None, _) => Err(TargetParseError::NoLetterCoordinates),
        (Some(_), None) => Err(TargetParseError::NoNumericCoordinates),
        (Some(r_), Some(n_)) => Ok(Point(n_ - 1, r_)),
    }
}

} // verus!
