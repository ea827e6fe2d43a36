use vstd::prelude::*;
use vstd::string::StrSliceExecFns;

verus! {

/// Whether a character is in one of Unicode's numeric general categories,
/// as `char::is_numeric` decides it.
pub uninterp spec fn is_numeric_char(c: char) -> bool;

/// Relies on char::is_numeric: whether the character is numeric under
/// Unicode; the result depends on the character alone.
#[verifier::external_body]
fn char_is_numeric(c: char) -> (r: bool)
    ensures
        r == is_numeric_char(c),
{
    c.is_numeric()
}

/// Whether a character is one of the ten ASCII digits.
pub open spec fn is_digit_char(c: char) -> bool {
    '0' as int <= c as int <= '9' as int
}

/// The position of the first numeric character at or after `from`, if any.
pub open spec fn next_numeric_index(cs: Seq<char>, from: int) -> Option<int>
    decreases cs.len() - from,
{
    if from < 0 || from >= cs.len() {
        None
    } else if is_numeric_char(cs[from]) {
        Some(from)
    } else {
        next_numeric_index(cs, from + 1)
    }
}

/// What parsing a console move yields: the first two numeric characters,
/// each read as a one-digit number. Anything else is rejected: too few
/// numeric characters, or a numeric character that is not an ASCII digit.
pub open spec fn parse_input_spec(cs: Seq<char>) -> Option<(usize, usize)> {
    match next_numeric_index(cs, 0) {
        None => None,
        Some(i) => match next_numeric_index(cs, i + 1) {
            None => None,
            Some(j) => {
                if is_digit_char(cs[i]) && is_digit_char(cs[j]) {
                    Some(
                        (
                            (cs[i] as int - '0' as int) as usize,
                            (cs[j] as int - '0' as int) as usize,
                        ),
                    )
                } else {
                    None
                }
            },
        },
    }
}

/// A scan that found no numeric character so far can start anywhere in the
/// scanned range without changing its outcome.
proof fn lemma_next_numeric_skip(cs: Seq<char>, from: int, i: int)
    requires
        0 <= from <= i <= cs.len(),
        forall|t: int| from <= t < i ==> !is_numeric_char(cs[t]),
    ensures
        next_numeric_index(cs, from) == next_numeric_index(cs, i),
    decreases i - from,
{
    if from < i {
        lemma_next_numeric_skip(cs, from + 1, i);
    }
}

/// Finds the first numeric character at or after `from`, scanning forward.
fn find_numeric(s: &str, from: usize) -> (r: Option<usize>)
    requires
        from <= s@.len(),
    ensures
        s@.len() <= usize::MAX,
        r matches Some(i) ==> from <= i < s@.len() && next_numeric_index(s@, from as int)
            == Some(i as int),
        r is None ==> next_numeric_index(s@, from as int) is None,
{
    let len = s.unicode_len();
    let mut i: usize = from;
    while i < len
        invariant
            from <= i <= len,
            len == s@.len(),
            forall|t: int| from <= t < i ==> !is_numeric_char(s@[t]),
        decreases len - i,
    {
        let c = s.get_char(i);
        if char_is_numeric(c) {
            proof {
                lemma_next_numeric_skip(s@, from as int, i as int);
            }
            return Some(i);
        }
        i = i + 1;
    }
    proof {
        lemma_next_numeric_skip(s@, from as int, len as int);
    }
    None
}

/// Reads a move from one line of console input: the first two numeric
/// characters become the column and the row, each a one-digit number.
/// Returns nothing when fewer than two numeric characters occur or when a
/// numeric character is not an ASCII digit.
pub fn parse_input(s: &str) -> (r: Option<(usize, usize)>)
    ensures
        r == parse_input_spec(s@),
{
    let i = match find_numeric(s, 0) {
        None => {
            return None;
        },
        Some(i) => i,
    };
    let j = match find_numeric(s, i + 1) {
        None => {
            return None;
        },
        Some(j) => j,
    };
    let ci = s.get_char(i) as u32;
    let cj = s.get_char(j) as u32;
    if 48 <= ci && ci <= 57 && 48 <= cj && cj <= 57 {
        Some(((ci - 48) as usize, (cj - 48) as usize))
    } else {
        None
    }
}

} // verus!
