//! Reading a player's typed move: a column number or a request to quit.
use vstd::prelude::*;
use crate::board::MoveError;

verus! {

/// What a player asked for.
#[derive(Clone, Copy, Debug, PartialEq, Eq, Structural)]
pub enum Command {
    Quit,
    /// A column in 1..=7.
    Column(u16),
}

/// Unicode's White_Space characters, which `str::trim` removes.
pub open spec fn spec_is_white_space(c: char) -> bool {
    ||| ('\u{9}' <= c && c <= '\u{d}')
    ||| c == ' '
    ||| c == '\u{85}'
    ||| c == '\u{a0}'
    ||| c == '\u{1680}'
    ||| ('\u{2000}' <= c && c <= '\u{200a}')
    ||| c == '\u{2028}'
    ||| c == '\u{2029}'
    ||| c == '\u{202f}'
    ||| c == '\u{205f}'
    ||| c == '\u{3000}'
}

pub open spec fn trim_start(s: Seq<char>) -> Seq<char>
    decreases s.len(),
{
    if s.len() > 0 && spec_is_white_space(s[0]) {
        trim_start(s.drop_first())
    } else {
        s
    }
}

pub open spec fn trim_end(s: Seq<char>) -> Seq<char>
    decreases s.len(),
{
    if s.len() > 0 && spec_is_white_space(s.last()) {
        trim_end(s.drop_last())
    } else {
        s
    }
}

/// `s` without its leading and trailing white space.
pub open spec fn trim(s: Seq<char>) -> Seq<char> {
    trim_end(trim_start(s))
}

pub open spec fn is_digit(c: char) -> bool {
    '0' <= c && c <= '9'
}

/// The decimal value of a string of digits.
pub open spec fn digits_value(s: Seq<char>) -> int
    decreases s.len(),
{
    if s.len() == 0 {
        0
    } else {
        digits_value(s.drop_last()) * 10 + (s.last() as int - '0' as int)
    }
}

/// `t` without a leading `+`, if it has one.
pub open spec fn unsigned_part(t: Seq<char>) -> Seq<char> {
    if t.len() > 0 && t[0] == '+' {
        t.drop_first()
    } else {
        t
    }
}

pub open spec fn all_digits(d: Seq<char>) -> bool {
    forall|i: int| 0 <= i < d.len() ==> is_digit(#[trigger] d[i])
}

/// The number that `t` spells: an optional `+` and one or more digits.
pub open spec fn number_of(t: Seq<char>) -> Option<int> {
    let d = unsigned_part(t);
    if d.len() > 0 && all_digits(d) {
        Some(digits_value(d))
    } else {
        None
    }
}

/// `n`, with every value above 7 taken as 8.
pub open spec fn capped(n: int) -> int {
    if n > 7 {
        8
    } else {
        n
    }
}

/// The meaning of a typed line: `q` or `Q` quits, a number from 1 to 7
/// picks a column, white space around either is ignored, and anything else
/// is invalid.
pub open spec fn command_of(line: Seq<char>) -> Result<Command, MoveError> {
    let t = trim(line);
    if t == seq!['q'] || t == seq!['Q'] {
        Ok(Command::Quit)
    } else {
        match number_of(t) {
            Some(n) => if 1 <= n <= 7 {
                Ok(Command::Column(n as u16))
            } else {
                Err(MoveError::InvalidInput)
            },
            None => Err(MoveError::InvalidInput),
        }
    }
}

pub fn is_white_space(c: char) -> (r: bool)
    ensures
        r == spec_is_white_space(c),
{
    ('\u{9}' <= c && c <= '\u{d}') || c == ' ' || c == '\u{85}' || c == '\u{a0}' || c
        == '\u{1680}' || ('\u{2000}' <= c && c <= '\u{200a}') || c == '\u{2028}' || c
        == '\u{2029}' || c == '\u{202f}' || c == '\u{205f}' || c == '\u{3000}'
}

fn chars_of(s: &str) -> (r: Vec<char>)
    ensures
        r@ == s@,
{
    let mut v: Vec<char> = Vec::new();
    for c in it: s.chars()
        invariant
            v@ == it.seq().subrange(0, it.index() as int),
    {
        v.push(c);
    }
    proof {
        vstd::string::axiom_spec_iter(s);
    }
    assert(v@ =~= s@);
    v
}

proof fn lemma_digits_value_nonneg(s: Seq<char>)
    requires
        forall|i: int| 0 <= i < s.len() ==> is_digit(#[trigger] s[i]),
    ensures
        digits_value(s) >= 0,
    decreases s.len(),
{
    if s.len() > 0 {
        lemma_digits_value_nonneg(s.drop_last());
    }
}

/// The bounds of `chars` once the white space around it is removed.
fn trimmed_range(chars: &Vec<char>) -> (r: (usize, usize))
    ensures
        r.0 <= r.1 <= chars@.len(),
        chars@.subrange(r.0 as int, r.1 as int) == trim(chars@),
{
    let n = chars.len();
    let ghost s = chars@;
    let mut start: usize = 0;
    assert(s.subrange(0, n as int) =~= s);
    while start < n && is_white_space(chars[start])
        invariant
            start <= n == s.len(),
            s == chars@,
            trim_start(s.subrange(start as int, n as int)) == trim_start(s),
        decreases n - start,
    {
        assert(s.subrange(start as int, n as int).drop_first() =~= s.subrange(
            start + 1,
            n as int,
        ));
        start = start + 1;
    }
    let mut end: usize = n;
    assert(trim_start(s) == s.subrange(start as int, n as int));
    while end > start && is_white_space(chars[end - 1])
        invariant
            start <= end <= n == s.len(),
            s == chars@,
            trim_end(s.subrange(start as int, end as int)) == trim(s),
        decreases end - start,
    {
        assert(s.subrange(start as int, end as int).drop_last() =~= s.subrange(
            start as int,
            end - 1,
        ));
        end = end - 1;
    }
    (start, end)
}

/// The number spelled by `chars[start..end]`, capped at 8.
fn number_in(chars: &Vec<char>, start: usize, end: usize) -> (r: Option<u32>)
    requires
        start <= end <= chars@.len(),
    ensures
        r is None <==> number_of(chars@.subrange(start as int, end as int)) is None,
        r matches Some(v) ==> v as int == capped(
            number_of(chars@.subrange(start as int, end as int))->0,
        ),
{
    let ghost s = chars@;
    let ghost t = s.subrange(start as int, end as int);
    let mut first: usize = start;
    if first < end && chars[first] == '+' {
        first = first + 1;
    }
    let ghost d = s.subrange(first as int, end as int);
    assert(d =~= unsigned_part(t));
    if first == end {
        return None;
    }
    let mut value: u32 = 0;
    let mut i: usize = first;
    while i < end
        invariant
            first <= i <= end <= s.len(),
            s == chars@,
            d == s.subrange(first as int, end as int),
            t == s.subrange(start as int, end as int),
            d == unsigned_part(t),
            forall|j: int| first <= j < i ==> is_digit(#[trigger] s[j]),
            value as int == capped(digits_value(s.subrange(first as int, i as int))),
        decreases end - i,
    {
        let c = chars[i];
        if !('0' <= c && c <= '9') {
            assert(d[i - first] == s[i as int]);
            assert(!all_digits(d));
            return None;
        }
        let ghost prefix = s.subrange(first as int, i + 1);
        assert(prefix.drop_last() =~= s.subrange(first as int, i as int));
        proof {
            assert forall|j: int| 0 <= j < prefix.drop_last().len() implies is_digit(
                #[trigger] prefix.drop_last()[j],
            ) by {
                assert(prefix.drop_last()[j] == s[first + j]);
            }
            lemma_digits_value_nonneg(prefix.drop_last());
        }
        let digit = (c as u32) - ('0' as u32);
        if value <= 7 {
            value = value * 10 + digit;
        }
        if value > 7 {
            value = 8;
        }
        i = i + 1;
    }
    assert forall|j: int| 0 <= j < d.len() implies is_digit(#[trigger] d[j]) by {
        assert(d[j] == s[first + j]);
    }
    Some(value)
}

/// Reads a typed line as a command.
pub fn parse_command(line: &str) -> (r: Result<Command, MoveError>)
    ensures
        r == command_of(line@),
{
    let chars = chars_of(line);
    let (start, end) = trimmed_range(&chars);
    let ghost t = chars@.subrange(start as int, end as int);
    if end - start == 1 && (chars[start] == 'q' || chars[start] == 'Q') {
        assert(t =~= seq!['q'] || t =~= seq!['Q']);
        return Ok(Command::Quit);
    }
    assert(t != seq!['q'] && t != seq!['Q']) by {
        if t == seq!['q'] || t == seq!['Q'] {
            assert(t[0] == chars@[start as int]);
        }
    }
    match number_in(&chars, start, end) {
        Some(value) => {
            if 1 <= value && value <= 7 {
                Ok(Command::Column(value as u16))
            } else {
                Err(MoveError::InvalidInput)
            }
        },
        None => Err(MoveError::InvalidInput),
    }
}

} // verus!
