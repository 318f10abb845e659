//! Splitting one decoded line into a command name and an optional argument.
use vstd::prelude::*;
use vstd::string::*;

verus! {

/// The characters with the Unicode property White_Space.
pub open spec fn is_white_space(c: char) -> bool {
    let v = c as u32;
    (0x09 <= v <= 0x0d) || v == 0x20 || v == 0x85 || v == 0xa0 || v == 0x1680 || (0x2000 <= v
        <= 0x200a) || v == 0x2028 || v == 0x2029 || v == 0x202f || v == 0x205f || v == 0x3000
}

/// `s` without its leading white space.
pub open spec fn trim_start_spec(s: Seq<char>) -> Seq<char>
    decreases s.len(),
{
    if s.len() > 0 && is_white_space(s[0]) {
        trim_start_spec(s.drop_first())
    } else {
        s
    }
}

/// `s` without its trailing white space.
pub open spec fn trim_end_spec(s: Seq<char>) -> Seq<char>
    decreases s.len(),
{
    if s.len() > 0 && is_white_space(s.last()) {
        trim_end_spec(s.drop_last())
    } else {
        s
    }
}

/// `s` without leading and trailing white space.
pub open spec fn trim_spec(s: Seq<char>) -> Seq<char> {
    trim_end_spec(trim_start_spec(s))
}

/// The index of the first space character of `s` at or after `i`.
pub open spec fn first_space_from(s: Seq<char>, i: int) -> Option<int>
    decreases s.len() - i,
{
    if i < 0 || i >= s.len() {
        None
    } else if s[i] == ' ' {
        Some(i)
    } else {
        first_space_from(s, i + 1)
    }
}

/// The command name and the argument that a line stands for: the trimmed line
/// is cut at its first space; the part before it, trimmed, is the name, and the
/// part from it on, trimmed, is the argument.  A line without a space is a
/// name alone.
pub open spec fn parse_spec(line: Seq<char>) -> (Seq<char>, Option<Seq<char>>) {
    let t = trim_spec(line);
    match first_space_from(t, 0) {
        Some(i) => (trim_spec(t.take(i)), Some(trim_spec(t.skip(i)))),
        None => (t, None),
    }
}

/// The view of an optional text.
pub open spec fn opt_view(o: Option<String>) -> Option<Seq<char>> {
    match o {
        Some(s) => Some(s@),
        None => None,
    }
}

/// Relies on `str::trim`: leading and trailing White_Space characters removed.
#[verifier::external_body]
fn trim_str(s: &str) -> (r: &str)
    ensures
        r@ == trim_spec(s@),
{
    s.trim()
}

/// The index of the first space character of `s`, if any.
fn find_space(s: &str) -> (r: Option<usize>)
    ensures
        match r {
            Some(i) => first_space_from(s@, 0) == Some(i as int) && i < s@.len(),
            None => first_space_from(s@, 0) is None,
        },
{
    let n = s.unicode_len();
    let mut i: usize = 0;
    for c in it: s.chars()
        invariant
            n == s@.len(),
            i == it.index(),
            it.seq() == s@,
            first_space_from(s@, 0) == first_space_from(s@, i as int),
    {
        if c == ' ' {
            return Some(i);
        }
        i = i + 1;
    }
    None
}

/// Splits a line into its command name and its argument, as `parse_spec` says.
pub fn parse_line(line: &str) -> (r: (String, Option<String>))
    ensures
        (r.0@, opt_view(r.1)) == parse_spec(line@),
{
    let s = trim_str(line);
    match find_space(s) {
        Some(i) => {
            let n = s.unicode_len();
            let name = trim_str(s.substring_char(0, i)).to_owned();
            let arg = trim_str(s.substring_char(i, n)).to_owned();
            assert(s@.subrange(0, i as int) =~= s@.take(i as int));
            assert(s@.subrange(i as int, n as int) =~= s@.skip(i as int));
            (name, Some(arg))
        },
        None => (s.to_owned(), None),
    }
}

} // verus!
