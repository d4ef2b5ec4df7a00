//! Text operations on names, stated over sequences of characters.

use vstd::prelude::*;

verus! {

/// The character that marks a wildcard name.
pub const WILDCARD: char = '*';

/// The character that separates the names of one record.
pub const SEPARATOR: char = '\n';

/// The characters that count as white space: those with the Unicode property
/// `White_Space`.
pub open spec fn is_whitespace(c: char) -> bool {
    let u = c as u32;
    ||| 0x09 <= u <= 0x0D
    ||| u == 0x20
    ||| u == 0x85
    ||| u == 0xA0
    ||| u == 0x1680
    ||| 0x2000 <= u <= 0x200A
    ||| u == 0x2028
    ||| u == 0x2029
    ||| u == 0x202F
    ||| u == 0x205F
    ||| u == 0x3000
}

/// `s` without its leading white space.
pub open spec fn trim_start(s: Seq<char>) -> Seq<char>
    decreases s.len(),
{
    if s.len() > 0 && is_whitespace(s.first()) {
        trim_start(s.drop_first())
    } else {
        s
    }
}

/// `s` without its trailing white space.
pub open spec fn trim_end(s: Seq<char>) -> Seq<char>
    decreases s.len(),
{
    if s.len() > 0 && is_whitespace(s.last()) {
        trim_end(s.drop_last())
    } else {
        s
    }
}

/// `s` without the white space around it.
pub open spec fn trimmed(s: Seq<char>) -> Seq<char> {
    trim_end(trim_start(s))
}

/// Number of characters before the first separator of `s`, or the length of
/// `s` where it holds none.
pub open spec fn line_len(s: Seq<char>) -> nat
    decreases s.len(),
{
    if s.len() == 0 || s.first() == SEPARATOR {
        0
    } else {
        1 + line_len(s.drop_first())
    }
}

/// The pieces of `s` between its separators. A text with `n` separators has
/// `n + 1` pieces, some of which may be empty.
pub open spec fn lines(s: Seq<char>) -> Seq<Seq<char>>
    decreases s.len(),
{
    let n = line_len(s) as int;
    if n < s.len() {
        seq![s.take(n)] + lines(s.skip(n + 1))
    } else {
        seq![s]
    }
}

/// Whether `s` holds the wildcard character.
pub open spec fn has_wildcard(s: Seq<char>) -> bool {
    s.contains(WILDCARD)
}

/// The names that one record lists: its pieces, each one trimmed.
pub open spec fn names(record: Seq<char>) -> Seq<Seq<char>> {
    lines(record).map_values(|line: Seq<char>| trimmed(line))
}

/// A text whose first `k` characters hold no separator, and which ends there
/// or has a separator there, has a first piece of `k` characters.
pub proof fn lemma_line_len(s: Seq<char>, k: int)
    requires
        0 <= k <= s.len(),
        forall|j: int| 0 <= j < k ==> s[j] != SEPARATOR,
        k == s.len() || s[k] == SEPARATOR,
    ensures
        line_len(s) == k,
    decreases k,
{
    if k > 0 {
        let rest = s.drop_first();
        assert forall|j: int| 0 <= j < k - 1 implies rest[j] != SEPARATOR by {
            assert(rest[j] == s[j + 1]);
        }
        lemma_line_len(rest, k - 1);
    }
}

pub fn char_is_whitespace(c: char) -> (b: bool)
    ensures
        b == is_whitespace(c),
{
    let u: u32 = c as u32;
    (0x09 <= u && u <= 0x0D) || u == 0x20 || u == 0x85 || u == 0xA0 || u == 0x1680 || (0x2000 <= u
        && u <= 0x200A) || u == 0x2028 || u == 0x2029 || u == 0x202F || u == 0x205F || u == 0x3000
}

/// The characters of `s`, in order.
pub fn chars_of(s: &str) -> (chars: Vec<char>)
    ensures
        chars@ == s@,
{
    let mut chars: Vec<char> = Vec::new();
    for c in it: s.chars()
        invariant
            it.seq() == s@,
            chars@ == s@.take(it.index()),
    {
        chars.push(c);
    }
    chars
}

/// Removes the white space around `s`.
pub fn trim(s: &str) -> (t: String)
    ensures
        t@ == trimmed(s@),
{
    let chars = chars_of(s);
    let n = chars.len();
    let mut lo: usize = 0;
    assert(chars@.skip(0) =~= chars@);
    while lo < n && char_is_whitespace(chars[lo])
        invariant
            lo <= n,
            n == chars.len(),
            trim_start(chars@) == trim_start(chars@.skip(lo as int)),
        decreases n - lo,
    {
        assert(chars@.skip(lo as int).drop_first() =~= chars@.skip(lo + 1));
        lo += 1;
    }
    assert(trim_start(chars@) == chars@.subrange(lo as int, n as int));
    let mut hi: usize = n;
    while hi > lo && char_is_whitespace(chars[hi - 1])
        invariant
            lo <= hi <= n,
            n == chars.len(),
            trimmed(chars@) == trim_end(chars@.subrange(lo as int, hi as int)),
        decreases hi,
    {
        assert(chars@.subrange(lo as int, hi as int).drop_last() =~= chars@.subrange(
            lo as int,
            hi - 1,
        ));
        hi -= 1;
    }
    String::from_str(s.substring_char(lo, hi))
}

/// Cuts `s` at every separator.
pub fn split_lines(s: &str) -> (pieces: Vec<String>)
    ensures
        pieces.deep_view() == lines(s@),
{
    let chars = chars_of(s);
    let n = chars.len();
    let mut pieces: Vec<String> = Vec::new();
    let mut start: usize = 0;
    let mut i: usize = 0;
    assert(pieces.deep_view() + lines(s@.skip(0)) =~= lines(s@)) by {
        assert(s@.skip(0) =~= s@);
    }
    while i < n
        invariant
            start <= i <= n,
            n == chars.len(),
            chars@ == s@,
            forall|k: int| start <= k < i ==> chars@[k] != SEPARATOR,
            lines(s@) == pieces.deep_view() + lines(s@.skip(start as int)),
        decreases n - i,
    {
        if chars[i] == SEPARATOR {
            let piece = String::from_str(s.substring_char(start, i));
            proof {
                let rest = s@.skip(start as int);
                lemma_line_len(rest, i - start);
                assert(rest.take(i - start) =~= s@.subrange(start as int, i as int));
                assert(rest.skip(i - start + 1) =~= s@.skip(i + 1));
                assert(pieces.deep_view().push(piece@) + lines(s@.skip(i + 1))
                    =~= pieces.deep_view() + lines(rest));
            }
            let ghost before = pieces.deep_view();
            pieces.push(piece);
            assert(pieces.deep_view() =~= before.push(piece@));
            start = i + 1;
        }
        i += 1;
    }
    let piece = String::from_str(s.substring_char(start, n));
    proof {
        let rest = s@.skip(start as int);
        lemma_line_len(rest, n - start);
        assert(rest =~= s@.subrange(start as int, n as int));
    }
    let ghost before = pieces.deep_view();
    pieces.push(piece);
    assert(pieces.deep_view() =~= before.push(piece@));
    pieces
}

/// Whether `s` holds the wildcard character.
pub fn contains_wildcard(s: &str) -> (found: bool)
    ensures
        found == has_wildcard(s@),
{
    let chars = chars_of(s);
    let n = chars.len();
    let mut i: usize = 0;
    while i < n
        invariant
            i <= n,
            n == chars.len(),
            chars@ == s@,
            forall|k: int| 0 <= k < i ==> chars@[k] != WILDCARD,
        decreases n - i,
    {
        if chars[i] == WILDCARD {
            assert(s@[i as int] == WILDCARD);
            return true;
        }
        i += 1;
    }
    false
}

/// The names that `record` lists.
pub fn names_in(record: &str) -> (listed: Vec<String>)
    ensures
        listed.deep_view() == names(record@),
{
    let pieces = split_lines(record);
    let mut listed: Vec<String> = Vec::new();
    let n = pieces.len();
    let mut i: usize = 0;
    while i < n
        invariant
            i <= n,
            n == pieces.len(),
            pieces.deep_view() == lines(record@),
            listed.deep_view() == names(record@).take(i as int),
        decreases n - i,
    {
        let name = trim(pieces[i].as_str());
        let ghost before = listed.deep_view();
        assert(pieces.deep_view()[i as int] == pieces[i as int]@);
        listed.push(name);
        assert(listed.deep_view() =~= before.push(name@));
        assert(names(record@).take(i + 1) =~= names(record@).take(i as int).push(name@));
        i += 1;
    }
    assert(names(record@).take(n as int) =~= names(record@));
    listed
}

} // verus!
