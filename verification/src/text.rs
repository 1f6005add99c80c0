//! Helpers on text: whitespace, trimming, searching and comparing.

use vstd::prelude::*;
use vstd::std_specs::iter::IteratorSpec;
use vstd::string::StrSliceExecFns;

verus! {

/// Whether `c` is whitespace: one of the characters that Unicode gives the
/// property `White_Space`.
pub open spec fn is_white_space(c: char) -> bool {
    let v = c as u32;
    ||| 0x09 <= v <= 0x0D
    ||| v == 0x20
    ||| v == 0x85
    ||| v == 0xA0
    ||| v == 0x1680
    ||| 0x2000 <= v <= 0x200A
    ||| v == 0x2028
    ||| v == 0x2029
    ||| v == 0x202F
    ||| v == 0x205F
    ||| v == 0x3000
}

/// How many whitespace characters `s` begins with.
pub open spec fn leading_white(s: Seq<char>) -> nat
    decreases s.len(),
{
    if s.len() > 0 && is_white_space(s[0]) {
        1 + leading_white(s.drop_first())
    } else {
        0
    }
}

/// How many whitespace characters `s` ends with.
pub open spec fn trailing_white(s: Seq<char>) -> nat
    decreases s.len(),
{
    if s.len() > 0 && is_white_space(s.last()) {
        1 + trailing_white(s.drop_last())
    } else {
        0
    }
}

/// `s` without the whitespace at its start and at its end.
pub open spec fn trimmed(s: Seq<char>) -> Seq<char> {
    let rest = s.skip(leading_white(s) as int);
    rest.take(rest.len() - trailing_white(rest))
}

/// Whether `s` holds nothing but whitespace.
pub open spec fn is_blank(s: Seq<char>) -> bool {
    trimmed(s).len() == 0
}

/// Where `c` first stands in `s`; the length of `s` where it does not occur.
pub open spec fn position(s: Seq<char>, c: char) -> int
    decreases s.len(),
{
    if s.len() == 0 || s[0] == c {
        0
    } else {
        1 + position(s.drop_first(), c)
    }
}

/// Whether `s` begins with `prefix`.
pub open spec fn starts_with(s: Seq<char>, prefix: Seq<char>) -> bool {
    prefix.len() <= s.len() && s.take(prefix.len() as int) == prefix
}

/// Whether `pattern` stands in `s` at index `at`.
pub open spec fn occurs_at(s: Seq<char>, pattern: Seq<char>, at: int) -> bool {
    0 <= at && at + pattern.len() <= s.len() && s.subrange(at, at + pattern.len()) == pattern
}

/// Whether `pattern` stands somewhere in `s`.
pub open spec fn has_infix(s: Seq<char>, pattern: Seq<char>) -> bool {
    exists|at: int| occurs_at(s, pattern, at)
}

/// The number of leading whitespace characters is the index of the first
/// character that is none.
pub proof fn lemma_leading_white_is(s: Seq<char>, count: int)
    requires
        0 <= count <= s.len(),
        forall|j: int| 0 <= j < count ==> is_white_space(s[j]),
        count == s.len() || !is_white_space(s[count]),
    ensures
        leading_white(s) == count,
    decreases count,
{
    if count > 0 {
        let rest = s.drop_first();
        assert forall|j: int| 0 <= j < count - 1 implies is_white_space(rest[j]) by {
            assert(rest[j] == s[j + 1]);
        }
        lemma_leading_white_is(rest, count - 1);
    }
}

/// The number of trailing whitespace characters is what follows the last
/// character that is none.
pub proof fn lemma_trailing_white_is(s: Seq<char>, count: int)
    requires
        0 <= count <= s.len(),
        forall|j: int| s.len() - count <= j < s.len() ==> is_white_space(s[j]),
        count == s.len() || !is_white_space(s[s.len() - count - 1]),
    ensures
        trailing_white(s) == count,
    decreases count,
{
    if count > 0 {
        let rest = s.drop_last();
        assert forall|j: int| rest.len() - (count - 1) <= j < rest.len() implies is_white_space(
            rest[j],
        ) by {
            assert(rest[j] == s[j]);
        }
        lemma_trailing_white_is(rest, count - 1);
    }
}

/// `position` gives an index at which `c` stands and before which it does
/// not, or the length of `s` where `c` does not occur.
pub proof fn lemma_position(s: Seq<char>, c: char)
    ensures
        0 <= position(s, c) <= s.len(),
        forall|j: int| 0 <= j < position(s, c) ==> s[j] != c,
        position(s, c) < s.len() ==> s[position(s, c)] == c,
        position(s, c) < s.len() <==> s.contains(c),
    decreases s.len(),
{
    if s.len() == 0 {
    } else if s[0] == c {
    } else {
        let rest = s.drop_first();
        lemma_position(rest, c);
        assert forall|j: int| 0 <= j < position(s, c) implies s[j] != c by {
            if j > 0 {
                assert(s[j] == rest[j - 1]);
            }
        }
        if rest.contains(c) {
            let k = choose|k: int| 0 <= k < rest.len() && rest[k] == c;
            assert(s[k + 1] == c);
        }
        if s.contains(c) {
            let k = choose|k: int| 0 <= k < s.len() && s[k] == c;
            assert(rest[k - 1] == c);
        }
    }
}

/// An index at which `c` stands and before which it does not is `position`.
pub proof fn lemma_position_is(s: Seq<char>, c: char, at: int)
    requires
        0 <= at <= s.len(),
        forall|j: int| 0 <= j < at ==> s[j] != c,
        at == s.len() || s[at] == c,
    ensures
        position(s, c) == at,
{
    lemma_position(s, c);
}

/// Whether `c` is whitespace.
pub fn char_is_white_space(c: char) -> (white: bool)
    ensures
        white == is_white_space(c),
{
    let v = c as u32;
    (0x09 <= v && v <= 0x0D) || v == 0x20 || v == 0x85 || v == 0xA0 || v == 0x1680 || (0x2000 <= v
        && v <= 0x200A) || v == 0x2028 || v == 0x2029 || v == 0x202F || v == 0x205F || v == 0x3000
}

/// The characters of `s`.
pub fn to_chars(s: &str) -> (chars: Vec<char>)
    ensures
        chars@ == s@,
{
    let mut out: Vec<char> = Vec::new();
    let mut it = s.chars();
    let ghost mut consumed: int = 0;
    loop
        invariant
            0 <= consumed <= s@.len(),
            it.obeys_prophetic_iter_laws(),
            it.remaining() == s@.skip(consumed),
            out@ == s@.take(consumed),
        decreases s@.len() - consumed,
    {
        match it.next() {
            None => {
                proof {
                    assert(s@.take(consumed) =~= s@);
                }
                return out;
            },
            Some(c) => {
                proof {
                    assert(s@.skip(consumed)[0] == s@[consumed]);
                    assert(s@.skip(consumed).drop_first() =~= s@.skip(consumed + 1));
                    assert(s@.take(consumed + 1) =~= s@.take(consumed).push(c));
                    consumed = consumed + 1;
                }
                out.push(c);
            },
        }
    }
}

/// The characters of `s` that come before the first `stop`; all of them
/// where there is none.
pub fn chars_until(s: &str, stop: char) -> (head: Vec<char>)
    ensures
        head@ == s@.take(position(s@, stop)),
{
    let mut out: Vec<char> = Vec::new();
    let mut it = s.chars();
    let ghost mut consumed: int = 0;
    loop
        invariant
            0 <= consumed <= s@.len(),
            it.obeys_prophetic_iter_laws(),
            it.remaining() == s@.skip(consumed),
            out@ == s@.take(consumed),
            forall|j: int| 0 <= j < consumed ==> s@[j] != stop,
        decreases s@.len() - consumed,
    {
        match it.next() {
            None => {
                proof {
                    lemma_position_is(s@, stop, consumed);
                }
                return out;
            },
            Some(c) => {
                proof {
                    assert(s@.skip(consumed)[0] == s@[consumed]);
                    assert(s@.skip(consumed).drop_first() =~= s@.skip(consumed + 1));
                    assert(s@.take(consumed + 1) =~= s@.take(consumed).push(c));
                }
                if c == stop {
                    proof {
                        lemma_position_is(s@, stop, consumed);
                    }
                    return out;
                }
                out.push(c);
                proof {
                    consumed = consumed + 1;
                }
            },
        }
    }
}

/// `s` without the whitespace at its start and at its end.
pub fn trim(s: &str) -> (t: &str)
    ensures
        t@ == trimmed(s@),
{
    let total = s.unicode_len();
    let mut it = s.chars();
    let mut i: usize = 0;
    let mut start: usize = 0;
    let mut end: usize = 0;
    let mut seen = false;
    while i < total
        invariant
            i <= total,
            total == s@.len(),
            it.obeys_prophetic_iter_laws(),
            it.remaining() == s@.skip(i as int),
            !seen ==> forall|j: int| 0 <= j < i ==> is_white_space(s@[j]),
            seen ==> start < end <= i,
            seen ==> forall|j: int| 0 <= j < start ==> is_white_space(s@[j]),
            seen ==> !is_white_space(s@[start as int]),
            seen ==> !is_white_space(s@[end - 1]),
            seen ==> forall|j: int| end <= j < i ==> is_white_space(s@[j]),
        decreases total - i,
    {
        let next = it.next();
        proof {
            assert(s@.skip(i as int)[0] == s@[i as int]);
            assert(s@.skip(i as int).drop_first() =~= s@.skip(i + 1));
        }
        let c = next.unwrap();
        if !char_is_white_space(c) {
            if !seen {
                start = i;
                seen = true;
            }
            end = i + 1;
        }
        i = i + 1;
    }
    if !seen {
        proof {
            lemma_leading_white_is(s@, total as int);
            assert(trimmed(s@) =~= Seq::<char>::empty());
        }
        return s.substring_char(0, 0);
    }
    proof {
        lemma_leading_white_is(s@, start as int);
        let rest = s@.skip(start as int);
        assert forall|j: int| rest.len() - (total - end) <= j < rest.len() implies is_white_space(
            rest[j],
        ) by {
            assert(rest[j] == s@[j + start]);
        }
        assert(rest[rest.len() - (total - end) - 1] == s@[end - 1]);
        lemma_trailing_white_is(rest, total - end);
        assert(trimmed(s@) =~= s@.subrange(start as int, end as int));
    }
    s.substring_char(start, end)
}

/// Whether `pattern` stands in `s` at index `at`.
pub fn matches_at(s: &Vec<char>, pattern: &Vec<char>, at: usize) -> (found: bool)
    ensures
        found == occurs_at(s@, pattern@, at as int),
{
    if pattern.len() > s.len() || at > s.len() - pattern.len() {
        return false;
    }
    let mut k: usize = 0;
    while k < pattern.len()
        invariant
            k <= pattern@.len(),
            at + pattern@.len() <= s@.len(),
            s@.len() <= usize::MAX,
            forall|j: int| 0 <= j < k ==> s@[at + j] == pattern@[j],
        decreases pattern@.len() - k,
    {
        if s[at + k] != pattern[k] {
            proof {
                assert(s@.subrange(at as int, at + pattern@.len())[k as int] == s@[at + k]);
            }
            return false;
        }
        k = k + 1;
    }
    proof {
        assert(s@.subrange(at as int, at + pattern@.len()) =~= pattern@);
    }
    true
}

/// Whether `pattern` stands somewhere in `s`.
pub fn contains_text(s: &Vec<char>, pattern: &Vec<char>) -> (found: bool)
    ensures
        found == has_infix(s@, pattern@),
{
    if pattern.len() > s.len() {
        return false;
    }
    let last = s.len() - pattern.len();
    let mut at: usize = 0;
    loop
        invariant
            at <= last,
            last == s@.len() - pattern@.len(),
            forall|j: int| 0 <= j < at ==> !occurs_at(s@, pattern@, j),
        decreases last - at,
    {
        if matches_at(s, pattern, at) {
            return true;
        }
        if at == last {
            return false;
        }
        at = at + 1;
    }
}

/// Whether `a` and `b` hold the same characters.
pub fn same_chars(a: &Vec<char>, b: &Vec<char>) -> (same: bool)
    ensures
        same == (a@ == b@),
{
    if a.len() != b.len() {
        return false;
    }
    let found = matches_at(a, b, 0);
    proof {
        assert(a@.subrange(0, a@.len() as int) =~= a@);
    }
    found
}

/// Whether `a` and `b` are the same text.
pub fn same_text(a: &str, b: &str) -> (same: bool)
    ensures
        same == (a@ == b@),
{
    let left = to_chars(a);
    let right = to_chars(b);
    same_chars(&left, &right)
}

/// Whether `s` begins with `prefix`.
pub fn text_starts_with(s: &str, prefix: &str) -> (found: bool)
    ensures
        found == starts_with(s@, prefix@),
{
    let mut ours = s.chars();
    let mut theirs = prefix.chars();
    let ghost mut consumed: int = 0;
    loop
        invariant
            0 <= consumed <= s@.len(),
            consumed <= prefix@.len(),
            ours.obeys_prophetic_iter_laws(),
            theirs.obeys_prophetic_iter_laws(),
            ours.remaining() == s@.skip(consumed),
            theirs.remaining() == prefix@.skip(consumed),
            s@.take(consumed) == prefix@.take(consumed),
        decreases prefix@.len() - consumed,
    {
        let expected = match theirs.next() {
            None => {
                proof {
                    assert(prefix@.take(consumed) =~= prefix@);
                }
                return true;
            },
            Some(c) => c,
        };
        proof {
            assert(prefix@.skip(consumed)[0] == prefix@[consumed]);
            assert(prefix@.skip(consumed).drop_first() =~= prefix@.skip(consumed + 1));
        }
        match ours.next() {
            None => {
                return false;
            },
            Some(c) => {
                proof {
                    assert(s@.skip(consumed)[0] == s@[consumed]);
                    assert(s@.skip(consumed).drop_first() =~= s@.skip(consumed + 1));
                }
                if c != expected {
                    proof {
                        if starts_with(s@, prefix@) {
                            assert(s@.take(prefix@.len() as int)[consumed] == s@[consumed]);
                        }
                    }
                    return false;
                }
                proof {
                    assert(s@.take(consumed + 1) =~= s@.take(consumed).push(c));
                    assert(prefix@.take(consumed + 1) =~= prefix@.take(consumed).push(expected));
                    consumed = consumed + 1;
                }
            },
        }
    }
}

} // verus!
