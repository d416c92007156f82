//! Work on the characters of a line.

use vstd::prelude::*;
use vstd::std_specs::iter::IteratorSpec;
use vstd::string::{axiom_spec_iter, next_postcondition, StrSliceExecFns};

verus! {

/// The characters of a string, one by one.
pub fn chars_of(s: &str) -> (chars: Vec<char>)
    ensures
        chars@ == s@,
{
    broadcast use {axiom_spec_iter, next_postcondition};

    let mut chars: Vec<char> = Vec::new();
    let mut rest = s.chars();
    loop
        invariant
            rest.obeys_prophetic_iter_laws(),
            rest.decrease() is Some,
            chars@ + rest.remaining() == s@,
        ensures
            rest.remaining().len() == 0,
        decreases rest.decrease()->0,
    {
        let ghost before = rest.remaining();
        match rest.next() {
            Some(c) => {
                chars.push(c);
                assert(chars@ + rest.remaining() =~= s@) by {
                    assert(before =~= seq![c] + before.drop_first());
                }
            },
            None => {
                break ;
            },
        }
    }
    assert(chars@ + rest.remaining() =~= chars@);
    chars
}

/// Whether a character is white space, as Unicode's `White_Space` property
/// has it.
pub open spec fn is_space(c: char) -> bool {
    let n = c as u32;
    ||| 0x09 <= n <= 0x0D
    ||| n == 0x20
    ||| n == 0x85
    ||| n == 0xA0
    ||| n == 0x1680
    ||| 0x2000 <= n <= 0x200A
    ||| n == 0x2028
    ||| n == 0x2029
    ||| n == 0x202F
    ||| n == 0x205F
    ||| n == 0x3000
}

/// The characters without the white space that leads them.
pub open spec fn without_leading_space(s: Seq<char>) -> Seq<char>
    decreases s.len(),
{
    if s.len() > 0 && is_space(s.first()) {
        without_leading_space(s.drop_first())
    } else {
        s
    }
}

/// The characters without the white space that trails them.
pub open spec fn without_trailing_space(s: Seq<char>) -> Seq<char>
    decreases s.len(),
{
    if s.len() > 0 && is_space(s.last()) {
        without_trailing_space(s.drop_last())
    } else {
        s
    }
}

/// The characters without the white space at either end.
pub open spec fn trimmed(s: Seq<char>) -> Seq<char> {
    without_trailing_space(without_leading_space(s))
}

/// The characters in upper case, as Unicode maps them.
pub uninterp spec fn uppercase(s: Seq<char>) -> Seq<char>;

/// Whether a character is white space.
pub fn is_white_space(c: char) -> (white: bool)
    ensures
        white == is_space(c),
{
    let n: u32 = c as u32;
    (0x09 <= n && n <= 0x0D) || n == 0x20 || n == 0x85 || n == 0xA0 || n == 0x1680 || (0x2000 <= n
        && n <= 0x200A) || n == 0x2028 || n == 0x2029 || n == 0x202F || n == 0x205F || n == 0x3000
}

/// Leaving out the leading white space is skipping the characters before the
/// first that is no white space.
proof fn lemma_leading_space(s: Seq<char>, start: int)
    requires
        0 <= start <= s.len(),
        forall|j: int| 0 <= j < start ==> is_space(#[trigger] s[j]),
        start == s.len() || !is_space(s[start]),
    ensures
        without_leading_space(s) == s.skip(start),
    decreases start,
{
    if start == 0 {
        assert(s.skip(0) =~= s);
    } else {
        assert(is_space(s[0]));
        let rest = s.drop_first();
        assert forall|j: int| 0 <= j < start - 1 implies is_space(#[trigger] rest[j]) by {
            assert(rest[j] == s[j + 1]);
        }
        lemma_leading_space(rest, start - 1);
        assert(rest.skip(start - 1) =~= s.skip(start));
    }
}

/// Leaving out the trailing white space is taking the characters up to the
/// last that is no white space.
proof fn lemma_trailing_space(s: Seq<char>, end: int)
    requires
        0 <= end <= s.len(),
        forall|j: int| end <= j < s.len() ==> is_space(#[trigger] s[j]),
        end == 0 || !is_space(s[end - 1]),
    ensures
        without_trailing_space(s) == s.take(end),
    decreases s.len() - end,
{
    if end == s.len() {
        assert(s.take(end) =~= s);
    } else {
        assert(is_space(s[s.len() - 1]));
        let front = s.drop_last();
        assert forall|j: int| end <= j < front.len() implies is_space(#[trigger] front[j]) by {
            assert(front[j] == s[j]);
        }
        lemma_trailing_space(front, end);
        assert(front.take(end) =~= s.take(end));
    }
}

/// The string without the white space at either end, as `str::trim` gives
/// it.
pub fn trim(s: &str) -> (r: &str)
    ensures
        r@ == trimmed(s@),
{
    let chars = chars_of(s);
    let n = chars.len();
    let mut start: usize = 0;
    while start < n && is_white_space(chars[start])
        invariant
            start <= n,
            n == chars@.len(),
            forall|j: int| 0 <= j < start ==> is_space(#[trigger] chars@[j]),
        decreases n - start,
    {
        start += 1;
    }
    let mut end: usize = n;
    while end > start && is_white_space(chars[end - 1])
        invariant
            start <= end <= n,
            n == chars@.len(),
            forall|j: int| end <= j < n ==> is_space(#[trigger] chars@[j]),
        decreases end,
    {
        end -= 1;
    }
    proof {
        lemma_leading_space(s@, start as int);
        let rest = s@.skip(start as int);
        assert forall|j: int| end - start <= j < rest.len() implies is_space(#[trigger] rest[j]) by {
            assert(rest[j] == chars@[j + start]);
        }
        lemma_trailing_space(rest, end - start);
        assert(rest.take(end - start) =~= s@.subrange(start as int, end as int));
    }
    s.substring_char(start, end)
}

/// Calls `str::to_uppercase`. The result depends on the characters alone.
#[verifier::external_body]
pub(crate) fn to_uppercase(s: &str) -> (r: String)
    ensures
        r@ == uppercase(s@),
{
    s.to_uppercase()
}

/// The place of the first blank at or after `from`, if there is one.
pub fn find_blank(chars: &Vec<char>, from: usize) -> (found: Option<usize>)
    requires
        from <= chars@.len(),
    ensures
        match found {
            Some(k) => from <= k < chars@.len() && chars@.skip(from as int).index_of_first(' ') == Some(
                k - from,
            ),
            None => chars@.skip(from as int).index_of_first(' ') is None,
        },
{
    let ghost rest = chars@.skip(from as int);
    proof {
        rest.index_of_first_ensures(' ');
    }
    let mut i: usize = from;
    while i < chars.len()
        invariant
            from <= i <= chars@.len(),
            rest == chars@.skip(from as int),
            forall|j: int| 0 <= j < i - from ==> rest[j] != ' ',
        decreases chars@.len() - i,
    {
        if chars[i] == ' ' {
            proof {
                rest.index_of_first_ensures(' ');
                assert(rest[i - from] == ' ');
                assert(rest.contains(' '));
            }
            return Some(i);
        }
        i += 1;
    }
    proof {
        rest.index_of_first_ensures(' ');
        if rest.contains(' ') {
            let j = choose|j: int| 0 <= j < rest.len() && rest[j] == ' ';
            assert(rest[j] != ' ');
        }
    }
    None
}

} // verus!
