//! Plain text as sequences of characters: conversions between strings and
//! character vectors, and the measure of a leading run of characters.

use vstd::prelude::*;

verus! {

/// `String::push` of the standard library: the call appends the character
/// `c` to the end of the string and leaves what was there as it is.
pub assume_specification[ String::push ](s: &mut String, c: char)
    ensures
        final(s)@ == old(s)@.push(c),
;

/// The characters other than `stop`.
pub open spec fn other_than(stop: char) -> spec_fn(char) -> bool {
    |c: char| c != stop
}

/// The character `wanted` and no other.
pub open spec fn only(wanted: char) -> spec_fn(char) -> bool {
    |c: char| c == wanted
}

/// Number of characters at the front of `s` that all satisfy `keep`: the
/// length of the longest prefix of `s` made of such characters only.
pub open spec fn leading(s: Seq<char>, keep: spec_fn(char) -> bool) -> nat
    decreases s.len(),
{
    if s.len() > 0 && keep(s[0]) {
        1 + leading(s.skip(1), keep)
    } else {
        0
    }
}

/// `leading` never counts more characters than there are.
pub proof fn lemma_leading_bound(s: Seq<char>, keep: spec_fn(char) -> bool)
    ensures
        leading(s, keep) <= s.len(),
    decreases s.len(),
{
    if s.len() > 0 && keep(s[0]) {
        lemma_leading_bound(s.skip(1), keep);
    }
}

/// What `leading` measures: every character before index `leading(s, keep)`
/// satisfies `keep`, and the character at that index, if there is one, does not.
pub proof fn lemma_leading_run(s: Seq<char>, keep: spec_fn(char) -> bool)
    ensures
        leading(s, keep) <= s.len(),
        forall|j: int| 0 <= j < leading(s, keep) ==> keep(#[trigger] s[j]),
        leading(s, keep) < s.len() ==> !keep(s[leading(s, keep) as int]),
    decreases s.len(),
{
    if s.len() > 0 && keep(s[0]) {
        let tail = s.skip(1);
        lemma_leading_run(tail, keep);
        assert forall|j: int| 0 <= j < leading(s, keep) implies keep(#[trigger] s[j]) by {
            if j > 0 {
                assert(s[j] == tail[j - 1]);
            }
        }
    }
}

/// The index `k` at which a run of `keep` characters stops is `leading(s, keep)`.
pub proof fn lemma_leading_is(s: Seq<char>, keep: spec_fn(char) -> bool, k: int)
    requires
        0 <= k <= s.len(),
        forall|j: int| 0 <= j < k ==> keep(#[trigger] s[j]),
        k < s.len() ==> !keep(s[k]),
    ensures
        leading(s, keep) == k,
    decreases k,
{
    if k > 0 {
        let tail = s.skip(1);
        assert(forall|j: int| 0 <= j < k - 1 ==> keep(#[trigger] tail[j]));
        lemma_leading_is(tail, keep, k - 1);
    }
}

/// The characters of `text`, in order.
pub fn chars_of(text: &str) -> (chars: Vec<char>)
    ensures
        chars@ == text@,
{
    let mut chars: Vec<char> = Vec::new();
    for c in it: text.chars()
        invariant
            chars@ == it.seq().take(it.index()),
    {
        chars.push(c);
    }
    chars
}

/// Copies the characters from index `start` up to the next `stop`, or to the
/// end where no `stop` follows. Gives the copy and the index it stopped at.
pub(crate) fn read_until(chars: &Vec<char>, start: usize, stop: char) -> (r: (String, usize))
    requires
        start <= chars.len(),
    ensures
        r.1 == start + leading(chars@.skip(start as int), other_than(stop)),
        r.1 <= chars.len(),
        r.0@ == chars@.subrange(start as int, r.1 as int),
{
    let mut copy = String::new();
    let mut i: usize = start;
    while i < chars.len() && chars[i] != stop
        invariant
            start <= i <= chars.len(),
            copy@ == chars@.subrange(start as int, i as int),
            forall|j: int| start <= j < i ==> chars[j] != stop,
        decreases chars.len() - i,
    {
        copy.push(chars[i]);
        i += 1;
    }
    proof {
        let tail = chars@.skip(start as int);
        assert(forall|j: int| 0 <= j < i - start ==> other_than(stop)(#[trigger] tail[j]));
        lemma_leading_is(tail, other_than(stop), i - start);
    }
    (copy, i)
}

/// The index of the first character at or after `start` that is not `c`.
pub(crate) fn skip_all(chars: &Vec<char>, start: usize, c: char) -> (end: usize)
    requires
        start <= chars.len(),
    ensures
        end == start + leading(chars@.skip(start as int), only(c)),
        end <= chars.len(),
{
    let mut i: usize = start;
    while i < chars.len() && chars[i] == c
        invariant
            start <= i <= chars.len(),
            forall|j: int| start <= j < i ==> chars[j] == c,
        decreases chars.len() - i,
    {
        i += 1;
    }
    proof {
        let tail = chars@.skip(start as int);
        assert(forall|j: int| 0 <= j < i - start ==> only(c)(#[trigger] tail[j]));
        lemma_leading_is(tail, only(c), i - start);
    }
    i
}

} // verus!
