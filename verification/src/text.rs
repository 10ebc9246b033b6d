//! Moving between strings and their characters.

use vstd::prelude::*;

verus! {

/// The characters of `s`, in order.
pub fn chars_of(s: &str) -> (out: Vec<char>)
    ensures
        out@ == s@,
{
    let mut out: Vec<char> = Vec::new();
    for c in it: s.chars()
        invariant
            out@ == it.seq().take(it.index() as int),
            it.seq() == s@,
    {
        out.push(c);
    }
    out
}

/// Where `c` first occurs in `s`; the length of `s` where it does not occur.
pub open spec fn first_index(s: Seq<char>, c: char) -> int {
    match s.index_of_first(c) {
        Some(i) => i,
        None => s.len() as int,
    }
}

/// Where `c` last occurs in `s`; -1 where it does not occur.
pub open spec fn last_index(s: Seq<char>, c: char) -> int {
    match s.index_of_last(c) {
        Some(i) => i,
        None => -1,
    }
}

/// The first occurrence of `c` is at `k` when `c` does not occur before `k`
/// and `k` is either the end of `s` or holds `c`.
pub proof fn lemma_first_index(s: Seq<char>, c: char, k: int)
    requires
        0 <= k <= s.len(),
        forall|j: int| 0 <= j < k ==> s[j] != c,
        k < s.len() ==> s[k] == c,
    ensures
        first_index(s, c) == k,
{
    s.index_of_first_ensures(c);
    if k < s.len() {
        assert(s.contains(c));
    } else {
        if s.contains(c) {
            let i = choose|i: int| 0 <= i < s.len() && s[i] == c;
            assert(s[i] != c);
        }
    }
}

/// The last occurrence of `c` is at `k` when `c` does not occur after `k`
/// and `k` is either -1 or holds `c`.
pub proof fn lemma_last_index(s: Seq<char>, c: char, k: int)
    requires
        -1 <= k < s.len(),
        forall|j: int| k < j < s.len() ==> s[j] != c,
        0 <= k ==> s[k] == c,
    ensures
        last_index(s, c) == k,
{
    s.index_of_last_ensures(c);
    if 0 <= k {
        assert(s.contains(c));
    } else {
        if s.contains(c) {
            let i = choose|i: int| 0 <= i < s.len() && s[i] == c;
            assert(s[i] != c);
        }
    }
}

/// Where `c` first occurs among the characters from `from` up to `to`,
/// counted from the start of `chars`; `to` where it does not occur there.
pub(crate) fn find_char(chars: &Vec<char>, from: usize, to: usize, c: char) -> (k: usize)
    requires
        from <= to <= chars.len(),
    ensures
        from <= k <= to,
        k - from == first_index(chars@.subrange(from as int, to as int), c),
{
    let mut k: usize = from;
    while k < to && chars[k] != c
        invariant
            from <= k <= to <= chars.len(),
            forall|j: int| from <= j < k ==> chars@[j] != c,
        decreases to - k,
    {
        k += 1;
    }
    proof {
        lemma_first_index(chars@.subrange(from as int, to as int), c, k - from);
    }
    k
}

/// Where `c` last occurs in `chars`, counted from one: the position just
/// after it; zero where `c` does not occur.
pub(crate) fn find_end(chars: &Vec<char>, c: char) -> (k: usize)
    ensures
        k <= chars.len(),
        k == last_index(chars@, c) + 1,
{
    let mut k: usize = chars.len();
    while k > 0 && chars[k - 1] != c
        invariant
            k <= chars.len(),
            forall|j: int| k <= j < chars.len() ==> chars@[j] != c,
        decreases k,
    {
        k -= 1;
    }
    proof {
        lemma_last_index(chars@, c, k - 1);
    }
    k
}

/// The string of `count` times the character `c`.
pub fn repeated(c: char, count: u16) -> (text: String)
    ensures
        text@ == Seq::new(count as nat, |i: int| c),
{
    let mut chars: Vec<char> = Vec::new();
    let mut i: u16 = 0;
    while i < count
        invariant
            i <= count,
            chars@ == Seq::new(i as nat, |k: int| c),
        decreases count - i,
    {
        chars.push(c);
        i += 1;
        assert(chars@ =~= Seq::new(i as nat, |k: int| c));
    }
    string_from_chars(&chars)
}

/// Adds the characters of `s` to the end of `out`.
pub(crate) fn push_text(out: &mut Vec<char>, s: &str)
    ensures
        final(out)@ == old(out)@ + s@,
{
    let mut chars = chars_of(s);
    out.append(&mut chars);
}

/// The string whose characters are `chars`, in order.
///
/// Trusted: std's `String::from_iter`, which vstd leaves unspecified, is
/// taken to build the string of exactly the characters it is fed, in their
/// order.
#[verifier::external_body]
pub(crate) fn string_from_chars(chars: &Vec<char>) -> (s: String)
    ensures
        s@ == chars@,
{
    String::from_iter(chars)
}

} // verus!
