//! Canonical matching keys for recognised text, and the character-level
//! helpers the rest of the library builds on.

use vstd::prelude::*;

verus! {

/// `String::push` appends exactly one character.
pub assume_specification[ String::push ](s: &mut String, c: char)
    ensures
        final(s)@ == old(s)@.push(c),
;

/// Whether `c` is one of the 52 ASCII letters.
pub open spec fn is_ascii_letter(c: char) -> bool {
    ('a' <= c && c <= 'z') || ('A' <= c && c <= 'Z')
}

/// The characters of `s` that are ASCII letters, in order.
pub open spec fn letters_of(s: Seq<char>) -> Seq<char> {
    s.filter(|c: char| is_ascii_letter(c))
}

/// Decides `is_ascii_letter`.
pub fn ascii_letter(c: char) -> (b: bool)
    ensures
        b == is_ascii_letter(c),
{
    ('a' <= c && c <= 'z') || ('A' <= c && c <= 'Z')
}

/// The characters of a string slice as a vector.
pub fn to_chars(s: &str) -> (v: Vec<char>)
    ensures
        v@ == s@,
{
    let n: usize = s.unicode_len();
    let mut v: Vec<char> = Vec::new();
    let mut i: usize = 0;
    while i < n
        invariant
            n == s@.len(),
            i <= n,
            v@ == s@.subrange(0, i as int),
        decreases n - i,
    {
        let c = s.get_char(i);
        v.push(c);
        i = i + 1;
        assert(v@ =~= s@.subrange(0, i as int));
    }
    assert(s@.subrange(0, n as int) =~= s@);
    v
}

/// A string holding exactly the given characters.
pub fn from_chars(v: &Vec<char>) -> (s: String)
    ensures
        s@ == v@,
{
    let mut s = String::new();
    let mut i: usize = 0;
    while i < v.len()
        invariant
            i <= v.len(),
            s@ == v@.subrange(0, i as int),
        decreases v.len() - i,
    {
        s.push(v[i]);
        i = i + 1;
        assert(s@ =~= v@.subrange(0, i as int));
    }
    assert(v@.subrange(0, v.len() as int) =~= v@);
    s
}

/// Removes every character that is not an ASCII letter.
///
/// The result is the key under which recognised text is looked up.
pub fn normalize_string(string: &str) -> (key: String)
    ensures
        key@ == letters_of(string@),
        forall|i: int| 0 <= i < key@.len() ==> is_ascii_letter(#[trigger] key@[i]),
        letters_of(key@) == key@,
{
    proof {
        lemma_letters_only(string@);
        lemma_normalize_idempotent(string@);
    }
    let chars = to_chars(string);
    let mut kept: Vec<char> = Vec::new();
    let mut i: usize = 0;
    while i < chars.len()
        invariant
            i <= chars.len(),
            kept@ == letters_of(chars@.subrange(0, i as int)),
        decreases chars.len() - i,
    {
        let c = chars[i];
        proof {
            let prefix = chars@.subrange(0, i as int);
            let next = chars@.subrange(0, i + 1);
            assert(next =~= prefix.push(c));
            lemma_letters_push(prefix, c);
        }
        if ascii_letter(c) {
            kept.push(c);
        }
        i = i + 1;
    }
    assert(chars@.subrange(0, chars.len() as int) =~= chars@);
    from_chars(&kept)
}

/// Filtering distributes over appending one character.
pub proof fn lemma_letters_push(s: Seq<char>, c: char)
    ensures
        letters_of(s.push(c)) == if is_ascii_letter(c) {
            letters_of(s).push(c)
        } else {
            letters_of(s)
        },
{
    reveal(Seq::filter);
    assert(s.push(c).drop_last() =~= s);
    assert(s.push(c).last() == c);
}

/// Every character of a normalized key is an ASCII letter.
pub proof fn lemma_letters_only(s: Seq<char>)
    ensures
        forall|i: int| 0 <= i < letters_of(s).len() ==> is_ascii_letter(#[trigger] letters_of(s)[i]),
{
    let p = |c: char| is_ascii_letter(c);
    assert forall|i: int| 0 <= i < letters_of(s).len() implies is_ascii_letter(
        #[trigger] letters_of(s)[i],
    ) by {
        s.lemma_filter_pred(p, i);
    }
}

/// Normalizing is idempotent: a key is its own key.
pub proof fn lemma_normalize_idempotent(s: Seq<char>)
    ensures
        letters_of(letters_of(s)) == letters_of(s),
{
    lemma_letters_only(s);
    lemma_filter_all(letters_of(s));
}

/// A sequence of letters is unchanged by the filter.
pub proof fn lemma_filter_all(s: Seq<char>)
    requires
        forall|i: int| 0 <= i < s.len() ==> is_ascii_letter(#[trigger] s[i]),
    ensures
        letters_of(s) == s,
    decreases s.len(),
{
    if s.len() == 0 {
        reveal(Seq::filter);
        assert(letters_of(s) =~= s);
    } else {
        let init = s.drop_last();
        let c = s.last();
        lemma_filter_all(init);
        assert(s =~= init.push(c));
        lemma_letters_push(init, c);
    }
}

/// Whether `s` ends in `suffix`.
pub open spec fn is_suffix(suffix: Seq<char>, s: Seq<char>) -> bool {
    suffix.len() <= s.len() && s.subrange(s.len() - suffix.len(), s.len() as int) == suffix
}

/// Decides `is_suffix`.
pub fn ends_with(s: &Vec<char>, suffix: &Vec<char>) -> (b: bool)
    ensures
        b == is_suffix(suffix@, s@),
{
    if suffix.len() > s.len() {
        return false;
    }
    let shift: usize = s.len() - suffix.len();
    let ghost end = s@.subrange(shift as int, s@.len() as int);
    let mut i: usize = 0;
    while i < suffix.len()
        invariant
            i <= suffix.len(),
            shift + suffix.len() == s.len(),
            end == s@.subrange(shift as int, s@.len() as int),
            forall|k: int| 0 <= k < i ==> suffix@[k] == end[k],
        decreases suffix.len() - i,
    {
        if s[shift + i] != suffix[i] {
            assert(end[i as int] != suffix@[i as int]);
            return false;
        }
        i = i + 1;
    }
    assert(end =~= suffix@);
    true
}

/// The characters of `s` that are not spaces, in order.
pub open spec fn without_spaces(s: Seq<char>) -> Seq<char> {
    s.filter(|c: char| c != ' ')
}

/// The text without its spaces.
pub fn remove_spaces(s: &Vec<char>) -> (kept: Vec<char>)
    ensures
        kept@ == without_spaces(s@),
{
    let mut kept: Vec<char> = Vec::new();
    let mut i: usize = 0;
    while i < s.len()
        invariant
            i <= s.len(),
            kept@ == without_spaces(s@.subrange(0, i as int)),
        decreases s.len() - i,
    {
        let c = s[i];
        proof {
            reveal(Seq::filter);
            assert(s@.subrange(0, i + 1).drop_last() =~= s@.subrange(0, i as int));
        }
        if c != ' ' {
            kept.push(c);
        }
        i = i + 1;
    }
    assert(s@.subrange(0, s.len() as int) =~= s@);
    kept
}

/// The two texts, one after the other.
pub fn join_text(a: &Vec<char>, b: &Vec<char>) -> (joined: Vec<char>)
    ensures
        joined@ == a@ + b@,
{
    let mut joined: Vec<char> = Vec::new();
    let mut i: usize = 0;
    while i < a.len()
        invariant
            i <= a.len(),
            joined@ == a@.subrange(0, i as int),
        decreases a.len() - i,
    {
        joined.push(a[i]);
        i = i + 1;
        assert(joined@ =~= a@.subrange(0, i as int));
    }
    let mut j: usize = 0;
    while j < b.len()
        invariant
            j <= b.len(),
            joined@ == a@ + b@.subrange(0, j as int),
        decreases b.len() - j,
    {
        joined.push(b[j]);
        j = j + 1;
        assert(joined@ =~= a@ + b@.subrange(0, j as int));
    }
    assert(b@.subrange(0, b.len() as int) =~= b@);
    joined
}

/// Whether two texts hold the same characters.
pub fn same_text(a: &Vec<char>, b: &Vec<char>) -> (same: bool)
    ensures
        same == (a@ == b@),
{
    if a.len() != b.len() {
        return false;
    }
    let mut i: usize = 0;
    while i < a.len()
        invariant
            i <= a.len(),
            a.len() == b.len(),
            forall|k: int| 0 <= k < i ==> a@[k] == b@[k],
        decreases a.len() - i,
    {
        if a[i] != b[i] {
            return false;
        }
        i = i + 1;
    }
    assert(a@ =~= b@);
    true
}


/// Whether `needle` stands in `haystack` at place `at`.
pub open spec fn stands_at(needle: Seq<char>, haystack: Seq<char>, at: int) -> bool {
    0 <= at && at + needle.len() <= haystack.len() && haystack.subrange(
        at,
        at + needle.len(),
    ) == needle
}

/// Whether `needle` stands somewhere in `haystack`.
pub open spec fn occurs(needle: Seq<char>, haystack: Seq<char>) -> bool {
    exists|at: int| stands_at(needle, haystack, at)
}

fn stands(needle: &Vec<char>, haystack: &Vec<char>, at: usize) -> (b: bool)
    requires
        at + needle.len() <= haystack.len(),
    ensures
        b == stands_at(needle@, haystack@, at as int),
{
    let ghost part = haystack@.subrange(at as int, at + needle@.len());
    let mut i: usize = 0;
    while i < needle.len()
        invariant
            i <= needle.len(),
            at + needle.len() <= haystack.len(),
            part == haystack@.subrange(at as int, at + needle@.len()),
            forall|k: int| 0 <= k < i ==> needle@[k] == part[k],
        decreases needle.len() - i,
    {
        if haystack[at + i] != needle[i] {
            assert(part[i as int] != needle@[i as int]);
            return false;
        }
        i = i + 1;
    }
    assert(part =~= needle@);
    true
}

/// Decides `occurs`.
pub fn contains(haystack: &Vec<char>, needle: &Vec<char>) -> (b: bool)
    ensures
        b == occurs(needle@, haystack@),
{
    if needle.len() > haystack.len() {
        return false;
    }
    if needle.len() == 0 {
        assert(haystack@.subrange(0, 0) =~= needle@);
        assert(stands_at(needle@, haystack@, 0));
        return true;
    }
    let last: usize = haystack.len() - needle.len();
    let mut at: usize = 0;
    while at <= last
        invariant
            at <= last + 1,
            last < haystack.len(),
            last + needle.len() == haystack.len(),
            forall|k: int| 0 <= k < at ==> !stands_at(needle@, haystack@, k),
        decreases last + 1 - at,
    {
        if stands(needle, haystack, at) {
            return true;
        }
        at = at + 1;
    }
    false
}


} // verus!
