//! Looking for a text inside a text: occurrence, splitting, lines, replacing.

use vstd::prelude::*;

use crate::text::{chars_of, string_of, texts};

verus! {

// ---------------------------------------------------------------------------
// Occurrence

/// Whether `pat` stands in `s` at place `i`.
pub open spec fn occurs_at(s: Seq<char>, pat: Seq<char>, i: int) -> bool {
    &&& 0 <= i
    &&& i + pat.len() <= s.len()
    &&& s.subrange(i, i + pat.len()) == pat
}

/// Whether `pat` stands anywhere in `s`.
pub open spec fn contains(s: Seq<char>, pat: Seq<char>) -> bool {
    exists|i: int| occurs_at(s, pat, i)
}

/// The first place at or after `i` where `pat` stands in `s`.
pub open spec fn find_from(s: Seq<char>, pat: Seq<char>, i: int) -> Option<int>
    decreases s.len() - i + 1,
{
    if i + pat.len() > s.len() {
        None
    } else if occurs_at(s, pat, i) {
        Some(i)
    } else {
        find_from(s, pat, i + 1)
    }
}

/// The first place where `pat` stands in `s`.
pub open spec fn find(s: Seq<char>, pat: Seq<char>) -> Option<int> {
    find_from(s, pat, 0)
}

/// Whether `s` begins with `pat`.
pub open spec fn starts_with(s: Seq<char>, pat: Seq<char>) -> bool {
    occurs_at(s, pat, 0)
}

/// Whether `s` ends with `pat`.
pub open spec fn ends_with(s: Seq<char>, pat: Seq<char>) -> bool {
    occurs_at(s, pat, s.len() - pat.len())
}

/// `find_from` gives the first occurrence, and one exactly when there is one.
pub proof fn lemma_find_from(s: Seq<char>, pat: Seq<char>, i: int)
    requires
        0 <= i,
    ensures
        match find_from(s, pat, i) {
            Some(k) => i <= k && occurs_at(s, pat, k) && forall|j: int|
                i <= j < k ==> !occurs_at(s, pat, j),
            None => forall|j: int| i <= j ==> !occurs_at(s, pat, j),
        },
    decreases s.len() - i + 1,
{
    if i + pat.len() <= s.len() && !occurs_at(s, pat, i) {
        lemma_find_from(s, pat, i + 1);
    }
}

/// A text contains another exactly when there is a first place for it.
pub proof fn lemma_find_contains(s: Seq<char>, pat: Seq<char>)
    ensures
        contains(s, pat) == (find(s, pat) is Some),
        find(s, pat) matches Some(k) ==> occurs_at(s, pat, k),
{
    lemma_find_from(s, pat, 0);
}

/// What a text holds from place `d` on is found `d` places earlier in the rest.
pub proof fn lemma_find_in_rest(s: Seq<char>, pat: Seq<char>, d: int, i: int)
    requires
        0 <= d <= s.len(),
        0 <= i,
    ensures
        find_from(s.skip(d), pat, i) == match find_from(s, pat, i + d) {
            Some(k) => Some(k - d),
            None => None,
        },
    decreases s.len() - i + 1,
{
    if i + d + pat.len() <= s.len() {
        assert(s.skip(d).subrange(i, i + pat.len()) == s.subrange(i + d, i + d + pat.len()));
        if !occurs_at(s, pat, i + d) {
            lemma_find_in_rest(s, pat, d, i + 1);
        }
    }
}

/// Tells whether `pat` stands in `chars` at place `i`.
fn stands_at(chars: &Vec<char>, pat: &Vec<char>, i: usize) -> (yes: bool)
    requires
        i + pat@.len() <= chars@.len(),
    ensures
        yes == occurs_at(chars@, pat@, i as int),
{
    let n: usize = pat.len();
    let total: usize = chars.len();
    let mut j: usize = 0;
    while j < n
        invariant
            n == pat@.len(),
            total == chars@.len(),
            j <= n,
            i + n <= total,
            forall|k: int| 0 <= k < j ==> chars@[i + k] == pat@[k],
        decreases n - j,
    {
        if chars[i + j] != pat[j] {
            assert(chars@.subrange(i as int, i + n)[j as int] != pat@[j as int]);
            return false;
        }
        j = j + 1;
    }
    assert(chars@.subrange(i as int, i + n) == pat@);
    true
}

/// Finds the first place at or after `from` where `pat` stands in `chars`.
pub fn find_in(chars: &Vec<char>, pat: &Vec<char>, from: usize) -> (place: Option<usize>)
    requires
        from <= chars@.len(),
    ensures
        match place {
            Some(k) => find_from(chars@, pat@, from as int) == Some(k as int),
            None => find_from(chars@, pat@, from as int) is None,
        },
{
    let n: usize = chars.len();
    let m: usize = pat.len();
    if m > n - from {
        return None;
    }
    let last: usize = n - m;
    let mut i: usize = from;
    while i < last
        invariant
            n == chars@.len(),
            m == pat@.len(),
            last == n - m,
            from <= i <= last,
            find_from(chars@, pat@, from as int) == find_from(chars@, pat@, i as int),
        decreases last - i,
    {
        if stands_at(chars, pat, i) {
            return Some(i);
        }
        i = i + 1;
    }
    if stands_at(chars, pat, last) {
        Some(last)
    } else {
        assert(find_from(chars@, pat@, last + 1) is None);
        None
    }
}

/// Tells whether `s` contains `pat`.
pub fn str_contains(s: &str, pat: &str) -> (yes: bool)
    ensures
        yes == contains(s@, pat@),
{
    proof {
        lemma_find_contains(s@, pat@);
    }
    find_in(&chars_of(s), &chars_of(pat), 0).is_some()
}

/// Tells whether `s` begins with `pat`.
pub fn str_starts_with(s: &str, pat: &str) -> (yes: bool)
    ensures
        yes == starts_with(s@, pat@),
{
    let chars = chars_of(s);
    let wanted = chars_of(pat);
    wanted.len() <= chars.len() && stands_at(&chars, &wanted, 0)
}

/// Tells whether `s` ends with `pat`.
pub fn str_ends_with(s: &str, pat: &str) -> (yes: bool)
    ensures
        yes == ends_with(s@, pat@),
{
    let chars = chars_of(s);
    let wanted = chars_of(pat);
    wanted.len() <= chars.len() && stands_at(&chars, &wanted, chars.len() - wanted.len())
}

/// A part stands at a place exactly where the text is made of as many characters before
/// it, the part, and something behind.
pub proof fn law_occurs_at(s: Seq<char>, pat: Seq<char>, i: int)
    ensures
        occurs_at(s, pat, i) <==> exists|a: Seq<char>, b: Seq<char>|
            a.len() == i && s == #[trigger] (a + pat + b),
{
    if occurs_at(s, pat, i) {
        let a = s.take(i);
        let b = s.skip(i + pat.len());
        assert(s == a + pat + b) by {
            assert(s == a + s.subrange(i, i + pat.len()) + b);
        }
    }
    if exists|a: Seq<char>, b: Seq<char>| a.len() == i && s == #[trigger] (a + pat + b) {
        let (a, b) = choose|a: Seq<char>, b: Seq<char>|
            a.len() == i && s == #[trigger] (a + pat + b);
        lemma_contains_middle(a, pat, b);
    }
}

/// A text holds another exactly where it is made of something, the other, and something.
pub proof fn law_contains_middle(s: Seq<char>, pat: Seq<char>)
    ensures
        contains(s, pat) <==> exists|a: Seq<char>, b: Seq<char>| s == #[trigger] (a + pat + b),
{
    if contains(s, pat) {
        let i = choose|i: int| occurs_at(s, pat, i);
        law_occurs_at(s, pat, i);
        let (a, b) = choose|a: Seq<char>, b: Seq<char>|
            a.len() == i && s == #[trigger] (a + pat + b);
        assert(s == a + pat + b);
    }
    if exists|a: Seq<char>, b: Seq<char>| s == #[trigger] (a + pat + b) {
        let (a, b) = choose|a: Seq<char>, b: Seq<char>| s == #[trigger] (a + pat + b);
        lemma_contains_middle(a, pat, b);
    }
}

/// A text begins with another exactly where it is the other and something behind, and
/// ends with it exactly where it is something and the other.
pub proof fn law_begins_and_ends(s: Seq<char>, pat: Seq<char>)
    ensures
        starts_with(s, pat) <==> exists|b: Seq<char>| s == #[trigger] (pat + b),
        ends_with(s, pat) <==> exists|a: Seq<char>| s == #[trigger] (a + pat),
{
    let n = s.len() - pat.len();
    if starts_with(s, pat) {
        assert(s == pat + s.skip(pat.len() as int));
    }
    if exists|b: Seq<char>| s == #[trigger] (pat + b) {
        assert(s.subrange(0, pat.len() as int) == pat);
    }
    if ends_with(s, pat) {
        assert(s == s.take(n) + pat) by {
            assert(s == s.take(n) + s.subrange(n, s.len() as int));
        }
    }
    if exists|a: Seq<char>| s == #[trigger] (a + pat) {
        assert(s.subrange(n, s.len() as int) == pat);
    }
}

/// What stands between two other parts stands in the whole.
pub proof fn lemma_contains_middle(a: Seq<char>, pat: Seq<char>, b: Seq<char>)
    ensures
        contains(a + pat + b, pat),
        occurs_at(a + pat + b, pat, a.len() as int),
{
    let s = a + pat + b;
    assert(s.subrange(a.len() as int, (a.len() + pat.len()) as int) == pat);
    assert(occurs_at(s, pat, a.len() as int));
}

/// What stands in a part stands in the whole.
pub proof fn lemma_contains_within(s: Seq<char>, mid: Seq<char>, pat: Seq<char>)
    requires
        contains(s, mid),
        contains(mid, pat),
    ensures
        contains(s, pat),
{
    let i = choose|i: int| occurs_at(s, mid, i);
    let j = choose|j: int| occurs_at(mid, pat, j);
    assert(s.subrange(i + j, i + j + pat.len()) == mid.subrange(j, j + pat.len()));
    assert(occurs_at(s, pat, i + j));
}

proof fn lemma_find_first(a: Seq<char>, pat: Seq<char>, rest: Seq<char>)
    requires
        pat.len() > 0,
        !contains((a + pat).drop_last(), pat),
    ensures
        find(a + pat + rest, pat) == Some(a.len() as int),
{
    let s = a + pat + rest;
    let front = (a + pat).drop_last();
    lemma_contains_middle(a, pat, rest);
    lemma_find_from(s, pat, 0);
    let k = find(s, pat)->0;
    if k < a.len() {
        assert(front.subrange(k, k + pat.len()) == s.subrange(k, k + pat.len()));
        assert(occurs_at(front, pat, k));
    }
}

// ---------------------------------------------------------------------------
// Splitting

/// The pieces of `s` between the occurrences of `pat`, which are taken from the
/// left and do not overlap.
pub open spec fn split(s: Seq<char>, pat: Seq<char>) -> Seq<Seq<char>>
    decreases s.len(),
{
    match find(s, pat) {
        Some(k) => if pat.len() > 0 {
            proof {
                lemma_find_from(s, pat, 0);
            }
            seq![s.take(k)] + split(s.skip(k + pat.len()), pat)
        } else {
            seq![s]
        },
        None => seq![s],
    }
}

/// Splits a string at each occurrence of `pat`.
pub fn split_str(s: &str, pat: &str) -> (parts: Vec<String>)
    requires
        pat@.len() > 0,
    ensures
        texts(parts@) == split(s@, pat@),
{
    let chars = chars_of(s);
    let wanted = chars_of(pat);
    let n: usize = chars.len();
    let mut parts: Vec<String> = Vec::new();
    let mut start: usize = 0;
    assert(s@.skip(0) == s@);
    assert(texts(parts@) + split(s@.skip(0), pat@) == split(s@, pat@));
    let mut next = find_in(&chars, &wanted, 0);
    while next.is_some()
        invariant
            n == chars@.len(),
            chars@ == s@,
            wanted@ == pat@,
            pat@.len() > 0,
            start <= n,
            texts(parts@) + split(s@.skip(start as int), pat@) == split(s@, pat@),
            match next {
                Some(k) => find_from(s@, pat@, start as int) == Some(k as int),
                None => find_from(s@, pat@, start as int) is None,
            },
        decreases n - start,
    {
        let k: usize = next.unwrap();
        let ghost rest = s@.skip(start as int);
        let ghost before = texts(parts@);
        proof {
            lemma_find_from(s@, pat@, start as int);
            lemma_find_in_rest(s@, pat@, start as int, 0);
            assert(rest.take(k - start) == s@.subrange(start as int, k as int));
            assert(rest.skip(k - start + pat@.len()) == s@.skip(k + pat@.len()));
        }
        parts.push(string_of(&chars, start, k));
        start = k + wanted.len();
        proof {
            assert(texts(parts@) == before.push(rest.take(k - (n - rest.len()))));
            let tail = split(s@.skip(start as int), pat@);
            assert(before + (seq![rest.take(k - (n - rest.len()))] + tail) == texts(parts@) + tail);
        }
        next = find_in(&chars, &wanted, start);
    }
    let ghost before = texts(parts@);
    parts.push(string_of(&chars, start, n));
    proof {
        let rest = s@.skip(start as int);
        lemma_find_in_rest(s@, pat@, start as int, 0);
        assert(rest == s@.subrange(start as int, n as int));
        assert(texts(parts@) == before + seq![rest]);
    }
    parts
}

/// Putting the separator back between the pieces gives the text back.
pub proof fn law_split_joins_back(s: Seq<char>, pat: Seq<char>)
    requires
        pat.len() > 0,
    ensures
        split(s, pat).len() > 0,
        crate::text::join(split(s, pat), pat) == s,
    decreases s.len(),
{
    match find(s, pat) {
        Some(k) => {
            lemma_find_from(s, pat, 0);
            let rest = s.skip(k + pat.len());
            law_split_joins_back(rest, pat);
            lemma_join_cons(s.take(k), split(rest, pat), pat);
            assert(s.take(k) + pat + rest == s) by {
                assert(s.subrange(k, k + pat.len()) == pat);
                assert(s == s.take(k) + s.subrange(k, k + pat.len()) + rest);
            }
        },
        None => {},
    }
}

/// Joining a list is its first part, the separator, and the rest joined.
pub proof fn lemma_join_cons(first: Seq<char>, rest: Seq<Seq<char>>, sep: Seq<char>)
    requires
        rest.len() > 0,
    ensures
        crate::text::join(seq![first] + rest, sep) == first + sep + crate::text::join(rest, sep),
    decreases rest.len(),
{
    let all = seq![first] + rest;
    assert(all.drop_last() == seq![first] + rest.drop_last());
    assert(all.last() == rest.last());
    if rest.len() == 1 {
        assert(all.drop_last() == seq![first]);
        assert(crate::text::join(seq![first], sep) == first);
        assert(rest.last() == rest.first());
    } else {
        lemma_join_cons(first, rest.drop_last(), sep);
        let r = crate::text::join(rest.drop_last(), sep);
        assert(first + sep + r + sep + rest.last() == first + sep + (r + sep + rest.last()));
    }
}

/// How a text is split: one without the separator is its own only piece; else the first
/// piece is what stands before the first separator, and what stands behind is split on.
pub proof fn law_split_at_first(a: Seq<char>, pat: Seq<char>, rest: Seq<char>)
    requires
        pat.len() > 0,
    ensures
        !contains(a, pat) ==> split(a, pat) == seq![a],
        !contains((a + pat).drop_last(), pat) ==> split(a + pat + rest, pat) == seq![a] + split(
            rest,
            pat,
        ),
{
    if !contains(a, pat) {
        lemma_find_contains(a, pat);
    }
    if !contains((a + pat).drop_last(), pat) {
        lemma_find_first(a, pat, rest);
        let s = a + pat + rest;
        assert(s.take(a.len() as int) == a);
        assert(s.skip((a.len() + pat.len()) as int) == rest);
    }
}

/// What stands before the first `sep` in `s`, if there is one.
pub open spec fn before_first(s: Seq<char>, sep: Seq<char>) -> Option<Seq<char>> {
    match find(s, sep) {
        Some(k) => Some(s.take(k)),
        None => None,
    }
}

/// What stands before the first separator: there is such a part exactly where the
/// separator is there, and then the separator follows it and is not there before.
pub proof fn law_before_first(a: Seq<char>, sep: Seq<char>, rest: Seq<char>)
    requires
        sep.len() > 0,
    ensures
        !contains(a, sep) ==> before_first(a, sep) is None,
        !contains((a + sep).drop_last(), sep) ==> before_first(a + sep + rest, sep) == Some(a),
{
    if !contains(a, sep) {
        lemma_find_contains(a, sep);
    }
    if !contains((a + sep).drop_last(), sep) {
        lemma_find_first(a, sep, rest);
        assert((a + sep + rest).take(a.len() as int) == a);
    }
}

/// Takes what stands before the first `sep` in `s`.
pub fn str_before_first(s: &str, sep: &str) -> (head: Option<String>)
    ensures
        crate::text::opt_text(head) == before_first(s@, sep@),
{
    let chars = chars_of(s);
    let wanted = chars_of(sep);
    match find_in(&chars, &wanted, 0) {
        Some(k) => {
            proof {
                lemma_find_from(s@, sep@, 0);
                assert(s@.take(k as int) == s@.subrange(0, k as int));
            }
            Some(string_of(&chars, 0, k))
        },
        None => None,
    }
}

// ---------------------------------------------------------------------------
// Lines

/// A line without the carriage return at its end.
pub open spec fn without_cr(line: Seq<char>) -> Seq<char> {
    if line.len() > 0 && line.last() == '\r' {
        line.drop_last()
    } else {
        line
    }
}

/// The lines of a text. A line ends with a line feed, or with a carriage return
/// and a line feed; neither belongs to it. The end of the last line may lack.
pub open spec fn lines(s: Seq<char>) -> Seq<Seq<char>>
    decreases s.len(),
{
    if s.len() == 0 {
        Seq::empty()
    } else {
        match find(s, seq!['\n']) {
            Some(k) => {
                proof {
                    lemma_find_from(s, seq!['\n'], 0);
                }
                seq![without_cr(s.take(k))] + lines(s.skip(k + 1))
            },
            None => seq![s],
        }
    }
}

/// Takes a text apart into its lines.
pub fn lines_of(s: &str) -> (out: Vec<String>)
    ensures
        texts(out@) == lines(s@),
{
    let chars = chars_of(s);
    let mut feed: Vec<char> = Vec::new();
    feed.push('\n');
    assert(feed@ == seq!['\n']);
    let n: usize = chars.len();
    let mut out: Vec<String> = Vec::new();
    let mut start: usize = 0;
    assert(s@.skip(0) == s@);
    assert(texts(out@) + lines(s@.skip(0)) == lines(s@));
    while start < n
        invariant
            n == chars@.len(),
            chars@ == s@,
            feed@ == seq!['\n'],
            start <= n,
            texts(out@) + lines(s@.skip(start as int)) == lines(s@),
        decreases n - start,
    {
        let ghost rest = s@.skip(start as int);
        let ghost before = texts(out@);
        proof {
            lemma_find_from(s@, feed@, start as int);
            lemma_find_in_rest(s@, feed@, start as int, 0);
        }
        match find_in(&chars, &feed, start) {
            Some(k) => {
                let end: usize = if k > start && chars[k - 1] == '\r' { k - 1 } else { k };
                out.push(string_of(&chars, start, end));
                proof {
                    let line = rest.take(k - start);
                    assert(line == s@.subrange(start as int, k as int));
                    assert(without_cr(line) == s@.subrange(start as int, end as int));
                    assert(rest.skip(k - start + 1) == s@.skip(k + 1));
                    assert(texts(out@) == before.push(without_cr(line)));
                    let tail = lines(s@.skip(k + 1));
                    assert(before + (seq![without_cr(line)] + tail) == texts(out@) + tail);
                }
                start = k + 1;
            },
            None => {
                out.push(string_of(&chars, start, n));
                proof {
                    assert(rest == s@.subrange(start as int, n as int));
                    assert(texts(out@) == before + seq![rest]);
                    assert(s@.skip(n as int) == Seq::<char>::empty());
                    assert(lines(s@.skip(n as int)) == Seq::<Seq<char>>::empty());
                    assert(texts(out@) + lines(s@.skip(n as int)) == texts(out@));
                }
                start = n;
            },
        }
    }
    proof {
        assert(s@.skip(n as int) == Seq::<char>::empty());
        assert(texts(out@) + lines(s@.skip(n as int)) == texts(out@));
    }
    out
}

/// How a text is taken apart into lines: an empty one has none; one without a line feed
/// is its only line; else the first line is what stands before the first line feed,
/// without a carriage return at its end, and the rest is taken apart on.
#[verifier::rlimit(40)]
pub proof fn law_lines(a: Seq<char>, rest: Seq<char>)
    requires
        !a.contains('\n'),
    ensures
        lines(Seq::empty()).len() == 0,
        a.len() > 0 ==> lines(a) == seq![a],
        (a.len() == 0 || a.last() != '\r') ==> lines(a + seq!['\n'] + rest) == seq![a] + lines(
            rest,
        ),
        lines(a.push('\r') + seq!['\n'] + rest) == seq![a] + lines(rest),
{
    let feed = seq!['\n'];
    if contains(a, feed) {
        let i = choose|i: int| occurs_at(a, feed, i);
        assert(a.subrange(i, i + 1)[0] == '\n');
        assert(a[i] == '\n');
    }
    lemma_find_contains(a, feed);
    assert((a + feed).drop_last() == a);
    lemma_find_first(a, feed, rest);
    let s = a + feed + rest;
    assert(s.take(a.len() as int) == a);
    assert(s.skip((a.len() + 1) as int) == rest);
    let b = a.push('\r');
    if contains(b, feed) {
        let i = choose|i: int| occurs_at(b, feed, i);
        assert(b.subrange(i, i + 1)[0] == '\n');
        assert(b[i] == '\n');
        if i < a.len() {
            assert(a[i] == '\n');
        }
    }
    assert((b + feed).drop_last() == b);
    lemma_find_first(b, feed, rest);
    let s = b + feed + rest;
    assert(s.take(b.len() as int) == b);
    assert(s.skip((b.len() + 1) as int) == rest);
    assert(b.drop_last() == a);
}

// ---------------------------------------------------------------------------
// Replacing

/// `s` with each occurrence of `old`, taken from the left without overlap,
/// replaced by `new`. An empty `old` occurs before every character and at the
/// end.
pub open spec fn replace_all(s: Seq<char>, old: Seq<char>, new: Seq<char>) -> Seq<char>
    decreases s.len(),
{
    if old.len() == 0 {
        if s.len() == 0 {
            new
        } else {
            new.push(s[0]) + replace_all(s.skip(1), old, new)
        }
    } else if s.len() == 0 {
        s
    } else if starts_with(s, old) {
        new + replace_all(s.skip(old.len() as int), old, new)
    } else {
        seq![s[0]] + replace_all(s.skip(1), old, new)
    }
}

/// Replaces each occurrence of `old` in `s` by `new`.
pub fn str_replace(s: &str, old_part: &str, new_part: &str) -> (out: String)
    ensures
        out@ == replace_all(s@, old_part@, new_part@),
{
    let chars = chars_of(s);
    let wanted = chars_of(old_part);
    let n: usize = chars.len();
    let m: usize = wanted.len();
    let mut out = String::new();
    let mut i: usize = 0;
    assert(s@.skip(0) == s@);
    assert(out@ + replace_all(s@.skip(0), old_part@, new_part@) == replace_all(
        s@,
        old_part@,
        new_part@,
    ));
    while i < n
        invariant
            n == chars@.len(),
            m == wanted@.len(),
            chars@ == s@,
            wanted@ == old_part@,
            i <= n,
            out@ + replace_all(s@.skip(i as int), old_part@, new_part@) == replace_all(
                s@,
                old_part@,
                new_part@,
            ),
        decreases n - i,
    {
        let ghost rest = s@.skip(i as int);
        let ghost before = out@;
        proof {
            if i + m <= n {
                assert(rest.subrange(0, m as int) == s@.subrange(i as int, i + m));
            }
            assert(rest.skip(1) == s@.skip(i + 1));
        }
        if m > 0 && m <= n - i && stands_at(&chars, &wanted, i) {
            out.append(new_part);
            i = i + m;
            proof {
                assert(rest.skip(m as int) == s@.skip(i as int));
                let tail = replace_all(s@.skip(i as int), old_part@, new_part@);
                assert(before + (new_part@ + tail) == out@ + tail);
            }
        } else {
            if m == 0 {
                out.append(new_part);
            }
            out.push(chars[i]);
            i = i + 1;
            proof {
                let tail = replace_all(s@.skip(i as int), old_part@, new_part@);
                if m == 0 {
                    assert(before + (new_part@.push(rest[0]) + tail) == out@ + tail);
                } else {
                    assert(before + (seq![rest[0]] + tail) == out@ + tail);
                }
            }
        }
    }
    assert(s@.skip(n as int) == Seq::<char>::empty());
    if m == 0 {
        out.append(new_part);
    }
    out
}

/// Nothing is replaced in a text that does not hold the old part.
pub proof fn law_replace_absent(s: Seq<char>, old: Seq<char>, new: Seq<char>)
    requires
        !contains(s, old),
    ensures
        replace_all(s, old, new) == s,
    decreases s.len(),
{
    if old.len() == 0 {
        assert(s.subrange(0, 0) == old);
        assert(occurs_at(s, old, 0));
    } else if s.len() > 0 {
        assert(!occurs_at(s, old, 0));
        assert forall|i: int| !occurs_at(s.skip(1), old, i) by {
            if occurs_at(s.skip(1), old, i) {
                assert(s.skip(1).subrange(i, i + old.len()) == s.subrange(
                    i + 1,
                    i + 1 + old.len(),
                ));
                assert(occurs_at(s, old, i + 1));
            }
        }
        law_replace_absent(s.skip(1), old, new);
        assert(seq![s[0]] + s.skip(1) == s);
    }
}

/// Where the old part occurs, the new part stands in the result.
pub proof fn law_replace_present(s: Seq<char>, old: Seq<char>, new: Seq<char>)
    requires
        contains(s, old),
    ensures
        contains(replace_all(s, old, new), new),
    decreases s.len(),
{
    let out = replace_all(s, old, new);
    if old.len() == 0 {
        assert(out.subrange(0, new.len() as int) == new);
        assert(occurs_at(out, new, 0));
    } else {
        let k = choose|i: int| occurs_at(s, old, i);
        if starts_with(s, old) {
            assert(out.subrange(0, new.len() as int) == new);
            assert(occurs_at(out, new, 0));
        } else {
            assert(s.skip(1).subrange(k - 1, k - 1 + old.len()) == s.subrange(k, k + old.len()));
            assert(occurs_at(s.skip(1), old, k - 1));
            law_replace_present(s.skip(1), old, new);
            let tail = replace_all(s.skip(1), old, new);
            let j = choose|i: int| occurs_at(tail, new, i);
            assert(out.subrange(j + 1, j + 1 + new.len()) == tail.subrange(j, j + new.len()));
            assert(occurs_at(out, new, j + 1));
        }
    }
}

/// How a part is replaced: what stands before its first occurrence stays, the new part
/// takes its place, and what stands behind is gone through on.
#[verifier::rlimit(40)]
pub proof fn law_replace_first(
    a: Seq<char>,
    old_part: Seq<char>,
    new: Seq<char>,
    rest: Seq<char>,
)
    requires
        old_part.len() > 0,
        !contains((a + old_part).drop_last(), old_part),
    ensures
        replace_all(a + old_part + rest, old_part, new) == a + new + replace_all(
            rest,
            old_part,
            new,
        ),
    decreases a.len(),
{
    let s = a + old_part + rest;
    let tail = replace_all(rest, old_part, new);
    if a.len() == 0 {
        assert(a =~= Seq::<char>::empty());
        assert(s.subrange(0, old_part.len() as int) =~= old_part);
        assert(s.skip(old_part.len() as int) =~= rest);
        assert(a + new + tail =~= new + tail);
    } else {
        let b = a.skip(1);
        lemma_not_at_front(a, old_part, rest);
        law_replace_first(b, old_part, new, rest);
        assert(s.skip(1) =~= b + old_part + rest);
        assert(s[0] == a[0]);
        assert(seq![a[0]] + (b + new + tail) =~= a + new + tail);
    }
}

#[verifier::rlimit(40)]
proof fn lemma_not_at_front(a: Seq<char>, pat: Seq<char>, rest: Seq<char>)
    requires
        a.len() > 0,
        pat.len() > 0,
        !contains((a + pat).drop_last(), pat),
    ensures
        !starts_with(a + pat + rest, pat),
        !contains((a.skip(1) + pat).drop_last(), pat),
{
    let s = a + pat + rest;
    let front = (a + pat).drop_last();
    if starts_with(s, pat) {
        assert(front.subrange(0, pat.len() as int) =~= s.subrange(0, pat.len() as int));
        assert(occurs_at(front, pat, 0));
    }
    let shorter = (a.skip(1) + pat).drop_last();
    if contains(shorter, pat) {
        let i = choose|i: int| occurs_at(shorter, pat, i);
        assert(front.subrange(i + 1, i + 1 + pat.len()) =~= shorter.subrange(i, i + pat.len()));
        assert(occurs_at(front, pat, i + 1));
    }
}

/// Replacing a text by itself changes nothing.
pub proof fn law_replace_same(s: Seq<char>, old: Seq<char>)
    requires
        old.len() > 0,
    ensures
        replace_all(s, old, old) == s,
    decreases s.len(),
{
    if s.len() > 0 {
        if starts_with(s, old) {
            law_replace_same(s.skip(old.len() as int), old);
            assert(s == s.subrange(0, old.len() as int) + s.skip(old.len() as int));
        } else {
            law_replace_same(s.skip(1), old);
            assert(seq![s[0]] + s.skip(1) == s);
        }
    }
}

} // verus!
