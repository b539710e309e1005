//! Text as sequences of characters: the handful of string operations that the
//! rest of the library is written with, each with its meaning.

use vstd::prelude::*;

verus! {

// ---------------------------------------------------------------------------
// Characters and lists of strings

/// The texts of a list of strings.
pub open spec fn texts(list: Seq<String>) -> Seq<Seq<char>> {
    list.map_values(|s: String| s@)
}

/// The text of an optional string.
pub open spec fn opt_text(s: Option<String>) -> Option<Seq<char>> {
    match s {
        Some(t) => Some(t@),
        None => None,
    }
}

/// The text of an optional string slice.
pub open spec fn opt_str(s: Option<&str>) -> Option<Seq<char>> {
    match s {
        Some(t) => Some(t@),
        None => None,
    }
}

/// The characters of a string.
pub fn chars_of(s: &str) -> (out: Vec<char>)
    ensures
        out@ == s@,
{
    let mut out: Vec<char> = Vec::new();
    for c in it: s.chars()
        invariant
            it.seq() == s@,
            out@ == s@.take(it.index() as int),
    {
        out.push(c);
    }
    out
}

/// The string made of the characters `from..to` of a list.
pub fn string_of(chars: &Vec<char>, from: usize, to: usize) -> (out: String)
    requires
        from <= to <= chars@.len(),
    ensures
        out@ == chars@.subrange(from as int, to as int),
{
    let mut out = String::new();
    let mut i: usize = from;
    while i < to
        invariant
            from <= i <= to <= chars@.len(),
            out@ == chars@.subrange(from as int, i as int),
        decreases to - i,
    {
        out.push(chars[i]);
        i = i + 1;
    }
    out
}

/// Copies a list of strings.
pub fn copy_texts(list: &Vec<String>) -> (out: Vec<String>)
    ensures
        texts(out@) == texts(list@),
{
    let mut out: Vec<String> = Vec::new();
    let n: usize = list.len();
    for i in 0..n
        invariant
            n == list@.len(),
            texts(out@) == texts(list@).take(i as int),
    {
        out.push(list[i].clone());
        assert(texts(list@).take(i as int).push(list@[i as int]@) == texts(list@).take(i + 1));
        assert(out@.last()@ == list@[i as int]@);
    }
    out
}

/// Copies an optional string.
pub fn copy_opt(s: &Option<String>) -> (out: Option<String>)
    ensures
        opt_text(out) == opt_text(*s),
{
    match s {
        Some(t) => Some(t.clone()),
        None => None,
    }
}

/// Tells whether two strings hold the same characters.
pub fn same_text(a: &str, b: &str) -> (same: bool)
    ensures
        same == (a@ == b@),
{
    a.eq(b)
}

/// Whether a list of strings holds a text.
pub open spec fn has_text(list: Seq<String>, s: Seq<char>) -> bool {
    texts(list).contains(s)
}

/// Tells whether a list of strings holds `s`.
pub fn list_contains(list: &Vec<String>, s: &str) -> (found: bool)
    ensures
        found == has_text(list@, s@),
{
    let n: usize = list.len();
    for i in 0..n
        invariant
            n == list@.len(),
            forall|j: int| 0 <= j < i ==> texts(list@)[j] != s@,
    {
        if same_text(list[i].as_str(), s) {
            assert(texts(list@)[i as int] == s@);
            return true;
        }
    }
    false
}

/// Puts a string at the end of a list.
pub fn push_text(list: &mut Vec<String>, s: &str)
    ensures
        texts(final(list)@) == texts(old(list)@).push(s@),
{
    let ghost before = list@;
    list.push(s.to_string());
    assert(texts(list@) == texts(before).push(s@));
}

/// An empty list of strings.
pub fn no_texts() -> (list: Vec<String>)
    ensures
        texts(list@) == Seq::<Seq<char>>::empty(),
{
    let list: Vec<String> = Vec::new();
    assert(texts(list@) == Seq::<Seq<char>>::empty());
    list
}

// ---------------------------------------------------------------------------
// Joining

/// The parts in order, with `sep` between neighbours.
pub open spec fn join(parts: Seq<Seq<char>>, sep: Seq<char>) -> Seq<char>
    decreases parts.len(),
{
    if parts.len() == 0 {
        Seq::empty()
    } else if parts.len() == 1 {
        parts.first()
    } else {
        join(parts.drop_last(), sep) + sep + parts.last()
    }
}

/// Joins the strings `from..` of a list with `sep` between neighbours.
pub fn join_from(parts: &Vec<String>, from: usize, sep: &str) -> (out: String)
    requires
        from <= parts@.len(),
    ensures
        out@ == join(texts(parts@).skip(from as int), sep@),
{
    let n: usize = parts.len();
    let mut out = String::new();
    let ghost all = texts(parts@).skip(from as int);
    let mut i: usize = from;
    while i < n
        invariant
            n == parts@.len(),
            from <= i <= n,
            all == texts(parts@).skip(from as int),
            out@ == join(all.take(i - from), sep@),
        decreases n - i,
    {
        proof {
            assert(all.take(i + 1 - from).drop_last() == all.take(i - from));
            assert(all.take(i + 1 - from).last() == parts@[i as int]@);
        }
        if i > from {
            out.append(sep);
            out.append(parts[i].as_str());
        } else {
            out.append(parts[i].as_str());
            assert(all.take(1).first() == parts@[i as int]@);
            assert(out@ == parts@[i as int]@);
        }
        i = i + 1;
    }
    assert(all.take(n - from) == all);
    out
}

/// Joins a list of strings with `sep` between neighbours.
pub fn join_all(parts: &Vec<String>, sep: &str) -> (out: String)
    ensures
        out@ == join(texts(parts@), sep@),
{
    assert(texts(parts@).skip(0) == texts(parts@));
    join_from(parts, 0, sep)
}

// ---------------------------------------------------------------------------
// Laws

/// A list says its texts, one for one, and holds a text exactly where one of its strings
/// is that text; a string that is missing says nothing.
pub proof fn law_texts(list: Seq<String>, some: String, s: Seq<char>)
    ensures
        texts(list).len() == list.len(),
        forall|i: int| 0 <= i < list.len() ==> #[trigger] texts(list)[i] == list[i]@,
        has_text(list, s) <==> exists|i: int| 0 <= i < list.len() && (#[trigger] list[i])@ == s,
        opt_text(Some(some)) == Some(some@),
        opt_text(None) is None,
        opt_str(None) is None,
{
    if has_text(list, s) {
        let i = choose|i: int| 0 <= i < texts(list).len() && texts(list)[i] == s;
        assert(list[i]@ == s);
    }
    if exists|i: int| 0 <= i < list.len() && (#[trigger] list[i])@ == s {
        let i = choose|i: int| 0 <= i < list.len() && (#[trigger] list[i])@ == s;
        assert(texts(list)[i] == s);
    }
}

/// Joining nothing gives nothing, joining one part gives that part, and each further part
/// stands behind the others and a separator.
pub proof fn law_join(parts: Seq<Seq<char>>, part: Seq<char>, sep: Seq<char>)
    ensures
        join(Seq::empty(), sep).len() == 0,
        join(seq![part], sep) == part,
        parts.len() > 0 ==> join(parts.push(part), sep) == join(parts, sep) + sep + part,
{
    assert(parts.push(part).drop_last() =~= parts);
    assert(seq![part].first() == part);
}

} // verus!
