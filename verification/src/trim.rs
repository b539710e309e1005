//! White space and quotes around a text, words, and short prefixes.

use vstd::prelude::*;
use vstd::utf8::*;

use crate::text::{chars_of, string_of, texts};

verus! {

// ---------------------------------------------------------------------------
// Trimming

/// Whether a character is white space in the sense of Unicode's `White_Space`
/// property.
pub open spec fn is_space(c: char) -> bool {
    let n = c as u32;
    ||| 0x9 <= n <= 0xd
    ||| n == 0x20
    ||| n == 0x85
    ||| n == 0xa0
    ||| n == 0x1680
    ||| 0x2000 <= n <= 0x200a
    ||| n == 0x2028
    ||| n == 0x2029
    ||| n == 0x202f
    ||| n == 0x205f
    ||| n == 0x3000
}

/// Tells whether a character is white space.
pub fn is_space_char(c: char) -> (yes: bool)
    ensures
        yes == is_space(c),
{
    let n: u32 = c as u32;
    (0x9 <= n && n <= 0xd) || n == 0x20 || n == 0x85 || n == 0xa0 || n == 0x1680 || (0x2000 <= n
        && n <= 0x200a) || n == 0x2028 || n == 0x2029 || n == 0x202f || n == 0x205f || n == 0x3000
}

/// What can be taken off the ends of a text.
#[derive(Clone, Copy)]
pub enum Fringe {
    /// White space.
    Space,
    /// Double quotes.
    Quote,
}

/// Whether a character belongs to a fringe.
pub open spec fn in_fringe(f: Fringe, c: char) -> bool {
    match f {
        Fringe::Space => is_space(c),
        Fringe::Quote => c == '"',
    }
}

fn is_fringe_char(f: Fringe, c: char) -> (yes: bool)
    ensures
        yes == in_fringe(f, c),
{
    match f {
        Fringe::Space => is_space_char(c),
        Fringe::Quote => c == '"',
    }
}

/// `s` without the fringe at its front.
pub open spec fn strip_front(s: Seq<char>, f: Fringe) -> Seq<char>
    decreases s.len(),
{
    if s.len() > 0 && in_fringe(f, s[0]) {
        strip_front(s.skip(1), f)
    } else {
        s
    }
}

/// `s` without the fringe at its back.
pub open spec fn strip_back(s: Seq<char>, f: Fringe) -> Seq<char>
    decreases s.len(),
{
    if s.len() > 0 && in_fringe(f, s.last()) {
        strip_back(s.drop_last(), f)
    } else {
        s
    }
}

/// A text without the white space around it.
pub open spec fn trimmed(s: Seq<char>) -> Seq<char> {
    strip_back(strip_front(s, Fringe::Space), Fringe::Space)
}

/// A text without the white space at its end.
pub open spec fn trimmed_end(s: Seq<char>) -> Seq<char> {
    strip_back(s, Fringe::Space)
}

/// A text without the double quotes around it.
pub open spec fn unquoted(s: Seq<char>) -> Seq<char> {
    strip_back(strip_front(s, Fringe::Quote), Fringe::Quote)
}

/// Whether a text holds nothing but white space.
pub open spec fn is_blank(s: Seq<char>) -> bool {
    trimmed(s).len() == 0
}

fn strip(s: &str, f: Fringe, front: bool) -> (out: String)
    ensures
        out@ == strip_back(if front { strip_front(s@, f) } else { s@ }, f),
{
    let chars = chars_of(s);
    let n: usize = chars.len();
    let mut from: usize = 0;
    assert(s@.skip(0) == s@);
    if front {
        while from < n && is_fringe_char(f, chars[from])
            invariant
                n == chars@.len(),
                chars@ == s@,
                from <= n,
                strip_front(s@, f) == strip_front(s@.skip(from as int), f),
            ensures
                from <= n,
                strip_front(s@, f) == s@.skip(from as int),
            decreases n - from,
        {
            assert(s@.skip(from as int).skip(1) == s@.skip(from + 1));
            from = from + 1;
        }
    }
    let ghost body = s@.skip(from as int);
    let mut to: usize = n;
    assert(s@.subrange(from as int, n as int) == body);
    while to > from && is_fringe_char(f, chars[to - 1])
        invariant
            n == chars@.len(),
            chars@ == s@,
            from <= to <= n,
            strip_back(body, f) == strip_back(s@.subrange(from as int, to as int), f),
        ensures
            from <= to <= n,
            chars@ == s@,
            n == chars@.len(),
            strip_back(body, f) == s@.subrange(from as int, to as int),
        decreases to - from,
    {
        assert(s@.subrange(from as int, to as int).drop_last() == s@.subrange(
            from as int,
            to - 1,
        ));
        to = to - 1;
    }
    string_of(&chars, from, to)
}

/// Takes the white space off both ends of a string.
pub fn trim(s: &str) -> (out: String)
    ensures
        out@ == trimmed(s@),
{
    strip(s, Fringe::Space, true)
}

/// Takes the white space off the end of a string.
pub fn trim_end(s: &str) -> (out: String)
    ensures
        out@ == trimmed_end(s@),
{
    strip(s, Fringe::Space, false)
}

/// Takes the double quotes off both ends of a string.
pub fn unquote(s: &str) -> (out: String)
    ensures
        out@ == unquoted(s@),
{
    strip(s, Fringe::Quote, true)
}

/// Tells whether a string holds nothing but white space.
pub fn blank(s: &str) -> (yes: bool)
    ensures
        yes == is_blank(s@),
{
    trim(s).as_str().is_empty()
}

// ---------------------------------------------------------------------------
// Words

/// The place of the first white space at or after `i`, or the end.
pub open spec fn word_end(s: Seq<char>, i: int) -> int
    decreases s.len() - i,
{
    if i >= s.len() {
        s.len() as int
    } else if is_space(s[i]) {
        i
    } else {
        word_end(s, i + 1)
    }
}

/// `word_end` lies between the place asked about and the end.
pub proof fn lemma_word_end(s: Seq<char>, i: int)
    requires
        0 <= i <= s.len(),
    ensures
        i <= word_end(s, i) <= s.len(),
        i < s.len() && !is_space(s[i]) ==> i < word_end(s, i),
    decreases s.len() - i,
{
    if i < s.len() && !is_space(s[i]) {
        lemma_word_end(s, i + 1);
    }
}

/// The runs of characters between white space.
pub open spec fn words(s: Seq<char>) -> Seq<Seq<char>>
    decreases s.len(),
{
    if s.len() == 0 {
        Seq::empty()
    } else if is_space(s[0]) {
        words(s.skip(1))
    } else {
        proof {
            lemma_word_end(s, 0);
        }
        seq![s.take(word_end(s, 0))] + words(s.skip(word_end(s, 0)))
    }
}

/// Where a word ends does not depend on what stands before it.
proof fn lemma_word_end_in_rest(s: Seq<char>, d: int, i: int)
    requires
        0 <= d <= s.len(),
        0 <= i <= s.len() - d,
    ensures
        word_end(s.skip(d), i) == word_end(s, i + d) - d,
    decreases s.len() - i,
{
    if i + d < s.len() && !is_space(s[i + d]) {
        lemma_word_end_in_rest(s, d, i + 1);
    }
}

/// Takes a text apart into its words.
pub fn words_of(s: &str) -> (out: Vec<String>)
    ensures
        texts(out@) == words(s@),
{
    let chars = chars_of(s);
    let n: usize = chars.len();
    let mut out: Vec<String> = Vec::new();
    let mut i: usize = 0;
    assert(s@.skip(0) == s@);
    assert(texts(out@) + words(s@.skip(0)) == words(s@));
    while i < n
        invariant
            n == chars@.len(),
            chars@ == s@,
            i <= n,
            texts(out@) + words(s@.skip(i as int)) == words(s@),
        decreases n - i,
    {
        let ghost rest = s@.skip(i as int);
        if is_space_char(chars[i]) {
            assert(rest.skip(1) == s@.skip(i + 1));
            i = i + 1;
        } else {
            let start: usize = i;
            while i < n && !is_space_char(chars[i])
                invariant
                    n == chars@.len(),
                    chars@ == s@,
                    start <= i <= n,
                    word_end(s@, start as int) == word_end(s@, i as int),
                ensures
                    start <= i <= n,
                    i == word_end(s@, start as int),
                decreases n - i,
            {
                i = i + 1;
            }
            let ghost before = texts(out@);
            out.push(string_of(&chars, start, i));
            proof {
                lemma_word_end(s@, start as int);
                lemma_word_end_in_rest(s@, start as int, 0);
                let word = rest.take(i - start);
                assert(word == s@.subrange(start as int, i as int));
                assert(rest.skip(i - start) == s@.skip(i as int));
                assert(texts(out@) == before.push(word));
                let tail = words(s@.skip(i as int));
                assert(before + (seq![word] + tail) == texts(out@) + tail);
            }
        }
    }
    proof {
        assert(s@.skip(n as int) == Seq::<char>::empty());
        assert(texts(out@) + words(s@.skip(n as int)) == texts(out@));
    }
    out
}

// ---------------------------------------------------------------------------
// Prefixes

/// The first `n` characters of a text, or all of it where it is shorter.
pub open spec fn first_chars(s: Seq<char>, n: int) -> Seq<char> {
    if s.len() <= n {
        s
    } else {
        s.take(n)
    }
}

/// Takes the first `n` characters of a string.
pub fn take_chars(s: &str, n: usize) -> (out: String)
    ensures
        out@ == first_chars(s@, n as int),
{
    let chars = chars_of(s);
    let end: usize = if chars.len() <= n { chars.len() } else { n };
    assert(s@.subrange(0, end as int) == first_chars(s@, n as int));
    string_of(&chars, 0, end)
}

/// How many bytes of a text a prefix of at most `n` bytes holds.
pub open spec fn prefix_len(s: Seq<char>, n: int) -> int {
    if encode_utf8(s).len() < n {
        encode_utf8(s).len() as int
    } else {
        n
    }
}

/// Whether the first `n` bytes of a text end between two characters.
pub open spec fn cuts_cleanly(s: Seq<char>, n: int) -> bool {
    is_char_boundary(encode_utf8(s), prefix_len(s, n))
}

/// The characters in the first `n` bytes of a text, or all of it where it is
/// shorter.
pub open spec fn byte_prefix(s: Seq<char>, n: int) -> Seq<char> {
    decode_utf8(encode_utf8(s).subrange(0, prefix_len(s, n)))
}

/// Takes the first `n` bytes of a string.
pub fn take_bytes(s: &str, n: usize) -> (out: String)
    requires
        cuts_cleanly(s@, n as int),
    ensures
        out@ == byte_prefix(s@, n as int),
{
    let len: usize = s.as_bytes().len();
    let end: usize = if len < n { len } else { n };
    let (head, _tail) = s.split_at(end);
    proof {
        encode_utf8_decode_utf8(head@);
    }
    head.to_string()
}

/// In a text of ASCII characters a byte is a character.
pub proof fn law_ascii_prefix(s: Seq<char>, n: int)
    requires
        is_ascii_chars(s),
        0 <= n,
    ensures
        cuts_cleanly(s, n),
        byte_prefix(s, n) == first_chars(s, n),
{
    let bytes = encode_utf8(s);
    is_ascii_chars_encode_utf8(s);
    let k = prefix_len(s, n);
    let head = s.take(k);
    assert(is_ascii_chars(head));
    is_ascii_chars_encode_utf8(head);
    assert(encode_utf8(head) == bytes.subrange(0, k)) by {
        assert forall|i: int| 0 <= i < k implies encode_utf8(head)[i] == bytes.subrange(0, k)[i] by {
            assert(head[i] as u8 == encode_utf8(head)[i]);
            assert(s[i] as u8 == bytes[i]);
        }
    }
    encode_utf8_decode_utf8(head);
    lemma_ascii_boundary(s, k);
}

proof fn lemma_ascii_boundary(s: Seq<char>, k: int)
    requires
        is_ascii_chars(s),
        0 <= k <= s.len(),
    ensures
        is_char_boundary(encode_utf8(s), k),
    decreases k,
{
    encode_utf8_valid_utf8(s);
    if k > 0 {
        is_ascii_chars_encode_utf8(s);
        encode_utf8_first_scalar(s);
        let rest = s.drop_first();
        assert(is_ascii_chars(rest));
        lemma_ascii_boundary(rest, k - 1);
        is_ascii_chars_encode_utf8(s.take(1));
        assert(s[0] == s.take(1)[0]);
        assert(encode_scalar(s[0] as u32).len() == 1);
        assert(pop_first_scalar(encode_utf8(s)) == encode_utf8(rest));
    }
}

// ---------------------------------------------------------------------------
// Names of files

/// A text with one character put in the place of another.
pub open spec fn with_char(s: Seq<char>, old: char, new: char) -> Seq<char> {
    s.map_values(|c: char| if c == old { new } else { c })
}

/// Puts `new` in the place of each `old` character.
pub fn swap_char(s: &str, old_char: char, new_char: char) -> (out: String)
    ensures
        out@ == with_char(s@, old_char, new_char),
{
    let chars = chars_of(s);
    let n: usize = chars.len();
    let mut out = String::new();
    for i in 0..n
        invariant
            n == chars@.len(),
            chars@ == s@,
            out@ == with_char(s@, old_char, new_char).take(i as int),
    {
        let c = if chars[i] == old_char { new_char } else { chars[i] };
        out.push(c);
        assert(with_char(s@, old_char, new_char).take(i as int).push(c) == with_char(
            s@,
            old_char,
            new_char,
        ).take(i + 1));
    }
    assert(with_char(s@, old_char, new_char).take(n as int) == with_char(s@, old_char, new_char));
    out
}

/// An attribute path as part of a file name: dots and slashes are underscores.
pub open spec fn attr_safe(attr: Seq<char>) -> Seq<char> {
    with_char(with_char(attr, '.', '_'), '/', '_')
}

/// Turns an attribute path into part of a file name.
pub fn attr_safe_name(attr: &str) -> (out: String)
    ensures
        out@ == attr_safe(attr@),
{
    let dotless = swap_char(attr, '.', '_');
    swap_char(dotless.as_str(), '/', '_')
}

/// A name made from an attribute path is one path component, and no shorter or
/// longer than the attribute path.
pub proof fn law_attr_safe_is_one_component(attr: Seq<char>)
    ensures
        attr_safe(attr).len() == attr.len(),
        !attr_safe(attr).contains('.'),
        !attr_safe(attr).contains('/'),
{
}

/// Making a name safe a second time changes nothing.
pub proof fn law_attr_safe_idempotent(attr: Seq<char>)
    ensures
        attr_safe(attr_safe(attr)) == attr_safe(attr),
{
}

/// Trimming leaves no white space at either end.
pub proof fn law_trimmed_ends(s: Seq<char>)
    ensures
        trimmed(s).len() > 0 ==> !is_space(trimmed(s)[0]) && !is_space(trimmed(s).last()),
{
    lemma_strip_front_start(s, Fringe::Space);
    let t = strip_front(s, Fringe::Space);
    lemma_strip_back_end(t, Fringe::Space);
}

proof fn lemma_strip_front_start(s: Seq<char>, f: Fringe)
    ensures
        strip_front(s, f).len() > 0 ==> !in_fringe(f, strip_front(s, f)[0]),
    decreases s.len(),
{
    if s.len() > 0 && in_fringe(f, s[0]) {
        lemma_strip_front_start(s.skip(1), f);
    }
}

proof fn lemma_strip_back_end(s: Seq<char>, f: Fringe)
    ensures
        strip_back(s, f).len() <= s.len(),
        strip_back(s, f) == s.take(strip_back(s, f).len() as int),
        strip_back(s, f).len() > 0 ==> !in_fringe(f, strip_back(s, f).last()),
    decreases s.len(),
{
    if s.len() > 0 && in_fringe(f, s.last()) {
        lemma_strip_back_end(s.drop_last(), f);
        let k = strip_back(s, f).len() as int;
        assert(s.drop_last().take(k) == s.take(k));
    } else {
        assert(s.take(s.len() as int) == s);
    }
}

/// Trimming a trimmed text changes nothing.
pub proof fn law_trimmed_idempotent(s: Seq<char>)
    ensures
        trimmed(trimmed(s)) == trimmed(s),
{
    law_trimmed_ends(s);
}

proof fn lemma_strip_front_rest(s: Seq<char>, f: Fringe)
    ensures
        strip_front(s, f).len() <= s.len(),
        strip_front(s, f) == s.skip(s.len() - strip_front(s, f).len()),
        forall|k: int|
            0 <= k < s.len() - strip_front(s, f).len() ==> in_fringe(f, #[trigger] s[k]),
    decreases s.len(),
{
    if s.len() > 0 && in_fringe(f, s[0]) {
        lemma_strip_front_rest(s.skip(1), f);
        let n = strip_front(s, f).len();
        assert(s.skip(1).skip(s.len() - 1 - n) == s.skip(s.len() - n));
        assert forall|k: int| 0 <= k < s.len() - n implies in_fringe(f, #[trigger] s[k]) by {
            if k > 0 {
                assert(s.skip(1)[k - 1] == s[k]);
            }
        }
    } else {
        assert(s.skip(0) == s);
    }
}

proof fn lemma_strip_back_rest(s: Seq<char>, f: Fringe)
    ensures
        strip_back(s, f).len() <= s.len(),
        forall|k: int|
            strip_back(s, f).len() <= k < s.len() ==> in_fringe(f, #[trigger] s[k]),
    decreases s.len(),
{
    if s.len() > 0 && in_fringe(f, s.last()) {
        lemma_strip_back_rest(s.drop_last(), f);
        assert forall|k: int| strip_back(s, f).len() <= k < s.len() implies in_fringe(
            f,
            #[trigger] s[k],
        ) by {
            if k < s.len() - 1 {
                assert(s.drop_last()[k] == s[k]);
            }
        }
    }
}

/// Trimming takes white space away and nothing else: a text is white space, what is left
/// of it, and white space; with the end alone trimmed, nothing is taken from its front.
pub proof fn law_trim_takes_only_space(s: Seq<char>)
    ensures
        exists|a: Seq<char>, b: Seq<char>|
            s == #[trigger] (a + trimmed(s) + b) && (forall|k: int|
                0 <= k < a.len() ==> is_space(#[trigger] a[k])) && (forall|k: int|
                0 <= k < b.len() ==> is_space(#[trigger] b[k])),
        exists|b: Seq<char>|
            s == #[trigger] (trimmed_end(s) + b) && (forall|k: int|
                0 <= k < b.len() ==> is_space(#[trigger] b[k])),
        trimmed_end(s).len() > 0 ==> !is_space(trimmed_end(s).last()),
{
    let mid = strip_front(s, Fringe::Space);
    lemma_strip_front_rest(s, Fringe::Space);
    lemma_strip_back_end(mid, Fringe::Space);
    lemma_strip_back_rest(mid, Fringe::Space);
    let n = s.len() - mid.len();
    let a = s.take(n);
    let b = mid.skip(trimmed(s).len() as int);
    assert(s == a + trimmed(s) + b);
    assert forall|k: int| 0 <= k < a.len() implies is_space(#[trigger] a[k]) by {
        assert(in_fringe(Fringe::Space, s[k]));
    }
    assert forall|k: int| 0 <= k < b.len() implies is_space(#[trigger] b[k]) by {
        assert(in_fringe(Fringe::Space, mid[trimmed(s).len() + k]));
    }
    lemma_strip_back_end(s, Fringe::Space);
    lemma_strip_back_rest(s, Fringe::Space);
    let c = s.skip(trimmed_end(s).len() as int);
    assert(s == trimmed_end(s) + c);
    assert forall|k: int| 0 <= k < c.len() implies is_space(#[trigger] c[k]) by {
        assert(in_fringe(Fringe::Space, s[trimmed_end(s).len() + k]));
    }
}

/// What stands before a character that is no white space stays where the end is trimmed.
pub proof fn law_trim_end_keeps(s: Seq<char>, n: int)
    requires
        0 <= n < s.len(),
        !is_space(s[n]),
    ensures
        trimmed_end(s).len() > n,
        forall|k: int| 0 <= k <= n ==> #[trigger] trimmed_end(s)[k] == s[k],
{
    lemma_strip_back_end(s, Fringe::Space);
    lemma_strip_back_rest(s, Fringe::Space);
    if trimmed_end(s).len() <= n {
        assert(in_fringe(Fringe::Space, s[n]));
    }
}

/// A text is blank exactly where every character of it is white space.
pub proof fn law_blank_is_all_space(s: Seq<char>)
    ensures
        is_blank(s) <==> forall|k: int| 0 <= k < s.len() ==> is_space(#[trigger] s[k]),
{
    let mid = strip_front(s, Fringe::Space);
    lemma_strip_front_rest(s, Fringe::Space);
    lemma_strip_front_start(s, Fringe::Space);
    lemma_strip_back_end(mid, Fringe::Space);
    lemma_strip_back_rest(mid, Fringe::Space);
    let n = s.len() - mid.len();
    if is_blank(s) {
        assert forall|k: int| 0 <= k < s.len() implies is_space(#[trigger] s[k]) by {
            if k < n {
                assert(in_fringe(Fringe::Space, s[k]));
            } else {
                assert(mid[k - n] == s[k]);
                assert(in_fringe(Fringe::Space, mid[k - n]));
            }
        }
    } else {
        assert(mid.len() > 0);
        assert(mid[0] == s[n]);
        assert(!is_space(s[n]));
    }
}

/// Taking quotes away takes nothing but double quotes at both ends, and leaves none there.
pub proof fn law_unquote_takes_only_quotes(s: Seq<char>)
    ensures
        exists|a: Seq<char>, b: Seq<char>|
            s == #[trigger] (a + unquoted(s) + b) && (forall|k: int|
                0 <= k < a.len() ==> #[trigger] a[k] == '"') && (forall|k: int|
                0 <= k < b.len() ==> #[trigger] b[k] == '"'),
        unquoted(s).len() > 0 ==> unquoted(s)[0] != '"' && unquoted(s).last() != '"',
{
    let mid = strip_front(s, Fringe::Quote);
    lemma_strip_front_rest(s, Fringe::Quote);
    lemma_strip_front_start(s, Fringe::Quote);
    lemma_strip_back_end(mid, Fringe::Quote);
    lemma_strip_back_rest(mid, Fringe::Quote);
    let n = s.len() - mid.len();
    let a = s.take(n);
    let b = mid.skip(unquoted(s).len() as int);
    assert(s == a + unquoted(s) + b);
    assert forall|k: int| 0 <= k < a.len() implies #[trigger] a[k] == '"' by {
        assert(in_fringe(Fringe::Quote, s[k]));
    }
    assert forall|k: int| 0 <= k < b.len() implies #[trigger] b[k] == '"' by {
        assert(in_fringe(Fringe::Quote, mid[unquoted(s).len() + k]));
    }
}

/// Each character of a name made from an attribute path is that of the path, but for dots
/// and slashes, which are underscores.
pub proof fn law_attr_safe_by_character(attr: Seq<char>, k: int)
    requires
        0 <= k < attr.len(),
    ensures
        attr[k] == '.' || attr[k] == '/' ==> attr_safe(attr)[k] == '_',
        attr[k] != '.' && attr[k] != '/' ==> attr_safe(attr)[k] == attr[k],
{
}

proof fn lemma_word_end_at(s: Seq<char>, i: int, n: int)
    requires
        0 <= i <= n <= s.len(),
        forall|k: int| i <= k < n ==> !is_space(#[trigger] s[k]),
        n == s.len() || is_space(s[n]),
    ensures
        word_end(s, i) == n,
    decreases n - i,
{
    if i < n {
        lemma_word_end_at(s, i + 1, n);
    }
}

/// How a text is taken apart into words: an empty one has none; white space at its front
/// makes no difference; and what stands before the first white space, or all of it, is
/// the first word.
#[verifier::rlimit(40)]
pub proof fn law_words(a: Seq<char>, c: char, rest: Seq<char>)
    requires
        forall|k: int| 0 <= k < a.len() ==> !is_space(#[trigger] a[k]),
        is_space(c),
    ensures
        words(Seq::empty()).len() == 0,
        words(seq![c] + rest) == words(rest),
        a.len() > 0 ==> words(a) == seq![a],
        a.len() > 0 ==> words(a + seq![c] + rest) == seq![a] + words(rest),
{
    let led = seq![c] + rest;
    assert(led[0] == c);
    assert(led.skip(1) =~= rest);
    if a.len() > 0 {
        let n = a.len() as int;
        assert(!is_space(a[0]));
        lemma_word_end_at(a, 0, n);
        assert(a.take(n) =~= a);
        assert(a.skip(n) =~= Seq::<char>::empty());
        assert(words(a.skip(n)) =~= Seq::<Seq<char>>::empty());
        assert(seq![a] + Seq::<Seq<char>>::empty() =~= seq![a]);
        let s = a + seq![c] + rest;
        assert forall|k: int| 0 <= k < n implies !is_space(#[trigger] s[k]) by {
            assert(s[k] == a[k]);
        }
        assert(s[n] == c);
        lemma_word_end_at(s, 0, n);
        assert(s.take(n) =~= a);
        assert(s.skip(n) =~= led);
        assert(words(led) == words(rest));
        assert(!is_space(s[0]));
        assert(words(s) == seq![s.take(n)] + words(s.skip(n)));
    }
}

/// A short text is taken whole, of a long one as many characters from the front as are
/// asked for.
pub proof fn law_first_chars(s: Seq<char>, n: int)
    requires
        0 <= n,
    ensures
        s.len() <= n ==> first_chars(s, n) == s,
        s.len() > n ==> first_chars(s, n).len() == n && first_chars(s, n) + s.skip(n) == s,
{
    if s.len() > n {
        assert(s.take(n) + s.skip(n) =~= s);
    }
}

/// Of the ASCII characters the blank and the five from the tab to the carriage return are
/// white space, and no other.
pub proof fn law_ascii_space(c: char)
    requires
        (c as u32) < 128,
    ensures
        is_space(c) <==> c == ' ' || 9 <= c as u32 <= 13,
{
}

} // verus!
