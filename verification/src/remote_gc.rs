//! When garbage is collected on a remote builder.

use vstd::prelude::*;
use vstd::utf8::is_ascii_chars;

use crate::numbers::{decimal, decimal_u64, parse_u64, u64_value};
use crate::outside::{ascii_upper, to_upper, uppercased};
use crate::search::{ends_with, lines, lines_of, str_ends_with};
use crate::text::{chars_of, string_of, texts};
use crate::trim::{trim, trimmed, words, words_of};

verus! {

/// Bytes in a mebibyte.
pub const MEBI: u64 = 1_048_576;

/// Bytes in a gibibyte.
pub const GIBI: u64 = 1_073_741_824;

/// Bytes in a tebibyte.
pub const TEBI: u64 = 1_099_511_627_776;

// ---------------------------------------------------------------------------
// Sizes

/// A size in capitals taken apart: what stands before the unit, and the unit in
/// bytes.
pub open spec fn size_parts(text: Seq<char>) -> Option<(Seq<char>, u64)> {
    let n = text.len();
    if ends_with(text, "GB"@) {
        Some((text.take(n - 2), GIBI))
    } else if ends_with(text, "G"@) {
        Some((text.take(n - 1), GIBI))
    } else if ends_with(text, "TB"@) {
        Some((text.take(n - 2), TEBI))
    } else if ends_with(text, "T"@) {
        Some((text.take(n - 1), TEBI))
    } else if ends_with(text, "MB"@) {
        Some((text.take(n - 2), MEBI))
    } else if ends_with(text, "M"@) {
        Some((text.take(n - 1), MEBI))
    } else {
        None
    }
}

/// The number of bytes that a size in capitals stands for, where it is one.
pub open spec fn size_bytes(text: Seq<char>) -> Option<nat> {
    match size_parts(text) {
        Some((number, unit)) => match u64_value(number) {
            Some(n) => Some((n * unit) as nat),
            None => None,
        },
        None => None,
    }
}

/// Whether a size, where the text is one, can be told in 64 bits.
pub open spec fn size_fits(text: Seq<char>) -> bool {
    size_bytes(text) matches Some(n) ==> n <= u64::MAX
}

fn without_last(text: &str, n: usize) -> (out: String)
    requires
        n <= text@.len(),
    ensures
        out@ == text@.take(text@.len() - n),
{
    let chars = chars_of(text);
    let end: usize = chars.len() - n;
    assert(text@.subrange(0, end as int) == text@.take(end as int));
    string_of(&chars, 0, end)
}

fn split_size(text: &str) -> (out: Option<(String, u64)>)
    ensures
        match out {
            Some((number, unit)) => size_parts(text@) == Some((number@, unit)),
            None => size_parts(text@) is None,
        },
        out matches Some((_, unit)) ==> unit <= TEBI,
{
    proof {
        reveal_strlit("GB");
        reveal_strlit("G");
        reveal_strlit("TB");
        reveal_strlit("T");
        reveal_strlit("MB");
        reveal_strlit("M");
    }
    if str_ends_with(text, "GB") {
        Some((without_last(text, 2), GIBI))
    } else if str_ends_with(text, "G") {
        Some((without_last(text, 1), GIBI))
    } else if str_ends_with(text, "TB") {
        Some((without_last(text, 2), TEBI))
    } else if str_ends_with(text, "T") {
        Some((without_last(text, 1), TEBI))
    } else if str_ends_with(text, "MB") {
        Some((without_last(text, 2), MEBI))
    } else if str_ends_with(text, "M") {
        Some((without_last(text, 1), MEBI))
    } else {
        None
    }
}

/// A size as it was read.
#[derive(Clone, Copy, PartialEq, Eq, Structural, Debug)]
pub enum Size {
    /// So many bytes.
    Bytes(u64),
    /// More bytes than 64 bits can tell.
    TooLarge,
    /// No size.
    Malformed,
}

/// What a text in capitals is as a size.
pub open spec fn size_of_text(text: Seq<char>) -> Size {
    match size_bytes(text) {
        Some(n) => if n <= u64::MAX {
            Size::Bytes(n as u64)
        } else {
            Size::TooLarge
        },
        None => Size::Malformed,
    }
}

/// Reads a size written in capitals, such as `50G` or `100GB`.
pub fn read_size(text: &str) -> (size: Size)
    ensures
        size == size_of_text(text@),
{
    match split_size(text) {
        Some((number, unit)) => match parse_u64(number.as_str()) {
            Some(n) => {
                let product: u128 = wide_product(n, unit);
                if product <= u64::MAX as u128 {
                    Size::Bytes(product as u64)
                } else {
                    Size::TooLarge
                }
            },
            None => Size::Malformed,
        },
        None => Size::Malformed,
    }
}

fn wide_product(a: u64, b: u64) -> (product: u128)
    ensures
        product == a * b,
{
    assert(a * b <= u64::MAX * u64::MAX) by (nonlinear_arith)
        requires
            a <= u64::MAX,
            b <= u64::MAX,
    ;
    (a as u128) * (b as u128)
}

/// Reads a size, such as `50G`, `100GB` or `1T`, in capitals or not, as a number of
/// bytes. The number has to fit in 64 bits; `checked_size_threshold` does without.
pub fn parse_size_threshold(threshold: &str) -> (bytes: Option<u64>)
    requires
        size_fits(uppercased(trimmed(threshold@))),
    ensures
        match bytes {
            Some(n) => size_bytes(uppercased(trimmed(threshold@))) == Some(n as nat),
            None => size_bytes(uppercased(trimmed(threshold@))) is None,
        },
{
    match checked_size_threshold(threshold) {
        Size::Bytes(n) => Some(n),
        _ => None,
    }
}

/// Reads a size, and tells where it is too large.
pub fn checked_size_threshold(threshold: &str) -> (size: Size)
    ensures
        size == size_of_text(uppercased(trimmed(threshold@))),
        is_ascii_chars(trimmed(threshold@)) ==> size == size_of_text(
            trimmed(threshold@).map_values(|c: char| ascii_upper(c)),
        ),
{
    let text = to_upper(trim(threshold).as_str());
    read_size(text.as_str())
}

/// Reads a size where it fits in 64 bits.
pub fn size_threshold_if_fits(threshold: &str) -> (bytes: Option<Option<u64>>)
    ensures
        bytes is Some == size_fits(uppercased(trimmed(threshold@))),
        bytes matches Some(read) ==> match read {
            Some(n) => size_bytes(uppercased(trimmed(threshold@))) == Some(n as nat),
            None => size_bytes(uppercased(trimmed(threshold@))) is None,
        },
{
    match checked_size_threshold(threshold) {
        Size::TooLarge => None,
        _ => Some(parse_size_threshold(threshold)),
    }
}

/// The `B` behind a unit makes no difference.
pub proof fn law_unit_may_end_in_b(number: Seq<char>)
    ensures
        size_bytes(number + "GB"@) == size_bytes(number + "G"@),
        size_bytes(number + "TB"@) == size_bytes(number + "T"@),
        size_bytes(number + "MB"@) == size_bytes(number + "M"@),
{
    reveal_strlit("GB");
    reveal_strlit("G");
    reveal_strlit("TB");
    reveal_strlit("T");
    reveal_strlit("MB");
    reveal_strlit("M");
    let g = number + "G"@;
    let gb = number + "GB"@;
    let t = number + "T"@;
    let tb = number + "TB"@;
    let m = number + "M"@;
    let mb = number + "MB"@;
    let n = number.len() as int;
    assert(g[n] == 'G' && t[n] == 'T' && m[n] == 'M');
    assert(gb[n] == 'G' && tb[n] == 'T' && mb[n] == 'M');
    assert(gb[n + 1] == 'B' && tb[n + 1] == 'B' && mb[n + 1] == 'B');
    assert(g.take(n) == number && t.take(n) == number && m.take(n) == number);
    assert(gb.take(n) == number && tb.take(n) == number && mb.take(n) == number);
    lemma_last_chars(g);
    lemma_last_chars(gb);
    lemma_last_chars(t);
    lemma_last_chars(tb);
    lemma_last_chars(m);
    lemma_last_chars(mb);
}

/// Which unit a text ends in, by its last characters.
proof fn lemma_last_chars(text: Seq<char>)
    ensures
        ends_with(text, "G"@) == (text.len() >= 1 && text.last() == 'G'),
        ends_with(text, "T"@) == (text.len() >= 1 && text.last() == 'T'),
        ends_with(text, "M"@) == (text.len() >= 1 && text.last() == 'M'),
        ends_with(text, "GB"@) == (text.len() >= 2 && text.last() == 'B' && text[text.len() - 2]
            == 'G'),
        ends_with(text, "TB"@) == (text.len() >= 2 && text.last() == 'B' && text[text.len() - 2]
            == 'T'),
        ends_with(text, "MB"@) == (text.len() >= 2 && text.last() == 'B' && text[text.len() - 2]
            == 'M'),
{
    reveal_strlit("GB");
    reveal_strlit("G");
    reveal_strlit("TB");
    reveal_strlit("T");
    reveal_strlit("MB");
    reveal_strlit("M");
    lemma_ends_in_one(text, "G"@);
    lemma_ends_in_one(text, "T"@);
    lemma_ends_in_one(text, "M"@);
    lemma_ends_in_two(text, "GB"@);
    lemma_ends_in_two(text, "TB"@);
    lemma_ends_in_two(text, "MB"@);
}

proof fn lemma_ends_in_one(text: Seq<char>, end: Seq<char>)
    requires
        end.len() == 1,
    ensures
        ends_with(text, end) == (text.len() >= 1 && text.last() == end[0]),
{
    let n = text.len() as int;
    if n >= 1 {
        let tail = text.subrange(n - 1, n);
        assert(tail[0] == text.last());
        if text.last() == end[0] {
            assert(tail == end);
        }
    }
}

proof fn lemma_ends_in_two(text: Seq<char>, end: Seq<char>)
    requires
        end.len() == 2,
    ensures
        ends_with(text, end) == (text.len() >= 2 && text[text.len() - 2] == end[0]
            && text.last() == end[1]),
{
    let n = text.len() as int;
    if n >= 2 {
        let tail = text.subrange(n - 2, n);
        assert(tail[0] == text[n - 2]);
        assert(tail[1] == text.last());
        if text[n - 2] == end[0] && text.last() == end[1] {
            assert(tail == end);
        }
    }
}

// ---------------------------------------------------------------------------
// Disk usage

/// Why the output of `df` could not be read.
#[derive(Debug)]
pub enum DfProblem {
    /// There is no line below the head.
    NoLine,
    /// The line has too few columns.
    ShortLine(String),
    /// The column is not a number.
    NotANumber(String),
}

/// The column of the used bytes in the output of `df -B1`.
pub open spec fn used_column(output: Seq<char>) -> Option<Seq<char>> {
    let all = lines(output);
    if all.len() < 2 || words(all[1]).len() < 3 {
        None
    } else {
        Some(words(all[1])[2])
    }
}

/// Whether the output of `df -B1` has a problem.
pub open spec fn has_problem(output: Seq<char>, problem: DfProblem) -> bool {
    match problem {
        DfProblem::NoLine => lines(output).len() < 2,
        DfProblem::ShortLine(line) => lines(output).len() >= 2 && line@ == lines(output)[1]
            && words(line@).len() < 3,
        DfProblem::NotANumber(column) => used_column(output) == Some(column@) && u64_value(
            column@,
        ) is None,
    }
}

/// Reads the number of used bytes from the output of `df -B1`: the third column of
/// the line below the head.
pub fn used_bytes(output: &str) -> (used: Result<u64, DfProblem>)
    ensures
        match used {
            Ok(n) => used_column(output@) matches Some(column) && u64_value(column) == Some(n),
            Err(problem) => has_problem(output@, problem),
        },
{
    let all = lines_of(output);
    assert(texts(all@).len() == all@.len());
    if all.len() < 2 {
        return Err(DfProblem::NoLine);
    }
    assert(texts(all@)[1] == all@[1]@);
    let columns = words_of(all[1].as_str());
    assert(texts(columns@).len() == columns@.len());
    if columns.len() < 3 {
        return Err(DfProblem::ShortLine(all[1].clone()));
    }
    assert(texts(columns@)[2] == columns@[2]@);
    match parse_u64(columns[2].as_str()) {
        Some(n) => Ok(n),
        None => Err(DfProblem::NotANumber(columns[2].clone())),
    }
}

/// Tells whether garbage is to be collected: more is used than the threshold.
pub fn gc_needed(used: u64, threshold: u64) -> (yes: bool)
    ensures
        yes == (used > threshold),
{
    used > threshold
}

/// The command that collects garbage.
pub open spec fn gc_command_text(keep_days: Option<u64>) -> Seq<char> {
    match keep_days {
        Some(days) => "nix-collect-garbage --delete-older-than "@ + decimal(days as nat) + "d"@,
        None => "nix-collect-garbage"@,
    }
}

/// Makes the command that collects garbage.
pub fn gc_command(keep_days: Option<u64>) -> (cmd: String)
    ensures
        cmd@ == gc_command_text(keep_days),
{
    match keep_days {
        Some(days) => "nix-collect-garbage --delete-older-than ".to_string()
            .concat(decimal_u64(days).as_str())
            .concat("d"),
        None => "nix-collect-garbage".to_string(),
    }
}

/// What happened last on the way to collecting garbage.
#[derive(Debug)]
pub enum GcEvent {
    /// The threshold that the builder was given, if any.
    Configured(Option<String>),
    /// The threshold in bytes, and what `df` said.
    Measured { threshold: u64, output: String },
}

/// What to do next.
#[derive(Debug)]
pub enum GcAction {
    /// No threshold: nothing to do.
    Nothing,
    /// The threshold is no size.
    BadThreshold,
    /// The threshold is more than 64 bits can tell.
    ThresholdTooLarge,
    /// Ask for the disk usage.
    Measure { threshold: u64 },
    /// What was said of the disk usage could not be read.
    BadUsage(DfProblem),
    /// Collect garbage; so much is used.
    Collect { used: u64 },
    /// There is room enough; so much is used.
    Enough { used: u64 },
}

/// Decides what to do next about garbage on a remote builder.
pub fn next_gc_action(event: GcEvent) -> (action: GcAction)
    ensures
        match event {
            GcEvent::Configured(None) => action is Nothing,
            GcEvent::Configured(Some(t)) => match size_of_text(uppercased(trimmed(t@))) {
                Size::Bytes(n) => action == (GcAction::Measure { threshold: n }),
                Size::TooLarge => action is ThresholdTooLarge,
                Size::Malformed => action is BadThreshold,
            },
            GcEvent::Measured { threshold, output } => match used_column(output@) {
                Some(column) => match u64_value(column) {
                    Some(n) => action == (if n > threshold {
                        GcAction::Collect { used: n }
                    } else {
                        GcAction::Enough { used: n }
                    }),
                    None => action matches GcAction::BadUsage(p) && has_problem(output@, p),
                },
                None => action matches GcAction::BadUsage(p) && has_problem(output@, p),
            },
        },
{
    match event {
        GcEvent::Configured(None) => GcAction::Nothing,
        GcEvent::Configured(Some(t)) => match checked_size_threshold(t.as_str()) {
            Size::Bytes(n) => GcAction::Measure { threshold: n },
            Size::TooLarge => GcAction::ThresholdTooLarge,
            Size::Malformed => GcAction::BadThreshold,
        },
        GcEvent::Measured { threshold, output } => match used_bytes(output.as_str()) {
            Ok(n) => {
                if gc_needed(n, threshold) {
                    GcAction::Collect { used: n }
                } else {
                    GcAction::Enough { used: n }
                }
            },
            Err(problem) => GcAction::BadUsage(problem),
        },
    }
}

// ---------------------------------------------------------------------------
// What holds of sizes

/// What a size stands for: a number before the unit is so many mebi-, gibi- or
/// tebibytes; what is no number is no size.
pub proof fn law_size_units(number: Seq<char>)
    ensures
        match u64_value(number) {
            Some(n) => {
                &&& size_bytes(number + "M"@) == Some((n * 1024 * 1024) as nat)
                &&& size_bytes(number + "G"@) == Some((n * 1024 * 1024 * 1024) as nat)
                &&& size_bytes(number + "T"@) == Some((n * 1024 * 1024 * 1024 * 1024) as nat)
            },
            None => {
                &&& size_bytes(number + "M"@) is None
                &&& size_bytes(number + "G"@) is None
                &&& size_bytes(number + "T"@) is None
            },
        },
{
    reveal_strlit("G");
    reveal_strlit("T");
    reveal_strlit("M");
    let n = number.len() as int;
    let g = number + "G"@;
    let t = number + "T"@;
    let m = number + "M"@;
    assert(g.last() == 'G' && t.last() == 'T' && m.last() == 'M');
    assert(g.take(n) =~= number && t.take(n) =~= number && m.take(n) =~= number);
    lemma_last_chars(g);
    lemma_last_chars(t);
    lemma_last_chars(m);
}

/// A text that ends in no unit is no size.
pub proof fn law_no_unit_no_size(text: Seq<char>)
    requires
        text.len() == 0 || (text.last() != 'G' && text.last() != 'T' && text.last() != 'M'
            && text.last() != 'B') || (text.last() == 'B' && (text.len() == 1 || (
        text[text.len() - 2] != 'G' && text[text.len() - 2] != 'T' && text[text.len() - 2]
            != 'M'))),
    ensures
        size_bytes(text) is None,
        size_of_text(text) == Size::Malformed,
{
    lemma_last_chars(text);
}

/// A size is told exactly where it is one and can be told in 64 bits.
pub proof fn law_size_is_told(text: Seq<char>)
    ensures
        size_bytes(text) is None <==> size_of_text(text) == Size::Malformed,
        size_bytes(text) matches Some(n) ==> (n <= u64::MAX ==> size_of_text(text) == Size::Bytes(
            n as u64,
        )),
        size_bytes(text) matches Some(n) ==> (n > u64::MAX ==> size_of_text(text)
            == Size::TooLarge),
        size_fits(text) <==> size_of_text(text) != Size::TooLarge,
{
}

/// The used bytes stand in the third column of the second line; where there is no such
/// line or column, they are not told. Of what can be wrong with an output, only what is
/// wrong with it is reported.
pub proof fn law_used_column(output: Seq<char>, problem: DfProblem)
    ensures
        lines(output).len() >= 2 && words(lines(output)[1]).len() >= 3 ==> used_column(output)
            == Some(words(lines(output)[1])[2]),
        lines(output).len() < 2 || words(lines(output)[1]).len() < 3 ==> used_column(output)
            is None,
        has_problem(output, problem) ==> {
            &&& problem is NoLine <==> lines(output).len() < 2
            &&& problem is ShortLine <==> lines(output).len() >= 2 && words(
                lines(output)[1],
            ).len() < 3
            &&& problem is NotANumber ==> (used_column(output) matches Some(c) && u64_value(c)
                is None)
            &&& !(used_column(output) matches Some(c) && u64_value(c) is Some)
        },
{
}

/// Builds are kept for as many days as asked for; without a number everything goes that
/// nothing uses.
pub proof fn law_gc_command(days: u64)
    ensures
        gc_command_text(None) == "nix-collect-garbage"@,
        gc_command_text(Some(days)) == gc_command_text(None) + (" --delete-older-than "@ + decimal(
            days as nat,
        ) + "d"@),
{
    reveal_strlit("nix-collect-garbage");
    reveal_strlit("nix-collect-garbage --delete-older-than ");
    reveal_strlit(" --delete-older-than ");
    assert("nix-collect-garbage --delete-older-than "@ =~= "nix-collect-garbage"@
        + " --delete-older-than "@);
    assert(gc_command_text(Some(days)) =~= gc_command_text(None) + (" --delete-older-than "@
        + decimal(days as nat) + "d"@));
}

} // verus!
