//! Deleting paths from the store: trying again, skipping paths, and waiting.

use vstd::prelude::*;

use crate::numbers::{decimal, decimal_usize, parse_u64, u64_value};
use crate::search::{
    contains, find, find_from, find_in, lemma_find_from, occurs_at, str_contains,
};
use crate::text::{chars_of, copy_texts, opt_str, opt_text, same_text, string_of, texts};
use crate::trim::{trim, trimmed};

verus! {

// ---------------------------------------------------------------------------
// What the output tells

/// Whether a line tells that a path is being deleted.
pub open spec fn tells_start(line: Seq<char>) -> bool {
    contains(line, "deleting '"@)
}

/// Whether a line tells that a path cannot be deleted.
pub open spec fn tells_failure(line: Seq<char>) -> bool {
    contains(line, "error: cannot delete path '"@) || contains(
        line,
        "error: Cannot delete path '"@,
    )
}

/// What stands between the first two single quotes of a line.
pub open spec fn between_quotes(line: Seq<char>) -> Option<Seq<char>> {
    match find(line, "'"@) {
        Some(start) => match find_from(line, "'"@, start + 1) {
            Some(end) => Some(line.subrange(start + 1, end)),
            None => None,
        },
        None => None,
    }
}

/// The path that a line tells cannot be deleted.
pub open spec fn failed_path(line: Seq<char>) -> Option<Seq<char>> {
    if tells_failure(line) {
        between_quotes(line)
    } else {
        None
    }
}

/// Tells whether a line tells that a path is being deleted.
pub fn line_tells_start(line: &str) -> (yes: bool)
    ensures
        yes == tells_start(line@),
{
    str_contains(line, "deleting '")
}

/// Reads the path that a line tells cannot be deleted.
pub fn failed_path_in_line(line: &str) -> (path: Option<String>)
    ensures
        opt_text(path) == failed_path(line@),
{
    if str_contains(line, "error: cannot delete path '") || str_contains(
        line,
        "error: Cannot delete path '",
    ) {
        proof {
            reveal_strlit("'");
        }
        let chars = chars_of(line);
        let quote = chars_of("'");
        let total: usize = chars.len();
        match find_in(&chars, &quote, 0) {
            Some(start) => {
                proof {
                    lemma_find_from(line@, "'"@, 0);
                    assert(start + 1 <= total);
                }
                match find_in(&chars, &quote, start + 1) {
                    Some(end) => {
                        proof {
                            lemma_find_from(line@, "'"@, start + 1);
                        }
                        Some(string_of(&chars, start + 1, end))
                    },
                    None => None,
                }
            },
            None => None,
        }
    } else {
        None
    }
}

/// The failed path after another line was read: the last one told counts.
pub open spec fn failed_after(before: Option<Seq<char>>, line: Seq<char>) -> Option<Seq<char>> {
    match failed_path(line) {
        Some(path) => Some(path),
        None => before,
    }
}

/// Reads another line for the failed path.
pub fn note_failed_path(before: Option<String>, line: &str) -> (after: Option<String>)
    ensures
        opt_text(after) == failed_after(opt_text(before), line@),
{
    match failed_path_in_line(line) {
        Some(path) => Some(path),
        None => before,
    }
}

// ---------------------------------------------------------------------------
// Waiting

/// How far a deletion is.
#[derive(Clone, Copy, PartialEq, Eq, Structural, Debug)]
pub enum Deletion {
    /// Nothing was deleted yet; there is no hurry.
    Waiting,
    /// A path is being deleted; from now on the time counts.
    Deleting,
    /// It is over; where the time ran out the process has to be killed.
    Over { success: bool, kill: bool },
}

/// What happened.
#[derive(Clone, Copy, PartialEq, Eq, Structural, Debug)]
pub enum DeletionEvent {
    /// The output told that a path is being deleted.
    Started,
    /// The process ended.
    Exited { success: bool },
    /// The time ran out.
    TimedOut,
}

/// How far a deletion is after an event. The time counts only once a path is being
/// deleted; running out of it counts as `timeout_succeeds` says.
pub open spec fn deletion_next(
    state: Deletion,
    event: DeletionEvent,
    timeout_succeeds: bool,
) -> Deletion {
    match (state, event) {
        (Deletion::Over { .. }, _) => state,
        (_, DeletionEvent::Exited { success }) => Deletion::Over { success, kill: false },
        (Deletion::Waiting, DeletionEvent::Started) => Deletion::Deleting,
        (Deletion::Deleting, DeletionEvent::TimedOut) => Deletion::Over {
            success: timeout_succeeds,
            kill: true,
        },
        _ => state,
    }
}

/// Takes an event of a deletion.
pub fn advance_deletion(state: Deletion, event: DeletionEvent, timeout_succeeds: bool) -> (after:
    Deletion)
    ensures
        after == deletion_next(state, event, timeout_succeeds),
{
    match state {
        Deletion::Over { .. } => state,
        Deletion::Waiting => match event {
            DeletionEvent::Exited { success } => Deletion::Over { success, kill: false },
            DeletionEvent::Started => Deletion::Deleting,
            DeletionEvent::TimedOut => state,
        },
        Deletion::Deleting => match event {
            DeletionEvent::Exited { success } => Deletion::Over { success, kill: false },
            DeletionEvent::Started => state,
            DeletionEvent::TimedOut => Deletion::Over { success: timeout_succeeds, kill: true },
        },
    }
}

/// A process that has not begun to delete is never killed.
pub proof fn law_no_kill_before_start(event: DeletionEvent, timeout_succeeds: bool)
    ensures
        deletion_next(Deletion::Waiting, event, timeout_succeeds) matches Deletion::Over {
            kill,
            ..
        } ==> !kill,
{
}

/// Once it is over nothing changes.
pub proof fn law_over_stays_over(
    success: bool,
    kill: bool,
    event: DeletionEvent,
    timeout_succeeds: bool,
)
    ensures
        deletion_next(Deletion::Over { success, kill }, event, timeout_succeeds) == (
        Deletion::Over { success, kill }),
{
}

/// What is reported where the process ended.
pub fn exit_message(success: bool, status: &str) -> (message: String)
    ensures
        message@ == (if success {
            "GC completed successfully"@
        } else {
            "GC exited with "@ + status@
        }),
{
    if success {
        "GC completed successfully".to_string()
    } else {
        "GC exited with ".to_string().concat(status)
    }
}

// ---------------------------------------------------------------------------
// The log

/// What the log tells of a list of paths.
pub open spec fn path_lines(paths: Seq<Seq<char>>) -> Seq<char>
    decreases paths.len(),
{
    if paths.len() == 0 {
        Seq::empty()
    } else {
        path_lines(paths.drop_last()) + "  "@ + paths.last() + "\n"@
    }
}

/// What stands at the head of the log.
pub fn log_head(paths: &Vec<String>) -> (out: String)
    ensures
        out@ == "=== Attempting to delete "@ + decimal(paths@.len()) + " store paths ===\n"@
            + path_lines(texts(paths@)) + "=== Starting nix-store --delete ===\n"@,
{
    let n: usize = paths.len();
    let ghost all = texts(paths@);
    let mut list = String::new();
    assert(all.take(0) == Seq::<Seq<char>>::empty());
    for i in 0..n
        invariant
            n == paths@.len(),
            all == texts(paths@),
            list@ == path_lines(all.take(i as int)),
    {
        proof {
            assert(all.take(i + 1).drop_last() == all.take(i as int));
            assert(all.take(i + 1).last() == paths@[i as int]@);
        }
        list.append("  ");
        list.append(paths[i].as_str());
        list.append("\n");
    }
    assert(all.take(n as int) == all);
    "=== Attempting to delete ".to_string()
        .concat(decimal_usize(n).as_str())
        .concat(" store paths ===\n")
        .concat(list.as_str())
        .concat("=== Starting nix-store --delete ===\n")
}

// ---------------------------------------------------------------------------
// Trying again

/// The seconds that a deletion is given at first.
pub const FIRST_TIMEOUT: u64 = 30;

/// The paths that are still to be deleted, and the seconds that a try is given.
#[derive(Debug)]
pub struct DeleteSession {
    pub paths: Vec<String>,
    pub timeout_secs: u64,
}

/// What came of an answer.
#[derive(Clone, Copy, PartialEq, Eq, Structural, Debug)]
pub enum AnswerOutcome {
    /// Nothing changed: try again.
    Retry,
    /// The failing path was taken off the list.
    Skipped,
    /// The failing path is not on the list.
    NotListed,
    /// No failing path is known.
    NoneKnown,
    /// The time was made longer.
    Longer,
    /// The time would be more seconds than 64 bits can tell; nothing changed.
    TooLong,
    /// The minutes have to be asked for.
    AskMinutes,
}

/// What came of the minutes that were given.
#[derive(Clone, Copy, PartialEq, Eq, Structural, Debug)]
pub enum MinutesOutcome {
    /// The time was set.
    Taken,
    /// They are no number; nothing changed.
    Invalid,
    /// The time would be more seconds than 64 bits can tell; nothing changed.
    TooLong,
}

/// The place of a text in a list, at or after place `from`.
pub open spec fn text_from(list: Seq<Seq<char>>, s: Seq<char>, from: int) -> Option<int>
    decreases list.len() - from,
{
    if from >= list.len() {
        None
    } else if list[from] == s {
        Some(from)
    } else {
        text_from(list, s, from + 1)
    }
}

/// What comes of an answer.
pub open spec fn answer_outcome(
    paths: Seq<Seq<char>>,
    timeout_secs: u64,
    answer: Seq<char>,
    failed: Option<Seq<char>>,
) -> AnswerOutcome {
    if answer == "s"@ {
        match failed {
            Some(path) => if text_from(paths, path, 0) is Some {
                AnswerOutcome::Skipped
            } else {
                AnswerOutcome::NotListed
            },
            None => AnswerOutcome::NoneKnown,
        }
    } else if answer == "t"@ {
        if timeout_secs + 30 <= u64::MAX {
            AnswerOutcome::Longer
        } else {
            AnswerOutcome::TooLong
        }
    } else if answer == "m"@ {
        AnswerOutcome::AskMinutes
    } else {
        AnswerOutcome::Retry
    }
}

fn find_text(list: &Vec<String>, s: &str) -> (place: Option<usize>)
    ensures
        match place {
            Some(i) => i < list@.len() && text_from(texts(list@), s@, 0) == Some(i as int),
            None => text_from(texts(list@), s@, 0) is None,
        },
{
    let n: usize = list.len();
    let ghost all = texts(list@);
    let mut i: usize = 0;
    while i < n
        invariant
            i <= n,
            n == list@.len(),
            all == texts(list@),
            text_from(all, s@, 0) == text_from(all, s@, i as int),
        decreases n - i,
    {
        assert(all[i as int] == list@[i as int]@);
        if same_text(list[i].as_str(), s) {
            return Some(i);
        }
        i = i + 1;
    }
    None
}

impl DeleteSession {
    /// Begins with all paths.
    pub fn new(paths: &Vec<String>) -> (session: Self)
        ensures
            texts(session.paths@) == texts(paths@),
            session.timeout_secs == FIRST_TIMEOUT,
    {
        DeleteSession { paths: copy_texts(paths), timeout_secs: FIRST_TIMEOUT }
    }

    /// Tells whether no path is left.
    pub fn is_done(&self) -> (yes: bool)
        ensures
            yes == (self.paths@.len() == 0),
    {
        self.paths.len() == 0
    }

    /// Takes the answer to a failed try: `s` skips the failing path, `t` gives half
    /// a minute more, `m` asks for minutes, and all else tries again.
    pub fn answer(&mut self, input: &str, failed: Option<&str>) -> (outcome: AnswerOutcome)
        ensures
            outcome == answer_outcome(
                texts(old(self).paths@),
                old(self).timeout_secs,
                trimmed(input@),
                opt_str(failed),
            ),
            outcome == AnswerOutcome::Skipped ==> texts(final(self).paths@) == texts(
                old(self).paths@,
            ).remove(text_from(texts(old(self).paths@), opt_str(failed)->0, 0)->0),
            outcome != AnswerOutcome::Skipped ==> final(self).paths@ == old(self).paths@,
            outcome == AnswerOutcome::Longer ==> final(self).timeout_secs == old(
                self,
            ).timeout_secs + 30,
            outcome != AnswerOutcome::Longer ==> final(self).timeout_secs == old(
                self,
            ).timeout_secs,
    {
        let answer = trim(input);
        if same_text(answer.as_str(), "s") {
            match failed {
                Some(path) => match find_text(&self.paths, path) {
                    Some(i) => {
                        let ghost before = texts(self.paths@);
                        self.paths.remove(i);
                        assert(texts(self.paths@) == before.remove(i as int));
                        AnswerOutcome::Skipped
                    },
                    None => AnswerOutcome::NotListed,
                },
                None => AnswerOutcome::NoneKnown,
            }
        } else if same_text(answer.as_str(), "t") {
            if self.timeout_secs <= u64::MAX - 30 {
                self.timeout_secs = self.timeout_secs + 30;
                AnswerOutcome::Longer
            } else {
                AnswerOutcome::TooLong
            }
        } else if same_text(answer.as_str(), "m") {
            AnswerOutcome::AskMinutes
        } else {
            AnswerOutcome::Retry
        }
    }

    /// Takes the minutes that were given.
    pub fn set_minutes(&mut self, input: &str) -> (outcome: MinutesOutcome)
        ensures
            final(self).paths@ == old(self).paths@,
            match u64_value(trimmed(input@)) {
                Some(minutes) => if minutes * 60 <= u64::MAX {
                    outcome == MinutesOutcome::Taken && final(self).timeout_secs == minutes * 60
                } else {
                    outcome == MinutesOutcome::TooLong && final(self).timeout_secs == old(
                        self,
                    ).timeout_secs
                },
                None => outcome == MinutesOutcome::Invalid && final(self).timeout_secs == old(
                    self,
                ).timeout_secs,
            },
    {
        match parse_u64(trim(input).as_str()) {
            Some(minutes) => {
                if minutes <= u64::MAX / 60 {
                    self.timeout_secs = minutes * 60;
                    MinutesOutcome::Taken
                } else {
                    MinutesOutcome::TooLong
                }
            },
            None => MinutesOutcome::Invalid,
        }
    }
}

/// Skipping takes one path off the list, one that failed, and no answer puts one on
/// it.
pub proof fn law_skip_takes_the_failed_path(
    paths: Seq<Seq<char>>,
    timeout_secs: u64,
    answer: Seq<char>,
    failed: Option<Seq<char>>,
)
    requires
        answer_outcome(paths, timeout_secs, answer, failed) == AnswerOutcome::Skipped,
    ensures
        ({
            let i = text_from(paths, failed->0, 0)->0;
            &&& 0 <= i < paths.len()
            &&& Some(paths[i]) == failed
            &&& paths.remove(i).len() == paths.len() - 1
        }),
{
    lemma_text_from(paths, failed->0, 0);
}

proof fn lemma_text_from(list: Seq<Seq<char>>, s: Seq<char>, from: int)
    requires
        0 <= from <= list.len(),
    ensures
        text_from(list, s, from) matches Some(i) ==> from <= i < list.len() && list[i] == s,
    decreases list.len() - from,
{
    if from < list.len() && list[from] != s {
        lemma_text_from(list, s, from + 1);
    }
}

// ---------------------------------------------------------------------------
// What holds of a deletion

/// What stands between quotes is what stands behind the first and before the second;
/// with fewer than two nothing does.
#[verifier::rlimit(40)]
pub proof fn law_between_quotes(a: Seq<char>, b: Seq<char>, rest: Seq<char>)
    requires
        !a.contains('\''),
        !b.contains('\''),
    ensures
        between_quotes(a + "'"@ + b + "'"@ + rest) == Some(b),
        between_quotes(a + "'"@ + b) is None,
        between_quotes(a) is None,
{
    reveal_strlit("'");
    let q = "'"@;
    assert(q =~= seq!['\'']);
    let n = a.len() as int;
    let m = b.len() as int;
    let s = a + q + b + q + rest;
    lemma_quote_at(s, 0);
    lemma_quote_at(s, n + 1);
    assert(s[n] == '\'');
    assert(s[n + 1 + m] == '\'');
    assert forall|k: int| 0 <= k < n implies #[trigger] s[k] != '\'' by {
        assert(s[k] == a[k]);
    }
    assert forall|k: int| n + 1 <= k < n + 1 + m implies #[trigger] s[k] != '\'' by {
        assert(s[k] == b[k - n - 1]);
    }
    assert(s.subrange(n + 1, n + 1 + m) =~= b);
    let u = a + q + b;
    lemma_quote_at(u, 0);
    lemma_quote_at(u, n + 1);
    assert(u[n] == '\'');
    assert forall|k: int| 0 <= k < u.len() && k != n implies #[trigger] u[k] != '\'' by {
        if k < n {
            assert(u[k] == a[k]);
        } else {
            assert(u[k] == b[k - n - 1]);
        }
    }
    lemma_quote_at(a, 0);
}

/// Where the first quote from a place on is.
proof fn lemma_quote_at(s: Seq<char>, from: int)
    requires
        0 <= from,
    ensures
        match find_from(s, "'"@, from) {
            Some(k) => from <= k < s.len() && s[k] == '\'' && (forall|j: int|
                from <= j < k ==> #[trigger] s[j] != '\''),
            None => forall|j: int| from <= j < s.len() ==> #[trigger] s[j] != '\'',
        },
{
    reveal_strlit("'");
    let q = "'"@;
    assert(q =~= seq!['\'']);
    lemma_find_from(s, q, from);
    assert forall|j: int| from <= j < s.len() && #[trigger] s[j] == '\'' implies occurs_at(
        s,
        q,
        j,
    ) by {
        assert(s.subrange(j, j + 1) =~= q);
    }
    match find_from(s, q, from) {
        Some(k) => {
            assert(s.subrange(k, k + 1)[0] == s[k]);
        },
        None => {},
    }
}

/// A line tells of a path that cannot be deleted exactly where it holds one of the two
/// forms of that error and quotes around a path; the last such path counts.
pub proof fn law_failed_path(line: Seq<char>, known: Option<Seq<char>>)
    ensures
        tells_failure(line) <==> contains(line, "error: cannot delete path '"@) || contains(
            line,
            "error: Cannot delete path '"@,
        ),
        tells_failure(line) ==> failed_path(line) == between_quotes(line),
        !tells_failure(line) ==> failed_path(line) is None,
        failed_path(line) is Some ==> failed_after(known, line) == failed_path(line),
        failed_path(line) is None ==> failed_after(known, line) == known,
        tells_start(line) <==> contains(line, "deleting '"@),
{
}

/// How a deletion goes on. The end of the process ends it, as it ended, and nothing is
/// killed then. The end of the time ends it only once a path is being deleted; then the
/// process is killed, and it counts as is asked for. Until then it only begins to delete.
pub proof fn law_way_of_a_deletion(
    state: Deletion,
    event: DeletionEvent,
    timeout_succeeds: bool,
    success: bool,
)
    requires
        !(state is Over),
    ensures
        ({
            let next = deletion_next(state, event, timeout_succeeds);
            &&& next == (Deletion::Over { success, kill: false }) <==> event == (
            DeletionEvent::Exited { success })
            &&& next == (Deletion::Over { success, kill: true }) <==> state == Deletion::Deleting
                && event == DeletionEvent::TimedOut && success == timeout_succeeds
            &&& next == Deletion::Deleting <==> event == DeletionEvent::Started || (state
                == Deletion::Deleting && !(event is Exited) && event != DeletionEvent::TimedOut)
            &&& next == Deletion::Waiting <==> state == Deletion::Waiting && event
                == DeletionEvent::TimedOut
        }),
{
}

/// Every path has its line in the log.
pub proof fn law_path_lines(paths: Seq<Seq<char>>, path: Seq<char>)
    ensures
        path_lines(Seq::empty()).len() == 0,
        path_lines(paths.push(path)) == path_lines(paths) + "  "@ + path + "\n"@,
{
    assert(paths.push(path).drop_last() == paths);
}

/// The place of a text in a list is the first where it stands.
pub proof fn law_first_place(list: Seq<Seq<char>>, s: Seq<char>, from: int)
    requires
        0 <= from <= list.len(),
    ensures
        match text_from(list, s, from) {
            Some(i) => from <= i < list.len() && list[i] == s && (forall|j: int|
                from <= j < i ==> #[trigger] list[j] != s),
            None => forall|j: int| from <= j < list.len() ==> #[trigger] list[j] != s,
        },
    decreases list.len() - from,
{
    if from < list.len() && list[from] != s {
        law_first_place(list, s, from + 1);
    }
}

/// What an answer does: a path is skipped exactly where that is answered, the failing path
/// is known and it is on the list; the time is made longer exactly where that is answered
/// and it can be told; minutes are asked for exactly where that is answered; and anything
/// else tries again.
pub proof fn law_answers(
    paths: Seq<Seq<char>>,
    timeout_secs: u64,
    answer: Seq<char>,
    failed: Option<Seq<char>>,
)
    ensures
        ({
            let outcome = answer_outcome(paths, timeout_secs, answer, failed);
            &&& outcome == AnswerOutcome::Skipped <==> answer == "s"@ && (failed matches Some(p)
                && paths.contains(p))
            &&& outcome == AnswerOutcome::NotListed <==> answer == "s"@ && (failed matches Some(p)
                && !paths.contains(p))
            &&& outcome == AnswerOutcome::NoneKnown <==> answer == "s"@ && failed is None
            &&& outcome == AnswerOutcome::Longer <==> answer == "t"@ && timeout_secs + 30
                <= u64::MAX
            &&& outcome == AnswerOutcome::TooLong <==> answer == "t"@ && timeout_secs + 30
                > u64::MAX
            &&& outcome == AnswerOutcome::AskMinutes <==> answer == "m"@
            &&& outcome == AnswerOutcome::Retry <==> answer != "s"@ && answer != "t"@ && answer
                != "m"@
        }),
{
    reveal_strlit("s");
    reveal_strlit("t");
    reveal_strlit("m");
    assert("s"@[0] == 's' && "t"@[0] == 't' && "m"@[0] == 'm');
    if let Some(p) = failed {
        law_first_place(paths, p, 0);
        if text_from(paths, p, 0) is Some {
            assert(paths[text_from(paths, p, 0)->0] == p);
        }
    }
}

} // verus!
