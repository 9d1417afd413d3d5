//! How many threads of a user are running, from what the system tells about its processes.

use crate::text::{
    after_prefix, all_digits, chars_of, find_line_end, first_word, line_length, lines_of,
    parse_integer, parsed_integer, split_first_word, strip_prefix, trim, trimmed, without_return,
};
use vstd::prelude::*;
use vstd::slice::slice_subrange;

verus! {

/// One entry of the directory of processes, as far as it could be read: its name, and the text of
/// the status file below it.
pub struct ProcEntry {
    pub name: Option<String>,
    pub status: Option<String>,
}

/// Whether a line that tells the owner of a process names the user `uid`: the first word after
/// the label is the number of the real user.
pub open spec fn names_user(rest: Seq<char>, uid: u32) -> bool {
    match first_word(rest) {
        Some(word) => parsed_integer(word, 0, u32::MAX as int) == Some(uid as int),
        None => false,
    }
}

/// The number on a line that tells the threads of a process; nought where there is none.
pub open spec fn told_threads(rest: Seq<char>) -> int {
    match parsed_integer(trimmed(rest), i64::MIN as int, i64::MAX as int) {
        Some(n) => n,
        None => 0,
    }
}

/// Whether the lines of a status file tell that the process is the user's. The last line with an
/// owner decides.
pub open spec fn owned_by(lines: Seq<Seq<char>>, uid: u32) -> bool
    decreases lines.len(),
{
    if lines.len() == 0 {
        false
    } else {
        match after_prefix(lines.last(), "Uid:"@) {
            Some(rest) => names_user(rest, uid),
            None => owned_by(lines.drop_last(), uid),
        }
    }
}

/// The threads that the lines of a status file tell. The last line with a number of threads
/// decides.
pub open spec fn thread_count(lines: Seq<Seq<char>>) -> int
    decreases lines.len(),
{
    if lines.len() == 0 {
        0
    } else {
        match after_prefix(lines.last(), "Threads:"@) {
            Some(rest) => told_threads(rest),
            None => thread_count(lines.drop_last()),
        }
    }
}

/// The threads that a status file charges to a user: those of the process if it is the user's.
pub open spec fn charged_threads(status: Seq<char>, uid: u32) -> int {
    if owned_by(lines_of(status), uid) {
        thread_count(lines_of(status))
    } else {
        0
    }
}

/// The threads that an entry of the directory of processes charges to a user. Only an entry named
/// by a number is a process; one whose status could not be read counts for nothing.
pub open spec fn entry_threads(entry: ProcEntry, uid: u32) -> int {
    match (entry.name, entry.status) {
        (Some(name), Some(status)) => if all_digits(name@) {
            charged_threads(status@, uid)
        } else {
            0
        },
        _ => 0,
    }
}

/// The threads that the entries charge to a user together.
pub open spec fn total_threads(entries: Seq<ProcEntry>, uid: u32) -> int
    decreases entries.len(),
{
    if entries.len() == 0 {
        0
    } else {
        total_threads(entries.drop_last(), uid) + entry_threads(entries.last(), uid)
    }
}

/// Whether the sum stays within 64 bits while it is taken up entry by entry.
pub open spec fn totals_fit(entries: Seq<ProcEntry>, uid: u32) -> bool {
    forall|k: int|
        0 <= k <= entries.len() ==> i64::MIN <= #[trigger] total_threads(entries.take(k), uid)
            <= i64::MAX
}

/// The outcome of counting: the sum, or nothing where it does not stay within 64 bits.
pub open spec fn counted_threads(entries: Seq<ProcEntry>, uid: u32) -> Option<int> {
    if totals_fit(entries, uid) {
        Some(total_threads(entries, uid))
    } else {
        None
    }
}

/// Whether the name of an entry is that of a process: it is made of digits.
pub fn is_process_name(name: &str) -> (r: bool)
    ensures
        r == all_digits(name@),
{
    for c in it: name.chars()
        invariant
            it.seq() == name@,
            forall|k: int| 0 <= k < it.index() ==> '0' <= #[trigger] name@[k] <= '9',
    {
        if !('0' <= c && c <= '9') {
            assert(name@[it.index()] == c);
            return false;
        }
    }
    true
}

/// The threads that the status file of a process charges to the user `uid`.
pub fn process_threads(status: &str, uid: u32) -> (r: i64)
    ensures
        r == charged_threads(status@, uid),
{
    let text = chars_of(status);
    let text = text.as_slice();
    let mut mine = false;
    let mut threads: i64 = 0;
    let mut start: usize = 0;
    let ghost mut done: Seq<Seq<char>> = Seq::empty();
    proof {
        assert(text@.skip(0) =~= text@);
        assert(done + lines_of(text@) =~= lines_of(text@));
        reveal_strlit("Uid:");
        reveal_strlit("Threads:");
    }
    while start < text.len()
        invariant
            text@ == status@,
            start <= text@.len(),
            lines_of(text@) == done + lines_of(text@.skip(start as int)),
            mine == owned_by(done, uid),
            threads == thread_count(done),
            "Uid:"@.len() > 0,
            "Threads:"@.len() > 0,
            "Uid:"@[0] != "Threads:"@[0],
        decreases text@.len() - start,
    {
        let ghost rest = text@.skip(start as int);
        let end = find_line_end(text, start);
        let terminated = end < text.len();
        let stop: usize = if terminated && end > start && text[end - 1] == '\r' {
            end - 1
        } else {
            end
        };
        let line = slice_subrange(text, start, stop);
        let next: usize = if terminated {
            end + 1
        } else {
            end
        };
        proof {
            assert(rest.take(end - start).len() == end - start);
            if terminated {
                if end > start {
                    assert(rest.take(end - start).last() == text@[end - 1]);
                }
                assert(line@ =~= without_return(rest.take(end - start)));
                assert(rest.skip(end - start + 1) =~= text@.skip(next as int));
                assert(lines_of(rest) =~= seq![line@] + lines_of(text@.skip(next as int)));
            } else {
                assert(line@ =~= rest);
                assert(lines_of(text@.skip(next as int)) =~= Seq::<Seq<char>>::empty());
                assert(lines_of(rest) =~= seq![line@] + lines_of(text@.skip(next as int)));
            }
            assert(done.push(line@).drop_last() =~= done);
            assert(done + lines_of(rest) =~= done.push(line@) + lines_of(text@.skip(next as int)));
        }
        if let Some(owner) = strip_prefix(line, "Uid:") {
            mine = match split_first_word(owner) {
                Some(word) => match parse_integer(word, 0, 0xffff_ffff) {
                    Some(n) => n == uid as i128,
                    None => false,
                },
                None => false,
            };
            assert(line@[0] == "Uid:"@[0]) by {
                assert("Uid:"@ =~= line@.subrange(0, "Uid:"@.len() as int));
            }
            assert(after_prefix(line@, "Threads:"@) is None);
        } else if let Some(number) = strip_prefix(line, "Threads:") {
            threads = match parse_integer(
                trim(number),
                -0x8000_0000_0000_0000,
                0x7fff_ffff_ffff_ffff,
            ) {
                Some(n) => n as i64,
                None => 0,
            };
        }
        proof {
            done = done.push(line@);
        }
        start = next;
    }
    proof {
        assert(lines_of(text@.skip(start as int)) =~= Seq::<Seq<char>>::empty());
        assert(done =~= lines_of(text@));
    }
    if mine {
        threads
    } else {
        0
    }
}

/// The threads of the user `uid` among the processes in `entries`, or nothing where the sum does
/// not stay within 64 bits.
pub fn count_user_threads(entries: &Vec<ProcEntry>, uid: u32) -> (r: Option<i64>)
    ensures
        r is Some <==> counted_threads(entries@, uid) is Some,
        r matches Some(n) ==> counted_threads(entries@, uid) == Some(n as int),
{
    let mut total: i64 = 0;
    let mut i: usize = 0;
    while i < entries.len()
        invariant
            i <= entries@.len(),
            total == total_threads(entries@.take(i as int), uid),
            forall|k: int|
                0 <= k <= i ==> i64::MIN <= #[trigger] total_threads(entries@.take(k), uid)
                    <= i64::MAX,
        decreases entries@.len() - i,
    {
        let mut threads: i64 = 0;
        if let Some(name) = &entries[i].name {
            if let Some(status) = &entries[i].status {
                if is_process_name(name.as_str()) {
                    threads = process_threads(status.as_str(), uid);
                }
            }
        }
        proof {
            assert(entries@.take(i + 1).drop_last() =~= entries@.take(i as int));
            assert(entries@.take(i + 1).last() == entries@[i as int]);
        }
        match total.checked_add(threads) {
            Some(sum) => {
                total = sum;
            },
            None => {
                assert(!(i64::MIN <= total_threads(entries@.take(i + 1), uid) <= i64::MAX));
                return None;
            },
        }
        i = i + 1;
    }
    assert(entries@.take(i as int) =~= entries@);
    Some(total)
}

/// `nix::unistd::getuid` tells the user that this process runs as. Of which one it is nothing is
/// claimed.
#[verifier::external_body]
pub fn current_user() -> (r: u32)
{
    nix::unistd::getuid().as_raw()
}

/// The threads of the user that this process runs as, as `current_user` tells it, among the
/// processes in `entries`, or nothing where the sum does not stay within 64 bits.
pub fn count_current_user_threads(entries: &Vec<ProcEntry>) -> (r: Option<i64>)
    ensures
        exists|uid: u32|
            {
                &&& call_ensures(current_user, (), uid)
                &&& match r {
                    Some(n) => #[trigger] counted_threads(entries@, uid) == Some(n as int),
                    None => counted_threads(entries@, uid) is None,
                }
            },
{
    let uid = current_user();
    count_user_threads(entries, uid)
}

} // verus!
