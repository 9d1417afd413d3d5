//! What holds of counting the threads of a user as a whole.

use crate::processes::{
    charged_threads, count_current_user_threads, count_user_threads, counted_threads,
    current_user, entry_threads, is_process_name, names_user, owned_by, process_threads,
    thread_count, told_threads, total_threads, totals_fit, ProcEntry,
};
use crate::text::{all_digits, first_word, is_digit, is_space, parsed_integer, trimmed};
use crate::text_laws::{
    blank, holds_lines, is_sign, lemma_after_prefix, lemma_around_first_word, lemma_first_word,
    lemma_numeral_is_parsed, lemma_numeral_is_solid, lemma_parsed_is_numeral,
    lemma_sides_are_trimmed, lemma_trimmed_between, lines_are_read_back, numeral, signed,
};
use vstd::prelude::*;

verus! {

/// Whether a line names the user `uid` as the owner: its first word is the number of the user.
pub open spec fn tells_user(line: Seq<char>, uid: u32) -> bool {
    exists|before: Seq<char>, sign: Seq<char>, zeros: nat, after: Seq<char>|
        {
            &&& line == "Uid:"@ + #[trigger] (before + numeral(sign, zeros, uid as nat) + after)
            &&& blank(before)
            &&& is_sign(sign, false)
            &&& after.len() > 0 ==> is_space(after[0])
        }
}

/// Whether a line tells the number `n` of threads, with nothing but whitespace around it.
pub open spec fn tells_threads(line: Seq<char>, n: int) -> bool {
    &&& -0x8000_0000_0000_0000 <= n <= 0x7fff_ffff_ffff_ffff
    &&& exists|before: Seq<char>, sign: Seq<char>, zeros: nat, m: nat, after: Seq<char>|
        {
            &&& line == "Threads:"@ + #[trigger] (before + numeral(sign, zeros, m) + after)
            &&& blank(before)
            &&& blank(after)
            &&& is_sign(sign, true)
            &&& n == signed(sign, m)
        }
}

/// Whether the `i`th is the last of the lines that start with `label`.
pub open spec fn is_last_with(lines: Seq<Seq<char>>, i: int, label: Seq<char>) -> bool {
    &&& 0 <= i < lines.len()
    &&& label.is_prefix_of(lines[i])
    &&& forall|k: int| i < k < lines.len() ==> !label.is_prefix_of(#[trigger] lines[k])
}

/// The last line with an owner decides.
proof fn lemma_owner_decides(lines: Seq<Seq<char>>, i: int, uid: u32)
    requires
        is_last_with(lines, i, "Uid:"@),
    ensures
        owned_by(lines, uid) == names_user(lines[i].skip("Uid:"@.len() as int), uid),
    decreases lines.len(),
{
    if i < lines.len() - 1 {
        let front = lines.drop_last();
        assert(lines.last() == lines[lines.len() - 1]);
        assert forall|k: int| i < k < front.len() implies !"Uid:"@.is_prefix_of(
            #[trigger] front[k],
        ) by {
            assert(front[k] == lines[k]);
        }
        lemma_owner_decides(front, i, uid);
    }
}

/// The last line with a number of threads decides.
proof fn lemma_number_decides(lines: Seq<Seq<char>>, j: int)
    requires
        is_last_with(lines, j, "Threads:"@),
    ensures
        thread_count(lines) == told_threads(lines[j].skip("Threads:"@.len() as int)),
    decreases lines.len(),
{
    if j < lines.len() - 1 {
        let front = lines.drop_last();
        assert(lines.last() == lines[lines.len() - 1]);
        assert forall|k: int| j < k < front.len() implies !"Threads:"@.is_prefix_of(
            #[trigger] front[k],
        ) by {
            assert(front[k] == lines[k]);
        }
        lemma_number_decides(front, j);
    }
}

/// A process that is the user's has a last line with an owner.
proof fn lemma_owner_is_told(lines: Seq<Seq<char>>, uid: u32) -> (i: int)
    requires
        owned_by(lines, uid),
    ensures
        is_last_with(lines, i, "Uid:"@),
    decreases lines.len(),
{
    if "Uid:"@.is_prefix_of(lines.last()) {
        lines.len() - 1
    } else {
        let i = lemma_owner_is_told(lines.drop_last(), uid);
        assert forall|k: int| i < k < lines.len() implies !"Uid:"@.is_prefix_of(
            #[trigger] lines[k],
        ) by {
            if k < lines.len() - 1 {
                assert(lines.drop_last()[k] == lines[k]);
            }
        }
        i
    }
}

/// Threads that are not nought are told by a last line with their number.
proof fn lemma_number_is_told(lines: Seq<Seq<char>>) -> (j: int)
    requires
        thread_count(lines) != 0,
    ensures
        is_last_with(lines, j, "Threads:"@),
    decreases lines.len(),
{
    if "Threads:"@.is_prefix_of(lines.last()) {
        lines.len() - 1
    } else {
        let j = lemma_number_is_told(lines.drop_last());
        assert forall|k: int| j < k < lines.len() implies !"Threads:"@.is_prefix_of(
            #[trigger] lines[k],
        ) by {
            if k < lines.len() - 1 {
                assert(lines.drop_last()[k] == lines[k]);
            }
        }
        j
    }
}

/// A line that names a user is understood to name that user and no other.
proof fn lemma_user_is_understood(line: Seq<char>, named: u32, uid: u32)
    requires
        tells_user(line, named),
    ensures
        names_user(line.skip("Uid:"@.len() as int), uid) <==> named == uid,
{
    let (before, sign, zeros, after) = choose|
        before: Seq<char>,
        sign: Seq<char>,
        zeros: nat,
        after: Seq<char>,
    |
        {
            &&& line == "Uid:"@ + #[trigger] (before + numeral(sign, zeros, named as nat) + after)
            &&& blank(before)
            &&& is_sign(sign, false)
            &&& after.len() > 0 ==> is_space(after[0])
        };
    let word = numeral(sign, zeros, named as nat);
    assert(seq!['+'][0] == '+' && seq!['-'][0] == '-');
    lemma_numeral_is_solid(sign, zeros, named as nat);
    lemma_after_prefix("Uid:"@, before + word + after);
    lemma_first_word(before, word, after);
    lemma_numeral_is_parsed(sign, zeros, named as nat, 0, u32::MAX as int);
}

/// A line with a number of threads is understood.
proof fn lemma_threads_are_understood(line: Seq<char>, n: int)
    requires
        tells_threads(line, n),
    ensures
        told_threads(line.skip("Threads:"@.len() as int)) == n,
{
    let (before, sign, zeros, m, after) = choose|
        before: Seq<char>,
        sign: Seq<char>,
        zeros: nat,
        m: nat,
        after: Seq<char>,
    |
        {
            &&& line == "Threads:"@ + #[trigger] (before + numeral(sign, zeros, m) + after)
            &&& blank(before)
            &&& blank(after)
            &&& is_sign(sign, true)
            &&& n == signed(sign, m)
        };
    let word = numeral(sign, zeros, m);
    lemma_numeral_is_solid(sign, zeros, m);
    lemma_after_prefix("Threads:"@, before + word + after);
    assert(!is_space(word[0]) && !is_space(word[word.len() - 1]));
    lemma_sides_are_trimmed(before, word, after);
    lemma_numeral_is_parsed(sign, zeros, m, i64::MIN as int, i64::MAX as int);
}

/// What a status file charges to a user whom its last line with an owner names is the number on its
/// last line with a number of threads.
proof fn lemma_charged(
    status: Seq<char>,
    lines: Seq<Seq<char>>,
    i: int,
    j: int,
    uid: u32,
    n: int,
)
    requires
        holds_lines(status, lines),
        is_last_with(lines, i, "Uid:"@),
        tells_user(lines[i], uid),
        is_last_with(lines, j, "Threads:"@),
        tells_threads(lines[j], n),
    ensures
        charged_threads(status, uid) == n,
{
    lines_are_read_back(status, lines);
    lemma_owner_decides(lines, i, uid);
    lemma_user_is_understood(lines[i], uid, uid);
    lemma_number_decides(lines, j);
    lemma_threads_are_understood(lines[j], n);
}

/// The status file of a process charges its threads to its owner: the number on the last line with
/// a number of threads, to the user on the last line with an owner.
pub proof fn threads_are_charged_to_the_owner(
    status: &str,
    lines: Seq<Seq<char>>,
    i: int,
    j: int,
    uid: u32,
    n: int,
    r: i64,
)
    requires
        call_ensures(process_threads, (status, uid), r),
        holds_lines(status@, lines),
        is_last_with(lines, i, "Uid:"@),
        tells_user(lines[i], uid),
        is_last_with(lines, j, "Threads:"@),
        tells_threads(lines[j], n),
    ensures
        r == n,
{
    lemma_charged(status@, lines, i, j, uid, n);
}

/// The status file of a process of another user charges nothing.
pub proof fn threads_of_others_are_not_charged(
    status: &str,
    lines: Seq<Seq<char>>,
    i: int,
    other: u32,
    uid: u32,
    r: i64,
)
    requires
        call_ensures(process_threads, (status, uid), r),
        holds_lines(status@, lines),
        is_last_with(lines, i, "Uid:"@),
        tells_user(lines[i], other),
        other != uid,
    ensures
        r == 0,
{
    lines_are_read_back(status@, lines);
    lemma_owner_decides(lines, i, uid);
    lemma_user_is_understood(lines[i], other, uid);
}

/// Threads are charged only where the last line with an owner names the user, and only as many as
/// the last line with a number of threads tells.
pub proof fn threads_are_charged_only_as_told(
    status: &str,
    lines: Seq<Seq<char>>,
    uid: u32,
    r: i64,
)
    requires
        call_ensures(process_threads, (status, uid), r),
        holds_lines(status@, lines),
        r != 0,
    ensures
        exists|i: int|
            #[trigger] is_last_with(lines, i, "Uid:"@) && tells_user(lines[i], uid),
        exists|j: int|
            #[trigger] is_last_with(lines, j, "Threads:"@) && tells_threads(lines[j], r as int),
{
    lines_are_read_back(status@, lines);
    let i = lemma_owner_is_told(lines, uid);
    lemma_owner_decides(lines, i, uid);
    let owner = lines[i].skip("Uid:"@.len() as int);
    assert(lines[i] =~= "Uid:"@ + owner);
    let around = lemma_around_first_word(owner);
    let word = first_word(owner)->0;
    lemma_parsed_is_numeral(word, 0, u32::MAX as int);
    let (sign, zeros, n) = choose|sign: Seq<char>, zeros: nat, n: nat|
        {
            &&& word == #[trigger] numeral(sign, zeros, n)
            &&& is_sign(sign, false)
            &&& parsed_integer(word, 0, u32::MAX as int) == Some(signed(sign, n))
        };
    assert(seq!['+'][0] == '+' && seq!['-'][0] == '-');
    assert(n == uid);
    assert(lines[i] == "Uid:"@ + (around.0 + numeral(sign, zeros, uid as nat) + around.1));
    assert(tells_user(lines[i], uid));

    let j = lemma_number_is_told(lines);
    lemma_number_decides(lines, j);
    let number = lines[j].skip("Threads:"@.len() as int);
    assert(lines[j] =~= "Threads:"@ + number);
    let sides = lemma_trimmed_between(number);
    let digits = trimmed(number);
    lemma_parsed_is_numeral(digits, i64::MIN as int, i64::MAX as int);
    let (minus, padding, m) = choose|sign: Seq<char>, zeros: nat, n: nat|
        {
            &&& digits == #[trigger] numeral(sign, zeros, n)
            &&& is_sign(sign, true)
            &&& parsed_integer(digits, i64::MIN as int, i64::MAX as int) == Some(signed(sign, n))
        };
    assert(lines[j] == "Threads:"@ + (sides.0 + numeral(minus, padding, m) + sides.1));
    assert(tells_threads(lines[j], r as int));
}

/// The name of a process is made of digits, however many.
pub proof fn process_names_are_digits(name: &str, r: bool)
    requires
        call_ensures(is_process_name, (name,), r),
    ensures
        r <==> forall|i: int| 0 <= i < name@.len() ==> 48 <= #[trigger] name@[i] as int <= 57,
{
    if r {
        assert forall|i: int| 0 <= i < name@.len() implies 48 <= #[trigger] name@[i] as int
            <= 57 by {
            assert(is_digit(name@[i]));
        }
    } else {
        let i = choose|i: int| 0 <= i < name@.len() && !is_digit(#[trigger] name@[i]);
        assert(!(48 <= name@[i] as int <= 57));
    }
}

/// Whether an entry is that of a process whose status could be read, and `status` is the text of
/// it: the name is made of digits.
pub open spec fn is_process(entry: ProcEntry, status: Seq<char>) -> bool {
    &&& entry.name matches Some(name) && forall|i: int|
        0 <= i < name@.len() ==> 48 <= #[trigger] name@[i] as int <= 57
    &&& entry.status matches Some(text) && text@ == status
}

/// An entry counts for what its status charges if it is that of a process, and else for nothing.
proof fn lemma_entry(entry: ProcEntry, uid: u32)
    ensures
        forall|status: Seq<char>|
            #[trigger] is_process(entry, status) ==> entry_threads(entry, uid)
                == charged_threads(status, uid),
        (forall|status: Seq<char>| !#[trigger] is_process(entry, status)) ==> entry_threads(
            entry,
            uid,
        ) == 0,
{
    if let Some(name) = entry.name {
        if let Some(text) = entry.status {
            if all_digits(name@) {
                assert forall|i: int| 0 <= i < name@.len() implies 48 <= #[trigger] name@[i] as int
                    <= 57 by {
                    assert(is_digit(name@[i]));
                }
                assert(is_process(entry, text@));
            }
            if forall|i: int| 0 <= i < name@.len() ==> 48 <= #[trigger] name@[i] as int <= 57 {
                assert forall|i: int| 0 <= i < name@.len() implies is_digit(
                    #[trigger] name@[i],
                ) by {
                    assert(48 <= name@[i] as int <= 57);
                }
            }
        }
    }
}

/// The sum over entries with one more among them is the sum without it and what it counts for.
proof fn lemma_total_with(entries: Seq<ProcEntry>, at: int, entry: ProcEntry, uid: u32)
    requires
        0 <= at <= entries.len(),
    ensures
        total_threads(entries.insert(at, entry), uid) == total_threads(entries, uid)
            + entry_threads(entry, uid),
    decreases entries.len(),
{
    let more = entries.insert(at, entry);
    if at == entries.len() {
        assert(more.drop_last() =~= entries);
        assert(more.last() == entry);
    } else {
        assert(more.drop_last() =~= entries.drop_last().insert(at, entry));
        assert(more.last() == entries.last());
        lemma_total_with(entries.drop_last(), at, entry, uid);
    }
}

/// A process of the user, wherever it stands and however many digits its name has, adds exactly the
/// threads that its status tells to the count.
pub proof fn process_adds_its_threads(
    entries: &Vec<ProcEntry>,
    more: &Vec<ProcEntry>,
    at: int,
    entry: ProcEntry,
    status: Seq<char>,
    lines: Seq<Seq<char>>,
    i: int,
    j: int,
    uid: u32,
    n: int,
    before: i64,
    after: i64,
)
    requires
        0 <= at <= entries@.len(),
        more@ == entries@.insert(at, entry),
        call_ensures(count_user_threads, (entries, uid), Some(before)),
        call_ensures(count_user_threads, (more, uid), Some(after)),
        is_process(entry, status),
        holds_lines(status, lines),
        is_last_with(lines, i, "Uid:"@),
        tells_user(lines[i], uid),
        is_last_with(lines, j, "Threads:"@),
        tells_threads(lines[j], n),
    ensures
        after == before + n,
{
    lemma_entry(entry, uid);
    lemma_charged(status, lines, i, j, uid, n);
    lemma_total_with(entries@, at, entry, uid);
}

/// The count over no entries is nought.
pub proof fn nothing_counts_for_nothing(entries: &Vec<ProcEntry>, uid: u32, r: Option<i64>)
    requires
        call_ensures(count_user_threads, (entries, uid), r),
        entries@.len() == 0,
    ensures
        r == Some(0i64),
{
    assert forall|k: int| 0 <= k <= entries@.len() implies i64::MIN <= #[trigger] total_threads(
        entries@.take(k),
        uid,
    ) <= i64::MAX by {
        assert(entries@.take(k) =~= entries@);
    }
}

/// The sums of more entries stay within 64 bits if those of the entries before the last do, and so
/// does the last of them.
proof fn lemma_totals_fit(entries: Seq<ProcEntry>, entry: ProcEntry, uid: u32)
    ensures
        totals_fit(entries.push(entry), uid) <==> {
            &&& totals_fit(entries, uid)
            &&& i64::MIN <= total_threads(entries, uid) + entry_threads(entry, uid) <= i64::MAX
        },
{
    let more = entries.push(entry);
    let n = more.len() as int;
    assert(more.drop_last() =~= entries);
    assert(more.take(n) =~= more);
    assert forall|k: int| 0 <= k < n implies more.take(k) == #[trigger] entries.take(k) by {
        assert(more.take(k) =~= entries.take(k));
    }
    if totals_fit(more, uid) {
        assert forall|k: int| 0 <= k <= entries.len() implies i64::MIN <= #[trigger] total_threads(
            entries.take(k),
            uid,
        ) <= i64::MAX by {
            assert(total_threads(more.take(k), uid) == total_threads(entries.take(k), uid));
        }
        assert(total_threads(more.take(n), uid) == total_threads(more, uid));
    }
    if totals_fit(entries, uid) && i64::MIN <= total_threads(more, uid) <= i64::MAX {
        assert forall|k: int| 0 <= k <= n implies i64::MIN <= #[trigger] total_threads(
            more.take(k),
            uid,
        ) <= i64::MAX by {
            if k < n {
                assert(total_threads(more.take(k), uid) == total_threads(entries.take(k), uid));
            }
        }
    }
}

/// One more entry at the end adds what its status charges, if it is that of a process, and nothing
/// otherwise. The count is given as long as the sum stays within 64 bits from entry to entry.
pub proof fn entries_are_added_one_by_one(
    entries: &Vec<ProcEntry>,
    more: &Vec<ProcEntry>,
    entry: ProcEntry,
    status: &str,
    uid: u32,
    charged: i64,
    before: Option<i64>,
    after: Option<i64>,
)
    requires
        more@ == entries@.push(entry),
        call_ensures(count_user_threads, (entries, uid), before),
        call_ensures(count_user_threads, (more, uid), after),
        call_ensures(process_threads, (status, uid), charged),
        is_process(entry, status@) || forall|text: Seq<char>| !#[trigger] is_process(entry, text),
    ensures
        ({
            let added = if is_process(entry, status@) {
                charged as int
            } else {
                0
            };
            match before {
                Some(n) => if -0x8000_0000_0000_0000 <= n + added <= 0x7fff_ffff_ffff_ffff {
                    after matches Some(m) && m == n + added
                } else {
                    after is None
                },
                None => after is None,
            }
        }),
{
    lemma_entry(entry, uid);
    lemma_totals_fit(entries@, entry, uid);
    assert(more@.drop_last() =~= entries@);
    assert(more@.last() == entry);
}

/// The count for the user that this process runs as is the count for that user.
pub proof fn current_user_is_counted_like_any(entries: &Vec<ProcEntry>, r: Option<i64>)
    requires
        call_ensures(count_current_user_threads, (entries,), r),
    ensures
        exists|uid: u32|
            {
                &&& #[trigger] call_ensures(current_user, (), uid)
                &&& forall|counted: Option<i64>|
                    #[trigger] call_ensures(count_user_threads, (entries, uid), counted)
                        ==> counted == r
            },
{
    let uid = choose|uid: u32|
        {
            &&& call_ensures(current_user, (), uid)
            &&& match r {
                Some(n) => #[trigger] counted_threads(entries@, uid) == Some(n as int),
                None => counted_threads(entries@, uid) is None,
            }
        };
    assert(call_ensures(current_user, (), uid));
}

} // verus!
