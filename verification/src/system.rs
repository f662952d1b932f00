//! System state, read out of the texts under Linux `/proc`.
//!
//! `/proc/stat`, `/proc/meminfo` and `/proc/<pid>/stat` carry nearly everything. Reading them is
//! left to the caller; what they say is worked out here. Sums and products are those of 64-bit
//! machine words: they wrap.

use vstd::prelude::*;

use crate::numbers;
use crate::numbers::{parse_signed, parse_unsigned};
use crate::text;
use crate::text::{
    chars_of, find_first, find_last, join_with, lines_of, read_lossy, same, starts_with, text_of, trim,
    words_of,
};

verus! {

/// One process in the container's PID namespace.
pub struct ProcessInfo {
    pub pid: i32,
    /// Process name (`/proc/<pid>/comm`), truncated to 15 chars by the kernel.
    pub name: String,
    /// Kernel scheduling state, e.g. `R` (running), `S` (sleeping), `D` (uninterruptible), `Z` (zombie).
    pub state: String,
    /// Resident set size (physical memory) in bytes.
    pub rss_bytes: u64,
    /// Cumulative CPU time in seconds (process + children).
    pub cpu_secs: u64,
    /// The command line, joined with spaces. Empty for a kernel thread.
    pub cmdline: String,
}

/// What a [`ProcessInfo`] says.
#[verifier::ext_equal]
pub struct ProcessView {
    pub pid: int,
    pub name: Seq<char>,
    pub state: Seq<char>,
    pub rss_bytes: nat,
    pub cpu_secs: nat,
    pub cmdline: Seq<char>,
}

impl View for ProcessInfo {
    type V = ProcessView;

    open spec fn view(&self) -> ProcessView {
        ProcessView {
            pid: self.pid as int,
            name: self.name@,
            state: self.state@,
            rss_bytes: self.rss_bytes as nat,
            cpu_secs: self.cpu_secs as nat,
            cmdline: self.cmdline@,
        }
    }
}

impl DeepView for ProcessInfo {
    type V = ProcessView;

    open spec fn deep_view(&self) -> ProcessView {
        self@
    }
}

/// The number that a 64-bit machine word holds of a larger one.
pub open spec fn word(n: nat) -> nat {
    n % 0x1_0000_0000_0000_0000
}

/// The number that a text is, or 0.
pub open spec fn number_or_zero(s: Seq<char>) -> nat {
    match numbers::unsigned_read(s, u64::MAX as nat) {
        Some(n) => n,
        None => 0,
    }
}

/// The number in one of the fields, or 0 where it is missing or no number.
pub open spec fn number_at(fields: Seq<Seq<char>>, index: int) -> nat {
    if 0 <= index < fields.len() {
        number_or_zero(fields[index])
    } else {
        0
    }
}

fn read_number_at(fields: &Vec<String>, index: usize) -> (out: u64)
    ensures
        out as nat == number_at(fields.deep_view(), index as int),
{
    if index < fields.len() {
        assert(fields.deep_view()[index as int] == fields@[index as int]@);
        match parse_unsigned(fields[index].as_str(), u64::MAX) {
            Some(n) => n,
            None => 0,
        }
    } else {
        0
    }
}

// ---------------------------------------------------------------------------------------------
// Processes
// ---------------------------------------------------------------------------------------------

/// The arguments in a command line: its pieces that are not empty, read as text.
pub open spec fn arguments(parts: Seq<Seq<u8>>) -> Seq<Seq<char>>
    decreases parts.len(),
{
    if parts.len() == 0 {
        Seq::empty()
    } else {
        let before = arguments(parts.drop_last());
        if parts.last().len() == 0 {
            before
        } else {
            before.push(text::lossy_text(parts.last()))
        }
    }
}

/// A command line as the kernel keeps it, with a zero byte after each argument, as one text.
pub open spec fn command_line(bytes: Seq<u8>) -> Seq<char> {
    text::joined_with(arguments(text::pieces(bytes, 0u8)), " "@)
}

/// Reads a command line as the kernel keeps it.
pub fn read_command_line(bytes: &Vec<u8>) -> (out: String)
    ensures
        out@ == command_line(bytes@),
{
    let mut done: Vec<String> = Vec::new();
    let mut piece: Vec<u8> = Vec::new();
    let mut i: usize = 0;
    proof {
        let none = text::pieces(bytes@.take(0), 0u8);
        assert(none == seq![Seq::<u8>::empty()]);
        assert(none.drop_last() == Seq::<Seq<u8>>::empty());
        assert(done.deep_view() == arguments(none.drop_last()));
    }
    while i < bytes.len()
        invariant
            i <= bytes@.len(),
            text::pieces(bytes@.take(i as int), 0u8).len() > 0,
            text::pieces(bytes@.take(i as int), 0u8).last() == piece@,
            done.deep_view() == arguments(text::pieces(bytes@.take(i as int), 0u8).drop_last()),
        decreases bytes@.len() - i,
    {
        let b = bytes[i];
        let ghost parts = text::pieces(bytes@.take(i as int), 0u8);
        let ghost next = text::pieces(bytes@.take(i + 1), 0u8);
        assert(bytes@.take(i + 1).drop_last() == bytes@.take(i as int));
        assert(bytes@.take(i + 1).last() == b);
        if b == 0 {
            assert(next.drop_last() == parts);
            let ghost before = done.deep_view();
            if piece.len() > 0 {
                let read = read_lossy(&piece);
                done.push(read);
                assert(done.deep_view() == before.push(read@));
            }
            piece = Vec::new();
        } else {
            assert(next.drop_last() == parts.drop_last());
            piece.push(b);
        }
        i += 1;
    }
    assert(bytes@.take(bytes@.len() as int) == bytes@);
    if piece.len() > 0 {
        let read = read_lossy(&piece);
        let ghost before = done.deep_view();
        done.push(read);
        assert(done.deep_view() == before.push(read@));
    }
    join_with(&done, " ")
}

/// The process that a `/proc/<pid>/stat` describes, given its command line as far as that could
/// be read. The name stands in brackets and may itself hold spaces and closing brackets, so it
/// reaches up to the *last* closing one. What follows it are fields with white space between: the
/// state, at 14 to 17 the clock ticks (100 per second) that the process and its children used, at
/// 23 the resident memory in pages of 4096 bytes. Without a closing bracket there is no process.
pub open spec fn process_in(pid: int, stat: Seq<char>, cmdline: Option<Seq<u8>>) -> Option<
    ProcessView,
> {
    let end = text::last_at(stat, ')');
    if end < 0 {
        None
    } else {
        let head = stat.take(end);
        let start = text::first_at(head, '(');
        let fields = text::words(stat.skip(end + 1));
        Some(
            ProcessView {
                pid,
                name: if start < 0 {
                    Seq::empty()
                } else {
                    text::trimmed(head.skip(start + 1))
                },
                state: if fields.len() > 0 {
                    fields[0]
                } else {
                    Seq::empty()
                },
                rss_bytes: word(number_at(fields, 23) * 4096),
                cpu_secs: word(
                    number_at(fields, 14) + number_at(fields, 15) + number_at(fields, 16)
                        + number_at(fields, 17),
                ) / 100,
                cmdline: match cmdline {
                    Some(bytes) => command_line(bytes),
                    None => Seq::empty(),
                },
            },
        )
    }
}

proof fn lemma_first_at(before: Seq<char>, c: char, after: Seq<char>)
    requires
        !before.contains(c),
    ensures
        text::first_at(before.push(c) + after, c) == before.len(),
    decreases after.len(),
{
    let whole = before.push(c) + after;
    if after.len() == 0 {
        assert(whole.drop_last() == before);
        lemma_not_at(before, c);
    } else {
        assert(whole.drop_last() == before.push(c) + after.drop_last());
        lemma_first_at(before, c, after.drop_last());
    }
}

proof fn lemma_not_at(s: Seq<char>, c: char)
    requires
        !s.contains(c),
    ensures
        text::first_at(s, c) == -1,
    decreases s.len(),
{
    if s.len() > 0 {
        assert(s.contains(s.last()));
        assert(!s.drop_last().contains(c)) by {
            if s.drop_last().contains(c) {
                let k = choose|k: int| 0 <= k < s.drop_last().len() && s.drop_last()[k] == c;
                assert(s[k] == c);
            }
        }
        lemma_not_at(s.drop_last(), c);
    }
}

proof fn lemma_last_at(before: Seq<char>, c: char, after: Seq<char>)
    requires
        !after.contains(c),
    ensures
        text::last_at(before.push(c) + after, c) == before.len(),
    decreases after.len(),
{
    let whole = before.push(c) + after;
    if after.len() == 0 {
        assert(whole == before.push(c));
    } else {
        assert(whole.drop_last() == before.push(c) + after.drop_last());
        assert(whole.last() == after.last());
        assert(after.contains(after.last()));
        assert(!after.drop_last().contains(c)) by {
            if after.drop_last().contains(c) {
                let k = choose|k: int|
                    0 <= k < after.drop_last().len() && after.drop_last()[k] == c;
                assert(after[k] == c);
            }
        }
        lemma_last_at(before, c, after.drop_last());
    }
}

/// A name is read back whatever it holds, spaces and brackets too: only the white space around it
/// is lost. What stands before it holds no opening bracket, and what follows no closing one, as the
/// kernel writes it.
pub proof fn a_name_is_read_back(
    pid: int,
    before: Seq<char>,
    name: Seq<char>,
    after: Seq<char>,
    cmdline: Option<Seq<u8>>,
)
    requires
        !before.contains('('),
        !after.contains(')'),
    ensures
        process_in(pid, before.push('(') + name.push(')') + after, cmdline) matches Some(process)
            && process.name == text::trimmed(name),
{
    let stat = before.push('(') + name.push(')') + after;
    let head = before.push('(') + name;
    assert(stat == head.push(')') + after);
    lemma_last_at(head, ')', after);
    assert(stat.take(head.len() as int) == head);
    lemma_first_at(before, '(', name);
    assert(head.skip(before.len() as int + 1) == name);
}

/// What a byte row that may not be there holds.
pub open spec fn bytes_of(bytes: Option<Vec<u8>>) -> Option<Seq<u8>> {
    match bytes {
        Some(bytes) => Some(bytes@),
        None => None,
    }
}

/// Parts a stat at its last closing bracket.
fn part_stat(stat: &str) -> (out: Option<(String, String)>)
    ensures
        out is Some == (text::last_at(stat@, ')') >= 0),
        out matches Some((head, tail)) ==> {
            &&& head@ == stat@.take(text::last_at(stat@, ')'))
            &&& tail@ == stat@.skip(text::last_at(stat@, ')') + 1)
        },
{
    let chars = chars_of(stat);
    let len: usize = chars.len();
    match find_last(&chars, ')') {
        Some(end) => {
            let head = text_of(&chars, 0, end);
            let tail = text_of(&chars, end + 1, len);
            assert(head@ == stat@.take(end as int));
            assert(tail@ == stat@.skip(end + 1));
            Some((head, tail))
        },
        None => None,
    }
}

/// The name in what stands before the last closing bracket.
fn read_name(head: &str) -> (out: String)
    ensures
        out@ == if text::first_at(head@, '(') < 0 {
            Seq::empty()
        } else {
            text::trimmed(head@.skip(text::first_at(head@, '(') + 1))
        },
{
    let chars = chars_of(head);
    let len: usize = chars.len();
    match find_first(&chars, '(') {
        Some(start) => {
            let inside = text_of(&chars, start + 1, len);
            assert(inside@ == head@.skip(start + 1));
            trim(inside.as_str())
        },
        None => String::new(),
    }
}

fn read_state(fields: &Vec<String>) -> (out: String)
    ensures
        out@ == if fields@.len() > 0 {
            fields.deep_view()[0]
        } else {
            Seq::empty()
        },
{
    if fields.len() > 0 {
        fields[0].clone()
    } else {
        String::new()
    }
}

fn read_rss(fields: &Vec<String>) -> (out: u64)
    ensures
        out as nat == word(number_at(fields.deep_view(), 23) * 4096),
{
    let pages: u64 = read_number_at(fields, 23);
    pages.wrapping_mul(4096)
}

fn read_cpu_secs(fields: &Vec<String>) -> (out: u64)
    ensures
        out as nat == word(
            number_at(fields.deep_view(), 14) + number_at(fields.deep_view(), 15) + number_at(
                fields.deep_view(),
                16,
            ) + number_at(fields.deep_view(), 17),
        ) / 100,
{
    let utime: u64 = read_number_at(fields, 14);
    let stime: u64 = read_number_at(fields, 15);
    let cutime: u64 = read_number_at(fields, 16);
    let cstime: u64 = read_number_at(fields, 17);
    let ticks: u64 = utime.wrapping_add(stime).wrapping_add(cutime).wrapping_add(cstime);
    ticks / 100
}

/// Parse `/proc/<pid>/stat`. The tricky bit is that the comm field is `(name)` and may itself
/// contain spaces and `)`, so split on the *last* `)` instead of on whitespace.
pub fn parse_proc_stat(pid: i32, stat: &str, cmdline: &Option<Vec<u8>>) -> (out: Option<
    ProcessInfo,
>)
    ensures
        out.deep_view() == process_in(pid as int, stat@, bytes_of(*cmdline)),
{
    let (head, tail) = match part_stat(stat) {
        Some(parts) => parts,
        None => {
            return None;
        },
    };
    let fields = words_of(tail.as_str());
    assert(fields.deep_view().len() == fields@.len());
    let cmdline = match cmdline {
        Some(bytes) => read_command_line(bytes),
        None => String::new(),
    };
    Some(
        ProcessInfo {
            pid,
            name: read_name(head.as_str()),
            state: read_state(&fields),
            rss_bytes: read_rss(&fields),
            cpu_secs: read_cpu_secs(&fields),
            cmdline,
        },
    )
}

/// An entry of `/proc`, with what could be read in it.
pub struct ProcEntry {
    /// The entry's file name.
    pub name: Vec<u8>,
    /// What the file `stat` in it holds.
    pub stat: Option<String>,
    /// What the file `cmdline` in it holds.
    pub cmdline: Option<Vec<u8>>,
}

/// The process id that an entry's name is, if it is one.
pub open spec fn pid_in(name: Seq<u8>) -> Option<int> {
    numbers::signed_read(text::lossy_text(name))
}

/// The process id that an entry's name is, if it is one.
pub fn pid_named(name: &Vec<u8>) -> (out: Option<i32>)
    ensures
        out is Some == pid_in(name@) is Some,
        out matches Some(pid) ==> pid_in(name@) == Some(pid as int),
{
    let shown = read_lossy(name);
    parse_signed(shown.as_str())
}

/// The process that an entry of `/proc` describes, if it describes one.
pub open spec fn process_at(entry: ProcEntry) -> Option<ProcessView> {
    match (pid_in(entry.name@), entry.stat) {
        (Some(pid), Some(stat)) => process_in(pid, stat@, bytes_of(entry.cmdline)),
        _ => None,
    }
}

/// The processes that entries of `/proc` describe, in order.
pub open spec fn processes(entries: Seq<ProcEntry>) -> Seq<ProcessView>
    decreases entries.len(),
{
    if entries.len() == 0 {
        Seq::empty()
    } else {
        let before = processes(entries.drop_last());
        match process_at(entries.last()) {
            Some(process) => before.push(process),
            None => before,
        }
    }
}

/// List every process visible in this container's PID namespace.
pub fn process_list(entries: &Vec<ProcEntry>) -> (out: Vec<ProcessInfo>)
    ensures
        out.deep_view() == processes(entries@),
{
    let mut out: Vec<ProcessInfo> = Vec::new();
    let mut i: usize = 0;
    assert(out.deep_view() == processes(entries@.take(0)));
    while i < entries.len()
        invariant
            i <= entries@.len(),
            out.deep_view() == processes(entries@.take(i as int)),
        decreases entries@.len() - i,
    {
        let ghost before = out.deep_view();
        assert(entries@.take(i + 1).drop_last() == entries@.take(i as int));
        if let Some(pid) = pid_named(&entries[i].name) {
            if let Some(stat) = &entries[i].stat {
                if let Some(process) = parse_proc_stat(pid, stat.as_str(), &entries[i].cmdline) {
                    out.push(process);
                    assert(out.deep_view() == before.push(process@));
                }
            }
        }
        i += 1;
    }
    assert(entries@.take(entries@.len() as int) == entries@);
    out
}

/// Whether one of the processes has exactly this name.
pub open spec fn any_named(processes: Seq<ProcessView>, name: Seq<char>) -> bool {
    exists|i: int| 0 <= i < processes.len() && (#[trigger] processes[i]).name == name
}

/// Whether a process with exactly this `comm` name is alive in this PID namespace.
pub fn process_running(name: &str, entries: &Vec<ProcEntry>) -> (yes: bool)
    ensures
        yes == any_named(processes(entries@), name@),
{
    let all = process_list(entries);
    let mut i: usize = 0;
    while i < all.len()
        invariant
            i <= all@.len(),
            all.deep_view() == processes(entries@),
            forall|k: int| 0 <= k < i ==> (#[trigger] processes(entries@)[k]).name != name@,
        decreases all@.len() - i,
    {
        assert(processes(entries@)[i as int] == all@[i as int]@);
        if same(all[i].name.as_str(), name) {
            return true;
        }
        i += 1;
    }
    false
}

// ---------------------------------------------------------------------------------------------
// Processor, memory and disk
// ---------------------------------------------------------------------------------------------

/// Clock ticks that the processors spent, all together.
pub struct CpuTimes {
    pub user: u64,
    pub nice: u64,
    pub system: u64,
    pub idle: u64,
}

/// The numbers among the words, in order.
pub open spec fn numbers_in(words: Seq<Seq<char>>) -> Seq<nat>
    decreases words.len(),
{
    if words.len() == 0 {
        Seq::empty()
    } else {
        let before = numbers_in(words.drop_last());
        match numbers::unsigned_read(words.last(), u64::MAX as nat) {
            Some(n) => before.push(n),
            None => before,
        }
    }
}

/// The numbers on the line of `/proc/stat` that is about all processors together: those among the
/// eight words that follow its name.
pub open spec fn cpu_numbers(line: Seq<char>) -> Option<Seq<nat>> {
    let all = text::words(line);
    if all.len() > 0 && all[0] == "cpu"@ {
        let end = if all.len() < 9 {
            all.len() as int
        } else {
            9
        };
        Some(numbers_in(all.subrange(1, end)))
    } else {
        None
    }
}

/// The first four numbers on the last of the lines that is about all processors together and
/// holds that many; zeros where there is none.
pub open spec fn cpu_on(lines: Seq<Seq<char>>) -> (nat, nat, nat, nat)
    decreases lines.len(),
{
    if lines.len() == 0 {
        (0, 0, 0, 0)
    } else {
        match cpu_numbers(lines.last()) {
            Some(ticks) => if ticks.len() >= 4 {
                (ticks[0], ticks[1], ticks[2], ticks[3])
            } else {
                cpu_on(lines.drop_last())
            },
            None => cpu_on(lines.drop_last()),
        }
    }
}

fn read_numbers(words: &Vec<String>, from: usize, to: usize) -> (out: Vec<u64>)
    requires
        from <= to <= words@.len(),
    ensures
        numbers_in(words.deep_view().subrange(from as int, to as int)) == out@.map_values(
            |n: u64| n as nat,
        ),
{
    let mut out: Vec<u64> = Vec::new();
    let mut i: usize = from;
    let ghost as_nat = |n: u64| n as nat;
    assert(numbers_in(words.deep_view().subrange(from as int, from as int)) == out@.map_values(
        as_nat,
    ));
    while i < to
        invariant
            from <= i <= to <= words@.len(),
            as_nat == (|n: u64| n as nat),
            numbers_in(words.deep_view().subrange(from as int, i as int)) == out@.map_values(as_nat),
        decreases to - i,
    {
        let ghost now = words.deep_view().subrange(from as int, i + 1);
        let ghost before = out@;
        assert(now.drop_last() == words.deep_view().subrange(from as int, i as int));
        assert(now.last() == words@[i as int]@);
        if let Some(n) = parse_unsigned(words[i].as_str(), u64::MAX) {
            out.push(n);
            assert(out@.map_values(as_nat) == before.map_values(as_nat).push(n as nat));
        }
        i += 1;
    }
    out
}

/// The processor times that a `/proc/stat` tells.
pub fn cpu_times(stat: &str) -> (out: CpuTimes)
    ensures
        (out.user as nat, out.nice as nat, out.system as nat, out.idle as nat) == cpu_on(
            text::lines(stat@),
        ),
{
    let lines = lines_of(stat);
    let mut out = CpuTimes { user: 0, nice: 0, system: 0, idle: 0 };
    let mut i: usize = 0;
    while i < lines.len()
        invariant
            i <= lines@.len(),
            (out.user as nat, out.nice as nat, out.system as nat, out.idle as nat) == cpu_on(
                lines.deep_view().take(i as int),
            ),
        decreases lines@.len() - i,
    {
        let ghost now = lines.deep_view().take(i + 1);
        assert(now.drop_last() == lines.deep_view().take(i as int));
        assert(now.last() == lines@[i as int]@);
        let all = words_of(lines[i].as_str());
        if all.len() > 0 {
            assert(all.deep_view()[0] == all@[0]@);
            if same(all[0].as_str(), "cpu") {
                let end: usize = if all.len() < 9 {
                    all.len()
                } else {
                    9
                };
                let v = read_numbers(&all, 1, end);
                assert(cpu_numbers(now.last()) == Some(v@.map_values(|n: u64| n as nat)));
                if v.len() >= 4 {
                    out = CpuTimes { user: v[0], nice: v[1], system: v[2], idle: v[3] };
                }
            }
        }
        i += 1;
    }
    assert(lines.deep_view().take(lines@.len() as int) == lines.deep_view());
    out
}

/// Whether a line of `/proc/stat` is about one processor: its name is `cpu` and a number.
pub open spec fn is_one_cpu(line: Seq<char>) -> bool {
    let all = text::words(line);
    all.len() > 0 && text::begins_with(all[0], "cpu"@) && all[0] != "cpu"@
}

/// How many processors have a line of their own.
pub open spec fn processors_on(lines: Seq<Seq<char>>) -> nat {
    lines.filter(|line: Seq<char>| is_one_cpu(line)).len()
}

/// How many processors a `/proc/stat` tells of.
pub fn cpu_count(stat: &str) -> (count: u64)
    ensures
        count as nat == processors_on(text::lines(stat@)),
        count as nat == text::lines(stat@).filter(|line: Seq<char>| is_one_cpu(line)).len(),
{
    let lines = lines_of(stat);
    let ghost whole = lines.deep_view();
    let ghost about_one = |line: Seq<char>| is_one_cpu(line);
    let mut count: u64 = 0;
    let mut i: usize = 0;
    proof {
        reveal(Seq::filter);
        assert(whole.take(0).filter(about_one).len() == 0);
    }
    while i < lines.len()
        invariant
            i <= lines@.len(),
            whole == lines.deep_view(),
            about_one == (|line: Seq<char>| is_one_cpu(line)),
            count <= i,
            count as nat == whole.take(i as int).filter(about_one).len(),
        decreases lines@.len() - i,
    {
        let ghost now = whole.take(i + 1);
        proof {
            reveal(Seq::filter);
            assert(now.drop_last() == whole.take(i as int));
            assert(now.last() == lines@[i as int]@);
        }
        let all = words_of(lines[i].as_str());
        if all.len() > 0 {
            assert(all.deep_view()[0] == all@[0]@);
            if starts_with(all[0].as_str(), "cpu") && !same(all[0].as_str(), "cpu") {
                count += 1;
            }
        }
        i += 1;
    }
    assert(whole.take(whole.len() as int) == whole);
    count
}

impl CpuTimes {
    /// Ticks spent on work.
    pub open spec fn worked(&self) -> nat {
        word((self.user + self.nice + self.system) as nat)
    }

    /// Ticks spent on work.
    #[verifier::spinoff_prover]
    fn work(&self) -> (out: u64)
        ensures
            out as nat == self.worked(),
    {
        let some: u64 = self.user.wrapping_add(self.nice);
        assert(some == (self.user + self.nice) % 0x1_0000_0000_0000_0000);
        let all: u64 = some.wrapping_add(self.system);
        assert(all == (some + self.system) % 0x1_0000_0000_0000_0000);
        all
    }
}

/// What is left of `n` without `taken`, never less than nothing.
pub open spec fn left(n: nat, taken: nat) -> nat {
    if taken <= n {
        (n - taken) as nat
    } else {
        0
    }
}

/// The ticks spent on work and the idle ones between two samples, taken in that order.
pub fn cpu_spent(earlier: &CpuTimes, later: &CpuTimes) -> (out: (u64, u64))
    ensures
        out.0 as nat == left(later.worked(), earlier.worked()),
        out.1 as nat == left(later.idle as nat, earlier.idle as nat),
{
    let busy_before: u64 = earlier.work();
    let busy_after: u64 = later.work();
    (busy_after.saturating_sub(busy_before), later.idle.saturating_sub(earlier.idle))
}

/// What stands on the first of the lines that begins with the key: a number of KiB, as bytes.
pub open spec fn meminfo_on(lines: Seq<Seq<char>>, key: Seq<char>) -> nat
    decreases lines.len(),
{
    if lines.len() == 0 {
        0
    } else if text::begins_with(lines[0], key) {
        word(number_at(text::words(lines[0]), 1) * 1024)
    } else {
        meminfo_on(lines.drop_first(), key)
    }
}

/// Parse a keyed `/proc/meminfo` value (kB) into bytes, looking up `key`.
pub fn meminfo_kb(meminfo: &str, key: &str) -> (bytes: u64)
    ensures
        bytes as nat == meminfo_on(text::lines(meminfo@), key@),
{
    let lines = lines_of(meminfo);
    let ghost whole = lines.deep_view();
    let mut i: usize = 0;
    assert(whole.skip(0) == whole);
    while i < lines.len()
        invariant
            i <= lines@.len(),
            whole == lines.deep_view(),
            whole == text::lines(meminfo@),
            meminfo_on(whole, key@) == meminfo_on(whole.skip(i as int), key@),
        decreases lines@.len() - i,
    {
        assert(whole.skip(i as int)[0] == lines@[i as int]@);
        assert(whole.skip(i as int).drop_first() == whole.skip(i + 1));
        if starts_with(lines[i].as_str(), key) {
            let fields = words_of(lines[i].as_str());
            let kb: u64 = read_number_at(&fields, 1);
            return kb.wrapping_mul(1024);
        }
        i += 1;
    }
    0
}

/// What the file system tells of itself: the size of a block, how many there are, how many are
/// free.
pub struct BlockCounts {
    pub block: u64,
    pub blocks: u64,
    pub free: u64,
}

/// The bytes that a file system holds, and those of them that are in use.
pub open spec fn disk_in(counts: Option<BlockCounts>) -> (nat, nat) {
    match counts {
        Some(c) => {
            let total = word((c.blocks * c.block) as nat);
            (total, left(total, word((c.free * c.block) as nat)))
        },
        None => (0, 0),
    }
}

/// Total and used bytes of a file system; nothing where it could not be asked.
pub fn disk_usage(counts: Option<BlockCounts>) -> (out: (u64, u64))
    ensures
        counts is None ==> out == (0u64, 0u64),
        counts matches Some(c) ==> {
            &&& out.0 as nat == word((c.blocks * c.block) as nat)
            &&& out.1 as nat == left(out.0 as nat, word((c.free * c.block) as nat))
        },
        (out.0 as nat, out.1 as nat) == disk_in(counts),
{
    match counts {
        Some(c) => {
            let total: u64 = c.blocks.wrapping_mul(c.block);
            let free: u64 = c.free.wrapping_mul(c.block);
            (total, total.saturating_sub(free))
        },
        None => (0, 0),
    }
}

/// What can be told of the host in whole numbers, at one point in time.
pub struct HostFigures {
    /// Hostname as the kernel sees it.
    pub hostname: String,
    /// Total physical memory in bytes.
    pub mem_total_bytes: u64,
    /// Physical memory in use in bytes.
    pub mem_used_bytes: u64,
    /// Memory currently available to new processes, in bytes.
    pub mem_available_bytes: u64,
    /// Swap total in bytes.
    pub swap_total_bytes: u64,
    /// Swap in use in bytes.
    pub swap_used_bytes: u64,
    /// Number of running processes visible in this container's PID namespace.
    pub process_count: u64,
    /// Root filesystem total bytes (the filesystem holding `/`).
    pub disk_total_bytes: u64,
    /// Root filesystem used bytes.
    pub disk_used_bytes: u64,
}

/// What a [`HostFigures`] says.
#[verifier::ext_equal]
pub struct FiguresView {
    pub hostname: Seq<char>,
    pub mem_total: nat,
    pub mem_used: nat,
    pub mem_available: nat,
    pub swap_total: nat,
    pub swap_used: nat,
    pub process_count: nat,
    pub disk_total: nat,
    pub disk_used: nat,
}

impl View for HostFigures {
    type V = FiguresView;

    open spec fn view(&self) -> FiguresView {
        FiguresView {
            hostname: self.hostname@,
            mem_total: self.mem_total_bytes as nat,
            mem_used: self.mem_used_bytes as nat,
            mem_available: self.mem_available_bytes as nat,
            swap_total: self.swap_total_bytes as nat,
            swap_used: self.swap_used_bytes as nat,
            process_count: self.process_count as nat,
            disk_total: self.disk_total_bytes as nat,
            disk_used: self.disk_used_bytes as nat,
        }
    }
}

/// What can be told of a host, given what the kernel tells.
pub open spec fn figures_of(
    hostname: Seq<char>,
    meminfo: Seq<Seq<char>>,
    entries: Seq<ProcEntry>,
    counts: Option<BlockCounts>,
) -> FiguresView {
    let total = meminfo_on(meminfo, "MemTotal:"@);
    let available = meminfo_on(meminfo, "MemAvailable:"@);
    let swap = meminfo_on(meminfo, "SwapTotal:"@);
    FiguresView {
        hostname: text::trimmed(hostname),
        mem_total: total,
        mem_used: left(total, available),
        mem_available: available,
        swap_total: swap,
        swap_used: left(swap, meminfo_on(meminfo, "SwapFree:"@)),
        process_count: processes(entries).len(),
        disk_total: disk_in(counts).0,
        disk_used: disk_in(counts).1,
    }
}

/// Works out the figures from what was read: the kernel's host name, `/proc/meminfo`, the entries
/// of `/proc` and what the root file system tells of itself.
pub fn host_figures(
    hostname: &str,
    meminfo: &str,
    entries: &Vec<ProcEntry>,
    counts: Option<BlockCounts>,
) -> (out: HostFigures)
    ensures
        out@ == figures_of(hostname@, text::lines(meminfo@), entries@, counts),
        out.hostname@ == text::trimmed(hostname@),
        out.mem_total_bytes as nat == meminfo_on(text::lines(meminfo@), "MemTotal:"@),
        out.mem_available_bytes as nat == meminfo_on(text::lines(meminfo@), "MemAvailable:"@),
        out.mem_used_bytes as nat == left(
            out.mem_total_bytes as nat,
            out.mem_available_bytes as nat,
        ),
        out.swap_total_bytes as nat == meminfo_on(text::lines(meminfo@), "SwapTotal:"@),
        out.swap_used_bytes as nat == left(
            out.swap_total_bytes as nat,
            meminfo_on(text::lines(meminfo@), "SwapFree:"@),
        ),
        out.process_count as nat == processes(entries@).len(),
        counts is None ==> out.disk_total_bytes == 0 && out.disk_used_bytes == 0,
        counts matches Some(c) ==> {
            &&& out.disk_total_bytes as nat == word((c.blocks * c.block) as nat)
            &&& out.disk_used_bytes as nat == left(
                out.disk_total_bytes as nat,
                word((c.free * c.block) as nat),
            )
        },
{
    let mem_total: u64 = meminfo_kb(meminfo, "MemTotal:");
    let mem_available: u64 = meminfo_kb(meminfo, "MemAvailable:");
    let swap_total: u64 = meminfo_kb(meminfo, "SwapTotal:");
    let swap_free: u64 = meminfo_kb(meminfo, "SwapFree:");
    let (disk_total, disk_used) = disk_usage(counts);
    let all = process_list(entries);
    assert(all.deep_view().len() == all@.len());
    HostFigures {
        hostname: trim(hostname),
        mem_total_bytes: mem_total,
        mem_used_bytes: mem_total.saturating_sub(mem_available),
        mem_available_bytes: mem_available,
        swap_total_bytes: swap_total,
        swap_used_bytes: swap_total.saturating_sub(swap_free),
        process_count: all.len() as u64,
        disk_total_bytes: disk_total,
        disk_used_bytes: disk_used,
    }
}

// ---------------------------------------------------------------------------------------------
// What reading the machine keeps to
// ---------------------------------------------------------------------------------------------

/// Every entry that is named by a process id and whose `stat` holds a closing bracket is one
/// process, with that id, whatever state it is in. No other entry is one. So there are as many
/// processes as such entries, in their order.
pub proof fn every_entry_of_a_process_is_listed(a: Seq<ProcEntry>, b: Seq<ProcEntry>, entry: ProcEntry)
    ensures
        processes(a + b) == processes(a) + processes(b),
        pid_in(entry.name@) is Some && (entry.stat matches Some(stat) && stat@.contains(')')) ==> {
            &&& processes(seq![entry]).len() == 1
            &&& processes(seq![entry])[0].pid == pid_in(entry.name@)->0
        },
        pid_in(entry.name@) is None || entry.stat is None || !entry.stat->0@.contains(')')
            ==> processes(seq![entry]).len() == 0,
    decreases b.len(),
{
    if b.len() > 0 {
        every_entry_of_a_process_is_listed(a, b.drop_last(), entry);
        assert((a + b).drop_last() == a + b.drop_last());
        assert((a + b).last() == b.last());
        assert(processes(a + b) == processes(a) + processes(b));
    } else {
        assert(a + b == a);
        assert(processes(a) + processes(b) == processes(a));
        assert(seq![entry].drop_last() == Seq::<ProcEntry>::empty());
        assert(seq![entry].last() == entry);
        assert(processes(Seq::<ProcEntry>::empty()) == Seq::<ProcessView>::empty());
        if let Some(stat) = entry.stat {
            text::a_last_place_is_the_last(stat@, ')');
        }
    }
}

/// The number of processes is the number of entries that are processes: those named by a process
/// id whose `stat` holds a closing bracket.
pub proof fn there_are_as_many_processes_as_entries_of_one(entries: Seq<ProcEntry>)
    ensures
        processes(entries).len() == entries.filter(
            |entry: ProcEntry|
                pid_in(entry.name@) is Some && entry.stat is Some && entry.stat->0@.contains(')'),
        ).len(),
    decreases entries.len(),
{
    reveal(Seq::filter);
    if entries.len() > 0 {
        let less = entries.drop_last();
        there_are_as_many_processes_as_entries_of_one(less);
        every_entry_of_a_process_is_listed(less, seq![entries.last()], entries.last());
        every_entry_of_a_process_is_listed(less, Seq::empty(), entries.last());
        assert(less + seq![entries.last()] == entries);
    }
}

/// A process is listed with what its `stat` says: its state is the first word behind the last
/// closing bracket, whatever that word is, its memory the twenty-fourth in pages, and its time the
/// sum of the fifteenth to the eighteenth in hundredths of a second.
pub proof fn a_process_is_what_its_stat_says(
    pid: int,
    before: Seq<char>,
    after: Seq<char>,
    cmdline: Option<Seq<u8>>,
)
    requires
        !after.contains(')'),
    ensures
        process_in(pid, before.push(')') + after, cmdline) matches Some(process) && {
            let fields = text::words(after);
            &&& process.pid == pid
            &&& fields.len() > 0 ==> process.state == fields[0]
            &&& fields.len() == 0 ==> process.state.len() == 0
            &&& fields.len() > 23 ==> {
                let pages = numbers::unsigned_read(fields[23], u64::MAX as nat);
                &&& pages is None ==> process.rss_bytes == 0
                &&& pages is Some && pages->0 * 4096 <= u64::MAX ==> process.rss_bytes == 4096
                    * pages->0
            }
            &&& fields.len() <= 23 ==> process.rss_bytes == 0
            &&& fields.len() > 17 ==> {
                let ticks = ticks_in(fields[14]) + ticks_in(fields[15]) + ticks_in(fields[16])
                    + ticks_in(fields[17]);
                ticks <= u64::MAX ==> process.cpu_secs == ticks / 100
            }
            &&& fields.len() <= 14 ==> process.cpu_secs == 0
            &&& cmdline is None ==> process.cmdline.len() == 0
            &&& cmdline matches Some(bytes) ==> process.cmdline == command_line(bytes)
        },
{
    let stat = before.push(')') + after;
    lemma_last_at(before, ')', after);
    assert(stat.skip(before.len() as int + 1) == after);
}

/// What a field counts, where it is a number.
pub open spec fn ticks_in(field: Seq<char>) -> int {
    match numbers::unsigned_read(field, u64::MAX as nat) {
        Some(n) => n as int,
        None => 0,
    }
}

/// The name of a process is what stands between the first opening bracket and the last closing one,
/// without the white space around it; where there is no opening bracket before, it is empty.
pub proof fn a_process_without_an_opening_bracket_has_no_name(
    pid: int,
    before: Seq<char>,
    after: Seq<char>,
    cmdline: Option<Seq<u8>>,
)
    requires
        !before.contains('('),
        !after.contains(')'),
    ensures
        process_in(pid, before.push(')') + after, cmdline) matches Some(process)
            && process.name.len() == 0,
{
    let stat = before.push(')') + after;
    lemma_last_at(before, ')', after);
    assert(stat.take(before.len() as int) == before);
    lemma_not_at(before, '(');
}

/// A process runs exactly where one of that name is listed, in whatever state: a name that is not
/// listed does not run.
pub proof fn a_process_runs_exactly_where_its_name_is_listed(
    processes: Seq<ProcessView>,
    name: Seq<char>,
)
    ensures
        any_named(processes, name) <==> processes.map_values(
            |process: ProcessView| process.name,
        ).contains(name),
{
    let names = processes.map_values(|process: ProcessView| process.name);
    if any_named(processes, name) {
        let i = choose|i: int| 0 <= i < processes.len() && (#[trigger] processes[i]).name == name;
        assert(names[i] == name);
    }
    if names.contains(name) {
        let i = choose|i: int| 0 <= i < names.len() && names[i] == name;
        assert(processes[i].name == name);
    }
}

/// An entry is that of a process exactly where its name is a process id written in digits.
pub proof fn a_process_is_named_by_its_id(name: Seq<u8>, n: nat)
    ensures
        text::lossy_text(name) == numbers::decimal(n) && n <= 0x7fff_ffff ==> pid_in(name) == Some(
            n as int,
        ),
        pid_in(name) is Some ==> forall|i: int|
            1 <= i < text::lossy_text(name).len() ==> '0' <= #[trigger] text::lossy_text(name)[i]
                <= '9',
        text::lossy_text(name).len() == 0 ==> pid_in(name) is None,
        text::lossy_text(name).len() > 0 && 'a' <= text::lossy_text(name)[0] <= 'z' ==> pid_in(name)
            is None,
{
    numbers::a_sign_says_which_way_a_number_counts(n, 0);
    numbers::only_digits_are_a_number(text::lossy_text(name), 0);
}

/// A command line is its arguments in order, with a blank between every two. An argument ends at a
/// zero byte, and empty ones are left out.
pub proof fn a_command_line_is_its_arguments(argument: Seq<u8>, rest: Seq<u8>)
    requires
        !argument.contains(0u8),
    ensures
        argument.len() > 0 ==> command_line(argument) == text::lossy_text(argument),
        argument.len() == 0 ==> command_line(argument) == Seq::<char>::empty(),
        argument.len() == 0 ==> command_line(argument.push(0u8) + rest) == command_line(rest),
        argument.len() > 0 && arguments(text::pieces(rest, 0u8)).len() > 0 ==> command_line(
            argument.push(0u8) + rest,
        ) == text::lossy_text(argument) + " "@ + command_line(rest),
        argument.len() > 0 && arguments(text::pieces(rest, 0u8)).len() == 0 ==> command_line(
            argument.push(0u8) + rest,
        ) == text::lossy_text(argument),
        arguments(text::pieces(rest, 0u8)).len() == 0 <==> forall|i: int|
            0 <= i < text::pieces(rest, 0u8).len() ==> (#[trigger] text::pieces(rest, 0u8)[i]).len()
                == 0,
{
    text::splitting_goes_piece_by_piece(argument, 0u8, rest);
    let tail = text::pieces(rest, 0u8);
    lemma_arguments_add_up(seq![argument], tail);
    lemma_no_arguments(tail);
    let shown = text::lossy_text(argument);
    assert(seq![argument].drop_last() == Seq::<Seq<u8>>::empty());
    assert(arguments(Seq::<Seq<u8>>::empty()) == Seq::<Seq<char>>::empty());
    assert(seq![argument].last() == argument);
    if argument.len() > 0 {
        assert(arguments(seq![argument]) == seq![shown]);
        text::joining_puts_the_separator_between(seq![shown], arguments(tail), shown, " "@);
        if arguments(tail).len() == 0 {
            assert(seq![shown] + arguments(tail) == seq![shown]);
        }
    } else {
        assert(arguments(seq![argument]) == Seq::<Seq<char>>::empty());
        assert(Seq::<Seq<char>>::empty() + arguments(tail) == arguments(tail));
    }
}

proof fn lemma_arguments_add_up(a: Seq<Seq<u8>>, b: Seq<Seq<u8>>)
    ensures
        arguments(a + b) == arguments(a) + arguments(b),
    decreases b.len(),
{
    if b.len() == 0 {
        assert(a + b == a);
        assert(arguments(a) + arguments(b) == arguments(a));
    } else {
        lemma_arguments_add_up(a, b.drop_last());
        assert((a + b).drop_last() == a + b.drop_last());
        assert((a + b).last() == b.last());
        assert(arguments(a + b) == arguments(a) + arguments(b));
    }
}

proof fn lemma_no_arguments(parts: Seq<Seq<u8>>)
    ensures
        arguments(parts).len() == 0 <==> forall|i: int|
            0 <= i < parts.len() ==> (#[trigger] parts[i]).len() == 0,
    decreases parts.len(),
{
    if parts.len() > 0 {
        let less = parts.drop_last();
        lemma_no_arguments(less);
        if arguments(parts).len() == 0 {
            assert forall|i: int| 0 <= i < parts.len() implies (#[trigger] parts[i]).len() == 0 by {
                if i < less.len() {
                    assert(less[i] == parts[i]);
                }
            }
        } else if less.len() > 0 && arguments(less).len() > 0 {
            let i = choose|i: int| 0 <= i < less.len() && (#[trigger] less[i]).len() != 0;
            assert(parts[i].len() != 0);
        } else {
            assert(parts[parts.len() - 1].len() != 0);
        }
    }
}

/// The times are those of the last line whose first word is `cpu` and that has four numbers behind
/// it: user, nice, system and idle, in this order.
pub proof fn times_are_those_of_the_cpu_line(lines: Seq<Seq<char>>, line: Seq<char>)
    ensures
        ({
            let all = text::words(line);
            let reads = |i: int| numbers::unsigned_read(all[i], u64::MAX as nat);
            &&& all.len() >= 5 && all[0] == "cpu"@ && reads(1) is Some && reads(2) is Some && reads(3)
                is Some && reads(4) is Some ==> cpu_on(lines.push(line)) == (
                reads(1)->0,
                reads(2)->0,
                reads(3)->0,
                reads(4)->0,
            )
            &&& all.len() < 5 || all[0] != "cpu"@ ==> cpu_on(lines.push(line)) == cpu_on(lines)
        }),
        cpu_on(Seq::<Seq<char>>::empty()) == (0nat, 0nat, 0nat, 0nat),
{
    let more = lines.push(line);
    assert(more.drop_last() == lines);
    assert(more.last() == line);
    let all = text::words(line);
    if all.len() > 0 && all[0] == "cpu"@ {
        let end: int = if all.len() < 9 {
            all.len() as int
        } else {
            9
        };
        let counted = all.subrange(1, end);
        lemma_numbers_are_fewer(counted);
        if all.len() >= 5 {
            let four = counted.take(4);
            lemma_numbers_add_up(four, counted.skip(4));
            assert(four + counted.skip(4) == counted);
            reveal_with_fuel(numbers_in, 5);
            assert(four.drop_last().drop_last().drop_last().drop_last().len() == 0);
            assert(four[0] == all[1] && four[1] == all[2] && four[2] == all[3] && four[3]
                == all[4]);
        }
    }
}

proof fn lemma_numbers_are_fewer(words: Seq<Seq<char>>)
    ensures
        numbers_in(words).len() <= words.len(),
    decreases words.len(),
{
    if words.len() > 0 {
        lemma_numbers_are_fewer(words.drop_last());
    }
}

proof fn lemma_numbers_add_up(a: Seq<Seq<char>>, b: Seq<Seq<char>>)
    ensures
        numbers_in(a + b) == numbers_in(a) + numbers_in(b),
    decreases b.len(),
{
    if b.len() == 0 {
        assert(a + b == a);
        assert(numbers_in(a) + numbers_in(b) == numbers_in(a));
    } else {
        lemma_numbers_add_up(a, b.drop_last());
        assert((a + b).drop_last() == a + b.drop_last());
        assert((a + b).last() == b.last());
        assert(numbers_in(a + b) == numbers_in(a) + numbers_in(b));
    }
}

/// A line is that of one processor exactly where its first word is `cpu` with something behind it.
pub proof fn each_processor_has_a_line(line: Seq<char>, number: Seq<char>)
    ensures
        text::words(line).len() > 0 && text::words(line)[0] == "cpu"@ + number ==> (is_one_cpu(line)
            <==> number.len() > 0),
        text::words(line).len() == 0 ==> !is_one_cpu(line),
        text::words(line).len() > 0 && !text::begins_with(text::words(line)[0], "cpu"@)
            ==> !is_one_cpu(line),
{
    let word = "cpu"@ + number;
    assert(word.take("cpu"@.len() as int) == "cpu"@);
    if number.len() == 0 {
        assert(word == "cpu"@);
    }
}

/// An amount of memory is what the second word of the first line that begins with its name counts,
/// in kibibytes. What no line names is none.
pub proof fn memory_is_what_its_line_says(lines: Seq<Seq<char>>, key: Seq<char>, i: int)
    ensures
        0 <= i < lines.len() && text::begins_with(lines[i], key) && (forall|k: int|
            0 <= k < i ==> !text::begins_with(#[trigger] lines[k], key)) ==> {
            let all = text::words(lines[i]);
            let count = numbers::unsigned_read(all[1], u64::MAX as nat);
            &&& all.len() >= 2 && count is Some && count->0 * 1024 <= u64::MAX ==> meminfo_on(
                lines,
                key,
            ) == 1024 * count->0
            &&& all.len() < 2 || count is None ==> meminfo_on(lines, key) == 0
        },
        (forall|k: int| 0 <= k < lines.len() ==> !text::begins_with(#[trigger] lines[k], key))
            ==> meminfo_on(lines, key) == 0,
    decreases lines.len(),
{
    if lines.len() > 0 && !text::begins_with(lines[0], key) {
        let rest = lines.drop_first();
        memory_is_what_its_line_says(rest, key, i - 1);
        assert forall|k: int| 0 <= k < rest.len() implies #[trigger] rest[k] == lines[k + 1] by {}
        if 0 < i < lines.len() {
            assert(rest[i - 1] == lines[i]);
        }
    } else if lines.len() > 0 {
        assert(text::begins_with(lines[0], key));
    }
}

/// What is left and what was taken make up the whole; where more was taken than there was, nothing
/// is left. A number that fits in a word is kept as it is.
pub proof fn what_is_left_and_what_was_taken_make_up_the_whole(n: nat, taken: nat)
    ensures
        taken <= n ==> left(n, taken) + taken == n,
        taken > n ==> left(n, taken) == 0,
        n <= u64::MAX ==> word(n) == n,
{
}

/// What is in use of a disk and what is free of it make up the whole, which is all of its blocks.
pub proof fn a_disk_is_what_is_used_and_what_is_free(c: BlockCounts)
    requires
        c.blocks * c.block <= u64::MAX,
        c.free <= c.blocks,
    ensures
        disk_in(Some(c)).0 == c.blocks * c.block,
        disk_in(Some(c)).1 + c.free * c.block == c.blocks * c.block,
        disk_in(None) == (0nat, 0nat),
{
    assert(c.free * c.block <= c.blocks * c.block) by (nonlinear_arith)
        requires
            c.free <= c.blocks,
    ;
}

/// The ticks spent on work are those of users, of what runs at low priority and of the system, and
/// not the idle ones.
pub proof fn work_is_what_is_not_idle(times: CpuTimes, more: CpuTimes)
    requires
        times.user + times.nice + times.system <= u64::MAX,
    ensures
        times.worked() == times.user + times.nice + times.system,
        more.user == times.user && more.nice == times.nice && more.system == times.system
            ==> more.worked() == times.worked(),
{
}

/// Memory and swap that are in use, with what the kernel calls available or free, make up the whole.
/// What is told of the disk, of the processes and of the name is what the others tell.
pub proof fn figures_add_up(
    hostname: Seq<char>,
    meminfo: Seq<Seq<char>>,
    entries: Seq<ProcEntry>,
    counts: Option<BlockCounts>,
)
    ensures
        ({
            let told = figures_of(hostname, meminfo, entries, counts);
            &&& told.mem_total == meminfo_on(meminfo, "MemTotal:"@)
            &&& told.mem_available == meminfo_on(meminfo, "MemAvailable:"@)
            &&& told.mem_available <= told.mem_total ==> told.mem_used + told.mem_available
                == told.mem_total
            &&& told.mem_available > told.mem_total ==> told.mem_used == 0
            &&& told.swap_total == meminfo_on(meminfo, "SwapTotal:"@)
            &&& meminfo_on(meminfo, "SwapFree:"@) <= told.swap_total ==> told.swap_used + meminfo_on(
                meminfo,
                "SwapFree:"@,
            ) == told.swap_total
            &&& told.process_count == processes(entries).len()
            &&& (told.disk_total, told.disk_used) == disk_in(counts)
            &&& text::trimmed(hostname) == told.hostname
        }),
{
}

/// Processors are counted line by line, each once.
pub proof fn processors_are_counted_line_by_line(a: Seq<Seq<char>>, b: Seq<Seq<char>>, line: Seq<char>)
    ensures
        processors_on(a + b) == processors_on(a) + processors_on(b),
        processors_on(seq![line]) == if text::words(line).len() > 0 && text::begins_with(
            text::words(line)[0],
            "cpu"@,
        ) && text::words(line)[0].len() > 3 {
            1nat
        } else {
            0
        },
{
    let counts = |line: Seq<char>| is_one_cpu(line);
    Seq::filter_distributes_over_add(a, b, counts);
    reveal(Seq::filter);
    reveal_strlit("cpu");
    assert(seq![line].drop_last() == Seq::<Seq<char>>::empty());
    assert(Seq::<Seq<char>>::empty().filter(counts).len() == 0);
    assert(seq![line].last() == line);
    if text::words(line).len() > 0 && text::begins_with(text::words(line)[0], "cpu"@) {
        let word = text::words(line)[0];
        assert(word.len() == 3 ==> word.take(3) == word);
    }
}

} // verus!
