//! What a benchmark of monoliths adds up, and what the system's own tables say of memory,
//! processors, disks and networks.
use vstd::prelude::*;

use crate::monolith_producer::MonolithBlock;
use crate::text;
use crate::text::line_starts_with;
use crate::text::parse_u64_chars;
use crate::text::split_lines;
use crate::text::split_words;

verus! {

/// What is measured.
#[derive(Debug, Clone, Copy)]
pub struct BenchmarkConfig {
    pub monolith_count: usize,
    pub parallel_operations: usize,
    pub block_range_size: u64,
    pub enable_storage_benchmark: bool,
    pub enable_p2p_benchmark: bool,
    pub warmup_iterations: usize,
}

impl Default for BenchmarkConfig {
    fn default() -> (r: Self)
        ensures
            r == (BenchmarkConfig {
                monolith_count: 100,
                parallel_operations: 10,
                block_range_size: 1000,
                enable_storage_benchmark: true,
                enable_p2p_benchmark: true,
                warmup_iterations: 5,
            }),
    {
        BenchmarkConfig {
            monolith_count: 100,
            parallel_operations: 10,
            block_range_size: 1000,
            enable_storage_benchmark: true,
            enable_p2p_benchmark: true,
            warmup_iterations: 5,
        }
    }
}

/// What the making of monoliths adds up to. Averages and rates follow from it.
#[derive(Debug, Clone, Copy)]
pub struct CreationTotals {
    pub monoliths: u64,
    pub blocks: u64,
    pub transactions: u64,
    pub proof_bytes: u64,
    /// Zero where none was made.
    pub fastest_ms: u64,
    pub slowest_ms: u64,
}

impl Default for CreationTotals {
    fn default() -> (r: Self)
        ensures
            r == (CreationTotals {
                monoliths: 0,
                blocks: 0,
                transactions: 0,
                proof_bytes: 0,
                fastest_ms: 0,
                slowest_ms: 0,
            }),
    {
        CreationTotals {
            monoliths: 0,
            blocks: 0,
            transactions: 0,
            proof_bytes: 0,
            fastest_ms: 0,
            slowest_ms: 0,
        }
    }
}

impl CreationTotals {
    /// Adds a monolith that took so many milliseconds.
    pub fn record(&mut self, block: &MonolithBlock, elapsed_ms: u64)
        requires
            old(self).monoliths < u64::MAX,
            old(self).blocks + block.block_count <= u64::MAX,
            old(self).transactions + block.total_transactions <= u64::MAX,
            old(self).proof_bytes + block.zkp_proof@.len() <= u64::MAX,
        ensures
            *final(self) == (CreationTotals {
                monoliths: (old(self).monoliths + 1) as u64,
                blocks: (old(self).blocks + block.block_count) as u64,
                transactions: (old(self).transactions + block.total_transactions) as u64,
                proof_bytes: (old(self).proof_bytes + block.zkp_proof@.len()) as u64,
                fastest_ms: if old(self).monoliths == 0 || elapsed_ms < old(self).fastest_ms {
                    elapsed_ms
                } else {
                    old(self).fastest_ms
                },
                slowest_ms: if old(self).monoliths == 0 || elapsed_ms > old(self).slowest_ms {
                    elapsed_ms
                } else {
                    old(self).slowest_ms
                },
            }),
    {
        if self.monoliths == 0 || elapsed_ms < self.fastest_ms {
            self.fastest_ms = elapsed_ms;
        }
        if self.monoliths == 0 || elapsed_ms > self.slowest_ms {
            self.slowest_ms = elapsed_ms;
        }
        self.monoliths = self.monoliths + 1;
        self.blocks = self.blocks + block.block_count;
        self.transactions = self.transactions + block.total_transactions;
        self.proof_bytes = self.proof_bytes + block.zkp_proof.len() as u64;
    }
}

/// Why a table gives no number: what stands in its place is not one.
#[derive(Debug, Clone, Copy, PartialEq, Eq, Structural)]
pub struct BadNumber;

/// The number that follows a label, on the first line from line `i` on that has both.
pub open spec fn labelled_from(lines: Seq<Seq<char>>, label: Seq<char>, i: int) -> Result<
    Option<u64>,
    BadNumber,
>
    decreases lines.len() - i,
{
    if i < 0 || i >= lines.len() {
        Ok(None)
    } else {
        let w = text::words(lines[i]);
        if label.is_prefix_of(lines[i]) && w.len() >= 2 {
            match text::parsed_u64(w[1]) {
                Some(n) => Ok(Some(n)),
                None => Err(BadNumber),
            }
        } else {
            labelled_from(lines, label, i + 1)
        }
    }
}

fn labelled_number(lines: &Vec<Vec<char>>, label: &str) -> (r: Result<Option<u64>, BadNumber>)
    ensures
        r == labelled_from(text::char_texts(lines@), label@, 0),
{
    let ghost all = text::char_texts(lines@);
    let mut i: usize = 0;
    while i < lines.len()
        invariant
            i <= lines@.len(),
            all == text::char_texts(lines@),
            labelled_from(all, label@, i as int) == labelled_from(all, label@, 0),
        decreases lines@.len() - i,
    {
        assert(all[i as int] == lines@[i as int]@);
        if line_starts_with(lines[i].as_slice(), label) {
            let w = split_words(lines[i].as_slice());
            assert(text::char_texts(w@).len() == w@.len());
            if w.len() >= 2 {
                assert(text::char_texts(w@)[1] == w@[1]@);
                return match parse_u64_chars(w[1].as_slice()) {
                    Some(n) => Ok(Some(n)),
                    None => Err(BadNumber),
                };
            }
        }
        i += 1;
    }
    Ok(None)
}

/// What memory is taken to be where nothing says so, in KiB: 8 GiB.
pub const DEFAULT_MEMORY_KB: u64 = 8388608;

/// How much memory there is and how much of it is free, in KiB.
#[derive(Debug, Clone, Copy, PartialEq, Eq, Structural)]
pub struct MemoryKb {
    pub total: u64,
    pub available: u64,
}

/// The memory that the system's table speaks of; none where it does not say what is free.
pub open spec fn memory_of(table: Seq<char>) -> Result<Option<MemoryKb>, BadNumber> {
    match labelled_from(text::lines(table), "MemAvailable:"@, 0) {
        Err(e) => Err(e),
        Ok(None) => Ok(None),
        Ok(Some(available)) => match labelled_from(text::lines(table), "MemTotal:"@, 0) {
            Err(e) => Err(e),
            Ok(None) => Ok(Some(MemoryKb { total: DEFAULT_MEMORY_KB, available })),
            Ok(Some(total)) => Ok(Some(MemoryKb { total, available })),
        },
    }
}

/// Reads the system's table of memory.
pub fn read_memory(meminfo: &str) -> (r: Result<Option<MemoryKb>, BadNumber>)
    ensures
        r == memory_of(meminfo@),
{
    let lines = split_lines(meminfo);
    match labelled_number(&lines, "MemAvailable:") {
        Err(e) => Err(e),
        Ok(None) => Ok(None),
        Ok(Some(available)) => match labelled_number(&lines, "MemTotal:") {
            Err(e) => Err(e),
            Ok(None) => Ok(Some(MemoryKb { total: DEFAULT_MEMORY_KB, available })),
            Ok(Some(total)) => Ok(Some(MemoryKb { total, available })),
        },
    }
}

/// A number, or zero where there is none.
pub open spec fn number_or_zero(t: Seq<char>) -> nat {
    match text::parsed_u64(t) {
        Some(n) => n as nat,
        None => 0,
    }
}

fn read_or_zero(t: &[char]) -> (r: u64)
    ensures
        r == number_or_zero(t@),
{
    match parse_u64_chars(t) {
        Some(n) => n,
        None => 0,
    }
}

/// What the words from 1 up to `n` add up to.
pub open spec fn sum_of_words(w: Seq<Seq<char>>, n: int) -> nat
    decreases n,
{
    if n <= 1 {
        0
    } else {
        sum_of_words(w, n - 1) + number_or_zero(w[n - 1])
    }
}

/// How long processors were idle, and how long they ran in all.
#[derive(Debug, Clone, Copy, PartialEq, Eq, Structural)]
pub struct CpuTimes {
    pub idle: u64,
    pub total: u128,
}

/// The times of all processors together, from line `i` on.
pub open spec fn cpu_from(lines: Seq<Seq<char>>, i: int) -> Result<Option<CpuTimes>, BadNumber>
    decreases lines.len() - i,
{
    if i < 0 || i >= lines.len() {
        Ok(None)
    } else {
        let w = text::words(lines[i]);
        if "cpu "@.is_prefix_of(lines[i]) && w.len() >= 8 {
            match text::parsed_u64(w[4]) {
                None => Err(BadNumber),
                Some(idle) => if sum_of_words(w, 8) > 0 {
                    Ok(Some(CpuTimes { idle, total: sum_of_words(w, 8) as u128 }))
                } else {
                    cpu_from(lines, i + 1)
                },
            }
        } else {
            cpu_from(lines, i + 1)
        }
    }
}

/// Reads the system's table of processor times.
pub fn read_cpu_times(stat: &str) -> (r: Result<Option<CpuTimes>, BadNumber>)
    ensures
        r == cpu_from(text::lines(stat@), 0),
        r matches Ok(Some(t)) ==> t.idle <= t.total && t.total > 0,
{
    let lines = split_lines(stat);
    let ghost all = text::char_texts(lines@);
    let mut i: usize = 0;
    while i < lines.len()
        invariant
            i <= lines@.len(),
            all == text::char_texts(lines@),
            all == text::lines(stat@),
            cpu_from(all, i as int) == cpu_from(all, 0),
        decreases lines@.len() - i,
    {
        assert(all[i as int] == lines@[i as int]@);
        if line_starts_with(lines[i].as_slice(), "cpu ") {
            let w = split_words(lines[i].as_slice());
            let ghost ws = text::char_texts(w@);
            if w.len() >= 8 {
                assert(ws[4] == w@[4]@);
                match parse_u64_chars(w[4].as_slice()) {
                    None => {
                        return Err(BadNumber);
                    },
                    Some(idle) => {
                        let mut total: u128 = 0;
                        let mut k: usize = 1;
                        while k < 8
                            invariant
                                1 <= k <= 8,
                                w@.len() >= 8,
                                ws == text::char_texts(w@),
                                total == sum_of_words(ws, k as int),
                                total <= k * u64::MAX,
                                k > 4 ==> total >= number_or_zero(ws[4]),
                            decreases 8 - k,
                        {
                            assert(ws[k as int] == w@[k as int]@);
                            total = total + read_or_zero(w[k].as_slice()) as u128;
                            k += 1;
                        }
                        if total > 0 {
                            return Ok(Some(CpuTimes { idle, total }));
                        }
                    },
                }
            }
        }
        i += 1;
    }
    Ok(None)
}

/// What two columns add up to in the first `n` lines that have at least ten words.
pub open spec fn columns_total(lines: Seq<Seq<char>>, a: int, b: int, first: int, n: int) -> nat
    decreases n - first,
{
    if n <= first || n <= 0 {
        0
    } else {
        let w = text::words(lines[n - 1]);
        columns_total(lines, a, b, first, n - 1) + if w.len() >= 10 {
            number_or_zero(w[a]) + number_or_zero(w[b])
        } else {
            0
        }
    }
}

proof fn columns_grow(lines: Seq<Seq<char>>, a: int, b: int, first: int, n: int, m: int)
    requires
        n <= m,
    ensures
        columns_total(lines, a, b, first, n) <= columns_total(lines, a, b, first, m),
    decreases m - n,
{
    if n < m {
        columns_grow(lines, a, b, first, n, m - 1);
    }
}

fn add_columns(lines: &Vec<Vec<char>>, a: usize, b: usize, first: usize) -> (r: Option<u64>)
    requires
        a < 10,
        b < 10,
    ensures
        ({
            let total = columns_total(
                text::char_texts(lines@),
                a as int,
                b as int,
                first as int,
                lines@.len() as int,
            );
            r == if total <= u64::MAX {
                Some(total as u64)
            } else {
                None
            }
        }),
{
    let ghost all = text::char_texts(lines@);
    let mut total: u64 = 0;
    let mut i: usize = first;
    while i < lines.len()
        invariant
            first <= i,
            i <= lines@.len() || i == first,
            a < 10,
            b < 10,
            all == text::char_texts(lines@),
            total == columns_total(all, a as int, b as int, first as int, i as int),
        decreases lines@.len() - i,
    {
        assert(all[i as int] == lines@[i as int]@);
        let w = split_words(lines[i].as_slice());
        let ghost ws = text::char_texts(w@);
        if w.len() >= 10 {
            assert(ws[a as int] == w@[a as int]@);
            assert(ws[b as int] == w@[b as int]@);
            let x: u64 = read_or_zero(w[a].as_slice());
            let y: u64 = read_or_zero(w[b].as_slice());
            let sum: u128 = total as u128 + x as u128 + y as u128;
            proof {
                columns_grow(
                    all,
                    a as int,
                    b as int,
                    first as int,
                    i + 1,
                    lines@.len() as int,
                );
            }
            if sum > 0xffff_ffff_ffff_ffff {
                return None;
            }
            total = sum as u64;
        }
        i += 1;
    }
    proof {
        if lines@.len() < first {
            assert(columns_total(all, a as int, b as int, first as int, lines@.len() as int) == 0);
        }
    }
    Some(total)
}

/// How many sectors were read from and written to disks, from the system's table; none where the
/// number does not fit in 64 bits.
pub fn read_disk_sectors(diskstats: &str) -> (r: Option<u64>)
    ensures
        ({
            let all = text::lines(diskstats@);
            let total = columns_total(all, 5, 9, 0, all.len() as int);
            r == if total <= u64::MAX {
                Some(total as u64)
            } else {
                None
            }
        }),
{
    let lines = split_lines(diskstats);
    assert(text::char_texts(lines@).len() == lines@.len());
    add_columns(&lines, 5, 9, 0)
}

/// How many bytes came in and went out over networks, from the system's table, whose first two
/// lines are its head; none where the number does not fit in 64 bits.
pub fn read_network_bytes(netdev: &str) -> (r: Option<u64>)
    ensures
        ({
            let all = text::lines(netdev@);
            let total = columns_total(all, 1, 9, 2, all.len() as int);
            r == if total <= u64::MAX {
                Some(total as u64)
            } else {
                None
            }
        }),
{
    let lines = split_lines(netdev);
    assert(text::char_texts(lines@).len() == lines@.len());
    add_columns(&lines, 1, 9, 2)
}

/// What a table says under a label is the number behind it in the first line that begins with the
/// label and has one.
pub proof fn labels_are_looked_up_in_order(
    lines: Seq<Seq<char>>,
    label: Seq<char>,
    from: int,
    i: int,
)
    requires
        0 <= from <= i <= lines.len(),
        forall|j: int|
            from <= j < i ==> !(label.is_prefix_of(#[trigger] lines[j]) && text::words(
                lines[j],
            ).len() >= 2),
    ensures
        i == lines.len() ==> labelled_from(lines, label, from) == Ok::<Option<u64>, BadNumber>(
            None,
        ),
        i < lines.len() && label.is_prefix_of(lines[i]) && text::words(lines[i]).len() >= 2 ==> (
        match text::parsed_u64(text::words(lines[i])[1]) {
            Some(n) => labelled_from(lines, label, from) == Ok::<Option<u64>, BadNumber>(Some(n)),
            None => labelled_from(lines, label, from) is Err,
        }),
    decreases i - from,
{
    if from < i {
        assert(!(label.is_prefix_of(lines[from]) && text::words(lines[from]).len() >= 2));
        labels_are_looked_up_in_order(lines, label, from + 1, i);
    }
}

/// The memory is known where what is available is; where the total is not told, it is taken to be
/// eight gigabytes.
pub proof fn memory_is_known_by_what_is_available(table: Seq<char>)
    ensures
        ({
            let available = labelled_from(text::lines(table), "MemAvailable:"@, 0);
            let total = labelled_from(text::lines(table), "MemTotal:"@, 0);
            &&& memory_of(table) matches Ok(Some(m)) ==> available == Ok::<Option<u64>, BadNumber>(
                Some(m.available),
            ) && (total == Ok::<Option<u64>, BadNumber>(Some(m.total)) || (total == Ok::<
                Option<u64>,
                BadNumber,
            >(None) && m.total == 8 * 1024 * 1024))
            &&& memory_of(table) is Err <==> available is Err || (available != Ok::<
                Option<u64>,
                BadNumber,
            >(None) && total is Err)
            &&& available == Ok::<Option<u64>, BadNumber>(None) ==> memory_of(table) == Ok::<
                Option<MemoryKb>,
                BadNumber,
            >(None)
        }),
{
}

/// The time of the processor is the sum of the seven numbers behind its name.
pub proof fn processor_times_add_up(w: Seq<Seq<char>>)
    requires
        w.len() >= 8,
    ensures
        sum_of_words(w, 8) == number_or_zero(w[1]) + number_or_zero(w[2]) + number_or_zero(w[3])
            + number_or_zero(w[4]) + number_or_zero(w[5]) + number_or_zero(w[6]) + number_or_zero(
            w[7],
        ),
{
    reveal_with_fuel(sum_of_words, 9);
}

/// A line for the processor is read where it has its seven numbers and they are not all zero.
pub proof fn the_first_line_for_the_processor_counts(
    lines: Seq<Seq<char>>,
    i: int,
)
    requires
        0 <= i < lines.len(),
    ensures
        ({
            let w = text::words(lines[i]);
            let there = "cpu "@.is_prefix_of(lines[i]) && w.len() >= 8;
            &&& !there ==> cpu_from(lines, i) == cpu_from(lines, i + 1)
            &&& there && text::parsed_u64(w[4]) is None ==> cpu_from(lines, i) is Err
            &&& there && sum_of_words(w, 8) > 0 && text::parsed_u64(w[4]) is Some ==> (cpu_from(
                lines,
                i,
            ) matches Ok(Some(t)) && Some(t.idle) == text::parsed_u64(w[4]))
        }),
        cpu_from(lines, lines.len() as int) == Ok::<Option<CpuTimes>, BadNumber>(None),
{
}

/// Columns are summed line by line, over the lines with ten columns at least.
pub proof fn columns_are_summed_by_line(lines: Seq<Seq<char>>, a: int, b: int, first: int, n: int)
    requires
        0 <= first < n <= lines.len(),
    ensures
        columns_total(lines, a, b, first, first) == 0,
        text::words(lines[n - 1]).len() < 10 ==> columns_total(lines, a, b, first, n)
            == columns_total(lines, a, b, first, n - 1),
        text::words(lines[n - 1]).len() >= 10 ==> columns_total(lines, a, b, first, n)
            == columns_total(lines, a, b, first, n - 1) + number_or_zero(
            text::words(lines[n - 1])[a],
        ) + number_or_zero(text::words(lines[n - 1])[b]),
{
}

} // verus!
