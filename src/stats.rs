//! Aggregate statistics of a scan: counts, total size and a histogram of
//! file sizes, and the human-readable size format.
use vstd::prelude::*;
use crate::text::{decimal, decimal_string, digit, digit_char, push_char, push_decimal, push_text};

verus! {

/// The histogram bucket of a file size: 0 bytes; 1-9 B; 10-99 B; 100-999 B;
/// then powers of 1024 split into decades up to 100 GB and above.
pub open spec fn bucket_of(size: u64) -> int {
    let kb: int = 1024;
    let mb: int = 1024 * kb;
    let gb: int = 1024 * mb;
    if size == 0 {
        0
    } else if size <= 9 {
        1
    } else if size <= 99 {
        2
    } else if size <= 999 {
        3
    } else if size < 10 * kb {
        4
    } else if size < 100 * kb {
        5
    } else if size < mb {
        6
    } else if size < 10 * mb {
        7
    } else if size < 100 * mb {
        8
    } else if size < gb {
        9
    } else if size < 10 * gb {
        10
    } else if size < 100 * gb {
        11
    } else {
        12
    }
}

/// Distribution of files by size ranges.
#[derive(Debug, Default, Clone, Copy)]
pub struct FileSizeDistribution {
    /// Empty files (0 bytes)
    pub empty: usize,
    /// 1 byte to 9 bytes
    pub tiny: usize,
    /// 10 bytes to 99 bytes
    pub very_small: usize,
    /// 100 bytes to 999 bytes
    pub small: usize,
    /// 1 KB to 9.99 KB
    pub small_kb: usize,
    /// 10 KB to 99.99 KB
    pub medium_kb: usize,
    /// 100 KB to 999.99 KB
    pub large_kb: usize,
    /// 1 MB to 9.99 MB
    pub small_mb: usize,
    /// 10 MB to 99.99 MB
    pub medium_mb: usize,
    /// 100 MB to 999.99 MB
    pub large_mb: usize,
    /// 1 GB to 9.99 GB
    pub small_gb: usize,
    /// 10 GB to 99.99 GB
    pub medium_gb: usize,
    /// 100 GB and above
    pub huge: usize,
}

/// The text shown for each bucket.
pub open spec fn bucket_label(k: int) -> Seq<char> {
    if k == 0 { "Empty (0 bytes)"@ } else if k == 1 { "1 B – 9 B"@ } else if k == 2 { "10 B – 99 B"@ }
    else if k == 3 { "100 B – 999 B"@ } else if k == 4 { "1 KB – 9.99 KB"@ }
    else if k == 5 { "10 KB – 99.99 KB"@ } else if k == 6 { "100 KB – 999.99 KB"@ }
    else if k == 7 { "1 MB – 9.99 MB"@ } else if k == 8 { "10 MB – 99.99 MB"@ }
    else if k == 9 { "100 MB – 999.99 MB"@ } else if k == 10 { "1 GB – 9.99 GB"@ }
    else if k == 11 { "10 GB – 99.99 GB"@ } else { "100 GB+"@ }
}

fn label(k: usize) -> (r: &'static str)
    requires
        k < 13,
    ensures
        r@ == bucket_label(k as int),
{
    if k == 0 { "Empty (0 bytes)" } else if k == 1 { "1 B – 9 B" } else if k == 2 { "10 B – 99 B" }
    else if k == 3 { "100 B – 999 B" } else if k == 4 { "1 KB – 9.99 KB" }
    else if k == 5 { "10 KB – 99.99 KB" } else if k == 6 { "100 KB – 999.99 KB" }
    else if k == 7 { "1 MB – 9.99 MB" } else if k == 8 { "10 MB – 99.99 MB" }
    else if k == 9 { "100 MB – 999.99 MB" } else if k == 10 { "1 GB – 9.99 GB" }
    else if k == 11 { "10 GB – 99.99 GB" } else { "100 GB+" }
}

/// The summary lines of the buckets below `k` that hold files.
pub open spec fn summary_lines(c: Seq<usize>, k: int) -> Seq<Seq<char>>
    decreases k,
{
    if k <= 0 {
        seq![]
    } else if c[k - 1] > 0 {
        summary_lines(c, k - 1).push("  "@ + bucket_label(k - 1) + ": "@ + decimal(c[k - 1] as nat))
    } else {
        summary_lines(c, k - 1)
    }
}

/// Lines joined with newlines between them.
pub open spec fn join_lines(lines: Seq<Seq<char>>) -> Seq<char>
    decreases lines.len(),
{
    if lines.len() == 0 {
        seq![]
    } else if lines.len() == 1 {
        lines[0]
    } else {
        join_lines(lines.drop_last()) + seq!['\n'] + lines.last()
    }
}

impl FileSizeDistribution {
    /// The thirteen bucket counts, smallest sizes first.
    pub open spec fn counts(&self) -> Seq<usize> {
        seq![
            self.empty, self.tiny, self.very_small, self.small, self.small_kb, self.medium_kb,
            self.large_kb, self.small_mb, self.medium_mb, self.large_mb, self.small_gb,
            self.medium_gb, self.huge,
        ]
    }

    /// The number of files counted in all buckets.
    pub open spec fn total(&self) -> int {
        self.empty + self.tiny + self.very_small + self.small + self.small_kb + self.medium_kb
            + self.large_kb + self.small_mb + self.medium_mb + self.large_mb + self.small_gb
            + self.medium_gb + self.huge
    }

    /// A distribution with every bucket empty.
    pub fn new() -> (r: FileSizeDistribution)
        ensures
            r.total() == 0,
            forall|k: int| 0 <= k < 13 ==> r.counts()[k] == 0,
    {
        FileSizeDistribution {
            empty: 0,
            tiny: 0,
            very_small: 0,
            small: 0,
            small_kb: 0,
            medium_kb: 0,
            large_kb: 0,
            small_mb: 0,
            medium_mb: 0,
            large_mb: 0,
            small_gb: 0,
            medium_gb: 0,
            huge: 0,
        }
    }

    /// Counts one file of `size` bytes in its bucket.
    pub fn add_file(&mut self, size: u64)
        requires
            old(self).counts()[bucket_of(size)] < usize::MAX,
        ensures
            final(self).counts() == old(self).counts().update(
                bucket_of(size),
                (old(self).counts()[bucket_of(size)] + 1) as usize,
            ),
            final(self).total() == old(self).total() + 1,
    {
        let kb: u64 = 1024;
        let mb: u64 = 1024 * kb;
        let gb: u64 = 1024 * mb;
        if size == 0 {
            self.empty = self.empty + 1;
        } else if size <= 9 {
            self.tiny = self.tiny + 1;
        } else if size <= 99 {
            self.very_small = self.very_small + 1;
        } else if size <= 999 {
            self.small = self.small + 1;
        } else if size < 10 * kb {
            self.small_kb = self.small_kb + 1;
        } else if size < 100 * kb {
            self.medium_kb = self.medium_kb + 1;
        } else if size < mb {
            self.large_kb = self.large_kb + 1;
        } else if size < 10 * mb {
            self.small_mb = self.small_mb + 1;
        } else if size < 100 * mb {
            self.medium_mb = self.medium_mb + 1;
        } else if size < gb {
            self.large_mb = self.large_mb + 1;
        } else if size < 10 * gb {
            self.small_gb = self.small_gb + 1;
        } else if size < 100 * gb {
            self.medium_gb = self.medium_gb + 1;
        } else {
            self.huge = self.huge + 1;
        }
        assert(self.counts() =~= old(self).counts().update(
            bucket_of(size),
            (old(self).counts()[bucket_of(size)] + 1) as usize,
        ));
    }

    /// One line per bucket that holds files, or a note that none does.
    pub fn summary(&self) -> (r: String)
        ensures
            r@ == if summary_lines(self.counts(), 13).len() == 0 {
                "  No files"@
            } else {
                join_lines(summary_lines(self.counts(), 13))
            },
    {
        let c: [usize; 13] = [
            self.empty, self.tiny, self.very_small, self.small, self.small_kb, self.medium_kb,
            self.large_kb, self.small_mb, self.medium_mb, self.large_mb, self.small_gb,
            self.medium_gb, self.huge,
        ];
        assert(c@ =~= self.counts());
        let mut out = String::new();
        let mut any = false;
        let mut k: usize = 0;
        while k < 13
            invariant
                c@ == self.counts(),
                k <= 13,
                any == (summary_lines(self.counts(), k as int).len() > 0),
                out@ == join_lines(summary_lines(self.counts(), k as int)),
            decreases 13 - k,
        {
            if c[k] > 0 {
                let ghost before = summary_lines(self.counts(), k as int);
                if any {
                    push_char(&mut out, '\n');
                }
                push_text(&mut out, "  ");
                push_text(&mut out, label(k));
                push_text(&mut out, ": ");
                push_decimal(&mut out, c[k] as u64);
                any = true;
                let ghost line = "  "@ + bucket_label(k as int) + ": "@ + decimal(c[k as int] as nat);
                assert(summary_lines(self.counts(), k + 1) == before.push(line));
                assert(before.push(line).drop_last() =~= before);
                proof {
                    if before.len() == 0 {
                        assert(out@ =~= line);
                    } else {
                        assert(out@ =~= join_lines(before) + seq!['\n'] + line);
                    }
                }
            }
            k = k + 1;
        }
        if !any {
            return String::from_str("  No files");
        }
        out
    }
}

/// Statistics about a directory scan.
#[derive(Debug, Default, Clone, Copy)]
pub struct DirectoryStats {
    pub file_count: usize,
    pub directory_count: usize,
    pub total_size: u64,
    /// File size distribution counts
    pub size_distribution: FileSizeDistribution,
}

impl DirectoryStats {
    /// Statistics of an empty scan.
    pub fn new() -> (r: DirectoryStats)
        ensures
            r.file_count == 0,
            r.directory_count == 0,
            r.total_size == 0,
            r.size_distribution.total() == 0,
            forall|k: int| 0 <= k < 13 ==> r.size_distribution.counts()[k] == 0,
    {
        DirectoryStats {
            file_count: 0,
            directory_count: 0,
            total_size: 0,
            size_distribution: FileSizeDistribution::new(),
        }
    }

    /// Files and directories together.
    pub fn total_items(&self) -> (r: usize)
        requires
            self.file_count + self.directory_count <= usize::MAX,
        ensures
            r == self.file_count + self.directory_count,
    {
        self.file_count + self.directory_count
    }

    /// The total size in human-readable form.
    pub fn format_size(&self) -> (r: String)
        ensures
            r@ == size_text(self.total_size),
    {
        format_file_size(self.total_size)
    }
}

pub open spec fn pow1024(k: nat) -> nat
    decreases k,
{
    if k == 0 {
        1
    } else {
        1024 * pow1024((k - 1) as nat)
    }
}

/// The unit a size is shown in: the largest power of 1024 not above it, at
/// most the fourth (TB).
pub open spec fn unit_of(size: nat) -> nat {
    if size < pow1024(2) {
        1
    } else if size < pow1024(3) {
        2
    } else if size < pow1024(4) {
        3
    } else {
        4
    }
}

pub open spec fn unit_name(k: nat) -> Seq<char> {
    if k == 1 {
        "KB"@
    } else if k == 2 {
        "MB"@
    } else if k == 3 {
        "GB"@
    } else {
        "TB"@
    }
}

/// `size / 1024^k` in tenths, rounded to the nearest tenth with ties to even.
pub open spec fn tenths(size: nat, k: nat) -> nat {
    let d = pow1024(k);
    let q = (size * 10) / d;
    let rem = (size * 10) % d;
    if 2 * rem > d || (2 * rem == d && q % 2 == 1) {
        q + 1
    } else {
        q
    }
}

/// A size in bytes as text: whole bytes below 1024, otherwise one decimal
/// in KB, MB, GB or TB.
pub open spec fn size_text(size: u64) -> Seq<char> {
    if size < 1024 {
        decimal(size as nat) + " B"@
    } else {
        let k = unit_of(size as nat);
        let t = tenths(size as nat, k);
        decimal(t / 10) + seq!['.', digit_char(t % 10), ' '] + unit_name(k)
    }
}

proof fn lemma_pow1024_values()
    ensures
        pow1024(1) == 1024,
        pow1024(2) == 1048576,
        pow1024(3) == 1073741824,
        pow1024(4) == 1099511627776,
{
    reveal_with_fuel(pow1024, 5);
}

/// Formats a size in bytes for people.
pub fn format_file_size(size: u64) -> (r: String)
    ensures
        r@ == size_text(size),
{
    if size < 1024 {
        let mut s = decimal_string(size);
        push_text(&mut s, " B");
        return s;
    }
    proof {
        lemma_pow1024_values();
    }
    let (k, d, unit): (u64, u128, &str) = if (size as u128) < 1048576 {
        (1, 1024, "KB")
    } else if (size as u128) < 1073741824 {
        (2, 1048576, "MB")
    } else if (size as u128) < 1099511627776 {
        (3, 1073741824, "GB")
    } else {
        (4, 1099511627776, "TB")
    };
    assert(d == pow1024(k as nat) && k == unit_of(size as nat) && unit@ == unit_name(k as nat));
    let scaled: u128 = (size as u128) * 10;
    let q = scaled / d;
    let rem = scaled % d;
    let t: u128 = if 2 * rem > d || (2 * rem == d && q % 2 == 1) {
        q + 1
    } else {
        q
    };
    assert(t == tenths(size as nat, k as nat));
    assert(t <= (size as u128) * 10 + 1);
    let whole = (t / 10) as u64;
    let frac = (t % 10) as u64;
    let mut s = decimal_string(whole);
    push_char(&mut s, '.');
    push_char(&mut s, digit(frac));
    push_char(&mut s, ' ');
    push_text(&mut s, unit);
    assert(s@ =~= size_text(size));
    s
}

} // verus!
