//! Hardware profile and the choice of a model tier from it.
//!
//! Memory is held as the byte count the operating system reports; the
//! thresholds are in GiB (`bytes / 2^30`), which is what the gigabyte
//! figure shown to users is computed as.
use vstd::prelude::*;
use crate::text::{chars_of, is_ascii_digit, string_of, trim, trimmed};

verus! {

/// Bytes in one GiB.
pub const GIB: u64 = 1073741824;

/// An NVIDIA GPU as reported by the driver.
#[derive(Debug)]
pub struct GpuInfo {
    pub name: String,
    pub vram_mb: u64,
}

impl Clone for GpuInfo {
    fn clone(&self) -> (r: Self)
        ensures
            r.name@ == self.name@,
            r.vram_mb == self.vram_mb,
    {
        GpuInfo { name: self.name.clone(), vram_mb: self.vram_mb }
    }
}

/// What the tier choice looks at.
#[derive(Debug)]
pub struct HardwareProfile {
    /// Total physical memory in bytes.
    pub total_ram_bytes: u64,
    pub cpu_cores: usize,
    pub is_apple_silicon: bool,
    pub nvidia_gpu: Option<GpuInfo>,
}

impl Clone for HardwareProfile {
    fn clone(&self) -> (r: Self)
        ensures
            r.total_ram_bytes == self.total_ram_bytes,
            r.cpu_cores == self.cpu_cores,
            r.is_apple_silicon == self.is_apple_silicon,
            r.nvidia_gpu is Some == self.nvidia_gpu is Some,
            r.nvidia_gpu is Some ==> r.nvidia_gpu->0.name@ == self.nvidia_gpu->0.name@
                && r.nvidia_gpu->0.vram_mb == self.nvidia_gpu->0.vram_mb,
    {
        let nvidia_gpu = match &self.nvidia_gpu {
            Some(g) => Some(g.clone()),
            None => None,
        };
        HardwareProfile {
            total_ram_bytes: self.total_ram_bytes,
            cpu_cores: self.cpu_cores,
            is_apple_silicon: self.is_apple_silicon,
            nvidia_gpu,
        }
    }
}

/// Model tiers, from the smallest model to the largest.
#[derive(Debug, Clone, Copy, PartialEq, Eq, Structural)]
pub enum Tier {
    Light,
    Balanced,
    Performance,
    MaxAccuracy,
}

/// The tiers' order: `Light` 0 up to `MaxAccuracy` 3.
pub open spec fn tier_rank(t: Tier) -> nat {
    match t {
        Tier::Light => 0,
        Tier::Balanced => 1,
        Tier::Performance => 2,
        Tier::MaxAccuracy => 3,
    }
}

/// The catalog id of the model each tier runs.
pub open spec fn tier_model(t: Tier) -> Seq<char> {
    match t {
        Tier::Light => "whisper-tiny-en"@,
        Tier::Balanced => "whisper-base-en"@,
        Tier::Performance => "whisper-medium-en"@,
        Tier::MaxAccuracy => "whisper-large-v3-turbo"@,
    }
}

/// The name `Tier`'s `Debug` output gives.
pub open spec fn tier_name(t: Tier) -> Seq<char> {
    match t {
        Tier::Light => "Light"@,
        Tier::Balanced => "Balanced"@,
        Tier::Performance => "Performance"@,
        Tier::MaxAccuracy => "MaxAccuracy"@,
    }
}

impl Tier {
    /// The catalog id of the model this tier runs.
    pub fn recommended_model(&self) -> (id: &'static str)
        ensures
            id@ == tier_model(*self),
    {
        match self {
            Tier::Light => "whisper-tiny-en",
            Tier::Balanced => "whisper-base-en",
            Tier::Performance => "whisper-medium-en",
            Tier::MaxAccuracy => "whisper-large-v3-turbo",
        }
    }

    /// The tier's name, as shown to users.
    pub fn name(&self) -> (s: &'static str)
        ensures
            s@ == tier_name(*self),
    {
        match self {
            Tier::Light => "Light",
            Tier::Balanced => "Balanced",
            Tier::Performance => "Performance",
            Tier::MaxAccuracy => "MaxAccuracy",
        }
    }
}

/// At least `n` GiB of memory.
pub open spec fn has_gib(ram_bytes: u64, n: int) -> bool {
    ram_bytes >= n * GIB
}

/// The tier a profile gets. Apple Silicon always gets `Balanced`; otherwise
/// a GPU with 16000 MB of VRAM gets `MaxAccuracy`, one with 6000 MB together
/// with 16 GiB of memory gets `Performance`, 8 GiB of memory gets
/// `Balanced`, and anything less `Light`.
pub open spec fn tier_for(p: HardwareProfile) -> Tier {
    if p.is_apple_silicon {
        Tier::Balanced
    } else if p.nvidia_gpu is Some && p.nvidia_gpu->0.vram_mb >= 16000 {
        Tier::MaxAccuracy
    } else if p.nvidia_gpu is Some && p.nvidia_gpu->0.vram_mb >= 6000 && has_gib(
        p.total_ram_bytes,
        16,
    ) {
        Tier::Performance
    } else if has_gib(p.total_ram_bytes, 8) {
        Tier::Balanced
    } else {
        Tier::Light
    }
}

/// Picks the model tier for a machine.
pub fn recommend_tier(profile: &HardwareProfile) -> (t: Tier)
    ensures
        t == tier_for(*profile),
{
    if profile.is_apple_silicon {
        return Tier::Balanced;
    }
    if let Some(gpu) = &profile.nvidia_gpu {
        if gpu.vram_mb >= 16000 {
            return Tier::MaxAccuracy;
        }
        if gpu.vram_mb >= 6000 && profile.total_ram_bytes >= 16 * GIB {
            return Tier::Performance;
        }
    }
    if profile.total_ram_bytes >= 8 * GIB {
        return Tier::Balanced;
    }
    Tier::Light
}

// ---------------------------------------------------------------------
// Reading the driver's GPU query
// ---------------------------------------------------------------------

/// Value of a string of ASCII digits.
pub open spec fn digits_value(s: Seq<char>) -> int
    decreases s.len(),
{
    if s.len() == 0 {
        0
    } else {
        digits_value(s.drop_last()) * 10 + (s.last() as int - '0' as int)
    }
}

pub open spec fn all_ascii_digits(s: Seq<char>) -> bool {
    forall|i: int| 0 <= i < s.len() ==> is_ascii_digit(#[trigger] s[i])
}

/// `u64::from_str`: an optional `+` followed by at least one ASCII digit,
/// and a value that fits in 64 bits.
pub open spec fn parse_u64_spec(s: Seq<char>) -> Option<u64> {
    let d = if s.len() > 0 && s[0] == '+' {
        s.drop_first()
    } else {
        s
    };
    if d.len() > 0 && all_ascii_digits(d) && digits_value(d) <= u64::MAX {
        Some(digits_value(d) as u64)
    } else {
        None
    }
}

proof fn lemma_digits_value_nonneg(s: Seq<char>)
    requires
        all_ascii_digits(s),
    ensures
        digits_value(s) >= 0,
    decreases s.len(),
{
    if s.len() > 0 {
        lemma_digits_value_nonneg(s.drop_last());
    }
}

proof fn lemma_digits_value_grows(s: Seq<char>, k: int)
    requires
        all_ascii_digits(s),
        0 <= k <= s.len(),
    ensures
        digits_value(s.take(k)) <= digits_value(s),
    decreases s.len() - k,
{
    if k < s.len() {
        lemma_digits_value_grows(s, k + 1);
        let t = s.take(k + 1);
        assert(t.drop_last() =~= s.take(k));
        lemma_digits_value_nonneg(s.take(k));
    } else {
        assert(s.take(k) =~= s);
    }
}

/// Parses a decimal `u64` the way `str::parse::<u64>` does.
pub fn parse_u64(s: &Vec<char>) -> (r: Option<u64>)
    ensures
        r == parse_u64_spec(s@),
{
    let start: usize = if s.len() > 0 && s[0] == '+' {
        1
    } else {
        0
    };
    let ghost d = if s@.len() > 0 && s@[0] == '+' {
        s@.drop_first()
    } else {
        s@
    };
    assert(d =~= s@.subrange(start as int, s@.len() as int));
    if start >= s.len() {
        return None;
    }
    let mut v: u128 = 0;
    let mut i: usize = start;
    while i < s.len()
        invariant
            start <= i <= s.len(),
            d =~= s@.subrange(start as int, s@.len() as int),
            d == (if s@.len() > 0 && s@[0] == '+' {
                s@.drop_first()
            } else {
                s@
            }),
            all_ascii_digits(d.take(i - start)),
            v as int == digits_value(d.take(i - start)),
            v <= u64::MAX,
        decreases s.len() - i,
    {
        let c = s[i];
        if !('0' <= c && c <= '9') {
            proof {
                assert(d[i - start] == c);
            }
            return None;
        }
        let digit: u128 = (c as u32 - '0' as u32) as u128;
        proof {
            let t = d.take(i - start + 1);
            assert(t.drop_last() =~= d.take(i - start));
            assert(t.last() == c);
            assert(all_ascii_digits(t));
        }
        v = v * 10 + digit;
        i = i + 1;
        if v > u64::MAX as u128 {
            proof {
                if all_ascii_digits(d) {
                    lemma_digits_value_grows(d, i - start);
                }
            }
            return None;
        }
    }
    assert(d.take(d.len() as int) =~= d);
    Some(v as u64)
}

/// Index of the first `c` in `s` at or after `i`, or `s.len()` when there
/// is none.
pub open spec fn find_char(s: Seq<char>, c: char, i: int) -> int
    decreases s.len() - i,
{
    if i < 0 || i >= s.len() {
        s.len() as int
    } else if s[i] == c {
        i
    } else {
        find_char(s, c, i + 1)
    }
}

/// The first line of a text the way `str::lines` yields it: the characters
/// before the first `\n` (with a `\r` just before that `\n` removed), or the
/// whole text when it has no `\n`. An empty text has no line.
pub open spec fn first_line(t: Seq<char>) -> Option<Seq<char>> {
    if t.len() == 0 {
        None
    } else {
        let n = find_char(t, '\n', 0);
        if n < t.len() && n > 0 && t[n - 1] == '\r' {
            Some(t.take(n - 1))
        } else {
            Some(t.take(n))
        }
    }
}

/// The first piece of `s` split at `,`.
pub open spec fn comma_field0(s: Seq<char>) -> Seq<char> {
    s.take(find_char(s, ',', 0))
}

/// The second piece of `s` split at `,`, if there is one.
pub open spec fn comma_field1(s: Seq<char>) -> Option<Seq<char>> {
    let c = find_char(s, ',', 0);
    if c < s.len() {
        Some(comma_field0(s.skip(c + 1)))
    } else {
        None
    }
}

/// What the GPU query (`name, memory` in MiB, one GPU per line) reports
/// for the first GPU: its trimmed name and its trimmed memory figure read
/// as a number. Missing line, missing field or a bad number give `None`.
pub open spec fn gpu_from_query(t: Seq<char>) -> Option<(Seq<char>, u64)> {
    match first_line(t) {
        None => None,
        Some(line) => match comma_field1(line) {
            Some(mem) => match parse_u64_spec(trim(mem)) {
                Some(v) => Some((trim(comma_field0(line)), v)),
                None => None,
            },
            None => None,
        },
    }
}

/// Index of the first `c` in `v` at or after `from`, or `v.len()`.
fn index_of(v: &Vec<char>, c: char, from: usize) -> (r: usize)
    requires
        from <= v.len(),
    ensures
        r as int == find_char(v@, c, from as int),
        from <= r <= v.len(),
{
    let mut i = from;
    while i < v.len() && v[i] != c
        invariant
            from <= i <= v.len(),
            find_char(v@, c, i as int) == find_char(v@, c, from as int),
        decreases v.len() - i,
    {
        i = i + 1;
    }
    i
}

fn slice_of(v: &Vec<char>, from: usize, to: usize) -> (r: Vec<char>)
    requires
        from <= to <= v.len(),
    ensures
        r@ == v@.subrange(from as int, to as int),
{
    let mut r: Vec<char> = Vec::new();
    crate::text::push_range(&mut r, v, from, to);
    assert(r@ =~= v@.subrange(from as int, to as int));
    r
}

/// Reads the first GPU out of the driver's CSV answer to a name/memory
/// query: the first line, split at commas, gives the name (trimmed) and
/// the memory in MiB (trimmed, a decimal number).
pub fn parse_gpu_query(text: &str) -> (r: Option<GpuInfo>)
    ensures
        match gpu_from_query(text@) {
            None => r is None,
            Some((name, mem)) => r is Some && r->0.name@ == name && r->0.vram_mb == mem,
        },
{
    let t = chars_of(text);
    if t.len() == 0 {
        return None;
    }
    let n = index_of(&t, '\n', 0);
    let line_end: usize = if n < t.len() && n > 0 && t[n - 1] == '\r' {
        n - 1
    } else {
        n
    };
    let line = slice_of(&t, 0, line_end);
    assert(line@ == t@.take(line_end as int));
    let c1 = index_of(&line, ',', 0);
    let name_raw = slice_of(&line, 0, c1);
    assert(name_raw@ =~= line@.take(c1 as int));
    if c1 == line.len() {
        return None;
    }
    let rest = slice_of(&line, c1 + 1, line.len());
    assert(rest@ =~= line@.skip(c1 + 1));
    let c2 = index_of(&rest, ',', 0);
    let mem_raw = slice_of(&rest, 0, c2);
    assert(mem_raw@ =~= rest@.take(c2 as int));
    let mem = trimmed(&mem_raw);
    match parse_u64(&mem) {
        None => None,
        Some(v) => {
            let name = trimmed(&name_raw);
            Some(GpuInfo { name: string_of(&name), vram_mb: v })
        },
    }
}

// ---------------------------------------------------------------------
// Laws
// ---------------------------------------------------------------------

/// Apple Silicon machines always get the `Balanced` tier, whatever their
/// memory or GPU.
pub proof fn law_apple_silicon_always_balanced(p: HardwareProfile)
    requires
        p.is_apple_silicon,
    ensures
        tier_for(p) == Tier::Balanced,
{
}

/// More memory, or a GPU with more VRAM (or a GPU where there was none),
/// never gives a lower tier on the same kind of machine.
pub proof fn law_tier_is_monotone(p: HardwareProfile, q: HardwareProfile)
    requires
        p.is_apple_silicon == q.is_apple_silicon,
        p.total_ram_bytes <= q.total_ram_bytes,
        p.nvidia_gpu is Some ==> (q.nvidia_gpu is Some && p.nvidia_gpu->0.vram_mb
            <= q.nvidia_gpu->0.vram_mb),
    ensures
        tier_rank(tier_for(p)) <= tier_rank(tier_for(q)),
{
}

/// The tier thresholds, off Apple Silicon: `MaxAccuracy` exactly with a GPU
/// of at least 16000 MB; `Performance` exactly with a GPU of 6000 to 15999
/// MB and at least 16 GiB of memory (however much more memory there is);
/// `Balanced` exactly with neither and at least 8 GiB; `Light` otherwise.
pub proof fn law_tier_thresholds(p: HardwareProfile)
    requires
        !p.is_apple_silicon,
    ensures
        tier_for(p) == Tier::MaxAccuracy <==> (p.nvidia_gpu is Some && p.nvidia_gpu->0.vram_mb
            >= 16000),
        tier_for(p) == Tier::Performance <==> (p.nvidia_gpu is Some && 6000
            <= p.nvidia_gpu->0.vram_mb < 16000 && p.total_ram_bytes >= 17179869184),
        tier_for(p) == Tier::Balanced <==> (!(p.nvidia_gpu is Some && p.nvidia_gpu->0.vram_mb
            >= 16000) && !(p.nvidia_gpu is Some && 6000 <= p.nvidia_gpu->0.vram_mb && p.total_ram_bytes
            >= 17179869184) && p.total_ram_bytes >= 8589934592),
        tier_for(p) == Tier::Light <==> (!(p.nvidia_gpu is Some && p.nvidia_gpu->0.vram_mb
            >= 6000 && p.total_ram_bytes >= 17179869184) && !(p.nvidia_gpu is Some
            && p.nvidia_gpu->0.vram_mb >= 16000) && p.total_ram_bytes < 8589934592),
{
}

} // verus!
