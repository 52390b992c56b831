//! Run options of the solver and the defaults derived from them.
use vstd::prelude::*;
use vstd::string::*;

verus! {

/// Options of one solver run: the target public key (compressed hex), the
/// start of the range (hex), the range width in bits, and the tuning and
/// output choices.
#[derive(Debug)]
pub struct Args {
    pub pubkey: String,
    pub start: String,
    pub range: u32,
    pub dp_bits: Option<u32>,
    pub kangaroos: Option<u32>,
    pub gpu: u32,
    pub output: Option<String>,
    pub quiet: bool,
    pub max_ops: u64,
    pub cpu: bool,
    pub json: bool,
}

/// `floor(log2(n))`, with `0` for `n <= 1`.
pub open spec fn log2_floor(n: nat) -> nat
    decreases n,
{
    if n <= 1 {
        0
    } else {
        1 + log2_floor(n / 2)
    }
}

/// `x` held within `[lo, hi]`.
pub open spec fn clamp_spec(x: int, lo: int, hi: int) -> int {
    if x < lo {
        lo
    } else if x > hi {
        hi
    } else {
        x
    }
}

/// `a - b`, or `0` where `b > a`.
pub open spec fn saturating_sub_spec(a: int, b: int) -> int {
    if a > b {
        a - b
    } else {
        0
    }
}

/// The default DP bits of the GPU path: `(r / 2) - log2(N) / 2`, held in `[8, 40]`.
pub open spec fn gpu_dp_bits_spec(range_bits: u32, num_kangaroos: u32) -> int {
    clamp_spec(
        saturating_sub_spec((range_bits / 2) as int, (log2_floor(num_kangaroos as nat) / 2) as int),
        8,
        40,
    )
}

/// The default DP bits of the CPU path: `(r / 2) - 2`, held in `[8, 20]`.
pub open spec fn cpu_dp_bits_spec(range_bits: u32) -> int {
    clamp_spec(saturating_sub_spec((range_bits / 2) as int, 2), 8, 20)
}

proof fn lemma_log2_floor_le(n: nat)
    ensures
        log2_floor(n) <= n,
    decreases n,
{
    if n > 1 {
        lemma_log2_floor_le(n / 2);
    }
}

/// `floor(log2(n))`, with `0` for `n <= 1`.
pub fn floor_log2(n: u32) -> (r: u32)
    ensures
        r == log2_floor(n as nat),
{
    let mut m: u32 = n;
    let mut r: u32 = 0;
    proof {
        lemma_log2_floor_le(n as nat);
    }
    while m > 1
        invariant
            r + log2_floor(m as nat) == log2_floor(n as nat),
            log2_floor(n as nat) <= n,
        decreases m,
    {
        m = m / 2;
        r = r + 1;
    }
    r
}

fn clamp_u32(x: u32, lo: u32, hi: u32) -> (r: u32)
    requires
        lo <= hi,
    ensures
        r == clamp_spec(x as int, lo as int, hi as int),
{
    if x < lo {
        lo
    } else if x > hi {
        hi
    } else {
        x
    }
}

/// The DP bits that the GPU path picks for `num_kangaroos` walkers over a
/// range of `range_bits` bits.
pub fn auto_dp_bits_gpu(range_bits: u32, num_kangaroos: u32) -> (r: u32)
    ensures
        r == gpu_dp_bits_spec(range_bits, num_kangaroos),
{
    proof {
        lemma_log2_floor_le(num_kangaroos as nat);
    }
    clamp_u32((range_bits / 2).saturating_sub(floor_log2(num_kangaroos) / 2), 8, 40)
}

/// The DP bits that the CPU path picks over a range of `range_bits` bits.
pub fn auto_dp_bits_cpu(range_bits: u32) -> (r: u32)
    ensures
        r == cpu_dp_bits_spec(range_bits),
{
    clamp_u32((range_bits / 2).saturating_sub(2), 8, 20)
}

/// The operation budget of a run: `max_ops`, where `0` means no limit.
pub fn max_ops_limit(max_ops: u64) -> (r: u64)
    ensures
        r == if max_ops == 0 {
            u64::MAX
        } else {
            max_ops
        },
{
    if max_ops == 0 {
        u64::MAX
    } else {
        max_ops
    }
}

/// `s` without its leading `'0'` characters.
pub open spec fn trim_zeros(s: Seq<char>) -> Seq<char>
    decreases s.len(),
{
    if s.len() > 0 && s[0] == '0' {
        trim_zeros(s.drop_first())
    } else {
        s
    }
}

/// How a key in hex is shown: without leading zeros, and `"0"` for zero.
pub open spec fn key_display_spec(s: Seq<char>) -> Seq<char> {
    if trim_zeros(s).len() == 0 {
        seq!['0']
    } else {
        trim_zeros(s)
    }
}

/// Show a key given in hex without its leading zeros; a key of only zeros
/// shows as `"0"`.
pub fn key_hex_display(key_hex: &str) -> (r: String)
    ensures
        r@ == key_display_spec(key_hex@),
{
    let n = key_hex.unicode_len();
    let mut i: usize = 0;
    assert(key_hex@.subrange(0, n as int) =~= key_hex@);
    while i < n && key_hex.get_char(i) == '0'
        invariant
            n == key_hex@.len(),
            i <= n,
            trim_zeros(key_hex@) == trim_zeros(key_hex@.subrange(i as int, n as int)),
        decreases n - i,
    {
        assert(key_hex@.subrange(i as int, n as int).drop_first() =~= key_hex@.subrange(
            i + 1,
            n as int,
        ));
        i = i + 1;
    }
    if i == n {
        assert(key_hex@.subrange(i as int, n as int).len() == 0);
        let zero = "0";
        proof {
            reveal_strlit("0");
        }
        let r = String::from_str(zero);
        assert(r@ =~= seq!['0']);
        r
    } else {
        String::from_str(key_hex.substring_char(i, n))
    }
}

impl Args {
    /// The DP bits of a CPU run: the ones given, else the CPU default.
    pub fn cpu_dp_bits(&self) -> (r: u32)
        ensures
            r == match self.dp_bits {
                Some(d) => d as int,
                None => cpu_dp_bits_spec(self.range),
            },
    {
        match self.dp_bits {
            Some(d) => d,
            None => auto_dp_bits_cpu(self.range),
        }
    }

    /// The DP bits of a GPU run with `num_kangaroos` walkers: the ones given,
    /// else the GPU default.
    pub fn gpu_dp_bits(&self, num_kangaroos: u32) -> (r: u32)
        ensures
            r == match self.dp_bits {
                Some(d) => d as int,
                None => gpu_dp_bits_spec(self.range, num_kangaroos),
            },
    {
        match self.dp_bits {
            Some(d) => d,
            None => auto_dp_bits_gpu(self.range, num_kangaroos),
        }
    }
}

} // verus!
