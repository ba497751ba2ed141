//! Bit timing of the LED chain's wire protocol.
use crate::text::{
    chars_of, decimal, lacks, lemma_concat_chars, lemma_decimal_chars, lemma_number_of_decimal,
    no_space, number, number_upto, parse_number, push_number,
};
use vstd::arithmetic::power2::*;
use vstd::prelude::*;
use vstd::utf8::*;

verus! {

broadcast use vstd::string::group_string_axioms;

/// Bounds on the fields of a `TimingConfig`. Together with the bounds on the
/// chain's length and on a color packet they fix the size of a frame at a
/// single worst case: the fastest bit rate (`MAX_RESOLUTION` over
/// `MIN_PATTERN_NS`) with the longest reset (`MAX_RESET_NS`).
pub const MIN_RESOLUTION: u8 = 2;

pub const MAX_RESOLUTION: u8 = 8;

pub const MIN_PATTERN_NS: u32 = 1_000;

pub const MAX_RESET_NS: u32 = 1_000_000;

/// The master clock runs at this multiple of the sample rate.
pub const I2S_MCLK_MULTIPLE: u32 = 256;

/// The clock that the master clock is divided from.
pub const I2S_SOURCE_CLOCK_HZ: u32 = 160_000_000;

/// How a data bit is shifted out: a "1" as the low `resolution` bits of
/// `pattern_high`, a "0" as those of `pattern_low`, most significant first,
/// every `pattern_ns` nanoseconds; `reset_ns` of low output end a frame. The
/// two patterns are independent of each other: chips of this kind want both
/// to change level once only and to start with the same level, which no
/// pattern and its complement can do at once.
#[derive(Clone, Copy, PartialEq, Eq, Debug, Structural)]
pub struct TimingConfig {
    pub pattern_high: u8,
    pub pattern_low: u8,
    pub resolution: u8,
    pub pattern_ns: u32,
    pub reset_ns: u32,
}

/// Whether `s` holds only zeros and ones.
pub open spec fn is_binary(s: Seq<char>) -> bool {
    forall|i: int| 0 <= i < s.len() ==> #[trigger] s[i] == '0' || s[i] == '1'
}

/// The number that zeros and ones stand for, most significant first.
pub open spec fn binary_value(s: Seq<char>) -> nat
    decreases s.len(),
{
    if s.len() == 0 {
        0
    } else {
        binary_value(s.drop_last()) * 2 + if s.last() == '1' {
            1nat
        } else {
            0
        }
    }
}

/// The low `n` bits of `p`, most significant first.
pub open spec fn binary_text(p: nat, n: nat) -> Seq<char>
    decreases n,
{
    if n == 0 {
        seq![]
    } else {
        binary_text(p / 2, (n - 1) as nat).push(
            if p % 2 == 1 {
                '1'
            } else {
                '0'
            },
        )
    }
}

/// The timing that four protocol parts name.
pub open spec fn timing_of(
    high: Seq<char>,
    low: Seq<char>,
    pattern_ns: Seq<char>,
    reset_ns: Seq<char>,
) -> Option<TimingConfig> {
    match (number_upto(pattern_ns, u32::MAX as nat), number_upto(reset_ns, MAX_RESET_NS as nat)) {
        (Some(pattern), Some(reset)) => if {
            &&& MIN_RESOLUTION <= high.len() <= MAX_RESOLUTION
            &&& low.len() == high.len()
            &&& is_binary(high)
            &&& is_binary(low)
            &&& pattern >= MIN_PATTERN_NS
        } {
            Some(
                TimingConfig {
                    pattern_high: binary_value(high) as u8,
                    pattern_low: binary_value(low) as u8,
                    resolution: high.len() as u8,
                    pattern_ns: pattern as u32,
                    reset_ns: reset as u32,
                },
            )
        } else {
            None
        },
        _ => None,
    }
}

/// The text of a timing: its four protocol parts, with colons between them.
pub open spec fn timing_text(t: TimingConfig) -> Seq<char> {
    binary_text(t.pattern_high as nat, t.resolution as nat) + seq![':'] + binary_text(
        t.pattern_low as nat,
        t.resolution as nat,
    ) + seq![':'] + decimal(t.pattern_ns as nat) + seq![':'] + decimal(t.reset_ns as nat)
}

impl Default for TimingConfig {
    /// "1110" and "1000", 1250 ns a pattern, 600 ns reset.
    fn default() -> (r: Self)
        ensures
            r == (TimingConfig {
                pattern_high: 14,
                pattern_low: 8,
                resolution: 4,
                pattern_ns: 1_250,
                reset_ns: 600,
            }),
            r.wf(),
    {
        proof {
            lemma2_to64();
        }
        TimingConfig {
            pattern_high: 0b1110,
            pattern_low: 0b1000,
            resolution: 4,
            pattern_ns: 1_250,
            reset_ns: 600,
        }
    }
}

/// What a timing asks of the I2S hardware, for the log.
pub struct TimingReport {
    /// The report up to the ratio of the source clock to the master clock.
    pub text: String,
    pub bclk_hz: u32,
    pub mclk_hz: u32,
}

/// The text of a report, up to the clock ratio.
pub open spec fn report_text(t: TimingConfig) -> Seq<char> {
    let sample = t.sample_rate();
    "iLED timing: pattern \"1\"="@ + binary_text(t.pattern_high as nat, t.resolution as nat)
        + " \"0\"="@ + binary_text(t.pattern_low as nat, t.resolution as nat) + " (resolution "@
        + decimal(t.resolution as nat) + "), "@ + decimal(t.pattern_ns as nat) + "ns/pattern, "@
        + decimal(t.reset_ns as nat) + "ns reset -> bit rate "@ + decimal(t.bit_rate())
        + "Hz, I2S sample rate "@ + decimal(sample) + "Hz -> BCLK "@ + decimal(sample * 16)
        + "Hz, MCLK "@ + decimal(sample * I2S_MCLK_MULTIPLE as nat) + "Hz (= "@ + decimal(160)
        + "MHz source / "@
}

impl TimingConfig {
    /// Whether the fields are within the bounds that `parse` keeps.
    pub open spec fn wf(self) -> bool {
        &&& MIN_RESOLUTION <= self.resolution <= MAX_RESOLUTION
        &&& (self.pattern_high as nat) < pow2(self.resolution as nat)
        &&& (self.pattern_low as nat) < pow2(self.resolution as nat)
        &&& self.pattern_ns >= MIN_PATTERN_NS
        &&& self.reset_ns <= MAX_RESET_NS
    }

    /// `resolution` sub-bits every `pattern_ns` nanoseconds, in 32 bits.
    pub open spec fn bit_rate(self) -> nat {
        (self.resolution as nat * 1_000_000_000) / (self.pattern_ns as nat) % 0x1_0000_0000
    }

    /// The sample rate that gives this bit rate.
    pub open spec fn sample_rate(self) -> nat {
        self.bit_rate() / 16
    }

    /// Sub-bit clock rate of the encoder.
    pub fn bit_rate_hz(&self) -> (r: u32)
        requires
            self.pattern_ns > 0,
        ensures
            r == self.bit_rate(),
            self.wf() ==> r <= 8_000_000,
    {
        proof {
            if self.wf() {
                lemma_bit_rate_bound(*self);
            }
        }
        let rate: u64 = self.resolution as u64 * 1_000_000_000 / self.pattern_ns as u64;
        (rate % 0x1_0000_0000) as u32
    }

    /// The I2S sample rate that gives `bit_rate_hz`: the driver clocks two
    /// slots of eight bits per sample, in mono mode too.
    pub fn sample_rate_hz(&self) -> (r: u32)
        requires
            self.pattern_ns > 0,
        ensures
            r == self.sample_rate(),
            self.wf() ==> r <= 500_000,
    {
        self.bit_rate_hz() / 16
    }

    /// Reads the first four of a protocol's five parts. `high` and `low` are
    /// zeros and ones only, of one length between `MIN_RESOLUTION` and
    /// `MAX_RESOLUTION`; `pattern_ns` is at least `MIN_PATTERN_NS`, `reset_ns`
    /// at most `MAX_RESET_NS`. A pattern that changes level more than once is
    /// let through, so that timings can be experimented with.
    pub fn parse(high: &str, low: &str, pattern_ns: &str, reset_ns: &str) -> (r: Option<Self>)
        ensures
            r == timing_of(high@, low@, pattern_ns@, reset_ns@),
            r matches Some(t) ==> t.wf(),
    {
        let h: Vec<char> = chars_of(high);
        let l: Vec<char> = chars_of(low);
        let resolution: usize = h.len();
        if l.len() != resolution || resolution < MIN_RESOLUTION as usize || resolution
            > MAX_RESOLUTION as usize {
            return None;
        }
        let pattern_high: u8 = match to_bits(&h) {
            Some(p) => p,
            None => {
                return None;
            },
        };
        let pattern_low: u8 = match to_bits(&l) {
            Some(p) => p,
            None => {
                return None;
            },
        };
        let pattern: u32 = match parse_number(pattern_ns, u32::MAX as u64) {
            Some(n) => n as u32,
            None => {
                return None;
            },
        };
        let reset: u32 = match parse_number(reset_ns, MAX_RESET_NS as u64) {
            Some(n) => n as u32,
            None => {
                return None;
            },
        };
        if pattern < MIN_PATTERN_NS {
            return None;
        }
        proof {
            lemma_binary_value_bound(high@);
            lemma_binary_value_bound(low@);
        }
        Some(
            TimingConfig {
                pattern_high,
                pattern_low,
                resolution: resolution as u8,
                pattern_ns: pattern,
                reset_ns: reset,
            },
        )
    }

    /// The inverse of `parse`: the four parts, with colons between them.
    pub fn to_csv(&self) -> (r: String)
        requires
            self.resolution <= MAX_RESOLUTION,
        ensures
            r@ == timing_text(*self),
    {
        let mut out: String = String::new();
        proof {
            reveal_strlit(":");
            assert(":"@ =~= seq![':']);
        }
        push_binary(&mut out, self.pattern_high, self.resolution);
        out.append(":");
        push_binary(&mut out, self.pattern_low, self.resolution);
        out.append(":");
        push_number(&mut out, self.pattern_ns as u64);
        out.append(":");
        push_number(&mut out, self.reset_ns as u64);
        proof {
            assert(out@ =~= timing_text(*self));
        }
        out
    }

    /// What this timing asks of the hardware. The clocks are exact multiples
    /// of the sample rate; the ratio of the source clock to the master clock
    /// is the one number left to whoever logs the report.
    pub fn report(&self) -> (r: TimingReport)
        requires
            self.resolution <= MAX_RESOLUTION,
            self.pattern_ns > 0,
            self.sample_rate() * I2S_MCLK_MULTIPLE <= u32::MAX,
        ensures
            r.text@ == report_text(*self),
            r.bclk_hz == self.sample_rate() * 16,
            r.mclk_hz == self.sample_rate() * I2S_MCLK_MULTIPLE,
            r.mclk_hz == 16 * r.bclk_hz,
    {
        let bit_rate_hz: u32 = self.bit_rate_hz();
        let sample_rate_hz: u32 = self.sample_rate_hz();
        let bclk_hz: u32 = sample_rate_hz * 16;
        let mclk_hz: u32 = sample_rate_hz * I2S_MCLK_MULTIPLE;
        let mut out: String = String::new();
        out.append("iLED timing: pattern \"1\"=");
        push_binary(&mut out, self.pattern_high, self.resolution);
        out.append(" \"0\"=");
        push_binary(&mut out, self.pattern_low, self.resolution);
        out.append(" (resolution ");
        push_number(&mut out, self.resolution as u64);
        out.append("), ");
        push_number(&mut out, self.pattern_ns as u64);
        out.append("ns/pattern, ");
        push_number(&mut out, self.reset_ns as u64);
        out.append("ns reset -> bit rate ");
        push_number(&mut out, bit_rate_hz as u64);
        out.append("Hz, I2S sample rate ");
        push_number(&mut out, sample_rate_hz as u64);
        out.append("Hz -> BCLK ");
        push_number(&mut out, bclk_hz as u64);
        out.append("Hz, MCLK ");
        push_number(&mut out, mclk_hz as u64);
        out.append("Hz (= ");
        push_number(&mut out, (I2S_SOURCE_CLOCK_HZ / 1_000_000) as u64);
        out.append("MHz source / ");
        proof {
            assert(out@ =~= report_text(*self));
        }
        TimingReport { text: out, bclk_hz, mclk_hz }
    }
}

/// The value of up to eight zeros and ones.
fn to_bits(v: &Vec<char>) -> (r: Option<u8>)
    requires
        v@.len() <= MAX_RESOLUTION,
    ensures
        r is Some <==> is_binary(v@),
        r matches Some(p) ==> p == binary_value(v@),
{
    let mut acc: u8 = 0;
    assert(v@.take(0) =~= Seq::<char>::empty());
    for i in 0..v.len()
        invariant
            v@.len() <= MAX_RESOLUTION,
            is_binary(v@.take(i as int)),
            acc == binary_value(v@.take(i as int)),
    {
        let c: char = v[i];
        if c != '0' && c != '1' {
            return None;
        }
        proof {
            let t = v@.take(i + 1);
            assert(t.drop_last() =~= v@.take(i as int));
            assert forall|j: int| 0 <= j < t.len() implies #[trigger] t[j] == '0' || t[j] == '1' by {
                if j < i {
                    assert(v@.take(i as int)[j] == t[j]);
                }
            }
            lemma_binary_value_bound(v@.take(i as int));
            lemma_pow2_upto_7(i as nat);
        }
        acc = acc * 2 + if c == '1' {
            1
        } else {
            0
        };
    }
    proof {
        assert(v@.take(v@.len() as int) =~= v@);
    }
    Some(acc)
}

/// Appends the low `n` bits of `p`, most significant first.
fn push_binary(out: &mut String, p: u8, n: u8)
    ensures
        final(out)@ == old(out)@ + binary_text(p as nat, n as nat),
    decreases n,
{
    proof {
        reveal_strlit("0");
        reveal_strlit("1");
    }
    if n > 0 {
        push_binary(out, p / 2, n - 1);
        out.append(
            if p % 2 == 1 {
                "1"
            } else {
                "0"
            },
        );
    }
    proof {
        assert(out@ =~= old(out)@ + binary_text(p as nat, n as nat));
    }
}

proof fn lemma_pow2_upto_7(n: nat)
    requires
        n <= 7,
    ensures
        pow2(n) <= 128,
{
    lemma2_to64();
    if n < 7 {
        lemma_pow2_strictly_increases(n, 7);
    }
}

/// `n` zeros and ones stand for less than `2^n`.
pub proof fn lemma_binary_value_bound(s: Seq<char>)
    ensures
        binary_value(s) < pow2(s.len()),
    decreases s.len(),
{
    if s.len() == 0 {
        lemma2_to64();
    } else {
        lemma_binary_value_bound(s.drop_last());
        lemma_pow2_unfold(s.len());
    }
}

proof fn lemma_bit_rate_bound(t: TimingConfig)
    requires
        t.wf(),
    ensures
        t.resolution as nat * 1_000_000_000 / (t.pattern_ns as nat) <= 8_000_000,
{
    let n = t.resolution as nat * 1_000_000_000;
    let d = t.pattern_ns as nat;
    assert(n / d <= 8_000_000) by (nonlinear_arith)
        requires
            n <= 8_000_000_000,
            d >= 1000,
    ;
}

// ---------------------------------------------------------------------------
// Laws
// ---------------------------------------------------------------------------

/// Zeros and ones read back from the bits that they are written from.
pub proof fn lemma_binary_roundtrip(p: nat, n: nat)
    requires
        p < pow2(n),
    ensures
        binary_text(p, n).len() == n,
        is_binary(binary_text(p, n)),
        binary_value(binary_text(p, n)) == p,
    decreases n,
{
    if n == 0 {
        lemma2_to64();
    } else {
        lemma_pow2_unfold(n);
        lemma_binary_roundtrip(p / 2, (n - 1) as nat);
        let t = binary_text(p, n);
        assert(t.drop_last() =~= binary_text(p / 2, (n - 1) as nat));
        assert forall|j: int| 0 <= j < t.len() implies #[trigger] t[j] == '0' || t[j] == '1' by {
            if j < n - 1 {
                assert(t.drop_last()[j] == t[j]);
            }
        }
    }
}

/// A timing reads back from its four parts.
pub proof fn lemma_timing_roundtrip(t: TimingConfig)
    requires
        t.wf(),
    ensures
        timing_of(
            binary_text(t.pattern_high as nat, t.resolution as nat),
            binary_text(t.pattern_low as nat, t.resolution as nat),
            decimal(t.pattern_ns as nat),
            decimal(t.reset_ns as nat),
        ) == Some(t),
{
    lemma_binary_roundtrip(t.pattern_high as nat, t.resolution as nat);
    lemma_binary_roundtrip(t.pattern_low as nat, t.resolution as nat);
    lemma_number_of_decimal(t.pattern_ns as nat);
    lemma_number_of_decimal(t.reset_ns as nat);
}

/// What the text of a timing is made of.
pub proof fn lemma_timing_text_chars(t: TimingConfig)
    requires
        t.wf(),
    ensures
        no_space(timing_text(t)),
        lacks(timing_text(t), ','),
        lacks(binary_text(t.pattern_high as nat, t.resolution as nat), ':'),
        lacks(binary_text(t.pattern_low as nat, t.resolution as nat), ':'),
        timing_text(t).len() > 0,
{
    let n = t.resolution as nat;
    let h = binary_text(t.pattern_high as nat, n);
    let l = binary_text(t.pattern_low as nat, n);
    lemma_binary_roundtrip(t.pattern_high as nat, n);
    lemma_binary_roundtrip(t.pattern_low as nat, n);
    lemma_decimal_chars(t.pattern_ns as nat);
    lemma_decimal_chars(t.reset_ns as nat);
    let colon = seq![':'];
    assert(no_space(h) && lacks(h, ',') && no_space(l) && lacks(l, ','));
    lemma_concat_chars(h, colon, ',');
    lemma_concat_chars(h + colon, l, ',');
    lemma_concat_chars(h + colon + l, colon, ',');
    lemma_concat_chars(h + colon + l + colon, decimal(t.pattern_ns as nat), ',');
    lemma_concat_chars(h + colon + l + colon + decimal(t.pattern_ns as nat), colon, ',');
    lemma_concat_chars(
        h + colon + l + colon + decimal(t.pattern_ns as nat) + colon,
        decimal(t.reset_ns as nat),
        ',',
    );
}

/// The text of a pattern is ASCII, a character for each level.
pub proof fn lemma_binary_text_len(p: nat, n: nat)
    ensures
        is_ascii_chars(binary_text(p, n)),
        binary_text(p, n).len() == n,
    decreases n,
{
    if n > 0 {
        lemma_binary_text_len(p / 2, (n - 1) as nat);
        let t = binary_text(p / 2, (n - 1) as nat);
        assert forall|i: int| 0 <= i < n implies '\0' <= #[trigger] binary_text(p, n)[i]
            <= '\u{7f}' by {
            if i < n - 1 {
                assert(binary_text(p, n)[i] == t[i]);
            }
        }
    }
}

/// Whether a pattern keeps its first level up to `k` and the other one from
/// there on.
pub open spec fn steps_at(s: Seq<char>, k: int) -> bool {
    &&& 0 < k < s.len()
    &&& forall|i: int| 0 <= i < k ==> #[trigger] s[i] == s[0]
    &&& forall|i: int| k <= i < s.len() ==> #[trigger] s[i] != s[0]
}

/// Whether a pattern changes level exactly once.
pub open spec fn steps_once(s: Seq<char>) -> bool {
    is_binary(s) && exists|k: int| steps_at(s, k)
}

/// Where both patterns change level once and start with the same level, every
/// boundary between two symbols, whichever they are, joins two different
/// levels: no run grows past the symbol that it is in.
pub proof fn lemma_clean_boundaries(one: Seq<char>, zero: Seq<char>)
    requires
        steps_once(one),
        steps_once(zero),
        one[0] == zero[0],
    ensures
        one.last() != one[0],
        one.last() != zero[0],
        zero.last() != zero[0],
        zero.last() != one[0],
{
}

/// The bit rate is the whole number of sub-bits in a second: `resolution` of
/// them take `pattern_ns` nanoseconds.
pub proof fn lemma_bit_rate_is_whole(t: TimingConfig)
    requires
        t.wf(),
    ensures
        t.bit_rate() * t.pattern_ns <= t.resolution * 1_000_000_000,
        t.resolution * 1_000_000_000 < (t.bit_rate() + 1) * t.pattern_ns,
        16 * t.sample_rate() <= t.bit_rate() < 16 * t.sample_rate() + 16,
{
    let a = t.resolution as int * 1_000_000_000;
    let d = t.pattern_ns as int;
    lemma_bit_rate_bound(t);
    vstd::arithmetic::div_mod::lemma_fundamental_div_mod(a, d);
    vstd::arithmetic::div_mod::lemma_mod_bound(a, d);
    let q = a / d;
    assert(q <= 8_000_000) by (nonlinear_arith)
        requires
            q == a / d,
            a <= 8_000_000_000,
            d >= 1000,
    ;
    assert(0 <= q) by (nonlinear_arith)
        requires
            q == a / d,
            0 <= a,
            d >= 1000,
    ;
    assert(t.bit_rate() == q);
    assert(q * d <= a && a < (q + 1) * d) by (nonlinear_arith)
        requires
            a == d * q + a % d,
            0 <= a % d < d,
    ;
}

/// The first character of a pattern is its most significant bit.
pub proof fn lemma_pattern_bits(s: Seq<char>, i: int)
    requires
        is_binary(s),
        0 <= i < s.len() <= 8,
    ensures
        binary_value(s) < 256,
        (((binary_value(s) as u8) >> ((s.len() - 1 - i) as u8)) & 1u8 == 1u8) == (s[i] == '1'),
    decreases s.len(),
{
    lemma_binary_value_bound(s);
    lemma2_to64();
    let n = s.len() as int;
    let front = s.drop_last();
    lemma_binary_value_bound(front);
    assert(pow2(s.len()) <= 256 && pow2(front.len()) <= 128) by {
        if s.len() < 8 {
            vstd::arithmetic::power2::lemma_pow2_strictly_increases(s.len(), 8);
        }
        if front.len() < 7 {
            vstd::arithmetic::power2::lemma_pow2_strictly_increases(front.len(), 7);
        }
    }
    let v = binary_value(s) as u8;
    let f = binary_value(front) as u8;
    let last: u8 = if s.last() == '1' {
        1
    } else {
        0
    };
    assert(v == 2 * f + last);
    if i == n - 1 {
        assert((v >> 0u8) & 1u8 == last) by (bit_vector)
            requires
                v == 2 * f + last,
                last <= 1u8,
                f < 128u8,
        ;
    } else {
        assert forall|j: int| 0 <= j < front.len() implies #[trigger] front[j] == '0' || front[j]
            == '1' by {
            assert(front[j] == s[j]);
        }
        lemma_pattern_bits(front, i);
        let k = (n - 2 - i) as u8;
        let k1 = (n - 1 - i) as u8;
        assert((v >> k1) & 1u8 == (f >> k) & 1u8) by (bit_vector)
            requires
                v == 2 * f + last,
                last <= 1u8,
                f < 128u8,
                k1 == k + 1,
                k < 7u8,
        ;
    }
}

/// Which four parts are a timing, and what they give.
pub proof fn lemma_timing_bounds(
    high: Seq<char>,
    low: Seq<char>,
    pattern_ns: Seq<char>,
    reset_ns: Seq<char>,
)
    ensures
        timing_of(high, low, pattern_ns, reset_ns) is Some <==> {
            &&& 2 <= high.len() <= 8
            &&& low.len() == high.len()
            &&& forall|i: int| 0 <= i < high.len() ==> #[trigger] high[i] == '0' || high[i] == '1'
            &&& forall|i: int| 0 <= i < low.len() ==> #[trigger] low[i] == '0' || low[i] == '1'
            &&& number(pattern_ns) matches Some(n) && 1_000 <= n <= 0xffff_ffff
            &&& number(reset_ns) matches Some(n) && n <= 1_000_000
        },
        timing_of(high, low, pattern_ns, reset_ns) matches Some(t) ==> {
            &&& t.resolution == high.len()
            &&& number(pattern_ns) == Some(t.pattern_ns as nat)
            &&& number(reset_ns) == Some(t.reset_ns as nat)
            &&& forall|i: int|
                0 <= i < high.len() ==> (((t.pattern_high >> ((high.len() - 1 - i) as u8)) & 1u8
                    == 1u8) == (#[trigger] high[i] == '1'))
            &&& forall|i: int|
                0 <= i < low.len() ==> (((t.pattern_low >> ((low.len() - 1 - i) as u8)) & 1u8
                    == 1u8) == (#[trigger] low[i] == '1'))
        },
{
    if let Some(t) = timing_of(high, low, pattern_ns, reset_ns) {
        assert forall|i: int| 0 <= i < high.len() implies (((t.pattern_high >> ((high.len() - 1 - i)
            as u8)) & 1u8 == 1u8) == (#[trigger] high[i] == '1')) by {
            lemma_pattern_bits(high, i);
        }
        assert forall|i: int| 0 <= i < low.len() implies (((t.pattern_low >> ((low.len() - 1 - i)
            as u8)) & 1u8 == 1u8) == (#[trigger] low[i] == '1')) by {
            lemma_pattern_bits(low, i);
        }
    }
}

} // verus!
