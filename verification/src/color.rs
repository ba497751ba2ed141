//! Colors of an LED chain and the wire layout of one LED's color packet.
use crate::text::{
    all_digits, chars_of, decimal, digit_char, digits_value, hex_byte, hex_digit, is_digit,
    is_space, lacks, lemma_ascii_concat, lemma_decimal_ascii, lemma_decimal_digits,
    lemma_decimal_len, no_space, parse_hex_digit, parse_number, push_hex_byte, push_number,
    strip_first,
};
use vstd::prelude::*;
use vstd::utf8::*;

verus! {

broadcast use vstd::string::group_string_axioms;

/// Red, green, blue, warm white and cold white, eight bits each.
pub type Color = (u8, u8, u8, u8, u8);

/// A color channel that a `ColorPattern` entry can name.
#[derive(Clone, Copy, PartialEq, Eq, Debug, Structural)]
pub enum Channel {
    Red,
    Green,
    Blue,
    WarmWhite,
    ColdWhite,
}

/// How many entries a `ColorPattern` holds at most.
pub const MAX_COLOR_CHANNELS: usize = 5;

/// A channel's values are plain eight-bit numbers, so there is no precision
/// past eight bits to send.
pub const MAX_CHANNEL_BITS: u8 = 8;

/// The channel that a letter names.
pub open spec fn channel_of(c: char) -> Option<Channel> {
    if c == 'r' {
        Some(Channel::Red)
    } else if c == 'g' {
        Some(Channel::Green)
    } else if c == 'b' {
        Some(Channel::Blue)
    } else if c == 'w' {
        Some(Channel::WarmWhite)
    } else if c == 'c' {
        Some(Channel::ColdWhite)
    } else {
        None
    }
}

/// The letter that names a channel.
pub open spec fn letter_of(channel: Channel) -> char {
    match channel {
        Channel::Red => 'r',
        Channel::Green => 'g',
        Channel::Blue => 'b',
        Channel::WarmWhite => 'w',
        Channel::ColdWhite => 'c',
    }
}

/// A channel's value in a color.
pub open spec fn channel_value(channel: Channel, color: Color) -> u8 {
    match channel {
        Channel::Red => color.0,
        Channel::Green => color.1,
        Channel::Blue => color.2,
        Channel::WarmWhite => color.3,
        Channel::ColdWhite => color.4,
    }
}

impl Channel {
    /// The letter that names this channel.
    pub fn letter(self) -> (r: char)
        ensures
            r == letter_of(self),
    {
        match self {
            Channel::Red => 'r',
            Channel::Green => 'g',
            Channel::Blue => 'b',
            Channel::WarmWhite => 'w',
            Channel::ColdWhite => 'c',
        }
    }

    /// `letter`, as text.
    fn letter_text(self) -> (r: &'static str)
        ensures
            r@ == seq![letter_of(self)],
    {
        proof {
            reveal_strlit("r");
            reveal_strlit("g");
            reveal_strlit("b");
            reveal_strlit("w");
            reveal_strlit("c");
        }
        match self {
            Channel::Red => "r",
            Channel::Green => "g",
            Channel::Blue => "b",
            Channel::WarmWhite => "w",
            Channel::ColdWhite => "c",
        }
    }

    /// This channel's value in `color`: always the full eight bits, whatever
    /// depth a `ColorPattern` entry asks for.
    pub fn raw_value(self, color: Color) -> (r: u8)
        ensures
            r == channel_value(self, color),
    {
        match self {
            Channel::Red => color.0,
            Channel::Green => color.1,
            Channel::Blue => color.2,
            Channel::WarmWhite => color.3,
            Channel::ColdWhite => color.4,
        }
    }

    /// The channel that `c` names.
    fn from_letter(c: char) -> (r: Option<Channel>)
        ensures
            r == channel_of(c),
    {
        if c == 'r' {
            Some(Channel::Red)
        } else if c == 'g' {
            Some(Channel::Green)
        } else if c == 'b' {
            Some(Channel::Blue)
        } else if c == 'w' {
            Some(Channel::WarmWhite)
        } else if c == 'c' {
            Some(Channel::ColdWhite)
        } else {
            None
        }
    }
}

/// How many digits `s` starts with.
pub open spec fn digit_run(s: Seq<char>) -> nat
    decreases s.len(),
{
    if s.len() > 0 && is_digit(s[0]) {
        1 + digit_run(s.skip(1))
    } else {
        0
    }
}

/// The `<letter><depth>` pairs that `s` spells out, back to back.
pub open spec fn entries_of(s: Seq<char>) -> Option<Seq<(Channel, u8)>>
    decreases s.len(),
{
    if s.len() == 0 {
        Some(seq![])
    } else {
        let run = digit_run(s.skip(1));
        let bits = digits_value(s.skip(1).take(run as int));
        if 0 < run < s.len() && 1 <= bits <= MAX_CHANNEL_BITS {
            match (channel_of(s[0]), entries_of(s.skip(run as int + 1))) {
                (Some(channel), Some(rest)) => Some(seq![(channel, bits as u8)] + rest),
                _ => None,
            }
        } else {
            None
        }
    }
}

/// The color pattern that `s` spells out: one to five entries.
pub open spec fn pattern_of(s: Seq<char>) -> Option<Seq<(Channel, u8)>> {
    match entries_of(s) {
        Some(entries) => if 1 <= entries.len() <= MAX_COLOR_CHANNELS {
            Some(entries)
        } else {
            None
        },
        None => None,
    }
}

/// The text of a sequence of entries.
pub open spec fn pattern_text(entries: Seq<(Channel, u8)>) -> Seq<char>
    decreases entries.len(),
{
    if entries.len() == 0 {
        seq![]
    } else {
        seq![letter_of(entries[0].0)] + decimal(entries[0].1 as nat) + pattern_text(entries.skip(1))
    }
}

/// The bit depths of a sequence of entries, summed.
pub open spec fn depth_sum(entries: Seq<(Channel, u8)>) -> nat
    decreases entries.len(),
{
    if entries.len() == 0 {
        0
    } else {
        depth_sum(entries.drop_last()) + entries.last().1 as nat
    }
}

/// What a color pattern's entries always are: one to five of them, each one to
/// eight bits deep.
pub open spec fn pattern_wf(entries: Seq<(Channel, u8)>) -> bool {
    &&& 1 <= entries.len() <= MAX_COLOR_CHANNELS
    &&& forall|i: int|
        0 <= i < entries.len() ==> 1 <= (#[trigger] entries[i]).1 <= MAX_CHANNEL_BITS
}

/// The wire layout of one LED's color packet: an ordered sequence of
/// `<channel-letter><bit-depth>` pairs without separators. "g8b8r8w8" is a
/// 32-bit packet, green then blue then red then warm white; "c4" is a single
/// four-bit cold white channel. Letters: r(ed), g(reen), b(lue), w(arm white),
/// c(old white). A channel less than eight bits deep sends its most
/// significant bits only.
#[derive(Clone, Copy, Debug)]
pub struct ColorPattern {
    channels: [(Channel, u8); MAX_COLOR_CHANNELS],
    count: u8,
}

impl View for ColorPattern {
    type V = Seq<(Channel, u8)>;

    closed spec fn view(&self) -> Seq<(Channel, u8)> {
        self.channels@.take(self.count as int)
    }
}

impl PartialEq for ColorPattern {
    fn eq(&self, other: &Self) -> (r: bool) {
        let a: &[(Channel, u8)] = self.channels();
        let b: &[(Channel, u8)] = other.channels();
        if a.len() != b.len() {
            return false;
        }
        for i in 0..a.len()
            invariant
                a@ == self@,
                b@ == other@,
                a@.len() == b@.len(),
                forall|j: int| 0 <= j < i ==> a@[j] == b@[j],
        {
            let (c, n): (Channel, u8) = a[i];
            let (d, m): (Channel, u8) = b[i];
            if c != d || n != m {
                return false;
            }
        }
        assert(self@ =~= other@);
        true
    }
}

impl Eq for ColorPattern {

}

impl vstd::std_specs::cmp::PartialEqSpecImpl for ColorPattern {
    open spec fn obeys_eq_spec() -> bool {
        true
    }

    open spec fn eq_spec(&self, other: &Self) -> bool {
        self@ == other@
    }
}

impl Default for ColorPattern {
    /// "g8r8b8w8".
    fn default() -> (r: Self)
        ensures
            r@ == seq![
                (Channel::Green, 8u8),
                (Channel::Red, 8u8),
                (Channel::Blue, 8u8),
                (Channel::WarmWhite, 8u8),
            ],
    {
        let channels: [(Channel, u8); MAX_COLOR_CHANNELS] = [
            (Channel::Green, 8),
            (Channel::Red, 8),
            (Channel::Blue, 8),
            (Channel::WarmWhite, 8),
            (Channel::Red, 0),
        ];
        proof {
            assert(channels@.take(4) =~= seq![
                (Channel::Green, 8u8),
                (Channel::Red, 8u8),
                (Channel::Blue, 8u8),
                (Channel::WarmWhite, 8u8),
            ]);
        }
        ColorPattern { channels, count: 4 }
    }
}

impl ColorPattern {
    #[verifier::type_invariant]
    spec fn inv(self) -> bool {
        &&& self.count <= MAX_COLOR_CHANNELS
        &&& pattern_wf(self.channels@.take(self.count as int))
    }

    /// The entries, in wire order.
    pub fn channels(&self) -> (r: &[(Channel, u8)])
        ensures
            r@ == self@,
            pattern_wf(self@),
    {
        proof {
            use_type_invariant(self);
        }
        vstd::slice::slice_subrange(self.channels.as_slice(), 0, self.count as usize)
    }

    /// Total wire bits that one LED's color packet takes.
    pub fn total_bits(&self) -> (r: usize)
        ensures
            r == depth_sum(self@),
            pattern_wf(self@),
            r <= MAX_COLOR_CHANNELS * MAX_CHANNEL_BITS,
    {
        let entries: &[(Channel, u8)] = self.channels();
        let mut sum: usize = 0;
        assert(entries@.take(0) =~= Seq::<(Channel, u8)>::empty());
        for i in 0..entries.len()
            invariant
                entries@ == self@,
                pattern_wf(self@),
                sum == depth_sum(entries@.take(i as int)),
                sum <= i * MAX_CHANNEL_BITS,
        {
            proof {
                assert(entries@.take(i + 1).drop_last() =~= entries@.take(i as int));
                assert(entries@.take(i + 1).last() == entries@[i as int]);
            }
            sum = sum + entries[i].1 as usize;
        }
        proof {
            assert(entries@.take(entries@.len() as int) =~= entries@);
        }
        sum
    }

    /// Reads a color pattern: `<letter><digits>` pairs, back to back. `None`
    /// on an unknown letter, a letter without a depth of one to eight after
    /// it, more than `MAX_COLOR_CHANNELS` entries, or no entry at all.
    pub fn parse(s: &str) -> (r: Option<Self>)
        ensures
            r is Some <==> pattern_of(s@) is Some,
            r matches Some(p) ==> pattern_of(s@) == Some(p@) && pattern_wf(p@),
    {
        let v: Vec<char> = chars_of(s);
        let n: usize = v.len();
        let mut channels: [(Channel, u8); MAX_COLOR_CHANNELS] = [
            (Channel::Red, 0),
            (Channel::Red, 0),
            (Channel::Red, 0),
            (Channel::Red, 0),
            (Channel::Red, 0),
        ];
        let mut count: usize = 0;
        let mut i: usize = 0;
        proof {
            assert(s@.skip(0) =~= s@);
            if let Some(rest) = entries_of(s@) {
                assert(channels@.take(0) + rest =~= rest);
            }
        }
        while i < n
            invariant
                v@ == s@,
                n == v.len(),
                i <= n,
                count <= MAX_COLOR_CHANNELS,
                count == 0 ==> i == 0,
                forall|j: int|
                    0 <= j < count ==> 1 <= (#[trigger] channels@[j]).1 <= MAX_CHANNEL_BITS,
                match entries_of(s@.skip(i as int)) {
                    Some(rest) => entries_of(s@) == Some(channels@.take(count as int) + rest),
                    None => entries_of(s@) is None,
                },
            decreases n - i,
        {
            let ghost rest = s@.skip(i as int);
            let ghost before = channels@.take(count as int);
            let channel: Channel = match Channel::from_letter(v[i]) {
                Some(channel) => channel,
                None => {
                    return None;
                },
            };
            let start: usize = i + 1;
            let mut j: usize = start;
            while j < n && '0' <= v[j] && v[j] <= '9'
                invariant
                    v@ == s@,
                    n == v.len(),
                    start <= j <= n,
                    forall|k: int| start <= k < j ==> is_digit(#[trigger] s@[k]),
                decreases n - j,
            {
                j = j + 1;
            }
            let ghost tail = rest.skip(1);
            let ghost run = (j - start) as int;
            proof {
                assert forall|k: int| 0 <= k < run implies is_digit(#[trigger] tail[k]) by {
                    assert(tail[k] == s@[start + k]);
                }
                if j < n {
                    assert(tail[run] == s@[j as int]);
                }
                lemma_digit_run(tail, run);
                assert(rest.skip(run + 1) =~= s@.skip(j as int));
            }
            if j == start || count >= MAX_COLOR_CHANNELS {
                return None;
            }
            let digits: &str = s.substring_char(start, j);
            proof {
                assert(digits@ =~= tail.take(run));
                assert(is_digit(digits@[0]));
                assert(all_digits(digits@));
            }
            let bits: u8 = match parse_number(digits, 255) {
                Some(bits) => bits as u8,
                None => {
                    return None;
                },
            };
            if bits == 0 || bits > MAX_CHANNEL_BITS {
                return None;
            }
            channels[count] = (channel, bits);
            count = count + 1;
            i = j;
            proof {
                assert(channels@.take(count as int) =~= before.push((channel, bits)));
                if let Some(after) = entries_of(s@.skip(i as int)) {
                    assert(before + (seq![(channel, bits)] + after) =~= channels@.take(
                        count as int,
                    ) + after);
                }
            }
        }
        proof {
            assert(s@.skip(n as int) =~= Seq::<char>::empty());
            assert(channels@.take(count as int) + Seq::<(Channel, u8)>::empty() =~= channels@.take(
                count as int,
            ));
        }
        if count == 0 {
            return None;
        }
        Some(ColorPattern { channels, count: count as u8 })
    }

    /// The inverse of `parse`.
    pub fn to_csv(&self) -> (r: String)
        ensures
            r@ == pattern_text(self@),
    {
        let entries: &[(Channel, u8)] = self.channels();
        let mut out: String = String::new();
        proof {
            assert(entries@.skip(0) =~= entries@);
            assert(out@ + pattern_text(entries@) =~= pattern_text(entries@));
        }
        for i in 0..entries.len()
            invariant
                entries@ == self@,
                out@ + pattern_text(entries@.skip(i as int)) == pattern_text(entries@),
        {
            let ghost before = out@;
            let (channel, bits): (Channel, u8) = entries[i];
            out.append(channel.letter_text());
            push_number(&mut out, bits as u64);
            proof {
                let rest = entries@.skip(i as int);
                assert(rest.skip(1) =~= entries@.skip(i + 1));
                assert(out@ + pattern_text(rest.skip(1)) =~= before + pattern_text(rest));
            }
        }
        proof {
            assert(entries@.skip(entries@.len() as int) =~= Seq::<(Channel, u8)>::empty());
            assert(out@ + Seq::<char>::empty() =~= out@);
        }
        out
    }
}

/// `digit_run`, from what it is: the digits up to the first other character.
proof fn lemma_digit_run(s: Seq<char>, k: int)
    requires
        0 <= k <= s.len(),
        forall|j: int| 0 <= j < k ==> is_digit(#[trigger] s[j]),
        k == s.len() || !is_digit(s[k]),
    ensures
        digit_run(s) == k,
    decreases s.len(),
{
    if k > 0 {
        assert(is_digit(s[0]));
        assert forall|j: int| 0 <= j < k - 1 implies is_digit(#[trigger] s.skip(1)[j]) by {
            assert(s.skip(1)[j] == s[j + 1]);
        }
        lemma_digit_run(s.skip(1), k - 1);
    }
}

// ---------------------------------------------------------------------------
// Colors
// ---------------------------------------------------------------------------

/// The value that the digits at `2 * k` and after give channel `k`. Digits
/// past the end count as 0, so a lone last one is the channel's high digit.
#[verifier::opaque]
pub open spec fn channel_digits(h: Seq<char>, k: int) -> Option<nat> {
    if 2 * k >= h.len() {
        Some(0)
    } else if 2 * k + 1 == h.len() {
        match hex_digit(h[2 * k]) {
            Some(a) => Some(16 * a),
            None => None,
        }
    } else {
        match (hex_digit(h[2 * k]), hex_digit(h[2 * k + 1])) {
            (Some(a), Some(b)) => Some(16 * a + b),
            _ => None,
        }
    }
}

/// The color that a color field names.
#[verifier::opaque]
pub open spec fn color_of(s: Seq<char>, empty_default: Color) -> Option<Color> {
    if s.len() == 0 {
        Some(empty_default)
    } else if s[0] != '#' || s.len() > 11 {
        None
    } else {
        let h = s.skip(1);
        match (
            channel_digits(h, 0),
            channel_digits(h, 1),
            channel_digits(h, 2),
            channel_digits(h, 3),
            channel_digits(h, 4),
        ) {
            (Some(r), Some(g), Some(b), Some(w), Some(c)) => Some(
                (r as u8, g as u8, b as u8, w as u8, c as u8),
            ),
            _ => None,
        }
    }
}

/// The text of a color: always all ten digits.
pub open spec fn color_text(color: Color) -> Seq<char> {
    seq!['#'] + hex_byte(color.0) + hex_byte(color.1) + hex_byte(color.2) + hex_byte(color.3)
        + hex_byte(color.4)
}

/// `channel_digits`, computed.
fn read_channel(h: &Vec<char>, k: usize) -> (r: Option<u8>)
    requires
        k < 5,
    ensures
        r is Some <==> channel_digits(h@, k as int) is Some,
        r matches Some(n) ==> channel_digits(h@, k as int) == Some(n as nat),
{
    proof {
        reveal(channel_digits);
    }
    if 2 * k >= h.len() {
        Some(0)
    } else if 2 * k + 1 == h.len() {
        match parse_hex_digit(h[2 * k]) {
            Some(a) => Some(16 * a),
            None => None,
        }
    } else {
        match (parse_hex_digit(h[2 * k]), parse_hex_digit(h[2 * k + 1])) {
            (Some(a), Some(b)) => Some(16 * a + b),
            _ => None,
        }
    }
}

/// Reads a color field: `#` and up to ten hexadecimal digits, two per channel,
/// in the order red, green, blue, warm white, cold white. The text can end at
/// any digit: those that are left out are 0. An empty field is `empty_default`
/// as it is.
pub fn parse_color(s: &str, empty_default: Color) -> (r: Option<Color>)
    ensures
        r == color_of(s@, empty_default),
{
    proof {
        reveal(color_of);
    }
    if s.is_empty() {
        return Some(empty_default);
    }
    let hex: &str = match strip_first(s, '#') {
        Some(hex) => hex,
        None => {
            return None;
        },
    };
    let h: Vec<char> = chars_of(hex);
    if h.len() > 10 {
        return None;
    }
    match (
        read_channel(&h, 0),
        read_channel(&h, 1),
        read_channel(&h, 2),
        read_channel(&h, 3),
        read_channel(&h, 4),
    ) {
        (Some(r), Some(g), Some(b), Some(w), Some(c)) => Some((r, g, b, w, c)),
        _ => None,
    }
}

/// The inverse of `parse_color`.
pub fn color_to_csv(color: Color) -> (r: String)
    ensures
        r@ == color_text(color),
{
    let mut out: String = String::new();
    proof {
        reveal_strlit("#");
    }
    out.append("#");
    push_hex_byte(&mut out, color.0);
    push_hex_byte(&mut out, color.1);
    push_hex_byte(&mut out, color.2);
    push_hex_byte(&mut out, color.3);
    push_hex_byte(&mut out, color.4);
    proof {
        assert(out@ =~= color_text(color));
    }
    out
}

// ---------------------------------------------------------------------------
// Laws
// ---------------------------------------------------------------------------

/// What is read as entries is one to eight bits deep.
pub proof fn lemma_entries_wf(s: Seq<char>)
    ensures
        entries_of(s) matches Some(entries) ==> forall|i: int|
            0 <= i < entries.len() ==> 1 <= (#[trigger] entries[i]).1 <= MAX_CHANNEL_BITS,
    decreases s.len(),
{
    if s.len() > 0 {
        let run = digit_run(s.skip(1));
        if 0 < run < s.len() {
            lemma_entries_wf(s.skip(run as int + 1));
        }
    }
}

/// A color pattern reads back from its text.
pub proof fn lemma_pattern_roundtrip(entries: Seq<(Channel, u8)>)
    requires
        pattern_wf(entries),
    ensures
        pattern_of(pattern_text(entries)) == Some(entries),
{
    lemma_entries_roundtrip(entries);
}

proof fn lemma_entries_roundtrip(entries: Seq<(Channel, u8)>)
    requires
        forall|i: int|
            0 <= i < entries.len() ==> 1 <= (#[trigger] entries[i]).1 <= MAX_CHANNEL_BITS,
    ensures
        entries_of(pattern_text(entries)) == Some(entries),
    decreases entries.len(),
{
    if entries.len() == 0 {
        assert(entries =~= Seq::<(Channel, u8)>::empty());
    } else {
        let s = pattern_text(entries);
        let rest = entries.skip(1);
        let bits = entries[0].1 as nat;
        let d = decimal(bits);
        let t = pattern_text(rest);
        lemma_decimal_digits(bits);
        assert forall|i: int| 0 <= i < rest.len() implies 1 <= (#[trigger] rest[i]).1
            <= MAX_CHANNEL_BITS by {
            assert(rest[i] == entries[i + 1]);
        }
        lemma_entries_roundtrip(rest);
        assert(s.skip(1) =~= d + t);
        if rest.len() > 0 {
            assert(t[0] == letter_of(rest[0].0));
        }
        assert forall|j: int| 0 <= j < d.len() implies is_digit(#[trigger] (d + t)[j]) by {
            assert((d + t)[j] == d[j]);
        }
        lemma_digit_run(d + t, d.len() as int);
        assert((d + t).take(d.len() as int) =~= d);
        assert(s.skip(d.len() as int + 1) =~= t);
        assert(seq![entries[0]] + rest =~= entries);
    }
}

/// A color reads back from its text, whatever an empty field would mean.
pub proof fn lemma_color_roundtrip(color: Color, empty_default: Color)
    ensures
        color_of(color_text(color), empty_default) == Some(color),
{
    let s = color_text(color);
    let h = s.skip(1);
    assert(h =~= hex_byte(color.0) + hex_byte(color.1) + hex_byte(color.2) + hex_byte(color.3)
        + hex_byte(color.4));
    lemma_channel_roundtrip(h, 0, color.0);
    lemma_channel_roundtrip(h, 1, color.1);
    lemma_channel_roundtrip(h, 2, color.2);
    lemma_channel_roundtrip(h, 3, color.3);
    lemma_channel_roundtrip(h, 4, color.4);
    reveal(color_of);
}

/// A zero digit at the end of a color can be left out.
pub proof fn lemma_color_trims_zeros(h: Seq<char>, empty_default: Color)
    requires
        h.len() <= 9,
    ensures
        color_of(seq!['#'] + h, empty_default) == color_of(
            seq!['#'] + h + seq!['0'],
            empty_default,
        ),
{
    reveal(color_of);
    reveal(channel_digits);
    let z = h + seq!['0'];
    assert((seq!['#'] + h).skip(1) =~= h);
    assert((seq!['#'] + h + seq!['0']).skip(1) =~= z);
    assert(hex_digit('0') == Some(0nat));
    assert forall|k: int| 0 <= k < 5 implies channel_digits(h, k) == #[trigger] channel_digits(
        z,
        k,
    ) by {
        if 2 * k < h.len() {
            assert(z[2 * k] == h[2 * k]);
        }
        if 2 * k + 1 < h.len() {
            assert(z[2 * k + 1] == h[2 * k + 1]);
        }
    }
}

/// A color has nothing but hexadecimal digits behind its `#`.
pub proof fn lemma_color_digits_only(h: Seq<char>, empty_default: Color)
    ensures
        color_of(seq!['#'] + h, empty_default) is Some <==> h.len() <= 10 && forall|i: int|
            0 <= i < h.len() ==> hex_digit(#[trigger] h[i]) is Some,
{
    reveal(color_of);
    reveal(channel_digits);
    assert((seq!['#'] + h).skip(1) =~= h);
    if h.len() <= 10 {
        assert forall|k: int| 0 <= k < 5 implies (#[trigger] channel_digits(h, k) is Some <==> ((2
            * k < h.len() ==> hex_digit(h[2 * k]) is Some) && (2 * k + 1 < h.len() ==> hex_digit(
            h[2 * k + 1],
        ) is Some))) by {}
        if color_of(seq!['#'] + h, empty_default) is Some {
            assert forall|i: int| 0 <= i < h.len() implies hex_digit(#[trigger] h[i]) is Some by {
                let k = i / 2;
                assert(channel_digits(h, k) is Some);
                assert(i == 2 * k || i == 2 * k + 1);
            }
        }
    }
}

/// Two digits written for a channel read back as its value.
proof fn lemma_channel_roundtrip(h: Seq<char>, k: int, b: u8)
    requires
        0 <= k,
        2 * k + 1 < h.len(),
        h[2 * k] == hex_byte(b)[0],
        h[2 * k + 1] == hex_byte(b)[1],
    ensures
        channel_digits(h, k) == Some(b as nat),
{
    reveal(channel_digits);
    lemma_hex_digit_roundtrip(b as nat / 16);
    lemma_hex_digit_roundtrip(b as nat % 16);
}

proof fn lemma_hex_digit_roundtrip(d: nat)
    requires
        d < 16,
    ensures
        hex_digit(digit_char(d)) == Some(d),
{
}

/// What the text of a color pattern is made of.
pub proof fn lemma_pattern_text_chars(entries: Seq<(Channel, u8)>)
    ensures
        no_space(pattern_text(entries)),
        lacks(pattern_text(entries), ','),
        lacks(pattern_text(entries), ':'),
    decreases entries.len(),
{
    if entries.len() > 0 {
        let bits = entries[0].1 as nat;
        let d = decimal(bits);
        lemma_decimal_digits(bits);
        lemma_pattern_text_chars(entries.skip(1));
        let t = pattern_text(entries.skip(1));
        let s = pattern_text(entries);
        assert forall|i: int| 0 <= i < s.len() implies !is_space(#[trigger] s[i]) && s[i] != ','
            && s[i] != ':' by {
            if i > 0 && i <= d.len() {
                assert(s[i] == d[i - 1]);
                assert(is_digit(d[i - 1]));
            } else if i > d.len() {
                assert(s[i] == t[i - 1 - d.len()]);
                assert(!is_space(t[i - 1 - d.len()]));
            }
        }
    }
}

/// The text of a pattern is ASCII, two characters for each entry.
pub proof fn lemma_pattern_text_len(entries: Seq<(Channel, u8)>)
    requires
        forall|i: int| 0 <= i < entries.len() ==> (#[trigger] entries[i]).1 <= MAX_CHANNEL_BITS,
    ensures
        is_ascii_chars(pattern_text(entries)),
        pattern_text(entries).len() == 2 * entries.len(),
    decreases entries.len(),
{
    if entries.len() > 0 {
        let bits = entries[0].1 as nat;
        let rest = entries.skip(1);
        assert forall|i: int| 0 <= i < rest.len() implies (#[trigger] rest[i]).1
            <= MAX_CHANNEL_BITS by {
            assert(rest[i] == entries[i + 1]);
        }
        lemma_pattern_text_len(rest);
        lemma_decimal_len(bits);
        lemma_decimal_ascii(bits);
        lemma_ascii_concat(seq![letter_of(entries[0].0)], decimal(bits));
        lemma_ascii_concat(
            seq![letter_of(entries[0].0)] + decimal(bits),
            pattern_text(rest),
        );
    }
}

/// The text of a color is ASCII.
pub proof fn lemma_color_text_ascii(color: Color)
    ensures
        is_ascii_chars(color_text(color)),
{
}

/// What the text of a color is made of.
pub proof fn lemma_color_text_chars(color: Color)
    ensures
        no_space(color_text(color)),
        lacks(color_text(color), ','),
        color_text(color).len() == 11,
{
}

/// Depths add up.
pub proof fn lemma_depth_sum_concat(a: Seq<(Channel, u8)>, b: Seq<(Channel, u8)>)
    ensures
        depth_sum(a + b) == depth_sum(a) + depth_sum(b),
        forall|e: (Channel, u8)| #[trigger] depth_sum(seq![e]) == e.1,
    decreases b.len(),
{
    assert forall|e: (Channel, u8)| #[trigger] depth_sum(seq![e]) == e.1 by {
        assert(seq![e].drop_last() =~= seq![]);
        reveal_with_fuel(depth_sum, 2);
    }
    if b.len() == 0 {
        assert(a + b =~= a);
    } else {
        assert((a + b).drop_last() =~= a + b.drop_last());
        assert((a + b).last() == b.last());
        lemma_depth_sum_concat(a, b.drop_last());
    }
}

/// The five letters name the channels in the order in which a color lists
/// them: the channel of letter `k` of "rgbwc" has the value of the two digits
/// at `2 * k`, the higher one first, where both are given.
pub proof fn lemma_letters_follow_digits(h: Seq<char>, empty_default: Color, k: int)
    requires
        0 <= k < 5,
        2 * k + 1 < h.len() <= 10,
        color_of(seq!['#'] + h, empty_default) is Some,
    ensures
        ({
            let color = color_of(seq!['#'] + h, empty_default)->0;
            let channel = channel_of(seq!['r', 'g', 'b', 'w', 'c'][k]);
            &&& channel is Some
            &&& hex_digit(h[2 * k]) is Some && hex_digit(h[2 * k + 1]) is Some
            &&& channel_value(channel->0, color) == 16 * hex_digit(h[2 * k])->0 + hex_digit(
                h[2 * k + 1],
            )->0
        }),
{
    reveal(color_of);
    reveal(channel_digits);
    assert((seq!['#'] + h).skip(1) =~= h);
    lemma_color_digits_only(h, empty_default);
    assert(hex_digit(h[2 * k]) is Some && hex_digit(h[2 * k + 1]) is Some);
    crate::text::lemma_hex_digit_values(h[2 * k]);
    crate::text::lemma_hex_digit_values(h[2 * k + 1]);
    assert(channel_digits(h, k) == Some(
        (16 * hex_digit(h[2 * k])->0 + hex_digit(h[2 * k + 1])->0) as nat,
    ));
}

/// Channels past the digits are dark, and only `#` starts a color.
pub proof fn lemma_color_defaults(s: Seq<char>, empty_default: Color)
    ensures
        color_of(seq![], empty_default) == Some(empty_default),
        color_of(seq!['#'], empty_default) == Some((0u8, 0u8, 0u8, 0u8, 0u8)),
        s.len() > 0 && s[0] != '#' ==> color_of(s, empty_default) is None,
{
    reveal(color_of);
    reveal(channel_digits);
    assert(seq!['#'].skip(1).len() == 0);
}

/// Five letters name channels, each another one, and no other character does.
pub proof fn lemma_channel_letters(c: char, channel: Channel)
    ensures
        channel_of(c) is Some <==> (c == 'r' || c == 'g' || c == 'b' || c == 'w' || c == 'c'),
        channel_of(letter_of(channel)) == Some(channel),
        channel_of(c) == Some(channel) ==> letter_of(channel) == c,
{
}

/// A pattern is read from left to right: a letter and its depth, then the rest.
pub proof fn lemma_pattern_order(c: char, depth: nat, rest: Seq<char>)
    requires
        1 <= depth <= 8,
        rest.len() == 0 || !is_digit(rest[0]),
    ensures
        entries_of(seq![c] + decimal(depth) + rest) == match (channel_of(c), entries_of(rest)) {
            (Some(channel), Some(entries)) => Some(seq![(channel, depth as u8)] + entries),
            _ => None,
        },
{
    let d = decimal(depth);
    let s = seq![c] + d + rest;
    lemma_decimal_digits(depth);
    assert(s.skip(1) =~= d + rest);
    assert forall|j: int| 0 <= j < d.len() implies is_digit(#[trigger] (d + rest)[j]) by {
        assert((d + rest)[j] == d[j]);
    }
    lemma_digit_run(d + rest, d.len() as int);
    assert((d + rest).take(d.len() as int) =~= d);
    assert(s.skip(d.len() as int + 1) =~= rest);
}

/// A pattern has one to five entries, each one to eight bits deep.
pub proof fn lemma_pattern_bounds(s: Seq<char>)
    ensures
        pattern_of(s) is Some <==> (entries_of(s) matches Some(entries) && 1 <= entries.len() <= 5),
        pattern_of(s) is Some ==> pattern_of(s) == entries_of(s),
        entries_of(s) matches Some(entries) ==> forall|i: int|
            0 <= i < entries.len() ==> 1 <= (#[trigger] entries[i]).1 <= 8,
{
    lemma_entries_wf(s);
}

} // verus!
