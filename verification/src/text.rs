//! Text as the command language sees it: trimming, splitting at a separator,
//! numbers read and written. The models are functions on `Seq<char>`; the
//! executable functions work on `str` and `String`.
use vstd::prelude::*;
use vstd::utf8::*;

verus! {

broadcast use vstd::string::group_string_axioms;

// ---------------------------------------------------------------------------
// Models
// ---------------------------------------------------------------------------

/// The characters with Unicode's `White_Space` property.
pub open spec fn is_space(c: char) -> bool {
    let u = c as u32;
    ||| 0x9 <= u <= 0xd
    ||| u == 0x20
    ||| u == 0x85
    ||| u == 0xa0
    ||| u == 0x1680
    ||| 0x2000 <= u <= 0x200a
    ||| u == 0x2028
    ||| u == 0x2029
    ||| u == 0x202f
    ||| u == 0x205f
    ||| u == 0x3000
}

/// `s` without its leading white space.
pub open spec fn trimmed_start(s: Seq<char>) -> Seq<char>
    decreases s.len(),
{
    if s.len() > 0 && is_space(s[0]) {
        trimmed_start(s.skip(1))
    } else {
        s
    }
}

/// `s` without its trailing white space.
pub open spec fn trimmed_end(s: Seq<char>) -> Seq<char>
    decreases s.len(),
{
    if s.len() > 0 && is_space(s.last()) {
        trimmed_end(s.drop_last())
    } else {
        s
    }
}

/// `s` without the white space around it.
pub open spec fn trimmed(s: Seq<char>) -> Seq<char> {
    trimmed_end(trimmed_start(s))
}

/// Whether `c` does not occur in `s`.
pub open spec fn lacks(s: Seq<char>, c: char) -> bool {
    forall|i: int| 0 <= i < s.len() ==> s[i] != c
}

/// Whether `s` holds no white space at all.
pub open spec fn no_space(s: Seq<char>) -> bool {
    forall|i: int| 0 <= i < s.len() ==> !is_space(#[trigger] s[i])
}

/// Where `sep` first occurs in `s`; the length of `s` if it does not.
pub open spec fn first_at(s: Seq<char>, sep: char) -> int
    decreases s.len(),
{
    if s.len() == 0 || s[0] == sep {
        0
    } else {
        1 + first_at(s.skip(1), sep)
    }
}

/// The pieces of `s` between its separators: one more than there are
/// separators, so at least one.
pub open spec fn pieces(s: Seq<char>, sep: char) -> Seq<Seq<char>>
    decreases s.len(),
{
    let i = first_at(s, sep);
    if 0 <= i < s.len() {
        seq![s.take(i)] + pieces(s.skip(i + 1), sep)
    } else {
        seq![s]
    }
}

/// `pieces`, each of them trimmed.
pub open spec fn fields(s: Seq<char>, sep: char) -> Seq<Seq<char>> {
    pieces(s, sep).map_values(|p: Seq<char>| trimmed(p))
}

/// The field at `k`; the empty text where there are not that many.
pub open spec fn field(fs: Seq<Seq<char>>, k: int) -> Seq<char> {
    if 0 <= k < fs.len() {
        fs[k]
    } else {
        seq![]
    }
}

/// The texts that a sequence of string slices holds.
pub open spec fn texts(v: Seq<&str>) -> Seq<Seq<char>> {
    Seq::new(v.len(), |i: int| v[i]@)
}

pub open spec fn is_digit(c: char) -> bool {
    '0' <= c <= '9'
}

pub open spec fn all_digits(s: Seq<char>) -> bool {
    forall|i: int| 0 <= i < s.len() ==> is_digit(#[trigger] s[i])
}

/// The number that a run of decimal digits stands for.
pub open spec fn digits_value(s: Seq<char>) -> nat
    decreases s.len(),
{
    if s.len() == 0 {
        0
    } else {
        digits_value(s.drop_last()) * 10 + (s.last() as nat - '0' as nat) as nat
    }
}

/// The number in decimal text: one or more digits, with or without a `+`
/// before them.
pub open spec fn number(s: Seq<char>) -> Option<nat> {
    let d = if s.len() > 0 && s[0] == '+' {
        s.skip(1)
    } else {
        s
    };
    if d.len() > 0 && all_digits(d) {
        Some(digits_value(d))
    } else {
        None
    }
}

/// `number`, where it is at most `max`.
pub open spec fn number_upto(s: Seq<char>, max: nat) -> Option<nat> {
    match number(s) {
        Some(n) => if n <= max {
            Some(n)
        } else {
            None
        },
        None => None,
    }
}

/// The number in decimal text that may also start with a `-`.
pub open spec fn signed_number(s: Seq<char>) -> Option<int> {
    if s.len() > 0 && s[0] == '-' {
        let d = s.skip(1);
        if d.len() > 0 && all_digits(d) {
            Some(-(digits_value(d) as int))
        } else {
            None
        }
    } else {
        match number(s) {
            Some(n) => Some(n as int),
            None => None,
        }
    }
}

/// The digit for a value below sixteen, in lower case.
pub open spec fn digit_char(d: nat) -> char {
    if d < 10 {
        ('0' as nat + d) as char
    } else {
        ('a' as nat + d - 10) as char
    }
}

/// The same in upper case.
pub open spec fn digit_char_upper(d: nat) -> char {
    if d < 10 {
        ('0' as nat + d) as char
    } else {
        ('A' as nat + d - 10) as char
    }
}

/// A number in decimal, without leading zeros.
pub open spec fn decimal(n: nat) -> Seq<char>
    decreases n,
{
    if n < 10 {
        seq![digit_char(n)]
    } else {
        decimal(n / 10).push(digit_char(n % 10))
    }
}

/// A signed number in decimal.
pub open spec fn signed_decimal(n: int) -> Seq<char> {
    if n < 0 {
        seq!['-'] + decimal((-n) as nat)
    } else {
        decimal(n as nat)
    }
}

/// A byte as two lower-case hexadecimal digits.
pub open spec fn hex_byte(b: u8) -> Seq<char> {
    seq![digit_char(b as nat / 16), digit_char(b as nat % 16)]
}

/// A byte as two upper-case hexadecimal digits.
pub open spec fn hex_byte_upper(b: u8) -> Seq<char> {
    seq![digit_char_upper(b as nat / 16), digit_char_upper(b as nat % 16)]
}

/// The value of one hexadecimal digit, in either case.
pub open spec fn hex_digit(c: char) -> Option<nat> {
    if '0' <= c <= '9' {
        Some((c as nat - '0' as nat) as nat)
    } else if 'a' <= c <= 'f' {
        Some((c as nat - 'a' as nat + 10) as nat)
    } else if 'A' <= c <= 'F' {
        Some((c as nat - 'A' as nat + 10) as nat)
    } else {
        None
    }
}

/// `c` written `n` times.
pub open spec fn repeated(c: char, n: nat) -> Seq<char> {
    Seq::new(n, |i: int| c)
}

// ---------------------------------------------------------------------------
// Reading
// ---------------------------------------------------------------------------

/// The characters of `s`.
pub fn chars_of(s: &str) -> (r: Vec<char>)
    ensures
        r@ == s@,
{
    let mut v: Vec<char> = Vec::new();
    for c in it: s.chars()
        invariant
            it.seq() == s@,
            v@ == s@.take(it.index()),
    {
        v.push(c);
    }
    v
}

/// How many bytes `s` takes in UTF-8.
pub fn byte_len(s: &str) -> (r: usize)
    ensures
        r == encode_utf8(s@).len(),
{
    s.as_bytes().len()
}

/// Whether two texts are the same.
pub fn same(a: &str, b: &str) -> (r: bool)
    ensures
        r == (a@ == b@),
{
    let x: Vec<char> = chars_of(a);
    let y: Vec<char> = chars_of(b);
    if x.len() != y.len() {
        return false;
    }
    for i in 0..x.len()
        invariant
            x@ == a@,
            y@ == b@,
            x.len() == y.len(),
            forall|j: int| 0 <= j < i ==> x@[j] == y@[j],
    {
        if x[i] != y[i] {
            return false;
        }
    }
    assert(a@ =~= b@);
    true
}

/// Whether `c` is white space.
pub fn space(c: char) -> (r: bool)
    ensures
        r == is_space(c),
{
    let u: u32 = c as u32;
    (0x9 <= u && u <= 0xd) || u == 0x20 || u == 0x85 || u == 0xa0 || u == 0x1680 || (0x2000 <= u
        && u <= 0x200a) || u == 0x2028 || u == 0x2029 || u == 0x202f || u == 0x205f || u == 0x3000
}

/// `s` without the white space around it.
pub fn trim<'a>(s: &'a str) -> (r: &'a str)
    ensures
        r@ == trimmed(s@),
{
    let v: Vec<char> = chars_of(s);
    let n: usize = v.len();
    let mut start: usize = 0;
    assert(s@.skip(0) =~= s@);
    while start < n && space(v[start])
        invariant
            v@ == s@,
            n == v.len(),
            start <= n,
            trimmed_start(s@.skip(start as int)) == trimmed_start(s@),
        decreases n - start,
    {
        proof {
            assert(s@.skip(start as int).skip(1) =~= s@.skip(start + 1));
        }
        start = start + 1;
    }
    let ghost t = trimmed_start(s@);
    assert(t == s@.skip(start as int));
    let mut end: usize = n;
    assert(t.take(n - start) =~= t);
    while end > start && space(v[end - 1])
        invariant
            v@ == s@,
            n == v.len(),
            start <= end <= n,
            t == s@.skip(start as int),
            trimmed_end(t.take(end - start)) == trimmed_end(t),
        decreases end,
    {
        proof {
            assert(t.take(end - start).drop_last() =~= t.take(end - 1 - start));
        }
        end = end - 1;
    }
    proof {
        assert(t.take(end - start) =~= s@.subrange(start as int, end as int));
    }
    s.substring_char(start, end)
}

/// `first_at`, from what it is: the place before which there is no separator.
pub proof fn lemma_first_at(s: Seq<char>, sep: char, k: int)
    requires
        0 <= k <= s.len(),
        forall|j: int| 0 <= j < k ==> s[j] != sep,
        k == s.len() || s[k] == sep,
    ensures
        first_at(s, sep) == k,
    decreases s.len(),
{
    if k > 0 {
        assert forall|j: int| 0 <= j < k - 1 implies s.skip(1)[j] != sep by {
            assert(s.skip(1)[j] == s[j + 1]);
        }
        lemma_first_at(s.skip(1), sep, k - 1);
    }
}

/// What `first_at` finds.
pub proof fn lemma_first_at_range(s: Seq<char>, sep: char)
    ensures
        0 <= first_at(s, sep) <= s.len(),
        first_at(s, sep) < s.len() ==> s[first_at(s, sep)] == sep,
        lacks(s.take(first_at(s, sep)), sep),
    decreases s.len(),
{
    if s.len() > 0 && s[0] != sep {
        lemma_first_at_range(s.skip(1), sep);
        let k = first_at(s.skip(1), sep);
        assert forall|i: int| 0 <= i < k + 1 implies #[trigger] s.take(k + 1)[i] != sep by {
            if i > 0 {
                assert(s.skip(1).take(k)[i - 1] == s[i]);
            }
        }
    }
}

/// Splits `s` at every `sep`.
pub fn split<'a>(s: &'a str, sep: char) -> (r: Vec<&'a str>)
    ensures
        texts(r@) == pieces(s@, sep),
        r@.len() >= 1,
{
    let v: Vec<char> = chars_of(s);
    let n: usize = v.len();
    let mut out: Vec<&'a str> = Vec::new();
    let mut start: usize = 0;
    let mut i: usize = 0;
    assert(s@.skip(0) =~= s@);
    assert(texts(out@) + pieces(s@, sep) =~= pieces(s@, sep));
    while i < n
        invariant
            v@ == s@,
            n == v.len(),
            start <= i <= n,
            forall|j: int| start <= j < i ==> s@[j] != sep,
            texts(out@) + pieces(s@.skip(start as int), sep) == pieces(s@, sep),
        decreases n - i,
    {
        if v[i] == sep {
            let ghost rest = s@.skip(start as int);
            let ghost before = out@;
            let piece: &'a str = s.substring_char(start, i);
            proof {
                lemma_first_at(rest, sep, i - start);
                assert(rest.take(i - start) =~= piece@);
                assert(rest.skip(i - start + 1) =~= s@.skip(i + 1));
            }
            out.push(piece);
            proof {
                assert(texts(out@) =~= texts(before) + seq![piece@]);
                assert(texts(out@) + pieces(s@.skip(i + 1), sep) =~= texts(before) + pieces(
                    rest,
                    sep,
                ));
            }
            start = i + 1;
        }
        i = i + 1;
    }
    let ghost rest = s@.skip(start as int);
    let ghost before = out@;
    let piece: &'a str = s.substring_char(start, n);
    proof {
        lemma_first_at(rest, sep, n - start);
        assert(rest =~= piece@);
    }
    out.push(piece);
    proof {
        assert(texts(out@) =~= texts(before) + seq![piece@]);
    }
    out
}

/// Splits `s` at every `sep` and trims the pieces.
pub fn split_trimmed<'a>(s: &'a str, sep: char) -> (r: Vec<&'a str>)
    ensures
        texts(r@) == fields(s@, sep),
        r@.len() >= 1,
{
    let parts: Vec<&'a str> = split(s, sep);
    let mut out: Vec<&'a str> = Vec::new();
    for i in 0..parts.len()
        invariant
            texts(parts@) == pieces(s@, sep),
            out@.len() == i,
            forall|j: int| 0 <= j < i ==> (#[trigger] out@[j])@ == trimmed(texts(parts@)[j]),
    {
        out.push(trim(parts[i]));
    }
    proof {
        assert(texts(out@) =~= fields(s@, sep));
    }
    out
}

/// The piece at `k`, or the empty text.
pub fn piece_at<'a>(parts: &Vec<&'a str>, k: usize) -> (r: &'a str)
    ensures
        r@ == field(texts(parts@), k as int),
{
    if k < parts.len() {
        parts[k]
    } else {
        proof {
            reveal_strlit("");
            assert(""@ =~= Seq::<char>::empty());
        }
        ""
    }
}

/// Splits `s` at the first `sep`, if it holds one.
pub fn split_once<'a>(s: &'a str, sep: char) -> (r: Option<(&'a str, &'a str)>)
    ensures
        match r {
            Some((a, b)) => {
                &&& first_at(s@, sep) < s@.len()
                &&& a@ == s@.take(first_at(s@, sep))
                &&& b@ == s@.skip(first_at(s@, sep) + 1)
            },
            None => first_at(s@, sep) == s@.len(),
        },
{
    let v: Vec<char> = chars_of(s);
    let n: usize = v.len();
    let mut i: usize = 0;
    while i < n && v[i] != sep
        invariant
            v@ == s@,
            n == v.len(),
            i <= n,
            forall|j: int| 0 <= j < i ==> s@[j] != sep,
        decreases n - i,
    {
        i = i + 1;
    }
    proof {
        lemma_first_at(s@, sep, i as int);
    }
    if i < n {
        proof {
            assert(s@.subrange(0, i as int) =~= s@.take(i as int));
            assert(s@.subrange(i + 1, n as int) =~= s@.skip(i + 1));
        }
        Some((s.substring_char(0, i), s.substring_char(i + 1, n)))
    } else {
        None
    }
}

/// `s` without its first character, if that is `c`.
pub fn strip_first<'a>(s: &'a str, c: char) -> (r: Option<&'a str>)
    ensures
        r is Some <==> s@.len() > 0 && s@[0] == c,
        r matches Some(t) ==> t@ == s@.skip(1),
{
    let n: usize = s.unicode_len();
    if n > 0 && s.get_char(0) == c {
        proof {
            assert(s@.subrange(1, n as int) =~= s@.skip(1));
        }
        Some(s.substring_char(1, n))
    } else {
        None
    }
}

/// Digits before a place weigh no less than what stands after them.
pub proof fn lemma_digits_value_prefix(s: Seq<char>, k: int)
    requires
        0 <= k <= s.len(),
        all_digits(s),
    ensures
        digits_value(s.take(k)) <= digits_value(s),
    decreases s.len(),
{
    if k == s.len() {
        assert(s.take(k) =~= s);
    } else {
        assert(s.drop_last().take(k) =~= s.take(k));
        lemma_digits_value_prefix(s.drop_last(), k);
    }
}

/// The value of a run of digits, where it is at most `max`.
fn digits_upto(v: &Vec<char>, start: usize, max: u64) -> (r: Option<u64>)
    requires
        start <= v@.len(),
    ensures
        ({
            let d = v@.skip(start as int);
            if d.len() > 0 && all_digits(d) && digits_value(d) <= max {
                r == Some(digits_value(d) as u64)
            } else {
                r is None
            }
        }),
{
    let n: usize = v.len();
    if start == n {
        return None;
    }
    let ghost d = v@.skip(start as int);
    let mut acc: u64 = 0;
    let mut i: usize = start;
    while i < n
        invariant
            n == v@.len(),
            start <= i <= n,
            d == v@.skip(start as int),
            all_digits(d.take(i - start)),
            acc == digits_value(d.take(i - start)),
            acc <= max,
        decreases n - i,
    {
        let c: char = v[i];
        assert(d[i - start] == c);
        if !('0' <= c && c <= '9') {
            return None;
        }
        let x: u64 = (c as u32 - '0' as u32) as u64;
        proof {
            assert(d.take(i - start + 1).drop_last() =~= d.take(i - start));
            assert(d.take(i - start + 1).last() == c);
            assert(digits_value(d.take(i - start + 1)) == acc * 10 + x);
            assert forall|j: int| 0 <= j < i - start + 1 implies is_digit(
                #[trigger] d.take(i - start + 1)[j],
            ) by {
                if j < i - start {
                    assert(d.take(i - start)[j] == d.take(i - start + 1)[j]);
                }
            }
        }
        let next: u128 = acc as u128 * 10 + x as u128;
        if next > max as u128 {
            proof {
                if all_digits(d) {
                    lemma_digits_value_prefix(d, i - start + 1);
                }
            }
            return None;
        }
        acc = next as u64;
        i = i + 1;
    }
    proof {
        assert(d.take(n - start) =~= d);
    }
    Some(acc)
}

/// Reads a number of at most `max`.
pub fn parse_number(s: &str, max: u64) -> (r: Option<u64>)
    ensures
        r is Some <==> number_upto(s@, max as nat) is Some,
        r matches Some(n) ==> number_upto(s@, max as nat) == Some(n as nat),
        r is Some <==> (number(s@) matches Some(n) && n <= max),
        r matches Some(n) ==> number(s@) == Some(n as nat),
{
    let v: Vec<char> = chars_of(s);
    let start: usize = if v.len() > 0 && v[0] == '+' {
        1
    } else {
        0
    };
    proof {
        assert(v@.skip(0) =~= s@);
    }
    digits_upto(&v, start, max)
}

/// Reads a number between -32768 and 32767.
pub fn parse_i16(s: &str) -> (r: Option<i16>)
    ensures
        r is Some <==> (signed_number(s@) matches Some(n) && i16::MIN <= n <= i16::MAX),
        r matches Some(n) ==> signed_number(s@) == Some(n as int),
{
    let v: Vec<char> = chars_of(s);
    if v.len() > 0 && v[0] == '-' {
        match digits_upto(&v, 1, 32768) {
            Some(n) => Some((-(n as i32)) as i16),
            None => None,
        }
    } else {
        match parse_number(s, 32767) {
            Some(n) => Some(n as i16),
            None => None,
        }
    }
}

/// The value of one hexadecimal digit.
pub fn parse_hex_digit(c: char) -> (r: Option<u8>)
    ensures
        r is Some <==> hex_digit(c) is Some,
        r matches Some(n) ==> hex_digit(c) == Some(n as nat) && n < 16,
{
    if '0' <= c && c <= '9' {
        Some((c as u32 - '0' as u32) as u8)
    } else if 'a' <= c && c <= 'f' {
        Some((c as u32 - 'a' as u32 + 10) as u8)
    } else if 'A' <= c && c <= 'F' {
        Some((c as u32 - 'A' as u32 + 10) as u8)
    } else {
        None
    }
}

// ---------------------------------------------------------------------------
// Writing
// ---------------------------------------------------------------------------

/// The text of one digit, in lower case.
fn digit_text(d: u8) -> (r: &'static str)
    requires
        d < 16,
    ensures
        r@ == seq![digit_char(d as nat)],
{
    proof {
        reveal_strlit("0");
        reveal_strlit("1");
        reveal_strlit("2");
        reveal_strlit("3");
        reveal_strlit("4");
        reveal_strlit("5");
        reveal_strlit("6");
        reveal_strlit("7");
        reveal_strlit("8");
        reveal_strlit("9");
        reveal_strlit("a");
        reveal_strlit("b");
        reveal_strlit("c");
        reveal_strlit("d");
        reveal_strlit("e");
        reveal_strlit("f");
    }
    match d {
        0 => "0",
        1 => "1",
        2 => "2",
        3 => "3",
        4 => "4",
        5 => "5",
        6 => "6",
        7 => "7",
        8 => "8",
        9 => "9",
        10 => "a",
        11 => "b",
        12 => "c",
        13 => "d",
        14 => "e",
        _ => "f",
    }
}

/// The text of one digit, in upper case.
fn digit_text_upper(d: u8) -> (r: &'static str)
    requires
        d < 16,
    ensures
        r@ == seq![digit_char_upper(d as nat)],
{
    proof {
        reveal_strlit("A");
        reveal_strlit("B");
        reveal_strlit("C");
        reveal_strlit("D");
        reveal_strlit("E");
        reveal_strlit("F");
    }
    match d {
        10 => "A",
        11 => "B",
        12 => "C",
        13 => "D",
        14 => "E",
        15 => "F",
        _ => digit_text(d),
    }
}

/// Appends a number in decimal.
pub fn push_number(out: &mut String, n: u64)
    ensures
        final(out)@ == old(out)@ + decimal(n as nat),
    decreases n,
{
    if n >= 10 {
        push_number(out, n / 10);
    }
    out.append(digit_text((n % 10) as u8));
    proof {
        if n < 10 {
            assert(out@ =~= old(out)@ + decimal(n as nat));
        } else {
            assert(out@ =~= old(out)@ + decimal(n as nat));
        }
    }
}

/// Appends a signed number in decimal.
pub fn push_signed(out: &mut String, n: i64)
    ensures
        final(out)@ == old(out)@ + signed_decimal(n as int),
{
    if n < 0 {
        proof {
            reveal_strlit("-");
            assert("-"@ =~= seq!['-']);
        }
        out.append("-");
        let m: u64 = if n == i64::MIN {
            0x8000_0000_0000_0000u64
        } else {
            (-n) as u64
        };
        push_number(out, m);
        proof {
            assert(out@ =~= old(out)@ + signed_decimal(n as int));
        }
    } else {
        push_number(out, n as u64);
    }
}

/// Appends a byte as two lower-case hexadecimal digits.
pub fn push_hex_byte(out: &mut String, b: u8)
    ensures
        final(out)@ == old(out)@ + hex_byte(b),
{
    out.append(digit_text(b / 16));
    out.append(digit_text(b % 16));
    proof {
        assert(out@ =~= old(out)@ + hex_byte(b));
    }
}

/// Appends a byte as two upper-case hexadecimal digits.
pub fn push_hex_byte_upper(out: &mut String, b: u8)
    ensures
        final(out)@ == old(out)@ + hex_byte_upper(b),
{
    out.append(digit_text_upper(b / 16));
    out.append(digit_text_upper(b % 16));
    proof {
        assert(out@ =~= old(out)@ + hex_byte_upper(b));
    }
}

/// Appends `n` asterisks.
pub fn push_stars(out: &mut String, n: usize)
    ensures
        final(out)@ == old(out)@ + repeated('*', n as nat),
{
    proof {
        reveal_strlit("*");
        assert("*"@ =~= seq!['*']);
        assert(old(out)@ + repeated('*', 0) =~= old(out)@);
    }
    for i in 0..n
        invariant
            "*"@ == seq!['*'],
            out@ == old(out)@ + repeated('*', i as nat),
    {
        out.append("*");
        proof {
            assert(repeated('*', (i + 1) as nat) =~= repeated('*', i as nat) + seq!['*']);
            assert(out@ =~= old(out)@ + repeated('*', (i + 1) as nat));
        }
    }
}

// ---------------------------------------------------------------------------
// What reading gives back of what was written
// ---------------------------------------------------------------------------

/// Decimal text is one or more digits.
pub proof fn lemma_decimal_digits(n: nat)
    ensures
        decimal(n).len() >= 1,
        all_digits(decimal(n)),
        digits_value(decimal(n)) == n,
    decreases n,
{
    if n < 10 {
        reveal_with_fuel(digits_value, 2);
        assert(decimal(n).drop_last() =~= Seq::<char>::empty());
    } else {
        lemma_decimal_digits(n / 10);
        assert(decimal(n).drop_last() =~= decimal(n / 10));
        assert forall|i: int| 0 <= i < decimal(n).len() implies is_digit(
            #[trigger] decimal(n)[i],
        ) by {
            if i < decimal(n).len() - 1 {
                assert(decimal(n)[i] == decimal(n / 10)[i]);
            }
        }
    }
}

/// A number reads back from its decimal text.
pub proof fn lemma_number_of_decimal(n: nat)
    ensures
        number(decimal(n)) == Some(n),
{
    lemma_decimal_digits(n);
    assert(is_digit(decimal(n)[0]));
}

/// A signed number reads back from its decimal text.
pub proof fn lemma_signed_number_of_decimal(n: int)
    ensures
        signed_number(signed_decimal(n)) == Some(n),
{
    if n < 0 {
        lemma_decimal_digits((-n) as nat);
        assert(signed_decimal(n).skip(1) =~= decimal((-n) as nat));
    } else {
        lemma_number_of_decimal(n as nat);
        lemma_decimal_digits(n as nat);
        assert(is_digit(decimal(n as nat)[0]));
    }
}

/// Text without white space is its own trimmed text.
pub proof fn lemma_trimmed_plain(s: Seq<char>)
    requires
        no_space(s),
    ensures
        trimmed(s) == s,
{
    if s.len() > 0 {
        assert(!is_space(s[0]));
        assert(!is_space(s.last()));
    }
}

/// What decimal text is made of.
pub proof fn lemma_decimal_chars(n: nat)
    ensures
        no_space(decimal(n)),
        lacks(decimal(n), ','),
        lacks(decimal(n), ':'),
{
    lemma_decimal_digits(n);
    assert forall|i: int| 0 <= i < decimal(n).len() implies !is_space(#[trigger] decimal(n)[i])
        && decimal(n)[i] != ',' && decimal(n)[i] != ':' by {
        assert(is_digit(decimal(n)[i]));
    }
}

/// What signed decimal text is made of.
pub proof fn lemma_signed_decimal_chars(n: int)
    ensures
        no_space(signed_decimal(n)),
        lacks(signed_decimal(n), ','),
        lacks(signed_decimal(n), ':'),
{
    if n < 0 {
        lemma_decimal_chars((-n) as nat);
        lemma_concat_chars(seq!['-'], decimal((-n) as nat), ',');
        lemma_concat_chars(seq!['-'], decimal((-n) as nat), ':');
    } else {
        lemma_decimal_chars(n as nat);
    }
}

/// Two texts joined are made of what the two are made of.
pub proof fn lemma_concat_chars(a: Seq<char>, b: Seq<char>, c: char)
    ensures
        no_space(a) && no_space(b) ==> no_space(a + b),
        lacks(a, c) && lacks(b, c) ==> lacks(a + b, c),
{
    if no_space(a) && no_space(b) {
        assert forall|i: int| 0 <= i < (a + b).len() implies !is_space(#[trigger] (a + b)[i]) by {
            if i < a.len() {
                assert(!is_space(a[i]));
            } else {
                assert(!is_space(b[i - a.len()]));
            }
        }
    }
}

/// Joining a piece in front of a text adds one piece in front of its pieces.
pub proof fn lemma_pieces_join(a: Seq<char>, sep: char, b: Seq<char>)
    requires
        lacks(a, sep),
    ensures
        pieces(a + seq![sep] + b, sep) == seq![a] + pieces(b, sep),
{
    let s = a + seq![sep] + b;
    lemma_first_at(s, sep, a.len() as int);
    assert(s.take(a.len() as int) =~= a);
    assert(s.skip(a.len() as int + 1) =~= b);
}

/// A text without separators is one piece.
pub proof fn lemma_pieces_one(a: Seq<char>, sep: char)
    requires
        lacks(a, sep),
    ensures
        pieces(a, sep) == seq![a],
{
    lemma_first_at(a, sep, a.len() as int);
}

/// Joining a piece behind a text adds one piece behind its pieces.
pub proof fn lemma_pieces_snoc(s: Seq<char>, sep: char, b: Seq<char>)
    requires
        lacks(b, sep),
    ensures
        pieces(s + seq![sep] + b, sep) == pieces(s, sep).push(b),
    decreases s.len(),
{
    let k = first_at(s, sep);
    lemma_first_at_range(s, sep);
    let head = s.take(k);
    if k < s.len() {
        let tail = s.skip(k + 1);
        assert(s =~= head + seq![sep] + tail);
        assert(s + seq![sep] + b =~= head + seq![sep] + (tail + seq![sep] + b));
        lemma_pieces_join(head, sep, tail + seq![sep] + b);
        lemma_pieces_snoc(tail, sep, b);
        assert(seq![head] + pieces(tail, sep).push(b) =~= pieces(s, sep).push(b));
    } else {
        assert(head =~= s);
        lemma_pieces_join(s, sep, b);
        lemma_pieces_one(b, sep);
        assert(seq![s] + seq![b] =~= pieces(s, sep).push(b));
    }
}

/// How long the decimal text of a small number is.
pub proof fn lemma_decimal_len(n: nat)
    ensures
        n < 10 ==> decimal(n).len() == 1,
        n < 100 ==> decimal(n).len() <= 2,
        n < 1000 ==> decimal(n).len() <= 3,
        n < 10000 ==> decimal(n).len() <= 4,
        n < 100000 ==> decimal(n).len() <= 5,
{
    reveal_with_fuel(decimal, 6);
}

/// Decimal text is ASCII.
pub proof fn lemma_decimal_ascii(n: nat)
    ensures
        is_ascii_chars(decimal(n)),
{
    lemma_decimal_digits(n);
    assert forall|i: int| 0 <= i < decimal(n).len() implies '\0' <= #[trigger] decimal(n)[i]
        <= '\u{7f}' by {
        assert(is_digit(decimal(n)[i]));
    }
}

/// Signed decimal text is ASCII.
pub proof fn lemma_signed_decimal_ascii(n: int)
    ensures
        is_ascii_chars(signed_decimal(n)),
{
    if n < 0 {
        lemma_decimal_ascii((-n) as nat);
        lemma_ascii_concat(seq!['-'], decimal((-n) as nat));
    } else {
        lemma_decimal_ascii(n as nat);
    }
}

/// Two ASCII texts joined are ASCII.
pub proof fn lemma_ascii_concat(a: Seq<char>, b: Seq<char>)
    requires
        is_ascii_chars(a),
        is_ascii_chars(b),
    ensures
        is_ascii_chars(a + b),
{
    assert forall|i: int| 0 <= i < (a + b).len() implies '\0' <= #[trigger] (a + b)[i]
        <= '\u{7f}' by {
        if i < a.len() {
            assert((a + b)[i] == a[i]);
        } else {
            assert((a + b)[i] == b[i - a.len()]);
        }
    }
}

/// White space between separators gives empty fields.
pub proof fn lemma_blank_pieces(s: Seq<char>, sep: char)
    requires
        forall|i: int| 0 <= i < s.len() ==> is_space(#[trigger] s[i]) || s[i] == sep,
    ensures
        forall|j: int| 0 <= j < fields(s, sep).len() ==> (#[trigger] fields(s, sep)[j]).len() == 0,
    decreases s.len(),
{
    let k = first_at(s, sep);
    lemma_first_at_range(s, sep);
    let p = s.take(k);
    let rest = s.skip(k + 1);
    assert forall|i: int| 0 <= i < p.len() implies is_space(#[trigger] p[i]) by {
        assert(p[i] == s[i]);
    }
    lemma_trimmed_blank(p);
    if k < s.len() {
        assert forall|i: int| 0 <= i < rest.len() implies is_space(#[trigger] rest[i]) || rest[i]
            == sep by {
            assert(rest[i] == s[k + 1 + i]);
        }
        lemma_blank_pieces(rest, sep);
    } else {
        assert(p =~= s);
    }
    assert forall|j: int| 0 <= j < fields(s, sep).len() implies (#[trigger] fields(s, sep)[j]).len()
        == 0 by {
        if k < s.len() && j > 0 {
            assert(fields(s, sep)[j] == fields(rest, sep)[j - 1]);
        }
    }
}

/// White space alone is trimmed away.
proof fn lemma_trimmed_blank(s: Seq<char>)
    requires
        forall|i: int| 0 <= i < s.len() ==> is_space(#[trigger] s[i]),
    ensures
        trimmed(s).len() == 0,
    decreases s.len(),
{
    if s.len() > 0 {
        let t = s.skip(1);
        assert(is_space(s[0]));
        assert forall|i: int| 0 <= i < t.len() implies is_space(#[trigger] t[i]) by {
            assert(t[i] == s[i + 1]);
        }
        lemma_trimmed_blank(t);
    }
}

/// There is always a piece, and no piece holds the separator.
pub proof fn lemma_pieces_lack(s: Seq<char>, sep: char)
    ensures
        pieces(s, sep).len() >= 1,
        forall|i: int| 0 <= i < pieces(s, sep).len() ==> lacks(#[trigger] pieces(s, sep)[i], sep),
    decreases s.len(),
{
    let k = first_at(s, sep);
    lemma_first_at_range(s, sep);
    if k < s.len() {
        lemma_pieces_lack(s.skip(k + 1), sep);
    } else {
        assert(s.take(k) =~= s);
    }
}

/// The white space of Unicode, code point by code point.
pub proof fn lemma_space_points(c: char)
    ensures
        is_space(c) <==> seq![
            9u32,
            10,
            11,
            12,
            13,
            32,
            133,
            160,
            5760,
            8192,
            8193,
            8194,
            8195,
            8196,
            8197,
            8198,
            8199,
            8200,
            8201,
            8202,
            8232,
            8233,
            8239,
            8287,
            12288,
        ].contains(c as u32),
{
    let u = c as u32;
    let points = seq![
        9u32,
        10,
        11,
        12,
        13,
        32,
        133,
        160,
        5760,
        8192,
        8193,
        8194,
        8195,
        8196,
        8197,
        8198,
        8199,
        8200,
        8201,
        8202,
        8232,
        8233,
        8239,
        8287,
        12288,
    ];
    if is_space(c) {
        let i: int = if u <= 13 {
            u - 9
        } else if u == 32 {
            5
        } else if u == 133 {
            6
        } else if u == 160 {
            7
        } else if u == 5760 {
            8
        } else if u <= 8202 {
            u - 8192 + 9
        } else if u == 8232 {
            20
        } else if u == 8233 {
            21
        } else if u == 8239 {
            22
        } else if u == 8287 {
            23
        } else {
            24
        };
        assert(points[i] == u);
    }
}

/// Trimming takes white space from both ends, all of it and nothing else.
pub proof fn lemma_trimmed_middle(s: Seq<char>)
    ensures
        exists|i: int, j: int|
            #![trigger s.subrange(i, j)]
            0 <= i <= j <= s.len() && trimmed(s) == s.subrange(i, j) && (forall|k: int|
                0 <= k < i || j <= k < s.len() ==> is_space(#[trigger] s[k])),
        trimmed(s).len() > 0 ==> !is_space(trimmed(s)[0]) && !is_space(trimmed(s).last()),
{
    let i = lemma_start_cut(s);
    let t = trimmed_start(s);
    let j = lemma_end_cut(t);
    assert(trimmed(s) =~= s.subrange(i, i + j));
    assert forall|k: int| 0 <= k < i || i + j <= k < s.len() implies is_space(#[trigger] s[k]) by {
        if k >= i + j {
            assert(t[k - i] == s[k]);
        }
    }
}

/// Where the text without leading white space starts.
proof fn lemma_start_cut(s: Seq<char>) -> (i: int)
    ensures
        0 <= i <= s.len(),
        trimmed_start(s) == s.skip(i),
        forall|k: int| 0 <= k < i ==> is_space(#[trigger] s[k]),
        i < s.len() ==> !is_space(s[i]),
    decreases s.len(),
{
    if s.len() > 0 && is_space(s[0]) {
        let t = s.skip(1);
        let i = lemma_start_cut(t);
        assert(t.skip(i) =~= s.skip(i + 1));
        assert forall|k: int| 0 <= k < i + 1 implies is_space(#[trigger] s[k]) by {
            if k > 0 {
                assert(t[k - 1] == s[k]);
            }
        }
        i + 1
    } else {
        assert(s.skip(0) =~= s);
        0
    }
}

/// Where the text without trailing white space ends.
proof fn lemma_end_cut(s: Seq<char>) -> (j: int)
    ensures
        0 <= j <= s.len(),
        trimmed_end(s) == s.take(j),
        forall|k: int| j <= k < s.len() ==> is_space(#[trigger] s[k]),
        j > 0 ==> !is_space(s[j - 1]),
    decreases s.len(),
{
    if s.len() > 0 && is_space(s.last()) {
        let t = s.drop_last();
        let j = lemma_end_cut(t);
        assert(t.take(j) =~= s.take(j));
        assert forall|k: int| j <= k < s.len() implies is_space(#[trigger] s[k]) by {
            if k < t.len() {
                assert(t[k] == s[k]);
            }
        }
        if j > 0 {
            assert(t[j - 1] == s[j - 1]);
        }
        j
    } else {
        assert(s.take(s.len() as int) =~= s);
        s.len() as int
    }
}

/// One character is a number where it is a digit.
pub proof fn lemma_number_digit(c: char)
    ensures
        number(seq![c]) == if '0' <= c <= '9' {
            Some((c as u32 - 48) as nat)
        } else {
            None
        },
        number(seq![]) is None,
{
    let s = seq![c];
    reveal_with_fuel(digits_value, 2);
    assert(s.drop_last() =~= seq![]);
    if s[0] == '+' {
        assert(s.skip(1).len() == 0);
    } else {
        assert(all_digits(s) <==> is_digit(s[0]));
    }
}

/// One more digit makes ten times as much and that digit; anything else makes
/// it no number.
pub proof fn lemma_number_append(s: Seq<char>, c: char)
    requires
        s.len() > 1 || (s.len() == 1 && s[0] != '+'),
    ensures
        number(s.push(c)) == match number(s) {
            Some(n) if '0' <= c <= '9' => Some((10 * n + (c as u32 - 48)) as nat),
            _ => None,
        },
{
    let t = s.push(c);
    let d = if s[0] == '+' {
        s.skip(1)
    } else {
        s
    };
    let e = d.push(c);
    assert(t[0] == s[0]);
    if s[0] == '+' {
        assert(t.skip(1) =~= e);
    }
    assert(e.drop_last() =~= d);
    if all_digits(d) && is_digit(c) {
        assert(all_digits(e));
    }
    if all_digits(e) {
        assert(is_digit(e[e.len() - 1]));
        assert forall|i: int| 0 <= i < d.len() implies is_digit(#[trigger] d[i]) by {
            assert(e[i] == d[i]);
        }
    }
}

/// A single `+` in front changes nothing.
pub proof fn lemma_number_plus(s: Seq<char>)
    ensures
        number(seq!['+'] + s) == if s.len() > 0 && s[0] == '+' {
            None
        } else {
            number(s)
        },
{
    let t = seq!['+'] + s;
    assert(t.skip(1) =~= s);
    if s.len() > 0 && s[0] == '+' {
        assert(!is_digit(s[0]));
    }
}

/// A `-` in front of digits makes a number negative; without one a signed
/// number is a number.
pub proof fn lemma_signed_number(s: Seq<char>)
    ensures
        signed_number(seq!['-'] + s) == match number(s) {
            Some(n) if s[0] != '+' => Some(-(n as int)),
            _ => None,
        },
        s.len() == 0 || s[0] != '-' ==> signed_number(s) == match number(s) {
            Some(n) => Some(n as int),
            None => None,
        },
{
    let t = seq!['-'] + s;
    assert(t.skip(1) =~= s);
    if s.len() > 0 && s[0] == '+' {
        assert(!is_digit(s[0]));
    }
}

/// A number is written in plain digits, without zeros in front.
pub proof fn lemma_decimal_canonical(n: nat)
    ensures
        decimal(n).len() > 0,
        n > 0 ==> decimal(n)[0] != '0',
        n == 0 ==> decimal(n) == seq!['0'],
        forall|i: int| 0 <= i < decimal(n).len() ==> '0' <= #[trigger] decimal(n)[i] <= '9',
    decreases n,
{
    lemma_decimal_digits(n);
    assert forall|i: int| 0 <= i < decimal(n).len() implies '0' <= #[trigger] decimal(n)[i]
        <= '9' by {
        assert(is_digit(decimal(n)[i]));
    }
    if n >= 10 {
        lemma_decimal_canonical(n / 10);
    }
}

/// The hexadecimal digits, by their places in the character set.
pub proof fn lemma_hex_digit_values(c: char)
    ensures
        hex_digit(c) matches Some(v) ==> v < 16,
        hex_digit(c) is Some <==> (48 <= c as u32 <= 57 || 65 <= c as u32 <= 70 || 97 <= c as u32
            <= 102),
        48 <= c as u32 <= 57 ==> hex_digit(c) == Some((c as u32 - 48) as nat),
        65 <= c as u32 <= 70 ==> hex_digit(c) == Some((c as u32 - 55) as nat),
        97 <= c as u32 <= 102 ==> hex_digit(c) == Some((c as u32 - 87) as nat),
{
}

/// A byte is written as two digits that give it back, the higher one first, in
/// the case that is asked for.
pub proof fn lemma_hex_byte_reads(b: u8)
    ensures
        ({
            let h = hex_byte(b);
            let u = hex_byte_upper(b);
            &&& h.len() == 2 && u.len() == 2
            &&& hex_digit(h[0]) is Some && hex_digit(h[1]) is Some
            &&& hex_digit(u[0]) is Some && hex_digit(u[1]) is Some
            &&& 16 * hex_digit(h[0])->0 + hex_digit(h[1])->0 == b
            &&& 16 * hex_digit(u[0])->0 + hex_digit(u[1])->0 == b
            &&& !('A' <= h[0] <= 'F') && !('A' <= h[1] <= 'F')
            &&& !('a' <= u[0] <= 'f') && !('a' <= u[1] <= 'f')
        }),
{
}

/// The pieces of two texts with a separator between them are those of the
/// first, then those of the second.
pub proof fn lemma_pieces_concat(a: Seq<char>, sep: char, b: Seq<char>)
    ensures
        pieces(a + seq![sep] + b, sep) == pieces(a, sep) + pieces(b, sep),
    decreases a.len(),
{
    let k = first_at(a, sep);
    lemma_first_at_range(a, sep);
    if k < a.len() {
        let front = a.take(k);
        let rest = a.skip(k + 1);
        assert(a =~= front + seq![sep] + rest);
        assert(a + seq![sep] + b =~= front + seq![sep] + (rest + seq![sep] + b));
        lemma_pieces_concat(rest, sep, b);
        lemma_pieces_join(front, sep, rest + seq![sep] + b);
        lemma_pieces_join(front, sep, rest);
        assert(seq![front] + (pieces(rest, sep) + pieces(b, sep)) =~= (seq![front] + pieces(
            rest,
            sep,
        )) + pieces(b, sep));
    } else {
        assert(a.take(k) =~= a);
        lemma_pieces_join(a, sep, b);
        lemma_pieces_one(a, sep);
    }
}

} // verus!
