//! The configuration value and its line-oriented text format: rendering
//! to bytes and strict parsing back, with a round-trip guarantee.

use vstd::prelude::*;
use vstd::string::StringSliceAdditionalSpecFns;

use crate::game::Shape;

verus! {

/// Whether a byte is an ASCII decimal digit.
pub open spec fn is_digit(b: u8) -> bool {
    48 <= b <= 57
}

/// Whether a byte is printable non-space ASCII; the speed field is a
/// token of such bytes.
pub open spec fn is_token_byte(b: u8) -> bool {
    33 <= b <= 126
}

/// The value of a sequence of decimal digit bytes, most significant
/// first.
pub open spec fn spec_digits_val(s: Seq<u8>) -> nat
    decreases s.len(),
{
    if s.len() == 0 {
        0
    } else {
        spec_digits_val(s.drop_last()) * 10 + (s.last() - 48) as nat
    }
}

/// The first position at or after i that does not hold a digit.
pub open spec fn digit_run_end(s: Seq<u8>, i: int) -> int
    decreases s.len() - i,
{
    if i < 0 || i >= s.len() {
        i
    } else if is_digit(s[i]) {
        digit_run_end(s, i + 1)
    } else {
        i
    }
}

/// The first position at or after i that does not hold a token byte.
pub open spec fn token_run_end(s: Seq<u8>, i: int) -> int
    decreases s.len() - i,
{
    if i < 0 || i >= s.len() {
        i
    } else if is_token_byte(s[i]) {
        token_run_end(s, i + 1)
    } else {
        i
    }
}

/// The n-th power of ten.
pub open spec fn pow10(n: nat) -> nat
    decreases n,
{
    if n == 0 {
        1
    } else {
        10 * pow10((n - 1) as nat)
    }
}

/// The decimal rendering of a natural number, most significant digit
/// first, no sign and no leading zeros (a lone zero for 0).
pub open spec fn spec_fmt_nat(n: nat) -> Seq<u8>
    decreases n,
{
    if n < 10 {
        seq![(48 + n) as u8]
    } else {
        spec_fmt_nat(n / 10).push((48 + n % 10) as u8)
    }
}

/// The decimal rendering of a signed number: a minus sign for negative
/// values, then the magnitude's digits.
pub open spec fn spec_fmt_i32(n: int) -> Seq<u8> {
    if n < 0 {
        seq![45u8] + spec_fmt_nat((-n) as nat)
    } else {
        spec_fmt_nat(n as nat)
    }
}

/// Every byte of a rendered natural number is a digit.
pub proof fn lemma_fmt_nat_digits(n: nat)
    ensures
        spec_fmt_nat(n).len() >= 1,
        forall|i: int| 0 <= i < spec_fmt_nat(n).len() ==> is_digit(#[trigger] spec_fmt_nat(n)[i]),
    decreases n,
{
    if n >= 10 {
        lemma_fmt_nat_digits(n / 10);
    }
}

/// Reading back the rendering of a natural number yields the number.
pub proof fn lemma_digits_val_of_fmt(n: nat)
    ensures
        spec_digits_val(spec_fmt_nat(n)) == n,
    decreases n,
{
    reveal_with_fuel(spec_digits_val, 3);
    if n < 10 {
        assert(spec_fmt_nat(n) =~= seq![(48 + n) as u8]);
        assert(spec_fmt_nat(n).drop_last() =~= Seq::<u8>::empty());
        assert(spec_fmt_nat(n).last() == (48 + n) as u8);
    } else {
        lemma_digits_val_of_fmt(n / 10);
        assert(spec_fmt_nat(n).drop_last() =~= spec_fmt_nat(n / 10));
        assert(spec_fmt_nat(n).last() == (48 + n % 10) as u8);
        assert(n == (n / 10) * 10 + n % 10);
    }
}

/// A rendered number below pow10(k) takes at most k digits.
pub proof fn lemma_fmt_nat_len(n: nat, k: nat)
    requires
        k >= 1,
        n < pow10(k),
    ensures
        spec_fmt_nat(n).len() <= k,
    decreases n,
{
    if n >= 10 {
        assert(pow10(k) == 10 * pow10((k - 1) as nat));
        lemma_fmt_nat_len(n / 10, (k - 1) as nat);
    }
}

/// A digit run stops exactly at the first non-digit: if everything from i
/// up to e is a digit and e is past the end or a non-digit, the run from i
/// ends at e.
pub proof fn lemma_digit_run_end(s: Seq<u8>, i: int, e: int)
    requires
        0 <= i <= e <= s.len(),
        forall|k: int| i <= k < e ==> is_digit(#[trigger] s[k]),
        e == s.len() || !is_digit(s[e]),
    ensures
        digit_run_end(s, i) == e,
    decreases e - i,
{
    if i < e {
        lemma_digit_run_end(s, i + 1, e);
    }
}

/// The same for token runs: the run from i ends exactly at e.
pub proof fn lemma_token_run_end(s: Seq<u8>, i: int, e: int)
    requires
        0 <= i <= e <= s.len(),
        forall|k: int| i <= k < e ==> is_token_byte(#[trigger] s[k]),
        e == s.len() || !is_token_byte(s[e]),
    ensures
        token_run_end(s, i) == e,
    decreases e - i,
{
    if i < e {
        lemma_token_run_end(s, i + 1, e);
    }
}

/// Consuming digits from within a run does not change where it ends.
pub proof fn lemma_digit_run_skip(s: Seq<u8>, i: int, j: int)
    requires
        0 <= i <= j <= s.len(),
        forall|k: int| i <= k < j ==> is_digit(#[trigger] s[k]),
    ensures
        digit_run_end(s, i) == digit_run_end(s, j),
    decreases j - i,
{
    if i < j {
        lemma_digit_run_skip(s, i + 1, j);
    }
}

/// A digit run never ends before its start.
pub proof fn lemma_digit_run_ge(s: Seq<u8>, i: int)
    requires
        0 <= i <= s.len(),
    ensures
        digit_run_end(s, i) >= i,
        digit_run_end(s, i) <= s.len(),
    decreases s.len() - i,
{
    if i < s.len() && is_digit(s[i]) {
        lemma_digit_run_ge(s, i + 1);
    }
}

/// Whether the pattern appears in s at position i; yields the position
/// just past it.
pub open spec fn spec_expect(s: Seq<u8>, i: int, pat: Seq<u8>) -> Option<int> {
    if 0 <= i && i + pat.len() <= s.len() && s.subrange(i, i + pat.len()) == pat {
        Some(i + pat.len())
    } else {
        None
    }
}

/// What parsing an unsigned decimal number at position i yields: the
/// value of the digit run starting there and the position just past it.
/// Runs of more than ten digits are refused as unparseable numbers.
pub open spec fn spec_parse_nat(s: Seq<u8>, i: int) -> Option<(nat, int)> {
    let e = digit_run_end(s, i);
    if e > i && e - i <= 10 {
        Some((spec_digits_val(s.subrange(i, e)), e))
    } else {
        None
    }
}

/// What parsing a signed 32-bit decimal number at position i yields.
pub open spec fn spec_parse_i32(s: Seq<u8>, i: int) -> Option<(i32, int)> {
    if 0 <= i < s.len() && s[i] == 45 {
        match spec_parse_nat(s, i + 1) {
            Some((v, e)) => if v <= 0x8000_0000 {
                Some(((-(v as int)) as i32, e))
            } else {
                None
            },
            None => None,
        }
    } else {
        match spec_parse_nat(s, i) {
            Some((v, e)) => if v <= 0x7fff_ffff {
                Some((v as i32, e))
            } else {
                None
            },
            None => None,
        }
    }
}

/// What parsing a byte-sized decimal number at position i yields.
pub open spec fn spec_parse_u8(s: Seq<u8>, i: int) -> Option<(u8, int)> {
    match spec_parse_nat(s, i) {
        Some((v, e)) => if v <= 255 {
            Some((v as u8, e))
        } else {
            None
        },
        None => None,
    }
}

/// Checks whether the pattern appears in the bytes at position i.
fn expect(bytes: &[u8], i: usize, pat: &[u8]) -> (r: Option<usize>)
    requires
        i <= bytes@.len(),
    ensures
        match r {
            Some(e) => spec_expect(bytes@, i as int, pat@) == Some(e as int),
            None => spec_expect(bytes@, i as int, pat@) is None,
        },
{
    let n = pat.len();
    if n > bytes.len() - i {
        return None;
    }
    let blen = bytes.len();
    let mut j: usize = 0;
    while j < n
        invariant
            j <= n,
            n == pat@.len(),
            blen == bytes@.len(),
            i + n <= blen,
            forall|k: int| 0 <= k < j ==> bytes@[i + k] == pat@[k],
        decreases n - j,
    {
        if bytes[i + j] != pat[j] {
            proof {
                assert(bytes@.subrange(i as int, i + pat@.len())[j as int] != pat@[j as int]);
            }
            return None;
        }
        j += 1;
    }
    proof {
        assert(bytes@.subrange(i as int, i + pat@.len()) =~= pat@);
    }
    Some(i + n)
}

/// Parses an unsigned decimal number at position i: the digit run there,
/// refused when absent or longer than ten digits.
fn parse_nat(bytes: &[u8], i: usize) -> (r: Option<(u64, usize)>)
    requires
        i <= bytes@.len(),
    ensures
        match r {
            Some((v, e)) => spec_parse_nat(bytes@, i as int) == Some((v as nat, e as int)) && i < e
                <= bytes@.len(),
            None => spec_parse_nat(bytes@, i as int) is None,
        },
{
    let n = bytes.len();
    let mut j: usize = i;
    let mut val: u64 = 0;
    proof {
        reveal_with_fuel(pow10, 12);
        assert(bytes@.subrange(i as int, i as int) =~= Seq::<u8>::empty());
    }
    while j < n && 48 <= bytes[j] && bytes[j] <= 57 && j - i < 10
        invariant
            i <= j <= n,
            n == bytes@.len(),
            j - i <= 10,
            forall|k: int| i <= k < j ==> is_digit(#[trigger] bytes@[k]),
            val == spec_digits_val(bytes@.subrange(i as int, j as int)),
            val < pow10((j - i) as nat),
            pow10(10) == 10_000_000_000,
            pow10(11) == 100_000_000_000,
        decreases n - j,
    {
        proof {
            reveal_with_fuel(pow10, 12);
            assert(bytes@.subrange(i as int, j + 1).drop_last() =~= bytes@.subrange(
                i as int,
                j as int,
            ));
        }
        val = val * 10 + ((bytes[j] - 48) as u64);
        j += 1;
    }
    proof {
        lemma_digit_run_ge(bytes@, i as int);
    }
    if j == i {
        proof {
            assert(digit_run_end(bytes@, i as int) == i);
        }
        return None;
    }
    if j < n && 48 <= bytes[j] && bytes[j] <= 57 {
        // an eleventh digit follows: the number is unparseably long
        proof {
            lemma_digit_run_skip(bytes@, i as int, j as int);
            lemma_digit_run_ge(bytes@, j + 1);
            assert(digit_run_end(bytes@, j as int) == digit_run_end(bytes@, j + 1));
        }
        return None;
    }
    proof {
        lemma_digit_run_end(bytes@, i as int, j as int);
    }
    Some((val, j))
}

/// Parses a signed 32-bit decimal number at position i.
fn parse_i32_at(bytes: &[u8], i: usize) -> (r: Option<(i32, usize)>)
    requires
        i <= bytes@.len(),
    ensures
        match r {
            Some((v, e)) => spec_parse_i32(bytes@, i as int) == Some((v, e as int)) && i < e
                <= bytes@.len(),
            None => spec_parse_i32(bytes@, i as int) is None,
        },
{
    if i < bytes.len() && bytes[i] == 45 {
        match parse_nat(bytes, i + 1) {
            Some((v, e)) => {
                if v <= 0x8000_0000 {
                    let m = -(v as i64);
                    Some((m as i32, e))
                } else {
                    None
                }
            },
            None => None,
        }
    } else {
        match parse_nat(bytes, i) {
            Some((v, e)) => {
                if v <= 0x7fff_ffff {
                    Some((v as i32, e))
                } else {
                    None
                }
            },
            None => None,
        }
    }
}

/// Parses a byte-sized decimal number at position i.
fn parse_u8_at(bytes: &[u8], i: usize) -> (r: Option<(u8, usize)>)
    requires
        i <= bytes@.len(),
    ensures
        match r {
            Some((v, e)) => spec_parse_u8(bytes@, i as int) == Some((v, e as int)) && i < e
                <= bytes@.len(),
            None => spec_parse_u8(bytes@, i as int) is None,
        },
{
    match parse_nat(bytes, i) {
        Some((v, e)) => {
            if v <= 255 {
                Some((v as u8, e))
            } else {
                None
            }
        },
        None => None,
    }
}

/// Renders a natural number as decimal digits.
fn fmt_u64(n: u64) -> (v: Vec<u8>)
    ensures
        v@ == spec_fmt_nat(n as nat),
    decreases n,
{
    if n < 10 {
        let mut v: Vec<u8> = Vec::new();
        v.push(48 + (n as u8));
        proof {
            assert(v@ =~= spec_fmt_nat(n as nat));
        }
        v
    } else {
        let mut v = fmt_u64(n / 10);
        v.push(48 + ((n % 10) as u8));
        proof {
            assert(v@ =~= spec_fmt_nat(n as nat));
        }
        v
    }
}

/// Renders a signed 32-bit number as decimal digits with an optional
/// minus sign.
fn fmt_i32(n: i32) -> (v: Vec<u8>)
    ensures
        v@ == spec_fmt_i32(n as int),
{
    if n < 0 {
        let mag = -(n as i64);
        let mut v: Vec<u8> = Vec::new();
        v.push(45);
        let mut digits = fmt_u64(mag as u64);
        v.append(&mut digits);
        proof {
            assert(v@ =~= spec_fmt_i32(n as int));
        }
        v
    } else {
        fmt_u64(n as u64)
    }
}

/// The mathematical value of a configuration: seven shape/color pairs,
/// five key bytes, the speed as its decimal text, and the field size.
pub ghost struct ConfigModel {
    pub colors: Seq<((u8, u8, u8), Shape)>,
    pub keys: Seq<u8>,
    pub speed: Seq<u8>,
    pub size: (i32, i32),
}

impl ConfigModel {
    /// A valid configuration: one color per shape, five key codes, and a
    /// speed written as a non-empty token of printable non-space bytes.
    pub open spec fn wf(self) -> bool {
        &&& self.colors.len() == 7
        &&& self.keys.len() == 5
        &&& self.speed.len() > 0
        &&& (forall|i: int| 0 <= i < self.speed.len() ==> is_token_byte(#[trigger] self.speed[i]))
    }
}

/// Configuration of the game: colors for the tetromino shapes, key
/// bindings, game speed (carried as its decimal text; the driver gives it
/// a numeric reading), and field size as (height, width).
#[derive(Debug, PartialEq, Eq)]
pub struct Config {
    pub colors: Vec<((u8, u8, u8), Shape)>,
    pub keys: Vec<u8>,
    pub speed: Vec<u8>,
    pub size: (i32, i32),
}

impl View for Config {
    type V = ConfigModel;

    open spec fn view(&self) -> ConfigModel {
        ConfigModel { colors: self.colors@, keys: self.keys@, speed: self.speed@, size: self.size }
    }
}

impl Config {
    /// A valid configuration value.
    pub open spec fn wf(self) -> bool {
        self@.wf()
    }
}

/// The header line that opens the color section.
pub open spec fn spec_color_header() -> Seq<u8> {
    seq![
        35u8, 35u8, 35u8, 32u8, 99u8, 111u8, 108u8, 111u8, 114u8, 32u8, 99u8, 111u8, 110u8, 102u8,
        105u8, 103u8, 117u8, 114u8, 97u8, 116u8, 105u8, 111u8, 110u8, 32u8, 35u8, 35u8, 35u8, 10u8,
    ]
}

/// The header line that opens the key binding section.
pub open spec fn spec_key_header() -> Seq<u8> {
    seq![
        35u8, 35u8, 35u8, 32u8, 107u8, 101u8, 121u8, 32u8, 98u8, 105u8, 110u8, 100u8, 105u8, 110u8,
        103u8, 32u8, 99u8, 111u8, 110u8, 102u8, 105u8, 103u8, 117u8, 114u8, 97u8, 116u8, 105u8,
        111u8, 110u8, 32u8, 35u8, 35u8, 35u8, 10u8,
    ]
}

/// The header line that opens the speed section.
pub open spec fn spec_speed_header() -> Seq<u8> {
    seq![
        35u8, 35u8, 35u8, 32u8, 115u8, 112u8, 101u8, 101u8, 100u8, 32u8, 99u8, 111u8, 110u8, 102u8,
        105u8, 103u8, 117u8, 114u8, 97u8, 116u8, 105u8, 111u8, 110u8, 32u8, 35u8, 35u8, 35u8, 10u8,
    ]
}

/// The header line that opens the field size section.
pub open spec fn spec_size_header() -> Seq<u8> {
    seq![
        35u8, 35u8, 35u8, 32u8, 102u8, 105u8, 101u8, 108u8, 100u8, 32u8, 115u8, 105u8, 122u8,
        101u8, 32u8, 99u8, 111u8, 110u8, 102u8, 105u8, 103u8, 117u8, 114u8, 97u8, 116u8, 105u8,
        111u8, 110u8, 32u8, 40u8, 104u8, 101u8, 105u8, 103u8, 104u8, 116u8, 44u8, 32u8, 119u8,
        105u8, 100u8, 116u8, 104u8, 41u8, 32u8, 35u8, 35u8, 35u8, 10u8,
    ]
}

/// One color line: the shape's letter, a colon, and the color triple in
/// parentheses.
pub open spec fn spec_color_line(entry: ((u8, u8, u8), Shape)) -> Seq<u8> {
    seq![entry.1.spec_letter(), 58u8, 32u8, 40u8] + (spec_fmt_nat(entry.0.0 as nat) + (seq![
        44u8, 32u8,
    ] + (spec_fmt_nat(entry.0.1 as nat) + (seq![44u8, 32u8] + (spec_fmt_nat(entry.0.2 as nat)
        + seq![41u8, 10u8])))))
}

/// The color lines of all entries, in order.
pub open spec fn spec_color_lines(colors: Seq<((u8, u8, u8), Shape)>) -> Seq<u8>
    decreases colors.len(),
{
    if colors.len() == 0 {
        Seq::empty()
    } else {
        spec_color_line(colors[0]) + spec_color_lines(colors.drop_first())
    }
}

/// Rendering one more color entry appends its line.
pub proof fn lemma_color_lines_snoc(colors: Seq<((u8, u8, u8), Shape)>, k: int)
    requires
        0 <= k < colors.len(),
    ensures
        spec_color_lines(colors.take(k + 1)) == spec_color_lines(colors.take(k)) + spec_color_line(
            colors[k],
        ),
    decreases k,
{
    if k == 0 {
        assert(colors.take(1) =~= seq![colors[0]]);
        assert(colors.take(1).drop_first() =~= Seq::<((u8, u8, u8), Shape)>::empty());
        assert(colors.take(0) =~= Seq::<((u8, u8, u8), Shape)>::empty());
        assert(spec_color_lines(colors.take(1)) =~= spec_color_lines(colors.take(0))
            + spec_color_line(colors[0]));
    } else {
        lemma_color_lines_snoc(colors.drop_first(), k - 1);
        assert(colors.take(k + 1).drop_first() =~= colors.drop_first().take(k));
        assert(colors.take(k).drop_first() =~= colors.drop_first().take(k - 1));
        assert(colors.take(k + 1)[0] == colors[0]);
        assert(colors.take(k)[0] == colors[0]);
        assert(colors.drop_first()[k - 1] == colors[k]);
        assert(spec_color_lines(colors.take(k + 1)) == spec_color_line(colors[0])
            + spec_color_lines(colors.drop_first().take(k)));
        assert(spec_color_lines(colors.take(k)) == spec_color_line(colors[0]) + spec_color_lines(
            colors.drop_first().take(k - 1),
        ));
        assert(spec_color_lines(colors.take(k + 1)) =~= spec_color_lines(colors.take(k))
            + spec_color_line(colors[k]));
    }
}

/// The key binding line: the five key codes, bracketed and comma
/// separated.
pub open spec fn spec_keys_line(keys: Seq<u8>) -> Seq<u8>
    recommends
        keys.len() == 5,
{
    seq![91u8] + (spec_fmt_nat(keys[0] as nat) + (seq![44u8, 32u8] + (spec_fmt_nat(keys[1] as nat)
        + (seq![44u8, 32u8] + (spec_fmt_nat(keys[2] as nat) + (seq![44u8, 32u8] + (spec_fmt_nat(
        keys[3] as nat,
    ) + (seq![44u8, 32u8] + (spec_fmt_nat(keys[4] as nat) + seq![93u8, 10u8])))))))))
}

/// The field size line: (height, width).
pub open spec fn spec_size_line(size: (i32, i32)) -> Seq<u8> {
    seq![40u8] + (spec_fmt_i32(size.0 as int) + (seq![44u8, 32u8] + (spec_fmt_i32(size.1 as int)
        + seq![41u8, 10u8])))
}

/// The entire rendered configuration file: the four sections in order,
/// each opened by its header, with a blank line between sections.
pub open spec fn spec_save_config(m: ConfigModel) -> Seq<u8> {
    spec_color_header() + (spec_color_lines(m.colors) + (seq![10u8] + (spec_key_header() + (
    spec_keys_line(m.keys) + (seq![10u8] + (spec_speed_header() + (m.speed + (seq![10u8] + (seq![
        10u8,
    ] + (spec_size_header() + spec_size_line(m.size)))))))))))
}

/// Renders the color section header.
fn color_header() -> (v: Vec<u8>)
    ensures
        v@ == spec_color_header(),
{
    let v: Vec<u8> = vec![
        35, 35, 35, 32, 99, 111, 108, 111, 114, 32, 99, 111, 110, 102, 105, 103, 117, 114, 97, 116,
        105, 111, 110, 32, 35, 35, 35, 10,
    ];
    proof {
        assert(v@ =~= spec_color_header());
    }
    v
}

/// Renders the key binding section header.
fn key_header() -> (v: Vec<u8>)
    ensures
        v@ == spec_key_header(),
{
    let v: Vec<u8> = vec![
        35, 35, 35, 32, 107, 101, 121, 32, 98, 105, 110, 100, 105, 110, 103, 32, 99, 111, 110, 102,
        105, 103, 117, 114, 97, 116, 105, 111, 110, 32, 35, 35, 35, 10,
    ];
    proof {
        assert(v@ =~= spec_key_header());
    }
    v
}

/// Renders the speed section header.
fn speed_header() -> (v: Vec<u8>)
    ensures
        v@ == spec_speed_header(),
{
    let v: Vec<u8> = vec![
        35, 35, 35, 32, 115, 112, 101, 101, 100, 32, 99, 111, 110, 102, 105, 103, 117, 114, 97,
        116, 105, 111, 110, 32, 35, 35, 35, 10,
    ];
    proof {
        assert(v@ =~= spec_speed_header());
    }
    v
}

/// Renders the field size section header.
fn size_header() -> (v: Vec<u8>)
    ensures
        v@ == spec_size_header(),
{
    let v: Vec<u8> = vec![
        35, 35, 35, 32, 102, 105, 101, 108, 100, 32, 115, 105, 122, 101, 32, 99, 111, 110, 102,
        105, 103, 117, 114, 97, 116, 105, 111, 110, 32, 40, 104, 101, 105, 103, 104, 116, 44, 32,
        119, 105, 100, 116, 104, 41, 32, 35, 35, 35, 10,
    ];
    proof {
        assert(v@ =~= spec_size_header());
    }
    v
}

/// Renders one color line.
fn render_color_line(entry: &((u8, u8, u8), Shape)) -> (v: Vec<u8>)
    ensures
        v@ == spec_color_line(*entry),
{
    let mut v: Vec<u8> = Vec::new();
    v.push(entry.1.letter());
    v.push(58);  // ':'
    v.push(32);  // ' '
    v.push(40);  // '('
    let mut a = fmt_u64(entry.0.0 as u64);
    v.append(&mut a);
    v.push(44);  // ','
    v.push(32);
    let mut b = fmt_u64(entry.0.1 as u64);
    v.append(&mut b);
    v.push(44);
    v.push(32);
    let mut c = fmt_u64(entry.0.2 as u64);
    v.append(&mut c);
    v.push(41);  // ')'
    v.push(10);  // newline
    proof {
        assert(v@ =~= spec_color_line(*entry));
    }
    v
}

/// Renders a configuration to the bytes of its file: four headed
/// sections, strictly ordered. Reading the result back reproduces the
/// configuration exactly.
#[verifier::rlimit(100)]
pub fn save_config_bytes(config: &Config) -> (out: Vec<u8>)
    requires
        config.wf(),
    ensures
        out@ == spec_save_config(config@),
{
    let mut out: Vec<u8> = Vec::new();

    // Colors
    let mut h = color_header();
    out.append(&mut h);
    let mut i: usize = 0;
    while i < config.colors.len()
        invariant
            i <= config.colors@.len(),
            out@ == spec_color_header() + spec_color_lines(config.colors@.take(i as int)),
        decreases config.colors@.len() - i,
    {
        let mut line = render_color_line(&config.colors[i]);
        out.append(&mut line);
        proof {
            lemma_color_lines_snoc(config.colors@, i as int);
            assert(out@ =~= spec_color_header() + spec_color_lines(
                config.colors@.take(i + 1),
            ));
        }
        i += 1;
    }
    out.push(10);

    // Key bindings
    let mut h2 = key_header();
    out.append(&mut h2);
    let mut k: Vec<u8> = Vec::new();
    k.push(91);  // '['
    let mut k0 = fmt_u64(config.keys[0] as u64);
    k.append(&mut k0);
    k.push(44);
    k.push(32);
    let mut k1 = fmt_u64(config.keys[1] as u64);
    k.append(&mut k1);
    k.push(44);
    k.push(32);
    let mut k2 = fmt_u64(config.keys[2] as u64);
    k.append(&mut k2);
    k.push(44);
    k.push(32);
    let mut k3 = fmt_u64(config.keys[3] as u64);
    k.append(&mut k3);
    k.push(44);
    k.push(32);
    let mut k4 = fmt_u64(config.keys[4] as u64);
    k.append(&mut k4);
    k.push(93);  // ']'
    k.push(10);
    proof {
        assert(k@ =~= spec_keys_line(config.keys@));
    }
    out.append(&mut k);
    out.push(10);

    // Speed
    let mut h3 = speed_header();
    out.append(&mut h3);
    let mut sp = config.speed.clone();
    proof {
        assert(sp@ =~= config.speed@);
    }
    out.append(&mut sp);
    out.push(10);
    out.push(10);

    // Field size
    let mut h4 = size_header();
    out.append(&mut h4);
    out.push(40);
    let mut s0 = fmt_i32(config.size.0);
    out.append(&mut s0);
    out.push(44);
    out.push(32);
    let mut s1 = fmt_i32(config.size.1);
    out.append(&mut s1);
    out.push(41);
    out.push(10);

    proof {
        assert(config.colors@.take(config.colors@.len() as int) =~= config.colors@);
        assert(out@ =~= spec_save_config(config@));
    }
    out
}

/// Why a configuration could not be produced.
#[derive(Debug, Clone, Copy, PartialEq, Eq, Structural)]
pub enum ConfigError {
    /// The text does not follow the configuration format.
    Parse,
}

/// What parsing one color line at position i yields: the shape named by
/// its letter and the color triple, with the position past the line.
pub open spec fn spec_parse_color_line(s: Seq<u8>, i: int) -> Option<(((u8, u8, u8), Shape), int)> {
    if 0 <= i < s.len() && Shape::spec_from_byte(s[i]) is Ok {
        let shape = Shape::spec_from_byte(s[i]).unwrap();
        match spec_expect(s, i + 1, seq![58u8, 32u8, 40u8]) {
            Some(i1) => match spec_parse_u8(s, i1) {
                Some((r, i2)) => match spec_expect(s, i2, seq![44u8, 32u8]) {
                    Some(i3) => match spec_parse_u8(s, i3) {
                        Some((g, i4)) => match spec_expect(s, i4, seq![44u8, 32u8]) {
                            Some(i5) => match spec_parse_u8(s, i5) {
                                Some((b, i6)) => match spec_expect(s, i6, seq![41u8, 10u8]) {
                                    Some(i7) => Some((((r, g, b), shape), i7)),
                                    None => None,
                                },
                                None => None,
                            },
                            None => None,
                        },
                        None => None,
                    },
                    None => None,
                },
                None => None,
            },
            None => None,
        }
    } else {
        None
    }
}

/// What parsing k color lines in a row yields.
pub open spec fn spec_parse_colors(s: Seq<u8>, i: int, k: nat) -> Option<
    (Seq<((u8, u8, u8), Shape)>, int),
>
    decreases k,
{
    if k == 0 {
        Some((Seq::empty(), i))
    } else {
        match spec_parse_color_line(s, i) {
            Some((entry, i1)) => match spec_parse_colors(s, i1, (k - 1) as nat) {
                Some((rest, i2)) => Some((seq![entry] + rest, i2)),
                None => None,
            },
            None => None,
        }
    }
}

/// What parsing the bracketed five-key line at position i yields.
pub open spec fn spec_parse_keys_line(s: Seq<u8>, i: int) -> Option<(Seq<u8>, int)> {
    match spec_expect(s, i, seq![91u8]) {
        Some(j0) => match spec_parse_u8(s, j0) {
            Some((k0, j1)) => match spec_expect(s, j1, seq![44u8, 32u8]) {
                Some(j2) => match spec_parse_u8(s, j2) {
                    Some((k1, j3)) => match spec_expect(s, j3, seq![44u8, 32u8]) {
                        Some(j4) => match spec_parse_u8(s, j4) {
                            Some((k2, j5)) => match spec_expect(s, j5, seq![44u8, 32u8]) {
                                Some(j6) => match spec_parse_u8(s, j6) {
                                    Some((k3, j7)) => match spec_expect(s, j7, seq![44u8, 32u8]) {
                                        Some(j8) => match spec_parse_u8(s, j8) {
                                            Some((k4, j9)) => match spec_expect(
                                                s,
                                                j9,
                                                seq![93u8, 10u8],
                                            ) {
                                                Some(j10) => Some(
                                                    (seq![k0, k1, k2, k3, k4], j10),
                                                ),
                                                None => None,
                                            },
                                            None => None,
                                        },
                                        None => None,
                                    },
                                    None => None,
                                },
                                None => None,
                            },
                            None => None,
                        },
                        None => None,
                    },
                    None => None,
                },
                None => None,
            },
            None => None,
        },
        None => None,
    }
}

/// What parsing the speed line at position i yields: a non-empty token of
/// printable non-space bytes, ended by a newline.
pub open spec fn spec_parse_speed(s: Seq<u8>, i: int) -> Option<(Seq<u8>, int)> {
    let e = token_run_end(s, i);
    if e > i && e < s.len() && s[e] == 10 {
        Some((s.subrange(i, e), e + 1))
    } else {
        None
    }
}

/// What parsing the parenthesized size line at position i yields.
pub open spec fn spec_parse_size_line(s: Seq<u8>, i: int) -> Option<((i32, i32), int)> {
    match spec_expect(s, i, seq![40u8]) {
        Some(j0) => match spec_parse_i32(s, j0) {
            Some((h, j1)) => match spec_expect(s, j1, seq![44u8, 32u8]) {
                Some(j2) => match spec_parse_i32(s, j2) {
                    Some((w, j3)) => match spec_expect(s, j3, seq![41u8, 10u8]) {
                        Some(j4) => Some(((h, w), j4)),
                        None => None,
                    },
                    None => None,
                },
                None => None,
            },
            None => None,
        },
        None => None,
    }
}

/// What parsing an entire configuration file yields: the four sections in
/// strict order, nothing before, between or after them, ending exactly at
/// the end of the input.
pub open spec fn spec_load_config(s: Seq<u8>) -> Option<ConfigModel> {
    match spec_expect(s, 0, spec_color_header()) {
        Some(i0) => match spec_parse_colors(s, i0, 7) {
            Some((colors, i1)) => match spec_expect(s, i1, seq![10u8]) {
                Some(i2) => match spec_expect(s, i2, spec_key_header()) {
                    Some(i3) => match spec_parse_keys_line(s, i3) {
                        Some((keys, i4)) => match spec_expect(s, i4, seq![10u8]) {
                            Some(i5) => match spec_expect(s, i5, spec_speed_header()) {
                                Some(i6) => match spec_parse_speed(s, i6) {
                                    Some((speed, i7)) => match spec_expect(s, i7, seq![10u8]) {
                                        Some(i8) => match spec_expect(s, i8, spec_size_header()) {
                                            Some(i9) => match spec_parse_size_line(s, i9) {
                                                Some((size, i10)) => if i10 == s.len() {
                                                    Some(
                                                        (ConfigModel { colors, keys, speed, size }),
                                                    )
                                                } else {
                                                    None
                                                },
                                                None => None,
                                            },
                                            None => None,
                                        },
                                        None => None,
                                    },
                                    None => None,
                                },
                                None => None,
                            },
                            None => None,
                        },
                        None => None,
                    },
                    None => None,
                },
                None => None,
            },
            None => None,
        },
        None => None,
    }
}

/// Parses one color line at position i.
fn parse_color_line(bytes: &[u8], i: usize) -> (r: Option<(((u8, u8, u8), Shape), usize)>)
    requires
        i <= bytes@.len(),
    ensures
        match r {
            Some((entry, e)) => spec_parse_color_line(bytes@, i as int) == Some((
                entry,
                e as int,
            )) && i < e <= bytes@.len(),
            None => spec_parse_color_line(bytes@, i as int) is None,
        },
{
    if i >= bytes.len() {
        return None;
    }
    let shape = match Shape::from_byte(bytes[i]) {
        Ok(sh) => sh,
        Err(_) => {
            proof {
                assert(bytes@.subrange(i as int, i + 1)[0] == bytes@[i as int]);
            }
            return None;
        },
    };
    let pat1: Vec<u8> = vec![58u8, 32u8, 40u8];
    proof {
        assert(pat1@ =~= seq![58u8, 32u8, 40u8]);
    }
    let i1 = match expect(bytes, i + 1, pat1.as_slice()) {
        Some(e) => e,
        None => {
            return None;
        },
    };
    let (red, i2) = match parse_u8_at(bytes, i1) {
        Some(v) => v,
        None => {
            return None;
        },
    };
    let sep: Vec<u8> = vec![44u8, 32u8];
    proof {
        assert(sep@ =~= seq![44u8, 32u8]);
    }
    let i3 = match expect(bytes, i2, sep.as_slice()) {
        Some(e) => e,
        None => {
            return None;
        },
    };
    let (green, i4) = match parse_u8_at(bytes, i3) {
        Some(v) => v,
        None => {
            return None;
        },
    };
    let i5 = match expect(bytes, i4, sep.as_slice()) {
        Some(e) => e,
        None => {
            return None;
        },
    };
    let (blue, i6) = match parse_u8_at(bytes, i5) {
        Some(v) => v,
        None => {
            return None;
        },
    };
    let tail: Vec<u8> = vec![41u8, 10u8];
    proof {
        assert(tail@ =~= seq![41u8, 10u8]);
    }
    let i7 = match expect(bytes, i6, tail.as_slice()) {
        Some(e) => e,
        None => {
            return None;
        },
    };
    Some((((red, green, blue), shape), i7))
}

/// Parses an entire configuration file, strictly: the four headed
/// sections in order, with nothing else around them. Any malformed line
/// is a parse error; no partial configuration is produced. The bytes that
/// `save_config_bytes` renders always load back to the same value.
#[verifier::rlimit(100)]
pub fn load_config_bytes(bytes: &[u8]) -> (r: Result<Config, ConfigError>)
    ensures
        match spec_load_config(bytes@) {
            Some(m) => r is Ok && r.unwrap()@ == m && r.unwrap().wf(),
            None => r == Err::<Config, ConfigError>(ConfigError::Parse),
        },
{
    let blen = bytes.len();
    let ch = color_header();
    let i0 = match expect(bytes, 0, ch.as_slice()) {
        Some(e) => e,
        None => {
            return Err(ConfigError::Parse);
        },
    };
    // the seven color lines
    let mut colors: Vec<((u8, u8, u8), Shape)> = Vec::new();
    let mut pos: usize = i0;
    let mut c: usize = 0;
    proof {
        assert(spec_parse_colors(bytes@, i0 as int, 0) == Some(
            (Seq::<((u8, u8, u8), Shape)>::empty(), i0 as int),
        ));
    }
    while c < 7
        invariant
            c <= 7,
            pos <= bytes@.len(),
            colors@.len() == c,
            spec_expect(bytes@, 0, spec_color_header()) == Some(i0 as int),
            spec_parse_colors(bytes@, i0 as int, 7) == (match spec_parse_colors(
                bytes@,
                pos as int,
                (7 - c) as nat,
            ) {
                Some((rest, e)) => Some((colors@ + rest, e)),
                None => None::<(Seq<((u8, u8, u8), Shape)>, int)>,
            }),
        decreases 7 - c,
    {
        let (entry, next) = match parse_color_line(bytes, pos) {
            Some(v) => v,
            None => {
                proof {
                    assert(spec_parse_color_line(bytes@, pos as int) is None);
                    assert(spec_parse_colors(bytes@, pos as int, (7 - c) as nat) is None);
                    assert(spec_parse_colors(bytes@, i0 as int, 7) is None);
                    assert(spec_expect(bytes@, 0, spec_color_header()) == Some(i0 as int));
                    assert(spec_load_config(bytes@) is None);
                }
                return Err(ConfigError::Parse);
            },
        };
        colors.push(entry);
        proof {
            assert forall|rest: Seq<((u8, u8, u8), Shape)>|
                true implies #[trigger] (colors@ + rest) == colors@.drop_last() + (seq![entry]
                + rest) by {
                assert(colors@ + rest =~= colors@.drop_last() + (seq![entry] + rest));
            }
        }
        pos = next;
        c += 1;
    }
    let blank: Vec<u8> = vec![10u8];
    proof {
        assert(blank@ =~= seq![10u8]);
        assert(spec_parse_colors(bytes@, pos as int, 0) == Some(
            (Seq::<((u8, u8, u8), Shape)>::empty(), pos as int),
        ));
        assert(colors@ + Seq::<((u8, u8, u8), Shape)>::empty() =~= colors@);
    }
    let i2 = match expect(bytes, pos, blank.as_slice()) {
        Some(e) => e,
        None => {
            return Err(ConfigError::Parse);
        },
    };
    let kh = key_header();
    let i3 = match expect(bytes, i2, kh.as_slice()) {
        Some(e) => e,
        None => {
            return Err(ConfigError::Parse);
        },
    };
    // the key binding line
    let open_bracket: Vec<u8> = vec![91u8];
    let sep: Vec<u8> = vec![44u8, 32u8];
    let close_bracket: Vec<u8> = vec![93u8, 10u8];
    proof {
        assert(open_bracket@ =~= seq![91u8]);
        assert(sep@ =~= seq![44u8, 32u8]);
        assert(close_bracket@ =~= seq![93u8, 10u8]);
    }
    let j0 = match expect(bytes, i3, open_bracket.as_slice()) {
        Some(e) => e,
        None => {
            return Err(ConfigError::Parse);
        },
    };
    let (k0, j1) = match parse_u8_at(bytes, j0) {
        Some(v) => v,
        None => {
            return Err(ConfigError::Parse);
        },
    };
    let j2 = match expect(bytes, j1, sep.as_slice()) {
        Some(e) => e,
        None => {
            return Err(ConfigError::Parse);
        },
    };
    let (k1, j3) = match parse_u8_at(bytes, j2) {
        Some(v) => v,
        None => {
            return Err(ConfigError::Parse);
        },
    };
    let j4 = match expect(bytes, j3, sep.as_slice()) {
        Some(e) => e,
        None => {
            return Err(ConfigError::Parse);
        },
    };
    let (k2, j5) = match parse_u8_at(bytes, j4) {
        Some(v) => v,
        None => {
            return Err(ConfigError::Parse);
        },
    };
    let j6 = match expect(bytes, j5, sep.as_slice()) {
        Some(e) => e,
        None => {
            return Err(ConfigError::Parse);
        },
    };
    let (k3, j7) = match parse_u8_at(bytes, j6) {
        Some(v) => v,
        None => {
            return Err(ConfigError::Parse);
        },
    };
    let j8 = match expect(bytes, j7, sep.as_slice()) {
        Some(e) => e,
        None => {
            return Err(ConfigError::Parse);
        },
    };
    let (k4, j9) = match parse_u8_at(bytes, j8) {
        Some(v) => v,
        None => {
            return Err(ConfigError::Parse);
        },
    };
    let i4 = match expect(bytes, j9, close_bracket.as_slice()) {
        Some(e) => e,
        None => {
            return Err(ConfigError::Parse);
        },
    };
    let keys: Vec<u8> = vec![k0, k1, k2, k3, k4];
    proof {
        assert(keys@ =~= seq![k0, k1, k2, k3, k4]);
    }
    let i5 = match expect(bytes, i4, blank.as_slice()) {
        Some(e) => e,
        None => {
            return Err(ConfigError::Parse);
        },
    };
    let sh = speed_header();
    let i6 = match expect(bytes, i5, sh.as_slice()) {
        Some(e) => e,
        None => {
            return Err(ConfigError::Parse);
        },
    };
    // the speed token, up to its newline
    let mut j: usize = i6;
    while j < blen && 33 <= bytes[j] && bytes[j] <= 126
        invariant
            i6 <= j <= blen,
            blen == bytes@.len(),
            forall|k: int| i6 <= k < j ==> is_token_byte(#[trigger] bytes@[k]),
        decreases blen - j,
    {
        j += 1;
    }
    proof {
        lemma_token_run_end(bytes@, i6 as int, j as int);
    }
    if j == i6 {
        return Err(ConfigError::Parse);
    }
    if !(j < blen && bytes[j] == 10) {
        return Err(ConfigError::Parse);
    }
    let speed_slice = vstd::slice::slice_subrange(bytes, i6, j);
    let speed = vstd::slice::slice_to_vec(speed_slice);
    let i7 = j + 1;
    let i8 = match expect(bytes, i7, blank.as_slice()) {
        Some(e) => e,
        None => {
            return Err(ConfigError::Parse);
        },
    };
    let zh = size_header();
    let i9 = match expect(bytes, i8, zh.as_slice()) {
        Some(e) => e,
        None => {
            return Err(ConfigError::Parse);
        },
    };
    // the size line
    let open_paren: Vec<u8> = vec![40u8];
    let close_paren: Vec<u8> = vec![41u8, 10u8];
    proof {
        assert(open_paren@ =~= seq![40u8]);
        assert(close_paren@ =~= seq![41u8, 10u8]);
    }
    let t0 = match expect(bytes, i9, open_paren.as_slice()) {
        Some(e) => e,
        None => {
            return Err(ConfigError::Parse);
        },
    };
    let (height, t1) = match parse_i32_at(bytes, t0) {
        Some(v) => v,
        None => {
            return Err(ConfigError::Parse);
        },
    };
    let t2 = match expect(bytes, t1, sep.as_slice()) {
        Some(e) => e,
        None => {
            return Err(ConfigError::Parse);
        },
    };
    let (width, t3) = match parse_i32_at(bytes, t2) {
        Some(v) => v,
        None => {
            return Err(ConfigError::Parse);
        },
    };
    let i10 = match expect(bytes, t3, close_paren.as_slice()) {
        Some(e) => e,
        None => {
            return Err(ConfigError::Parse);
        },
    };
    if i10 != blen {
        return Err(ConfigError::Parse);
    }
    Ok(Config { colors, keys, speed, size: (height, width) })
}

/// What parsing a comma-separated list of numbers at position i yields:
/// the numbers and the position just past the last one.
pub open spec fn spec_parse_items(s: Seq<u8>, i: int) -> Option<(Seq<i32>, int)>
    decreases s.len() - i,
{
    match spec_parse_i32(s, i) {
        Some((v, e)) => {
            if i < e && e + 2 <= s.len() && s[e] == 44 && s[e + 1] == 32 {
                match spec_parse_items(s, e + 2) {
                    Some((rest, e2)) => Some((seq![v] + rest, e2)),
                    None => None,
                }
            } else {
                Some((seq![v], e))
            }
        },
        None => None,
    }
}

/// What parsing a bracketed, comma-separated list of numbers yields:
/// "[v, v, ...]", consuming the whole input.
pub open spec fn spec_parse_array(s: Seq<u8>) -> Option<Seq<i32>> {
    if s.len() >= 2 && s[0] == 91 && s[s.len() - 1] == 93 {
        match spec_parse_items(s, 1) {
            Some((vs, e)) => if e == s.len() - 1 {
                Some(vs)
            } else {
                None
            },
            None => None,
        }
    } else {
        None
    }
}

/// What parsing a parenthesized pair of numbers yields: "(a, b)",
/// consuming the whole input.
pub open spec fn spec_parse_tuple(s: Seq<u8>) -> Option<(i32, i32)> {
    if s.len() >= 2 && s[0] == 40 && s[s.len() - 1] == 41 {
        match spec_parse_i32(s, 1) {
            Some((a, e)) => if e + 2 <= s.len() - 1 && s[e] == 44 && s[e + 1] == 32 {
                match spec_parse_i32(s, e + 2) {
                    Some((b, e2)) => if e2 == s.len() - 1 {
                        Some((a, b))
                    } else {
                        None
                    },
                    None => None,
                }
            } else {
                None
            },
            None => None,
        }
    } else {
        None
    }
}

/// Parses a comma-separated list of numbers starting at position i.
fn parse_items(bytes: &[u8], i: usize) -> (r: Option<(Vec<i32>, usize)>)
    requires
        i <= bytes@.len(),
    ensures
        match r {
            Some((vs, e)) => spec_parse_items(bytes@, i as int) == Some((vs@, e as int)) && i < e
                <= bytes@.len(),
            None => spec_parse_items(bytes@, i as int) is None,
        },
    decreases bytes@.len() - i,
{
    match parse_i32_at(bytes, i) {
        Some((v, e)) => {
            if e < bytes.len() && e + 1 < bytes.len() && bytes[e] == 44 && bytes[e + 1] == 32 {
                match parse_items(bytes, e + 2) {
                    Some((mut rest, e2)) => {
                        let mut vs: Vec<i32> = Vec::new();
                        vs.push(v);
                        proof {
                            assert(vs@ =~= seq![v]);
                        }
                        vs.append(&mut rest);
                        Some((vs, e2))
                    },
                    None => None,
                }
            } else {
                let vs: Vec<i32> = vec![v];
                proof {
                    assert(vs@ =~= seq![v]);
                }
                Some((vs, e))
            }
        },
        None => None,
    }
}

/// Parses a bracketed, comma-separated list of numbers, strictly:
/// "[v, v, ...]" with a single space after each comma. Anything else is a
/// parse error.
pub fn parse_array(s: &str) -> (r: Result<Vec<i32>, ConfigError>)
    ensures
        match spec_parse_array(s.spec_bytes()) {
            Some(vs) => r is Ok && r.unwrap()@ == vs,
            None => r == Err::<Vec<i32>, ConfigError>(ConfigError::Parse),
        },
{
    let bytes = s.as_bytes();
    let n = bytes.len();
    if n < 2 {
        return Err(ConfigError::Parse);
    }
    if bytes[0] != 91 || bytes[n - 1] != 93 {
        return Err(ConfigError::Parse);
    }
    match parse_items(bytes, 1) {
        Some((vs, e)) => if e == n - 1 {
            Ok(vs)
        } else {
            Err(ConfigError::Parse)
        },
        None => Err(ConfigError::Parse),
    }
}

/// Parses a parenthesized pair of numbers, strictly: "(a, b)" with a
/// single space after the comma. Anything else is a parse error.
pub fn parse_tuple(s: &str) -> (r: Result<(i32, i32), ConfigError>)
    ensures
        match spec_parse_tuple(s.spec_bytes()) {
            Some(t) => r == Ok::<(i32, i32), ConfigError>(t),
            None => r == Err::<(i32, i32), ConfigError>(ConfigError::Parse),
        },
{
    let bytes = s.as_bytes();
    let n = bytes.len();
    if n < 2 {
        return Err(ConfigError::Parse);
    }
    if bytes[0] != 40 || bytes[n - 1] != 41 {
        return Err(ConfigError::Parse);
    }
    let (a, e) = match parse_i32_at(bytes, 1) {
        Some(v) => v,
        None => {
            return Err(ConfigError::Parse);
        },
    };
    if !(e + 2 <= n - 1 && bytes[e] == 44 && bytes[e + 1] == 32) {
        return Err(ConfigError::Parse);
    }
    let (b, e2) = match parse_i32_at(bytes, e + 2) {
        Some(v) => v,
        None => {
            return Err(ConfigError::Parse);
        },
    };
    if e2 != n - 1 {
        return Err(ConfigError::Parse);
    }
    Ok((a, b))
}

/// Parsing a number at the start of its own rendering yields the number,
/// provided the rendering is not followed by a further digit.
pub proof fn lemma_parse_nat_at(s: Seq<u8>, i: int, n: nat)
    requires
        0 <= i,
        n < 10_000_000_000,
        i + spec_fmt_nat(n).len() <= s.len(),
        s.subrange(i, i + spec_fmt_nat(n).len()) == spec_fmt_nat(n),
        i + spec_fmt_nat(n).len() == s.len() || !is_digit(s[i + spec_fmt_nat(n).len()]),
    ensures
        spec_parse_nat(s, i) == Some((n, i + spec_fmt_nat(n).len())),
{
    let f = spec_fmt_nat(n);
    lemma_fmt_nat_digits(n);
    assert forall|k: int| i <= k < i + f.len() implies is_digit(s[k]) by {
        assert(s.subrange(i, i + f.len())[k - i] == s[k]);
        assert(f[k - i] == s[k]);
    }
    lemma_digit_run_end(s, i, i + f.len());
    reveal_with_fuel(pow10, 12);
    lemma_fmt_nat_len(n, 10);
    lemma_digits_val_of_fmt(n);
}

/// The same for a byte-sized number.
pub proof fn lemma_parse_u8_at(s: Seq<u8>, i: int, v: u8)
    requires
        0 <= i,
        i + spec_fmt_nat(v as nat).len() <= s.len(),
        s.subrange(i, i + spec_fmt_nat(v as nat).len()) == spec_fmt_nat(v as nat),
        i + spec_fmt_nat(v as nat).len() == s.len() || !is_digit(s[i + spec_fmt_nat(v as nat).len()]),
    ensures
        spec_parse_u8(s, i) == Some((v, i + spec_fmt_nat(v as nat).len())),
{
    lemma_parse_nat_at(s, i, v as nat);
}

/// The same for a signed 32-bit number and its signed rendering.
pub proof fn lemma_parse_i32_at(s: Seq<u8>, i: int, v: i32)
    requires
        0 <= i,
        i + spec_fmt_i32(v as int).len() <= s.len(),
        s.subrange(i, i + spec_fmt_i32(v as int).len()) == spec_fmt_i32(v as int),
        i + spec_fmt_i32(v as int).len() == s.len() || !is_digit(s[i + spec_fmt_i32(v as int).len()]),
    ensures
        spec_parse_i32(s, i) == Some((v, i + spec_fmt_i32(v as int).len())),
{
    let g = spec_fmt_i32(v as int);
    if v < 0 {
        let mag = (-(v as int)) as nat;
        let f = spec_fmt_nat(mag);
        assert(g =~= seq![45u8] + f);
        assert(s.subrange(i, i + g.len())[0] == s[i]);
        assert(s[i] == 45);
        assert forall|k: int| 0 <= k < f.len() implies s.subrange(i + 1, i + 1 + f.len())[k] == f[k] by {
            assert(s.subrange(i, i + g.len())[k + 1] == s[i + 1 + k]);
            assert(g[k + 1] == f[k]);
            assert(s.subrange(i + 1, i + 1 + f.len())[k] == s[i + 1 + k]);
        }
        assert(s.subrange(i + 1, i + 1 + f.len()) =~= f);
        lemma_parse_nat_at(s, i + 1, mag);
    } else {
        lemma_fmt_nat_digits(v as nat);
        assert(s.subrange(i, i + g.len())[0] == s[i]);
        assert(is_digit(s[i]) && s[i] != 45);
        lemma_parse_nat_at(s, i, v as nat);
    }
}

/// Splitting a known stretch of s made of two parts gives each part its
/// own stretch.
pub proof fn lemma_concat_parts(s: Seq<u8>, i: int, a: Seq<u8>, b: Seq<u8>)
    requires
        0 <= i,
        i + a.len() + b.len() <= s.len(),
        s.subrange(i, i + a.len() + b.len()) == a + b,
    ensures
        s.subrange(i, i + a.len()) == a,
        s.subrange(i + a.len(), i + a.len() + b.len()) == b,
{
    let ab = a + b;
    assert forall|k: int| 0 <= k < ab.len() implies s[i + k] == ab[k] by {
        assert(s.subrange(i, i + ab.len())[k] == s[i + k]);
    }
    assert(s.subrange(i, i + a.len()) =~= a) by {
        assert forall|k: int| 0 <= k < a.len() implies s.subrange(i, i + a.len())[k] == a[k] by {
            assert(s[i + k] == ab[k]);
        }
    }
    assert(s.subrange(i + a.len(), i + a.len() + b.len()) =~= b) by {
        assert forall|k: int|
            0 <= k < b.len() implies s.subrange(i + a.len(), i + a.len() + b.len())[k] == b[k] by {
            assert(s.subrange(i + a.len(), i + a.len() + b.len())[k] == s[i + (a.len() + k)]);
            assert(s[i + (a.len() + k)] == ab[a.len() + k]);
        }
    }
}

/// Parsing a color line at the start of its own rendering yields the
/// entry.
pub proof fn lemma_parse_color_line_at(s: Seq<u8>, i: int, entry: ((u8, u8, u8), Shape))
    requires
        0 <= i,
        i + spec_color_line(entry).len() <= s.len(),
        s.subrange(i, i + spec_color_line(entry).len()) == spec_color_line(entry),
    ensures
        spec_parse_color_line(s, i) == Some((entry, i + spec_color_line(entry).len())),
{
    let line = spec_color_line(entry);
    let a0 = seq![entry.1.spec_letter(), 58u8, 32u8, 40u8];
    let f1 = spec_fmt_nat(entry.0.0 as nat);
    let m1 = seq![44u8, 32u8];
    let f2 = spec_fmt_nat(entry.0.1 as nat);
    let f3 = spec_fmt_nat(entry.0.2 as nat);
    let tl = seq![41u8, 10u8];
    let o0 = i + 4;
    let o1 = o0 + f1.len();
    let o2 = o1 + 2;
    let o3 = o2 + f2.len();
    let o4 = o3 + 2;
    let o5 = o4 + f3.len();
    let end = o5 + 2;
    lemma_concat_parts(s, i, a0, f1 + (m1 + (f2 + (m1 + (f3 + tl)))));
    lemma_concat_parts(s, o0, f1, m1 + (f2 + (m1 + (f3 + tl))));
    lemma_concat_parts(s, o1, m1, f2 + (m1 + (f3 + tl)));
    lemma_concat_parts(s, o2, f2, m1 + (f3 + tl));
    lemma_concat_parts(s, o3, m1, f3 + tl);
    lemma_concat_parts(s, o4, f3, tl);
    assert(s[i] == entry.1.spec_letter()) by {
        assert(s.subrange(i, o0)[0] == s[i]);
    }
    assert(Shape::spec_from_byte(entry.1.spec_letter()) == Ok::<Shape, ()>(entry.1));
    assert(s.subrange(i + 1, o0) =~= seq![58u8, 32u8, 40u8]) by {
        assert forall|k: int| 0 <= k < 3 implies s.subrange(i + 1, o0)[k] == seq![
            58u8, 32u8, 40u8,
        ][k] by {
            assert(s.subrange(i + 1, o0)[k] == s[i + 1 + k]);
            assert(s.subrange(i, o0)[1 + k] == s[i + (1 + k)]);
        }
    }
    assert(spec_expect(s, i + 1, seq![58u8, 32u8, 40u8]) == Some(o0));
    assert(s[o1] == 44) by {
        assert(s.subrange(o1, o2)[0] == s[o1]);
    }
    lemma_parse_u8_at(s, o0, entry.0.0);
    assert(spec_expect(s, o1, seq![44u8, 32u8]) == Some(o2));
    assert(s[o3] == 44) by {
        assert(s.subrange(o3, o4)[0] == s[o3]);
    }
    lemma_parse_u8_at(s, o2, entry.0.1);
    assert(spec_expect(s, o3, seq![44u8, 32u8]) == Some(o4));
    assert(s[o5] == 41) by {
        assert(s.subrange(o5, end)[0] == s[o5]);
    }
    lemma_parse_u8_at(s, o4, entry.0.2);
    assert(spec_expect(s, o5, seq![41u8, 10u8]) == Some(end));
}

/// Parsing color lines at the start of their own rendering yields the
/// entries.
pub proof fn lemma_parse_colors_at(s: Seq<u8>, i: int, colors: Seq<((u8, u8, u8), Shape)>)
    requires
        0 <= i,
        i + spec_color_lines(colors).len() <= s.len(),
        s.subrange(i, i + spec_color_lines(colors).len()) == spec_color_lines(colors),
    ensures
        spec_parse_colors(s, i, colors.len()) == Some(
            (colors, i + spec_color_lines(colors).len()),
        ),
    decreases colors.len(),
{
    if colors.len() == 0 {
        assert(colors =~= Seq::<((u8, u8, u8), Shape)>::empty());
    } else {
        let cl = spec_color_lines(colors);
        let line = spec_color_line(colors[0]);
        let rest = colors.drop_first();
        let rl = spec_color_lines(rest);
        assert(cl == line + rl);
        lemma_concat_parts(s, i, line, rl);
        lemma_parse_color_line_at(s, i, colors[0]);
        lemma_parse_colors_at(s, i + line.len(), rest);
        assert(seq![colors[0]] + rest =~= colors);
    }
}

/// Parsing the key binding line at the start of its own rendering yields
/// the keys.
pub proof fn lemma_parse_keys_line_at(s: Seq<u8>, i: int, keys: Seq<u8>)
    requires
        0 <= i,
        keys.len() == 5,
        i + spec_keys_line(keys).len() <= s.len(),
        s.subrange(i, i + spec_keys_line(keys).len()) == spec_keys_line(keys),
    ensures
        spec_parse_keys_line(s, i) == Some((keys, i + spec_keys_line(keys).len())),
{
    let f0 = spec_fmt_nat(keys[0] as nat);
    let f1 = spec_fmt_nat(keys[1] as nat);
    let f2 = spec_fmt_nat(keys[2] as nat);
    let f3 = spec_fmt_nat(keys[3] as nat);
    let f4 = spec_fmt_nat(keys[4] as nat);
    let m1 = seq![44u8, 32u8];
    let tl = seq![93u8, 10u8];
    let q0 = i + 1;
    let q1 = q0 + f0.len();
    let q2 = q1 + 2;
    let q3 = q2 + f1.len();
    let q4 = q3 + 2;
    let q5 = q4 + f2.len();
    let q6 = q5 + 2;
    let q7 = q6 + f3.len();
    let q8 = q7 + 2;
    let q9 = q8 + f4.len();
    let end = q9 + 2;
    lemma_concat_parts(s, i, seq![91u8], f0 + (m1 + (f1 + (m1 + (f2 + (m1 + (f3 + (m1 + (f4
        + tl)))))))));
    lemma_concat_parts(s, q0, f0, m1 + (f1 + (m1 + (f2 + (m1 + (f3 + (m1 + (f4 + tl))))))));
    lemma_concat_parts(s, q1, m1, f1 + (m1 + (f2 + (m1 + (f3 + (m1 + (f4 + tl)))))));
    lemma_concat_parts(s, q2, f1, m1 + (f2 + (m1 + (f3 + (m1 + (f4 + tl))))));
    lemma_concat_parts(s, q3, m1, f2 + (m1 + (f3 + (m1 + (f4 + tl)))));
    lemma_concat_parts(s, q4, f2, m1 + (f3 + (m1 + (f4 + tl))));
    lemma_concat_parts(s, q5, m1, f3 + (m1 + (f4 + tl)));
    lemma_concat_parts(s, q6, f3, m1 + (f4 + tl));
    lemma_concat_parts(s, q7, m1, f4 + tl);
    lemma_concat_parts(s, q8, f4, tl);
    assert(spec_expect(s, i, seq![91u8]) == Some(q0));
    assert(s[q1] == 44) by {
        assert(s.subrange(q1, q2)[0] == s[q1]);
    }
    lemma_parse_u8_at(s, q0, keys[0]);
    assert(spec_expect(s, q1, m1) == Some(q2));
    assert(s[q3] == 44) by {
        assert(s.subrange(q3, q4)[0] == s[q3]);
    }
    lemma_parse_u8_at(s, q2, keys[1]);
    assert(spec_expect(s, q3, m1) == Some(q4));
    assert(s[q5] == 44) by {
        assert(s.subrange(q5, q6)[0] == s[q5]);
    }
    lemma_parse_u8_at(s, q4, keys[2]);
    assert(spec_expect(s, q5, m1) == Some(q6));
    assert(s[q7] == 44) by {
        assert(s.subrange(q7, q8)[0] == s[q7]);
    }
    lemma_parse_u8_at(s, q6, keys[3]);
    assert(spec_expect(s, q7, m1) == Some(q8));
    assert(s[q9] == 93) by {
        assert(s.subrange(q9, end)[0] == s[q9]);
    }
    lemma_parse_u8_at(s, q8, keys[4]);
    assert(spec_expect(s, q9, tl) == Some(end));
    assert(seq![keys[0], keys[1], keys[2], keys[3], keys[4]] =~= keys);
}

/// Parsing the size line at the start of its own rendering yields the
/// size.
pub proof fn lemma_parse_size_line_at(s: Seq<u8>, i: int, size: (i32, i32))
    requires
        0 <= i,
        i + spec_size_line(size).len() <= s.len(),
        s.subrange(i, i + spec_size_line(size).len()) == spec_size_line(size),
    ensures
        spec_parse_size_line(s, i) == Some((size, i + spec_size_line(size).len())),
{
    let g0 = spec_fmt_i32(size.0 as int);
    let g1 = spec_fmt_i32(size.1 as int);
    let m1 = seq![44u8, 32u8];
    let tl = seq![41u8, 10u8];
    let r0 = i + 1;
    let r1 = r0 + g0.len();
    let r2 = r1 + 2;
    let r3 = r2 + g1.len();
    let end = r3 + 2;
    lemma_concat_parts(s, i, seq![40u8], g0 + (m1 + (g1 + tl)));
    lemma_concat_parts(s, r0, g0, m1 + (g1 + tl));
    lemma_concat_parts(s, r1, m1, g1 + tl);
    lemma_concat_parts(s, r2, g1, tl);
    assert(spec_expect(s, i, seq![40u8]) == Some(r0));
    assert(s[r1] == 44) by {
        assert(s.subrange(r1, r2)[0] == s[r1]);
    }
    lemma_parse_i32_at(s, r0, size.0);
    assert(spec_expect(s, r1, m1) == Some(r2));
    assert(s[r3] == 41) by {
        assert(s.subrange(r3, end)[0] == s[r3]);
    }
    lemma_parse_i32_at(s, r2, size.1);
    assert(spec_expect(s, r3, tl) == Some(end));
    assert((size.0, size.1) == size);
}

/// The rendered configuration decomposes into its twelve stretches, in
/// order: each section header, its content, and the separating blank
/// lines.
#[verifier::rlimit(100)]
pub proof fn lemma_save_parts(m: ConfigModel)
    ensures
        ({
            let s = spec_save_config(m);
            let p0 = spec_color_header().len() as int;
            let p1 = p0 + spec_color_lines(m.colors).len();
            let p2 = p1 + 1;
            let p3 = p2 + spec_key_header().len();
            let p4 = p3 + spec_keys_line(m.keys).len();
            let p5 = p4 + 1;
            let p6 = p5 + spec_speed_header().len();
            let p7 = p6 + m.speed.len() + 1;
            let p8 = p7 + 1;
            let p9 = p8 + spec_size_header().len();
            let p10 = p9 + spec_size_line(m.size).len();
            &&& s.len() == p10
            &&& s.subrange(0, p0) == spec_color_header()
            &&& s.subrange(p0, p1) == spec_color_lines(m.colors)
            &&& s.subrange(p1, p2) == seq![10u8]
            &&& s.subrange(p2, p3) == spec_key_header()
            &&& s.subrange(p3, p4) == spec_keys_line(m.keys)
            &&& s.subrange(p4, p5) == seq![10u8]
            &&& s.subrange(p5, p6) == spec_speed_header()
            &&& s.subrange(p6, p6 + m.speed.len()) == m.speed
            &&& s.subrange(p6 + m.speed.len(), p7) == seq![10u8]
            &&& s.subrange(p7, p8) == seq![10u8]
            &&& s.subrange(p8, p9) == spec_size_header()
            &&& s.subrange(p9, p10) == spec_size_line(m.size)
        }),
{
    let s = spec_save_config(m);
    let h1 = spec_color_header();
    let cl = spec_color_lines(m.colors);
    let nl = seq![10u8];
    let h2 = spec_key_header();
    let kl = spec_keys_line(m.keys);
    let h3 = spec_speed_header();
    let h4 = spec_size_header();
    let zl = spec_size_line(m.size);
    let p0 = h1.len() as int;
    let p1 = p0 + cl.len();
    let p2 = p1 + 1;
    let p3 = p2 + h2.len();
    let p4 = p3 + kl.len();
    let p5 = p4 + 1;
    let p6 = p5 + h3.len();
    let p7 = p6 + m.speed.len() + 1;
    let p8 = p7 + 1;
    let p9 = p8 + h4.len();
    let p10 = p9 + zl.len();
    assert(s.len() == p10);
    lemma_save_parts_front(m);
    lemma_save_parts_back(m);
}

/// The front half of the decomposition: the color and key sections.
#[verifier::rlimit(100)]
proof fn lemma_save_parts_front(m: ConfigModel)
    ensures
        ({
            let s = spec_save_config(m);
            let nl = seq![10u8];
            let p0 = spec_color_header().len() as int;
            let p1 = p0 + spec_color_lines(m.colors).len();
            let p2 = p1 + 1;
            let p3 = p2 + spec_key_header().len();
            let p4 = p3 + spec_keys_line(m.keys).len();
            let p5 = p4 + 1;
            &&& s.subrange(0, p0) == spec_color_header()
            &&& s.subrange(p0, p1) == spec_color_lines(m.colors)
            &&& s.subrange(p1, p2) == nl
            &&& s.subrange(p2, p3) == spec_key_header()
            &&& s.subrange(p3, p4) == spec_keys_line(m.keys)
            &&& s.subrange(p4, p5) == nl
            &&& s.subrange(p5, s.len() as int) == spec_speed_header() + (m.speed + (nl + (nl + (
            spec_size_header() + spec_size_line(m.size)))))
        }),
{
    let s = spec_save_config(m);
    let h1 = spec_color_header();
    let cl = spec_color_lines(m.colors);
    let nl = seq![10u8];
    let h2 = spec_key_header();
    let kl = spec_keys_line(m.keys);
    let h3 = spec_speed_header();
    let h4 = spec_size_header();
    let zl = spec_size_line(m.size);
    let p0 = h1.len() as int;
    let p1 = p0 + cl.len();
    let p2 = p1 + 1;
    let p3 = p2 + h2.len();
    let p4 = p3 + kl.len();
    let p5 = p4 + 1;
    assert(s.subrange(0, s.len() as int) =~= s);
    lemma_concat_parts(s, 0, h1, cl + (nl + (h2 + (kl + (nl + (h3 + (m.speed + (nl + (nl + (h4
        + zl))))))))));
    lemma_concat_parts(s, p0, cl, nl + (h2 + (kl + (nl + (h3 + (m.speed + (nl + (nl + (h4
        + zl)))))))));
    lemma_concat_parts(s, p1, nl, h2 + (kl + (nl + (h3 + (m.speed + (nl + (nl + (h4 + zl))))))));
    lemma_concat_parts(s, p2, h2, kl + (nl + (h3 + (m.speed + (nl + (nl + (h4 + zl)))))));
    lemma_concat_parts(s, p3, kl, nl + (h3 + (m.speed + (nl + (nl + (h4 + zl))))));
    lemma_concat_parts(s, p4, nl, h3 + (m.speed + (nl + (nl + (h4 + zl)))));
}

/// The back half of the decomposition: the speed and size sections.
#[verifier::rlimit(100)]
proof fn lemma_save_parts_back(m: ConfigModel)
    ensures
        ({
            let s = spec_save_config(m);
            let nl = seq![10u8];
            let p0 = spec_color_header().len() as int;
            let p1 = p0 + spec_color_lines(m.colors).len();
            let p2 = p1 + 1;
            let p3 = p2 + spec_key_header().len();
            let p4 = p3 + spec_keys_line(m.keys).len();
            let p5 = p4 + 1;
            let p6 = p5 + spec_speed_header().len();
            let p7 = p6 + m.speed.len() + 1;
            let p8 = p7 + 1;
            let p9 = p8 + spec_size_header().len();
            let p10 = p9 + spec_size_line(m.size).len();
            &&& s.subrange(p5, p6) == spec_speed_header()
            &&& s.subrange(p6, p6 + m.speed.len()) == m.speed
            &&& s.subrange(p6 + m.speed.len(), p7) == nl
            &&& s.subrange(p7, p8) == nl
            &&& s.subrange(p8, p9) == spec_size_header()
            &&& s.subrange(p9, p10) == spec_size_line(m.size)
        }),
{
    let s = spec_save_config(m);
    let h1 = spec_color_header();
    let cl = spec_color_lines(m.colors);
    let nl = seq![10u8];
    let h2 = spec_key_header();
    let kl = spec_keys_line(m.keys);
    let h3 = spec_speed_header();
    let h4 = spec_size_header();
    let zl = spec_size_line(m.size);
    let p0 = h1.len() as int;
    let p1 = p0 + cl.len();
    let p2 = p1 + 1;
    let p3 = p2 + h2.len();
    let p4 = p3 + kl.len();
    let p5 = p4 + 1;
    let p6 = p5 + h3.len();
    let p7 = p6 + m.speed.len() + 1;
    let p8 = p7 + 1;
    lemma_save_parts_front(m);
    lemma_concat_parts(s, p5, h3, m.speed + (nl + (nl + (h4 + zl))));
    lemma_concat_parts(s, p6, m.speed, nl + (nl + (h4 + zl)));
    lemma_concat_parts(s, p6 + m.speed.len(), nl, nl + (h4 + zl));
    lemma_concat_parts(s, p7, nl, h4 + zl);
    lemma_concat_parts(s, p8, h4, zl);
}

/// Law: reading back a saved configuration reproduces it exactly. For
/// every valid configuration value, parsing the bytes that
/// `save_config_bytes` renders yields the same value.
#[verifier::rlimit(100)]
pub proof fn lemma_config_round_trip(m: ConfigModel)
    requires
        m.wf(),
    ensures
        spec_load_config(spec_save_config(m)) == Some(m),
{
    let s = spec_save_config(m);
    let h1 = spec_color_header();
    let cl = spec_color_lines(m.colors);
    let nl = seq![10u8];
    let h2 = spec_key_header();
    let kl = spec_keys_line(m.keys);
    let h3 = spec_speed_header();
    let h4 = spec_size_header();
    let zl = spec_size_line(m.size);
    let p0 = h1.len() as int;
    let p1 = p0 + cl.len();
    let p2 = p1 + 1;
    let p3 = p2 + h2.len();
    let p4 = p3 + kl.len();
    let p5 = p4 + 1;
    let p6 = p5 + h3.len();
    let p7 = p6 + m.speed.len() + 1;
    let p8 = p7 + 1;
    let p9 = p8 + h4.len();
    let p10 = p9 + zl.len();
    lemma_save_parts(m);

    // the color section
    assert(spec_expect(s, 0, h1) == Some(p0));
    lemma_parse_colors_at(s, p0, m.colors);
    assert(m.colors.len() == 7);
    assert(spec_expect(s, p1, nl) == Some(p2));

    // the key binding section
    assert(spec_expect(s, p2, h2) == Some(p3));
    lemma_parse_keys_line_at(s, p3, m.keys);
    assert(spec_expect(s, p4, nl) == Some(p5));

    // the speed section
    assert(spec_expect(s, p5, h3) == Some(p6));
    assert forall|k: int| p6 <= k < p6 + m.speed.len() implies is_token_byte(s[k]) by {
        assert(s.subrange(p6, p6 + m.speed.len())[k - p6] == s[k]);
    }
    assert(s[p6 + m.speed.len()] == 10) by {
        assert(s.subrange(p6 + m.speed.len(), p7)[0] == s[p6 + m.speed.len()]);
    }
    lemma_token_run_end(s, p6, p6 + m.speed.len());
    assert(spec_parse_speed(s, p6) == Some((m.speed, p7)));
    assert(spec_expect(s, p7, nl) == Some(p8));

    // the size section
    assert(spec_expect(s, p8, h4) == Some(p9));
    lemma_parse_size_line_at(s, p9, m.size);

    assert(spec_load_config(s) == Some(
        ConfigModel { colors: m.colors, keys: m.keys, speed: m.speed, size: m.size },
    ));
    assert(ConfigModel { colors: m.colors, keys: m.keys, speed: m.speed, size: m.size } == m);
}

} // verus!
