//! Character-level building blocks for the stored-record codecs: canonical
//! decimal notation for integers, and scanning of quoted fields.
//!
//! The specs pin each notion down mathematically (`dec_digits`, `num_val`,
//! `digit_run_ok`, `string_end_ok`); the executable functions are proved
//! against them, and the lemmas connect the two directions so a codec can
//! prove both soundness and completeness of its parser.

use vstd::prelude::*;

verus! {

/// Characters a stored token string may use: printable ASCII without the
/// quote and backslash, so a token can stand verbatim inside a quoted field.
pub open spec fn token_char_ok(c: char) -> bool {
    32 <= c as u32 <= 126 && c != '"' && c != '\\'
}

pub open spec fn token_ok(s: Seq<char>) -> bool {
    forall|i: int| 0 <= i < s.len() ==> token_char_ok(#[trigger] s[i])
}

pub open spec fn is_digit_char(c: char) -> bool {
    ||| c == '0'
    ||| c == '1'
    ||| c == '2'
    ||| c == '3'
    ||| c == '4'
    ||| c == '5'
    ||| c == '6'
    ||| c == '7'
    ||| c == '8'
    ||| c == '9'
}

pub open spec fn digits_only(s: Seq<char>) -> bool {
    forall|i: int| 0 <= i < s.len() ==> is_digit_char(#[trigger] s[i])
}

/// The digit character for a value in 0..=9.
pub open spec fn digit_char(d: int) -> char {
    if d == 0 { '0' }
    else if d == 1 { '1' }
    else if d == 2 { '2' }
    else if d == 3 { '3' }
    else if d == 4 { '4' }
    else if d == 5 { '5' }
    else if d == 6 { '6' }
    else if d == 7 { '7' }
    else if d == 8 { '8' }
    else { '9' }
}

pub open spec fn digit_val(c: char) -> int {
    if c == '0' { 0 }
    else if c == '1' { 1 }
    else if c == '2' { 2 }
    else if c == '3' { 3 }
    else if c == '4' { 4 }
    else if c == '5' { 5 }
    else if c == '6' { 6 }
    else if c == '7' { 7 }
    else if c == '8' { 8 }
    else { 9 }
}

/// Canonical decimal notation of `n`: no sign, no leading zero (except the
/// single digit of zero itself).
pub open spec fn dec_digits(n: nat) -> Seq<char>
    decreases n,
{
    if n < 10 {
        seq![digit_char(n as int)]
    } else {
        dec_digits(n / 10) + seq![digit_char((n % 10) as int)]
    }
}

/// The numeric value of a digit sequence, most significant digit first.
pub open spec fn num_val(s: Seq<char>) -> int
    decreases s.len(),
{
    if s.len() == 0 {
        0
    } else {
        num_val(s.drop_last()) * 10 + digit_val(s.last())
    }
}

/// `[i, j)` is the maximal digit run starting at `i`, written canonically:
/// nonempty, all digits, ended by the end of `s` or a non-digit, and with no
/// leading zero.
pub open spec fn digit_run_ok(s: Seq<char>, i: int, j: int) -> bool {
    &&& 0 <= i < j <= s.len()
    &&& (forall|k: int| i <= k < j ==> is_digit_char(#[trigger] s[k]))
    &&& (j < s.len() ==> !is_digit_char(s[j]))
    &&& (j - i > 1 ==> s[i] != '0')
}

/// `j` is where a quoted field opened at `i` closes: every character from
/// `i` up to `j` may stand in a token, and `s[j]` is the closing quote.
pub open spec fn string_end_ok(s: Seq<char>, i: int, j: int) -> bool {
    &&& 0 <= i <= j < s.len()
    &&& s[j] == '"'
    &&& (forall|k: int| i <= k < j ==> token_char_ok(#[trigger] s[k]))
}

/// Whether `c` is a decimal digit.
pub fn is_digit(c: char) -> (r: bool)
    ensures
        r == is_digit_char(c),
{
    c == '0' || c == '1' || c == '2' || c == '3' || c == '4' || c == '5' || c == '6' || c == '7'
        || c == '8' || c == '9'
}

/// The value of a decimal digit.
pub fn digit_value(c: char) -> (r: u8)
    requires
        is_digit_char(c),
    ensures
        r == digit_val(c),
        r < 10,
{
    if c == '0' { 0 }
    else if c == '1' { 1 }
    else if c == '2' { 2 }
    else if c == '3' { 3 }
    else if c == '4' { 4 }
    else if c == '5' { 5 }
    else if c == '6' { 6 }
    else if c == '7' { 7 }
    else if c == '8' { 8 }
    else { 9 }
}

proof fn lemma_num_val_single(c: char)
    ensures
        num_val(seq![c]) == digit_val(c),
{
    assert(seq![c].drop_last() =~= Seq::<char>::empty());
    assert(num_val(Seq::<char>::empty()) == 0);
    assert(seq![c].last() == c);
}

pub proof fn lemma_digit_run_unique(s: Seq<char>, i: int, j1: int, j2: int)
    requires
        digit_run_ok(s, i, j1),
        digit_run_ok(s, i, j2),
    ensures
        j1 == j2,
{
    if j1 < j2 {
        assert(is_digit_char(s[j1]));
    }
    if j2 < j1 {
        assert(is_digit_char(s[j2]));
    }
}

pub proof fn lemma_string_end_unique(s: Seq<char>, i: int, j1: int, j2: int)
    requires
        string_end_ok(s, i, j1),
        string_end_ok(s, i, j2),
    ensures
        j1 == j2,
{
    if j1 < j2 {
        assert(token_char_ok(s[j1]));
    }
    if j2 < j1 {
        assert(token_char_ok(s[j2]));
    }
}

proof fn lemma_num_val_nonneg(s: Seq<char>)
    requires
        digits_only(s),
    ensures
        num_val(s) >= 0,
    decreases s.len(),
{
    if s.len() > 0 {
        assert(digits_only(s.drop_last())) by {
            assert(forall|i: int| 0 <= i < s.len() - 1 ==> is_digit_char(#[trigger] s.drop_last()[i]));
        }
        lemma_num_val_nonneg(s.drop_last());
    }
}

/// A longer digit run never has a smaller value.
proof fn lemma_num_val_mono(s: Seq<char>, i: int, j1: int, j2: int)
    requires
        0 <= i <= j1 <= j2 <= s.len(),
        forall|k: int| i <= k < j2 ==> is_digit_char(#[trigger] s[k]),
    ensures
        num_val(s.subrange(i, j1)) <= num_val(s.subrange(i, j2)),
    decreases j2 - j1,
{
    if j1 < j2 {
        let t = s.subrange(i, j2);
        assert(t.drop_last() =~= s.subrange(i, j2 - 1));
        assert(digits_only(t.drop_last()));
        lemma_num_val_nonneg(t.drop_last());
        assert(num_val(t) == num_val(t.drop_last()) * 10 + digit_val(t.last()));
        assert(digit_val(t.last()) >= 0);
        assert(num_val(t) >= num_val(t.drop_last()));
        lemma_num_val_mono(s, i, j1, j2 - 1);
    } else {
        assert(s.subrange(i, j1) == s.subrange(i, j2));
    }
}

pub proof fn lemma_dec_digits_props(n: nat)
    ensures
        dec_digits(n).len() >= 1,
        digits_only(dec_digits(n)),
        token_ok(dec_digits(n)),
        dec_digits(n).len() > 1 ==> dec_digits(n)[0] != '0',
        n < 10 ==> dec_digits(n) == seq![digit_char(n as int)],
        n >= 10 ==> dec_digits(n)[0] == dec_digits(n / 10)[0],
    decreases n,
{
    if n < 10 {
    } else {
        lemma_dec_digits_props(n / 10);
        assert(dec_digits(n) == dec_digits(n / 10) + seq![digit_char((n % 10) as int)]);
    }
}

pub proof fn lemma_num_val_dec(n: nat)
    ensures
        num_val(dec_digits(n)) == n,
    decreases n,
{
    if n < 10 {
        lemma_num_val_single(digit_char(n as int));
        assert(num_val(dec_digits(n)) == digit_val(digit_char(n as int)));
    } else {
        lemma_num_val_dec(n / 10);
        let whole = dec_digits(n / 10) + seq![digit_char((n % 10) as int)];
        assert(dec_digits(n) == whole);
        assert(whole.drop_last() =~= dec_digits(n / 10));
        assert(whole.last() == digit_char((n % 10) as int));
        assert(num_val(whole) == num_val(dec_digits(n / 10)) * 10 + digit_val(digit_char((n % 10) as int)));
        assert(digit_val(digit_char((n % 10) as int)) == n % 10);
        assert(num_val(whole) == (n / 10) * 10 + n % 10);
        assert((n / 10) * 10 + n % 10 == n) by (nonlinear_arith);
    }
}

proof fn lemma_num_val_pos(s: Seq<char>)
    requires
        digits_only(s),
        s.len() >= 1,
        s[0] != '0',
    ensures
        num_val(s) >= 1,
    decreases s.len(),
{
    if s.len() == 1 {
        assert(seq![s[0]] =~= s);
        lemma_num_val_single(s[0]);
        assert(is_digit_char(s[0]));
        assert(digit_val(s[0]) >= 1);
    } else {
        assert(digits_only(s.drop_last())) by {
            assert(forall|i: int| 0 <= i < s.len() - 1 ==> is_digit_char(#[trigger] s.drop_last()[i]));
        }
        assert(s.drop_last()[0] == s[0]);
        lemma_num_val_pos(s.drop_last());
        assert(is_digit_char(s.last()));
        assert(digit_val(s.last()) >= 0);
        assert(num_val(s) == num_val(s.drop_last()) * 10 + digit_val(s.last()));
        assert(num_val(s.drop_last()) * 10 >= 10) by (nonlinear_arith)
            requires num_val(s.drop_last()) >= 1;
    }
}

/// A canonically written digit run is the decimal notation of its value.
proof fn lemma_dec_num_val(s: Seq<char>)
    requires
        digits_only(s),
        s.len() >= 1,
        s.len() > 1 ==> s[0] != '0',
    ensures
        num_val(s) >= 0,
        dec_digits(num_val(s) as nat) == s,
    decreases s.len(),
{
    lemma_num_val_nonneg(s);
    if s.len() == 1 {
        assert(seq![s[0]] =~= s);
        lemma_num_val_single(s[0]);
        assert(num_val(s) == digit_val(s[0]));
        let d = digit_val(s[0]);
        assert(0 <= d <= 9);
        assert(digit_char(d) == s[0]);
        assert(dec_digits(d as nat) == seq![digit_char(d)]);
        assert(seq![s[0]] =~= s);
    } else {
        let a = s.drop_last();
        assert(digits_only(a)) by {
            assert(forall|i: int| 0 <= i < s.len() - 1 ==> is_digit_char(#[trigger] s.drop_last()[i]));
        }
        assert(a[0] == s[0]);
        assert(a[0] != '0');
        lemma_dec_num_val(a);
        lemma_num_val_pos(a);
        let m = num_val(a);
        let d = digit_val(s.last());
        assert(0 <= d <= 9);
        let n = num_val(s);
        assert(n == m * 10 + d);
        assert(n >= 10) by (nonlinear_arith)
            requires m >= 1, d >= 0, n == m * 10 + d;
        assert(n / 10 == m && n % 10 == d) by (nonlinear_arith)
            requires n == m * 10 + d, 0 <= d <= 9;
        assert(dec_digits(n as nat) == dec_digits((n / 10) as nat) + seq![digit_char((n % 10) as int)]);
        assert(dec_digits((n / 10) as nat) == a);
        assert(digit_char(d) == s.last());
        assert(a + seq![s.last()] =~= s);
    }
}

/// A maximal canonical digit run is the decimal notation of its value.
pub proof fn lemma_run_is_dec(s: Seq<char>, i: int, j: int)
    requires
        digit_run_ok(s, i, j),
    ensures
        num_val(s.subrange(i, j)) >= 0,
        dec_digits(num_val(s.subrange(i, j)) as nat) == s.subrange(i, j),
{
    let t = s.subrange(i, j);
    assert(digits_only(t)) by {
        assert(forall|k: int| 0 <= k < t.len() ==> is_digit_char(#[trigger] t[k]));
    }
    assert(t.len() > 1 ==> t[0] != '0') by {
        assert(t[0] == s[i]);
    }
    lemma_dec_num_val(t);
}

/// What a quoted-field scan hands back may stand in a token field.
pub proof fn lemma_scanned_token_ok(s: Seq<char>, i: int, j: int)
    requires
        string_end_ok(s, i, j),
    ensures
        token_ok(s.subrange(i, j)),
{
    let t = s.subrange(i, j);
    assert(forall|k: int| 0 <= k < t.len() ==> token_char_ok(#[trigger] t[k]));
}

/// Splitting off a known middle piece: if the piece stands at `p`, the tail
/// from `p` is the piece followed by the tail after it.
pub proof fn lemma_peel(s: Seq<char>, p: int, piece: Seq<char>)
    requires
        0 <= p,
        p + piece.len() <= s.len(),
        s.subrange(p, p + piece.len() as int) == piece,
    ensures
        s.subrange(p, s.len() as int) == piece + s.subrange(p + piece.len() as int, s.len() as int),
{
    assert(s.subrange(p, s.len() as int) =~= piece + s.subrange(p + piece.len() as int, s.len() as int));
}

/// The converse: if the tail from `p` is a known concatenation, each part
/// stands at its place.
pub proof fn lemma_unpeel(s: Seq<char>, p: int, piece: Seq<char>, rest: Seq<char>)
    requires
        0 <= p <= s.len(),
        s.subrange(p, s.len() as int) == piece + rest,
    ensures
        p + piece.len() + rest.len() == s.len(),
        s.subrange(p, p + piece.len() as int) == piece,
        s.subrange(p + piece.len() as int, s.len() as int) == rest,
{
    let tail = s.subrange(p, s.len() as int);
    assert(tail.len() == s.len() - p);
    assert(p + piece.len() + rest.len() == s.len());
    assert forall|k: int| 0 <= k < piece.len() implies s[p + k] == piece[k] by {
        assert(tail[k] == (piece + rest)[k]);
    }
    assert forall|k: int| 0 <= k < rest.len() implies s[p + piece.len() + k] == rest[k] by {
        assert(tail[piece.len() + k] == (piece + rest)[piece.len() + k]);
    }
    assert(s.subrange(p, p + piece.len() as int) =~= piece);
    assert(s.subrange(p + piece.len() as int, s.len() as int) =~= rest);
}

pub proof fn lemma_subrange_all(s: Seq<char>)
    ensures
        s.subrange(0, s.len() as int) == s,
{
    assert(s.subrange(0, s.len() as int) =~= s);
}

/// The digit character for a value in 0..=9, as a one-character string.
pub fn digit_str(d: u8) -> (r: &'static str)
    requires
        d < 10,
    ensures
        r@ == seq![digit_char(d as int)],
{
    proof {
        reveal_strlit("0");
        reveal_strlit("1");
        reveal_strlit("2");
        reveal_strlit("3");
        reveal_strlit("4");
        reveal_strlit("5");
        reveal_strlit("6");
        reveal_strlit("7");
        reveal_strlit("8");
        reveal_strlit("9");
    }
    if d == 0 {
        let r = "0";
        assert(r@ =~= seq![digit_char(0)]);
        r
    } else if d == 1 {
        let r = "1";
        assert(r@ =~= seq![digit_char(1)]);
        r
    } else if d == 2 {
        let r = "2";
        assert(r@ =~= seq![digit_char(2)]);
        r
    } else if d == 3 {
        let r = "3";
        assert(r@ =~= seq![digit_char(3)]);
        r
    } else if d == 4 {
        let r = "4";
        assert(r@ =~= seq![digit_char(4)]);
        r
    } else if d == 5 {
        let r = "5";
        assert(r@ =~= seq![digit_char(5)]);
        r
    } else if d == 6 {
        let r = "6";
        assert(r@ =~= seq![digit_char(6)]);
        r
    } else if d == 7 {
        let r = "7";
        assert(r@ =~= seq![digit_char(7)]);
        r
    } else if d == 8 {
        let r = "8";
        assert(r@ =~= seq![digit_char(8)]);
        r
    } else {
        let r = "9";
        assert(r@ =~= seq![digit_char(9)]);
        r
    }
}

/// `n` in canonical decimal notation.
pub fn u64_to_string(n: u64) -> (r: String)
    ensures
        r@ == dec_digits(n as nat),
    decreases n,
{
    if n < 10 {
        String::from_str(digit_str(n as u8))
    } else {
        let mut s = u64_to_string(n / 10);
        s.append(digit_str((n % 10) as u8));
        s
    }
}

/// Whether `lit` stands in `s` at position `i`.
pub fn expect_lit(s: &str, i: usize, lit: &str) -> (b: bool)
    ensures
        b == (i + lit@.len() <= s@.len()
            && s@.subrange(i as int, i + lit@.len()) == lit@),
{
    let n = s.unicode_len();
    let m = lit.unicode_len();
    if m > n || i > n - m {
        return false;
    }
    let mut k: usize = 0;
    while k < m
        invariant
            k <= m,
            i + m <= n,
            n == s@.len(),
            m == lit@.len(),
            forall|t: int| 0 <= t < k ==> s@[i + t] == lit@[t],
        decreases m - k,
    {
        if s.get_char(i + k) != lit.get_char(k) {
            assert(s@.subrange(i as int, i + lit@.len()) != lit@) by {
                assert(s@.subrange(i as int, i + lit@.len())[k as int] == s@[i + k]);
            }
            return false;
        }
        k += 1;
    }
    assert(s@.subrange(i as int, i + lit@.len()) =~= lit@);
    true
}

/// Scan a quoted field opened at `i`: collect characters up to the first
/// closing quote, refusing any character a token may not hold.  Returns the
/// field and the position of the closing quote, or `None` when no valid
/// close exists.
pub fn scan_quoted(s: &str, i: usize) -> (r: Option<(String, usize)>)
    ensures
        r is Some ==> {
            let (t, j) = r->Some_0;
            &&& string_end_ok(s@, i as int, j as int)
            &&& t@ == s@.subrange(i as int, j as int)
        },
        r is None ==> forall|j: int| !string_end_ok(s@, i as int, j),
{
    let n = s.unicode_len();
    let mut j: usize = i;
    loop
        invariant
            i <= j,
            n == s@.len(),
            forall|k: int| i <= k < j ==> token_char_ok(#[trigger] s@[k]),
        decreases n - j,
    {
        if j >= n {
            assert(forall|t: int| !string_end_ok(s@, i as int, t)) by {
                assert forall|t: int| !string_end_ok(s@, i as int, t) by {
                    if string_end_ok(s@, i as int, t) {
                        assert(token_char_ok(s@[t]));
                    }
                }
            }
            return None;
        }
        let c = s.get_char(j);
        if c == '"' {
            let t = s.substring_char(i, j).to_owned();
            return Some((t, j));
        }
        let code = c as u32;
        if code < 32 || code > 126 || c == '\\' {
            assert(!token_char_ok(s@[j as int]));
            assert(forall|t: int| !string_end_ok(s@, i as int, t)) by {
                assert forall|t: int| !string_end_ok(s@, i as int, t) by {
                    if string_end_ok(s@, i as int, t) {
                        if t < j {
                            assert(s@[t] == '"');
                            assert(token_char_ok(s@[t]));
                        } else if t == j {
                            assert(s@[t] == '"');
                        } else {
                            assert(token_char_ok(s@[j as int]));
                        }
                    }
                }
            }
            return None;
        }
        j += 1;
    }
}

/// Read the maximal digit run starting at `i` as a number.  Fails when there
/// is no canonical run at `i` or its value exceeds `u64::MAX`.
pub fn parse_number(s: &str, i: usize) -> (r: Option<(u64, usize)>)
    ensures
        r is Some ==> {
            let (v, j) = r->Some_0;
            &&& digit_run_ok(s@, i as int, j as int)
            &&& v == num_val(s@.subrange(i as int, j as int))
        },
        r is None ==> forall|j: int|
            digit_run_ok(s@, i as int, j) ==> num_val(s@.subrange(i as int, j)) > u64::MAX,
{
    let n = s.unicode_len();
    if i >= n {
        return None;
    }
    let c0 = s.get_char(i);
    if !is_digit(c0) {
        assert(!is_digit_char(s@[i as int]));
        return None;
    }
    if c0 == '0' {
        // a canonical run starting with '0' is exactly "0"
        if i + 1 < n {
            let c1 = s.get_char(i + 1);
            if is_digit(c1) {
                assert(forall|j: int| !digit_run_ok(s@, i as int, j)) by {
                    assert forall|j: int| !digit_run_ok(s@, i as int, j) by {
                        if digit_run_ok(s@, i as int, j) {
                            if j == i + 1 {
                                assert(!is_digit_char(s@[j]));
                            } else {
                                assert(j - i > 1);
                                assert(s@[i as int] != '0');
                            }
                        }
                    }
                }
                return None;
            }
        }
        assert(digit_run_ok(s@, i as int, i + 1));
        assert(s@.subrange(i as int, i + 1) =~= seq![s@[i as int]]);
        proof {
            lemma_num_val_single(s@[i as int]);
        }
        assert(num_val(s@.subrange(i as int, i + 1)) == digit_val('0'));
        return Some((0, i + 1));
    }
    let mut acc: u64 = 0;
    let mut j: usize = i;
    loop
        invariant
            i <= j <= n,
            n == s@.len(),
            s@[i as int] != '0',
            is_digit_char(s@[i as int]),
            forall|k: int| i <= k < j ==> is_digit_char(#[trigger] s@[k]),
            acc == num_val(s@.subrange(i as int, j as int)),
        decreases n - j,
    {
        if j >= n {
            assert(digit_run_ok(s@, i as int, j as int));
            return Some((acc, j));
        }
        let c = s.get_char(j);
        if !is_digit(c) {
            assert(!is_digit_char(s@[j as int]));
            assert(j > i) by {
                assert(is_digit_char(s@[i as int]));
            }
            assert(digit_run_ok(s@, i as int, j as int));
            return Some((acc, j));
        }
        // the run continues; extend the accumulator or report overflow
        let d = digit_value(c) as u64;
        let grown = match acc.checked_mul(10) {
            Some(t) => t.checked_add(d),
            None => None,
        };
        match grown {
            Some(v) => {
                proof {
                    let prev = s@.subrange(i as int, j as int);
                    let ext = s@.subrange(i as int, j + 1);
                    assert(ext.drop_last() =~= prev);
                    assert(ext.last() == s@[j as int]);
                    assert(digit_val(s@[j as int]) == d);
                }
                acc = v;
                j += 1;
            }
            None => {
                proof {
                    let prev = s@.subrange(i as int, j as int);
                    let ext = s@.subrange(i as int, j + 1);
                    assert(ext.drop_last() =~= prev);
                    assert(ext.last() == s@[j as int]);
                    assert(num_val(ext) == acc * 10 + digit_val(s@[j as int]));
                    assert(num_val(ext) > u64::MAX);
                    assert forall|t: int|
                        digit_run_ok(s@, i as int, t) implies num_val(s@.subrange(i as int, t)) > u64::MAX by {
                        if digit_run_ok(s@, i as int, t) {
                            if t <= j {
                                assert(is_digit_char(s@[t]));
                            } else {
                                lemma_num_val_mono(s@, i as int, j + 1, t);
                            }
                        }
                    }
                }
                return None;
            }
        }
    }
}

} // verus!
