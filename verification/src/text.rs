//! Character-level helpers shared by the parsers and error messages:
//! conversion between strings and character vectors, decimal numbers,
//! the number grammars that std's `from_str` accepts, and substring
//! replacement.
use vstd::prelude::*;

verus! {

/// The characters of a string, in order.
pub fn chars_of(s: &str) -> (r: Vec<char>)
    ensures
        r@ == s@,
{
    broadcast use vstd::string::group_string_axioms;

    let mut r: Vec<char> = Vec::new();
    for c in it: s.chars()
        invariant
            r@ == it.seq().take(it.index() as int),
    {
        r.push(c);
    }
    r
}

/// `String::push`: appends one character.
#[verifier::external_body]
pub(crate) fn string_push(s: &mut String, c: char)
    ensures
        final(s)@ == old(s)@.push(c),
{
    s.push(c);
}

/// Builds a string from characters.
pub fn string_of(cs: &[char]) -> (r: String)
    ensures
        r@ == cs@,
{
    let mut r = String::new();
    let mut i: usize = 0;
    while i < cs.len()
        invariant
            i <= cs.len(),
            r@ == cs@.take(i as int),
        decreases cs.len() - i,
    {
        string_push(&mut r, cs[i]);
        proof {
            assert(cs@.take(i + 1) == cs@.take(i as int).push(cs@[i as int]));
        }
        i = i + 1;
    }
    proof {
        assert(cs@.take(cs@.len() as int) == cs@);
    }
    r
}

/// A copy of a string, with the same characters.
pub fn copy_string(s: &str) -> (r: String)
    ensures
        r@ == s@,
{
    let cs = chars_of(s);
    string_of(cs.as_slice())
}

/// Unicode lowercase mapping of a string, as `str::to_lowercase` computes it.
pub uninterp spec fn lowercase(s: Seq<char>) -> Seq<char>;

/// `str::to_lowercase`: the result is named `lowercase` of the argument.
#[verifier::external_body]
pub(crate) fn to_lowercase(s: &str) -> (r: String)
    ensures
        r@ == lowercase(s@),
{
    s.to_lowercase()
}

/// The text that `{:?}` (Debug) prints for a string: quoted and escaped.
pub uninterp spec fn debug_text(s: Seq<char>) -> Seq<char>;

/// `<str as Debug>::fmt`: the result is named `debug_text` of the argument.
#[verifier::external_body]
pub(crate) fn debug_string(s: &str) -> (r: String)
    ensures
        r@ == debug_text(s@),
{
    format!("{:?}", s)
}

// ---------------------------------------------------------------------
// Decimal digits
// ---------------------------------------------------------------------
pub open spec fn is_digit(c: char) -> bool {
    '0' <= c && c <= '9'
}

pub open spec fn digit_value(c: char) -> nat {
    (c as int - '0' as int) as nat
}

pub open spec fn digit_char(d: nat) -> char {
    if d == 0 {
        '0'
    } else if d == 1 {
        '1'
    } else if d == 2 {
        '2'
    } else if d == 3 {
        '3'
    } else if d == 4 {
        '4'
    } else if d == 5 {
        '5'
    } else if d == 6 {
        '6'
    } else if d == 7 {
        '7'
    } else if d == 8 {
        '8'
    } else {
        '9'
    }
}

/// Decimal representation of a natural number, without leading zeros.
pub open spec fn decimal(n: nat) -> Seq<char>
    decreases n,
{
    if n < 10 {
        seq![digit_char(n)]
    } else {
        decimal(n / 10).push(digit_char(n % 10))
    }
}

/// Decimal representation of an integer, with a leading `-` when negative
/// (what `Display` prints for Rust's integer types).
pub open spec fn signed_decimal(i: int) -> Seq<char> {
    if i < 0 {
        seq!['-'] + decimal((-i) as nat)
    } else {
        decimal(i as nat)
    }
}

fn digit_of(d: u128) -> (c: char)
    requires
        d < 10,
    ensures
        c == digit_char(d as nat),
{
    if d == 0 {
        '0'
    } else if d == 1 {
        '1'
    } else if d == 2 {
        '2'
    } else if d == 3 {
        '3'
    } else if d == 4 {
        '4'
    } else if d == 5 {
        '5'
    } else if d == 6 {
        '6'
    } else if d == 7 {
        '7'
    } else if d == 8 {
        '8'
    } else {
        '9'
    }
}

fn push_decimal(n: u128, out: &mut Vec<char>)
    ensures
        final(out)@ == old(out)@ + decimal(n as nat),
    decreases n,
{
    if n >= 10 {
        push_decimal(n / 10, out);
    }
    out.push(digit_of(n % 10));
}

/// Decimal text of an unsigned number.
pub fn decimal_u128(n: u128) -> (r: String)
    ensures
        r@ == decimal(n as nat),
{
    let mut out: Vec<char> = Vec::new();
    push_decimal(n, &mut out);
    assert(out@ == Seq::<char>::empty() + decimal(n as nat));
    string_of(out.as_slice())
}

/// Decimal text of a signed number.
pub fn decimal_i128(i: i128) -> (r: String)
    ensures
        r@ == signed_decimal(i as int),
{
    let mut out: Vec<char> = Vec::new();
    if i < 0 {
        out.push('-');
        let m: u128 = if i == i128::MIN {
            170141183460469231731687303715884105728u128
        } else {
            (-i) as u128
        };
        push_decimal(m, &mut out);
    } else {
        push_decimal(i as u128, &mut out);
    }
    string_of(out.as_slice())
}

// ---------------------------------------------------------------------
// Integer grammar of `from_str` for Rust's integer types
// ---------------------------------------------------------------------
pub open spec fn all_digits(s: Seq<char>) -> bool {
    forall|i: int| 0 <= i < s.len() ==> is_digit(#[trigger] s[i])
}

/// The number that a string of decimal digits denotes.
pub open spec fn digits_value(s: Seq<char>) -> nat
    decreases s.len(),
{
    if s.len() == 0 {
        0
    } else {
        digits_value(s.drop_last()) * 10 + digit_value(s.last())
    }
}

/// What an unsigned integer's `from_str` reads from `s`, before the range
/// check: an optional `+` followed by at least one decimal digit.
pub open spec fn unsigned_text(s: Seq<char>) -> Option<nat> {
    let body = if s.len() > 0 && s[0] == '+' {
        s.drop_first()
    } else {
        s
    };
    if body.len() > 0 && all_digits(body) {
        Some(digits_value(body))
    } else {
        None
    }
}

/// What a signed integer's `from_str` reads from `s`, before the range
/// check: an optional `+` or `-` followed by at least one decimal digit.
pub open spec fn signed_text(s: Seq<char>) -> Option<int> {
    if s.len() > 0 && s[0] == '-' {
        let body = s.drop_first();
        if body.len() > 0 && all_digits(body) {
            Some(-(digits_value(body) as int))
        } else {
            None
        }
    } else {
        match unsigned_text(s) {
            Some(n) => Some(n as int),
            None => None,
        }
    }
}

/// Law: the decimal text of a natural number is a non-empty run of
/// digits, without a leading zero unless the number is zero, and reads
/// back as the number.
pub proof fn law_decimal_reads_back(n: nat)
    ensures
        decimal(n).len() > 0,
        all_digits(decimal(n)),
        digits_value(decimal(n)) == n,
        decimal(n)[0] == '0' ==> n == 0,
    decreases n,
{
    if n < 10 {
        let c = digit_char(n);
        assert(seq![c].drop_last() == Seq::<char>::empty());
        assert(digits_value(Seq::<char>::empty()) == 0);
        assert(digit_value(c) == n);
        assert(digits_value(seq![c]) == digits_value(Seq::<char>::empty()) * 10 + digit_value(c));
    } else {
        law_decimal_reads_back(n / 10);
        let d = decimal(n / 10);
        let c = digit_char(n % 10);
        assert(d.push(c).drop_last() == d);
        assert(digit_value(c) == n % 10);
        assert(is_digit(c));
        assert(d.push(c)[0] == d[0]);
        assert(digits_value(d.push(c)) == digits_value(d) * 10 + digit_value(c));
        assert((n / 10) * 10 + n % 10 == n) by (nonlinear_arith);
    }
}

/// Law: the decimal text of an integer reads back as the integer.
pub proof fn law_signed_decimal_reads_back(i: int)
    ensures
        signed_text(signed_decimal(i)) == Some(i),
{
    if i < 0 {
        let m = (-i) as nat;
        law_decimal_reads_back(m);
        assert((seq!['-'] + decimal(m)).drop_first() == decimal(m));
    } else {
        law_decimal_reads_back(i as nat);
        assert(is_digit(decimal(i as nat)[0]));
    }
}


proof fn lemma_digits_value_step(s: Seq<char>, i: int)
    requires
        0 <= i < s.len(),
    ensures
        digits_value(s.take(i + 1)) == digits_value(s.take(i)) * 10 + digit_value(s[i]),
{
    assert(s.take(i + 1).drop_last() == s.take(i));
}

proof fn lemma_digits_value_mono(s: Seq<char>, i: int)
    requires
        0 <= i <= s.len(),
    ensures
        digits_value(s.take(i)) <= digits_value(s),
    decreases s.len() - i,
{
    if i < s.len() {
        lemma_digits_value_step(s, i);
        lemma_digits_value_mono(s, i + 1);
    } else {
        assert(s.take(i) == s);
    }
}

/// Reads the decimal digits `s[start..]` as a number no larger than
/// `limit`; `None` when a character is not a digit, the run is empty,
/// or the number exceeds `limit`.
fn read_digits(s: &[char], start: usize, limit: u128) -> (r: Option<u128>)
    requires
        start <= s.len(),
        limit <= u64::MAX as u128 + 1,
    ensures
        ({
            let body = s@.skip(start as int);
            match r {
                Some(v) => body.len() > 0 && all_digits(body) && v == digits_value(body) && v
                    <= limit,
                None => !(body.len() > 0 && all_digits(body) && digits_value(body) <= limit),
            }
        }),
{
    let ghost body = s@.skip(start as int);
    if start == s.len() {
        return None;
    }
    let mut acc: u128 = 0;
    let mut i: usize = start;
    while i < s.len()
        invariant
            start <= i <= s.len(),
            body == s@.skip(start as int),
            limit <= u64::MAX as u128 + 1,
            acc <= limit,
            acc == digits_value(body.take(i - start)),
            all_digits(body.take(i - start)),
        decreases s.len() - i,
    {
        let c = s[i];
        if !('0' <= c && c <= '9') {
            proof {
                assert(body[i - start] == c);
            }
            return None;
        }
        let d: u128 = ((c as u32) - ('0' as u32)) as u128;
        proof {
            lemma_digits_value_step(body, i - start);
            assert(body[i - start] == c);
            assert(body.take(i - start + 1) == body.take(i - start).push(c));
        }
        acc = acc * 10 + d;
        if acc > limit {
            proof {
                lemma_digits_value_mono(body, i - start + 1);
            }
            return None;
        }
        i = i + 1;
    }
    proof {
        assert(body.take(i - start) == body);
    }
    Some(acc)
}

/// `usize::from_str` on a sequence of characters.
pub fn parse_usize(s: &[char]) -> (r: Option<usize>)
    ensures
        match r {
            Some(v) => unsigned_text(s@) == Some(v as nat),
            None => !(unsigned_text(s@) matches Some(n) && n <= usize::MAX),
        },
{
    let start: usize = if s.len() > 0 && s[0] == '+' {
        1
    } else {
        0
    };
    assert(s@.skip(start as int) == (if s@.len() > 0 && s@[0] == '+' {
        s@.drop_first()
    } else {
        s@
    }));
    match read_digits(s, start, usize::MAX as u128) {
        Some(v) => Some(v as usize),
        None => None,
    }
}

/// `i64::from_str` on a sequence of characters.
pub fn parse_i64(s: &[char]) -> (r: Option<i64>)
    ensures
        match r {
            Some(v) => signed_text(s@) == Some(v as int),
            None => !(signed_text(s@) matches Some(n) && i64::MIN <= n <= i64::MAX),
        },
{
    if s.len() > 0 && s[0] == '-' {
        assert(s@.skip(1) == s@.drop_first());
        match read_digits(s, 1, 9223372036854775808u128) {
            Some(v) => {
                if v == 9223372036854775808u128 {
                    Some(i64::MIN)
                } else {
                    Some(-(v as i64))
                }
            },
            None => None,
        }
    } else {
        let start: usize = if s.len() > 0 && s[0] == '+' {
            1
        } else {
            0
        };
        assert(s@.skip(start as int) == (if s@.len() > 0 && s@[0] == '+' {
            s@.drop_first()
        } else {
            s@
        }));
        match read_digits(s, start, i64::MAX as u128) {
            Some(v) => Some(v as i64),
            None => None,
        }
    }
}

// ---------------------------------------------------------------------
// Float grammar of `f64::from_str`
// ---------------------------------------------------------------------
pub open spec fn ascii_lower(c: char) -> char {
    if 'A' <= c && c <= 'Z' {
        ((c as u32) + 32) as char
    } else {
        c
    }
}

/// Number of leading characters of `s` that are digits.
pub open spec fn digit_run(s: Seq<char>) -> nat
    decreases s.len(),
{
    if s.len() > 0 && is_digit(s[0]) {
        1 + digit_run(s.drop_first())
    } else {
        0
    }
}

/// Number of leading characters of `s` that are digits or dots.
pub open spec fn mantissa_run(s: Seq<char>) -> nat
    decreases s.len(),
{
    if s.len() > 0 && (is_digit(s[0]) || s[0] == '.') {
        1 + mantissa_run(s.drop_first())
    } else {
        0
    }
}

/// `Digit+ | Digit+ '.' Digit* | Digit* '.' Digit+`
pub open spec fn mantissa_ok(m: Seq<char>) -> bool {
    let j = digit_run(m);
    if j == m.len() {
        j > 0
    } else {
        m[j as int] == '.' && all_digits(m.skip((j + 1) as int)) && (j > 0 || m.len() > j + 1)
    }
}

/// `'e' Sign? Digit+`, with the `e` in either case.
pub open spec fn exponent_ok(e: Seq<char>) -> bool {
    e.len() > 0 && ascii_lower(e[0]) == 'e' && {
        let rest = e.drop_first();
        let digits = if rest.len() > 0 && (rest[0] == '+' || rest[0] == '-') {
            rest.drop_first()
        } else {
            rest
        };
        digits.len() > 0 && all_digits(digits)
    }
}

pub open spec fn is_special_float(b: Seq<char>) -> bool {
    let l = b.map_values(|c: char| ascii_lower(c));
    l == seq!['i', 'n', 'f'] || l == seq!['i', 'n', 'f', 'i', 'n', 'i', 't', 'y'] || l == seq![
        'n',
        'a',
        'n',
    ]
}

/// The grammar that `f64::from_str` accepts, as its documentation states
/// it: `Sign? ('inf' | 'infinity' | 'nan' | Number)`, where
/// `Number ::= (Digit+ | Digit+ '.' Digit* | Digit* '.' Digit+) Exp?`,
/// letters compared without regard to case.
pub open spec fn is_float_text(s: Seq<char>) -> bool {
    let b = if s.len() > 0 && (s[0] == '+' || s[0] == '-') {
        s.drop_first()
    } else {
        s
    };
    is_special_float(b) || {
        let k = mantissa_run(b);
        mantissa_ok(b.take(k as int)) && (k == b.len() || exponent_ok(b.skip(k as int)))
    }
}

proof fn lemma_run_prefix(s: Seq<char>, i: int, dots: bool)
    requires
        0 <= i <= s.len(),
        forall|j: int| 0 <= j < i ==> (is_digit(#[trigger] s[j]) || (dots && s[j] == '.')),
        i == s.len() || !(is_digit(s[i]) || (dots && s[i] == '.')),
    ensures
        dots ==> mantissa_run(s) == i,
        !dots ==> digit_run(s) == i,
    decreases i,
{
    if i > 0 {
        lemma_run_prefix(s.drop_first(), i - 1, dots);
    }
}

/// Length of the leading run of digits (and dots, when `dots`) in `s[start..]`.
fn run_len(s: &[char], start: usize, dots: bool) -> (r: usize)
    requires
        start <= s.len(),
    ensures
        start + r <= s.len(),
        dots ==> r == mantissa_run(s@.skip(start as int)),
        !dots ==> r == digit_run(s@.skip(start as int)),
{
    let ghost t = s@.skip(start as int);
    let mut i: usize = start;
    while i < s.len() && (('0' <= s[i] && s[i] <= '9') || (dots && s[i] == '.'))
        invariant
            start <= i <= s.len(),
            t == s@.skip(start as int),
            forall|j: int| 0 <= j < i - start ==> (is_digit(#[trigger] t[j]) || (dots && t[j] == '.')),
        decreases s.len() - i,
    {
        i = i + 1;
    }
    proof {
        lemma_run_prefix(t, i - start, dots);
    }
    i - start
}

fn all_digits_from(s: &[char], start: usize, end: usize) -> (r: bool)
    requires
        start <= end <= s.len(),
    ensures
        r == all_digits(s@.subrange(start as int, end as int)),
{
    let mut i = start;
    while i < end
        invariant
            start <= i <= end,
            end <= s.len(),
            forall|j: int| start <= j < i ==> is_digit(#[trigger] s@[j]),
        decreases end - i,
    {
        if !('0' <= s[i] && s[i] <= '9') {
            assert(s@.subrange(start as int, end as int)[i - start] == s@[i as int]);
            return false;
        }
        i = i + 1;
    }
    assert forall|j: int| 0 <= j < end - start implies is_digit(
        #[trigger] s@.subrange(start as int, end as int)[j],
    ) by {
        assert(s@.subrange(start as int, end as int)[j] == s@[start + j]);
    }
    true
}

fn lower_ascii_char(c: char) -> (r: char)
    ensures
        r == ascii_lower(c),
{
    if 'A' <= c && c <= 'Z' {
        ((c as u8) + 32) as char
    } else {
        c
    }
}

/// Whether `s[start..]`, lowercased, spells `word`.
fn equals_word_lower(s: &[char], start: usize, word: &[char]) -> (r: bool)
    requires
        start <= s.len(),
    ensures
        r == (s@.skip(start as int).map_values(|c: char| ascii_lower(c)) == word@),
{
    let ghost l = s@.skip(start as int).map_values(|c: char| ascii_lower(c));
    if s.len() - start != word.len() {
        return false;
    }
    let mut i: usize = 0;
    while i < word.len()
        invariant
            i <= word.len(),
            s.len() - start == word.len(),
            l == s@.skip(start as int).map_values(|c: char| ascii_lower(c)),
            forall|j: int| 0 <= j < i ==> l[j] == word@[j],
        decreases word.len() - i,
    {
        if lower_ascii_char(s[start + i]) != word[i] {
            return false;
        }
        i = i + 1;
    }
    assert(l =~= word@);
    true
}

/// Whether `f64::from_str` accepts the characters `s`.
#[verifier::rlimit(40)]
pub fn float_text_ok(s: &[char]) -> (r: bool)
    ensures
        r == is_float_text(s@),
{
    let start: usize = if s.len() > 0 && (s[0] == '+' || s[0] == '-') {
        1
    } else {
        0
    };
    let ghost b = s@.skip(start as int);
    assert(b == (if s@.len() > 0 && (s@[0] == '+' || s@[0] == '-') {
        s@.drop_first()
    } else {
        s@
    }));
    let inf = ['i', 'n', 'f'];
    let infinity = ['i', 'n', 'f', 'i', 'n', 'i', 't', 'y'];
    let nan = ['n', 'a', 'n'];
    let special = equals_word_lower(s, start, &inf) || equals_word_lower(s, start, &infinity)
        || equals_word_lower(s, start, &nan);
    assert(inf@ == seq!['i', 'n', 'f']);
    assert(infinity@ == seq!['i', 'n', 'f', 'i', 'n', 'i', 't', 'y']);
    assert(nan@ == seq!['n', 'a', 'n']);
    if special {
        return true;
    }
    // mantissa
    let k = run_len(s, start, true);
    let ghost m = b.take(k as int);
    let j = run_len(s, start, false);
    proof {
        // the digit run of the mantissa equals the digit run of b
        let jj = digit_run(b);
        lemma_digit_run_bound(b);
        lemma_mantissa_run_props(b);
        lemma_digit_run_le_mantissa_run(b);
        lemma_digit_run_take(b, k as int);
    }
    let mant_ok = if j == k {
        j > 0
    } else {
        s[start + j] == '.' && all_digits_from(s, start + j + 1, start + k) && (j > 0 || k > j
            + 1)
    };
    proof {
        if j != k {
            assert(m[j as int] == s@[start + j]);
            assert(m.skip(j + 1) == s@.subrange(start + j + 1, start + k));
        }
    }
    if !mant_ok {
        return false;
    }
    if start + k == s.len() {
        return true;
    }
    // exponent
    let e0 = start + k;
    assert(b.skip(k as int)[0] == s@[e0 as int]);
    if lower_ascii_char(s[e0]) != 'e' {
        return false;
    }
    let mut d = e0 + 1;
    if d < s.len() && (s[d] == '+' || s[d] == '-') {
        d = d + 1;
    }
    let ok = d < s.len() && all_digits_from(s, d, s.len());
    proof {
        let e = b.skip(k as int);
        let rest = e.drop_first();
        assert(rest == s@.skip(e0 + 1));
        let digits = if rest.len() > 0 && (rest[0] == '+' || rest[0] == '-') {
            rest.drop_first()
        } else {
            rest
        };
        assert(digits == s@.subrange(d as int, s@.len() as int));
    }
    ok
}

proof fn lemma_digit_run_bound(s: Seq<char>)
    ensures
        digit_run(s) <= s.len(),
        forall|i: int| 0 <= i < digit_run(s) ==> is_digit(#[trigger] s[i]),
        digit_run(s) < s.len() ==> !is_digit(s[digit_run(s) as int]),
    decreases s.len(),
{
    if s.len() > 0 && is_digit(s[0]) {
        lemma_digit_run_bound(s.drop_first());
        assert forall|i: int| 0 <= i < digit_run(s) implies is_digit(#[trigger] s[i]) by {
            if i > 0 {
                assert(s[i] == s.drop_first()[i - 1]);
            }
        }
    }
}

proof fn lemma_mantissa_run_props(s: Seq<char>)
    ensures
        mantissa_run(s) <= s.len(),
        forall|i: int| 0 <= i < mantissa_run(s) ==> (is_digit(#[trigger] s[i]) || s[i] == '.'),
    decreases s.len(),
{
    if s.len() > 0 && (is_digit(s[0]) || s[0] == '.') {
        lemma_mantissa_run_props(s.drop_first());
        assert forall|i: int| 0 <= i < mantissa_run(s) implies (is_digit(#[trigger] s[i]) || s[i]
            == '.') by {
            if i > 0 {
                assert(s[i] == s.drop_first()[i - 1]);
            }
        }
    }
}

proof fn lemma_digit_run_le_mantissa_run(s: Seq<char>)
    ensures
        digit_run(s) <= mantissa_run(s),
    decreases s.len(),
{
    if s.len() > 0 && is_digit(s[0]) {
        lemma_digit_run_le_mantissa_run(s.drop_first());
    }
}

proof fn lemma_digit_run_take(s: Seq<char>, k: int)
    requires
        digit_run(s) <= k <= s.len(),
    ensures
        digit_run(s.take(k)) == digit_run(s),
    decreases s.len(),
{
    if s.len() > 0 && is_digit(s[0]) {
        assert(s.take(k).drop_first() == s.drop_first().take(k - 1));
        lemma_digit_run_take(s.drop_first(), k - 1);
    } else if k > 0 {
        assert(s.take(k)[0] == s[0]);
    }
}

// ---------------------------------------------------------------------
// Substrings
// ---------------------------------------------------------------------
pub open spec fn starts_with(s: Seq<char>, p: Seq<char>) -> bool {
    p.len() <= s.len() && s.take(p.len() as int) == p
}

/// Whether `s[at..]` starts with `p`.
pub fn starts_with_at(s: &[char], at: usize, p: &[char]) -> (r: bool)
    requires
        at <= s.len(),
    ensures
        r == starts_with(s@.skip(at as int), p@),
{
    if s.len() - at < p.len() {
        return false;
    }
    let mut i: usize = 0;
    while i < p.len()
        invariant
            i <= p.len(),
            at + p.len() <= s.len(),
            forall|j: int| 0 <= j < i ==> s@[at + j] == p@[j],
        decreases p.len() - i,
    {
        if s[at + i] != p[i] {
            assert(s@.skip(at as int).take(p@.len() as int)[i as int] == s@[at + i]);
            return false;
        }
        i = i + 1;
    }
    assert(s@.skip(at as int).take(p@.len() as int) =~= p@);
    true
}

/// `str::replace` with a non-empty pattern: every non-overlapping
/// occurrence of `p`, scanning left to right, is replaced by `r`.
pub open spec fn replace_all(s: Seq<char>, p: Seq<char>, r: Seq<char>) -> Seq<char>
    decreases s.len(),
{
    if p.len() == 0 || s.len() == 0 {
        s
    } else if starts_with(s, p) {
        r + replace_all(s.skip(p.len() as int), p, r)
    } else {
        seq![s[0]] + replace_all(s.drop_first(), p, r)
    }
}

/// Law: where `p` occurs nowhere in `s`, replacing it changes nothing.
pub proof fn law_replace_all_absent(s: Seq<char>, p: Seq<char>, r: Seq<char>)
    requires
        forall|i: int| 0 <= i < s.len() ==> !starts_with(#[trigger] s.skip(i), p),
    ensures
        replace_all(s, p, r) == s,
    decreases s.len(),
{
    if p.len() > 0 && s.len() > 0 {
        assert(s.skip(0) == s);
        let t = s.drop_first();
        assert forall|i: int| 0 <= i < t.len() implies !starts_with(#[trigger] t.skip(i), p) by {
            assert(t.skip(i) == s.skip(i + 1));
        }
        law_replace_all_absent(t, p, r);
        assert(seq![s[0]] + t == s);
    }
}

/// Law: an occurrence of a non-empty `p` after a stretch `a` in which no
/// occurrence begins is replaced by `r`, `a` is kept as it is, and the
/// replacing goes on after the occurrence.
pub proof fn law_replace_all_split(a: Seq<char>, p: Seq<char>, t: Seq<char>, r: Seq<char>)
    requires
        p.len() > 0,
        forall|i: int| 0 <= i < a.len() ==> !starts_with(#[trigger] (a + p + t).skip(i), p),
    ensures
        replace_all(a + p + t, p, r) == a + r + replace_all(t, p, r),
    decreases a.len(),
{
    let s = a + p + t;
    if a.len() == 0 {
        assert(s == p + t);
        assert(s.take(p.len() as int) == p);
        assert(s.skip(p.len() as int) == t);
        assert(a + r == r);
    } else {
        assert(s.skip(0) == s);
        assert(!starts_with(s, p));
        let a2 = a.drop_first();
        assert(s.drop_first() == a2 + p + t);
        assert forall|i: int| 0 <= i < a2.len() implies !starts_with(#[trigger] (a2 + p + t).skip(i), p) by {
            assert((a2 + p + t).skip(i) == s.skip(i + 1));
        }
        law_replace_all_split(a2, p, t, r);
        assert(seq![a[0]] + (a2 + r + replace_all(t, p, r)) == a + r + replace_all(t, p, r));
    }
}

/// Replaces every non-overlapping occurrence of `p` in `s` by `r`.
pub fn replace_chars(s: &[char], p: &[char], r: &[char]) -> (out: Vec<char>)
    requires
        p.len() > 0,
    ensures
        out@ == replace_all(s@, p@, r@),
{
    let mut out: Vec<char> = Vec::new();
    let mut i: usize = 0;
    assert(s@.skip(0) == s@);
    assert(out@ + replace_all(s@, p@, r@) == replace_all(s@, p@, r@));
    while i < s.len()
        invariant
            i <= s.len(),
            p@.len() > 0,
            out@ + replace_all(s@.skip(i as int), p@, r@) == replace_all(s@, p@, r@),
        decreases s.len() - i,
    {
        let ghost rest = s@.skip(i as int);
        let ghost before = out@;
        if starts_with_at(s, i, p) {
            let mut j: usize = 0;
            while j < r.len()
                invariant
                    j <= r.len(),
                    out@ == before + r@.take(j as int),
                decreases r.len() - j,
            {
                out.push(r[j]);
                assert(r@.take(j + 1) == r@.take(j as int).push(r@[j as int]));
                j = j + 1;
            }
            assert(r@.take(r@.len() as int) == r@);
            assert(rest.skip(p@.len() as int) == s@.skip(i + p@.len()));
            assert(before + (r@ + replace_all(s@.skip(i + p@.len()), p@, r@)) == (before + r@)
                + replace_all(s@.skip(i + p@.len()), p@, r@));
            i = i + p.len();
        } else {
            out.push(s[i]);
            assert(rest.drop_first() == s@.skip(i + 1));
            assert(before + (seq![s@[i as int]] + replace_all(s@.skip(i + 1), p@, r@)) == before.push(
                s@[i as int],
            ) + replace_all(s@.skip(i + 1), p@, r@));
            i = i + 1;
        }
    }
    assert(s@.skip(s@.len() as int) == Seq::<char>::empty());
    out
}

} // verus!
