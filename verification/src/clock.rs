//! Clock texts: `HH:MM` parsing, decimal and zero-padded rendering, durations.

use vstd::prelude::*;
use vstd::string::*;

verus! {

pub open spec fn is_digit(c: char) -> bool {
    '0' <= c && c <= '9'
}

pub open spec fn digit_value(c: char) -> nat {
    ((c as int) - ('0' as int)) as nat
}

pub open spec fn digit_char(d: int) -> char {
    (('0' as int) + d) as char
}

/// Decimal value of a run of digits.
pub open spec fn digits_value(s: Seq<char>) -> nat
    decreases s.len(),
{
    if s.len() == 0 {
        0
    } else {
        digits_value(s.drop_last()) * 10 + digit_value(s.last())
    }
}

/// A number field: one to nine decimal digits.
pub open spec fn is_number_field(s: Seq<char>) -> bool {
    &&& 1 <= s.len() <= 9
    &&& forall|i: int| 0 <= i < s.len() ==> is_digit(#[trigger] s[i])
}

/// How many `:` the text holds.
pub open spec fn colon_count(s: Seq<char>) -> nat
    decreases s.len(),
{
    if s.len() == 0 {
        0
    } else {
        colon_count(s.drop_last()) + if s.last() == ':' { 1nat } else { 0nat }
    }
}

/// Index of the first `:`, or the length when there is none.
pub open spec fn first_colon(s: Seq<char>) -> int
    decreases s.len(),
{
    if s.len() == 0 {
        0
    } else if s[0] == ':' {
        0
    } else {
        1 + first_colon(s.drop_first())
    }
}

/// Hours and minutes of an `H:M` text made of exactly two number fields.
pub open spec fn hm_parts(s: Seq<char>) -> Option<(nat, nat)> {
    if colon_count(s) == 1 {
        let i = first_colon(s);
        let a = s.subrange(0, i);
        let b = s.subrange(i + 1, s.len() as int);
        if is_number_field(a) && is_number_field(b) {
            Some((digits_value(a), digits_value(b)))
        } else {
            None
        }
    } else {
        None
    }
}

/// Index of the first `.`, or the length when there is none.
pub open spec fn first_dot(s: Seq<char>) -> int
    decreases s.len(),
{
    if s.len() == 0 {
        0
    } else if s[0] == '.' {
        0
    } else {
        1 + first_dot(s.drop_first())
    }
}

/// The digits before the decimal point of a field.
pub open spec fn int_digits(s: Seq<char>) -> Seq<char> {
    s.subrange(0, first_dot(s))
}

/// The digits after the decimal point of a field (none without a point).
pub open spec fn frac_digits(s: Seq<char>) -> Seq<char> {
    if first_dot(s) < s.len() {
        s.subrange(first_dot(s) + 1, s.len() as int)
    } else {
        Seq::empty()
    }
}

/// A decimal field: up to nine digits, then optionally a point and up to nine more
/// digits, at least one digit in all (`18`, `18.5`, `.5`, `18.`).
pub open spec fn is_decimal_field(s: Seq<char>) -> bool {
    &&& int_digits(s).len() <= 9
    &&& frac_digits(s).len() <= 9
    &&& int_digits(s).len() + frac_digits(s).len() >= 1
    &&& forall|i: int| 0 <= i < int_digits(s).len() ==> is_digit(#[trigger] int_digits(s)[i])
    &&& forall|i: int| 0 <= i < frac_digits(s).len() ==> is_digit(#[trigger] frac_digits(s)[i])
}

/// Value of a decimal field in seconds, with `unit` seconds to one: the whole part exact,
/// the fraction rounded down to a whole second.
pub open spec fn decimal_secs(s: Seq<char>, unit: nat) -> nat {
    digits_value(int_digits(s)) * unit + digits_value(frac_digits(s)) * unit / pow10(frac_digits(s).len())
}

/// Seconds of an `H:M` text whose hours and minutes are decimal fields (`18:30`,
/// `18.5:00`, `9:30.5`).
pub open spec fn hm_secs(s: Seq<char>) -> Option<int> {
    if colon_count(s) == 1 {
        let i = first_colon(s);
        let a = s.subrange(0, i);
        let b = s.subrange(i + 1, s.len() as int);
        if is_decimal_field(a) && is_decimal_field(b) {
            Some((decimal_secs(a, 3600) + decimal_secs(b, 60)) as int)
        } else {
            None
        }
    } else {
        None
    }
}

/// Seconds of a schedule text: `H:M`, else a bare (decimal) hour count, else zero.
pub open spec fn schedule_secs(s: Seq<char>) -> int {
    match hm_secs(s) {
        Some(x) => x,
        None => if is_decimal_field(s) { decimal_secs(s, 3600) as int } else { 0 },
    }
}

/// Decimal rendering of a natural number.
pub open spec fn decimal(n: nat) -> Seq<char>
    decreases n,
{
    if n < 10 {
        seq![digit_char(n as int)]
    } else {
        decimal(n / 10) + seq![digit_char((n % 10) as int)]
    }
}

/// Decimal rendering padded with a leading zero to at least two digits.
pub open spec fn pad2(n: nat) -> Seq<char> {
    if n < 10 {
        seq!['0'] + decimal(n)
    } else {
        decimal(n)
    }
}

/// `HH:MM` of an offset in seconds: whole hours, then minutes rounded half up.
pub open spec fn hm_text(secs: nat) -> Seq<char> {
    pad2(secs / 3600) + seq![':'] + pad2(((secs % 3600) + 30) / 60)
}

/// Duration as hours, minutes and seconds, leading zero units left out.
pub open spec fn hms_text(secs: nat) -> Seq<char> {
    let h = secs / 3600;
    let m = (secs % 3600) / 60;
    let s = secs % 60;
    if h > 0 {
        decimal(h) + seq!['小', '时'] + decimal(m) + seq!['分'] + decimal(s) + seq!['秒']
    } else if m > 0 {
        decimal(m) + seq!['分'] + decimal(s) + seq!['秒']
    } else {
        decimal(s) + seq!['秒']
    }
}

/// Duration as hours and minutes, the hour unit left out when zero.
pub open spec fn hm_duration_text(secs: nat) -> Seq<char> {
    let h = secs / 3600;
    let m = (secs % 3600) / 60;
    if h > 0 {
        decimal(h) + seq!['小', '时'] + decimal(m) + seq!['分']
    } else {
        decimal(m) + seq!['分']
    }
}

/// std `String::push`.
#[verifier::external_body]
pub(crate) fn push_char(s: &mut String, c: char)
    ensures
        final(s)@ == old(s)@.push(c),
{
    s.push(c);
}

/// An empty string.
pub fn new_string() -> (r: String)
    ensures
        r@ == Seq::<char>::empty(),
{
    String::new()
}

/// Appends every character of `cs`.
pub fn push_chars(s: &mut String, cs: &[char])
    ensures
        final(s)@ == old(s)@ + cs@,
{
    let mut i: usize = 0;
    while i < cs.len()
        invariant
            i <= cs@.len(),
            s@ == old(s)@ + cs@.subrange(0, i as int),
        decreases cs@.len() - i,
    {
        push_char(s, cs[i]);
        proof {
            assert(cs@.subrange(0, i + 1) == cs@.subrange(0, i as int).push(cs@[i as int]));
        }
        i += 1;
    }
    proof {
        assert(cs@.subrange(0, cs@.len() as int) == cs@);
    }
}

/// The characters of a text, in order.
pub fn chars_of(s: &str) -> (v: Vec<char>)
    ensures
        v@ == s@,
{
    let n = s.unicode_len();
    let mut v: Vec<char> = Vec::new();
    let mut i: usize = 0;
    while i < n
        invariant
            n == s@.len(),
            i <= n,
            v@ == s@.subrange(0, i as int),
        decreases n - i,
    {
        v.push(s.get_char(i));
        proof {
            assert(s@.subrange(0, i + 1) == s@.subrange(0, i as int).push(s@[i as int]));
        }
        i += 1;
    }
    proof {
        assert(s@.subrange(0, n as int) == s@);
    }
    v
}

/// The character of a decimal digit.
pub fn digit_to_char(d: u64) -> (c: char)
    requires
        d < 10,
    ensures
        c == digit_char(d as int),
{
    if d == 0 {
        '0'
    } else if d == 1 {
        '1'
    } else if d == 2 {
        '2'
    } else if d == 3 {
        '3'
    } else if d == 4 {
        '4'
    } else if d == 5 {
        '5'
    } else if d == 6 {
        '6'
    } else if d == 7 {
        '7'
    } else if d == 8 {
        '8'
    } else {
        '9'
    }
}

/// Appends the decimal rendering of `n`.
pub fn push_decimal(s: &mut String, n: u64)
    ensures
        final(s)@ == old(s)@ + decimal(n as nat),
    decreases n,
{
    if n >= 10 {
        push_decimal(s, n / 10);
    }
    let c = digit_to_char(n % 10);
    push_char(s, c);
    proof {
        if n >= 10 {
            assert(decimal(n as nat) == decimal((n / 10) as nat) + seq![digit_char((n % 10) as int)]);
        }
    }
}

/// Appends `n` padded to at least two digits.
pub fn push_pad2(s: &mut String, n: u64)
    ensures
        final(s)@ == old(s)@ + pad2(n as nat),
{
    if n < 10 {
        push_char(s, '0');
    }
    push_decimal(s, n);
}

/// Decimal rendering of `n`.
pub fn decimal_string(n: u64) -> (r: String)
    ensures
        r@ == decimal(n as nat),
{
    let mut s = new_string();
    push_decimal(&mut s, n);
    s
}

/// Value of the digits `v[from..to]`, when they form a number field.
pub fn parse_number_field(v: &Vec<char>, from: usize, to: usize) -> (r: Option<u64>)
    requires
        from <= to <= v@.len(),
    ensures
        r is Some <==> is_number_field(v@.subrange(from as int, to as int)),
        r matches Some(x) ==> x as nat == digits_value(v@.subrange(from as int, to as int)) && x
            < 1_000_000_000,
{
    let ghost field = v@.subrange(from as int, to as int);
    if to == from || to - from > 9 {
        return None;
    }
    let mut i = from;
    let mut acc: u64 = 0;
    while i < to
        invariant
            from <= i <= to <= v@.len(),
            to - from <= 9,
            field == v@.subrange(from as int, to as int),
            forall|k: int| from <= k < i ==> is_digit(#[trigger] v@[k]),
            acc == digits_value(v@.subrange(from as int, i as int)),
            acc < pow10((i - from) as nat),
        decreases to - i,
    {
        let c = v[i];
        if !('0' <= c && c <= '9') {
            proof {
                assert(!is_digit(field[i - from]));
            }
            return None;
        }
        let d = (c as u64) - ('0' as u64);
        proof {
            let pre = v@.subrange(from as int, i as int);
            let post = v@.subrange(from as int, i + 1);
            assert(post.drop_last() == pre);
            assert(post.last() == c);
            lemma_pow10_step((i - from) as nat);
            assert(acc * 10 + d < pow10((i + 1 - from) as nat)) by (nonlinear_arith)
                requires
                    acc < pow10((i - from) as nat),
                    d < 10,
                    pow10((i + 1 - from) as nat) == 10 * pow10((i - from) as nat),
            ;
            lemma_pow10_le9((i + 1 - from) as nat);
        }
        acc = acc * 10 + d;
        i += 1;
    }
    proof {
        assert forall|k: int| 0 <= k < field.len() implies is_digit(#[trigger] field[k]) by {
            assert(field[k] == v@[from + k]);
        }
        lemma_pow10_le9((to - from) as nat);
    }
    Some(acc)
}

pub open spec fn pow10(n: nat) -> nat
    decreases n,
{
    if n == 0 {
        1
    } else {
        10 * pow10((n - 1) as nat)
    }
}

proof fn lemma_pow10_step(n: nat)
    ensures
        pow10(n + 1) == 10 * pow10(n),
{
}

proof fn lemma_pow10_le9(n: nat)
    requires
        n <= 9,
    ensures
        pow10(n) <= 1_000_000_000,
{
    reveal_with_fuel(pow10, 10);
}

/// Position of the first `:` and how many there are in `v`.
fn scan_colons(v: &Vec<char>) -> (r: (usize, usize))
    ensures
        r.0 as int == first_colon(v@),
        r.1 as int == colon_count(v@),
{
    let mut i: usize = 0;
    let mut first: usize = v.len();
    let mut count: usize = 0;
    proof {
        lemma_first_colon_bounds(v@);
        assert(v@.subrange(0, 0) == Seq::<char>::empty());
    }
    while i < v.len()
        invariant
            i <= v@.len(),
            count as int == colon_count(v@.subrange(0, i as int)),
            count <= i,
            first as int == (if first_colon(v@) < i { first_colon(v@) } else { v@.len() as int }),
        decreases v@.len() - i,
    {
        proof {
            lemma_first_colon_bounds(v@);
            lemma_first_colon_at(v@, i as int);
            assert(v@.subrange(0, i + 1).drop_last() == v@.subrange(0, i as int));
        }
        if v[i] == ':' {
            if first == v.len() {
                first = i;
            }
            count += 1;
        }
        i += 1;
    }
    proof {
        lemma_first_colon_bounds(v@);
        assert(v@.subrange(0, v@.len() as int) == v@);
    }
    (first, count)
}

proof fn lemma_first_colon_bounds(s: Seq<char>)
    ensures
        0 <= first_colon(s) <= s.len(),
        first_colon(s) < s.len() ==> s[first_colon(s)] == ':',
        forall|k: int| 0 <= k < first_colon(s) ==> s[k] != ':',
    decreases s.len(),
{
    if s.len() > 0 && s[0] != ':' {
        lemma_first_colon_bounds(s.drop_first());
        assert forall|k: int| 0 <= k < first_colon(s) implies s[k] != ':' by {
            if k > 0 {
                assert(s[k] == s.drop_first()[k - 1]);
            }
        }
    }
}

proof fn lemma_first_colon_at(s: Seq<char>, i: int)
    requires
        0 <= i < s.len(),
    ensures
        first_colon(s) >= i ==> (first_colon(s) == i <==> s[i] == ':'),
{
    lemma_first_colon_bounds(s);
}

/// Hours and minutes of an `H:M` text (each one to nine digits).
pub fn parse_hm_parts(s: &str) -> (r: Option<(u64, u64)>)
    ensures
        r matches Some(p) ==> hm_parts(s@) == Some((p.0 as nat, p.1 as nat)) && p.0 < 1_000_000_000
            && p.1 < 1_000_000_000,
        r is None ==> hm_parts(s@) is None,
{
    let v = chars_of(s);
    let (first, count) = scan_colons(&v);
    if count != 1 {
        return None;
    }
    proof {
        lemma_first_colon_bounds(v@);
        if first_colon(v@) == v@.len() {
            lemma_colon_free(v@);
        }
    }
    assert(first < v.len());
    let h = parse_number_field(&v, 0, first);
    let m = parse_number_field(&v, first + 1, v.len());
    proof {
        assert(v@ == s@);
        assert(colon_count(s@) == 1);
        assert(first_colon(s@) == first as int);
    }
    match (h, m) {
        (Some(h), Some(m)) => {
            assert(is_number_field(s@.subrange(0, first as int)));
            assert(is_number_field(s@.subrange(first + 1, s@.len() as int)));
            Some((h, m))
        },
        _ => None,
    }
}

/// The characters `v[from..to]`.
fn sub_chars(v: &Vec<char>, from: usize, to: usize) -> (w: Vec<char>)
    requires
        from <= to <= v@.len(),
    ensures
        w@ == v@.subrange(from as int, to as int),
{
    let mut w: Vec<char> = Vec::new();
    let mut i = from;
    while i < to
        invariant
            from <= i <= to <= v@.len(),
            w@ == v@.subrange(from as int, i as int),
        decreases to - i,
    {
        w.push(v[i]);
        proof {
            assert(v@.subrange(from as int, i + 1) == v@.subrange(from as int, i as int).push(v@[i as int]));
        }
        i += 1;
    }
    w
}

proof fn lemma_first_dot_at(s: Seq<char>, i: int)
    requires
        0 <= i <= s.len(),
        forall|k: int| 0 <= k < i ==> s[k] != '.',
        i == s.len() || s[i] == '.',
    ensures
        first_dot(s) == i,
    decreases i,
{
    if i > 0 {
        let t = s.drop_first();
        assert forall|k: int| 0 <= k < i - 1 implies t[k] != '.' by {
            assert(t[k] == s[k + 1]);
        }
        if i < s.len() {
            assert(t[i - 1] == s[i]);
        }
        lemma_first_dot_at(t, i - 1);
    }
}

/// Position of the first `.` in `w`, or its length.
fn find_dot(w: &Vec<char>) -> (r: usize)
    ensures
        r as int == first_dot(w@),
        r <= w@.len(),
{
    let mut i: usize = 0;
    while i < w.len() && w[i] != '.'
        invariant
            i <= w@.len(),
            forall|k: int| 0 <= k < i ==> w@[k] != '.',
        decreases w@.len() - i,
    {
        i += 1;
    }
    proof {
        lemma_first_dot_at(w@, i as int);
    }
    i
}

/// `10^n` for `n` up to nine.
fn pow10_of(n: usize) -> (r: u64)
    requires
        n <= 9,
    ensures
        r as nat == pow10(n as nat),
        1 <= r <= 1_000_000_000,
{
    let mut r: u64 = 1;
    let mut i: usize = 0;
    while i < n
        invariant
            i <= n <= 9,
            r as nat == pow10(i as nat),
            1 <= r <= pow10(i as nat),
            pow10(i as nat) <= 1_000_000_000,
        decreases n - i,
    {
        proof {
            lemma_pow10_step(i as nat);
            lemma_pow10_le9((i + 1) as nat);
        }
        r = r * 10;
        i += 1;
    }
    r
}

/// Seconds of a decimal field with `unit` seconds to one (see `decimal_secs`).
fn parse_decimal_field(w: &Vec<char>, unit: u64) -> (r: Option<u64>)
    requires
        1 <= unit <= 3600,
    ensures
        r is Some <==> is_decimal_field(w@),
        r matches Some(x) ==> x as nat == decimal_secs(w@, unit as nat) && x <= 2_000_000_000 * unit,
{
    let n = w.len();
    let d = find_dot(w);
    let ghost a = int_digits(w@);
    let ghost b = frac_digits(w@);
    proof {
        assert(a == w@.subrange(0, d as int));
        if d < n {
            assert(b == w@.subrange(d + 1, n as int));
        } else {
            assert(b.len() == 0);
        }
    }
    let frac_len: usize = if d < n {
        n - d - 1
    } else {
        0
    };
    if d > 9 || frac_len > 9 || d + frac_len == 0 {
        return None;
    }
    let iv: u64 = if d == 0 {
        proof {
            assert(a.len() == 0);
            assert(digits_value(a) == 0);
        }
        0
    } else {
        match parse_number_field(w, 0, d) {
            Some(x) => x,
            None => {
                proof {
                    assert(!is_number_field(a));
                    assert(!(forall|i: int| 0 <= i < a.len() ==> is_digit(#[trigger] a[i])));
                }
                return None;
            },
        }
    };
    let fv: u64 = if frac_len == 0 {
        proof {
            assert(b.len() == 0);
            assert(digits_value(b) == 0);
        }
        0
    } else {
        match parse_number_field(w, d + 1, n) {
            Some(x) => x,
            None => {
                proof {
                    assert(!is_number_field(b));
                    assert(!(forall|i: int| 0 <= i < b.len() ==> is_digit(#[trigger] b[i])));
                }
                return None;
            },
        }
    };
    let p = pow10_of(frac_len);
    proof {
        assert(b.len() == frac_len);
        assert((fv * unit) / (p as int) <= fv * unit) by (nonlinear_arith)
            requires
                p >= 1,
                fv * unit >= 0,
        ;
        assert(iv * unit <= 1_000_000_000 * unit) by (nonlinear_arith)
            requires
                iv < 1_000_000_000,
        ;
        assert(fv * unit <= 1_000_000_000 * unit) by (nonlinear_arith)
            requires
                fv < 1_000_000_000,
        ;
    }
    Some(iv * unit + fv * unit / p)
}

/// Seconds of an `H:M` text whose hours and minutes are decimal fields.
pub fn parse_hm_secs(s: &str) -> (r: Option<u64>)
    ensures
        r matches Some(x) ==> hm_secs(s@) == Some(x as int) && x <= 7_400_000_000_000,
        r is None ==> hm_secs(s@) is None,
{
    let v = chars_of(s);
    let (first, count) = scan_colons(&v);
    if count != 1 {
        return None;
    }
    proof {
        lemma_first_colon_bounds(v@);
        if first_colon(v@) == v@.len() {
            lemma_colon_free(v@);
        }
    }
    assert(first < v.len());
    let a = sub_chars(&v, 0, first);
    let b = sub_chars(&v, first + 1, v.len());
    proof {
        assert(v@ == s@);
        assert(colon_count(s@) == 1);
        assert(first_colon(s@) == first as int);
    }
    match (parse_decimal_field(&a, 3600), parse_decimal_field(&b, 60)) {
        (Some(x), Some(y)) => Some(x + y),
        _ => None,
    }
}

/// A text whose first colon is at its end holds no colon at all.
proof fn lemma_colon_free(s: Seq<char>)
    requires
        first_colon(s) == s.len(),
    ensures
        colon_count(s) == 0,
    decreases s.len(),
{
    lemma_first_colon_bounds(s);
    if s.len() > 0 {
        let t = s.drop_last();
        assert forall|k: int| 0 <= k < t.len() implies t[k] != ':' by {
            assert(t[k] == s[k]);
        }
        lemma_no_colon_count(t);
    }
}

proof fn lemma_no_colon_count(s: Seq<char>)
    requires
        forall|k: int| 0 <= k < s.len() ==> s[k] != ':',
    ensures
        colon_count(s) == 0,
    decreases s.len(),
{
    if s.len() > 0 {
        let t = s.drop_last();
        assert forall|k: int| 0 <= k < t.len() implies t[k] != ':' by {
            assert(t[k] == s[k]);
        }
        lemma_no_colon_count(t);
    }
}

/// Seconds of a schedule text (`H:M`, else a bare hour count, else 0), where hours and
/// minutes may carry a decimal fraction.
pub fn schedule_secs_of(s: &str) -> (r: u64)
    ensures
        r as int == schedule_secs(s@),
        r <= 7_400_000_000_000,
{
    match parse_hm_secs(s) {
        Some(x) => x,
        None => {
            let v = chars_of(s);
            match parse_decimal_field(&v, 3600) {
                Some(x) => x,
                None => 0,
            }
        },
    }
}

/// `HH:MM` of an offset in seconds (whole hours, minutes rounded half up).
pub fn hm_string(secs: u64) -> (r: String)
    ensures
        r@ == hm_text(secs as nat),
{
    let mut s = new_string();
    push_pad2(&mut s, secs / 3600);
    push_char(&mut s, ':');
    push_pad2(&mut s, ((secs % 3600) + 30) / 60);
    s
}

/// Which of the three duration layouts a format name selects.
#[derive(Clone, Copy, Debug, PartialEq, Eq, Structural)]
pub enum DurationFormat {
    /// `hms`: hours, minutes and seconds.
    Hms,
    /// `hm`: hours and minutes.
    Hm,
    /// Anything else: decimal hours with one fraction digit.
    DecimalHours,
}

pub open spec fn duration_format_spec(s: Seq<char>) -> DurationFormat {
    if s == seq!['h', 'm', 's'] {
        DurationFormat::Hms
    } else if s == seq!['h', 'm'] {
        DurationFormat::Hm
    } else {
        DurationFormat::DecimalHours
    }
}

/// The layout a format name selects.
pub fn duration_format_of(fmt: &str) -> (r: DurationFormat)
    ensures
        r == duration_format_spec(fmt@),
{
    let v = chars_of(fmt);
    if v.len() == 3 && v[0] == 'h' && v[1] == 'm' && v[2] == 's' {
        proof {
            assert(v@ == seq!['h', 'm', 's']);
        }
        DurationFormat::Hms
    } else if v.len() == 2 && v[0] == 'h' && v[1] == 'm' {
        proof {
            assert(v@ == seq!['h', 'm']);
        }
        DurationFormat::Hm
    } else {
        DurationFormat::DecimalHours
    }
}

/// Duration as `X小时Y分Z秒`, leading zero units left out.
pub fn format_duration_hms(secs: u64) -> (r: String)
    ensures
        r@ == hms_text(secs as nat),
{
    let h = secs / 3600;
    let m = (secs % 3600) / 60;
    let sec = secs % 60;
    let mut s = new_string();
    if h > 0 {
        push_decimal(&mut s, h);
        push_char(&mut s, '小');
        push_char(&mut s, '时');
        push_decimal(&mut s, m);
        push_char(&mut s, '分');
    } else if m > 0 {
        push_decimal(&mut s, m);
        push_char(&mut s, '分');
    }
    push_decimal(&mut s, sec);
    push_char(&mut s, '秒');
    s
}

/// Duration as `X小时Y分`, the hour unit left out when zero.
pub fn format_duration_hm(secs: u64) -> (r: String)
    ensures
        r@ == hm_duration_text(secs as nat),
{
    let h = secs / 3600;
    let m = (secs % 3600) / 60;
    let mut s = new_string();
    if h > 0 {
        push_decimal(&mut s, h);
        push_char(&mut s, '小');
        push_char(&mut s, '时');
    }
    push_decimal(&mut s, m);
    push_char(&mut s, '分');
    s
}

/// Whether two texts hold the same characters.
pub fn text_eq(a: &str, b: &str) -> (r: bool)
    ensures
        r == (a@ == b@),
{
    let n = a.unicode_len();
    if n != b.unicode_len() {
        return false;
    }
    let mut i: usize = 0;
    while i < n
        invariant
            n == a@.len(),
            n == b@.len(),
            i <= n,
            forall|k: int| 0 <= k < i ==> a@[k] == b@[k],
        decreases n - i,
    {
        if a.get_char(i) != b.get_char(i) {
            return false;
        }
        i += 1;
    }
    proof {
        assert(a@ =~= b@);
    }
    true
}

} // verus!
