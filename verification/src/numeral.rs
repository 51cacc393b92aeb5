//! Decimal numerals, as descriptors and wire lines write them.

use vstd::prelude::*;

verus! {

/// `c` is one of the ten decimal digits.
pub open spec fn is_digit(c: char) -> bool {
    '0' <= c && c <= '9'
}

/// The number that the digit `c` stands for.
pub open spec fn digit_value(c: char) -> nat {
    (c as int - '0' as int) as nat
}

/// The digit that stands for `d`, a number below ten.
pub open spec fn digit_char(d: nat) -> char {
    (d + '0' as nat) as char
}

/// `s` holds nothing but digits.
pub open spec fn all_digits(s: Seq<char>) -> bool {
    forall|i: int| 0 <= i < s.len() ==> is_digit(#[trigger] s[i])
}

/// The number that a run of digits writes, most significant digit first.
pub open spec fn decimal_value(s: Seq<char>) -> nat
    decreases s.len(),
{
    if s.len() == 0 {
        0
    } else {
        decimal_value(s.drop_last()) * 10 + digit_value(s.last())
    }
}

/// The value of `s` where `s` is a non-empty run of digits that writes a
/// number up to `limit`.
pub open spec fn bounded_value(s: Seq<char>, limit: nat) -> Option<nat> {
    if s.len() > 0 && all_digits(s) && decimal_value(s) <= limit {
        Some(decimal_value(s))
    } else {
        None
    }
}

/// `s` without its leading plus sign, if it has one.
pub open spec fn without_plus(s: Seq<char>) -> Seq<char> {
    if s.len() > 0 && s[0] == '+' {
        s.skip(1)
    } else {
        s
    }
}

/// What `s` reads as an unsigned number up to `limit`: an optional plus sign,
/// then one or more digits.
pub open spec fn unsigned_value(s: Seq<char>, limit: nat) -> Option<nat> {
    bounded_value(without_plus(s), limit)
}

/// What `s` reads as a signed number between `-(limit + 1)` and `limit`:
/// an optional sign, then one or more digits.
pub open spec fn signed_value(s: Seq<char>, limit: nat) -> Option<int> {
    if s.len() > 0 && s[0] == '-' {
        match bounded_value(s.skip(1), limit + 1) {
            Some(v) => Some(-(v as int)),
            None => None,
        }
    } else {
        match unsigned_value(s, limit) {
            Some(v) => Some(v as int),
            None => None,
        }
    }
}

/// What `s` reads as a `u8`.
pub open spec fn spec_parse_u8(s: Seq<char>) -> Option<u8> {
    match unsigned_value(s, 0xff) {
        Some(v) => Some(v as u8),
        None => None,
    }
}

/// What `s` reads as a `u32`.
pub open spec fn spec_parse_u32(s: Seq<char>) -> Option<u32> {
    match unsigned_value(s, 0xffff_ffff) {
        Some(v) => Some(v as u32),
        None => None,
    }
}

/// What `s` reads as an `i32`.
pub open spec fn spec_parse_i32(s: Seq<char>) -> Option<i32> {
    match signed_value(s, 0x7fff_ffff) {
        Some(v) => Some(v as i32),
        None => None,
    }
}

/// The shortest run of digits that writes `n`.
pub open spec fn decimal(n: nat) -> Seq<char>
    decreases n,
{
    if n < 10 {
        seq![digit_char(n)]
    } else {
        decimal(n / 10).push(digit_char(n % 10))
    }
}

/// The numeral of `z`: a minus sign for a negative number, no sign otherwise.
pub open spec fn signed_decimal(z: int) -> Seq<char> {
    if z < 0 {
        seq!['-'] + decimal((-z) as nat)
    } else {
        decimal(z as nat)
    }
}

/// A numeral in the one form that `decimal` writes: digits only, and no
/// leading zero but for the number zero itself.
pub open spec fn is_canonical(s: Seq<char>) -> bool {
    &&& s.len() > 0
    &&& all_digits(s)
    &&& (s.len() > 1 ==> s[0] != '0')
}

/// A signed numeral in the one form that `signed_decimal` writes.
pub open spec fn is_canonical_signed(s: Seq<char>) -> bool {
    if s.len() > 0 && s[0] == '-' {
        is_canonical(s.skip(1)) && s.skip(1) != seq!['0']
    } else {
        is_canonical(s)
    }
}

/// A prefix of a run of digits writes no more than the whole run.
pub proof fn lemma_prefix_value(s: Seq<char>, k: int)
    requires
        0 <= k <= s.len(),
    ensures
        decimal_value(s.take(k)) <= decimal_value(s),
    decreases s.len(),
{
    if k == s.len() {
        assert(s.take(k) == s);
    } else {
        lemma_prefix_value(s.drop_last(), k);
        assert(s.drop_last().take(k) == s.take(k));
    }
}

/// The numeral of a number is canonical and writes that number.
pub proof fn lemma_decimal_reads_back(n: nat)
    ensures
        is_canonical(decimal(n)),
        decimal_value(decimal(n)) == n,
    decreases n,
{
    if n < 10 {
        let s = decimal(n);
        assert(s.drop_last().len() == 0);
        assert(decimal_value(s) == decimal_value(s.drop_last()) * 10 + digit_value(s.last()));
    } else {
        lemma_decimal_reads_back(n / 10);
        let p = decimal(n / 10);
        let s = decimal(n);
        assert(s.drop_last() == p);
        assert(s.last() == digit_char(n % 10));
        assert(s[0] == p[0]);
        if p.len() == 1 {
            assert(p.drop_last().len() == 0);
            assert(decimal_value(p) == decimal_value(p.drop_last()) * 10 + digit_value(p.last()));
        }
        assert forall|i: int| 0 <= i < s.len() implies is_digit(#[trigger] s[i]) by {
            if i < p.len() {
                assert(s[i] == p[i]);
            }
        }
    }
}

/// A canonical numeral with more than one digit writes ten or more.
proof fn lemma_canonical_value_floor(s: Seq<char>)
    requires
        all_digits(s),
        s.len() > 0,
        s[0] != '0',
    ensures
        decimal_value(s) >= 1,
        s.len() > 1 ==> decimal_value(s) >= 10,
    decreases s.len(),
{
    if s.len() == 1 {
        assert(s.drop_last().len() == 0);
        assert(decimal_value(s.drop_last()) == 0);
    } else {
        let p = s.drop_last();
        assert(p[0] == s[0]);
        assert forall|i: int| 0 <= i < p.len() implies is_digit(#[trigger] p[i]) by {
            assert(p[i] == s[i]);
        }
        lemma_canonical_value_floor(p);
    }
}

/// A canonical numeral is the numeral of the number it writes.
pub proof fn lemma_canonical_is_decimal(s: Seq<char>)
    requires
        is_canonical(s),
    ensures
        decimal(decimal_value(s)) == s,
    decreases s.len(),
{
    let p = s.drop_last();
    let d = digit_value(s.last());
    assert(is_digit(s.last()));
    assert(digit_char(d) == s.last());
    if s.len() == 1 {
        assert(p.len() == 0);
        assert(decimal_value(p) == 0);
        assert(decimal(d) == seq![s.last()]);
        assert(seq![s.last()] == s);
    } else {
        assert(p[0] == s[0]);
        assert forall|i: int| 0 <= i < p.len() implies is_digit(#[trigger] p[i]) by {
            assert(p[i] == s[i]);
        }
        lemma_canonical_value_floor(p);
        lemma_canonical_is_decimal(p);
        let n = decimal_value(s);
        assert(n == decimal_value(p) * 10 + d);
        assert(n >= 10);
        assert(n / 10 == decimal_value(p));
        assert(n % 10 == d);
        assert(decimal(n) == decimal(n / 10).push(digit_char(n % 10)));
        assert(p.push(s.last()) == s);
    }
}

/// The numeral of a number holds digits only.
pub proof fn lemma_decimal_has_no(n: nat, c: char)
    requires
        !is_digit(c),
    ensures
        !decimal(n).contains(c),
{
    lemma_decimal_reads_back(n);
}

/// The numeral of a number up to the limit reads as that number.
pub proof fn lemma_decimal_parses(n: nat, limit: nat)
    requires
        n <= limit,
    ensures
        unsigned_value(decimal(n), limit) == Some(n),
{
    lemma_decimal_reads_back(n);
    assert(is_digit(decimal(n)[0]));
}

/// The numeral of a number in the range reads as that number.
pub proof fn lemma_signed_decimal_parses(z: int, limit: nat)
    requires
        -(limit + 1) <= z <= limit,
    ensures
        signed_value(signed_decimal(z), limit) == Some(z),
{
    if z < 0 {
        let m = (-z) as nat;
        lemma_decimal_reads_back(m);
        assert(signed_decimal(z).skip(1) == decimal(m));
        assert(signed_decimal(z)[0] == '-');
    } else {
        lemma_decimal_parses(z as nat, limit);
        lemma_decimal_reads_back(z as nat);
        assert(is_digit(decimal(z as nat)[0]));
    }
}

/// A canonical numeral that reads as a number is the numeral of that
/// number.
pub proof fn lemma_parsed_canonical_is_decimal(s: Seq<char>, limit: nat)
    requires
        is_canonical(s),
        unsigned_value(s, limit) is Some,
    ensures
        decimal(unsigned_value(s, limit)->0) == s,
{
    assert(is_digit(s[0]));
    lemma_canonical_is_decimal(s);
}

/// The numeral of a number holds a sign and digits only.
pub proof fn lemma_signed_decimal_has_no(z: int, c: char)
    requires
        !is_digit(c),
        c != '-',
    ensures
        !signed_decimal(z).contains(c),
{
    if z < 0 {
        let m = (-z) as nat;
        lemma_decimal_has_no(m, c);
        let s = signed_decimal(z);
        if s.contains(c) {
            let k = choose|k: int| 0 <= k < s.len() && s[k] == c;
            assert(k > 0);
            assert(decimal(m)[k - 1] == c);
        }
    } else {
        lemma_decimal_has_no(z as nat, c);
    }
}

/// A canonical signed numeral that reads as a number is the numeral of that
/// number.
pub proof fn lemma_parsed_canonical_signed_is_decimal(s: Seq<char>, limit: nat)
    requires
        is_canonical_signed(s),
        signed_value(s, limit) is Some,
    ensures
        signed_decimal(signed_value(s, limit)->0) == s,
{
    if s.len() > 0 && s[0] == '-' {
        let body = s.skip(1);
        lemma_canonical_is_decimal(body);
        assert(is_digit(body[0]));
        if body.len() == 1 {
            assert(body.drop_last().len() == 0);
            assert(decimal_value(body.drop_last()) == 0);
            assert(body =~= seq![body[0]]);
            assert(body[0] != '0');
            assert(decimal_value(body) >= 1);
        } else {
            lemma_canonical_value_floor(body);
        }
        assert(seq!['-'] + body =~= s);
    } else {
        assert(is_digit(s[0]));
        lemma_canonical_is_decimal(s);
    }
}

/// The characters of `s`, one by one.
pub fn chars_of(s: &str) -> (chars: Vec<char>)
    ensures
        chars@ == s@,
{
    let mut chars: Vec<char> = Vec::new();
    for c in it: s.chars()
        invariant
            chars@ == it.seq().take(it.index() as int),
            it.seq() == s@,
    {
        chars.push(c);
    }
    chars
}

/// Reads the digits of `chars` from position `from` on as a number up to
/// `limit`.
fn read_digits(chars: &Vec<char>, from: usize, limit: u64) -> (r: Option<u64>)
    requires
        from <= chars.len(),
        limit <= 0x1_0000_0000,
    ensures
        match bounded_value(chars@.skip(from as int), limit as nat) {
            Some(v) => r == Some(v as u64),
            None => r is None,
        },
{
    let ghost s = chars@.skip(from as int);
    let n = chars.len();
    if from == n {
        return None;
    }
    let mut acc: u64 = 0;
    let mut i: usize = from;
    while i < n
        invariant
            from <= i <= n,
            n == chars.len(),
            s == chars@.skip(from as int),
            limit <= 0x1_0000_0000,
            acc <= limit,
            acc == decimal_value(s.take(i - from)),
            all_digits(s.take(i - from)),
        decreases n - i,
    {
        let c = chars[i];
        proof {
            assert(s[i - from] == c);
            assert(s.take(i - from + 1).drop_last() == s.take(i - from));
            assert(s.take(i - from + 1).last() == c);
        }
        if c < '0' || c > '9' {
            assert(!is_digit(s[i - from]));
            return None;
        }
        let d: u64 = (c as u32 - '0' as u32) as u64;
        let next: u64 = acc * 10 + d;
        proof {
            assert(next == decimal_value(s.take(i - from + 1)));
            assert forall|k: int| 0 <= k < s.take(i - from + 1).len() implies is_digit(
                #[trigger] s.take(i - from + 1)[k],
            ) by {
                if k < i - from {
                    assert(s.take(i - from + 1)[k] == s.take(i - from)[k]);
                }
            }
        }
        if next > limit {
            proof {
                lemma_prefix_value(s, i - from + 1);
            }
            return None;
        }
        acc = next;
        i = i + 1;
    }
    proof {
        assert(s.take(i - from) == s);
    }
    Some(acc)
}

/// Reads `s` as an unsigned number up to `limit`.
fn read_unsigned(s: &str, limit: u64) -> (r: Option<u64>)
    requires
        limit <= 0xffff_ffff,
    ensures
        match unsigned_value(s@, limit as nat) {
            Some(v) => r == Some(v as u64),
            None => r is None,
        },
{
    let chars = chars_of(s);
    if chars.len() > 0 && chars[0] == '+' {
        read_digits(&chars, 1, limit)
    } else {
        proof {
            assert(chars@.skip(0) == chars@);
        }
        read_digits(&chars, 0, limit)
    }
}

/// Reads a numeral as `str::parse::<u8>` does: an optional plus sign, then
/// one or more digits that write a number up to 255.
pub fn parse_u8(s: &str) -> (r: Option<u8>)
    ensures
        r == spec_parse_u8(s@),
{
    match read_unsigned(s, 0xff) {
        Some(v) => Some(v as u8),
        None => None,
    }
}

/// Reads a numeral as `str::parse::<u32>` does: an optional plus sign, then
/// one or more digits that write a number below 2^32.
pub fn parse_u32(s: &str) -> (r: Option<u32>)
    ensures
        r == spec_parse_u32(s@),
{
    match read_unsigned(s, 0xffff_ffff) {
        Some(v) => Some(v as u32),
        None => None,
    }
}

/// Reads a numeral as `str::parse::<i32>` does: an optional sign, then one or
/// more digits that write a number from -2^31 to 2^31 - 1.
pub fn parse_i32(s: &str) -> (r: Option<i32>)
    ensures
        r == spec_parse_i32(s@),
{
    let chars = chars_of(s);
    if chars.len() > 0 && chars[0] == '-' {
        match read_digits(&chars, 1, 0x8000_0000) {
            Some(v) => Some((-(v as i64)) as i32),
            None => None,
        }
    } else if chars.len() > 0 && chars[0] == '+' {
        match read_digits(&chars, 1, 0x7fff_ffff) {
            Some(v) => Some(v as i32),
            None => None,
        }
    } else {
        proof {
            assert(chars@.skip(0) == chars@);
        }
        match read_digits(&chars, 0, 0x7fff_ffff) {
            Some(v) => Some(v as i32),
            None => None,
        }
    }
}

/// The one-character string of a digit.
fn digit_str(d: u64) -> (s: &'static str)
    requires
        d < 10,
    ensures
        s@ == seq![digit_char(d as nat)],
{
    proof {
        reveal_strlit("0");
        reveal_strlit("1");
        reveal_strlit("2");
        reveal_strlit("3");
        reveal_strlit("4");
        reveal_strlit("5");
        reveal_strlit("6");
        reveal_strlit("7");
        reveal_strlit("8");
        reveal_strlit("9");
    }
    let s = if d == 0 {
        "0"
    } else if d == 1 {
        "1"
    } else if d == 2 {
        "2"
    } else if d == 3 {
        "3"
    } else if d == 4 {
        "4"
    } else if d == 5 {
        "5"
    } else if d == 6 {
        "6"
    } else if d == 7 {
        "7"
    } else if d == 8 {
        "8"
    } else {
        "9"
    };
    assert(s@ == seq![digit_char(d as nat)]);
    s
}

/// Appends the numeral of `n` to `out`.
pub fn push_decimal(out: &mut String, n: u64)
    ensures
        final(out)@ == old(out)@ + decimal(n as nat),
    decreases n,
{
    if n >= 10 {
        push_decimal(out, n / 10);
    }
    out.append(digit_str(n % 10));
    proof {
        let d = seq![digit_char((n % 10) as nat)];
        if n >= 10 {
            assert(decimal(n as nat) == decimal((n / 10) as nat) + d);
            assert(old(out)@ + decimal((n / 10) as nat) + d == old(out)@ + (decimal(
                (n / 10) as nat,
            ) + d));
        }
    }
}

/// Appends the numeral of `z` to `out`, with a minus sign if `z` is negative.
pub fn push_signed_decimal(out: &mut String, z: i32)
    ensures
        final(out)@ == old(out)@ + signed_decimal(z as int),
{
    if z < 0 {
        proof {
            reveal_strlit("-");
        }
        out.append("-");
        push_decimal(out, (-(z as i64)) as u64);
        proof {
            let m = decimal((-(z as int)) as nat);
            assert(old(out)@ + seq!['-'] + m == old(out)@ + (seq!['-'] + m));
        }
    } else {
        push_decimal(out, z as u64);
    }
}

} // verus!
