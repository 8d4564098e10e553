//! Character-level parsing shared by the configuration parsers: splitting on
//! separators, unsigned decimal numbers, and the `host:port` shape of a
//! socket address.

use vstd::prelude::*;

verus! {

/// The fields of `s` between separators, as `str::split` yields them with a
/// set of separator characters: one more field than there are separators,
/// empty fields included.
pub open spec fn split_spec(s: Seq<char>, seps: Seq<char>) -> Seq<Seq<char>>
    decreases s.len(),
{
    if s.len() == 0 {
        seq![Seq::<char>::empty()]
    } else {
        let fields = split_spec(s.drop_last(), seps);
        if seps.contains(s.last()) {
            fields.push(Seq::<char>::empty())
        } else {
            fields.update(fields.len() - 1, fields.last().push(s.last()))
        }
    }
}

/// How many characters of `s` are separators.
pub open spec fn separator_count(s: Seq<char>, seps: Seq<char>) -> nat
    decreases s.len(),
{
    if s.len() == 0 {
        0
    } else {
        separator_count(s.drop_last(), seps) + if seps.contains(s.last()) {
            1nat
        } else {
            0nat
        }
    }
}

/// Splitting yields one field more than there are separators, and no field
/// holds a separator.
pub proof fn lemma_split_fields(s: Seq<char>, seps: Seq<char>)
    ensures
        split_spec(s, seps).len() == separator_count(s, seps) + 1,
        forall|k: int, j: int|
            0 <= k < split_spec(s, seps).len() && 0 <= j < split_spec(s, seps)[k].len()
                ==> !seps.contains(#[trigger] split_spec(s, seps)[k][j]),
    decreases s.len(),
{
    if s.len() > 0 {
        lemma_split_fields(s.drop_last(), seps);
        let prev = split_spec(s.drop_last(), seps);
        let fields = split_spec(s, seps);
        assert forall|k: int, j: int|
            0 <= k < fields.len() && 0 <= j < fields[k].len() implies !seps.contains(
            #[trigger] fields[k][j],
        ) by {
            if k < prev.len() - 1 || (seps.contains(s.last()) && k < prev.len()) {
                assert(fields[k] == prev[k]);
            } else if !seps.contains(s.last()) {
                assert(fields[k] == prev[k].push(s.last()));
                if j < prev[k].len() {
                    assert(fields[k][j] == prev[k][j]);
                }
            }
        }
    }
}

/// `split_spec` never yields an empty list of fields.
pub proof fn lemma_split_nonempty(s: Seq<char>, seps: Seq<char>)
    ensures
        split_spec(s, seps).len() >= 1,
{
    lemma_split_fields(s, seps);
}

/// The characters of a string slice, one by one.
pub fn chars_of(s: &str) -> (v: Vec<char>)
    ensures
        v@ == s@,
{
    let n = s.unicode_len();
    let mut v: Vec<char> = Vec::new();
    let mut i: usize = 0;
    while i < n
        invariant
            n == s@.len(),
            i <= n,
            v@ == s@.take(i as int),
        decreases n - i,
    {
        let c = s.get_char(i);
        v.push(c);
        i = i + 1;
        assert(v@ =~= s@.take(i as int));
    }
    assert(v@ =~= s@);
    v
}

/// Whether `c` is one of `seps`.
pub fn is_separator(c: char, seps: &[char]) -> (b: bool)
    ensures
        b == seps@.contains(c),
{
    let mut i: usize = 0;
    while i < seps.len()
        invariant
            i <= seps@.len(),
            forall|j: int| 0 <= j < i ==> seps@[j] != c,
        decreases seps.len() - i,
    {
        if seps[i] == c {
            assert(seps@[i as int] == c);
            return true;
        }
        i = i + 1;
    }
    false
}

/// Splits `s` at every character of `seps`, as `str::split` does.
pub fn split_fields(s: &str, seps: &[char]) -> (fields: Vec<String>)
    ensures
        fields@.len() == split_spec(s@, seps@).len(),
        forall|k: int| 0 <= k < fields@.len() ==> #[trigger] fields@[k]@ == split_spec(s@, seps@)[k],
{
    let chars = chars_of(s);
    let n = chars.len();
    let mut fields: Vec<String> = Vec::new();
    let mut start: usize = 0;
    let mut i: usize = 0;
    while i < n
        invariant
            n == s@.len(),
            chars@ == s@,
            start <= i <= n,
            split_spec(s@.take(i as int), seps@).len() == fields@.len() + 1,
            forall|k: int| 0 <= k < fields@.len() ==>
                #[trigger] fields@[k]@ == split_spec(s@.take(i as int), seps@)[k],
            split_spec(s@.take(i as int), seps@).last() == s@.subrange(start as int, i as int),
        decreases n - i,
    {
        let c = chars[i];
        let ghost prev = s@.take(i as int);
        assert(s@.take(i + 1).drop_last() =~= prev);
        assert(s@.take(i + 1).last() == c);
        if is_separator(c, seps) {
            let piece = s.substring_char(start, i);
            fields.push(piece.to_owned());
            start = i + 1;
            assert(s@.subrange(start as int, i + 1) =~= Seq::<char>::empty());
        } else {
            assert(s@.subrange(start as int, i + 1) =~= s@.subrange(start as int, i as int).push(c));
        }
        i = i + 1;
    }
    let piece = s.substring_char(start, n);
    fields.push(piece.to_owned());
    assert(s@.take(n as int) =~= s@);
    fields
}


/// Whether `c` is an ASCII decimal digit.
pub open spec fn is_digit(c: char) -> bool {
    '0' <= c <= '9'
}

/// The value of an ASCII digit.
pub open spec fn digit_value(c: char) -> nat {
    (c as int - '0' as int) as nat
}

/// The value of a string of decimal digits, most significant first.
pub open spec fn decimal_value(s: Seq<char>) -> nat
    decreases s.len(),
{
    if s.len() == 0 {
        0
    } else {
        decimal_value(s.drop_last()) * 10 + digit_value(s.last())
    }
}

/// What follows an optional leading `+`.
pub open spec fn unsigned_digits(s: Seq<char>) -> Seq<char> {
    if s.len() > 0 && s[0] == '+' {
        s.drop_first()
    } else {
        s
    }
}

/// Whether every character of `s` is an ASCII digit.
pub open spec fn all_digits(s: Seq<char>) -> bool {
    forall|i: int| 0 <= i < s.len() ==> is_digit(#[trigger] s[i])
}

/// Why text is not an unsigned number, as the standard library's
/// `IntErrorKind` names the cases.
#[derive(Debug, Clone, Copy, PartialEq, Eq, Structural)]
pub enum IntErrorKind {
    /// The text is empty.
    Empty,
    /// A character is not a digit (a lone `+` included).
    InvalidDigit,
    /// The number is larger than the type holds.
    PosOverflow,
}

/// The standard library's description of each kind of failure.
pub open spec fn int_error_text(k: IntErrorKind) -> Seq<char> {
    match k {
        IntErrorKind::Empty => "cannot parse integer from empty string"@,
        IntErrorKind::InvalidDigit => "invalid digit found in string"@,
        IntErrorKind::PosOverflow => "number too large to fit in target type"@,
    }
}

impl IntErrorKind {
    /// The standard library's description of this failure.
    pub fn description(&self) -> (t: &'static str)
        ensures
            t@ == int_error_text(*self),
    {
        match self {
            IntErrorKind::Empty => "cannot parse integer from empty string",
            IntErrorKind::InvalidDigit => "invalid digit found in string",
            IntErrorKind::PosOverflow => "number too large to fit in target type",
        }
    }
}

/// The index of the first character of `s` that is not a digit, or the
/// length of `s` when there is none.
pub open spec fn first_non_digit(s: Seq<char>) -> int
    decreases s.len(),
{
    if s.len() == 0 {
        0
    } else if !is_digit(s[0]) {
        0
    } else {
        1 + first_non_digit(s.drop_first())
    }
}

/// `first_non_digit` is the index at which the digits stop.
pub proof fn lemma_first_non_digit(s: Seq<char>, i: int)
    requires
        0 <= i <= s.len(),
        forall|j: int| 0 <= j < i ==> is_digit(#[trigger] s[j]),
        i == s.len() || !is_digit(s[i]),
    ensures
        first_non_digit(s) == i,
    decreases i,
{
    if i > 0 {
        let t = s.drop_first();
        assert forall|j: int| 0 <= j < i - 1 implies is_digit(#[trigger] t[j]) by {
            assert(t[j] == s[j + 1]);
        }
        if i < s.len() {
            assert(t[i - 1] == s[i]);
        }
        lemma_first_non_digit(t, i - 1);
        assert(is_digit(s[0]));
    }
}

/// The outcome of reading `s` as an unsigned number of value at most `max`,
/// as the standard library's `from_str` for an unsigned type reads it: an
/// optional `+`, then one or more ASCII digits. The digits are read from the
/// left, and the first problem met decides the error: a character that is not
/// a digit, or a value grown past `max`.
pub open spec fn parse_unsigned_result(s: Seq<char>, max: nat) -> Result<nat, IntErrorKind> {
    let body = unsigned_digits(s);
    let k = first_non_digit(body);
    if s.len() == 0 {
        Err(IntErrorKind::Empty)
    } else if body.len() == 0 {
        Err(IntErrorKind::InvalidDigit)
    } else if k < body.len() {
        if decimal_value(body.take(k)) > max {
            Err(IntErrorKind::PosOverflow)
        } else {
            Err(IntErrorKind::InvalidDigit)
        }
    } else if decimal_value(body) > max {
        Err(IntErrorKind::PosOverflow)
    } else {
        Ok(decimal_value(body))
    }
}

/// The unsigned number that `s` denotes, if it is one of value at most `max`.
pub open spec fn parse_unsigned_spec(s: Seq<char>, max: nat) -> Option<nat> {
    match parse_unsigned_result(s, max) {
        Ok(v) => Some(v),
        Err(_) => None,
    }
}

/// A longer string of digits is worth at least as much as its prefix.
pub proof fn lemma_decimal_value_grows(s: Seq<char>, n: int)
    requires
        0 <= n <= s.len(),
    ensures
        decimal_value(s.take(n)) <= decimal_value(s),
    decreases s.len() - n,
{
    if n < s.len() {
        lemma_decimal_value_grows(s, n + 1);
        assert(s.take(n + 1).drop_last() =~= s.take(n));
    } else {
        assert(s.take(n) =~= s);
    }
}

/// Reads an unsigned decimal number of value at most `max` from `s`, as
/// `from_str` of an unsigned integer type does.
pub fn parse_unsigned(s: &str, max: u64) -> (r: Result<u64, IntErrorKind>)
    ensures
        match parse_unsigned_result(s@, max as nat) {
            Ok(v) => r == Ok::<u64, IntErrorKind>(v as u64),
            Err(e) => r == Err::<u64, IntErrorKind>(e),
        },
{
    let chars = chars_of(s);
    let n = chars.len();
    if n == 0 {
        return Err(IntErrorKind::Empty);
    }
    let start: usize = if chars[0] == '+' { 1 } else { 0 };
    let ghost body = unsigned_digits(s@);
    assert(body =~= s@.subrange(start as int, n as int));
    if start == n {
        return Err(IntErrorKind::InvalidDigit);
    }
    let mut value: u64 = 0;
    let mut i: usize = start;
    while i < n
        invariant
            chars@ == s@,
            n == s@.len(),
            n > 0,
            start <= i <= n,
            start < n,
            body == s@.subrange(start as int, n as int),
            body == unsigned_digits(s@),
            value == decimal_value(body.take(i - start)),
            value <= max,
            forall|j: int| 0 <= j < i - start ==> is_digit(#[trigger] body[j]),
        decreases n - i,
    {
        let c = chars[i];
        assert(body[i - start] == c);
        if !('0' <= c && c <= '9') {
            proof {
                lemma_first_non_digit(body, i - start);
            }
            return Err(IntErrorKind::InvalidDigit);
        }
        let d: u64 = (c as u32 - '0' as u32) as u64;
        assert(body.take(i - start + 1).drop_last() =~= body.take(i - start));
        assert(d == digit_value(c));
        let next: u128 = value as u128 * 10 + d as u128;
        assert(decimal_value(body.take(i - start + 1)) == value * 10 + d);
        if next > max as u128 {
            proof {
                let ghost k = first_non_digit(body);
                let ghost m = i - start + 1;
                lemma_first_non_digit_bounds(body);
                assert(is_digit(body[m - 1]));
                if k < m {
                    assert(is_digit(body[k]));
                }
                assert(body.take(k).take(m) =~= body.take(m));
                lemma_decimal_value_grows(body.take(k), m);
                if k == body.len() {
                    assert(body.take(k) =~= body);
                }
            }
            return Err(IntErrorKind::PosOverflow);
        }
        value = next as u64;
        i = i + 1;
    }
    assert(body.take(n - start) =~= body);
    proof {
        lemma_first_non_digit(body, body.len() as int);
    }
    Ok(value)
}

/// The digits before `first_non_digit` are digits, and the character at it,
/// if any, is not.
pub proof fn lemma_first_non_digit_bounds(s: Seq<char>)
    ensures
        0 <= first_non_digit(s) <= s.len(),
        forall|j: int| 0 <= j < first_non_digit(s) ==> is_digit(#[trigger] s[j]),
        first_non_digit(s) == s.len() || !is_digit(s[first_non_digit(s)]),
    decreases s.len(),
{
    if s.len() > 0 && is_digit(s[0]) {
        let t = s.drop_first();
        lemma_first_non_digit_bounds(t);
        assert forall|j: int| 0 <= j < first_non_digit(s) implies is_digit(#[trigger] s[j]) by {
            if j > 0 {
                assert(s[j] == t[j - 1]);
            }
        }
        if first_non_digit(s) < s.len() {
            assert(s[first_non_digit(s)] == t[first_non_digit(t)]);
        }
    }
}

/// The index of the last `:` in `s`, if there is one.
pub open spec fn last_colon(s: Seq<char>) -> Option<int>
    decreases s.len(),
{
    if s.len() == 0 {
        None
    } else if s.last() == ':' {
        Some(s.len() - 1)
    } else {
        last_colon(s.drop_last())
    }
}

/// Why a string cannot be a `host:port` socket address.
#[derive(Debug, Clone, Copy, PartialEq, Eq, Structural)]
pub enum AddressError {
    /// There is no `:` before a port number.
    MissingPort,
    /// What follows the last `:` is not a port number from 0 to 65535.
    InvalidPort,
}

/// The port of a socket address written as text. The standard library reads
/// such a string either as a literal address or as `host:port`, splitting at
/// the last `:` and reading the rest as a `u16`; a string that fails this is
/// rejected before any name is resolved.
pub open spec fn address_port_spec(s: Seq<char>) -> Result<nat, AddressError> {
    match last_colon(s) {
        None => Err(AddressError::MissingPort),
        Some(i) => match parse_unsigned_spec(s.skip(i + 1), 65535) {
            Some(p) => Ok(p),
            None => Err(AddressError::InvalidPort),
        },
    }
}

/// Checks that `addr` has the `host:port` shape and returns its port.
pub fn address_port(addr: &str) -> (r: Result<u16, AddressError>)
    ensures
        match address_port_spec(addr@) {
            Ok(p) => r == Ok::<u16, AddressError>(p as u16),
            Err(e) => r == Err::<u16, AddressError>(e),
        },
{
    let chars = chars_of(addr);
    let n = chars.len();
    let mut i: usize = n;
    assert(addr@.take(n as int) =~= addr@);
    while i > 0
        invariant
            chars@ == addr@,
            n == addr@.len(),
            i <= n,
            last_colon(addr@) == last_colon(addr@.take(i as int)),
        ensures
            i == 0 || chars@[i - 1] == ':',
        decreases i,
    {
        assert(addr@.take(i as int).drop_last() =~= addr@.take(i - 1));
        if chars[i - 1] == ':' {
            break;
        }
        i = i - 1;
    }
    if i == 0 {
        assert(addr@.take(0) =~= Seq::<char>::empty());
        return Err(AddressError::MissingPort);
    }
    assert(addr@.take(i as int).last() == ':');
    assert(last_colon(addr@) == Some(i - 1));
    let port_text = addr.substring_char(i, n);
    assert(port_text@ =~= addr@.skip(i as int));
    match parse_unsigned(port_text, 65535) {
        Ok(p) => Ok(p as u16),
        Err(_) => Err(AddressError::InvalidPort),
    }
}

/// Whether `s` begins with `prefix`, as `str::starts_with` answers.
pub fn has_prefix(s: &str, prefix: &str) -> (b: bool)
    ensures
        b == prefix@.is_prefix_of(s@),
{
    let sc = chars_of(s);
    let pc = chars_of(prefix);
    if pc.len() > sc.len() {
        return false;
    }
    let mut i: usize = 0;
    while i < pc.len()
        invariant
            sc@ == s@,
            pc@ == prefix@,
            pc@.len() <= sc@.len(),
            i <= pc@.len(),
            forall|j: int| 0 <= j < i ==> pc@[j] == sc@[j],
        decreases pc.len() - i,
    {
        if pc[i] != sc[i] {
            return false;
        }
        i = i + 1;
    }
    true
}

/// Whether two strings hold the same characters.
pub fn same_text(a: &str, b: &str) -> (eq: bool)
    ensures
        eq == (a@ == b@),
{
    let ac = chars_of(a);
    let bc = chars_of(b);
    if ac.len() != bc.len() {
        return false;
    }
    let mut i: usize = 0;
    while i < ac.len()
        invariant
            ac@ == a@,
            bc@ == b@,
            ac@.len() == bc@.len(),
            i <= ac@.len(),
            forall|j: int| 0 <= j < i ==> ac@[j] == bc@[j],
        decreases ac.len() - i,
    {
        if ac[i] != bc[i] {
            assert(a@[i as int] != b@[i as int]);
            return false;
        }
        i = i + 1;
    }
    assert(a@ =~= b@);
    true
}

/// Whether `s` holds none of `seps`.
pub open spec fn free_of(s: Seq<char>, seps: Seq<char>) -> bool {
    forall|i: int| 0 <= i < s.len() ==> !seps.contains(#[trigger] s[i])
}

/// Text without separators extends the last field.
pub proof fn lemma_split_append_plain(t: Seq<char>, b: Seq<char>, seps: Seq<char>)
    requires
        free_of(b, seps),
    ensures
        split_spec(t + b, seps) == split_spec(t, seps).update(
            split_spec(t, seps).len() - 1,
            split_spec(t, seps).last() + b,
        ),
    decreases b.len(),
{
    lemma_split_nonempty(t, seps);
    let f = split_spec(t, seps);
    if b.len() == 0 {
        assert(t + b =~= t);
        assert(f.last() + b =~= f.last());
        assert(f.update(f.len() - 1, f.last() + b) =~= f);
    } else {
        let b1 = b.drop_last();
        assert(free_of(b1, seps));
        lemma_split_append_plain(t, b1, seps);
        assert((t + b).drop_last() =~= t + b1);
        assert((t + b).last() == b.last());
        assert(!seps.contains(b[b.len() - 1]));
        assert((f.last() + b1).push(b.last()) =~= f.last() + b);
        let g = f.update(f.len() - 1, f.last() + b1);
        assert(g.update(g.len() - 1, g.last().push(b.last())) =~= f.update(
            f.len() - 1,
            f.last() + b,
        ));
    }
}

/// A separator followed by text without separators adds that text as a
/// new last field.
pub proof fn lemma_split_append_field(t: Seq<char>, c: Seq<char>, b: Seq<char>, seps: Seq<char>)
    requires
        c.len() == 1,
        seps.contains(c[0]),
        free_of(b, seps),
    ensures
        split_spec(t + c + b, seps) == split_spec(t, seps).push(b),
{
    let tc = t + c;
    assert(tc.drop_last() =~= t);
    assert(tc.last() == c[0]);
    lemma_split_append_plain(tc, b, seps);
    let f = split_spec(tc, seps);
    assert(f == split_spec(t, seps).push(Seq::<char>::empty()));
    assert(Seq::<char>::empty() + b =~= b);
    assert(f.update(f.len() - 1, f.last() + b) =~= split_spec(t, seps).push(b));
}

/// Text without separators is a single field.
pub proof fn lemma_split_plain(b: Seq<char>, seps: Seq<char>)
    requires
        free_of(b, seps),
    ensures
        split_spec(b, seps) == seq![b],
{
    let e = Seq::<char>::empty();
    lemma_split_append_plain(e, b, seps);
    assert(e + b =~= b);
    assert(split_spec(e, seps).update(0, e + b) =~= seq![b]);
}

/// Whether every character of `s` is an ASCII digit, in plain terms.
pub open spec fn decimal_digits(s: Seq<char>) -> bool {
    s.len() > 0 && forall|i: int| 0 <= i < s.len() ==> '0' <= #[trigger] s[i] <= '9'
}

/// How unsigned numbers are read, for any bound: a string of digits, with or
/// without a leading `+`, is read as its decimal value when that is at most
/// the bound, and overflows otherwise; an empty string is `Empty`, and a lone
/// `+` or a string whose first character is neither a digit nor `+` is an
/// invalid digit.
pub proof fn lemma_parse_unsigned_cases(t: Seq<char>, max: nat)
    ensures
        decimal_digits(t) ==> parse_unsigned_result(t, max) == (if decimal_value(t) <= max {
            Ok(decimal_value(t))
        } else {
            Err(IntErrorKind::PosOverflow)
        }),
        decimal_digits(t) ==> parse_unsigned_result(seq!['+'] + t, max) == parse_unsigned_result(
            t,
            max,
        ),
        parse_unsigned_result(Seq::<char>::empty(), max) == Err::<nat, IntErrorKind>(
            IntErrorKind::Empty,
        ),
        parse_unsigned_result(seq!['+'], max) == Err::<nat, IntErrorKind>(
            IntErrorKind::InvalidDigit,
        ),
        t.len() > 0 && t[0] != '+' && !('0' <= t[0] <= '9') ==> parse_unsigned_result(t, max)
            == Err::<nat, IntErrorKind>(IntErrorKind::InvalidDigit),
{
    lemma_parse_unsigned_stops(t, seq!['x'], Seq::empty(), max);
    if decimal_digits(t) {
        assert(unsigned_digits(t) == t);
        lemma_first_non_digit(t, t.len() as int);
        let pt = seq!['+'] + t;
        assert(unsigned_digits(pt) =~= t);
    }
    assert(unsigned_digits(seq!['+']) =~= Seq::<char>::empty());
    if t.len() > 0 && t[0] != '+' && !('0' <= t[0] <= '9') {
        assert(unsigned_digits(t) == t);
        assert(first_non_digit(t) == 0);
        assert(t.take(0) =~= Seq::<char>::empty());
    }
}

/// Digits followed by a character that is not a digit: the read fails, with
/// an overflow when the digits before it are already worth more than the
/// bound, and with an invalid digit otherwise, whatever follows.
pub proof fn lemma_parse_unsigned_stops(digits: Seq<char>, c: Seq<char>, rest: Seq<char>, max: nat)
    ensures
        decimal_digits(digits) && c.len() == 1 && !('0' <= c[0] <= '9') ==> parse_unsigned_result(
            digits + c + rest,
            max,
        ) == (if decimal_value(digits) > max {
            Err::<nat, IntErrorKind>(IntErrorKind::PosOverflow)
        } else {
            Err::<nat, IntErrorKind>(IntErrorKind::InvalidDigit)
        }),
{
    if decimal_digits(digits) && c.len() == 1 && !('0' <= c[0] <= '9') {
        let t = digits + c + rest;
        let k = digits.len() as int;
        assert(t[0] == digits[0]);
        assert(unsigned_digits(t) == t);
        assert forall|j: int| 0 <= j < k implies is_digit(#[trigger] t[j]) by {
            assert(t[j] == digits[j]);
        }
        assert(t[k] == c[0]);
        lemma_first_non_digit(t, k);
        assert(t.take(k) =~= digits);
    }
}

/// `last_colon` does not see past text without a colon.
pub proof fn lemma_last_colon_append(x: Seq<char>, b: Seq<char>)
    requires
        forall|i: int| 0 <= i < b.len() ==> #[trigger] b[i] != ':',
    ensures
        last_colon(x + b) == last_colon(x),
    decreases b.len(),
{
    if b.len() > 0 {
        let b1 = b.drop_last();
        assert((x + b).drop_last() =~= x + b1);
        assert((x + b).last() == b[b.len() - 1]);
        lemma_last_colon_append(x, b1);
    } else {
        assert(x + b =~= x);
    }
}

/// How a socket address is read: the port is what follows the last `:`.
/// For any host (colons included) and any string of digits, `host:digits`
/// has that port when its value is at most 65535 (0 included) and an invalid
/// port otherwise; text without a `:` has no port.
pub proof fn lemma_address_port_shape(host: Seq<char>, digits: Seq<char>, s: Seq<char>)
    ensures
        decimal_digits(digits) ==> address_port_spec(host + seq![':'] + digits) == (if decimal_value(
            digits,
        ) <= 65535 {
            Ok(decimal_value(digits))
        } else {
            Err(AddressError::InvalidPort)
        }),
        (forall|i: int| 0 <= i < s.len() ==> #[trigger] s[i] != ':') ==> address_port_spec(s)
            == Err::<nat, AddressError>(AddressError::MissingPort),
{
    if decimal_digits(digits) {
        let x = host + seq![':'];
        assert(forall|i: int| 0 <= i < digits.len() ==> #[trigger] digits[i] != ':');
        lemma_last_colon_append(x, digits);
        assert(x.last() == ':');
        assert(last_colon(x) == Some(host.len() as int));
        assert((x + digits).skip(host.len() as int + 1) =~= digits);
        lemma_parse_unsigned_cases(digits, 65535);
    }
    if forall|i: int| 0 <= i < s.len() ==> #[trigger] s[i] != ':' {
        let e = Seq::<char>::empty();
        lemma_last_colon_append(e, s);
        assert(e + s =~= s);
    }
}

} // verus!
