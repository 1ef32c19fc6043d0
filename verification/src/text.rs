//! Text operations that the sources share, stated over the characters of the
//! text.

use vstd::prelude::*;
use vstd::utf8::*;

verus! {

/// `String::push` of std appends one character.
pub assume_specification[ String::push ](s: &mut String, c: char)
    ensures
        final(s)@ == old(s)@.push(c),
;

/// White space: the characters of the Unicode property `White_Space`.
pub open spec fn white_space(c: char) -> bool {
    let n = c as u32;
    ||| 0x09 <= n <= 0x0d
    ||| n == 0x20
    ||| n == 0x85
    ||| n == 0xa0
    ||| n == 0x1680
    ||| 0x2000 <= n <= 0x200a
    ||| n == 0x2028
    ||| n == 0x2029
    ||| n == 0x202f
    ||| n == 0x205f
    ||| n == 0x3000
}

/// `char::is_whitespace` of std: whether a character has the Unicode property
/// `White_Space`, which the characters that [`white_space`] lists have.
pub assume_specification[ char::is_whitespace ](c: char) -> (r: bool)
    ensures
        r == white_space(c),
;

/// Whether `s` begins with `prefix`.
pub open spec fn starts_with(s: Seq<char>, prefix: Seq<char>) -> bool {
    prefix.len() <= s.len() && s.take(prefix.len() as int) == prefix
}

/// Whether `s` holds `part` somewhere.
pub open spec fn holds(s: Seq<char>, part: Seq<char>) -> bool {
    exists|i: int| 0 <= i <= s.len() - part.len() && #[trigger] s.subrange(i, i + part.len()) == part
}

/// What a text holds is held behind any other text too.
pub proof fn lemma_holds_behind(front: Seq<char>, s: Seq<char>, part: Seq<char>)
    requires
        holds(s, part),
    ensures
        holds(front + s, part),
{
    let i = choose|i: int|
        0 <= i <= s.len() - part.len() && #[trigger] s.subrange(i, i + part.len()) == part;
    let k = front.len() + i;
    assert((front + s).subrange(k, k + part.len()) =~= s.subrange(i, i + part.len()));
}

/// Whether `s` ends with `suffix`.
pub open spec fn ends_with(s: Seq<char>, suffix: Seq<char>) -> bool {
    suffix.len() <= s.len() && s.skip(s.len() - suffix.len()) == suffix
}

/// The characters of a text.
pub fn chars_of(s: &str) -> (v: Vec<char>)
    ensures
        v@ == s@,
{
    let mut v: Vec<char> = Vec::new();
    for c in it: s.chars()
        invariant
            it.seq() == s@,
            v@ == s@.take(it.index()),
    {
        v.push(c);
    }
    v
}

/// The text made of `v[from..to]`.
pub fn text_between(v: &Vec<char>, from: usize, to: usize) -> (s: String)
    requires
        from <= to <= v.len(),
    ensures
        s@ == v@.subrange(from as int, to as int),
{
    let mut s = String::new();
    let mut i: usize = from;
    while i < to
        invariant
            from <= i <= to <= v.len(),
            s@ == v@.subrange(from as int, i as int),
        decreases to - i,
    {
        s.push(v[i]);
        i += 1;
    }
    s
}

/// The text made of all of `v`.
pub fn text_of(v: &Vec<char>) -> (s: String)
    ensures
        s@ == v@,
{
    let s = text_between(v, 0, v.len());
    assert(v@.subrange(0, v.len() as int) =~= v@);
    s
}

/// Whether two texts are the same.
pub fn same_text(a: &str, b: &str) -> (r: bool)
    ensures
        r == (a@ == b@),
{
    let x = a.as_bytes();
    let y = b.as_bytes();
    proof {
        encode_utf8_decode_utf8(a@);
        encode_utf8_decode_utf8(b@);
    }
    if x.len() != y.len() {
        return false;
    }
    let mut i: usize = 0;
    while i < x.len()
        invariant
            i <= x.len(),
            x.len() == y.len(),
            x@ == encode_utf8(a@),
            y@ == encode_utf8(b@),
            forall|j: int| 0 <= j < i ==> x@[j] == y@[j],
        decreases x.len() - i,
    {
        if x[i] != y[i] {
            return false;
        }
        i += 1;
    }
    assert(x@ =~= y@);
    true
}

/// Whether an optional text is present and equal to `b`.
pub fn is_text(a: &Option<String>, b: &str) -> (r: bool)
    ensures
        r == (a.deep_view() == Some(b@)),
{
    match a {
        Some(s) => same_text(s.as_str(), b),
        None => false,
    }
}

/// Whether `s` begins with `prefix`.
pub fn has_prefix(s: &str, prefix: &str) -> (r: bool)
    ensures
        r == starts_with(s@, prefix@),
{
    let v = chars_of(s);
    let p = chars_of(prefix);
    if p.len() > v.len() {
        return false;
    }
    let mut i: usize = 0;
    while i < p.len()
        invariant
            i <= p.len() <= v.len(),
            v@ == s@,
            p@ == prefix@,
            forall|j: int| 0 <= j < i ==> v@[j] == p@[j],
        decreases p.len() - i,
    {
        if v[i] != p[i] {
            assert(s@.take(p.len() as int)[i as int] != prefix@[i as int]);
            return false;
        }
        i += 1;
    }
    assert(s@.take(p.len() as int) =~= prefix@);
    true
}

/// Whether `s` ends with `suffix`.
pub fn has_suffix(s: &str, suffix: &str) -> (r: bool)
    ensures
        r == ends_with(s@, suffix@),
{
    let v = chars_of(s);
    let p = chars_of(suffix);
    if p.len() > v.len() {
        return false;
    }
    let shift = v.len() - p.len();
    let mut i: usize = 0;
    while i < p.len()
        invariant
            i <= p.len() <= v.len(),
            shift == v.len() - p.len(),
            v@ == s@,
            p@ == suffix@,
            forall|j: int| 0 <= j < i ==> v@[j + shift] == p@[j],
        decreases p.len() - i,
    {
        if v[i + shift] != p[i] {
            assert(s@.skip(shift as int)[i as int] != suffix@[i as int]);
            return false;
        }
        i += 1;
    }
    assert(s@.skip(shift as int) =~= suffix@);
    true
}

/// Whether `c` occurs in `s`.
pub fn has_char(s: &str, c: char) -> (r: bool)
    ensures
        r == s@.contains(c),
{
    let v = chars_of(s);
    let mut i: usize = 0;
    while i < v.len()
        invariant
            i <= v.len(),
            v@ == s@,
            forall|j: int| 0 <= j < i ==> v@[j] != c,
        decreases v.len() - i,
    {
        if v[i] == c {
            assert(s@[i as int] == c);
            return true;
        }
        i += 1;
    }
    false
}

/// The first `n` characters of `s`, all of it where it is shorter.
pub open spec fn first_chars(s: Seq<char>, n: int) -> Seq<char> {
    if s.len() <= n {
        s
    } else {
        s.take(n)
    }
}

/// The first `n` characters of `s`, all of it where it is shorter.
pub fn take_chars(s: &str, n: usize) -> (r: String)
    ensures
        r@ == first_chars(s@, n as int),
{
    let v = chars_of(s);
    let end = if v.len() <= n {
        v.len()
    } else {
        n
    };
    let r = text_between(&v, 0, end);
    assert(r@ =~= first_chars(s@, n as int));
    r
}

/// All but the first `n` characters of `s`, nothing where it is shorter.
pub open spec fn without_chars(s: Seq<char>, n: int) -> Seq<char> {
    if s.len() <= n {
        Seq::empty()
    } else {
        s.skip(n)
    }
}

/// All but the first `n` characters of `s`, nothing where it is shorter.
pub fn skip_chars(s: &str, n: usize) -> (r: String)
    ensures
        r@ == without_chars(s@, n as int),
{
    let v = chars_of(s);
    let from = if v.len() <= n {
        v.len()
    } else {
        n
    };
    let r = text_between(&v, from, v.len());
    assert(r@ =~= without_chars(s@, n as int));
    r
}

// Decimal numbers.

/// The decimal digit `d`.
pub open spec fn digit(d: nat) -> char {
    (d + 48) as char
}

/// `n` in decimal, without leading zeros.
pub open spec fn decimal_text(n: nat) -> Seq<char>
    decreases n,
{
    if n < 10 {
        seq![digit(n)]
    } else {
        decimal_text(n / 10).push(digit(n % 10))
    }
}

/// `n` in decimal, without leading zeros.
pub fn decimal(n: u64) -> (s: String)
    ensures
        s@ == decimal_text(n as nat),
    decreases n,
{
    let last = ((n % 10) as u8 + 48u8) as char;
    let mut s = if n < 10 {
        String::new()
    } else {
        decimal(n / 10)
    };
    s.push(last);
    assert(s@ =~= decimal_text(n as nat));
    s
}

/// A decimal digit.
pub open spec fn decimal_digit(c: char) -> bool {
    '0' <= c && c <= '9'
}

/// The number that some decimal digits stand for.
pub open spec fn decimal_value(s: Seq<char>) -> nat
    decreases s.len(),
{
    if s.len() == 0 {
        0
    } else {
        decimal_value(s.drop_last()) * 10 + (s.last() as u32 - 48) as nat
    }
}

/// The unsigned number that a text spells: decimal digits, at least one, with
/// a `+` before them or not, and no larger than fits sixty-four bits.
pub open spec fn spelled_number(s: Seq<char>) -> Option<nat> {
    let digits = unsigned_part(s);
    if digits.len() > 0 && all_digits(digits) && decimal_value(digits) <= u64::MAX {
        Some(decimal_value(digits))
    } else {
        None
    }
}

/// A text without the `+` that it may begin with.
pub open spec fn unsigned_part(s: Seq<char>) -> Seq<char> {
    if s.len() > 0 && s[0] == '+' {
        s.skip(1)
    } else {
        s
    }
}

/// Nothing but decimal digits.
pub open spec fn all_digits(s: Seq<char>) -> bool {
    forall|i: int| 0 <= i < s.len() ==> decimal_digit(#[trigger] s[i])
}

proof fn lemma_decimal_value_grows(s: Seq<char>, n: int)
    requires
        0 <= n <= s.len(),
        forall|i: int| 0 <= i < s.len() ==> decimal_digit(#[trigger] s[i]),
    ensures
        decimal_value(s.take(n)) <= decimal_value(s),
    decreases s.len(),
{
    if n < s.len() {
        let t = s.drop_last();
        lemma_decimal_value_grows(t, n);
        assert(t.take(n) =~= s.take(n));
        assert(decimal_value(s) >= decimal_value(t));
    } else {
        assert(s.take(n) =~= s);
    }
}

/// The unsigned number that a text spells.
pub fn parse_number(s: &str) -> (r: Option<u64>)
    ensures
        (match r {
            Some(n) => Some(n as nat),
            None => None,
        }) == spelled_number(s@),
{
    let v = chars_of(s);
    let from: usize = if v.len() > 0 && v[0] == '+' {
        1
    } else {
        0
    };
    let ghost digits = unsigned_part(s@);
    assert(digits =~= s@.skip(from as int));
    if from == v.len() {
        return None;
    }
    let mut n: u64 = 0;
    let mut i: usize = from;
    assert(digits.take(0) =~= Seq::<char>::empty());
    let mut k: usize = from;
    while k < v.len()
        invariant
            from <= k <= v.len(),
            v@ == s@,
            digits == unsigned_part(s@),
            digits == s@.skip(from as int),
            forall|j: int| 0 <= j < k - from ==> decimal_digit(#[trigger] digits[j]),
        decreases v.len() - k,
    {
        if !('0' <= v[k] && v[k] <= '9') {
            assert(!decimal_digit(digits[k - from]));
            return None;
        }
        k += 1;
    }
    while i < v.len()
        invariant
            from <= i <= v.len(),
            v@ == s@,
            digits == unsigned_part(s@),
            digits == s@.skip(from as int),
            all_digits(digits),
            n == decimal_value(digits.take(i - from)),
            from < v.len(),
        decreases v.len() - i,
    {
        let c = v[i];
        assert(c == digits[i - from]);
        assert(decimal_digit(digits[i - from]));
        let d = c as u64 - 48;
        assert(digits.take(i - from + 1).drop_last() =~= digits.take(i - from));
        assert(decimal_value(digits.take(i - from + 1)) == n * 10 + d);
        proof {
            lemma_decimal_value_grows(digits, i - from + 1);
        }
        if n > (u64::MAX - d) / 10 {
            assert(n * 10 + d > u64::MAX);
            return None;
        }
        n = n * 10 + d;
        i += 1;
    }
    assert(digits.take(i - from) =~= digits);
    Some(n)
}

/// A number in decimal is made of decimal digits and reads back as that number, and none
/// but zero begins with a zero.
pub proof fn law_decimals_read_back(n: nat)
    ensures
        decimal_text(n).len() > 0,
        all_digits(decimal_text(n)),
        decimal_value(decimal_text(n)) == n,
        n > 0 ==> decimal_text(n)[0] != '0',
        n <= u64::MAX ==> spelled_number(decimal_text(n)) == Some(n),
    decreases n,
{
    let s = decimal_text(n);
    if n < 10 {
        assert(decimal_digit(digit(n)));
        assert(s.drop_last() =~= Seq::empty());
        assert(s.last() == digit(n));
        assert(s.last() as u32 - 48 == n);
        reveal_with_fuel(decimal_value, 2);
    } else {
        law_decimals_read_back(n / 10);
        let t = decimal_text(n / 10);
        assert(s.drop_last() =~= t);
        assert(s.last() == digit(n % 10));
        assert(decimal_digit(digit(n % 10)));
        assert(s.last() as u32 - 48 == n % 10);
        assert forall|i: int| 0 <= i < s.len() implies decimal_digit(#[trigger] s[i]) by {
            if i < t.len() {
                assert(s[i] == t[i]);
            }
        }
        assert(s[0] == t[0]);
    }
    assert(decimal_digit(s[0]));
    assert(unsigned_part(s) == s);
}

/// A spelled number is what its digits say: each further digit counts ten times what was
/// before it and itself, and a `+` before the digits says nothing.
pub proof fn law_digits_count_in_tens(s: Seq<char>, d: char)
    requires
        decimal_digit(d),
    ensures
        decimal_value(s.push(d)) == 10 * decimal_value(s) + (d as u32 - '0' as u32),
        decimal_value(Seq::empty()) == 0,
        s.len() > 0 && s[0] != '+' ==> spelled_number(seq!['+'] + s) == spelled_number(s),
        spelled_number(Seq::empty()) is None,
        spelled_number(s) is Some ==> s.len() > 0 && forall|i: int|
            0 < i < s.len() ==> decimal_digit(#[trigger] s[i]),
{
    assert(s.push(d).drop_last() =~= s);
    let p = seq!['+'] + s;
    assert(p.skip(1) =~= s);
    if spelled_number(s) is Some {
        let digits = unsigned_part(s);
        assert forall|i: int| 0 < i < s.len() implies decimal_digit(#[trigger] s[i]) by {
            if s[0] == '+' {
                assert(digits[i - 1] == s[i]);
            } else {
                assert(digits[i] == s[i]);
            }
        }
    }
}

// Joining.

/// The parts in order with `sep` between neighbours.
pub open spec fn joined(parts: Seq<Seq<char>>, sep: Seq<char>) -> Seq<char>
    decreases parts.len(),
{
    if parts.len() == 0 {
        Seq::empty()
    } else if parts.len() == 1 {
        parts[0]
    } else {
        joined(parts.drop_last(), sep) + sep + parts.last()
    }
}

/// The parts in order with `sep` between neighbours.
pub fn join(parts: &Vec<String>, sep: &str) -> (s: String)
    ensures
        s@ == joined(parts.deep_view(), sep@),
{
    let mut s = String::new();
    let mut i: usize = 0;
    let ghost all = parts.deep_view();
    while i < parts.len()
        invariant
            i <= parts.len(),
            all == parts.deep_view(),
            s@ == joined(all.take(i as int), sep@),
        decreases parts.len() - i,
    {
        if i == 0 {
            s = parts[i].clone();
            assert(all.take(1)[0] == parts@[0]@);
        } else {
            s = s.concat(sep).concat(parts[i].as_str());
            assert(all.take(i + 1).drop_last() =~= all.take(i as int));
            assert(all.take(i + 1).last() == parts@[i as int]@);
        }
        i += 1;
    }
    assert(all.take(parts.len() as int) =~= all);
    s
}

/// Joining puts the separator between neighbours and nowhere else: nothing joined is
/// empty, one part is itself, and two lists that hold something, joined one behind the
/// other, are each joined with one separator between them.
pub proof fn law_joining_goes_piece_by_piece(
    a: Seq<Seq<char>>,
    b: Seq<Seq<char>>,
    part: Seq<char>,
    sep: Seq<char>,
)
    ensures
        joined(Seq::empty(), sep) == Seq::<char>::empty(),
        joined(seq![part], sep) == part,
        a.len() > 0 && b.len() > 0 ==> joined(a + b, sep) == joined(a, sep) + sep + joined(b, sep),
    decreases b.len(),
{
    if a.len() > 0 && b.len() > 0 {
        assert((a + b).drop_last() =~= a + b.drop_last());
        assert((a + b).last() == b.last());
        if b.len() == 1 {
            assert(a + b.drop_last() =~= a);
        } else {
            law_joining_goes_piece_by_piece(a, b.drop_last(), part, sep);
            assert(joined(a, sep) + sep + joined(b.drop_last(), sep) + sep + b.last() =~= joined(
                a,
                sep,
            ) + sep + joined(b, sep));
        }
    }
}

// Order.

/// Byte-wise lexicographic order, strict.
pub open spec fn bytes_less(a: Seq<u8>, b: Seq<u8>) -> bool
    decreases a.len(),
{
    if b.len() == 0 {
        false
    } else if a.len() == 0 {
        true
    } else if a[0] != b[0] {
        a[0] < b[0]
    } else {
        bytes_less(a.drop_first(), b.drop_first())
    }
}

/// The order of texts: lexicographic over their UTF-8 bytes.
pub open spec fn text_less(a: Seq<char>, b: Seq<char>) -> bool {
    bytes_less(encode_utf8(a), encode_utf8(b))
}

/// No byte sequence precedes itself.
pub proof fn lemma_bytes_less_irreflexive(a: Seq<u8>)
    ensures
        !bytes_less(a, a),
    decreases a.len(),
{
    if a.len() > 0 {
        lemma_bytes_less_irreflexive(a.drop_first());
    }
}

/// The byte order is transitive.
pub proof fn lemma_bytes_less_transitive(a: Seq<u8>, b: Seq<u8>, c: Seq<u8>)
    requires
        bytes_less(a, b),
        bytes_less(b, c),
    ensures
        bytes_less(a, c),
    decreases a.len(),
{
    if a.len() > 0 && b.len() > 0 && c.len() > 0 && a[0] == b[0] && b[0] == c[0] {
        lemma_bytes_less_transitive(a.drop_first(), b.drop_first(), c.drop_first());
    }
}

/// Of two different byte sequences one precedes the other.
pub proof fn lemma_bytes_less_total(a: Seq<u8>, b: Seq<u8>)
    ensures
        bytes_less(a, b) || bytes_less(b, a) || a == b,
    decreases a.len(),
{
    if a.len() > 0 && b.len() > 0 {
        if a[0] == b[0] {
            lemma_bytes_less_total(a.drop_first(), b.drop_first());
            if a.drop_first() == b.drop_first() {
                assert(a =~= seq![a[0]] + a.drop_first());
                assert(b =~= seq![b[0]] + b.drop_first());
            }
        }
    } else if a.len() == 0 && b.len() == 0 {
        assert(a =~= b);
    }
}

/// The text order is strict and total: exactly one of "before", "after" and
/// "same" holds of two texts.
pub proof fn lemma_text_order(a: Seq<char>, b: Seq<char>)
    ensures
        !text_less(a, a),
        text_less(a, b) || text_less(b, a) || a == b,
        !(text_less(a, b) && text_less(b, a)),
{
    lemma_bytes_less_irreflexive(encode_utf8(a));
    lemma_bytes_less_total(encode_utf8(a), encode_utf8(b));
    encode_utf8_decode_utf8(a);
    encode_utf8_decode_utf8(b);
    if text_less(a, b) && text_less(b, a) {
        lemma_bytes_less_transitive(encode_utf8(a), encode_utf8(b), encode_utf8(a));
    }
}

/// The text order is transitive, also where one of the two steps is an
/// equality read as "not after".
pub proof fn lemma_text_order_transitive(a: Seq<char>, b: Seq<char>, c: Seq<char>)
    ensures
        text_less(a, b) && text_less(b, c) ==> text_less(a, c),
        text_less(a, b) && !text_less(c, b) ==> text_less(a, c),
        !text_less(b, a) && text_less(b, c) ==> text_less(a, c),
        !text_less(b, a) && !text_less(c, b) ==> !text_less(c, a),
{
    lemma_text_order(a, b);
    lemma_text_order(b, c);
    lemma_text_order(a, c);
    if text_less(a, b) && text_less(b, c) {
        lemma_bytes_less_transitive(encode_utf8(a), encode_utf8(b), encode_utf8(c));
    }
}

/// Whether `a` precedes `b` in the text order.
pub fn less_text(a: &str, b: &str) -> (r: bool)
    ensures
        r == text_less(a@, b@),
{
    let x = a.as_bytes();
    let y = b.as_bytes();
    let mut i: usize = 0;
    assert(x@.skip(0) =~= x@);
    assert(y@.skip(0) =~= y@);
    while i < x.len() && i < y.len()
        invariant
            i <= x.len(),
            i <= y.len(),
            x@ == encode_utf8(a@),
            y@ == encode_utf8(b@),
            text_less(a@, b@) == bytes_less(x@.skip(i as int), y@.skip(i as int)),
        decreases x.len() - i,
    {
        if x[i] != y[i] {
            return x[i] < y[i];
        }
        assert(x@.skip(i as int).drop_first() =~= x@.skip(i + 1));
        assert(y@.skip(i as int).drop_first() =~= y@.skip(i + 1));
        i += 1;
    }
    i < y.len()
}

// ASCII.

/// `c` with an upper-case ASCII letter lowered.
pub open spec fn ascii_lower(c: char) -> char {
    if 'A' <= c && c <= 'Z' {
        ((c as u32) + 32) as char
    } else {
        c
    }
}

/// `c` with an upper-case ASCII letter lowered.
pub fn lower_ascii(c: char) -> (r: char)
    ensures
        r == ascii_lower(c),
{
    if 'A' <= c && c <= 'Z' {
        (c as u8 + 32u8) as char
    } else {
        c
    }
}

/// Equality up to the case of ASCII letters.
pub open spec fn same_ignoring_ascii_case(a: Seq<char>, b: Seq<char>) -> bool {
    a.len() == b.len() && forall|i: int|
        0 <= i < a.len() ==> ascii_lower(#[trigger] a[i]) == ascii_lower(b[i])
}

/// Equality up to the case of ASCII letters.
pub fn eq_ignore_case(a: &str, b: &str) -> (r: bool)
    ensures
        r == same_ignoring_ascii_case(a@, b@),
{
    let x = chars_of(a);
    let y = chars_of(b);
    if x.len() != y.len() {
        return false;
    }
    let mut i: usize = 0;
    while i < x.len()
        invariant
            i <= x.len(),
            x.len() == y.len(),
            x@ == a@,
            y@ == b@,
            forall|j: int| 0 <= j < i ==> ascii_lower(#[trigger] a@[j]) == ascii_lower(b@[j]),
        decreases x.len() - i,
    {
        if lower_ascii(x[i]) != lower_ascii(y[i]) {
            assert(ascii_lower(a@[i as int]) != ascii_lower(b@[i as int]));
            return false;
        }
        i += 1;
    }
    true
}

/// The case of an ASCII letter is all that may differ: texts that are the same up to it
/// are as long, upper-case letters count as their lower-case ones, and every other
/// character has to be the same.
pub proof fn law_only_ascii_case_is_ignored(a: Seq<char>, b: Seq<char>)
    ensures
        same_ignoring_ascii_case(a, b) <==> a.len() == b.len() && forall|i: int|
            0 <= i < a.len() ==> (#[trigger] a[i] == b[i] || ('A' <= a[i] && a[i] <= 'Z' && b[i]
                as u32 == a[i] as u32 + 32) || ('A' <= b[i] && b[i] <= 'Z' && a[i] as u32 == b[i]
                as u32 + 32)),
{
    assert forall|c: char, d: char| (#[trigger] ascii_lower(c) == #[trigger] ascii_lower(d))
        == (c == d || ('A' <= c && c <= 'Z' && d as u32 == c as u32 + 32) || ('A' <= d && d
        <= 'Z' && c as u32 == d as u32 + 32)) by {}
    if same_ignoring_ascii_case(a, b) {
        assert forall|i: int| 0 <= i < a.len() implies (#[trigger] a[i] == b[i] || ('A' <= a[i]
            && a[i] <= 'Z' && b[i] as u32 == a[i] as u32 + 32) || ('A' <= b[i] && b[i] <= 'Z'
            && a[i] as u32 == b[i] as u32 + 32)) by {
            assert(ascii_lower(a[i]) == ascii_lower(b[i]));
        }
    }
}

/// ASCII letters and digits.
pub open spec fn ascii_alphanumeric(c: char) -> bool {
    ('a' <= c && c <= 'z') || ('A' <= c && c <= 'Z') || ('0' <= c && c <= '9')
}

/// ASCII letters and digits.
pub fn is_ascii_alphanumeric(c: char) -> (r: bool)
    ensures
        r == ascii_alphanumeric(c),
{
    ('a' <= c && c <= 'z') || ('A' <= c && c <= 'Z') || ('0' <= c && c <= '9')
}

/// The upper-case hexadecimal digit of a value below sixteen.
pub open spec fn upper_hex(n: int) -> char {
    if n < 10 {
        (n + 48) as char
    } else {
        (n + 55) as char
    }
}

/// The upper-case hexadecimal digit of a value below sixteen.
pub fn upper_hex_digit(n: u8) -> (c: char)
    requires
        n < 16,
    ensures
        c == upper_hex(n as int),
{
    if n < 10 {
        (n + 48u8) as char
    } else {
        (n + 55u8) as char
    }
}

// Searching.

/// The first place of `c` in `s` from `from` on, the length of `s` where there
/// is none.
pub open spec fn index_of(s: Seq<char>, c: char, from: int) -> int
    decreases s.len() - from,
{
    if from < 0 || from >= s.len() || s[from] == c {
        if from < s.len() {
            from
        } else {
            s.len() as int
        }
    } else {
        index_of(s, c, from + 1)
    }
}

/// `index_of` is the first such place, and the end where there is none.
pub proof fn lemma_index_of(s: Seq<char>, c: char, from: int)
    requires
        0 <= from <= s.len(),
    ensures
        from <= index_of(s, c, from) <= s.len(),
        index_of(s, c, from) < s.len() ==> s[index_of(s, c, from)] == c,
        forall|j: int| from <= j < index_of(s, c, from) ==> s[j] != c,
    decreases s.len() - from,
{
    if from < s.len() && s[from] != c {
        lemma_index_of(s, c, from + 1);
    }
}

/// The first place of `c` in `v` from `from` on, the length where there is
/// none.
pub fn find_char(v: &Vec<char>, c: char, from: usize) -> (r: usize)
    requires
        from <= v.len(),
    ensures
        r == index_of(v@, c, from as int),
        from <= r <= v.len(),
{
    let mut i: usize = from;
    while i < v.len() && v[i] != c
        invariant
            from <= i <= v.len(),
            index_of(v@, c, from as int) == index_of(v@, c, i as int),
        decreases v.len() - i,
    {
        i += 1;
    }
    i
}

/// The first place from `from` on whose character is white space (`space`) or
/// is none (`!space`), the length of `s` where there is none.
pub open spec fn next_boundary(s: Seq<char>, from: int, space: bool) -> int
    decreases s.len() - from,
{
    if from < 0 || from >= s.len() || white_space(s[from]) == space {
        if from < s.len() {
            from
        } else {
            s.len() as int
        }
    } else {
        next_boundary(s, from + 1, space)
    }
}

fn find_boundary(v: &Vec<char>, from: usize, space: bool) -> (r: usize)
    requires
        from <= v.len(),
    ensures
        r == next_boundary(v@, from as int, space),
        from <= r <= v.len(),
{
    let mut i: usize = from;
    while i < v.len() && v[i].is_whitespace() != space
        invariant
            from <= i <= v.len(),
            next_boundary(v@, from as int, space) == next_boundary(v@, i as int, space),
        decreases v.len() - i,
    {
        i += 1;
    }
    i
}

/// The end of `s` without the white space at its end.
pub open spec fn trimmed_end(s: Seq<char>, end: int) -> int
    decreases end,
{
    if 0 < end <= s.len() && white_space(s[end - 1]) {
        trimmed_end(s, end - 1)
    } else {
        end
    }
}

/// `s` without the white space at its ends.
pub open spec fn trimmed(s: Seq<char>) -> Seq<char> {
    let from = next_boundary(s, 0, false);
    let to = trimmed_end(s, s.len() as int);
    if from <= to {
        s.subrange(from, to)
    } else {
        Seq::empty()
    }
}

/// `s` without the white space at its ends.
pub fn trim(s: &str) -> (r: String)
    ensures
        r@ == trimmed(s@),
{
    let v = chars_of(s);
    let from = find_boundary(&v, 0, false);
    let mut to: usize = v.len();
    while to > 0 && v[to - 1].is_whitespace()
        invariant
            to <= v.len(),
            trimmed_end(v@, v.len() as int) == trimmed_end(v@, to as int),
        decreases to,
    {
        to -= 1;
    }
    if from <= to {
        text_between(&v, from, to)
    } else {
        let r = String::new();
        assert(r@ =~= Seq::empty());
        r
    }
}

/// A text without the white space at its ends is all of the text between its first and
/// its last character that is none, and nothing where there is no such character.
pub proof fn law_trimming_takes_white_space_alone(
    front: Seq<char>,
    s: Seq<char>,
    back: Seq<char>,
)
    requires
        forall|i: int| 0 <= i < front.len() ==> white_space(#[trigger] front[i]),
        forall|i: int| 0 <= i < back.len() ==> white_space(#[trigger] back[i]),
        s.len() > 0 ==> !white_space(s[0]) && !white_space(s.last()),
    ensures
        trimmed(front + s + back) == s,
{
    let all = front + s + back;
    let n = front.len() as int;
    lemma_boundary(all, 0, false);
    lemma_before_boundary(all, 0, false);
    lemma_trimmed_end(all, all.len() as int);
    let from = next_boundary(all, 0, false);
    let to = trimmed_end(all, all.len() as int);
    if s.len() > 0 {
        assert(all[n] == s[0]);
        assert(from == n) by {
            if from < n {
                assert(all[from] == front[from]);
            }
        }
        let last = n + s.len() - 1;
        assert(all[last] == s.last());
        assert(to == last + 1) by {
            if to > last + 1 {
                assert(all[to - 1] == back[to - 1 - last - 1]);
            }
        }
        assert(all.subrange(from, to) =~= s);
    } else {
        assert(from == all.len()) by {
            if from < all.len() {
                if from < n {
                    assert(all[from] == front[from]);
                } else {
                    assert(all[from] == back[from - n]);
                }
            }
        }
        assert(to == 0) by {
            if to > 0 {
                if to - 1 < n {
                    assert(all[to - 1] == front[to - 1]);
                } else {
                    assert(all[to - 1] == back[to - 1 - n]);
                }
            }
        }
        assert(trimmed(all) =~= s);
    }
}

proof fn lemma_trimmed_end(s: Seq<char>, end: int)
    requires
        0 <= end <= s.len(),
    ensures
        0 <= trimmed_end(s, end) <= end,
        trimmed_end(s, end) > 0 ==> !white_space(s[trimmed_end(s, end) - 1]),
        forall|i: int| trimmed_end(s, end) <= i < end ==> white_space(#[trigger] s[i]),
    decreases end,
{
    if end > 0 && white_space(s[end - 1]) {
        lemma_trimmed_end(s, end - 1);
    }
}

/// The first word of `s`: its first run of characters that are no white space.
pub open spec fn first_word(s: Seq<char>) -> Option<Seq<char>> {
    let from = next_boundary(s, 0, false);
    let to = next_boundary(s, from, true);
    if from < s.len() {
        Some(s.subrange(from, to))
    } else {
        None
    }
}

/// The first line of `s`, without its end.
pub open spec fn first_line(s: Seq<char>) -> Seq<char> {
    s.take(index_of(s, '\n', 0))
}

/// The first word of the first line of `s`.
pub fn leading_word(s: &str) -> (r: Option<String>)
    ensures
        r.deep_view() == first_word(first_line(s@)),
        r matches Some(w) ==> w@.len() > 0,
{
    let all = chars_of(s);
    let end = find_char(&all, '\n', 0);
    let line = text_between(&all, 0, end);
    assert(line@ =~= first_line(s@));
    let v = chars_of(line.as_str());
    let from = find_boundary(&v, 0, false);
    if from == v.len() {
        return None;
    }
    let to = find_boundary(&v, from, true);
    proof {
        lemma_boundary(v@, 0, false);
        lemma_boundary(v@, from + 1, true);
    }
    Some(text_between(&v, from, to))
}

proof fn lemma_boundary(s: Seq<char>, from: int, space: bool)
    requires
        0 <= from <= s.len(),
    ensures
        from <= next_boundary(s, from, space) <= s.len(),
        next_boundary(s, from, space) < s.len() ==> white_space(
            s[next_boundary(s, from, space)],
        ) == space,
    decreases s.len() - from,
{
    if from < s.len() && white_space(s[from]) != space {
        lemma_boundary(s, from + 1, space);
    }
}

/// The first word of a text is what stands behind the white space that it begins with,
/// up to the next white space or its end; a text of white space alone has none.
pub proof fn law_the_first_word_ends_at_white_space(
    front: Seq<char>,
    word: Seq<char>,
    back: Seq<char>,
)
    requires
        forall|i: int| 0 <= i < front.len() ==> white_space(#[trigger] front[i]),
        forall|i: int| 0 <= i < word.len() ==> !white_space(#[trigger] word[i]),
        back.len() > 0 ==> white_space(back[0]),
        word.len() > 0,
    ensures
        first_word(front + word + back) == Some(word),
        first_word(front) is None,
{
    let all = front + word + back;
    let n = front.len() as int;
    lemma_boundary(all, 0, false);
    lemma_before_boundary(all, 0, false);
    let from = next_boundary(all, 0, false);
    assert(all[n] == word[0]);
    assert(from == n) by {
        if from < n {
            assert(all[from] == front[from]);
        }
    }
    lemma_boundary(all, from, true);
    lemma_before_boundary(all, from, true);
    let to = next_boundary(all, from, true);
    let end = n + word.len();
    assert(to == end) by {
        if to < end {
            assert(all[to] == word[to - n]);
        } else if to > end {
            assert(all[end] == back[0]);
        }
    }
    assert(all.subrange(from, to) =~= word);
    lemma_boundary(front, 0, false);
    let none = next_boundary(front, 0, false);
    if none < front.len() {
        assert(white_space(front[none]));
    }
}

/// The first line of a text is what stands before its first line break, all of it where
/// there is none.
pub proof fn law_the_first_line_ends_at_the_first_break(line: Seq<char>, rest: Seq<char>)
    requires
        !line.contains('\n'),
    ensures
        first_line(line + seq!['\n'] + rest) == line,
        first_line(line) == line,
{
    let all = line + seq!['\n'] + rest;
    lemma_index_of(all, '\n', 0);
    lemma_index_of(line, '\n', 0);
    let i = index_of(all, '\n', 0);
    assert(all[line.len() as int] == '\n');
    if i < line.len() {
        assert(line[i] == '\n');
    }
    let j = index_of(line, '\n', 0);
    if j < line.len() {
        assert(line[j] == '\n');
    }
    assert(all.take(i) =~= line);
    assert(line.take(j) =~= line);
}

/// One word that is no command-line option: not empty, no leading `-`, no
/// white space.
pub open spec fn single_token(s: Seq<char>) -> bool {
    &&& s.len() > 0
    &&& s[0] != '-'
    &&& forall|i: int| 0 <= i < s.len() ==> !white_space(#[trigger] s[i])
}

/// One word that is no command-line option.
pub fn safe_token(s: &str) -> (r: bool)
    ensures
        r == single_token(s@),
{
    let v = chars_of(s);
    if v.len() == 0 || v[0] == '-' {
        return false;
    }
    let i = find_boundary(&v, 0, true);
    proof {
        lemma_boundary(v@, 0, true);
        lemma_before_boundary(v@, 0, true);
    }
    i == v.len()
}

proof fn lemma_before_boundary(s: Seq<char>, from: int, space: bool)
    requires
        0 <= from <= s.len(),
    ensures
        forall|j: int|
            from <= j < next_boundary(s, from, space) ==> white_space(#[trigger] s[j])
                != space,
    decreases s.len() - from,
{
    if from < s.len() && white_space(s[from]) != space {
        lemma_before_boundary(s, from + 1, space);
    }
}

/// A name made of ASCII letters, digits and `-`, and of `_` where that is
/// allowed; not empty.
pub open spec fn bare_token(s: Seq<char>, underscore: bool) -> bool {
    s.len() > 0 && forall|i: int|
        0 <= i < s.len() ==> (ascii_alphanumeric(#[trigger] s[i]) || s[i] == '-' || (underscore
            && s[i] == '_'))
}

/// A name made of ASCII letters, digits and `-`, and of `_` where that is
/// allowed; not empty.
pub fn is_bare_token(s: &str, underscore: bool) -> (r: bool)
    ensures
        r == bare_token(s@, underscore),
{
    let v = chars_of(s);
    if v.len() == 0 {
        return false;
    }
    let mut i: usize = 0;
    while i < v.len()
        invariant
            i <= v.len(),
            v@ == s@,
            forall|j: int|
                0 <= j < i ==> (ascii_alphanumeric(#[trigger] s@[j]) || s@[j] == '-' || (underscore
                    && s@[j] == '_')),
        decreases v.len() - i,
    {
        let c = v[i];
        if !(is_ascii_alphanumeric(c) || c == '-' || (underscore && c == '_')) {
            assert(s@[i as int] == c);
            return false;
        }
        i += 1;
    }
    true
}

/// What the bytes say as UTF-8, nothing where they are not UTF-8.
pub open spec fn utf8_text(bytes: Seq<u8>) -> Option<Seq<char>> {
    if valid_utf8(bytes) {
        Some(decode_utf8(bytes))
    } else {
        None
    }
}

/// `std::str::from_utf8`, copied. Claimed: it takes exactly the byte sequences
/// that are UTF-8, and gives the characters that they encode.
#[verifier::external_body]
pub(crate) fn text_from_utf8(bytes: &[u8]) -> (r: Option<String>)
    ensures
        r.deep_view() == utf8_text(bytes@),
{
    std::str::from_utf8(bytes).ok().map(|s| s.to_string())
}

/// The first characters of a text and the others make up the text, and there are as many
/// of the first as were asked for, or all.
pub proof fn law_a_text_is_its_beginning_and_its_rest(s: Seq<char>, n: int)
    requires
        0 <= n,
    ensures
        first_chars(s, n) + without_chars(s, n) == s,
        first_chars(s, n).len() == if s.len() <= n {
            s.len() as int
        } else {
            n
        },
{
    assert(first_chars(s, n) + without_chars(s, n) =~= s);
}

/// Texts begin, end and hold as one reads them: a text begins with another where it is
/// that text and some more, ends with it where it is some text and then it, and holds it
/// where it is some text, then it, and some more.
pub proof fn law_begins_ends_and_holds(front: Seq<char>, part: Seq<char>, back: Seq<char>)
    ensures
        starts_with(part + back, part),
        ends_with(front + part, part),
        holds(front + part + back, part),
        starts_with(front, part) ==> exists|rest: Seq<char>| front == #[trigger] (part + rest),
        ends_with(front, part) ==> exists|rest: Seq<char>| front == #[trigger] (rest + part),
{
    assert((part + back).take(part.len() as int) =~= part);
    assert((front + part).skip(front.len() as int) =~= part);
    let all = front + part + back;
    let n = front.len() as int;
    assert(all.subrange(n, n + part.len()) =~= part);
    if starts_with(front, part) {
        assert(front =~= part + front.skip(part.len() as int));
    }
    if ends_with(front, part) {
        assert(front =~= front.take(front.len() - part.len()) + part);
    }
}

/// Texts are ordered by their bytes: by the first in which they differ, and where one is
/// the beginning of the other the shorter comes first.
pub proof fn law_bytes_are_ordered_by_the_first_difference(
    same: Seq<u8>,
    x: u8,
    a: Seq<u8>,
    y: u8,
    b: Seq<u8>,
)
    ensures
        x < y ==> bytes_less(same + seq![x] + a, same + seq![y] + b) && !bytes_less(
            same + seq![y] + b,
            same + seq![x] + a,
        ),
        bytes_less(same, same + seq![x] + a),
        !bytes_less(same + seq![x] + a, same),
    decreases same.len(),
{
    let p = same + seq![x] + a;
    let q = same + seq![y] + b;
    if same.len() > 0 {
        law_bytes_are_ordered_by_the_first_difference(same.drop_first(), x, a, y, b);
        assert(p.drop_first() =~= same.drop_first() + seq![x] + a);
        assert(q.drop_first() =~= same.drop_first() + seq![y] + b);
    }
}

/// A bare token is made of ASCII letters, digits and `-`, with `_` only where that is
/// allowed, and is not empty; a single token holds no white space and does not begin with
/// a `-`.
pub proof fn law_what_tokens_are_made_of(s: Seq<char>, c: char, underscore: bool)
    ensures
        bare_token(s.push(c), underscore) <==> (s.len() == 0 || bare_token(s, underscore)) && (
        ascii_alphanumeric(c) || c == '-' || (underscore && c == '_')),
        !bare_token(Seq::empty(), underscore),
        s.len() > 0 ==> (single_token(s.push(c)) <==> single_token(s) && !white_space(c)),
        single_token(seq![c]) <==> c != '-' && !white_space(c),
        !single_token(Seq::empty()),
{
    let t = s.push(c);
    let n = s.len() as int;
    assert(t[n] == c);
    if bare_token(t, underscore) {
        assert forall|i: int| 0 <= i < s.len() implies (ascii_alphanumeric(#[trigger] s[i]) || s[i]
            == '-' || (underscore && s[i] == '_')) by {
            assert(t[i] == s[i]);
        }
    }
    if single_token(t) && s.len() > 0 {
        assert forall|i: int| 0 <= i < s.len() implies !white_space(#[trigger] s[i]) by {
            assert(t[i] == s[i]);
        }
        assert(t[0] == s[0]);
    }
    assert(seq![c][0] == c);
}

proof fn lemma_ascii_encoded(c: char, rest: Seq<char>)
    requires
        (c as u32) < 128,
    ensures
        encode_utf8(seq![c] + rest) == seq![c as u8] + encode_utf8(rest),
{
    let s = seq![c] + rest;
    assert(s.drop_first() =~= rest);
    let n = c as u32;
    assert(n < 128 ==> (n & 0x7F) == n) by (bit_vector);
    assert(encode_scalar(n) =~= seq![c as u8]);
}

proof fn lemma_same_front(front: Seq<char>, a: Seq<char>, b: Seq<char>)
    ensures
        text_less(front + a, front + b) == text_less(a, b),
{
    crate::graph::urls::lemma_encode_utf8_append(front, a);
    crate::graph::urls::lemma_encode_utf8_append(front, b);
    crate::tree::lemma_bytes_less_prefix(encode_utf8(front), encode_utf8(a), encode_utf8(b));
}

/// Texts are ordered as their times are where they are times: by the first character in
/// which they differ, if both are ASCII, and the beginning of a text comes before it.
pub proof fn law_texts_are_ordered_by_the_first_difference(
    same: Seq<char>,
    c: char,
    a: Seq<char>,
    d: char,
    b: Seq<char>,
)
    requires
        c < d,
        (d as u32) < 128,
    ensures
        text_less(same + (seq![c] + a), same + (seq![d] + b)),
        !text_less(same + (seq![d] + b), same + (seq![c] + a)),
        text_less(same, same + (seq![c] + a)),
{
    lemma_same_front(same, seq![c] + a, seq![d] + b);
    lemma_same_front(same, seq![d] + b, seq![c] + a);
    lemma_same_front(same, Seq::empty(), seq![c] + a);
    assert(same + Seq::<char>::empty() =~= same);
    lemma_ascii_encoded(c, a);
    lemma_ascii_encoded(d, b);
    assert((c as u8) < (d as u8));
}

} // verus!
