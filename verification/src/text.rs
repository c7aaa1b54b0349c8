//! Text: what the rules need of `str` and `String`, stated over `Seq<char>`.

use vstd::prelude::*;
use vstd::utf8::{decode_utf8, valid_utf8};

verus! {

/// Trusted: `String::push` puts the character behind the last one of the text.
pub assume_specification[ String::push ](s: &mut String, ch: char)
    ensures
        final(s)@ == old(s)@.push(ch),
;

/// What `String::from_utf8_lossy` makes of bytes that are not UTF-8: the text in which replacement
/// characters stand for the parts that could not be decoded.
pub uninterp spec fn lossy_text(bytes: Seq<u8>) -> Seq<char>;

/// The text shown for raw bytes: what they encode, or the lossy reading where they are not UTF-8.
pub open spec fn shown(bytes: Seq<u8>) -> Seq<char> {
    if valid_utf8(bytes) {
        decode_utf8(bytes)
    } else {
        lossy_text(bytes)
    }
}

/// Trusted: `String::from_utf8` accepts exactly the valid UTF-8 sequences, and the text that it
/// then gives is the one that they encode.
#[verifier::external_body]
pub(crate) fn text_from_utf8(bytes: Vec<u8>) -> (res: Option<String>)
    ensures
        res is Some <==> valid_utf8(bytes@),
        res matches Some(s) ==> s@ == decode_utf8(bytes@),
{
    String::from_utf8(bytes).ok()
}

/// Trusted: `String::from_utf8_lossy` gives the text that valid UTF-8 encodes; what it gives for
/// other bytes is a function of those bytes, of which nothing more is claimed.
#[verifier::external_body]
pub(crate) fn text_from_utf8_lossy(bytes: &Vec<u8>) -> (res: String)
    ensures
        res@ == if valid_utf8(bytes@) {
            decode_utf8(bytes@)
        } else {
            lossy_text(bytes@)
        },
{
    String::from_utf8_lossy(bytes).into_owned()
}

/// `before`, then `middle` in double quotes, then `after`: the shape of every message that names
/// a path, a note or a link.
pub open spec fn quoting(before: Seq<char>, middle: Seq<char>, after: Seq<char>) -> Seq<char> {
    before + seq!['"'] + middle + seq!['"'] + after
}

/// `n` in decimal, without leading zeros.
pub open spec fn decimal(n: nat) -> Seq<char>
    decreases n,
{
    if n < 10 {
        seq![digit(n)]
    } else {
        decimal(n / 10).push(digit(n % 10))
    }
}

/// The number that follows `n`; the first one follows the last.
pub open spec fn number_after(n: u32) -> u32 {
    if n == u32::MAX {
        0
    } else {
        (n + 1) as u32
    }
}

/// The decimal digit of a number below ten.
pub open spec fn digit(n: nat) -> char {
    ('0' as u32 + n) as char
}

/// Whether `a` comes before `b` when texts are ordered character by character, each by its
/// scalar value, a proper prefix first: the order that `String` has.
pub open spec fn precedes(a: Seq<char>, b: Seq<char>) -> bool
    decreases a.len(),
{
    if b.len() == 0 {
        false
    } else if a.len() == 0 {
        true
    } else if a[0] != b[0] {
        (a[0] as u32) < (b[0] as u32)
    } else {
        precedes(a.drop_first(), b.drop_first())
    }
}

/// The characters of `s`, in order.
pub fn chars_of(s: &str) -> (res: Vec<char>)
    ensures
        res@ == s@,
{
    let mut out: Vec<char> = Vec::new();
    for c in it: s.chars()
        invariant
            out@ == s@.take(it.index()),
            it.seq() == s@,
    {
        out.push(c);
        assert(s@.take(it.index() + 1) == s@.take(it.index()).push(s@[it.index()]));
    }
    assert(s@.take(s@.len() as int) == s@);
    out
}

/// The text made of the characters `from` to `to` (exclusive) of `chars`.
pub fn text_of(chars: &Vec<char>, from: usize, to: usize) -> (res: String)
    requires
        from <= to <= chars@.len(),
    ensures
        res@ == chars@.subrange(from as int, to as int),
{
    let mut out = String::new();
    let mut i: usize = from;
    while i < to
        invariant
            from <= i <= to <= chars@.len(),
            out@ == chars@.subrange(from as int, i as int),
        decreases to - i,
    {
        out.push(chars[i]);
        i = i + 1;
        assert(chars@.subrange(from as int, i as int) == chars@.subrange(
            from as int,
            i - 1,
        ).push(chars@[i - 1]));
    }
    out
}

/// Whether two texts are the same.
pub fn same_text(a: &str, b: &str) -> (res: bool)
    ensures
        res == (a@ == b@),
{
    let x: String = a.to_owned();
    let y: String = b.to_owned();
    x == y
}

/// Whether `s` begins with `prefix`.
pub fn starts_with(s: &str, prefix: &str) -> (res: bool)
    ensures
        res == prefix@.is_prefix_of(s@),
{
    let all = chars_of(s);
    let head = chars_of(prefix);
    if head.len() > all.len() {
        return false;
    }
    let mut i: usize = 0;
    while i < head.len()
        invariant
            i <= head@.len() <= all@.len(),
            all@ == s@,
            head@ == prefix@,
            forall|k: int| 0 <= k < i ==> head@[k] == all@[k],
        decreases head@.len() - i,
    {
        if head[i] != all[i] {
            assert(prefix@[i as int] != s@.subrange(0, prefix@.len() as int)[i as int]);
            return false;
        }
        i = i + 1;
    }
    assert(prefix@ =~= s@.subrange(0, prefix@.len() as int));
    true
}

/// Whether `s` ends with `suffix`.
pub fn ends_with(s: &str, suffix: &str) -> (res: bool)
    ensures
        res == suffix@.is_suffix_of(s@),
{
    let all = chars_of(s);
    let tail = chars_of(suffix);
    if tail.len() > all.len() {
        return false;
    }
    let skip: usize = all.len() - tail.len();
    let ghost end = s@.subrange(s@.len() - suffix@.len(), s@.len() as int);
    let mut i: usize = 0;
    while i < tail.len()
        invariant
            i <= tail@.len() <= all@.len(),
            skip + tail@.len() == all.len(),
            all@ == s@,
            tail@ == suffix@,
            end == s@.subrange(s@.len() - suffix@.len(), s@.len() as int),
            forall|k: int| 0 <= k < i ==> tail@[k] == end[k],
        decreases tail@.len() - i,
    {
        if tail[i] != all[skip + i] {
            assert(suffix@[i as int] != end[i as int]);
            return false;
        }
        i = i + 1;
    }
    assert(suffix@ =~= end);
    true
}

/// The two texts one behind the other.
pub fn joined(a: &str, b: &str) -> (res: String)
    ensures
        res@ == a@ + b@,
{
    a.to_owned().concat(b)
}

/// A message that names something in double quotes.
pub fn quoted(before: &str, middle: &str, after: &str) -> (res: String)
    ensures
        res@ == quoting(before@, middle@, after@),
{
    let mut out: String = before.to_owned();
    out.push('"');
    let mut out = out.concat(middle);
    out.push('"');
    let out = out.concat(after);
    assert(out@ =~= quoting(before@, middle@, after@));
    out
}

/// `n` written in decimal.
pub fn decimal_text(n: u32) -> (res: String)
    ensures
        res@ == decimal(n as nat),
    decreases n,
{
    if n < 10 {
        let mut out = String::new();
        out.push(digit_char(n));
        assert(out@ =~= seq![digit(n as nat)]);
        out
    } else {
        let mut out = decimal_text(n / 10);
        out.push(digit_char(n % 10));
        out
    }
}

fn digit_char(n: u32) -> (res: char)
    requires
        n < 10,
    ensures
        res == digit(n as nat),
{
    match n {
        0 => '0',
        1 => '1',
        2 => '2',
        3 => '3',
        4 => '4',
        5 => '5',
        6 => '6',
        7 => '7',
        8 => '8',
        _ => '9',
    }
}

/// Whether `a` comes before `b` in the order of texts.
pub fn text_precedes(a: &str, b: &str) -> (res: bool)
    ensures
        res == precedes(a@, b@),
{
    let x = chars_of(a);
    let y = chars_of(b);
    let mut i: usize = 0;
    assert(a@.skip(0) == a@);
    assert(b@.skip(0) == b@);
    while i < x.len() && i < y.len() && x[i] == y[i]
        invariant
            i <= x@.len(),
            i <= y@.len(),
            x@ == a@,
            y@ == b@,
            precedes(a@, b@) == precedes(a@.skip(i as int), b@.skip(i as int)),
        decreases x@.len() - i,
    {
        assert(a@.skip(i as int).drop_first() == a@.skip(i + 1));
        assert(b@.skip(i as int).drop_first() == b@.skip(i + 1));
        i = i + 1;
    }
    if i >= y.len() {
        false
    } else if i >= x.len() {
        true
    } else {
        assert(a@.skip(i as int)[0] == x@[i as int]);
        assert(b@.skip(i as int)[0] == y@[i as int]);
        (x[i] as u32) < (y[i] as u32)
    }
}

/// The order of texts is total: of two different texts one comes before the other.
pub proof fn text_order_is_total(a: Seq<char>, b: Seq<char>)
    ensures
        a != b ==> precedes(a, b) || precedes(b, a),
        !(precedes(a, b) && precedes(b, a)),
        !precedes(a, a),
    decreases a.len(),
{
    if a.len() > 0 && b.len() > 0 {
        text_order_is_total(a.drop_first(), b.drop_first());
        text_order_is_total(a.drop_first(), a.drop_first());
        vstd::utf8::char_u32_cast(a[0], a[0] as u32);
        vstd::utf8::char_u32_cast(b[0], b[0] as u32);
        if a != b && a[0] == b[0] {
            if a.drop_first() == b.drop_first() {
                assert(a =~= seq![a[0]] + a.drop_first());
                assert(b =~= seq![b[0]] + b.drop_first());
            }
        }
    } else {
        if a.len() > 0 {
            text_order_is_total(a.drop_first(), a.drop_first());
        }
        if a.len() == 0 && b.len() == 0 {
            assert(a =~= b);
        }
    }
}

/// The order of texts is transitive.
pub proof fn text_order_is_transitive(a: Seq<char>, b: Seq<char>, c: Seq<char>)
    requires
        precedes(a, b),
        precedes(b, c),
    ensures
        precedes(a, c),
    decreases a.len(),
{
    if a.len() > 0 && a[0] == b[0] && b[0] == c[0] {
        text_order_is_transitive(a.drop_first(), b.drop_first(), c.drop_first());
    }
}

/// Different numbers have different decimal texts.
pub proof fn decimal_is_injective(m: nat, n: nat)
    ensures
        decimal(m) == decimal(n) ==> m == n,
    decreases m,
{
    if decimal(m) == decimal(n) {
        decimal_has_only_digits(m);
        decimal_has_only_digits(n);
        if m >= 10 && n >= 10 {
            assert(decimal(m).drop_last() =~= decimal(m / 10));
            assert(decimal(n).drop_last() =~= decimal(n / 10));
            decimal_is_injective(m / 10, n / 10);
            assert(decimal(m).last() == digit(m % 10));
            assert(decimal(n).last() == digit(n % 10));
        } else if m < 10 && n < 10 {
            assert(decimal(m)[0] == digit(m));
            assert(decimal(n)[0] == digit(n));
        } else if m < 10 {
            decimal_has_only_digits(n / 10);
        } else {
            decimal_has_only_digits(m / 10);
        }
    }
}

/// A decimal text holds nothing but digits.
pub proof fn decimal_has_only_digits(n: nat)
    ensures
        decimal(n).len() > 0,
        forall|i: int| 0 <= i < decimal(n).len() ==> '0' <= #[trigger] decimal(n)[i] <= '9',
    decreases n,
{
    if n >= 10 {
        decimal_has_only_digits(n / 10);
    }
}

} // verus!
