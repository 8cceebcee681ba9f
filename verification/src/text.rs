//! Text in the packets: names and topics travel as 32-byte fields, padded
//! with zero bytes; ids are written in decimal.
use vstd::prelude::*;
use vstd::string::StrSliceExecFns;
use vstd::string::StringExecFns;
use vstd::utf8::{encode_utf8, valid_utf8, decode_utf8};

verus! {

/// The character of a decimal digit.
pub open spec fn digit_char(d: int) -> char {
    (48 + d) as char
}

/// The decimal digits of `n`, most significant first, without leading zeros.
pub open spec fn decimal(n: nat) -> Seq<char>
    decreases n,
{
    if n < 10 {
        seq![digit_char(n as int)]
    } else {
        decimal(n / 10).push(digit_char((n % 10) as int))
    }
}

/// What `String::from_utf8_lossy` makes of some bytes.
pub uninterp spec fn utf8_lossy(bytes: Seq<u8>) -> Seq<char>;

/// `n` in decimal, as `to_string` writes an integer: no sign, no leading
/// zeros.
pub fn u64_to_decimal(n: u64) -> (r: String)
    ensures
        r@ == decimal(n as nat),
    decreases n,
{
    let digits = "0123456789";
    proof {
        reveal_strlit("0123456789");
    }
    let d = (n % 10) as usize;
    let last = digits.substring_char(d, d + 1);
    assert(last@ =~= seq![digit_char(d as int)]);
    if n < 10 {
        last.to_owned()
    } else {
        let mut s = u64_to_decimal(n / 10);
        s.append(last);
        assert(s@ =~= decimal(n as nat));
        s
    }
}

/// `n` in decimal.
pub fn u32_to_decimal(n: u32) -> (r: String)
    ensures
        r@ == decimal(n as nat),
{
    u64_to_decimal(n as u64)
}

/// `String::from_utf8_lossy`, owned. Its result is named `utf8_lossy`; std
/// documents that valid UTF-8 is decoded unchanged, which the second clause
/// states. What it makes of invalid sequences is left unsaid.
#[verifier::external_body]
pub(crate) fn from_utf8_lossy(bytes: &[u8]) -> (r: String)
    ensures
        r@ == utf8_lossy(bytes@),
        valid_utf8(bytes@) ==> r@ == decode_utf8(bytes@),
{
    String::from_utf8_lossy(bytes).into_owned()
}

/// Whether two strings hold the same characters.
pub fn str_eq(a: &str, b: &str) -> (r: bool)
    ensures
        r == (a@ == b@),
{
    let n = a.unicode_len();
    if n != b.unicode_len() {
        return false;
    }
    let mut i: usize = 0;
    while i < n
        invariant
            n == a@.len(),
            n == b@.len(),
            i <= n,
            forall|k: int| 0 <= k < i ==> a@[k] == b@[k],
        decreases n - i,
    {
        if a.get_char(i) != b.get_char(i) {
            return false;
        }
        i = i + 1;
    }
    assert(a@ =~= b@);
    true
}

/// `s` without the NUL characters at either end.
pub open spec fn trim_nul(s: Seq<char>) -> Seq<char>
    decreases s.len(),
{
    if s.len() == 0 {
        s
    } else if s[0] == '\0' {
        trim_nul(s.drop_first())
    } else if s.last() == '\0' {
        trim_nul(s.drop_last())
    } else {
        s
    }
}

/// `s.trim_matches('\0')`, owned.
pub fn trim_nul_chars(s: &str) -> (r: String)
    ensures
        r@ == trim_nul(s@),
{
    let n = s.unicode_len();
    let mut i: usize = 0;
    assert(s@.subrange(0, n as int) =~= s@);
    while i < n && s.get_char(i) == '\0'
        invariant
            n == s@.len(),
            i <= n,
            trim_nul(s@) == trim_nul(s@.subrange(i as int, n as int)),
        decreases n - i,
    {
        assert(s@.subrange(i as int, n as int).drop_first() =~= s@.subrange(i + 1, n as int));
        i = i + 1;
    }
    let mut j: usize = n;
    while j > i && s.get_char(j - 1) == '\0'
        invariant
            n == s@.len(),
            i <= j <= n,
            i < n ==> s@[i as int] != '\0',
            trim_nul(s@) == trim_nul(s@.subrange(i as int, j as int)),
        decreases j - i,
    {
        let ghost t = s@.subrange(i as int, j as int);
        assert(t[0] != '\0');
        assert(t.drop_last() =~= s@.subrange(i as int, j - 1));
        j = j - 1;
    }
    proof {
        let t = s@.subrange(i as int, j as int);
        if t.len() > 0 {
            assert(t[0] == s@[i as int]);
            assert(t.last() == s@[j - 1]);
        }
    }
    s.substring_char(i, j).to_owned()
}

/// The 32-byte field that carries a name: its UTF-8 bytes, cut after 32
/// bytes, padded with zero bytes.
pub open spec fn name_field(name: Seq<char>) -> Seq<u8> {
    let b = encode_utf8(name);
    Seq::new(32, |i: int| if i < b.len() { b[i] } else { 0u8 })
}

/// The name that a 32-byte field carries: its bytes decoded as
/// `from_utf8_lossy` does, with the NULs at either end removed.
pub open spec fn field_name(field: Seq<u8>) -> Seq<char> {
    trim_nul(lossy_text(field))
}

/// The text that `from_utf8_lossy` gives: the decoded characters when the
/// bytes are valid UTF-8.
pub open spec fn lossy_text(bytes: Seq<u8>) -> Seq<char> {
    if valid_utf8(bytes) {
        decode_utf8(bytes)
    } else {
        utf8_lossy(bytes)
    }
}

/// Appends the 32-byte field that carries `name`.
pub fn push_name_field(out: &mut Vec<u8>, name: &str)
    ensures
        final(out)@ == old(out)@ + name_field(name@),
{
    let bytes = name.as_bytes();
    let len = if bytes.len() < 32 {
        bytes.len()
    } else {
        32
    };
    let mut i: usize = 0;
    while i < 32
        invariant
            bytes@ == encode_utf8(name@),
            len == if bytes@.len() < 32 {
                bytes@.len() as int
            } else {
                32
            },
            i <= 32,
            out@ == old(out)@ + name_field(name@).subrange(0, i as int),
        decreases 32 - i,
    {
        if i < len {
            out.push(bytes[i]);
        } else {
            out.push(0u8);
        }
        i = i + 1;
        assert(out@ =~= old(out)@ + name_field(name@).subrange(0, i as int));
    }
    assert(name_field(name@).subrange(0, 32) =~= name_field(name@));
}

/// Reads the name carried by the 32 bytes at `off`.
pub fn read_name_field(data: &[u8], off: usize) -> (r: String)
    requires
        off + 32 <= data@.len(),
    ensures
        r@ == field_name(data@.subrange(off as int, off + 32)),
{
    assert(data@.len() == data.len());
    let end = off + 32;
    let field = crate::wire::slice_to_vec(data, off, end);
    let decoded = from_utf8_lossy(field.as_slice());
    trim_nul_chars(decoded.as_str())
}

/// The topic of a shard, `shard:` followed by its id in decimal.
pub open spec fn shard_topic(id: u32) -> Seq<char> {
    seq!['s', 'h', 'a', 'r', 'd', ':'] + decimal(id as nat)
}

/// Writes the topic of a shard.
pub fn shard_topic_string(id: u32) -> (r: String)
    ensures
        r@ == shard_topic(id),
{
    let prefix = "shard:";
    proof {
        reveal_strlit("shard:");
    }
    let digits = u32_to_decimal(id);
    let r = prefix.to_owned().concat(digits.as_str());
    assert(r@ =~= shard_topic(id));
    r
}

/// `k` NUL characters.
pub open spec fn nuls(k: nat) -> Seq<char> {
    Seq::new(k, |i: int| '\0')
}

proof fn lemma_encode_concat(a: Seq<char>, b: Seq<char>)
    ensures
        encode_utf8(a + b) == encode_utf8(a) + encode_utf8(b),
    decreases a.len(),
{
    if a.len() == 0 {
        assert(a + b =~= b);
    } else {
        assert((a + b).drop_first() =~= a.drop_first() + b);
        lemma_encode_concat(a.drop_first(), b);
        assert(encode_utf8(a + b) =~= encode_utf8(a) + encode_utf8(b));
    }
}

proof fn lemma_encode_nuls(k: nat)
    ensures
        encode_utf8(nuls(k)) == Seq::new(k, |i: int| 0u8),
    decreases k,
{
    if k > 0 {
        assert(nuls(k).drop_first() =~= nuls((k - 1) as nat));
        lemma_encode_nuls((k - 1) as nat);
        assert(('\0' as u32) == 0);
        assert(vstd::utf8::encode_scalar(0) =~= seq![0u8]) by {
            assert(vstd::utf8::has_width_1_encoding(0));
            assert(vstd::utf8::leading_byte_width_1(0) == 0) by (bit_vector);
        }
        assert(encode_utf8(nuls(k)) =~= Seq::new(k, |i: int| 0u8));
    }
}

proof fn lemma_trim_padded(name: Seq<char>, k: nat)
    requires
        name.len() == 0 || (name[0] != '\0' && name.last() != '\0'),
    ensures
        trim_nul(name + nuls(k)) == name,
    decreases name.len() + k,
{
    let s = name + nuls(k);
    if k == 0 {
        assert(s =~= name);
        if name.len() > 0 {
            assert(s[0] != '\0' && s.last() != '\0');
        }
    } else if name.len() == 0 {
        assert(s =~= nuls(k));
        assert(s[0] == '\0');
        assert(s.drop_first() =~= name + nuls((k - 1) as nat));
        lemma_trim_padded(name, (k - 1) as nat);
    } else {
        assert(s[0] != '\0');
        assert(s.last() == '\0');
        assert(s.drop_last() =~= name + nuls((k - 1) as nat));
        lemma_trim_padded(name, (k - 1) as nat);
    }
}

/// A name of at most 32 bytes in UTF-8 that neither starts nor ends with
/// NUL is read back from its 32-byte field unchanged.
pub proof fn lemma_name_field_roundtrip(name: Seq<char>)
    requires
        encode_utf8(name).len() <= 32,
        name.len() == 0 || (name[0] != '\0' && name.last() != '\0'),
    ensures
        field_name(name_field(name)) == name,
{
    let b = encode_utf8(name);
    let k = (32 - b.len()) as nat;
    lemma_encode_concat(name, nuls(k));
    lemma_encode_nuls(k);
    let padded = name + nuls(k);
    assert(encode_utf8(padded) =~= name_field(name));
    vstd::utf8::encode_utf8_valid_utf8(padded);
    vstd::utf8::encode_utf8_decode_utf8(padded);
    lemma_trim_padded(name, k);
}

/// The character is an ASCII decimal digit.
pub open spec fn is_digit(c: char) -> bool {
    '0' <= c && c <= '9'
}

/// The number that a string of decimal digits denotes.
pub open spec fn digits_value(s: Seq<char>) -> nat
    decreases s.len(),
{
    if s.len() == 0 {
        0
    } else {
        digits_value(s.drop_last()) * 10 + (s.last() as nat - 48) as nat
    }
}

/// What `str::parse` gives for an unsigned integer type, before the range
/// check: an optional `+`, then one or more decimal digits; `None` for
/// anything else.
pub open spec fn spec_parse_unsigned(s: Seq<char>) -> Option<nat> {
    let body = unsigned_body(s);
    if body.len() > 0 && all_digits(body) {
        Some(digits_value(body))
    } else {
        None
    }
}

/// The string without one leading `+`.
pub open spec fn unsigned_body(s: Seq<char>) -> Seq<char> {
    if s.len() > 0 && s[0] == '+' {
        s.drop_first()
    } else {
        s
    }
}

/// Every character is a decimal digit.
pub open spec fn all_digits(s: Seq<char>) -> bool {
    forall|i: int| 0 <= i < s.len() ==> is_digit(#[trigger] s[i])
}

/// Parses an unsigned decimal number not above `max`, as `str::parse` does
/// for the unsigned type whose largest value is `max`.
pub fn parse_unsigned(s: &str, max: u64) -> (r: Option<u64>)
    ensures
        match spec_parse_unsigned(s@) {
            Some(n) => if n <= max {
                r == Some(n as u64)
            } else {
                r.is_none()
            },
            None => r.is_none(),
        },
{
    let n = s.unicode_len();
    let mut start: usize = 0;
    if n > 0 && s.get_char(0) == '+' {
        start = 1;
    }
    let ghost body = unsigned_body(s@);
    assert(body =~= s@.subrange(start as int, n as int));
    if start == n {
        return None;
    }
    let mut value: u64 = 0;
    let mut i: usize = start;
    while i < n
        invariant
            n == s@.len(),
            start < n,
            start <= i <= n,
            body == s@.subrange(start as int, n as int),
            body == unsigned_body(s@),
            forall|k: int| start <= k < i ==> is_digit(#[trigger] s@[k]),
            value == digits_value(s@.subrange(start as int, i as int)),
            value <= max,
        decreases n - i,
    {
        let c = s.get_char(i);
        if !('0' <= c && c <= '9') {
            proof {
                assert(body[i - start] == c);
                assert(!is_digit(body[(i - start) as int]));
                assert(!all_digits(body));
            }
            return None;
        }
        let d = (c as u32 - 48) as u64;
        proof {
            assert(s@.subrange(start as int, i + 1).drop_last() =~= s@.subrange(start as int, i as int));
            assert(s@.subrange(start as int, i + 1).last() == c);
            assert(digits_value(s@.subrange(start as int, i + 1)) == value * 10 + d);
        }
        if value > max / 10 || (value == max / 10 && d > max % 10) {
            proof {
                assert(digits_value(s@.subrange(start as int, i + 1)) == value * 10 + d);
                assert(value * 10 + d > max) by (nonlinear_arith)
                    requires
                        value > max / 10 || (value == max / 10 && d > max % 10),
                        d <= 9,
                ;
                if all_digits(body) {
                    lemma_digits_grow(body, (i + 1 - start) as int);
                    assert(body.subrange(0, (i + 1 - start) as int) =~= s@.subrange(start as int, i + 1));
                }
            }
            return None;
        }
        proof {
            assert(value * 10 + d <= max) by (nonlinear_arith)
                requires
                    !(value > max / 10 || (value == max / 10 && d > max % 10)),
                    d <= 9,
            ;
        }
        value = value * 10 + d;
        i = i + 1;
    }
    proof {
        assert forall|k: int| 0 <= k < body.len() implies is_digit(#[trigger] body[k]) by {
            assert(body[k] == s@[k + start]);
        }
        assert(s@.subrange(start as int, n as int) == body);
    }
    Some(value)
}

/// Digits never lose value as more follow.
pub proof fn lemma_digits_grow(s: Seq<char>, k: int)
    requires
        0 <= k <= s.len(),
        forall|i: int| 0 <= i < s.len() ==> is_digit(#[trigger] s[i]),
    ensures
        digits_value(s.subrange(0, k)) <= digits_value(s),
    decreases s.len() - k,
{
    if k < s.len() {
        lemma_digits_grow(s, k + 1);
        assert(s.subrange(0, k + 1).drop_last() =~= s.subrange(0, k));
        assert(is_digit(s[k]));
        assert(s.subrange(0, k + 1).last() == s[k]);
    } else {
        assert(s.subrange(0, k) =~= s);
    }
}


/// `s` with every match of `pat` taken out, matches found left to right
/// without overlap, as `str::replace(pat, "")` does. An empty pattern
/// leaves `s` as it is.
pub open spec fn without_matches(s: Seq<char>, pat: Seq<char>) -> Seq<char>
    decreases s.len(),
{
    if pat.len() == 0 || s.len() < pat.len() {
        s
    } else if s.subrange(0, pat.len() as int) == pat {
        without_matches(s.subrange(pat.len() as int, s.len() as int), pat)
    } else {
        seq![s[0]] + without_matches(s.drop_first(), pat)
    }
}

/// `s.replace(pat, "")`.
pub fn remove_matches(s: &str, pat: &str) -> (r: String)
    ensures
        r@ == without_matches(s@, pat@),
{
    let n = s.unicode_len();
    let m = pat.unicode_len();
    if m == 0 {
        return s.to_owned();
    }
    let mut out = String::new();
    let mut i: usize = 0;
    assert(s@.subrange(0, n as int) =~= s@);
    while i < n
        invariant
            n == s@.len(),
            m == pat@.len(),
            m > 0,
            i <= n,
            without_matches(s@, pat@) == out@ + without_matches(s@.subrange(i as int, n as int), pat@),
        decreases n - i,
    {
        let ghost t = s@.subrange(i as int, n as int);
        if m <= n - i && str_eq(s.substring_char(i, i + m), pat) {
            assert(t.subrange(0, m as int) =~= s@.subrange(i as int, (i + m) as int));
            assert(t.subrange(m as int, t.len() as int) =~= s@.subrange((i + m) as int, n as int));
            i = i + m;
        } else {
            if m <= n - i {
                assert(t.subrange(0, m as int) =~= s@.subrange(i as int, (i + m) as int));
            }
            let c = s.substring_char(i, i + 1);
            assert(c@ =~= seq![t[0]]);
            assert(t.drop_first() =~= s@.subrange(i + 1, n as int));
            let ghost before = out@;
            out.append(c);
            assert(out@ + without_matches(s@.subrange(i + 1, n as int), pat@) =~= before + (seq![t[0]]
                + without_matches(t.drop_first(), pat@)));
            i = i + 1;
        }
    }
    assert(without_matches(s@.subrange(n as int, n as int), pat@) =~= Seq::<char>::empty());
    assert(out@ + Seq::<char>::empty() =~= out@);
    out
}

} // verus!
