//! Small text helpers shared by the other modules: decimal rendering of
//! integers and the character-level views used in contracts.

use vstd::prelude::*;
use vstd::string::*;

verus! {

/// The character for a decimal digit `d` (0 to 9).
pub open spec fn digit_char(d: nat) -> char {
    if d == 0 { '0' }
    else if d == 1 { '1' }
    else if d == 2 { '2' }
    else if d == 3 { '3' }
    else if d == 4 { '4' }
    else if d == 5 { '5' }
    else if d == 6 { '6' }
    else if d == 7 { '7' }
    else if d == 8 { '8' }
    else { '9' }
}

/// The decimal representation of `n`, as `Display` prints an unsigned integer.
pub open spec fn decimal(n: nat) -> Seq<char>
    decreases n,
{
    if n < 10 {
        seq![digit_char(n)]
    } else {
        decimal(n / 10).push(digit_char(n % 10))
    }
}

fn digit_str(d: u64) -> (s: &'static str)
    requires
        d < 10,
    ensures
        s@ == seq![digit_char(d as nat)],
{
    let table = "0123456789";
    proof {
        reveal_strlit("0123456789");
    }
    let r = table.substring_char(d as usize, d as usize + 1);
    assert(r@ =~= seq![digit_char(d as nat)]);
    r
}

/// Renders `n` in decimal.
pub fn decimal_string(n: u64) -> (s: String)
    ensures
        s@ == decimal(n as nat),
    decreases n,
{
    if n < 10 {
        String::from_str(digit_str(n))
    } else {
        let mut s = decimal_string(n / 10);
        s.append(digit_str(n % 10));
        s
    }
}

} // verus!

verus! {

/// The part of `s` before the first `c` (all of `s` when `c` does not occur):
/// the first piece `split(c)` yields.
pub open spec fn prefix_before(s: Seq<char>, c: char) -> Seq<char>
    decreases s.len(),
{
    if s.len() == 0 {
        s
    } else if s[0] == c {
        Seq::empty()
    } else {
        seq![s[0]] + prefix_before(s.drop_first(), c)
    }
}

/// Whether `c` occurs in `s`.
pub open spec fn has_char(s: Seq<char>, c: char) -> bool {
    exists|i: int| 0 <= i < s.len() && s[i] == c
}

proof fn lemma_prefix_before(s: Seq<char>, c: char, i: int)
    requires
        0 <= i <= s.len(),
        forall|j: int| 0 <= j < i ==> s[j] != c,
        i == s.len() || s[i] == c,
    ensures
        prefix_before(s, c) =~= s.take(i),
    decreases i,
{
    if i > 0 {
        lemma_prefix_before(s.drop_first(), c, i - 1);
        assert(s.take(i) =~= seq![s[0]] + s.drop_first().take(i - 1));
    }
}

/// Position of the first `c` in `s`, or the length of `s` when there is none.
pub fn find_char(s: &str, c: char) -> (i: usize)
    ensures
        i <= s@.len(),
        forall|j: int| 0 <= j < i ==> s@[j] != c,
        i == s@.len() || s@[i as int] == c,
{
    let n = s.unicode_len();
    let mut i: usize = 0;
    while i < n
        invariant
            n == s@.len(),
            i <= n,
            forall|j: int| 0 <= j < i ==> s@[j] != c,
        decreases n - i,
    {
        if s.get_char(i) == c {
            return i;
        }
        i = i + 1;
    }
    i
}

/// The part of `s` before the first `c`.
pub fn prefix_before_char(s: &str, c: char) -> (r: String)
    ensures
        r@ == prefix_before(s@, c),
{
    let i = find_char(s, c);
    proof {
        lemma_prefix_before(s@, c, i as int);
    }
    String::from_str(s.substring_char(0, i))
}

/// Whether `c` occurs in `s`.
pub fn contains_char(s: &str, c: char) -> (b: bool)
    ensures
        b == has_char(s@, c),
{
    let i = find_char(s, c);
    i < s.unicode_len()
}

} // verus!

verus! {

/// The text made of the first `n` bytes of `s` (when `n` is a character
/// boundary of its UTF-8 encoding), as `&s[..n]` gives it.
pub open spec fn byte_prefix(s: Seq<char>, n: int) -> Seq<char> {
    vstd::utf8::decode_utf8(vstd::utf8::encode_utf8(s).take(n))
}

/// `&s[..n]` does not panic: `n` is a character boundary within `s`.
pub open spec fn can_cut_at(s: Seq<char>, n: int) -> bool {
    vstd::utf8::is_char_boundary(vstd::utf8::encode_utf8(s), n)
}

/// `&s[..n]`, for a character boundary `n`.
pub fn cut_at(s: &str, n: usize) -> (r: String)
    requires
        can_cut_at(s@, n as int),
    ensures
        r@ == byte_prefix(s@, n as int),
{
    proof {
        vstd::utf8::encode_utf8_valid_utf8(s@);
    }
    let (head, _tail) = s.split_at(n);
    proof {
        vstd::utf8::encode_utf8_decode_utf8(head@);
        assert(head.spec_bytes() =~= s.spec_bytes().subrange(0, n as int));
        assert(s.spec_bytes().subrange(0, n as int) =~= vstd::utf8::encode_utf8(s@).take(n as int));
    }
    String::from_str(head)
}

/// Whether `&s[..n]` can be taken.
pub fn cuttable_at(s: &str, n: usize) -> (b: bool)
    ensures
        b == can_cut_at(s@, n as int),
{
    proof {
        vstd::utf8::encode_utf8_valid_utf8(s@);
    }
    s.is_char_boundary(n)
}

/// Byte length of the UTF-8 encoding of `s`, as `str::len` gives it.
pub open spec fn byte_len(s: Seq<char>) -> int {
    vstd::utf8::encode_utf8(s).len() as int
}

pub fn str_byte_len(s: &str) -> (n: usize)
    ensures
        n == byte_len(s@),
{
    s.as_bytes().len()
}

// ─── Splitting and number parsing ────────────────────────────────────────

/// The pieces `s.split(c)` yields, in order (empty pieces included).
pub open spec fn split_on(s: Seq<char>, c: char) -> Seq<Seq<char>>
    decreases s.len(),
{
    if s.len() == 0 {
        seq![Seq::empty()]
    } else {
        let init = split_on(s.drop_last(), c);
        if s.last() == c {
            init.push(Seq::empty())
        } else {
            init.update(init.len() - 1, init.last().push(s.last()))
        }
    }
}

proof fn lemma_split_on_nonempty(s: Seq<char>, c: char)
    ensures
        split_on(s, c).len() >= 1,
    decreases s.len(),
{
    if s.len() > 0 {
        lemma_split_on_nonempty(s.drop_last(), c);
    }
}

pub open spec fn strs_view(v: Seq<String>) -> Seq<Seq<char>> {
    v.map_values(|s: String| s@)
}

/// `s.split(c)` collected into owned pieces.
pub fn split_char(s: &str, c: char) -> (pieces: Vec<String>)
    ensures
        strs_view(pieces@) == split_on(s@, c),
{
    let n = s.unicode_len();
    let mut pieces: Vec<String> = Vec::new();
    let mut cur = String::new();
    let mut i: usize = 0;
    proof {
        assert(s@.take(0) =~= Seq::<char>::empty());
    }
    while i < n
        invariant
            n == s@.len(),
            i <= n,
            strs_view(pieces@).push(cur@) == split_on(s@.take(i as int), c),
        decreases n - i,
    {
        let ch = s.get_char(i);
        let ghost t = s@.take(i as int);
        let ghost t1 = s@.take(i + 1);
        proof {
            assert(t1.drop_last() =~= t);
            assert(t1.last() == ch);
            lemma_split_on_nonempty(t, c);
        }
        if ch == c {
            let ghost before = strs_view(pieces@);
            let done = cur;
            pieces.push(done);
            cur = String::new();
            assert(strs_view(pieces@) =~= before.push(done@));
        } else {
            let ghost before = strs_view(pieces@);
            let ghost cur0 = cur@;
            cur.append(s.substring_char(i, i + 1));
            assert(cur@ =~= cur0.push(ch));
            assert(before.push(cur@) =~= before.push(cur0).update(before.len() as int, cur0.push(ch)));
        }
        i = i + 1;
    }
    let ghost before = strs_view(pieces@);
    pieces.push(cur);
    proof {
        assert(s@.take(n as int) =~= s@);
        assert(strs_view(pieces@) =~= before.push(pieces@.last()@));
    }
    pieces
}

/// Whether `c` is an ASCII decimal digit.
pub open spec fn is_digit(c: char) -> bool {
    '0' <= c <= '9'
}

/// The value of a non-empty run of decimal digits, `None` otherwise.
pub open spec fn digits_value(s: Seq<char>) -> Option<nat>
    decreases s.len(),
{
    if s.len() == 0 || !is_digit(s.last()) {
        None
    } else if s.len() == 1 {
        Some(((s.last() as u32) - 48) as nat)
    } else {
        match digits_value(s.drop_last()) {
            Some(v) => Some(v * 10 + ((s.last() as u32) - 48) as nat),
            None => None,
        }
    }
}

/// `s.parse::<u16>()`: an optional `+`, then at least one decimal digit,
/// with a value of at most 65535.
pub open spec fn parse_u16(s: Seq<char>) -> Option<u16> {
    let body = if s.len() > 0 && s[0] == '+' { s.drop_first() } else { s };
    match digits_value(body) {
        Some(v) => if v <= 65535 {
            Some(v as u16)
        } else {
            None
        },
        None => None,
    }
}

proof fn lemma_digits_value_grows(s: Seq<char>, i: int)
    requires
        0 < i <= s.len(),
        digits_value(s) is Some,
    ensures
        digits_value(s.take(i)) is Some,
        digits_value(s.take(i)).unwrap() <= digits_value(s).unwrap(),
    decreases s.len(),
{
    if i < s.len() {
        assert(s.drop_last().take(i) =~= s.take(i));
        if s.len() > 1 {
            lemma_digits_value_grows(s.drop_last(), i);
        }
    } else {
        assert(s.take(i) =~= s);
    }
}

proof fn lemma_digits_all(s: Seq<char>)
    requires
        digits_value(s) is Some,
    ensures
        forall|j: int| 0 <= j < s.len() ==> is_digit(#[trigger] s[j]),
    decreases s.len(),
{
    if s.len() > 1 {
        lemma_digits_all(s.drop_last());
        assert forall|j: int| 0 <= j < s.len() implies is_digit(#[trigger] s[j]) by {
            if j < s.len() - 1 {
                assert(s.drop_last()[j] == s[j]);
            }
        }
    }
}

/// `s.parse::<u16>().ok()`.
pub fn parse_u16_str(s: &str) -> (r: Option<u16>)
    ensures
        r == parse_u16(s@),
{
    let n = s.unicode_len();
    let mut start: usize = 0;
    if n > 0 && s.get_char(0) == '+' {
        start = 1;
    }
    let ghost body = if s@.len() > 0 && s@[0] == '+' { s@.drop_first() } else { s@ };
    proof {
        assert(body =~= s@.skip(start as int));
    }
    if start >= n {
        return None;
    }
    let mut value: u32 = 0;
    let mut i: usize = start;
    while i < n
        invariant
            n == s@.len(),
            start <= i <= n,
            start < n,
            body =~= s@.skip(start as int),
            body == (if s@.len() > 0 && s@[0] == '+' { s@.drop_first() } else { s@ }),
            i == start ==> value == 0,
            i > start ==> digits_value(body.take(i - start)) == Some(value as nat),
            value <= 65535,
        decreases n - i,
    {
        let ch = s.get_char(i);
        let ghost k = (i - start) as int;
        proof {
            assert(body.take(k + 1).last() == ch);
            assert(body.take(k + 1).drop_last() =~= body.take(k));
        }
        if !('0' <= ch && ch <= '9') {
            proof {
                if digits_value(body) is Some {
                    lemma_digits_all(body);
                    assert(body[k] == ch);
                }
            }
            return None;
        }
        let d = (ch as u32) - 48;
        value = value * 10 + d;
        if value > 65535 {
            proof {
                if digits_value(body) is Some {
                    lemma_digits_value_grows(body, k + 1);
                }
            }
            return None;
        }
        i = i + 1;
    }
    proof {
        assert(body.take(n - start) =~= body);
    }
    Some(value as u16)
}

} // verus!

verus! {

/// Whether `part` occurs in `text`, as `str::contains` with a string pattern decides it.
pub open spec fn contains_text(text: Seq<char>, part: Seq<char>) -> bool {
    exists|i: int| 0 <= i && i + part.len() <= text.len() && #[trigger] text.subrange(i, i + part.len()) == part
}

/// Whether `part` occurs in `text`.
pub fn contains_str(text: &str, part: &str) -> (b: bool)
    ensures
        b == contains_text(text@, part@),
{
    let n = text.unicode_len();
    let m = part.unicode_len();
    if m > n {
        return false;
    }
    let p = String::from_str(part);
    let last = n - m;
    let mut i: usize = 0;
    loop
        invariant
            n == text@.len(),
            m == part@.len(),
            last == n - m,
            p@ == part@,
            i <= last,
            forall|j: int| 0 <= j < i ==> #[trigger] text@.subrange(j, j + m) != part@,
        decreases last - i,
    {
        let piece = String::from_str(text.substring_char(i, i + m));
        if piece == p {
            assert(text@.subrange(i as int, i + m) == part@);
            return true;
        }
        if i == last {
            return false;
        }
        i = i + 1;
    }
}

pub open spec fn min_int(a: int, b: int) -> int {
    if a <= b { a } else { b }
}

} // verus!
