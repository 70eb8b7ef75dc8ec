//! Character-level helpers: the library reasons about text as sequences of
//! Unicode scalar values, which is also how every string in it is compared.
use vstd::prelude::*;

verus! {

/// The characters of `s`, in order.
pub fn chars_of(s: &str) -> (out: Vec<char>)
    ensures
        out@ == s@,
{
    let mut out: Vec<char> = Vec::new();
    for c in it: s.chars()
        invariant
            out@ == it.seq().take(it.index() as int),
            it.seq() == s@,
    {
        out.push(c);
    }
    out
}

/// `String::from_iter` over the characters: std documents it as the string
/// made of those characters, in order, and that is what is claimed.
#[verifier::external_body]
pub(crate) fn string_of(chars: &[char]) -> (out: String)
    ensures
        out@ == chars@,
{
    String::from_iter(chars)
}

} // verus!

verus! {

/// Rust's `char::is_whitespace`: the Unicode `White_Space` property.
pub open spec fn is_ws(c: char) -> bool {
    let u = c as u32;
    (0x09 <= u && u <= 0x0D) || u == 0x20 || u == 0x85 || u == 0xA0 || u == 0x1680
        || (0x2000 <= u && u <= 0x200A) || u == 0x2028 || u == 0x2029 || u == 0x202F
        || u == 0x205F || u == 0x3000
}

/// Rust's `char::is_control`: the Unicode general category `Cc`.
pub open spec fn is_control(c: char) -> bool {
    let u = c as u32;
    u <= 0x1F || (0x7F <= u && u <= 0x9F)
}

/// `char::is_whitespace`, computed from its definition.
pub fn char_is_whitespace(c: char) -> (b: bool)
    ensures
        b == is_ws(c),
{
    let u = c as u32;
    (0x09 <= u && u <= 0x0D) || u == 0x20 || u == 0x85 || u == 0xA0 || u == 0x1680
        || (0x2000 <= u && u <= 0x200A) || u == 0x2028 || u == 0x2029 || u == 0x202F
        || u == 0x205F || u == 0x3000
}

/// `char::is_control`, computed from its definition.
pub fn char_is_control(c: char) -> (b: bool)
    ensures
        b == is_control(c),
{
    let u = c as u32;
    u <= 0x1F || (0x7F <= u && u <= 0x9F)
}

/// Index of the first non-whitespace character at or after `i` (or the
/// length, when there is none).
pub open spec fn first_non_ws_from(s: Seq<char>, i: int) -> int
    decreases s.len() - i,
{
    if i >= s.len() || i < 0 {
        s.len() as int
    } else if is_ws(s[i]) {
        first_non_ws_from(s, i + 1)
    } else {
        i
    }
}

/// One past the last non-whitespace character before `j` (or 0).
pub open spec fn end_non_ws_upto(s: Seq<char>, j: int) -> int
    decreases j,
{
    if j <= 0 {
        0
    } else if is_ws(s[j - 1]) {
        end_non_ws_upto(s, j - 1)
    } else {
        j
    }
}

/// `str::trim`: leading and trailing whitespace removed.
pub open spec fn trimmed(s: Seq<char>) -> Seq<char> {
    let start = first_non_ws_from(s, 0);
    let end = end_non_ws_upto(s, s.len() as int);
    if start < end {
        s.subrange(start, end)
    } else {
        Seq::empty()
    }
}

pub proof fn lemma_end_non_ws_bounds(s: Seq<char>, j: int)
    requires
        0 <= j <= s.len(),
    ensures
        0 <= end_non_ws_upto(s, j) <= j,
    decreases j,
{
    if j > 0 && is_ws(s[j - 1]) {
        lemma_end_non_ws_bounds(s, j - 1);
    }
}

/// Bounds `[start, end)` of `chars` with the surrounding whitespace cut off.
pub fn trim_bounds(chars: &[char]) -> (r: (usize, usize))
    ensures
        r.0 == first_non_ws_from(chars@, 0),
        r.0 < r.1 ==> r.1 == end_non_ws_upto(chars@, chars@.len() as int),
        r.0 >= r.1 ==> trimmed(chars@) == Seq::<char>::empty(),
        r.0 <= chars.len(),
        r.1 <= chars.len(),
{
    let mut start: usize = 0;
    while start < chars.len() && char_is_whitespace(chars[start])
        invariant
            start <= chars.len(),
            first_non_ws_from(chars@, start as int) == first_non_ws_from(chars@, 0),
        decreases chars.len() - start,
    {
        start = start + 1;
    }
    if start == chars.len() {
        proof {
            lemma_end_non_ws_bounds(chars@, chars@.len() as int);
        }
        return (start, start);
    }
    let mut end: usize = chars.len();
    while char_is_whitespace(chars[end - 1])
        invariant
            start < end <= chars.len(),
            !is_ws(chars@[start as int]),
            end_non_ws_upto(chars@, end as int) == end_non_ws_upto(chars@, chars@.len() as int),
        decreases end,
    {
        end = end - 1;
    }
    (start, end)
}

/// `chars[from..to]` as a new vector.
pub fn slice_chars(chars: &[char], from: usize, to: usize) -> (out: Vec<char>)
    requires
        from <= to <= chars.len(),
    ensures
        out@ == chars@.subrange(from as int, to as int),
{
    let mut out: Vec<char> = Vec::new();
    let mut i = from;
    while i < to
        invariant
            from <= i <= to <= chars.len(),
            out@ == chars@.subrange(from as int, i as int),
        decreases to - i,
    {
        out.push(chars[i]);
        i = i + 1;
    }
    out
}

/// `s.trim()`, as an owned string.
pub fn trim(s: &str) -> (out: String)
    ensures
        out@ == trimmed(s@),
{
    let chars = chars_of(s);
    let (start, end) = trim_bounds(chars.as_slice());
    if start < end {
        string_of(slice_chars(chars.as_slice(), start, end).as_slice())
    } else {
        String::new()
    }
}

/// The characters of an optional string.
pub open spec fn opt_chars(o: Option<String>) -> Option<Seq<char>> {
    match o {
        Some(s) => Some(s@),
        None => None,
    }
}

/// A copy of an optional string.
pub fn clone_opt(o: &Option<String>) -> (out: Option<String>)
    ensures
        opt_chars(out) == opt_chars(*o),
{
    match o {
        Some(s) => Some(s.clone()),
        None => None,
    }
}

/// Whether two strings hold the same characters.
pub fn str_eq(a: &str, b: &str) -> (r: bool)
    ensures
        r == (a@ == b@),
{
    let x = chars_of(a);
    let y = chars_of(b);
    if x.len() != y.len() {
        return false;
    }
    let mut i: usize = 0;
    while i < x.len()
        invariant
            x.len() == y.len(),
            x@ == a@,
            y@ == b@,
            i <= x.len(),
            forall|k: int| 0 <= k < i ==> x@[k] == y@[k],
        decreases x.len() - i,
    {
        if x[i] != y[i] {
            return false;
        }
        i = i + 1;
    }
    assert(x@ =~= y@);
    true
}

} // verus!

verus! {

/// The characters of an optional string slice.
pub open spec fn opt_str(o: Option<&str>) -> Option<Seq<char>> {
    match o {
        Some(s) => Some(s@),
        None => None,
    }
}

/// An owned copy of an optional string slice.
pub fn own_opt(o: Option<&str>) -> (out: Option<String>)
    ensures
        opt_chars(out) == opt_str(o),
{
    match o {
        Some(s) => Some(String::from_str(s)),
        None => None,
    }
}

} // verus!

verus! {

/// The ASCII digit for `d` (below ten).
pub open spec fn digit_char(d: nat) -> char {
    (48 + d) as char
}

/// The decimal representation of `n`, without leading zeros.
pub open spec fn decimal(n: nat) -> Seq<char>
    decreases n,
{
    if n < 10 {
        seq![digit_char(n)]
    } else {
        decimal(n / 10).push(digit_char(n % 10))
    }
}

fn digit(d: u64) -> (c: char)
    requires
        d < 10,
    ensures
        c == digit_char(d as nat),
{
    let b: u8 = 48u8 + (d as u8);
    b as char
}

/// Append `n` in decimal.
pub fn push_decimal(out: &mut Vec<char>, n: u64)
    ensures
        final(out)@ == old(out)@ + decimal(n as nat),
    decreases n,
{
    if n >= 10 {
        push_decimal(out, n / 10);
    }
    let c = digit(n % 10);
    out.push(c);
    proof {
        if n < 10 {
            assert(final(out)@ =~= old(out)@ + decimal(n as nat));
        } else {
            assert(decimal(n as nat) == decimal((n / 10) as nat).push(digit_char((n % 10) as nat)));
        }
    }
}

/// `n` in decimal.
pub fn decimal_string(n: u64) -> (s: String)
    ensures
        s@ == decimal(n as nat),
{
    let mut out: Vec<char> = Vec::new();
    push_decimal(&mut out, n);
    assert(out@ =~= decimal(n as nat));
    string_of(out.as_slice())
}

} // verus!

verus! {

/// `i` is where the first `c` in `s` is, or the length if there is none.
pub open spec fn first_of(s: Seq<char>, c: char, i: int) -> bool {
    &&& 0 <= i <= s.len()
    &&& (i < s.len() ==> s[i] == c)
    &&& forall|j: int| 0 <= j < i ==> s[j] != c
}

/// The part of `s` before its first `c`.
pub open spec fn before_first(s: Seq<char>, c: char) -> Seq<char> {
    s.take(choose|i: int| first_of(s, c, i))
}

pub proof fn lemma_first_of_unique(s: Seq<char>, c: char, i: int)
    requires
        first_of(s, c, i),
    ensures
        (choose|k: int| first_of(s, c, k)) == i,
{
    let k = choose|k: int| first_of(s, c, k);
    assert(first_of(s, c, k));
    if k < i {
        assert(s[k] == c);
    } else if k > i {
        assert(s[i] == c);
    }
}

/// The part of `s` before its first `c` (all of it when there is none).
pub fn prefix_before(s: &str, c: char) -> (out: String)
    ensures
        out@ == before_first(s@, c),
{
    let chars = chars_of(s);
    let mut k: usize = 0;
    while k < chars.len() && chars[k] != c
        invariant
            k <= chars@.len(),
            forall|j: int| 0 <= j < k ==> chars@[j] != c,
        decreases chars@.len() - k,
    {
        k = k + 1;
    }
    proof {
        assert(first_of(chars@, c, k as int));
        lemma_first_of_unique(chars@, c, k as int);
    }
    string_of(slice_chars(chars.as_slice(), 0, k).as_slice())
}

} // verus!

verus! {

/// An optional string, borrowed.
pub fn opt_as_str(o: &Option<String>) -> (r: Option<&str>)
    ensures
        opt_str(r) == opt_chars(*o),
{
    match o {
        Some(s) => Some(s.as_str()),
        None => None,
    }
}

} // verus!
