//! Character-level text model shared by the tools: the views of `str` and
//! `String` are sequences of `char`, and every helper here is stated over them.
use vstd::prelude::*;

verus! {

// ---------------------------------------------------------------------------
// Specifications
// ---------------------------------------------------------------------------

/// Unicode `White_Space`, the set that `char::is_whitespace` and `str::trim` use.
pub open spec fn is_ws(c: char) -> bool {
    ('\u{9}' <= c && c <= '\u{d}') || c == ' ' || c == '\u{85}' || c == '\u{a0}'
        || c == '\u{1680}' || ('\u{2000}' <= c && c <= '\u{200a}') || c == '\u{2028}'
        || c == '\u{2029}' || c == '\u{202f}' || c == '\u{205f}' || c == '\u{3000}'
}

/// Every character of `s` is whitespace (so `s.trim()` is empty).
pub open spec fn all_ws(s: Seq<char>) -> bool {
    forall|i: int| 0 <= i < s.len() ==> is_ws(#[trigger] s[i])
}

/// Number of whitespace characters at the front of `s`.
pub open spec fn leading_ws(s: Seq<char>) -> nat
    decreases s.len(),
{
    if s.len() == 0 {
        0
    } else if is_ws(s[0]) {
        1 + leading_ws(s.drop_first())
    } else {
        0
    }
}

/// `s` with its leading whitespace removed, as `str::trim_start` gives it.
pub open spec fn trim_start(s: Seq<char>) -> Seq<char> {
    s.skip(leading_ws(s) as int)
}

/// `p` occurs in `s` at position `i`.
pub open spec fn occurs_at(s: Seq<char>, p: Seq<char>, i: int) -> bool {
    0 <= i && i + p.len() <= s.len() && s.subrange(i, i + p.len()) == p
}

/// `p` occurs somewhere in `s` (`str::contains` with a string pattern).
pub open spec fn contains(s: Seq<char>, p: Seq<char>) -> bool {
    exists|i: int| occurs_at(s, p, i)
}

/// `s` begins with `p`.
pub open spec fn starts_with(s: Seq<char>, p: Seq<char>) -> bool {
    occurs_at(s, p, 0)
}

/// `s` ends with `p`.
pub open spec fn ends_with(s: Seq<char>, p: Seq<char>) -> bool {
    p.len() <= s.len() && occurs_at(s, p, s.len() - p.len())
}

/// The position of the first occurrence of `p` in `s`, as `str::find` gives it
/// (counted in characters).
pub open spec fn find(s: Seq<char>, p: Seq<char>) -> Option<int> {
    if contains(s, p) {
        Some(choose|i: int| occurs_at(s, p, i) && forall|j: int| 0 <= j < i ==> !occurs_at(s, p, j))
    } else {
        None
    }
}

/// The decimal digits of `n`, with no sign and no leading zero.
pub open spec fn decimal(n: nat) -> Seq<char>
    decreases n,
{
    if n < 10 {
        seq![digit_char(n)]
    } else {
        decimal(n / 10).push(digit_char(n % 10))
    }
}

/// The ASCII digit for `d < 10`.
pub open spec fn digit_char(d: nat) -> char {
    if d == 0 { '0' }
    else if d == 1 { '1' }
    else if d == 2 { '2' }
    else if d == 3 { '3' }
    else if d == 4 { '4' }
    else if d == 5 { '5' }
    else if d == 6 { '6' }
    else if d == 7 { '7' }
    else if d == 8 { '8' }
    else { '9' }
}

/// The parts joined with `sep` between neighbours.
pub open spec fn join(parts: Seq<Seq<char>>, sep: Seq<char>) -> Seq<char>
    decreases parts.len(),
{
    if parts.len() == 0 {
        seq![]
    } else if parts.len() == 1 {
        parts[0]
    } else {
        join(parts.drop_last(), sep) + sep + parts.last()
    }
}

/// One line as `str::lines` yields it when a `'\n'` ended it: a trailing
/// carriage return is dropped.
pub open spec fn strip_cr(line: Seq<char>) -> Seq<char> {
    if line.len() > 0 && line.last() == '\r' {
        line.drop_last()
    } else {
        line
    }
}

/// The lines of `s`, as `str::lines` yields them: split at `'\n'`, a line
/// ended by `'\n'` loses one trailing `'\r'`, and there is no final empty line
/// after a last `'\n'`.
#[verifier::opaque]
pub open spec fn lines(s: Seq<char>) -> Seq<Seq<char>>
    decreases s.len(),
{
    if s.len() == 0 {
        seq![]
    } else {
        match find(s, seq!['\n']) {
            Some(i) => if 0 <= i < s.len() {
                seq![strip_cr(s.take(i))] + lines(s.skip(i + 1))
            } else {
                seq![]
            },
            None => seq![s],
        }
    }
}

/// The views of a list of character vectors.
pub open spec fn views(v: Seq<Vec<char>>) -> Seq<Seq<char>> {
    v.map_values(|x: Vec<char>| x@)
}

// ---------------------------------------------------------------------------
// Wrappers over std
// ---------------------------------------------------------------------------

/// `String::push`: appends one character.
#[verifier::external_body]
fn push_char(s: &mut String, c: char)
    ensures
        final(s)@ == old(s)@.push(c),
{
    s.push(c);
}

// ---------------------------------------------------------------------------
// Executable helpers
// ---------------------------------------------------------------------------

/// The characters of `s`, in order.
pub fn chars_of(s: &str) -> (out: Vec<char>)
    ensures
        out@ == s@,
{
    let mut out: Vec<char> = Vec::new();
    for c in it: s.chars()
        invariant
            out@ == it.seq().take(it.index() as int),
    {
        out.push(c);
    }
    out
}

/// A `String` holding exactly the characters of `v`.
pub fn string_of(v: &[char]) -> (s: String)
    ensures
        s@ == v@,
{
    let mut s = String::new();
    let mut i: usize = 0;
    while i < v.len()
        invariant
            i <= v.len(),
            s@ == v@.take(i as int),
        decreases v.len() - i,
    {
        push_char(&mut s, v[i]);
        proof {
            assert(v@.take(i as int).push(v@[i as int]) =~= v@.take(i + 1));
        }
        i += 1;
    }
    proof {
        assert(v@.take(v@.len() as int) =~= v@);
    }
    s
}

/// Appends the characters of `src` to `dst`.
pub fn extend_chars(dst: &mut Vec<char>, src: &[char])
    ensures
        final(dst)@ == old(dst)@ + src@,
{
    let mut i: usize = 0;
    while i < src.len()
        invariant
            i <= src.len(),
            dst@ == old(dst)@ + src@.take(i as int),
        decreases src.len() - i,
    {
        dst.push(src[i]);
        proof {
            assert(src@.take(i as int).push(src@[i as int]) =~= src@.take(i + 1));
        }
        i += 1;
    }
    proof {
        assert(src@.take(src@.len() as int) =~= src@);
    }
}

proof fn lemma_digit_char(d: nat)
    requires
        d < 10,
    ensures
        '0' <= digit_char(d) <= '9',
{
}

/// Every character of a decimal numeral is an ASCII digit, and it has at
/// least one.
pub proof fn lemma_decimal_digits(n: nat)
    ensures
        decimal(n).len() >= 1,
        n >= 10 ==> decimal(n).len() >= 2,
        forall|i: int| 0 <= i < decimal(n).len() ==> '0' <= #[trigger] decimal(n)[i] <= '9',
    decreases n,
{
    if n >= 10 {
        lemma_decimal_digits(n / 10);
        lemma_digit_char(n % 10);
    } else {
        lemma_digit_char(n);
    }
}

/// Different numbers have different decimal numerals.
pub proof fn lemma_decimal_injective(n: nat, m: nat)
    requires
        decimal(n) == decimal(m),
    ensures
        n == m,
    decreases n,
{
    lemma_decimal_digits(n);
    lemma_decimal_digits(m);
    if n < 10 && m < 10 {
        assert(decimal(n)[0] == digit_char(n));
    } else if n >= 10 && m >= 10 {
        assert(decimal(n).last() == digit_char(n % 10));
        assert(decimal(m).last() == digit_char(m % 10));
        assert(decimal(n).drop_last() =~= decimal(n / 10));
        assert(decimal(m).drop_last() =~= decimal(m / 10));
        lemma_decimal_injective(n / 10, m / 10);
    }
}

/// The decimal digits of `n`, as `n.to_string()` writes them.
pub fn decimal_chars(n: usize) -> (out: Vec<char>)
    ensures
        out@ == decimal(n as nat),
    decreases n,
{
    if n < 10 {
        let mut out: Vec<char> = Vec::new();
        out.push(digit_of(n));
        proof {
            assert(out@ =~= seq![digit_char(n as nat)]);
        }
        out
    } else {
        let mut out = decimal_chars(n / 10);
        out.push(digit_of(n % 10));
        out
    }
}

/// The ASCII digit for `d < 10`.
fn digit_of(d: usize) -> (c: char)
    requires
        d < 10,
    ensures
        c == digit_char(d as nat),
{
    if d == 0 { '0' }
    else if d == 1 { '1' }
    else if d == 2 { '2' }
    else if d == 3 { '3' }
    else if d == 4 { '4' }
    else if d == 5 { '5' }
    else if d == 6 { '6' }
    else if d == 7 { '7' }
    else if d == 8 { '8' }
    else { '9' }
}

/// Whether `c` is Unicode whitespace (`char::is_whitespace`).
pub fn char_is_ws(c: char) -> (b: bool)
    ensures
        b == is_ws(c),
{
    ('\u{9}' <= c && c <= '\u{d}') || c == ' ' || c == '\u{85}' || c == '\u{a0}'
        || c == '\u{1680}' || ('\u{2000}' <= c && c <= '\u{200a}') || c == '\u{2028}'
        || c == '\u{2029}' || c == '\u{202f}' || c == '\u{205f}' || c == '\u{3000}'
}

/// Whether `s` trims to the empty string.
pub fn is_blank(s: &[char]) -> (b: bool)
    ensures
        b == all_ws(s@),
{
    let mut i: usize = 0;
    while i < s.len()
        invariant
            i <= s.len(),
            forall|j: int| 0 <= j < i ==> is_ws(#[trigger] s@[j]),
        decreases s.len() - i,
    {
        if !char_is_ws(s[i]) {
            return false;
        }
        i += 1;
    }
    true
}

/// Whether `p` occurs in `s` at position `at`.
pub fn occurs_at_exec(s: &[char], p: &[char], at: usize) -> (b: bool)
    ensures
        b == occurs_at(s@, p@, at as int),
{
    if at > s.len() || p.len() > s.len() - at {
        return false;
    }
    let mut k: usize = 0;
    while k < p.len()
        invariant
            at + p.len() <= s.len(),
            k <= p.len(),
            forall|j: int| 0 <= j < k ==> s@[at + j] == p@[j],
        decreases p.len() - k,
    {
        if s[at + k] != p[k] {
            proof {
                assert(s@.subrange(at as int, at + p@.len())[k as int] != p@[k as int]);
            }
            return false;
        }
        k += 1;
    }
    proof {
        assert(s@.subrange(at as int, at + p@.len()) =~= p@);
    }
    true
}

/// Whether `s` begins with `p`.
pub fn starts_with_exec(s: &[char], p: &[char]) -> (b: bool)
    ensures
        b == starts_with(s@, p@),
{
    occurs_at_exec(s, p, 0)
}

/// Whether `s` ends with `p`.
pub fn ends_with_exec(s: &[char], p: &[char]) -> (b: bool)
    ensures
        b == ends_with(s@, p@),
{
    if p.len() > s.len() {
        false
    } else {
        occurs_at_exec(s, p, s.len() - p.len())
    }
}

/// The first position of `p` in `s` (`str::find` counted in characters).
pub fn find_exec(s: &[char], p: &[char]) -> (r: Option<usize>)
    ensures
        r matches Some(i) ==> find(s@, p@) == Some(i as int) && occurs_at(s@, p@, i as int),
        r is None <==> find(s@, p@) is None,
{
    let mut i: usize = 0;
    while i < s.len()
        invariant
            i <= s.len(),
            forall|j: int| 0 <= j < i ==> !occurs_at(s@, p@, j),
        decreases s.len() - i,
    {
        if occurs_at_exec(s, p, i) {
            proof {
                lemma_find_is(s@, p@, i as int);
            }
            return Some(i);
        }
        i += 1;
    }
    if occurs_at_exec(s, p, i) {
        proof {
            lemma_find_is(s@, p@, i as int);
        }
        return Some(i);
    }
    proof {
        assert forall|j: int| !occurs_at(s@, p@, j) by {
            if 0 <= j <= i {
            }
        }
    }
    None
}

/// `find` picks the first occurrence.
pub proof fn lemma_find_is(s: Seq<char>, p: Seq<char>, i: int)
    requires
        occurs_at(s, p, i),
        forall|j: int| 0 <= j < i ==> !occurs_at(s, p, j),
    ensures
        find(s, p) == Some(i),
{
    let k = choose|k: int| occurs_at(s, p, k) && forall|j: int| 0 <= j < k ==> !occurs_at(s, p, j);
    assert(occurs_at(s, p, k) && forall|j: int| 0 <= j < k ==> !occurs_at(s, p, j));
    if k < i {
        assert(!occurs_at(s, p, k));
    }
    if i < k {
        assert(!occurs_at(s, p, i));
    }
}

/// Whether `p` occurs in `s`.
pub fn contains_exec(s: &[char], p: &[char]) -> (b: bool)
    ensures
        b == contains(s@, p@),
{
    match find_exec(s, p) {
        Some(_) => true,
        None => false,
    }
}

} // verus!

verus! {

// ---------------------------------------------------------------------------
// Last occurrence, character replacement, UTF-8 lengths
// ---------------------------------------------------------------------------

/// The position of the last occurrence of `p` in `s`.
pub open spec fn rfind(s: Seq<char>, p: Seq<char>) -> Option<int> {
    if contains(s, p) {
        Some(choose|i: int| occurs_at(s, p, i) && forall|j: int| i < j ==> !occurs_at(s, p, j))
    } else {
        None
    }
}

/// What follows the last occurrence of `p` in `s` (all of `s` when `p` does
/// not occur): the first item that `s.rsplit(p)` yields.
pub open spec fn after_last(s: Seq<char>, p: Seq<char>) -> Seq<char> {
    match rfind(s, p) {
        Some(i) => s.skip(i + p.len()),
        None => s,
    }
}

/// `rfind` picks the last occurrence.
pub proof fn lemma_rfind_is(s: Seq<char>, p: Seq<char>, i: int)
    requires
        occurs_at(s, p, i),
        forall|j: int| i < j ==> !occurs_at(s, p, j),
    ensures
        rfind(s, p) == Some(i),
{
    let k = choose|k: int| occurs_at(s, p, k) && forall|j: int| k < j ==> !occurs_at(s, p, j);
    assert(occurs_at(s, p, k) && forall|j: int| k < j ==> !occurs_at(s, p, j));
    if k < i {
        assert(!occurs_at(s, p, i));
    }
    if i < k {
        assert(!occurs_at(s, p, k));
    }
}

/// The last position of `p` in `s`.
pub fn rfind_exec(s: &[char], p: &[char]) -> (r: Option<usize>)
    ensures
        r matches Some(i) ==> rfind(s@, p@) == Some(i as int) && occurs_at(s@, p@, i as int),
        r is None <==> rfind(s@, p@) is None,
{
    let mut i: usize = s.len();
    loop
        invariant
            i <= s.len(),
            forall|j: int| i < j ==> !occurs_at(s@, p@, j),
        decreases i,
    {
        if occurs_at_exec(s, p, i) {
            proof {
                lemma_rfind_is(s@, p@, i as int);
            }
            return Some(i);
        }
        if i == 0 {
            proof {
                assert forall|j: int| !occurs_at(s@, p@, j) by {
                    if 0 <= j {
                        assert(i < j || j == i);
                    }
                }
            }
            return None;
        }
        i -= 1;
    }
}

/// What follows the last occurrence of `p` in `s`.
pub fn after_last_exec(s: &[char], p: &[char]) -> (r: Vec<char>)
    ensures
        r@ == after_last(s@, p@),
{
    match rfind_exec(s, p) {
        Some(i) => {
            let slen = s.len();
            let plen = p.len();
            proof {
                assert(occurs_at(s@, p@, i as int));
                assert(i + plen <= slen);
            }
            let mut out: Vec<char> = Vec::new();
            let mut k: usize = i + plen;
            while k < s.len()
                invariant
                    i + p@.len() <= k <= s.len(),
                    out@ == s@.subrange(i + p@.len(), k as int),
                decreases s.len() - k,
            {
                out.push(s[k]);
                proof {
                    assert(s@.subrange(i + p@.len(), k as int).push(s@[k as int])
                        =~= s@.subrange(i + p@.len(), k + 1));
                }
                k += 1;
            }
            proof {
                assert(out@ =~= s@.skip(i + p@.len()));
            }
            out
        },
        None => {
            let mut out: Vec<char> = Vec::new();
            extend_chars(&mut out, s);
            out
        },
    }
}

/// The number of bytes UTF-8 needs for `c` (`char::len_utf8`).
pub open spec fn utf8_len(c: char) -> nat {
    if (c as u32) < 0x80 {
        1
    } else if (c as u32) < 0x800 {
        2
    } else if (c as u32) < 0x10000 {
        3
    } else {
        4
    }
}

/// The number of bytes of the UTF-8 encoding of `s` (`str::len`).
pub open spec fn byte_len(s: Seq<char>) -> nat
    decreases s.len(),
{
    if s.len() == 0 {
        0
    } else {
        byte_len(s.drop_last()) + utf8_len(s.last())
    }
}

/// Byte `b` of `s` starts a character (or is the end): `k` characters take
/// exactly `b` bytes.
pub open spec fn boundary_at(s: Seq<char>, b: int, k: int) -> bool {
    0 <= k <= s.len() && byte_len(s.take(k)) == b
}

/// `str::is_char_boundary`.
pub open spec fn is_boundary(s: Seq<char>, b: int) -> bool {
    exists|k: int| boundary_at(s, b, k)
}

/// Byte lengths of prefixes grow strictly with the prefix.
pub proof fn lemma_byte_len_prefix(s: Seq<char>, i: int, j: int)
    requires
        0 <= i < j <= s.len(),
    ensures
        byte_len(s.take(i)) < byte_len(s.take(j)),
    decreases j - i,
{
    assert(s.take(j).drop_last() =~= s.take(j - 1));
    if i < j - 1 {
        lemma_byte_len_prefix(s, i, j - 1);
    }
}

/// The number of bytes `c` takes in UTF-8.
pub fn char_len_utf8(c: char) -> (n: usize)
    ensures
        n == utf8_len(c),
{
    let v = c as u32;
    if v < 0x80 {
        1
    } else if v < 0x800 {
        2
    } else if v < 0x10000 {
        3
    } else {
        4
    }
}

/// The character index at which byte offset `b` falls, if `b` is a character
/// boundary of `s`.
pub fn char_index_of_byte(s: &[char], b: usize) -> (r: Option<usize>)
    ensures
        r matches Some(k) ==> boundary_at(s@, b as int, k as int),
        r is None <==> !is_boundary(s@, b as int),
{
    let mut k: usize = 0;
    let mut acc: usize = 0;
    while k < s.len() && acc < b
        invariant
            k <= s.len(),
            acc <= b,
            acc == byte_len(s@.take(k as int)),
        decreases s.len() - k,
    {
        let l = char_len_utf8(s[k]);
        proof {
            assert(s@.take(k + 1).drop_last() =~= s@.take(k as int));
        }
        if l > b - acc {
            proof {
                assert forall|j: int| !boundary_at(s@, b as int, j) by {
                    if 0 <= j <= s@.len() {
                        if j <= k {
                            if j < k {
                                lemma_byte_len_prefix(s@, j, k as int);
                            }
                        } else {
                            if k + 1 < j {
                                lemma_byte_len_prefix(s@, k + 1, j);
                            }
                        }
                    }
                }
            }
            return None;
        }
        acc = acc + l;
        k += 1;
    }
    if acc == b {
        proof {
            assert(boundary_at(s@, b as int, k as int));
        }
        Some(k)
    } else {
        proof {
            assert forall|j: int| !boundary_at(s@, b as int, j) by {
                if 0 <= j <= s@.len() && j < k {
                    lemma_byte_len_prefix(s@, j, k as int);
                }
            }
        }
        None
    }
}

/// `min(b, byte_len(s))`, computed without summing past `b`.
pub fn byte_len_capped(s: &[char], b: usize) -> (r: usize)
    ensures
        r == if byte_len(s@) <= b { byte_len(s@) } else { b as nat },
{
    let mut k: usize = 0;
    let mut acc: usize = 0;
    while k < s.len()
        invariant
            k <= s.len(),
            acc <= b,
            acc == byte_len(s@.take(k as int)),
        decreases s.len() - k,
    {
        let l = char_len_utf8(s[k]);
        proof {
            assert(s@.take(k + 1).drop_last() =~= s@.take(k as int));
        }
        if l > b - acc {
            proof {
                assert(byte_len(s@.take(k + 1)) > b);
                if k + 1 < s@.len() {
                    lemma_byte_len_prefix(s@, k + 1, s@.len() as int);
                }
                assert(s@.take(s@.len() as int) =~= s@);
            }
            return b;
        }
        acc = acc + l;
        k += 1;
    }
    proof {
        assert(s@.take(s@.len() as int) =~= s@);
    }
    acc
}

} // verus!

verus! {

/// Whether two character sequences are equal.
pub fn chars_equal(a: &[char], b: &[char]) -> (r: bool)
    ensures
        r == (a@ == b@),
{
    if a.len() != b.len() {
        return false;
    }
    let mut i: usize = 0;
    while i < a.len()
        invariant
            a.len() == b.len(),
            i <= a.len(),
            forall|j: int| 0 <= j < i ==> a@[j] == b@[j],
        decreases a.len() - i,
    {
        if a[i] != b[i] {
            return false;
        }
        i += 1;
    }
    proof {
        assert(a@ =~= b@);
    }
    true
}

/// Whether two strings hold the same characters.
pub fn str_equal(a: &str, b: &str) -> (r: bool)
    ensures
        r == (a@ == b@),
{
    let ca = chars_of(a);
    let cb = chars_of(b);
    chars_equal(ca.as_slice(), cb.as_slice())
}

} // verus!

verus! {

/// The first `'\n'` at or after `from`.
fn next_newline(s: &[char], from: usize) -> (r: Option<usize>)
    requires
        from <= s.len(),
    ensures
        r matches Some(j) ==> from <= j < s.len() && s@[j as int] == '\n' && forall|k: int|
            from <= k < j ==> s@[k] != '\n',
        r is None ==> forall|k: int| from <= k < s.len() ==> s@[k] != '\n',
{
    let mut j = from;
    while j < s.len()
        invariant
            from <= j <= s.len(),
            forall|k: int| from <= k < j ==> s@[k] != '\n',
        decreases s.len() - j,
    {
        if s[j] == '\n' {
            return Some(j);
        }
        j += 1;
    }
    None
}

/// A one-character pattern occurs exactly where that character stands.
proof fn lemma_occurs_char(s: Seq<char>, c: char, i: int)
    ensures
        occurs_at(s, seq![c], i) <==> (0 <= i < s.len() && s[i] == c),
{
    if 0 <= i < s.len() && s[i] == c {
        assert(s.subrange(i, i + 1) =~= seq![c]);
    }
    if occurs_at(s, seq![c], i) {
        assert(s.subrange(i, i + 1)[0] == c);
    }
}

/// The characters `s[from..to]`, with one trailing `'\r'` dropped when `strip` holds.
fn slice_line(s: &[char], from: usize, to: usize, strip: bool) -> (out: Vec<char>)
    requires
        from <= to <= s.len(),
    ensures
        out@ == if strip { strip_cr(s@.subrange(from as int, to as int)) } else { s@.subrange(
            from as int,
            to as int,
        ) },
{
    let mut end = to;
    if strip && to > from && s[to - 1] == '\r' {
        end = to - 1;
    }
    let mut out: Vec<char> = Vec::new();
    let mut k = from;
    while k < end
        invariant
            from <= k <= end <= to <= s.len(),
            out@ == s@.subrange(from as int, k as int),
        decreases end - k,
    {
        out.push(s[k]);
        proof {
            assert(s@.subrange(from as int, k as int).push(s@[k as int]) =~= s@.subrange(
                from as int,
                k + 1,
            ));
        }
        k += 1;
    }
    proof {
        if to > from {
            assert(s@.subrange(from as int, to as int).drop_last() =~= s@.subrange(
                from as int,
                to - 1,
            ));
        }
    }
    out
}

/// One step of `lines`: a line ended by the first `'\n'`.
proof fn lemma_lines_step(s: Seq<char>, from: int, j: int)
    requires
        0 <= from <= j < s.len(),
        s[j] == '\n',
        forall|k: int| from <= k < j ==> s[k] != '\n',
    ensures
        lines(s.skip(from)) == seq![strip_cr(s.subrange(from, j))] + lines(s.skip(j + 1)),
{
    reveal(lines);
    let rest = s.skip(from);
    lemma_occurs_char(rest, '\n', j - from);
    assert forall|k: int| 0 <= k < j - from implies !occurs_at(rest, seq!['\n'], k) by {
        lemma_occurs_char(rest, '\n', k);
    }
    lemma_find_is(rest, seq!['\n'], j - from);
    assert(rest.take(j - from) =~= s.subrange(from, j));
    assert(rest.skip(j - from + 1) =~= s.skip(j + 1));
}

/// The last step of `lines`: a final line without `'\n'`.
proof fn lemma_lines_last(s: Seq<char>, from: int)
    requires
        0 <= from < s.len(),
        forall|k: int| from <= k < s.len() ==> s[k] != '\n',
    ensures
        lines(s.skip(from)) == seq![s.subrange(from, s.len() as int)],
{
    reveal(lines);
    let rest = s.skip(from);
    assert forall|k: int| !occurs_at(rest, seq!['\n'], k) by {
        lemma_occurs_char(rest, '\n', k);
    }
    assert(rest =~= s.subrange(from, s.len() as int));
}

/// The lines of `s`, as `str::lines` yields them.
pub fn lines_of(s: &[char]) -> (out: Vec<Vec<char>>)
    ensures
        views(out@) == lines(s@),
{
    let mut out: Vec<Vec<char>> = Vec::new();
    let mut pos: usize = 0;
    proof {
        assert(s@.skip(0) =~= s@);
        assert(views(out@) + lines(s@.skip(0)) =~= lines(s@));
    }
    while pos < s.len()
        invariant
            pos <= s.len(),
            views(out@) + lines(s@.skip(pos as int)) == lines(s@),
        decreases s.len() - pos,
    {
        match next_newline(s, pos) {
            Some(j) => {
                proof {
                    lemma_lines_step(s@, pos as int, j as int);
                }
                let line = slice_line(s, pos, j, true);
                let ghost before = out@;
                out.push(line);
                proof {
                    assert(views(out@) =~= views(before).push(line@));
                    assert(views(out@) + lines(s@.skip(j + 1)) =~= views(before) + lines(
                        s@.skip(pos as int),
                    ));
                }
                pos = j + 1;
            },
            None => {
                proof {
                    lemma_lines_last(s@, pos as int);
                }
                let line = slice_line(s, pos, s.len(), false);
                let ghost before = out@;
                out.push(line);
                proof {
                    assert(views(out@) =~= views(before).push(line@));
                    assert(s@.skip(s@.len() as int) =~= Seq::<char>::empty());
                    reveal(lines);
                    assert(views(out@) + lines(s@.skip(s@.len() as int)) =~= views(before)
                        + lines(s@.skip(pos as int)));
                }
                pos = s.len();
            },
        }
    }
    proof {
        reveal(lines);
        assert(s@.skip(pos as int) =~= Seq::<char>::empty());
        assert(views(out@) + lines(s@.skip(pos as int)) =~= views(out@));
    }
    out
}

} // verus!

verus! {

/// `parts` joined with `sep`.
pub fn join_exec(parts: &Vec<Vec<char>>, sep: &[char]) -> (out: Vec<char>)
    ensures
        out@ == join(views(parts@), sep@),
{
    let mut out: Vec<char> = Vec::new();
    let mut i: usize = 0;
    while i < parts.len()
        invariant
            i <= parts.len(),
            out@ == join(views(parts@).take(i as int), sep@),
        decreases parts.len() - i,
    {
        let ghost before = out@;
        if i > 0 {
            extend_chars(&mut out, sep);
        }
        extend_chars(&mut out, parts[i].as_slice());
        proof {
            let t = views(parts@).take(i + 1);
            assert(t.drop_last() =~= views(parts@).take(i as int));
            assert(t.last() == parts@[i as int]@);
            if i == 0 {
                assert(t =~= seq![parts@[0]@]);
            }
        }
        i += 1;
    }
    proof {
        assert(views(parts@).take(parts@.len() as int) =~= views(parts@));
    }
    out
}

/// A byte boundary is reached by exactly one number of characters.
pub proof fn lemma_boundary_unique(s: Seq<char>, b: int, k1: int, k2: int)
    requires
        boundary_at(s, b, k1),
        boundary_at(s, b, k2),
    ensures
        k1 == k2,
{
    if k1 < k2 {
        lemma_byte_len_prefix(s, k1, k2);
    }
    if k2 < k1 {
        lemma_byte_len_prefix(s, k2, k1);
    }
}

/// What follows byte `b` of `s`, when `b` is a character boundary.
pub open spec fn tail_from_byte(s: Seq<char>, b: int) -> Seq<char> {
    s.skip(choose|k: int| boundary_at(s, b, k))
}

/// `s` with its leading whitespace removed.
pub fn trim_start_exec(s: &[char]) -> (out: Vec<char>)
    ensures
        out@ == trim_start(s@),
{
    let mut k: usize = 0;
    proof {
        assert(s@.skip(0) =~= s@);
    }
    while k < s.len() && char_is_ws(s[k])
        invariant
            k <= s.len(),
            leading_ws(s@) == k + leading_ws(s@.skip(k as int)),
        decreases s.len() - k,
    {
        proof {
            assert(s@.skip(k as int).drop_first() =~= s@.skip(k + 1));
        }
        k += 1;
    }
    proof {
        if k < s.len() {
            assert(s@.skip(k as int)[0] == s@[k as int]);
        }
        assert(leading_ws(s@.skip(k as int)) == 0);
    }
    let mut out: Vec<char> = Vec::new();
    let mut i = k;
    while i < s.len()
        invariant
            k <= i <= s.len(),
            out@ == s@.subrange(k as int, i as int),
        decreases s.len() - i,
    {
        out.push(s[i]);
        proof {
            assert(s@.subrange(k as int, i as int).push(s@[i as int]) =~= s@.subrange(k as int, i + 1));
        }
        i += 1;
    }
    proof {
        assert(out@ =~= s@.skip(k as int));
    }
    out
}

/// `s[from..]`.
pub fn skip_exec(s: &[char], from: usize) -> (out: Vec<char>)
    requires
        from <= s.len(),
    ensures
        out@ == s@.skip(from as int),
{
    let mut out: Vec<char> = Vec::new();
    let mut i = from;
    while i < s.len()
        invariant
            from <= i <= s.len(),
            out@ == s@.subrange(from as int, i as int),
        decreases s.len() - i,
    {
        out.push(s[i]);
        proof {
            assert(s@.subrange(from as int, i as int).push(s@[i as int]) =~= s@.subrange(
                from as int,
                i + 1,
            ));
        }
        i += 1;
    }
    proof {
        assert(out@ =~= s@.skip(from as int));
    }
    out
}

/// `s[..to]`.
pub fn take_exec(s: &[char], to: usize) -> (out: Vec<char>)
    requires
        to <= s.len(),
    ensures
        out@ == s@.take(to as int),
{
    let mut out: Vec<char> = Vec::new();
    let mut i: usize = 0;
    while i < to
        invariant
            i <= to <= s.len(),
            out@ == s@.take(i as int),
        decreases to - i,
    {
        out.push(s[i]);
        proof {
            assert(s@.take(i as int).push(s@[i as int]) =~= s@.take(i + 1));
        }
        i += 1;
    }
    out
}

} // verus!

verus! {

/// Number of whitespace characters at the end of `s`.
pub open spec fn trailing_ws(s: Seq<char>) -> nat
    decreases s.len(),
{
    if s.len() == 0 {
        0
    } else if is_ws(s.last()) {
        1 + trailing_ws(s.drop_last())
    } else {
        0
    }
}

/// `s` with its trailing whitespace removed (`str::trim_end`).
pub open spec fn trim_end(s: Seq<char>) -> Seq<char> {
    s.take(s.len() - trailing_ws(s))
}

proof fn lemma_trailing_ws_bound(s: Seq<char>)
    ensures
        trailing_ws(s) <= s.len(),
    decreases s.len(),
{
    if s.len() > 0 {
        lemma_trailing_ws_bound(s.drop_last());
    }
}

/// `s` with its trailing whitespace removed.
pub fn trim_end_exec(s: &[char]) -> (out: Vec<char>)
    ensures
        out@ == trim_end(s@),
{
    let mut k: usize = s.len();
    proof {
        assert(s@.take(s@.len() as int) =~= s@);
        lemma_trailing_ws_bound(s@);
    }
    while k > 0 && char_is_ws(s[k - 1])
        invariant
            k <= s.len(),
            trailing_ws(s@) == (s.len() - k) + trailing_ws(s@.take(k as int)),
        decreases k,
    {
        proof {
            assert(s@.take(k as int).drop_last() =~= s@.take(k - 1));
            assert(s@.take(k as int).last() == s@[k - 1]);
        }
        k -= 1;
    }
    proof {
        if k > 0 {
            assert(s@.take(k as int).last() == s@[k - 1]);
        }
        assert(trailing_ws(s@.take(k as int)) == 0);
    }
    take_exec(s, k)
}

} // verus!
