//! Text utilities shared by the grammar and the literal parser: comment
//! stripping, delimiter tracking, top-level splitting, integer parsing,
//! date/time normalization, and escape processing.
use vstd::prelude::*;
use crate::error::TycoError;

verus! {

// ---------------------------------------------------------------------------
// Characters
// ---------------------------------------------------------------------------
/// The Unicode `White_Space` characters, as `str::trim` and
/// `char::is_whitespace` see them.
pub open spec fn is_space_char(c: char) -> bool {
    let u = c as u32;
    u == 32 || (9 <= u && u <= 13) || u == 0x85 || u == 0xA0 || u == 0x1680 || (0x2000 <= u && u
        <= 0x200A) || u == 0x2028 || u == 0x2029 || u == 0x202F || u == 0x205F || u == 0x3000
}

pub fn is_space(c: char) -> (r: bool)
    ensures
        r == is_space_char(c),
{
    let u = c as u32;
    u == 32 || (9 <= u && u <= 13) || u == 0x85 || u == 0xA0 || u == 0x1680 || (0x2000 <= u && u
        <= 0x200A) || u == 0x2028 || u == 0x2029 || u == 0x202F || u == 0x205F || u == 0x3000
}

pub open spec fn is_ascii_digit_char(c: char) -> bool {
    48 <= c as u32 && c as u32 <= 57
}

pub fn is_ascii_digit(c: char) -> (r: bool)
    ensures
        r == is_ascii_digit_char(c),
{
    let u = c as u32;
    48 <= u && u <= 57
}

/// Value of `c` as a digit in the given radix (2, 8, 10 or 16), hex digits in
/// either case; `None` where `c` is no digit of that radix.
pub open spec fn spec_digit_val(c: char, radix: int) -> Option<int> {
    let u = c as u32;
    if 48 <= u && u <= 57 && u - 48 < radix {
        Some((u - 48) as int)
    } else if radix == 16 && 97 <= u && u <= 102 {
        Some((u - 87) as int)
    } else if radix == 16 && 65 <= u && u <= 70 {
        Some((u - 55) as int)
    } else {
        None
    }
}

pub fn digit_val(c: char, radix: u32) -> (r: Option<u32>)
    requires
        radix == 2 || radix == 8 || radix == 10 || radix == 16,
    ensures
        r matches Some(d) ==> spec_digit_val(c, radix as int) == Some(d as int) && d < radix,
        r is None ==> spec_digit_val(c, radix as int) is None,
{
    let u = c as u32;
    if 48 <= u && u <= 57 && u - 48 < radix {
        Some(u - 48)
    } else if radix == 16 && 97 <= u && u <= 102 {
        Some(u - 87)
    } else if radix == 16 && 65 <= u && u <= 70 {
        Some(u - 55)
    } else {
        None
    }
}

// ---------------------------------------------------------------------------
// Conversions between &str, Vec<char> and String
// ---------------------------------------------------------------------------
/// The characters of `s`, one vector element per `char`.
pub fn to_char_vec(s: &str) -> (r: Vec<char>)
    ensures
        r@ == s@,
{
    let n = s.unicode_len();
    let mut out: Vec<char> = Vec::new();
    let mut i: usize = 0;
    while i < n
        invariant
            n == s@.len(),
            i <= n,
            out@ == s@.subrange(0, i as int),
        decreases n - i,
    {
        out.push(s.get_char(i));
        proof {
            assert(out@ =~= s@.subrange(0, i + 1));
        }
        i = i + 1;
    }
    proof {
        assert(out@ =~= s@);
    }
    out
}

/// A `String` holding exactly the characters of `v`.
pub fn chars_to_string(v: &Vec<char>) -> (r: String)
    ensures
        r@ == v@,
{
    let mut out: String = String::new();
    let mut i: usize = 0;
    while i < v.len()
        invariant
            i <= v@.len(),
            out@ == v@.subrange(0, i as int),
        decreases v@.len() - i,
    {
        out.push(v[i]);
        proof {
            assert(out@ =~= v@.subrange(0, i + 1));
        }
        i = i + 1;
    }
    proof {
        assert(out@ =~= v@);
    }
    out
}

// ---------------------------------------------------------------------------
// Trimming
// ---------------------------------------------------------------------------
pub open spec fn spec_trim_start(s: Seq<char>) -> Seq<char>
    decreases s.len(),
{
    if s.len() == 0 {
        s
    } else if is_space_char(s[0]) {
        spec_trim_start(s.skip(1))
    } else {
        s
    }
}

pub open spec fn spec_trim_end(s: Seq<char>) -> Seq<char>
    decreases s.len(),
{
    if s.len() == 0 {
        s
    } else if is_space_char(s[s.len() - 1]) {
        spec_trim_end(s.take(s.len() - 1))
    } else {
        s
    }
}

/// What `str::trim` leaves: the text with leading and trailing whitespace
/// removed.
pub open spec fn spec_trim(s: Seq<char>) -> Seq<char> {
    spec_trim_end(spec_trim_start(s))
}

/// The characters of `v` with leading and trailing whitespace removed.
pub fn trim_char_vec(v: &Vec<char>) -> (r: Vec<char>)
    ensures
        r@ == spec_trim(v@),
{
    let n = v.len();
    let mut lo: usize = 0;
    proof {
        assert(v@.skip(0) =~= v@);
    }
    while lo < n && is_space(v[lo])
        invariant
            n == v@.len(),
            lo <= n,
            spec_trim_start(v@) == spec_trim_start(v@.skip(lo as int)),
        decreases n - lo,
    {
        proof {
            assert(v@.skip(lo as int).skip(1) =~= v@.skip(lo + 1));
        }
        lo = lo + 1;
    }
    proof {
        if lo < n {
            assert(spec_trim_start(v@) =~= v@.skip(lo as int));
        } else {
            assert(v@.skip(lo as int).len() == 0);
            assert(spec_trim_start(v@) =~= v@.skip(lo as int));
        }
    }
    let mut hi: usize = n;
    while hi > lo && is_space(v[hi - 1])
        invariant
            n == v@.len(),
            lo <= hi <= n,
            spec_trim_start(v@) == v@.skip(lo as int),
            spec_trim_end(v@.skip(lo as int)) == spec_trim_end(v@.subrange(lo as int, hi as int)),
        decreases hi,
    {
        proof {
            assert(v@.subrange(lo as int, hi as int).take(hi - lo - 1) =~= v@.subrange(
                lo as int,
                hi - 1,
            ));
            assert(v@.subrange(lo as int, hi as int)[hi - lo - 1] == v@[hi - 1]);
        }
        hi = hi - 1;
    }
    proof {
        if hi > lo {
            assert(v@.subrange(lo as int, hi as int)[hi - lo - 1] == v@[hi - 1]);
            assert(spec_trim_end(v@.subrange(lo as int, hi as int)) =~= v@.subrange(
                lo as int,
                hi as int,
            ));
        } else {
            assert(v@.subrange(lo as int, hi as int).len() == 0);
            assert(spec_trim_end(v@.subrange(lo as int, hi as int)) =~= v@.subrange(
                lo as int,
                hi as int,
            ));
        }
    }
    let mut out: Vec<char> = Vec::new();
    let mut k: usize = lo;
    while k < hi
        invariant
            lo <= k <= hi <= v@.len(),
            out@ == v@.subrange(lo as int, k as int),
        decreases hi - k,
    {
        out.push(v[k]);
        proof {
            assert(out@ =~= v@.subrange(lo as int, k + 1));
        }
        k = k + 1;
    }
    proof {
        assert(spec_trim_start(v@).take(hi - lo) =~= v@.subrange(lo as int, hi as int));
    }
    out
}

/// Trimming never lengthens.
pub proof fn lemma_trim_start_len(s: Seq<char>)
    ensures
        spec_trim_start(s).len() <= s.len(),
    decreases s.len(),
{
    if s.len() > 0 && is_space_char(s[0]) {
        lemma_trim_start_len(s.skip(1));
    }
}

pub proof fn lemma_trim_end_len(s: Seq<char>)
    ensures
        spec_trim_end(s).len() <= s.len(),
    decreases s.len(),
{
    if s.len() > 0 && is_space_char(s[s.len() - 1]) {
        lemma_trim_end_len(s.take(s.len() - 1));
    }
}

pub proof fn lemma_trim_len(s: Seq<char>)
    ensures
        spec_trim(s).len() <= s.len(),
{
    lemma_trim_start_len(s);
    lemma_trim_end_len(spec_trim_start(s));
}

// ---------------------------------------------------------------------------
// Number rendering
// ---------------------------------------------------------------------------
pub open spec fn spec_digit_char(d: int) -> char {
    ((48 + d) as u32) as char
}

/// Decimal text of a natural number, most significant digit first.
pub open spec fn spec_u64_text(n: nat) -> Seq<char>
    decreases n,
{
    if n < 10 {
        seq![spec_digit_char(n as int)]
    } else {
        spec_u64_text(n / 10) + seq![spec_digit_char((n % 10) as int)]
    }
}

/// Decimal text of a signed number: `-` followed by the magnitude where
/// negative.
pub open spec fn spec_i64_text(v: int) -> Seq<char> {
    if v >= 0 {
        spec_u64_text(v as nat)
    } else {
        seq!['-'] + spec_u64_text((-v) as nat)
    }
}

pub fn u64_text(n: u64) -> (r: String)
    ensures
        r@ == spec_u64_text(n as nat),
    decreases n,
{
    let d: u8 = (n % 10) as u8;
    let c: char = digit_to_char(d);
    if n < 10 {
        let mut s = String::new();
        s.push(c);
        proof {
            assert(s@ =~= seq![spec_digit_char(n as int)]);
        }
        s
    } else {
        let mut s = u64_text(n / 10);
        s.push(c);
        proof {
            assert(s@ =~= spec_u64_text((n / 10) as nat) + seq![spec_digit_char((n % 10) as int)]);
        }
        s
    }
}

fn digit_to_char(d: u8) -> (c: char)
    requires
        d < 10,
    ensures
        c == spec_digit_char(d as int),
{
    let v: u32 = 48 + (d as u32);
    let r = char::from_u32(v);
    match r {
        Some(c) => {
            proof {
                vstd::utf8::char_u32_cast(c, v);
            }
            c
        },
        None => {
            proof {
                assert(false);
            }
            ' '
        },
    }
}

pub fn i64_text(v: i64) -> (r: String)
    ensures
        r@ == spec_i64_text(v as int),
{
    if v >= 0 {
        u64_text(v as u64)
    } else {
        let mag: u64 = ((-(v as i128)) as u64);
        let mut s = String::new();
        s.push('-');
        let t = u64_text(mag);
        s.append(t.as_str());
        proof {
            assert(s@ =~= seq!['-'] + spec_u64_text((-(v as int)) as nat));
        }
        s
    }
}

// ---------------------------------------------------------------------------
// Assumed specifications for std functions vstd does not cover
// ---------------------------------------------------------------------------
/// Relies on `String::push`: appends the given character to the end of the
/// string.
pub assume_specification[ String::push ](s: &mut String, ch: char)
    ensures
        final(s)@ == old(s)@.push(ch),
;

/// Relies on `char::from_u32`: converts a `u32` to a `char`, `None` exactly
/// for surrogate code points and values above `0x10FFFF`; a `Some` holds
/// the character with that scalar value.
pub assume_specification[ char::from_u32 ](v: u32) -> (r: Option<char>)
    ensures
        r matches Some(c) ==> c as u32 == v,
        r is Some <==> (v < 0xD800 || (0xE000 <= v && v <= 0x10FFFF)),
;

// ---------------------------------------------------------------------------
// Miscellaneous sequence helpers
// ---------------------------------------------------------------------------
/// `n` copies of `c`.
pub open spec fn repeat_char(c: char, n: nat) -> Seq<char> {
    Seq::new(n, |i: int| c)
}

/// The views of a sequence of strings.
pub open spec fn views_of(s: Seq<String>) -> Seq<Seq<char>> {
    Seq::new(s.len(), |i: int| s[i]@)
}

// ---------------------------------------------------------------------------
// Searching
// ---------------------------------------------------------------------------
/// Index of the first occurrence of `c` in `s` at or after `from`.
pub open spec fn find_char_from(s: Seq<char>, c: char, from: int) -> Option<int>
    decreases s.len() - from,
{
    if from >= s.len() {
        None
    } else if s[from] == c {
        Some(from)
    } else {
        find_char_from(s, c, from + 1)
    }
}

/// Scanning from `from` in `s` matches scanning the suffix from zero.
pub proof fn lemma_find_char_align(s: Seq<char>, t: Seq<char>, c: char, i: int, d: int)
    requires
        t == s.skip(d),
        0 <= d <= s.len(),
        0 <= i,
    ensures
        find_char_from(s, c, i + d) == (match find_char_from(t, c, i) {
            None => None::<int>,
            Some(j) => Some(j + d),
        }),
    decreases s.len() - d - i,
{
    if i + d < s.len() {
        assert(t[i] == s[i + d]);
        if s[i + d] != c {
            lemma_find_char_align(s, t, c, i + 1, d);
        }
    }
}

/// `find_char_from` at an offset, restated over the suffix.
pub proof fn lemma_find_char_shift(s: Seq<char>, c: char, from: int)
    requires
        0 <= from <= s.len(),
    ensures
        find_char_from(s, c, from) is None ==> find_char_from(s.skip(from), c, 0) is None,
        find_char_from(s, c, from) matches Some(j) ==> find_char_from(s.skip(from), c, 0) == Some(
            j - from,
        ),
{
    lemma_find_char_align(s, s.skip(from), c, 0, from);
}

pub fn find_char(s: &Vec<char>, c: char, from: usize) -> (r: Option<usize>)
    ensures
        r matches Some(i) ==> from <= i < s@.len() && find_char_from(s@, c, from as int) == Some(
            i as int,
        ),
        r is None ==> find_char_from(s@, c, from as int) is None,
{
    let mut i: usize = from;
    while i < s.len()
        invariant
            from <= i,
            find_char_from(s@, c, from as int) == find_char_from(s@, c, i as int),
        decreases s@.len() - i,
    {
        if s[i] == c {
            return Some(i);
        }
        i = i + 1;
    }
    None
}

/// `d` occurs in `s` starting at index `i`.
pub open spec fn occurs_at(s: Seq<char>, d: Seq<char>, i: int) -> bool {
    0 <= i && i + d.len() <= s.len() && s.subrange(i, i + d.len()) == d
}

/// Index of the first occurrence of `d` in `s` at or after `from`.
pub open spec fn find_sub_from(s: Seq<char>, d: Seq<char>, from: int) -> Option<int>
    decreases s.len() - from + 1,
{
    if from + d.len() > s.len() || from < 0 {
        None
    } else if occurs_at(s, d, from) {
        Some(from)
    } else {
        find_sub_from(s, d, from + 1)
    }
}

/// A found occurrence really is one: `find_sub_from` only answers indices at
/// which `d` occurs.
pub proof fn lemma_find_sub_occurs(s: Seq<char>, d: Seq<char>, from: int)
    ensures
        find_sub_from(s, d, from) matches Some(i) ==> occurs_at(s, d, i) && from <= i,
    decreases s.len() - from + 1,
{
    if !(from + d.len() > s.len() || from < 0) && !occurs_at(s, d, from) {
        lemma_find_sub_occurs(s, d, from + 1);
    }
}

fn match_at(s: &Vec<char>, d: &Vec<char>, i: usize) -> (r: bool)
    requires
        i + d@.len() <= s@.len(),
    ensures
        r == occurs_at(s@, d@, i as int),
{
    let n = s.len();
    let mut j: usize = 0;
    while j < d.len()
        invariant
            n == s@.len(),
            i + d@.len() <= s@.len(),
            j <= d@.len(),
            s@.subrange(i as int, i + j) == d@.subrange(0, j as int),
        decreases d@.len() - j,
    {
        if s[i + j] != d[j] {
            proof {
                assert(s@.subrange(i as int, i + d@.len())[j as int] == s@[i + j]);
                assert(d@[j as int] != s@[i + j]);
            }
            return false;
        }
        proof {
            assert(s@.subrange(i as int, i + j + 1) =~= s@.subrange(i as int, i + j) + seq![
                s@[i + j],
            ]);
            assert(d@.subrange(0, j + 1) =~= d@.subrange(0, j as int) + seq![d@[j as int]]);
        }
        j = j + 1;
    }
    proof {
        assert(d@.subrange(0, d@.len() as int) =~= d@);
    }
    true
}

pub fn find_sub(s: &Vec<char>, d: &Vec<char>, from: usize) -> (r: Option<usize>)
    ensures
        r matches Some(i) ==> from <= i && find_sub_from(s@, d@, from as int) == Some(i as int),
        r is None ==> find_sub_from(s@, d@, from as int) is None,
{
    if d.len() > s.len() {
        return None;
    }
    let last = s.len() - d.len();
    let mut i: usize = from;
    while i <= last
        invariant
            from <= i,
            d@.len() <= s@.len(),
            last == s@.len() - d@.len(),
            find_sub_from(s@, d@, from as int) == find_sub_from(s@, d@, i as int),
        decreases last - i + 1,
    {
        if match_at(s, d, i) {
            return Some(i);
        }
        if i == last {
            return None;
        }
        i = i + 1;
    }
    None
}

/// `has_unclosed_delimiter` is true when `delimiter` occurs in `line` exactly
/// once: an opening with no closing after it.
pub open spec fn spec_has_unclosed(s: Seq<char>, d: Seq<char>) -> bool {
    match find_sub_from(s, d, 0) {
        None => false,
        Some(i) => find_sub_from(s, d, i + d.len()) is None,
    }
}

/// True when `delimiter` opens in `line` and never closes: it occurs, and
/// does not occur again after the first occurrence.
pub fn has_unclosed_delimiter(line: &str, delimiter: &str) -> (r: bool)
    ensures
        r == spec_has_unclosed(line@, delimiter@),
{
    let s = to_char_vec(line);
    let d = to_char_vec(delimiter);
    let n = s.len();
    match find_sub(&s, &d, 0) {
        None => false,
        Some(i) => {
            proof {
                lemma_find_sub_occurs(s@, d@, 0);
                assert(i + d@.len() <= n);
            }
            match find_sub(&s, &d, i + d.len()) {
                None => true,
                Some(_) => false,
            }
        },
    }
}

// ---------------------------------------------------------------------------
// Comment stripping
// ---------------------------------------------------------------------------
/// Index at which an unquoted `#` starts a comment, tracking single- and
/// double-quote state so a `#` inside a string literal is kept.
pub open spec fn comment_scan(s: Seq<char>, i: int, in_q: bool, qc: char) -> Option<int>
    decreases s.len() - i,
{
    if i >= s.len() {
        None
    } else {
        let c = s[i];
        if !in_q && (c == '"' || c == '\'') {
            comment_scan(s, i + 1, true, c)
        } else if in_q && c == qc && !(i > 0 && s[i - 1] == '\\') {
            comment_scan(s, i + 1, false, '\0')
        } else if c == '#' && !in_q {
            Some(i)
        } else {
            comment_scan(s, i + 1, in_q, qc)
        }
    }
}

/// What `strip_inline_comment` returns: the line cut at the first unquoted
/// `#`, then trailing whitespace removed.
pub open spec fn spec_strip_comment(s: Seq<char>) -> Seq<char> {
    match comment_scan(s, 0, false, '\0') {
        Some(i) => spec_trim_end(s.take(i)),
        None => spec_trim_end(s),
    }
}

fn trim_end_char_vec(v: &Vec<char>, upto: usize) -> (r: Vec<char>)
    requires
        upto <= v@.len(),
    ensures
        r@ == spec_trim_end(v@.take(upto as int)),
{
    let mut hi: usize = upto;
    while hi > 0 && is_space(v[hi - 1])
        invariant
            hi <= upto <= v@.len(),
            spec_trim_end(v@.take(upto as int)) == spec_trim_end(v@.take(hi as int)),
        decreases hi,
    {
        proof {
            assert(v@.take(hi as int).take(hi - 1) =~= v@.take(hi - 1));
            assert(v@.take(hi as int)[hi - 1] == v@[hi - 1]);
        }
        hi = hi - 1;
    }
    proof {
        if hi > 0 {
            assert(v@.take(hi as int)[hi - 1] == v@[hi - 1]);
            assert(spec_trim_end(v@.take(hi as int)) =~= v@.take(hi as int));
        } else {
            assert(spec_trim_end(v@.take(hi as int)) =~= v@.take(hi as int));
        }
    }
    let mut out: Vec<char> = Vec::new();
    let mut k: usize = 0;
    while k < hi
        invariant
            k <= hi <= v@.len(),
            out@ == v@.subrange(0, k as int),
        decreases hi - k,
    {
        out.push(v[k]);
        proof {
            assert(out@ =~= v@.subrange(0, k + 1));
        }
        k = k + 1;
    }
    out
}

/// Removes everything from an unquoted `#` to the end of the line, tracking
/// quote state, then trims trailing whitespace.
pub fn strip_inline_comment(line: &str) -> (r: String)
    ensures
        r@ == spec_strip_comment(line@),
{
    let s = to_char_vec(line);
    let mut i: usize = 0;
    let mut in_q: bool = false;
    let mut qc: char = '\0';
    let mut cut: Option<usize> = None;
    while i < s.len() && cut.is_none()
        invariant
            i <= s@.len(),
            cut is None ==> comment_scan(s@, 0, false, '\0') == comment_scan(
                s@,
                i as int,
                in_q,
                qc,
            ),
            cut matches Some(k) ==> comment_scan(s@, 0, false, '\0') == Some(k as int) && k
                <= s@.len(),
        decreases s@.len() - i,
    {
        let c = s[i];
        if !in_q && (c == '"' || c == '\'') {
            in_q = true;
            qc = c;
        } else if in_q && c == qc && !(i > 0 && s[i - 1] == '\\') {
            in_q = false;
            qc = '\0';
        } else if c == '#' && !in_q {
            cut = Some(i);
        }
        i = i + 1;
    }
    let trimmed = match cut {
        Some(k) => trim_end_char_vec(&s, k),
        None => {
            proof {
                assert(s@.take(s@.len() as int) =~= s@);
            }
            trim_end_char_vec(&s, s.len())
        },
    };
    chars_to_string(&trimmed)
}

// ---------------------------------------------------------------------------
// Escaped-quote detection
// ---------------------------------------------------------------------------
pub open spec fn trailing_backslashes(s: Seq<char>) -> nat
    decreases s.len(),
{
    if s.len() == 0 || s[s.len() - 1] != '\\' {
        0
    } else {
        1 + trailing_backslashes(s.take(s.len() - 1))
    }
}

/// The last character stands escaped: an odd run of backslashes ends `s`.
pub open spec fn spec_is_escaped(s: Seq<char>) -> bool {
    trailing_backslashes(s) % 2 == 1
}

fn is_escaped_chars(v: &Vec<char>) -> (r: bool)
    ensures
        r == spec_is_escaped(v@),
{
    let n = v.len();
    let mut j: usize = n;
    let mut count: u64 = 0;
    proof {
        assert(v@.take(v@.len() as int) =~= v@);
    }
    while j > 0 && v[j - 1] == '\\'
        invariant
            n == v@.len(),
            j <= v@.len(),
            count == v@.len() - j,
            trailing_backslashes(v@) == count + trailing_backslashes(v@.take(j as int)),
        decreases j,
    {
        proof {
            assert(v@.take(j as int)[j - 1] == v@[j - 1]);
            assert(v@.take(j as int).take(j - 1) =~= v@.take(j - 1));
        }
        j = j - 1;
        count = count + 1;
    }
    proof {
        if j > 0 {
            assert(v@.take(j as int)[j - 1] == v@[j - 1]);
        }
        assert(trailing_backslashes(v@.take(j as int)) == 0);
    }
    count % 2 == 1
}

/// True when `current` ends in an odd number of backslashes, so that a quote
/// following it stands escaped.
pub fn is_escaped(current: &str) -> (r: bool)
    ensures
        r == spec_is_escaped(current@),
{
    let v = to_char_vec(current);
    is_escaped_chars(&v)
}

// ---------------------------------------------------------------------------
// Top-level splitting
// ---------------------------------------------------------------------------
/// One step of `split_top_level`: scans `s` from `i` with the current part,
/// bracket depth, quote state and parts already split, and returns all parts.
/// Parts are split at `delim` only at bracket depth zero and outside quotes;
/// every part is trimmed; the final part is kept only when nonempty.
pub open spec fn split_scan(
    s: Seq<char>,
    i: int,
    cur: Seq<char>,
    depth: int,
    in_q: bool,
    qc: char,
    acc: Seq<Seq<char>>,
    delim: char,
) -> Seq<Seq<char>>
    decreases s.len() - i,
{
    if i >= s.len() {
        if spec_trim(cur).len() != 0 {
            acc.push(spec_trim(cur))
        } else {
            acc
        }
    } else {
        let c = s[i];
        if in_q {
            if c == qc && !spec_is_escaped(cur) {
                split_scan(s, i + 1, cur.push(c), depth, false, '\0', acc, delim)
            } else {
                split_scan(s, i + 1, cur.push(c), depth, true, qc, acc, delim)
            }
        } else if c == '"' || c == '\'' {
            split_scan(s, i + 1, cur.push(c), depth, true, c, acc, delim)
        } else if c == '[' || c == '{' || c == '(' {
            split_scan(s, i + 1, cur.push(c), depth + 1, false, qc, acc, delim)
        } else if c == ']' || c == '}' || c == ')' {
            split_scan(s, i + 1, cur.push(c), depth - 1, false, qc, acc, delim)
        } else if c == delim && depth == 0 {
            split_scan(s, i + 1, Seq::empty(), depth, false, qc, acc.push(spec_trim(cur)), delim)
        } else {
            split_scan(s, i + 1, cur.push(c), depth, false, qc, acc, delim)
        }
    }
}

/// What `split_top_level` returns for `s` and `delim`.
pub open spec fn spec_split_top(s: Seq<char>, delim: char) -> Seq<Seq<char>> {
    split_scan(s, 0, Seq::empty(), 0, false, '\0', Seq::empty(), delim)
}

/// Every part of a split is no longer than what was scanned.
pub proof fn lemma_split_scan_part_len(
    s: Seq<char>,
    i: int,
    cur: Seq<char>,
    depth: int,
    in_q: bool,
    qc: char,
    acc: Seq<Seq<char>>,
    delim: char,
    bound: int,
)
    requires
        0 <= i <= s.len(),
        forall|j: int| 0 <= j < acc.len() ==> acc[j].len() <= bound,
        cur.len() + (s.len() - i) <= bound,
    ensures
        forall|j: int|
            0 <= j < split_scan(s, i, cur, depth, in_q, qc, acc, delim).len() ==> split_scan(
                s,
                i,
                cur,
                depth,
                in_q,
                qc,
                acc,
                delim,
            )[j].len() <= bound,
    decreases s.len() - i,
{
    if i >= s.len() {
        lemma_trim_len(cur);
        let res = split_scan(s, i, cur, depth, in_q, qc, acc, delim);
        if spec_trim(cur).len() != 0 {
            assert forall|j: int| 0 <= j < res.len() implies res[j].len() <= bound by {
                if j < acc.len() {
                    assert(res[j] == acc[j]);
                } else {
                    assert(res[j] == spec_trim(cur));
                }
            }
        }
    } else {
        let c = s[i];
        let res = split_scan(s, i, cur, depth, in_q, qc, acc, delim);
        lemma_trim_len(cur);
        if in_q {
            if c == qc && !spec_is_escaped(cur) {
                assert(res == split_scan(s, i + 1, cur.push(c), depth, false, '\0', acc, delim));
                lemma_split_scan_part_len(s, i + 1, cur.push(c), depth, false, '\0', acc, delim, bound);
            } else {
                assert(res == split_scan(s, i + 1, cur.push(c), depth, true, qc, acc, delim));
                lemma_split_scan_part_len(s, i + 1, cur.push(c), depth, true, qc, acc, delim, bound);
            }
        } else if c == '"' || c == '\'' {
            assert(res == split_scan(s, i + 1, cur.push(c), depth, true, c, acc, delim));
            lemma_split_scan_part_len(s, i + 1, cur.push(c), depth, true, c, acc, delim, bound);
        } else if c == '[' || c == '{' || c == '(' {
            assert(res == split_scan(s, i + 1, cur.push(c), depth + 1, false, qc, acc, delim));
            lemma_split_scan_part_len(s, i + 1, cur.push(c), depth + 1, false, qc, acc, delim, bound);
        } else if c == ']' || c == '}' || c == ')' {
            assert(res == split_scan(s, i + 1, cur.push(c), depth - 1, false, qc, acc, delim));
            lemma_split_scan_part_len(s, i + 1, cur.push(c), depth - 1, false, qc, acc, delim, bound);
        } else if c == delim && depth == 0 {
            let acc2 = acc.push(spec_trim(cur));
            assert forall|j: int| 0 <= j < acc2.len() implies acc2[j].len() <= bound by {
                if j < acc.len() {
                    assert(acc2[j] == acc[j]);
                } else {
                    assert(acc2[j] == spec_trim(cur));
                }
            }
            assert(res == split_scan(s, i + 1, Seq::empty(), depth, false, qc, acc2, delim));
            lemma_split_scan_part_len(
                s,
                i + 1,
                Seq::empty(),
                depth,
                false,
                qc,
                acc2,
                delim,
                bound,
            );
        } else {
            assert(res == split_scan(s, i + 1, cur.push(c), depth, false, qc, acc, delim));
            lemma_split_scan_part_len(s, i + 1, cur.push(c), depth, false, qc, acc, delim, bound);
        }
    }
}

/// Every part of `split_top_level`'s result is no longer than the input.
pub proof fn lemma_split_top_part_len(s: Seq<char>, delim: char)
    ensures
        forall|j: int|
            0 <= j < spec_split_top(s, delim).len() ==> spec_split_top(s, delim)[j].len()
                <= s.len(),
{
    lemma_split_scan_part_len(
        s,
        0,
        Seq::empty(),
        0,
        false,
        '\0',
        Seq::empty(),
        delim,
        s.len() as int,
    );
}

/// Splits `input` at `delimiter` occurrences that stand outside quotes and
/// outside `[]{}()` nesting; each piece is trimmed, and a trailing piece that
/// trims to nothing is dropped.
pub fn split_top_level(input: &str, delimiter: char) -> (r: Vec<String>)
    ensures
        views_of(r@) == spec_split_top(input@, delimiter),
{
    let s = to_char_vec(input);
    let mut parts: Vec<String> = Vec::new();
    let mut cur: Vec<char> = Vec::new();
    let mut depth: i128 = 0;
    let mut in_q: bool = false;
    let mut qc: char = '\0';
    let mut i: usize = 0;
    proof {
        assert(cur@ =~= Seq::<char>::empty());
        assert(views_of(parts@) =~= Seq::<Seq<char>>::empty());
    }
    while i < s.len()
        invariant
            i <= s@.len(),
            -(i as int) <= depth <= i as int,
            split_scan(s@, i as int, cur@, depth as int, in_q, qc, views_of(parts@), delimiter)
                == spec_split_top(s@, delimiter),
        decreases s@.len() - i,
    {
        let c = s[i];
        if in_q {
            if c == qc && !is_escaped_chars(&cur) {
                in_q = false;
                qc = '\0';
            }
            cur.push(c);
        } else if c == '"' || c == '\'' {
            in_q = true;
            qc = c;
            cur.push(c);
        } else if c == '[' || c == '{' || c == '(' {
            depth = depth + 1;
            cur.push(c);
        } else if c == ']' || c == '}' || c == ')' {
            depth = depth - 1;
            cur.push(c);
        } else if c == delimiter && depth == 0 {
            let t = trim_char_vec(&cur);
            let piece = chars_to_string(&t);
            let ghost pre = views_of(parts@);
            parts.push(piece);
            proof {
                assert(views_of(parts@) =~= pre.push(spec_trim(cur@)));
            }
            cur = Vec::new();
            proof {
                assert(cur@ =~= Seq::<char>::empty());
            }
        } else {
            cur.push(c);
        }
        i = i + 1;
    }
    if cur.len() > 0 {
        let t = trim_char_vec(&cur);
        if t.len() > 0 {
            let ghost pre = views_of(parts@);
            let piece = chars_to_string(&t);
            parts.push(piece);
            proof {
                assert(views_of(parts@) =~= pre.push(spec_trim(cur@)));
            }
        }
    } else {
        proof {
            assert(spec_trim(cur@).len() == 0);
        }
    }
    parts
}

// ---------------------------------------------------------------------------
// String equality
// ---------------------------------------------------------------------------
pub fn chars_eq(a: &Vec<char>, b: &Vec<char>) -> (r: bool)
    ensures
        r == (a@ == b@),
{
    if a.len() != b.len() {
        return false;
    }
    let mut i: usize = 0;
    while i < a.len()
        invariant
            a@.len() == b@.len(),
            i <= a@.len(),
            forall|j: int| 0 <= j < i as int ==> a@[j] == b@[j],
        decreases a@.len() - i,
    {
        if a[i] != b[i] {
            return false;
        }
        i = i + 1;
    }
    proof {
        assert(a@ =~= b@);
    }
    true
}

/// Character-wise equality of two string slices.
pub fn str_eq(a: &str, b: &str) -> (r: bool)
    ensures
        r == (a@ == b@),
{
    let av = to_char_vec(a);
    let bv = to_char_vec(b);
    chars_eq(&av, &bv)
}

// ---------------------------------------------------------------------------
// Integer literals
// ---------------------------------------------------------------------------
/// Folds digit characters left to right over `acc`; `None` at the first
/// character that is no digit of the radix.
pub open spec fn digits_val_acc(s: Seq<char>, radix: int, acc: int) -> Option<int>
    decreases s.len(),
{
    if s.len() == 0 {
        Some(acc)
    } else {
        match spec_digit_val(s[0], radix) {
            None => None,
            Some(d) => digits_val_acc(s.skip(1), radix, acc * radix + d),
        }
    }
}

/// Value of a nonempty all-digit run; `None` where empty or malformed.
pub open spec fn digits_val(s: Seq<char>, radix: int) -> Option<int> {
    if s.len() == 0 {
        None
    } else {
        digits_val_acc(s, radix, 0)
    }
}

/// The radix that an integer-literal body (sign already removed) selects.
pub open spec fn spec_int_radix(body: Seq<char>) -> int {
    if body.len() >= 2 && body[0] == '0' && (body[1] == 'x' || body[1] == 'X') {
        16
    } else if body.len() >= 2 && body[0] == '0' && (body[1] == 'o' || body[1] == 'O') {
        8
    } else if body.len() >= 2 && body[0] == '0' && (body[1] == 'b' || body[1] == 'B') {
        2
    } else {
        10
    }
}

/// The digit run of an integer-literal body: behind the radix prefix, or the
/// whole body for decimal.
pub open spec fn spec_int_digits(body: Seq<char>) -> Seq<char> {
    if spec_int_radix(body) == 10 {
        body
    } else {
        body.skip(2)
    }
}

/// `None` unmoved; a value negated when `neg`.
pub open spec fn apply_sign(m: Option<int>, neg: bool) -> Option<int> {
    match m {
        None => None,
        Some(v) => Some(
            if neg {
                -v
            } else {
                v
            },
        ),
    }
}

/// The mathematical value of an integer literal: optional leading `-`, then
/// decimal digits or a `0x`/`0o`/`0b` (either case) prefixed run in base
/// 16/8/2; `None` where malformed.
pub open spec fn spec_parse_integer(tok: Seq<char>) -> Option<int> {
    let t = spec_trim(tok);
    let neg = t.len() > 0 && t[0] == '-';
    let body = if neg {
        t.skip(1)
    } else {
        t
    };
    apply_sign(digits_val(spec_int_digits(body), spec_int_radix(body)), neg)
}

/// The folded value only grows as digits are appended.
pub proof fn lemma_digits_val_lb(s: Seq<char>, radix: int, acc: int)
    requires
        acc >= 0,
        radix >= 1,
    ensures
        digits_val_acc(s, radix, acc) matches Some(v) ==> v >= acc,
    decreases s.len(),
{
    if s.len() > 0 {
        match spec_digit_val(s[0], radix) {
            Some(d) => {
                assert(acc * radix + d >= acc) by (nonlinear_arith)
                    requires
                        acc >= 0,
                        radix >= 1,
                        d >= 0,
                ;
                lemma_digits_val_lb(s.skip(1), radix, acc * radix + d);
            },
            None => {},
        }
    }
}

/// Parses an integer literal: optional leading `-`, then decimal digits or a
/// `0x`/`0o`/`0b` prefixed run. Malformed digits, an empty digit run, or a
/// magnitude above `i64::MAX` are parse errors.
pub fn parse_integer(token: &str) -> (r: Result<i64, TycoError>)
    ensures
        r matches Ok(v) ==> spec_parse_integer(token@) == Some(v as int) && -(i64::MAX as int) <= v
            as int <= i64::MAX as int,
        r is Err ==> (spec_parse_integer(token@) is None || (spec_parse_integer(
            token@,
        ) matches Some(v) && (v > i64::MAX as int || v < -(i64::MAX as int)))),
        spec_parse_integer(token@) matches Some(v) ==> ((-(i64::MAX as int) <= v && v <= i64::MAX
            as int) ==> (r matches Ok(w) && w as int == v)),
        r matches Err(e) ==> e is Parse,
{
    let tv = to_char_vec(token);
    let t = trim_char_vec(&tv);
    let neg = t.len() > 0 && t[0] == '-';
    let start: usize = if neg {
        1
    } else {
        0
    };
    let ghost body = if neg {
        t@.skip(1)
    } else {
        t@
    };
    let has_prefix = t.len() >= start + 2 && t[start] == '0';
    let (radix, dstart): (u32, usize) = if has_prefix && (t[start + 1] == 'x' || t[start + 1]
        == 'X') {
        (16, start + 2)
    } else if has_prefix && (t[start + 1] == 'o' || t[start + 1] == 'O') {
        (8, start + 2)
    } else if has_prefix && (t[start + 1] == 'b' || t[start + 1] == 'B') {
        (2, start + 2)
    } else {
        (10, start)
    };
    let ghost digits = t@.skip(dstart as int);
    proof {
        assert(body =~= t@.subrange(start as int, t@.len() as int));
        assert(body.len() == t@.len() - start);
        if t@.len() > start {
            assert(body[0] == t@[start as int]);
        }
        if t@.len() > start + 1 {
            assert(body[1] == t@[start as int + 1]);
        }
        assert(spec_int_radix(body) == radix as int);
        if dstart > start {
            assert(body.skip(2) =~= digits);
        } else {
            assert(body =~= digits);
        }
        assert(spec_int_digits(body) == digits);
        assert(spec_parse_integer(token@) == apply_sign(digits_val(digits, radix as int), neg));
    }
    if dstart >= t.len() {
        proof {
            assert(digits.len() == 0);
            assert(digits_val(digits, radix as int) is None);
            assert(spec_parse_integer(token@) is None);
        }
        let mut m = String::new();
        m.append("Failed to parse integer '");
        m.append(token);
        m.append("'");
        return Err(TycoError::parse(m));
    }
    let mut acc: u64 = 0;
    let mut i: usize = dstart;
    while i < t.len()
        invariant
            dstart <= i <= t@.len(),
            radix == 16 || radix == 8 || radix == 2 || radix == 10,
            acc <= i64::MAX as u64,
            digits == t@.skip(dstart as int),
            digits.len() > 0,
            spec_parse_integer(token@) == apply_sign(digits_val(digits, radix as int), neg),
            digits_val_acc(digits, radix as int, 0) == digits_val_acc(
                t@.skip(i as int),
                radix as int,
                acc as int,
            ),
        decreases t@.len() - i,
    {
        proof {
            assert(t@.skip(i as int)[0] == t@[i as int]);
            assert(t@.skip(i as int).skip(1) =~= t@.skip(i as int + 1));
        }
        match digit_val(t[i], radix) {
            None => {
                proof {
                    assert(digits_val_acc(t@.skip(i as int), radix as int, acc as int) is None);
                    assert(digits_val(digits, radix as int) is None);
                    assert(spec_parse_integer(token@) is None);
                }
                let mut m = String::new();
                m.append("Failed to parse integer '");
                m.append(token);
                m.append("'");
                return Err(TycoError::parse(m));
            },
            Some(d) => {
                proof {
                    assert((acc as int) * (radix as int) <= (i64::MAX as int) * 16) by (
                    nonlinear_arith)
                        requires
                            acc <= i64::MAX as u64,
                            radix <= 16,
                    ;
                }
                let wide: u128 = (acc as u128) * (radix as u128) + (d as u128);
                if wide > i64::MAX as u128 {
                    proof {
                        lemma_digits_val_lb(
                            t@.skip(i as int + 1),
                            radix as int,
                            acc as int * radix as int + d as int,
                        );
                        assert(digits_val(digits, radix as int) == digits_val_acc(
                            t@.skip(i as int + 1),
                            radix as int,
                            acc as int * radix as int + d as int,
                        ));
                        assert(digits_val(digits, radix as int) matches Some(v) ==> v > i64::MAX
                            as int);
                        assert(spec_parse_integer(token@) is None || (spec_parse_integer(
                            token@,
                        ) matches Some(w) && (w > i64::MAX as int || w < -(i64::MAX as int))));
                    }
                    let mut m = String::new();
                    m.append("Failed to parse integer '");
                    m.append(token);
                    m.append("'");
                    return Err(TycoError::parse(m));
                }
                acc = wide as u64;
            },
        }
        i = i + 1;
    }
    proof {
        assert(t@.skip(t@.len() as int).len() == 0);
        assert(digits_val(digits, radix as int) == Some(acc as int));
    }
    let v: i64 = acc as i64;
    if neg {
        Ok(-v)
    } else {
        Ok(v)
    }
}

/// The mathematical value of a plain decimal integer with an optional
/// leading `+` or `-`, as `i64` text is written; `None` where malformed.
pub open spec fn spec_decimal_int(s: Seq<char>) -> Option<int> {
    let signed = s.len() > 0 && (s[0] == '-' || s[0] == '+');
    let neg = s.len() > 0 && s[0] == '-';
    let body = if signed {
        s.skip(1)
    } else {
        s
    };
    match digits_val(body, 10) {
        None => None,
        Some(v) => Some(
            if neg {
                -v
            } else {
                v
            },
        ),
    }
}

/// Parses optional-sign decimal text into an `i64`; `None` where malformed
/// or out of range.
pub fn parse_decimal_i64(s: &str) -> (r: Option<i64>)
    ensures
        r matches Some(x) ==> spec_decimal_int(s@) == Some(x as int),
        r is None ==> (spec_decimal_int(s@) is None || (spec_decimal_int(s@) matches Some(v) && (v
            > i64::MAX as int || v < i64::MIN as int))),
        spec_decimal_int(s@) matches Some(v) ==> ((i64::MIN as int <= v && v <= i64::MAX as int)
            ==> (r matches Some(x) && x as int == v)),
{
    let t = to_char_vec(s);
    let signed = t.len() > 0 && (t[0] == '-' || t[0] == '+');
    let neg = t.len() > 0 && t[0] == '-';
    let start: usize = if signed {
        1
    } else {
        0
    };
    let ghost body = if signed {
        t@.skip(1)
    } else {
        t@
    };
    proof {
        assert(body =~= t@.skip(start as int));
        if !signed {
            assert(body =~= t@);
        }
    }
    let limit: u64 = if neg {
        0x8000000000000000
    } else {
        0x7FFFFFFFFFFFFFFF
    };
    if start >= t.len() {
        return None;
    }
    let mut acc: u64 = 0;
    let mut i: usize = start;
    while i < t.len()
        invariant
            start <= i <= t@.len(),
            start < t@.len(),
            acc <= limit,
            t@ == s@,
            signed == (s@.len() > 0 && (s@[0] == '-' || s@[0] == '+')),
            neg == (s@.len() > 0 && s@[0] == '-'),
            start as int == (if signed {
                1int
            } else {
                0int
            }),
            limit == (if neg {
                0x8000000000000000u64
            } else {
                0x7FFFFFFFFFFFFFFFu64
            }),
            body == t@.skip(start as int),
            body == (if signed {
                s@.skip(1)
            } else {
                s@
            }),
            digits_val_acc(body, 10, 0) == digits_val_acc(t@.skip(i as int), 10, acc as int),
        decreases t@.len() - i,
    {
        proof {
            assert(t@.skip(i as int)[0] == t@[i as int]);
            assert(t@.skip(i as int).skip(1) =~= t@.skip(i as int + 1));
        }
        match digit_val(t[i], 10) {
            None => {
                proof {
                    assert(digits_val(body, 10) is None);
                    assert(spec_decimal_int(s@) == apply_sign(digits_val(body, 10), neg));
                    assert(spec_decimal_int(s@) is None);
                }
                return None;
            },
            Some(d) => {
                let wide: u128 = (acc as u128) * 10 + (d as u128);
                if wide > limit as u128 {
                    proof {
                        lemma_digits_val_lb(
                            t@.skip(i as int + 1),
                            10,
                            acc as int * 10 + d as int,
                        );
                        assert(digits_val(body, 10) matches Some(v) ==> v > limit as int);
                        assert(spec_decimal_int(s@) == apply_sign(digits_val(body, 10), neg));
                        assert(spec_decimal_int(s@) matches Some(w) ==> (w > i64::MAX as int || w
                            < i64::MIN as int));
                    }
                    return None;
                }
                proof {
                    assert((acc as int) * 10 <= (limit as int) * 10) by (nonlinear_arith)
                        requires
                            acc <= limit,
                            limit >= 0,
                    ;
                }
                acc = (wide as u64);
            },
        }
        i = i + 1;
    }
    proof {
        assert(t@.skip(t@.len() as int).len() == 0);
        assert(digits_val(body, 10) == Some(acc as int));
    }
    if neg {
        if acc == 0x8000000000000000 {
            Some(i64::MIN)
        } else {
            let v: i64 = acc as i64;
            Some(-v)
        }
    } else {
        Some(acc as i64)
    }
}

// ---------------------------------------------------------------------------
// Time and datetime normalization
// ---------------------------------------------------------------------------
/// The run of ASCII digits that starts `s`.
pub open spec fn take_digits(s: Seq<char>) -> Seq<char>
    decreases s.len(),
{
    if s.len() == 0 || !is_ascii_digit_char(s[0]) {
        Seq::empty()
    } else {
        seq![s[0]] + take_digits(s.skip(1))
    }
}

/// A fractional-second run padded with zeros or truncated to six digits.
pub open spec fn pad6(frac: Seq<char>) -> Seq<char> {
    if frac.len() < 6 {
        frac + repeat_char('0', (6 - frac.len()) as nat)
    } else {
        frac.take(6)
    }
}

/// What `normalize_time` returns: the text up to and including the first
/// `.`, then the digit run after it padded or truncated to six digits;
/// anything after those digits is dropped. Without a `.` the text is kept.
pub open spec fn spec_normalize_time(s: Seq<char>) -> Seq<char> {
    match find_char_from(s, '.', 0) {
        None => s,
        Some(i) => s.take(i + 1) + pad6(take_digits(s.skip(i + 1))),
    }
}

fn normalize_time_chars(v: &Vec<char>) -> (r: Vec<char>)
    ensures
        r@ == spec_normalize_time(v@),
{
    match find_char(v, '.', 0) {
        None => {
            let mut out: Vec<char> = Vec::new();
            let mut k: usize = 0;
            while k < v.len()
                invariant
                    k <= v@.len(),
                    out@ == v@.subrange(0, k as int),
                decreases v@.len() - k,
            {
                out.push(v[k]);
                proof {
                    assert(out@ =~= v@.subrange(0, k + 1));
                }
                k = k + 1;
            }
            proof {
                assert(out@ =~= v@);
            }
            out
        },
        Some(i) => {
            let n = v.len();
            proof {
                assert(i < n);
            }
            let mut out: Vec<char> = Vec::new();
            let mut k: usize = 0;
            while k < i + 1
                invariant
                    n == v@.len(),
                    i < n,
                    k <= i + 1,
                    out@ == v@.subrange(0, k as int),
                decreases i + 1 - k,
            {
                out.push(v[k]);
                proof {
                    assert(out@ =~= v@.subrange(0, k + 1));
                }
                k = k + 1;
            }
            let mut frac: Vec<char> = Vec::new();
            let mut j: usize = i + 1;
            proof {
                assert(take_digits(v@.skip(i + 1)) =~= frac@ + take_digits(v@.skip(i + 1)));
            }
            while j < v.len() && is_ascii_digit(v[j])
                invariant
                    i + 1 <= j <= v@.len(),
                    take_digits(v@.skip(i as int + 1)) == frac@ + take_digits(v@.skip(j as int)),
                decreases v@.len() - j,
            {
                proof {
                    assert(v@.skip(j as int)[0] == v@[j as int]);
                    assert(v@.skip(j as int).skip(1) =~= v@.skip(j as int + 1));
                }
                frac.push(v[j]);
                j = j + 1;
            }
            proof {
                if j < v@.len() {
                    assert(v@.skip(j as int)[0] == v@[j as int]);
                }
                assert(take_digits(v@.skip(j as int)) =~= Seq::<char>::empty());
                assert(frac@ =~= take_digits(v@.skip(i as int + 1)));
            }
            if frac.len() < 6 {
                let ghost pre = frac@;
                let mut z: usize = frac.len();
                while z < 6
                    invariant
                        pre.len() < 6,
                        pre.len() <= z <= 6,
                        frac@ == pre + repeat_char('0', (z - pre.len()) as nat),
                    decreases 6 - z,
                {
                    frac.push('0');
                    proof {
                        assert(frac@ =~= pre + repeat_char('0', (z + 1 - pre.len()) as nat));
                    }
                    z = z + 1;
                }
                proof {
                    assert(frac@ =~= pad6(pre));
                }
            } else {
                let ghost pre = frac@;
                frac.truncate(6);
                proof {
                    assert(frac@ =~= pad6(pre));
                }
            }
            let mut res = out;
            let ghost head = res@;
            let mut k2: usize = 0;
            while k2 < frac.len()
                invariant
                    k2 <= frac@.len(),
                    res@ == head + frac@.subrange(0, k2 as int),
                decreases frac@.len() - k2,
            {
                res.push(frac[k2]);
                proof {
                    assert(res@ =~= head + frac@.subrange(0, k2 + 1));
                }
                k2 = k2 + 1;
            }
            proof {
                assert(frac@.subrange(0, frac@.len() as int) =~= frac@);
                assert(res@ =~= v@.take(i + 1) + pad6(take_digits(v@.skip(i + 1))));
            }
            res
        },
    }
}

/// Pads or truncates the fractional-second component after the first `.` to
/// exactly six digits; text without a `.` is returned unchanged.
pub fn normalize_time(value: &str) -> (r: String)
    ensures
        r@ == spec_normalize_time(value@),
{
    let v = to_char_vec(value);
    let out = normalize_time_chars(&v);
    chars_to_string(&out)
}

/// Index of the first `+` or `-` at or after `from`.
pub open spec fn find_sign_from(s: Seq<char>, from: int) -> Option<int>
    decreases s.len() - from,
{
    if from >= s.len() {
        None
    } else if s[from] == '+' || s[from] == '-' {
        Some(from)
    } else {
        find_sign_from(s, from + 1)
    }
}

/// What `normalize_datetime` returns: every space becomes `T`; a trailing
/// `Z` becomes `+00:00`; the fractional-second run between the first `.` and
/// the following `+`/`-` (or the end) is normalized as in `normalize_time`.
pub open spec fn spec_normalize_datetime(s: Seq<char>) -> Seq<char> {
    let t = Seq::new(
        s.len(),
        |i: int|
            if s[i] == ' ' {
                'T'
            } else {
                s[i]
            },
    );
    let z = if t.len() > 0 && t[t.len() - 1] == 'Z' {
        t.take(t.len() - 1) + seq!['+', '0', '0', ':', '0', '0']
    } else {
        t
    };
    match find_char_from(z, '.', 0) {
        None => z,
        Some(i) => {
            let tz = match find_sign_from(z, i) {
                Some(k) => k,
                None => z.len() as int,
            };
            z.take(i) + spec_normalize_time(z.subrange(i, tz)) + z.skip(tz)
        },
    }
}

fn find_sign(v: &Vec<char>, from: usize) -> (r: Option<usize>)
    ensures
        r matches Some(i) ==> from <= i < v@.len() && find_sign_from(v@, from as int) == Some(
            i as int,
        ),
        r is None ==> find_sign_from(v@, from as int) is None,
{
    let mut i: usize = from;
    while i < v.len()
        invariant
            from <= i,
            find_sign_from(v@, from as int) == find_sign_from(v@, i as int),
        decreases v@.len() - i,
    {
        if v[i] == '+' || v[i] == '-' {
            return Some(i);
        }
        i = i + 1;
    }
    None
}

pub fn push_subrange(out: &mut Vec<char>, v: &Vec<char>, from: usize, to: usize)
    requires
        from <= to <= v@.len(),
    ensures
        final(out)@ == old(out)@ + v@.subrange(from as int, to as int),
{
    let ghost head = out@;
    let mut k: usize = from;
    while k < to
        invariant
            from <= k <= to <= v@.len(),
            out@ == head + v@.subrange(from as int, k as int),
        decreases to - k,
    {
        out.push(v[k]);
        proof {
            assert(out@ =~= head + v@.subrange(from as int, k + 1));
        }
        k = k + 1;
    }
}

/// Rewrites a datetime literal: spaces become `T`, a trailing `Z` becomes
/// `+00:00`, and the fractional seconds are padded or truncated to six
/// digits, leaving a timezone suffix untouched.
pub fn normalize_datetime(value: &str) -> (r: String)
    ensures
        r@ == spec_normalize_datetime(value@),
{
    let s = to_char_vec(value);
    let mut t: Vec<char> = Vec::new();
    let mut i: usize = 0;
    let ghost mapped = Seq::new(
        s@.len(),
        |k: int|
            if s@[k] == ' ' {
                'T'
            } else {
                s@[k]
            },
    );
    while i < s.len()
        invariant
            i <= s@.len(),
            mapped == Seq::new(
                s@.len(),
                |k: int|
                    if s@[k] == ' ' {
                        'T'
                    } else {
                        s@[k]
                    },
            ),
            t@ == mapped.subrange(0, i as int),
        decreases s@.len() - i,
    {
        let c = s[i];
        if c == ' ' {
            t.push('T');
        } else {
            t.push(c);
        }
        proof {
            assert(t@ =~= mapped.subrange(0, i + 1));
        }
        i = i + 1;
    }
    proof {
        assert(t@ =~= mapped);
    }
    let mut z: Vec<char> = t;
    if z.len() > 0 && z[z.len() - 1] == 'Z' {
        let ghost pre = z@;
        z.truncate(z.len() - 1);
        z.push('+');
        z.push('0');
        z.push('0');
        z.push(':');
        z.push('0');
        z.push('0');
        proof {
            assert(z@ =~= pre.take(pre.len() - 1) + seq!['+', '0', '0', ':', '0', '0']);
        }
    }
    match find_char(&z, '.', 0) {
        None => chars_to_string(&z),
        Some(idx) => {
            let tz: usize = match find_sign(&z, idx) {
                Some(k) => k,
                None => z.len(),
            };
            let mut mid: Vec<char> = Vec::new();
            push_subrange(&mut mid, &z, idx, tz);
            proof {
                assert(Seq::<char>::empty() + z@.subrange(idx as int, tz as int) =~= z@.subrange(
                    idx as int,
                    tz as int,
                ));
            }
            let frac = normalize_time_chars(&mid);
            let mut out: Vec<char> = Vec::new();
            push_subrange(&mut out, &z, 0, idx);
            let mut k: usize = 0;
            let ghost head = out@;
            while k < frac.len()
                invariant
                    k <= frac@.len(),
                    out@ == head + frac@.subrange(0, k as int),
                decreases frac@.len() - k,
            {
                out.push(frac[k]);
                proof {
                    assert(out@ =~= head + frac@.subrange(0, k + 1));
                }
                k = k + 1;
            }
            push_subrange(&mut out, &z, tz, z.len());
            proof {
                assert(frac@.subrange(0, frac@.len() as int) =~= frac@);
                assert(Seq::<char>::empty() + z@.subrange(0, idx as int) =~= z@.take(idx as int));
                assert(z@.subrange(tz as int, z@.len() as int) =~= z@.skip(tz as int));
                assert(out@ =~= z@.take(idx as int) + spec_normalize_time(
                    z@.subrange(idx as int, tz as int),
                ) + z@.skip(tz as int));
            }
            chars_to_string(&out)
        },
    }
}

// ---------------------------------------------------------------------------
// Escape processing
// ---------------------------------------------------------------------------
pub open spec fn opt_cons(c: char, o: Option<Seq<char>>) -> Option<Seq<char>> {
    match o {
        None => None,
        Some(t) => Some(seq![c] + t),
    }
}

pub open spec fn opt_cons2(a: char, b: char, o: Option<Seq<char>>) -> Option<Seq<char>> {
    match o {
        None => None,
        Some(t) => Some(seq![a, b] + t),
    }
}

pub open spec fn opt_prepend(p: Seq<char>, o: Option<Seq<char>>) -> Option<Seq<char>> {
    match o {
        None => None,
        Some(t) => Some(p + t),
    }
}

/// The single-character escapes: `\n \t \r \b \f \" \\`.
pub open spec fn simple_escape(e: char) -> Option<char> {
    if e == 'n' {
        Some('\n')
    } else if e == 't' {
        Some('\t')
    } else if e == 'r' {
        Some('\r')
    } else if e == 'b' {
        Some('\u{8}')
    } else if e == 'f' {
        Some('\u{c}')
    } else if e == '"' {
        Some('"')
    } else if e == '\\' {
        Some('\\')
    } else {
        None
    }
}

fn simple_escape_exec(e: char) -> (r: Option<char>)
    ensures
        r == simple_escape(e),
{
    if e == 'n' {
        Some('\n')
    } else if e == 't' {
        Some('\t')
    } else if e == 'r' {
        Some('\r')
    } else if e == 'b' {
        Some('\u{8}')
    } else if e == 'f' {
        Some('\u{c}')
    } else if e == '"' {
        Some('"')
    } else if e == '\\' {
        Some('\\')
    } else {
        None
    }
}

/// The character of a Unicode scalar value; `None` for surrogates and
/// values above `0x10FFFF`.
pub open spec fn spec_scalar_char(v: int) -> Option<char> {
    if (0 <= v && v < 0xD800) || (0xE000 <= v && v <= 0x10FFFF) {
        Some((v as u32) as char)
    } else {
        None
    }
}

/// What escape processing produces: each `\`-sequence replaced by its
/// character, `\uXXXX`/`\UXXXXXXXX` decoded from hex (`None` on a short or
/// malformed run, or a value that is no Unicode scalar), an unknown escape
/// kept as backslash plus character, and a trailing backslash kept.
pub open spec fn spec_unescape(s: Seq<char>) -> Option<Seq<char>>
    decreases s.len(),
{
    if s.len() == 0 {
        Some(Seq::empty())
    } else if s[0] != '\\' {
        opt_cons(s[0], spec_unescape(s.skip(1)))
    } else if s.len() == 1 {
        Some(seq!['\\'])
    } else {
        let e = s[1];
        if simple_escape(e) is Some {
            opt_cons(simple_escape(e).unwrap(), spec_unescape(s.skip(2)))
        } else if e == 'u' {
            if s.len() < 6 {
                None
            } else {
                match digits_val(s.subrange(2, 6), 16) {
                    None => None,
                    Some(v) => match spec_scalar_char(v) {
                        None => None,
                        Some(c) => opt_cons(c, spec_unescape(s.skip(6))),
                    },
                }
            }
        } else if e == 'U' {
            if s.len() < 10 {
                None
            } else {
                match digits_val(s.subrange(2, 10), 16) {
                    None => None,
                    Some(v) => match spec_scalar_char(v) {
                        None => None,
                        Some(c) => opt_cons(c, spec_unescape(s.skip(10))),
                    },
                }
            }
        } else {
            opt_cons2('\\', e, spec_unescape(s.skip(2)))
        }
    }
}

pub open spec fn pow16(k: nat) -> nat
    decreases k,
{
    if k == 0 {
        1
    } else {
        16 * pow16((k - 1) as nat)
    }
}

fn hex_val(s: &Vec<char>, start: usize, count: usize) -> (r: Option<u64>)
    requires
        start + count <= s@.len(),
        1 <= count <= 8,
    ensures
        r matches Some(v) ==> digits_val(s@.subrange(start as int, start as int + count as int), 16)
            == Some(v as int) && v < 0x110000000,
        r is None ==> digits_val(s@.subrange(start as int, start as int + count as int), 16)
            is None,
{
    let ghost sub = s@.subrange(start as int, start as int + count as int);
    let n = s.len();
    let mut acc: u64 = 0;
    let mut k: usize = 0;
    proof {
        assert(pow16(8) == 0x100000000) by {
            reveal_with_fuel(pow16, 9);
        }
        lemma_pow16_mono(count as nat, 8);
        assert(sub.skip(0) =~= sub);
    }
    while k < count
        invariant
            n == s@.len(),
            start + count <= s@.len(),
            1 <= count <= 8,
            k <= count,
            sub == s@.subrange(start as int, start as int + count as int),
            acc < pow16(k as nat),
            pow16(count as nat) <= pow16(8),
            pow16(8) == 0x100000000,
            digits_val_acc(sub, 16, 0) == digits_val_acc(sub.skip(k as int), 16, acc as int),
        decreases count - k,
    {
        proof {
            assert(sub.skip(k as int)[0] == sub[k as int]);
            assert(sub[k as int] == s@[start + k]);
            assert(sub.skip(k as int).skip(1) =~= sub.skip(k as int + 1));
            lemma_pow16_mono(k as nat + 1, count as nat);
        }
        match digit_val(s[start + k], 16) {
            None => {
                proof {
                    assert(digits_val_acc(sub, 16, 0) is None);
                }
                return None;
            },
            Some(d) => {
                proof {
                    assert(acc * 16 + d < pow16(k as nat + 1)) by {
                        assert(acc * 16 <= (pow16(k as nat) - 1) * 16) by (nonlinear_arith)
                            requires
                                acc < pow16(k as nat),
                        ;
                    }
                    assert(pow16(k as nat + 1) <= pow16(8));
                }
                acc = acc * 16 + (d as u64);
            },
        }
        k = k + 1;
    }
    proof {
        assert(sub.skip(count as int).len() == 0);
        assert(digits_val(sub, 16) == Some(acc as int));
    }
    Some(acc)
}

proof fn lemma_pow16_mono(a: nat, b: nat)
    requires
        a <= b,
    ensures
        pow16(a) <= pow16(b),
    decreases b,
{
    if a < b {
        lemma_pow16_mono(a, (b - 1) as nat);
        assert(pow16(b) == 16 * pow16((b - 1) as nat));
        assert(pow16((b - 1) as nat) >= 1) by {
            lemma_pow16_pos((b - 1) as nat);
        }
    }
}

proof fn lemma_pow16_pos(k: nat)
    ensures
        pow16(k) >= 1,
    decreases k,
{
    if k > 0 {
        lemma_pow16_pos((k - 1) as nat);
    }
}

/// Processes the escape sequences of a basic (double-quoted) string:
/// `\n \t \r \b \f \" \\`, `\uXXXX` and `\UXXXXXXXX`. A short or malformed
/// hex run, or a code that is no Unicode scalar value, is a parse error; an
/// unknown escape is kept verbatim, as is a trailing backslash.
pub fn unescape_basic_string(value: &str) -> (r: Result<String, TycoError>)
    ensures
        r matches Ok(o) ==> spec_unescape(value@) == Some(o@),
        r is Err <==> spec_unescape(value@) is None,
        r matches Err(e) ==> e is Parse,
{
    let s = to_char_vec(value);
    let n = s.len();
    let mut out: Vec<char> = Vec::new();
    let mut i: usize = 0;
    proof {
        assert(s@.skip(0) =~= s@);
        assert(opt_prepend(out@, spec_unescape(s@)) == spec_unescape(s@) || spec_unescape(s@)
            is None) by {
            match spec_unescape(s@) {
                Some(t) => {
                    assert(out@ + t =~= t);
                },
                None => {},
            }
        }
    }
    while i < n
        invariant
            n == s@.len(),
            s@ == value@,
            i <= n,
            opt_prepend(out@, spec_unescape(s@.skip(i as int))) == spec_unescape(s@),
        decreases n - i,
    {
        let ghost suffix = s@.skip(i as int);
        let ghost pre = out@;
        proof {
            assert(suffix[0] == s@[i as int]);
            assert(suffix.skip(1) =~= s@.skip(i as int + 1));
        }
        let c = s[i];
        if c != '\\' {
            out.push(c);
            proof {
                lemma_prepend_step(pre, seq![c], spec_unescape(s@.skip(i as int + 1)));
                assert(pre + seq![c] =~= out@);
            }
            i = i + 1;
        } else if i + 1 >= n {
            out.push('\\');
            proof {
                assert(suffix.len() == 1);
                assert(spec_unescape(suffix) == Some(seq!['\\']));
                assert(out@ =~= pre + seq!['\\']);
                assert(s@.skip(i as int + 1).len() == 0);
                lemma_prepend_step(pre, seq!['\\'], spec_unescape(s@.skip(i as int + 1)));
            }
            i = i + 1;
        } else {
            let e = s[i + 1];
            proof {
                assert(suffix[1] == s@[i as int + 1]);
                assert(suffix.skip(2) =~= s@.skip(i as int + 2));
            }
            match simple_escape_exec(e) {
                Some(m) => {
                    out.push(m);
                    proof {
                        lemma_prepend_step(pre, seq![m], spec_unescape(s@.skip(i as int + 2)));
                        assert(pre + seq![m] =~= out@);
                    }
                    i = i + 2;
                },
                None => {
                    if e == 'u' || e == 'U' {
                        let count: usize = if e == 'u' {
                            4
                        } else {
                            8
                        };
                        if n - i < count + 2 {
                            proof {
                                assert(suffix.len() < count + 2);
                                assert(spec_unescape(suffix) is None);
                                assert(spec_unescape(s@) is None);
                            }
                            let mut msg = String::new();
                            msg.append("Incomplete unicode escape");
                            return Err(TycoError::parse(msg));
                        }
                        proof {
                            assert(suffix.subrange(2, 2 + count as int) =~= s@.subrange(
                                i as int + 2,
                                i as int + 2 + count as int,
                            ));
                        }
                        match hex_val(&s, i + 2, count) {
                            None => {
                                proof {
                                    assert(spec_unescape(suffix) is None);
                                    assert(spec_unescape(s@) is None);
                                }
                                let mut msg = String::new();
                                msg.append("Invalid unicode escape");
                                return Err(TycoError::parse(msg));
                            },
                            Some(v) => {
                                if v < 0x110000000 && v <= u32::MAX as u64 {
                                    let v32: u32 = v as u32;
                                    match char::from_u32(v32) {
                                        Some(ch) => {
                                            proof {
                                                vstd::utf8::char_u32_cast(ch, v32);
                                                assert(spec_scalar_char(v as int) == Some(ch));
                                            }
                                            out.push(ch);
                                            proof {
                                                assert(suffix.skip(2 + count as int) =~= s@.skip(
                                                    i as int + 2 + count as int,
                                                ));
                                                lemma_prepend_step(
                                                    pre,
                                                    seq![ch],
                                                    spec_unescape(
                                                        s@.skip(i as int + 2 + count as int),
                                                    ),
                                                );
                                                assert(pre + seq![ch] =~= out@);
                                            }
                                            i = i + 2 + count;
                                        },
                                        None => {
                                            proof {
                                                assert(spec_scalar_char(v as int) is None);
                                                assert(spec_unescape(suffix) is None);
                                                assert(spec_unescape(s@) is None);
                                            }
                                            let mut msg = String::new();
                                            msg.append("Invalid unicode codepoint");
                                            return Err(TycoError::parse(msg));
                                        },
                                    }
                                } else {
                                    proof {
                                        assert(spec_scalar_char(v as int) is None);
                                        assert(spec_unescape(suffix) is None);
                                        assert(spec_unescape(s@) is None);
                                    }
                                    let mut msg = String::new();
                                    msg.append("Invalid unicode codepoint");
                                    return Err(TycoError::parse(msg));
                                }
                            },
                        }
                    } else {
                        out.push('\\');
                        out.push(e);
                        proof {
                            lemma_prepend_step(
                                pre,
                                seq!['\\', e],
                                spec_unescape(s@.skip(i as int + 2)),
                            );
                            assert(pre + seq!['\\', e] =~= out@);
                        }
                        i = i + 2;
                    }
                },
            }
        }
    }
    proof {
        assert(s@.skip(n as int).len() == 0);
        assert(spec_unescape(s@.skip(n as int)) == Some(Seq::<char>::empty()));
        assert(out@ + Seq::<char>::empty() =~= out@);
    }
    Ok(chars_to_string(&out))
}

/// Splicing one decoded piece onto the front commutes with `opt_prepend`.
proof fn lemma_prepend_step(pre: Seq<char>, piece: Seq<char>, rest: Option<Seq<char>>)
    ensures
        opt_prepend(pre + piece, rest) == opt_prepend(pre, opt_prepend(piece, rest)),
{
    match rest {
        None => {},
        Some(t) => {
            assert((pre + piece) + t =~= pre + (piece + t));
        },
    }
}

// ---------------------------------------------------------------------------
// Leading newline stripping
// ---------------------------------------------------------------------------
/// What `strip_leading_newline` returns: the text behind one leading `\n`,
/// or the text itself.
pub open spec fn spec_strip_leading_newline(s: Seq<char>) -> Seq<char> {
    if s.len() > 0 && s[0] == '\n' {
        s.skip(1)
    } else {
        s
    }
}

/// Removes a single leading newline, as the opening of a triple-quoted
/// literal asks.
pub fn strip_leading_newline(value: &str) -> (r: String)
    ensures
        r@ == spec_strip_leading_newline(value@),
{
    let v = to_char_vec(value);
    if v.len() > 0 && v[0] == '\n' {
        let mut out: Vec<char> = Vec::new();
        push_subrange(&mut out, &v, 1, v.len());
        proof {
            assert(Seq::<char>::empty() + v@.subrange(1, v@.len() as int) =~= v@.skip(1));
        }
        chars_to_string(&out)
    } else {
        let mut out: Vec<char> = Vec::new();
        push_subrange(&mut out, &v, 0, v.len());
        proof {
            assert(Seq::<char>::empty() + v@.subrange(0, v@.len() as int) =~= v@);
        }
        chars_to_string(&out)
    }
}

// ---------------------------------------------------------------------------
// Float literals
// ---------------------------------------------------------------------------
/// Canonical text of a decimal number literal, or `None` where the text is
/// no such literal; the result depends on the characters alone.
pub uninterp spec fn float_normal_text(s: Seq<char>) -> Option<Seq<char>>;

/// Relies on `serde_json::Number`'s `FromStr` and `Display`: parses a decimal
/// number literal and renders it canonically. Both are deterministic
/// functions of the text.
#[verifier::external_body]
pub fn float_text(s: &str) -> (r: Option<String>)
    ensures
        r is Some <==> float_normal_text(s@) is Some,
        r matches Some(t) ==> float_normal_text(s@) == Some(t@),
{
    s.parse::<serde_json::Number>().ok().map(|n| n.to_string())
}

} // verus!
