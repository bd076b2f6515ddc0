//! Character-sequence helpers shared by the parsers: searching, trimming,
//! splitting, case folding, and reading and writing unsigned numbers.
//!
//! Every helper is specified over `Seq<char>`, the view of `str`, `String`
//! and `Vec<char>`.
use vstd::prelude::*;
use vstd::utf8::{valid_utf8, decode_utf8};

verus! {

// ---------------------------------------------------------------------------
// std calls without a vstd specification
// ---------------------------------------------------------------------------

/// What `String::from_utf8_lossy` makes of a byte sequence.
pub uninterp spec fn lossy_utf8_text(bytes: Seq<u8>) -> Seq<char>;

/// Calls `String::from_utf8_lossy` and takes ownership of the result.
/// Trusted: the result is `lossy_utf8_text` of the bytes, and, as std
/// documents, a sequence that is valid UTF-8 is decoded unchanged. What
/// replaces invalid sequences is left to the name.
#[verifier::external_body]
pub(crate) fn utf8_lossy(bytes: &[u8]) -> (s: String)
    ensures
        s@ == lossy_utf8_text(bytes@),
        valid_utf8(bytes@) ==> s@ == decode_utf8(bytes@),
{
    String::from_utf8_lossy(bytes).into_owned()
}

/// Calls `String::push`. Trusted: the character is appended at the end.
#[verifier::external_body]
pub(crate) fn push_char(s: &mut String, c: char)
    ensures
        final(s)@ == old(s)@.push(c),
{
    s.push(c)
}

// ---------------------------------------------------------------------------
// Conversions between strings and character vectors
// ---------------------------------------------------------------------------

/// The characters of `s`, in order.
pub fn chars_of(s: &str) -> (out: Vec<char>)
    ensures
        out@ == s@,
{
    let mut out: Vec<char> = Vec::new();
    for c in it: s.chars()
        invariant
            out@ == it.seq().take(it.index() as int),
            it.seq() == s@,
    {
        out.push(c);
    }
    out
}

/// Appends the characters of `cs` to `s`.
pub fn push_chars(s: &mut String, cs: &Vec<char>)
    ensures
        final(s)@ == old(s)@ + cs@,
{
    let mut i: usize = 0;
    while i < cs.len()
        invariant
            i <= cs.len(),
            s@ == old(s)@ + cs@.take(i as int),
        decreases cs.len() - i,
    {
        push_char(s, cs[i]);
        i += 1;
        assert(cs@.take(i as int) == cs@.take(i - 1).push(cs@[i - 1]));
    }
    assert(cs@.take(cs.len() as int) == cs@);
}

/// A string holding exactly the characters of `cs`.
pub fn string_of(cs: &Vec<char>) -> (s: String)
    ensures
        s@ == cs@,
{
    let mut s = String::new();
    push_chars(&mut s, cs);
    s
}

/// The characters of `s` from index `a` up to, not including, `b`.
pub fn slice_chars(s: &Vec<char>, a: usize, b: usize) -> (out: Vec<char>)
    requires
        a <= b <= s.len(),
    ensures
        out@ == s@.subrange(a as int, b as int),
{
    let mut out: Vec<char> = Vec::new();
    let mut i: usize = a;
    while i < b
        invariant
            a <= i <= b,
            b <= s.len(),
            out@ == s@.subrange(a as int, i as int),
        decreases b - i,
    {
        out.push(s[i]);
        i += 1;
        assert(s@.subrange(a as int, i as int) == s@.subrange(a as int, i - 1).push(s@[i - 1]));
    }
    out
}

// ---------------------------------------------------------------------------
// Searching
// ---------------------------------------------------------------------------

/// `pat` occurs in `s` starting at index `i`.
pub open spec fn occurs_at(s: Seq<char>, pat: Seq<char>, i: int) -> bool {
    0 <= i && i + pat.len() <= s.len() && s.subrange(i, i + pat.len()) == pat
}

/// The first index at or after `start` where `pat` occurs in `s`.
pub open spec fn find_from(s: Seq<char>, pat: Seq<char>, start: int) -> Option<int>
    decreases s.len() + 1 - start,
{
    if start < 0 || start + pat.len() > s.len() {
        None
    } else if occurs_at(s, pat, start) {
        Some(start)
    } else {
        find_from(s, pat, start + 1)
    }
}

/// The first index where `pat` occurs in `s`, as `str::find` gives it.
pub open spec fn find(s: Seq<char>, pat: Seq<char>) -> Option<int> {
    find_from(s, pat, 0)
}

/// What `find_from` gives: the least matching index at or after `start`,
/// or no match at all at or after `start`.
pub proof fn lemma_find_from(s: Seq<char>, pat: Seq<char>, start: int)
    requires
        start >= 0,
    ensures
        match find_from(s, pat, start) {
            Some(i) => start <= i && occurs_at(s, pat, i) && i + pat.len() <= s.len()
                && forall|j: int| start <= j < i ==> !occurs_at(s, pat, j),
            None => forall|j: int| start <= j ==> !occurs_at(s, pat, j),
        },
    decreases s.len() + 1 - start,
{
    if start + pat.len() > s.len() {
    } else if occurs_at(s, pat, start) {
    } else {
        lemma_find_from(s, pat, start + 1);
    }
}

/// Whether `pat` occurs in `s` at index `i`.
pub fn matches_at(s: &Vec<char>, pat: &Vec<char>, i: usize) -> (b: bool)
    ensures
        b == occurs_at(s@, pat@, i as int),
{
    if i > s.len() || pat.len() > s.len() - i {
        return false;
    }
    let mut k: usize = 0;
    while k < pat.len()
        invariant
            i + pat.len() <= s.len(),
            k <= pat.len(),
            forall|m: int| 0 <= m < k ==> s@[i + m] == pat@[m],
        decreases pat.len() - k,
    {
        if s[i + k] != pat[k] {
            assert(s@.subrange(i as int, i + pat.len())[k as int] != pat@[k as int]);
            return false;
        }
        k += 1;
    }
    assert(s@.subrange(i as int, i + pat.len()) =~= pat@);
    true
}

/// The first index at or after `start` where `pat` occurs in `s`.
pub fn find_chars_from(s: &Vec<char>, pat: &Vec<char>, start: usize) -> (r: Option<usize>)
    ensures
        match r {
            Some(i) => find_from(s@, pat@, start as int) == Some(i as int),
            None => find_from(s@, pat@, start as int) is None,
        },
{
    if pat.len() > s.len() || start > s.len() - pat.len() {
        return None;
    }
    let last = s.len() - pat.len();
    let mut i: usize = start;
    while i <= last
        invariant
            start <= i <= last + 1,
            last + pat.len() == s.len(),
            find_from(s@, pat@, start as int) == find_from(s@, pat@, i as int),
        decreases last + 1 - i,
    {
        if matches_at(s, pat, i) {
            return Some(i);
        }
        if i == last {
            assert(find_from(s@, pat@, i + 1) == None::<int>);
            return None;
        }
        i += 1;
    }
    None
}

/// The first index where `pat` occurs in `s`.
pub fn find_chars(s: &Vec<char>, pat: &Vec<char>) -> (r: Option<usize>)
    ensures
        match r {
            Some(i) => find(s@, pat@) == Some(i as int),
            None => find(s@, pat@) is None,
        },
{
    find_chars_from(s, pat, 0)
}

/// `pat` occurs somewhere in `s`, as `str::contains` answers it.
pub open spec fn contains_seq(s: Seq<char>, pat: Seq<char>) -> bool {
    exists|i: int| occurs_at(s, pat, i)
}

/// Whether `pat` occurs somewhere in `s`.
pub fn contains_chars(s: &Vec<char>, pat: &Vec<char>) -> (b: bool)
    ensures
        b == contains_seq(s@, pat@),
{
    proof {
        lemma_find_from(s@, pat@, 0);
    }
    match find_chars(s, pat) {
        Some(_) => true,
        None => false,
    }
}

// ---------------------------------------------------------------------------
// Trimming
// ---------------------------------------------------------------------------

/// A class of characters that trimming removes.
pub enum CharClass {
    /// The characters for which `char::is_whitespace` holds.
    Whitespace,
    /// The underscore.
    Underscore,
}

/// The characters with the Unicode `White_Space` property, which are the
/// ones `char::is_whitespace` accepts.
pub open spec fn is_whitespace_code(u: u32) -> bool {
    (0x09 <= u <= 0x0D) || u == 0x20 || u == 0x85 || u == 0xA0 || u == 0x1680
        || (0x2000 <= u <= 0x200A) || u == 0x2028 || u == 0x2029 || u == 0x202F
        || u == 0x205F || u == 0x3000
}

pub open spec fn in_class(cls: CharClass, c: char) -> bool {
    match cls {
        CharClass::Whitespace => is_whitespace_code(c as u32),
        CharClass::Underscore => c == '_',
    }
}

/// Whether `c` belongs to `cls`.
pub fn char_in_class(cls: &CharClass, c: char) -> (b: bool)
    ensures
        b == in_class(*cls, c),
{
    match cls {
        CharClass::Whitespace => {
            let u = c as u32;
            (0x09 <= u && u <= 0x0D) || u == 0x20 || u == 0x85 || u == 0xA0 || u == 0x1680
                || (0x2000 <= u && u <= 0x200A) || u == 0x2028 || u == 0x2029 || u == 0x202F
                || u == 0x205F || u == 0x3000
        },
        CharClass::Underscore => c == '_',
    }
}

/// The index of the first character at or after `i` outside `cls`.
pub open spec fn skip_class(s: Seq<char>, cls: CharClass, i: int) -> int
    decreases s.len() - i,
{
    if 0 <= i < s.len() && in_class(cls, s[i]) {
        skip_class(s, cls, i + 1)
    } else {
        i
    }
}

/// The end of `s` once the characters of `cls` before `j` and after `lo`
/// are dropped from the back.
pub open spec fn skip_class_back(s: Seq<char>, cls: CharClass, lo: int, j: int) -> int
    decreases j - lo,
{
    if lo < j && j <= s.len() && in_class(cls, s[j - 1]) {
        skip_class_back(s, cls, lo, j - 1)
    } else {
        j
    }
}

/// `s` without the characters of `cls` at either end, as `str::trim` and
/// `str::trim_matches` give it.
pub open spec fn trim_class(s: Seq<char>, cls: CharClass) -> Seq<char> {
    let a = skip_class(s, cls, 0);
    s.subrange(a, skip_class_back(s, cls, a, s.len() as int))
}

/// `s` without the characters of `cls` at either end.
pub fn trim_chars(s: &Vec<char>, cls: &CharClass) -> (out: Vec<char>)
    ensures
        out@ == trim_class(s@, *cls),
{
    let mut a: usize = 0;
    while a < s.len() && char_in_class(cls, s[a])
        invariant
            a <= s.len(),
            skip_class(s@, *cls, 0) == skip_class(s@, *cls, a as int),
        decreases s.len() - a,
    {
        a += 1;
    }
    let mut b: usize = s.len();
    while a < b && char_in_class(cls, s[b - 1])
        invariant
            a <= b <= s.len(),
            skip_class(s@, *cls, 0) == a,
            skip_class_back(s@, *cls, a as int, s.len() as int) == skip_class_back(
                s@,
                *cls,
                a as int,
                b as int,
            ),
        decreases b - a,
    {
        b -= 1;
    }
    slice_chars(s, a, b)
}

/// `s` with every leading copy of `p` removed, as `str::trim_start_matches`
/// gives it for a string pattern.
pub open spec fn strip_prefixes(s: Seq<char>, p: Seq<char>) -> Seq<char>
    decreases s.len(),
{
    if p.len() > 0 && occurs_at(s, p, 0) {
        strip_prefixes(s.skip(p.len() as int), p)
    } else {
        s
    }
}

/// `s` with every leading copy of `p` removed.
pub fn strip_prefixes_chars(s: &Vec<char>, p: &Vec<char>) -> (out: Vec<char>)
    ensures
        out@ == strip_prefixes(s@, p@),
{
    let mut i: usize = 0;
    assert(s@.skip(0) =~= s@);
    while p.len() > 0 && matches_at(s, p, i)
        invariant
            i <= s.len(),
            strip_prefixes(s@, p@) == strip_prefixes(s@.skip(i as int), p@),
        decreases s.len() - i,
    {
        let ghost rest = s@.skip(i as int);
        assert(rest.subrange(0, p@.len() as int) =~= s@.subrange(i as int, i + p@.len()));
        assert(rest.skip(p@.len() as int) =~= s@.skip(i + p@.len()));
        i += p.len();
    }
    proof {
        let rest = s@.skip(i as int);
        if p@.len() > 0 && occurs_at(rest, p@, 0) {
            assert(rest.subrange(0, p@.len() as int) =~= s@.subrange(i as int, i + p@.len()));
        }
    }
    slice_chars(s, i, s.len())
}

// ---------------------------------------------------------------------------
// Splitting
// ---------------------------------------------------------------------------

/// The pieces of `s` between occurrences of `sep`, scanning from `pos` with
/// the current piece starting at `piece`, as `str::split` yields them.
pub open spec fn split_from(s: Seq<char>, sep: char, pos: int, piece: int) -> Seq<Seq<char>>
    decreases s.len() - pos,
{
    if pos >= s.len() {
        seq![s.subrange(piece, s.len() as int)]
    } else if s[pos] == sep {
        seq![s.subrange(piece, pos)] + split_from(s, sep, pos + 1, pos + 1)
    } else {
        split_from(s, sep, pos + 1, piece)
    }
}

/// The pieces of `s` between occurrences of `sep`; always at least one.
pub open spec fn split_on(s: Seq<char>, sep: char) -> Seq<Seq<char>> {
    split_from(s, sep, 0, 0)
}

/// The views of a sequence of character vectors.
pub open spec fn views_of(v: Seq<Vec<char>>) -> Seq<Seq<char>> {
    v.map_values(|x: Vec<char>| x@)
}

pub proof fn lemma_views_push(v: Seq<Vec<char>>, x: Vec<char>)
    ensures
        views_of(v.push(x)) == views_of(v).push(x@),
{
    assert(views_of(v.push(x)) =~= views_of(v).push(x@));
}

/// The pieces of `s` between occurrences of `sep`.
pub fn split_chars(s: &Vec<char>, sep: char) -> (pieces: Vec<Vec<char>>)
    ensures
        views_of(pieces@) == split_on(s@, sep),
{
    let mut pieces: Vec<Vec<char>> = Vec::new();
    let mut piece: usize = 0;
    let mut pos: usize = 0;
    while pos < s.len()
        invariant
            piece <= pos <= s.len(),
            split_on(s@, sep) == views_of(pieces@) + split_from(s@, sep, pos as int, piece as int),
        decreases s.len() - pos,
    {
        if s[pos] == sep {
            let p = slice_chars(s, piece, pos);
            let ghost before = pieces@;
            proof {
                lemma_views_push(before, p);
            }
            pieces.push(p);
            assert(views_of(before) + split_from(s@, sep, pos as int, piece as int) =~= views_of(
                pieces@,
            ) + split_from(s@, sep, pos + 1, pos + 1));
            pos += 1;
            piece = pos;
        } else {
            pos += 1;
        }
    }
    let p = slice_chars(s, piece, s.len());
    let ghost before = pieces@;
    proof {
        lemma_views_push(before, p);
    }
    pieces.push(p);
    assert(views_of(before) + split_from(s@, sep, pos as int, piece as int) =~= views_of(
        pieces@,
    ));
    pieces
}

// ---------------------------------------------------------------------------
// Case folding
// ---------------------------------------------------------------------------

/// `c` mapped to lower case if it is an ASCII capital letter.
pub open spec fn ascii_lower(c: char) -> char {
    if 'A' <= c <= 'Z' {
        ((c as u32) + 32) as char
    } else {
        c
    }
}

/// `s` with ASCII capital letters mapped to lower case, as
/// `str::to_ascii_lowercase` gives it.
pub open spec fn ascii_lowercase(s: Seq<char>) -> Seq<char> {
    s.map_values(|c: char| ascii_lower(c))
}

/// `s` with ASCII capital letters mapped to lower case.
pub fn to_ascii_lowercase_chars(s: &Vec<char>) -> (out: Vec<char>)
    ensures
        out@ == ascii_lowercase(s@),
{
    let mut out: Vec<char> = Vec::new();
    let mut i: usize = 0;
    while i < s.len()
        invariant
            i <= s.len(),
            out@ == ascii_lowercase(s@.take(i as int)),
        decreases s.len() - i,
    {
        let c = s[i];
        let lc = if 'A' <= c && c <= 'Z' {
            char_from_ascii((c as u8) + 32)
        } else {
            c
        };
        out.push(lc);
        i += 1;
        assert(ascii_lowercase(s@.take(i as int)) =~= ascii_lowercase(s@.take(i - 1)).push(
            ascii_lower(s@[i - 1]),
        ));
    }
    assert(s@.take(s.len() as int) =~= s@);
    out
}

/// The character with ASCII code `b`.
pub fn char_from_ascii(b: u8) -> (c: char)
    requires
        b < 128,
    ensures
        c as u32 == b as u32,
{
    b as char
}

// ---------------------------------------------------------------------------
// Unsigned numbers
// ---------------------------------------------------------------------------

/// The value of `c` as a digit in base `radix` (10 or 16), as
/// `char::to_digit` gives it.
pub open spec fn digit_value(c: char, radix: nat) -> Option<nat> {
    let u = c as u32;
    if 0x30 <= u <= 0x39 && (u - 0x30) < radix {
        Some((u - 0x30) as nat)
    } else if radix == 16 && 0x61 <= u <= 0x66 {
        Some((u - 0x61 + 10) as nat)
    } else if radix == 16 && 0x41 <= u <= 0x46 {
        Some((u - 0x41 + 10) as nat)
    } else {
        None
    }
}

/// The value of the digits `s` in base `radix`; `None` if a character is
/// not a digit. The empty sequence has value 0.
pub open spec fn digits_value(s: Seq<char>, radix: nat) -> Option<nat>
    decreases s.len(),
{
    if s.len() == 0 {
        Some(0)
    } else {
        match (digits_value(s.drop_last(), radix), digit_value(s.last(), radix)) {
            (Some(v), Some(d)) => Some(v * radix + d),
            _ => None,
        }
    }
}

/// The number that `from_str_radix` reads from `s` when no bound applies: an
/// optional leading `+`, then at least one digit.
pub open spec fn unsigned_value(s: Seq<char>, radix: nat) -> Option<nat> {
    let body = if s.len() > 0 && s[0] == '+' {
        s.drop_first()
    } else {
        s
    };
    if body.len() == 0 {
        None
    } else {
        digits_value(body, radix)
    }
}

/// What `u64::from_str_radix(s, radix).ok()` gives.
pub open spec fn parse_u64_spec(s: Seq<char>, radix: nat) -> Option<u64> {
    match unsigned_value(s, radix) {
        Some(v) => if v <= u64::MAX {
            Some(v as u64)
        } else {
            None
        },
        None => None,
    }
}

/// What `u32::from_str_radix(s, radix).ok()` gives.
pub open spec fn parse_u32_spec(s: Seq<char>, radix: nat) -> Option<u32> {
    match unsigned_value(s, radix) {
        Some(v) => if v <= u32::MAX {
            Some(v as u32)
        } else {
            None
        },
        None => None,
    }
}

/// A prefix of a digit string has a value no larger than the whole.
pub proof fn lemma_digits_prefix(s: Seq<char>, radix: nat, k: int)
    requires
        0 <= k <= s.len(),
        radix >= 1,
        digits_value(s, radix) is Some,
    ensures
        digits_value(s.take(k), radix) is Some,
        digits_value(s.take(k), radix)->0 <= digits_value(s, radix)->0,
    decreases s.len(),
{
    if k == s.len() {
        assert(s.take(k) =~= s);
    } else {
        let v = digits_value(s.drop_last(), radix)->0;
        let d = digit_value(s.last(), radix)->0;
        lemma_digits_prefix(s.drop_last(), radix, k);
        assert(s.drop_last().take(k) =~= s.take(k));
        assert(v * radix >= v) by (nonlinear_arith)
            requires
                radix >= 1,
        ;
    }
}

/// The value of the digits `s` in base `radix`, if every character is a
/// digit and the value fits in a `u64`.
pub fn digits_to_u64(s: &Vec<char>, start: usize, radix: u64) -> (r: Option<u64>)
    requires
        start <= s.len(),
        radix == 10 || radix == 16,
    ensures
        r == (match digits_value(s@.skip(start as int), radix as nat) {
            Some(v) => if v <= u64::MAX {
                Some(v as u64)
            } else {
                None::<u64>
            },
            None => None::<u64>,
        }),
{
    let ghost body = s@.skip(start as int);
    let mut acc: u64 = 0;
    let mut i: usize = start;
    assert(body.take(0) =~= Seq::<char>::empty());
    while i < s.len()
        invariant
            start <= i <= s.len(),
            body == s@.skip(start as int),
            radix == 10 || radix == 16,
            digits_value(body.take(i - start), radix as nat) == Some(acc as nat),
        decreases s.len() - i,
    {
        let c = s[i];
        let u = c as u32;
        let d: u64 = if 0x30 <= u && u <= 0x39 && ((u - 0x30) as u64) < radix {
            (u - 0x30) as u64
        } else if radix == 16 && 0x61 <= u && u <= 0x66 {
            (u - 0x61 + 10) as u64
        } else if radix == 16 && 0x41 <= u && u <= 0x46 {
            (u - 0x41 + 10) as u64
        } else {
            proof {
                assert(body.take(i - start + 1).drop_last() =~= body.take(i - start));
                assert(body.take(i - start + 1).last() == c);
                if digits_value(body, radix as nat) is Some {
                    lemma_digits_prefix(body, radix as nat, i - start + 1);
                }
            }
            return None;
        };
        proof {
            assert(body.take(i - start + 1).drop_last() =~= body.take(i - start));
            assert(body.take(i - start + 1).last() == c);
        }
        let next = match acc.checked_mul(radix) {
            Some(m) => m.checked_add(d),
            None => None,
        };
        match next {
            Some(n) => {
                acc = n;
            },
            None => {
                proof {
                    if digits_value(body, radix as nat) is Some {
                        lemma_digits_prefix(body, radix as nat, i - start + 1);
                    }
                }
                return None;
            },
        }
        i += 1;
    }
    assert(body.take(s.len() - start) =~= body);
    Some(acc)
}

/// What `u64::from_str_radix(s, radix).ok()` gives, for radix 10 or 16.
pub fn parse_u64_chars(s: &Vec<char>, radix: u64) -> (r: Option<u64>)
    requires
        radix == 10 || radix == 16,
    ensures
        r == parse_u64_spec(s@, radix as nat),
{
    let start: usize = if s.len() > 0 && s[0] == '+' {
        1
    } else {
        0
    };
    assert(start == 1 ==> s@.skip(1) =~= s@.drop_first());
    assert(s@.skip(0) =~= s@);
    if start == s.len() {
        return None;
    }
    digits_to_u64(s, start, radix)
}

/// What `u32::from_str_radix(s, radix).ok()` gives, for radix 10 or 16.
pub fn parse_u32_chars(s: &Vec<char>, radix: u64) -> (r: Option<u32>)
    requires
        radix == 10 || radix == 16,
    ensures
        r == parse_u32_spec(s@, radix as nat),
{
    match parse_u64_chars(s, radix) {
        Some(v) => if v <= 0xffff_ffff {
            Some(v as u32)
        } else {
            None
        },
        None => {
            proof {
                let body = if s@.len() > 0 && s@[0] == '+' {
                    s@.drop_first()
                } else {
                    s@
                };
                assert(unsigned_value(s@, radix as nat) is Some ==> unsigned_value(
                    s@,
                    radix as nat,
                )->0 > u64::MAX);
            }
            None
        },
    }
}

/// The lower-case hexadecimal digit for `d`.
pub open spec fn hex_digit(d: nat) -> char {
    if d < 10 {
        ((d + 0x30) as u32) as char
    } else {
        ((d - 10 + 0x61) as u32) as char
    }
}

/// The decimal digit for `d`.
pub open spec fn dec_digit(d: nat) -> char {
    ((d + 0x30) as u32) as char
}

/// `v` in lower-case hexadecimal without leading zeros, as `{:x}` writes it.
pub open spec fn hex_text(v: nat) -> Seq<char>
    decreases v,
{
    if v < 16 {
        seq![hex_digit(v)]
    } else {
        hex_text(v / 16).push(hex_digit(v % 16))
    }
}

/// `v` in decimal without leading zeros, as `{}` writes it.
pub open spec fn dec_text(v: nat) -> Seq<char>
    decreases v,
{
    if v < 10 {
        seq![dec_digit(v)]
    } else {
        dec_text(v / 10).push(dec_digit(v % 10))
    }
}

/// Appends `v` in lower-case hexadecimal to `s`.
pub fn push_hex(s: &mut String, v: u64)
    ensures
        final(s)@ == old(s)@ + hex_text(v as nat),
    decreases v,
{
    if v >= 16 {
        push_hex(s, v / 16);
    }
    let d = (v % 16) as u8;
    let c = if d < 10 {
        char_from_ascii(d + 0x30)
    } else {
        char_from_ascii(d - 10 + 0x61)
    };
    push_char(s, c);
    assert(c == hex_digit((v % 16) as nat));
    if v >= 16 {
        assert(old(s)@ + hex_text(v as nat) =~= old(s)@ + hex_text((v / 16) as nat) + seq![c]);
    } else {
        assert(old(s)@ + hex_text(v as nat) =~= old(s)@.push(c));
    }
}

/// Appends `v` in decimal to `s`.
pub fn push_decimal(s: &mut String, v: u64)
    ensures
        final(s)@ == old(s)@ + dec_text(v as nat),
    decreases v,
{
    if v >= 10 {
        push_decimal(s, v / 10);
    }
    let c = char_from_ascii((v % 10) as u8 + 0x30);
    push_char(s, c);
    assert(c == dec_digit((v % 10) as nat));
    if v >= 10 {
        assert(old(s)@ + dec_text(v as nat) =~= old(s)@ + dec_text((v / 10) as nat) + seq![c]);
    } else {
        assert(old(s)@ + dec_text(v as nat) =~= old(s)@.push(c));
    }
}

// ---------------------------------------------------------------------------
// Facts used by the laws about the parsers
// ---------------------------------------------------------------------------

/// A match at `p` with none before it is what `find` gives.
pub proof fn lemma_find_first(s: Seq<char>, pat: Seq<char>, p: int)
    requires
        occurs_at(s, pat, p),
        forall|j: int| 0 <= j < p ==> !occurs_at(s, pat, j),
    ensures
        find(s, pat) == Some(p),
{
    lemma_find_from(s, pat, 0);
}

/// Trimming changes nothing when both ends are outside the class.
pub proof fn lemma_trim_identity(s: Seq<char>, cls: CharClass)
    requires
        s.len() > 0,
        !in_class(cls, s[0]),
        !in_class(cls, s[s.len() - 1]),
    ensures
        trim_class(s, cls) == s,
{
    assert(skip_class(s, cls, 0) == 0);
    assert(skip_class_back(s, cls, 0, s.len() as int) == s.len());
    assert(s.subrange(0, s.len() as int) =~= s);
}

/// Scanning across characters other than the separator only moves the
/// position.
pub proof fn lemma_split_no_sep(s: Seq<char>, sep: char, pos: int, end: int, piece: int)
    requires
        0 <= pos <= end <= s.len(),
        forall|k: int| pos <= k < end ==> s[k] != sep,
    ensures
        split_from(s, sep, pos, piece) == split_from(s, sep, end, piece),
    decreases end - pos,
{
    if pos < end {
        lemma_split_no_sep(s, sep, pos + 1, end, piece);
    }
}

/// Nothing is stripped when the text does not start with the prefix.
pub proof fn lemma_strip_prefixes_none(s: Seq<char>, p: Seq<char>)
    requires
        !occurs_at(s, p, 0),
    ensures
        strip_prefixes(s, p) == s,
{
}

/// One copy is stripped when exactly one copy leads the text.
pub proof fn lemma_strip_prefixes_once(s: Seq<char>, p: Seq<char>)
    requires
        p.len() > 0,
        occurs_at(s, p, 0),
        !occurs_at(s.skip(p.len() as int), p, 0),
    ensures
        strip_prefixes(s, p) == s.skip(p.len() as int),
{
    assert(strip_prefixes(s.skip(p.len() as int), p) == s.skip(p.len() as int));
}

/// The value of the digits `s` followed by `c` in base `radix`.
pub proof fn lemma_digits_push(s: Seq<char>, c: char, radix: nat)
    ensures
        digits_value(s.push(c), radix) == (match (digits_value(s, radix), digit_value(c, radix)) {
            (Some(v), Some(d)) => Some(v * radix + d),
            _ => None::<nat>,
        }),
{
    assert(s.push(c).drop_last() =~= s);
}

/// A lower-case hex digit reads back as its value.
pub proof fn lemma_hex_digit_value(d: nat)
    requires
        d < 16,
    ensures
        digit_value(hex_digit(d), 16) == Some(d),
        hex_digit(d) != '+' && hex_digit(d) != 'x' && hex_digit(d) != 'X' && hex_digit(d) != '_',
        !is_whitespace_code(hex_digit(d) as u32),
{
}

/// `{:x}` text reads back as the number.
pub proof fn lemma_hex_text_value(v: nat)
    ensures
        digits_value(hex_text(v), 16) == Some(v),
        hex_text(v).len() > 0,
        forall|k: int| 0 <= k < hex_text(v).len() ==> digit_value(#[trigger] hex_text(v)[k], 16) is Some
            && hex_text(v)[k] != 'x' && hex_text(v)[k] != 'X' && hex_text(v)[k] != '+'
            && !is_whitespace_code(hex_text(v)[k] as u32),
    decreases v,
{
    lemma_hex_digit_value(v % 16);
    if v < 16 {
        lemma_digits_push(Seq::empty(), hex_digit(v), 16);
        assert(seq![hex_digit(v)] =~= Seq::<char>::empty().push(hex_digit(v)));
    } else {
        lemma_hex_text_value(v / 16);
        lemma_digits_push(hex_text(v / 16), hex_digit(v % 16), 16);
        assert(hex_text(v) == hex_text(v / 16).push(hex_digit(v % 16)));
        assert forall|k: int| 0 <= k < hex_text(v).len() implies digit_value(
            #[trigger] hex_text(v)[k],
            16,
        ) is Some && hex_text(v)[k] != 'x' && hex_text(v)[k] != 'X' && hex_text(v)[k] != '+'
            && !is_whitespace_code(hex_text(v)[k] as u32) by {
            if k < hex_text(v / 16).len() {
                assert(hex_text(v)[k] == hex_text(v / 16)[k]);
            }
        }
    }
}

/// A decimal digit reads back as its value.
pub proof fn lemma_dec_digit_value(d: nat)
    requires
        d < 10,
    ensures
        digit_value(dec_digit(d), 10) == Some(d),
{
}

/// `{}` text of a number reads back as the number.
pub proof fn lemma_dec_text_value(v: nat)
    ensures
        digits_value(dec_text(v), 10) == Some(v),
    decreases v,
{
    lemma_dec_digit_value(v % 10);
    if v < 10 {
        lemma_digits_push(Seq::empty(), dec_digit(v), 10);
        assert(seq![dec_digit(v)] =~= Seq::<char>::empty().push(dec_digit(v)));
    } else {
        lemma_dec_text_value(v / 10);
        lemma_digits_push(dec_text(v / 10), dec_digit(v % 10), 10);
    }
}

} // verus!
