//! Character-level scanning primitives used by the line-oriented parsers.
//!
//! Every executable scanner is specified exactly against a spec-level
//! counterpart over `Seq<char>`; the grammar modules compose these
//! primitives, so their contracts are stated over the same spec functions.

use vstd::prelude::*;

verus! {

// ---------------------------------------------------------------------------
// Character classes
// ---------------------------------------------------------------------------

/// ASCII whitespace, as the grammar understands it.
pub open spec fn is_space_char(c: char) -> bool {
    c == ' ' || c == '\t' || c == '\n' || c == '\r' || c == '\u{000b}' || c == '\u{000c}'
}

/// A word character: ASCII letter, digit, or underscore.
pub open spec fn is_word_char(c: char) -> bool {
    is_alnum_char(c) || c == '_'
}

/// An ASCII letter or digit.
pub open spec fn is_alnum_char(c: char) -> bool {
    ('a' <= c && c <= 'z') || ('A' <= c && c <= 'Z') || ('0' <= c && c <= '9')
}

/// A character allowed in a catalog alias reference: letter, digit, dot,
/// hyphen or underscore.
pub open spec fn is_ref_char(c: char) -> bool {
    is_alnum_char(c) || c == '.' || c == '-' || c == '_'
}

/// A single or double quote.
pub open spec fn is_quote_char(c: char) -> bool {
    c == '"' || c == '\''
}

/// A character allowed inside a quoted group or artifact coordinate:
/// anything but a quote or a colon.
pub open spec fn is_coord_char(c: char) -> bool {
    !is_quote_char(c) && c != ':'
}

/// A character allowed inside a quoted version string: anything but a quote.
pub open spec fn is_unquoted_char(c: char) -> bool {
    !is_quote_char(c)
}

/// A character of a bare shorthand plugin name: ASCII letter or hyphen.
pub open spec fn is_shorthand_char(c: char) -> bool {
    ('a' <= c && c <= 'z') || ('A' <= c && c <= 'Z') || c == '-'
}

pub fn space_char(c: char) -> (r: bool)
    ensures
        r == is_space_char(c),
{
    c == ' ' || c == '\t' || c == '\n' || c == '\r' || c == '\u{000b}' || c == '\u{000c}'
}

pub fn alnum_char(c: char) -> (r: bool)
    ensures
        r == is_alnum_char(c),
{
    ('a' <= c && c <= 'z') || ('A' <= c && c <= 'Z') || ('0' <= c && c <= '9')
}

pub fn word_char(c: char) -> (r: bool)
    ensures
        r == is_word_char(c),
{
    alnum_char(c) || c == '_'
}

pub fn ref_char(c: char) -> (r: bool)
    ensures
        r == is_ref_char(c),
{
    alnum_char(c) || c == '.' || c == '-' || c == '_'
}

pub fn quote_char(c: char) -> (r: bool)
    ensures
        r == is_quote_char(c),
{
    c == '"' || c == '\''
}

pub fn coord_char(c: char) -> (r: bool)
    ensures
        r == is_coord_char(c),
{
    !quote_char(c) && c != ':'
}

pub fn unquoted_char(c: char) -> (r: bool)
    ensures
        r == is_unquoted_char(c),
{
    !quote_char(c)
}

pub fn shorthand_char(c: char) -> (r: bool)
    ensures
        r == is_shorthand_char(c),
{
    ('a' <= c && c <= 'z') || ('A' <= c && c <= 'Z') || c == '-'
}

// ---------------------------------------------------------------------------
// Scanning
// ---------------------------------------------------------------------------

/// First index at or after `i` whose character fails `p`, or the length of
/// `s` if every remaining character satisfies `p`.
pub open spec fn scan_while(s: Seq<char>, i: int, p: spec_fn(char) -> bool) -> int
    decreases s.len() - i when 0 <= i <= s.len()
{
    if i >= s.len() {
        s.len() as int
    } else if p(s[i]) {
        scan_while(s, i + 1, p)
    } else {
        i
    }
}

pub open spec fn scan_space(s: Seq<char>, i: int) -> int {
    scan_while(s, i, |c: char| is_space_char(c))
}

pub open spec fn scan_word(s: Seq<char>, i: int) -> int {
    scan_while(s, i, |c: char| is_word_char(c))
}

pub open spec fn scan_alnum(s: Seq<char>, i: int) -> int {
    scan_while(s, i, |c: char| is_alnum_char(c))
}

pub open spec fn scan_ref(s: Seq<char>, i: int) -> int {
    scan_while(s, i, |c: char| is_ref_char(c))
}

pub open spec fn scan_coord(s: Seq<char>, i: int) -> int {
    scan_while(s, i, |c: char| is_coord_char(c))
}

pub open spec fn scan_unquoted(s: Seq<char>, i: int) -> int {
    scan_while(s, i, |c: char| is_unquoted_char(c))
}

pub open spec fn scan_shorthand(s: Seq<char>, i: int) -> int {
    scan_while(s, i, |c: char| is_shorthand_char(c))
}

/// The result of `scan_while` stays within `[i, s.len()]`.
pub broadcast proof fn lemma_scan_while_bounds(s: Seq<char>, i: int, p: spec_fn(char) -> bool)
    requires
        0 <= i <= s.len(),
    ensures
        i <= #[trigger] scan_while(s, i, p) <= s.len(),
    decreases s.len() - i,
{
    if i < s.len() && p(s[i]) {
        lemma_scan_while_bounds(s, i + 1, p);
    }
}

pub fn skip_spaces(s: &str, i: usize) -> (r: usize)
    requires
        i <= s@.len(),
    ensures
        r == scan_space(s@, i as int),
        i <= r <= s@.len(),
{
    let n = s.unicode_len();
    let mut j = i;
    while j < n && space_char(s.get_char(j))
        invariant
            i <= j <= n,
            n == s@.len(),
            scan_space(s@, i as int) == scan_space(s@, j as int),
        decreases n - j,
    {
        j = j + 1;
    }
    j
}

pub fn scan_word_end(s: &str, i: usize) -> (r: usize)
    requires
        i <= s@.len(),
    ensures
        r == scan_word(s@, i as int),
        i <= r <= s@.len(),
{
    let n = s.unicode_len();
    let mut j = i;
    while j < n && word_char(s.get_char(j))
        invariant
            i <= j <= n,
            n == s@.len(),
            scan_word(s@, i as int) == scan_word(s@, j as int),
        decreases n - j,
    {
        j = j + 1;
    }
    j
}

pub fn scan_alnum_end(s: &str, i: usize) -> (r: usize)
    requires
        i <= s@.len(),
    ensures
        r == scan_alnum(s@, i as int),
        i <= r <= s@.len(),
{
    let n = s.unicode_len();
    let mut j = i;
    while j < n && alnum_char(s.get_char(j))
        invariant
            i <= j <= n,
            n == s@.len(),
            scan_alnum(s@, i as int) == scan_alnum(s@, j as int),
        decreases n - j,
    {
        j = j + 1;
    }
    j
}

pub fn scan_ref_end(s: &str, i: usize) -> (r: usize)
    requires
        i <= s@.len(),
    ensures
        r == scan_ref(s@, i as int),
        i <= r <= s@.len(),
{
    let n = s.unicode_len();
    let mut j = i;
    while j < n && ref_char(s.get_char(j))
        invariant
            i <= j <= n,
            n == s@.len(),
            scan_ref(s@, i as int) == scan_ref(s@, j as int),
        decreases n - j,
    {
        j = j + 1;
    }
    j
}

pub fn scan_coord_end(s: &str, i: usize) -> (r: usize)
    requires
        i <= s@.len(),
    ensures
        r == scan_coord(s@, i as int),
        i <= r <= s@.len(),
{
    let n = s.unicode_len();
    let mut j = i;
    while j < n && coord_char(s.get_char(j))
        invariant
            i <= j <= n,
            n == s@.len(),
            scan_coord(s@, i as int) == scan_coord(s@, j as int),
        decreases n - j,
    {
        j = j + 1;
    }
    j
}

pub fn scan_unquoted_end(s: &str, i: usize) -> (r: usize)
    requires
        i <= s@.len(),
    ensures
        r == scan_unquoted(s@, i as int),
        i <= r <= s@.len(),
{
    let n = s.unicode_len();
    let mut j = i;
    while j < n && unquoted_char(s.get_char(j))
        invariant
            i <= j <= n,
            n == s@.len(),
            scan_unquoted(s@, i as int) == scan_unquoted(s@, j as int),
        decreases n - j,
    {
        j = j + 1;
    }
    j
}

pub fn scan_shorthand_end(s: &str, i: usize) -> (r: usize)
    requires
        i <= s@.len(),
    ensures
        r == scan_shorthand(s@, i as int),
        i <= r <= s@.len(),
{
    let n = s.unicode_len();
    let mut j = i;
    while j < n && shorthand_char(s.get_char(j))
        invariant
            i <= j <= n,
            n == s@.len(),
            scan_shorthand(s@, i as int) == scan_shorthand(s@, j as int),
        decreases n - j,
    {
        j = j + 1;
    }
    j
}

// ---------------------------------------------------------------------------
// Fixed-pattern matching
// ---------------------------------------------------------------------------

/// `pat` occurs in `s` starting exactly at index `i`.
pub open spec fn has_at(s: Seq<char>, i: int, pat: Seq<char>) -> bool {
    0 <= i && i + pat.len() <= s.len() && s.subrange(i, i + pat.len()) == pat
}

pub fn match_at(s: &str, i: usize, pat: &str) -> (r: bool)
    requires
        i <= s@.len(),
    ensures
        r == has_at(s@, i as int, pat@),
{
    let n = s.unicode_len();
    let m = pat.unicode_len();
    if m > n - i {
        assert(!has_at(s@, i as int, pat@));
        return false;
    }
    let mut j: usize = 0;
    while j < m
        invariant
            j <= m,
            i + m <= n,
            n == s@.len(),
            m == pat@.len(),
            forall|k: int| 0 <= k < j ==> s@[i + k] == pat@[k],
        decreases m - j,
    {
        if s.get_char(i + j) != pat.get_char(j) {
            assert(s@.subrange(i as int, i + m) != pat@) by {
                assert(s@.subrange(i as int, i + m)[j as int] != pat@[j as int]);
            }
            return false;
        }
        j = j + 1;
    }
    assert(s@.subrange(i as int, i + m) =~= pat@);
    true
}

/// `pat` occurs somewhere in `s`.
pub open spec fn contains_seq(s: Seq<char>, pat: Seq<char>) -> bool {
    exists|i: int| has_at(s, i, pat)
}

pub fn contains_pat(s: &str, pat: &str) -> (r: bool)
    ensures
        r == contains_seq(s@, pat@),
{
    let n = s.unicode_len();
    if pat.unicode_len() == 0 {
        assert(has_at(s@, 0, pat@)) by {
            assert(s@.subrange(0, 0) =~= pat@);
        }
        return true;
    }
    let mut i: usize = 0;
    while i < n
        invariant
            i <= n,
            n == s@.len(),
            pat@.len() > 0,
            forall|k: int| 0 <= k < i ==> !has_at(s@, k, pat@),
        decreases n - i,
    {
        if match_at(s, i, pat) {
            assert(contains_seq(s@, pat@));
            return true;
        }
        i = i + 1;
    }
    assert(forall|k: int| has_at(s@, k, pat@) ==> 0 <= k < i);
    false
}

// ---------------------------------------------------------------------------
// Counting and locating single characters
// ---------------------------------------------------------------------------

/// Number of occurrences of `c` in `s` at or after index `i`.
pub open spec fn count_from(s: Seq<char>, c: char, i: int) -> nat
    decreases s.len() - i when 0 <= i <= s.len()
{
    if i >= s.len() {
        0
    } else if s[i] == c {
        1 + count_from(s, c, i + 1)
    } else {
        count_from(s, c, i + 1)
    }
}

/// Number of occurrences of `c` in all of `s`.
pub open spec fn count_char(s: Seq<char>, c: char) -> nat {
    count_from(s, c, 0)
}

pub fn count_char_in(s: &str, c: char) -> (r: usize)
    ensures
        r == count_char(s@, c),
{
    let n = s.unicode_len();
    let mut j: usize = 0;
    let mut cnt: usize = 0;
    while j < n
        invariant
            j <= n,
            cnt <= j,
            n == s@.len(),
            count_from(s@, c, 0) == cnt + count_from(s@, c, j as int),
        decreases n - j,
    {
        if s.get_char(j) == c {
            cnt = cnt + 1;
        }
        j = j + 1;
    }
    cnt
}

/// `s` holds `c` somewhere.
pub open spec fn contains_char(s: Seq<char>, c: char) -> bool {
    count_char(s, c) > 0
}

pub fn contains_ch(s: &str, c: char) -> (r: bool)
    ensures
        r == contains_char(s@, c),
{
    count_char_in(s, c) > 0
}

/// First index at or after `i` holding `c`, or the length of `s`.
pub open spec fn scan_to_char(s: Seq<char>, c: char, i: int) -> int
    decreases s.len() - i when 0 <= i <= s.len()
{
    if i >= s.len() {
        s.len() as int
    } else if s[i] == c {
        i
    } else {
        scan_to_char(s, c, i + 1)
    }
}

pub fn find_char(s: &str, c: char, i: usize) -> (r: usize)
    requires
        i <= s@.len(),
    ensures
        r == scan_to_char(s@, c, i as int),
        i <= r <= s@.len(),
{
    let n = s.unicode_len();
    let mut j = i;
    while j < n && s.get_char(j) != c
        invariant
            i <= j <= n,
            n == s@.len(),
            scan_to_char(s@, c, i as int) == scan_to_char(s@, c, j as int),
        decreases n - j,
    {
        j = j + 1;
    }
    j
}

// ---------------------------------------------------------------------------
// Whole-sequence comparisons
// ---------------------------------------------------------------------------

pub fn str_eq(a: &str, b: &str) -> (r: bool)
    ensures
        r == (a@ == b@),
{
    let n = a.unicode_len();
    if n != b.unicode_len() {
        return false;
    }
    let r = match_at(a, 0, b);
    proof {
        assert(a@.subrange(0, a@.len() as int) =~= a@);
    }
    r
}

/// `s` ends with `pat`.
pub open spec fn ends_with(s: Seq<char>, pat: Seq<char>) -> bool {
    has_at(s, s.len() - pat.len(), pat)
}

pub fn str_ends_with(s: &str, pat: &str) -> (r: bool)
    ensures
        r == ends_with(s@, pat@),
{
    let n = s.unicode_len();
    let m = pat.unicode_len();
    if m > n {
        return false;
    }
    match_at(s, n - m, pat)
}

// ---------------------------------------------------------------------------
// Extracting substrings
// ---------------------------------------------------------------------------

/// The characters of `s` between `from` and `to`, as an owned string.
pub fn substring(s: &str, from: usize, to: usize) -> (r: String)
    requires
        from <= to <= s@.len(),
    ensures
        r@ == s@.subrange(from as int, to as int),
{
    s.substring_char(from, to).to_owned()
}

// ---------------------------------------------------------------------------
// Line splitting
// ---------------------------------------------------------------------------

/// A piece of text up to but not including a line break, with one trailing
/// carriage return removed.
pub open spec fn strip_cr(s: Seq<char>) -> Seq<char> {
    if s.len() > 0 && s[s.len() - 1] == '\r' {
        s.drop_last()
    } else {
        s
    }
}

/// Index of the first newline in `s`, or the length of `s`, bounded by
/// construction so that definitions over it terminate visibly.
pub open spec fn line_break(s: Seq<char>) -> int {
    let k = scan_to_char(s, '\n', 0);
    if 0 <= k <= s.len() {
        k
    } else {
        s.len() as int
    }
}

/// The lines of `s`: pieces separated by newline characters, each with one
/// trailing carriage return removed; empty text has no lines, and a final
/// newline does not open a last empty line.
pub open spec fn spec_lines(s: Seq<char>) -> Seq<Seq<char>>
    decreases s.len(),
{
    if s.len() == 0 {
        Seq::empty()
    } else {
        let k = line_break(s);
        let piece = strip_cr(s.subrange(0, k));
        if k == s.len() {
            seq![piece]
        } else {
            seq![piece] + spec_lines(s.subrange(k + 1, s.len() as int))
        }
    }
}

pub broadcast proof fn lemma_scan_to_char_bounds(s: Seq<char>, c: char, i: int)
    requires
        0 <= i <= s.len(),
    ensures
        i <= #[trigger] scan_to_char(s, c, i) <= s.len(),
    decreases s.len() - i,
{
    if i < s.len() && s[i] != c {
        lemma_scan_to_char_bounds(s, c, i + 1);
    }
}

/// Scanning the suffix of `s` that starts at `i`, from position `j - i`,
/// agrees with scanning `s` itself from position `j`.
proof fn lemma_scan_to_char_sub(s: Seq<char>, c: char, i: int, j: int)
    requires
        0 <= i <= j <= s.len(),
    ensures
        scan_to_char(s.subrange(i, s.len() as int), c, j - i) == scan_to_char(s, c, j) - i,
    decreases s.len() - j,
{
    let suf = s.subrange(i, s.len() as int);
    if j == s.len() {
    } else if s[j] == c {
        assert(suf[j - i] == c);
    } else {
        assert(suf[j - i] != c);
        lemma_scan_to_char_sub(s, c, i, j + 1);
    }
}

/// `scan_to_char` over a suffix agrees with the scan over the whole sequence.
proof fn lemma_scan_to_char_suffix(s: Seq<char>, c: char, i: int)
    requires
        0 <= i <= s.len(),
    ensures
        scan_to_char(s.subrange(i, s.len() as int), c, 0) == scan_to_char(s, c, i) - i,
{
    lemma_scan_to_char_sub(s, c, i, i);
}

/// Splits `content` into its lines.
pub fn split_lines(content: &str) -> (r: Vec<String>)
    ensures
        r.deep_view() == spec_lines(content@),
{
    let n = content.unicode_len();
    let mut r: Vec<String> = Vec::new();
    proof {
        assert(content@.subrange(0, n as int) =~= content@);
    }
    let mut pos: usize = 0;
    while pos < n
        invariant
            pos <= n,
            n == content@.len(),
            spec_lines(content@) == r.deep_view() + spec_lines(
                content@.subrange(pos as int, n as int),
            ),
        decreases n - pos,
    {
        let ghost rest = content@.subrange(pos as int, n as int);
        let k = find_char(content, '\n', pos);
        proof {
            lemma_scan_to_char_suffix(content@, '\n', pos as int);
            lemma_scan_to_char_bounds(content@, '\n', pos as int);
            lemma_scan_to_char_bounds(rest, '\n', 0);
            assert(line_break(rest) == k - pos);
        }
        let mut end = k;
        if end > pos && content.get_char(end - 1) == '\r' {
            end = end - 1;
        }
        let piece = substring(content, pos, end);
        proof {
            let k0 = line_break(rest);
            assert(rest.subrange(0, k0) =~= content@.subrange(pos as int, k as int));
            assert(piece@ =~= strip_cr(rest.subrange(0, k0)));
        }
        r.push(piece);
        if k == n {
            pos = n;
            proof {
                assert(spec_lines(rest) =~= seq![piece@]);
                assert(spec_lines(content@.subrange(pos as int, n as int)) =~= Seq::<
                    Seq<char>,
                >::empty());
                assert(spec_lines(content@) =~= r.deep_view());
            }
        } else {
            proof {
                let k0 = line_break(rest);
                assert(rest.subrange(k0 + 1, rest.len() as int) =~= content@.subrange(
                    k + 1,
                    n as int,
                ));
                assert(spec_lines(rest) =~= seq![piece@] + spec_lines(
                    content@.subrange(k + 1, n as int),
                ));
            }
            pos = k + 1;
        }
    }
    proof {
        if pos == n {
            assert(spec_lines(content@.subrange(n as int, n as int)) =~= Seq::<
                Seq<char>,
            >::empty());
        }
        assert(spec_lines(content@) =~= r.deep_view());
    }
    r
}

// ---------------------------------------------------------------------------
// Decimal rendering
// ---------------------------------------------------------------------------

/// The decimal digit character for `d`.
pub open spec fn digit_char(d: int) -> char {
    if d == 0 {
        '0'
    } else if d == 1 {
        '1'
    } else if d == 2 {
        '2'
    } else if d == 3 {
        '3'
    } else if d == 4 {
        '4'
    } else if d == 5 {
        '5'
    } else if d == 6 {
        '6'
    } else if d == 7 {
        '7'
    } else if d == 8 {
        '8'
    } else {
        '9'
    }
}

/// The decimal spelling of `n`, most significant digit first.
pub open spec fn dec_of(n: nat) -> Seq<char>
    decreases n,
{
    if n < 10 {
        seq![digit_char(n as int)]
    } else {
        dec_of(n / 10).push(digit_char((n % 10) as int))
    }
}

fn digit_str(d: usize) -> (r: &'static str)
    requires
        d < 10,
    ensures
        r@ == seq![digit_char(d as int)],
{
    proof {
        reveal_strlit("0");
        reveal_strlit("1");
        reveal_strlit("2");
        reveal_strlit("3");
        reveal_strlit("4");
        reveal_strlit("5");
        reveal_strlit("6");
        reveal_strlit("7");
        reveal_strlit("8");
        reveal_strlit("9");
    }
    match d {
        0 => "0",
        1 => "1",
        2 => "2",
        3 => "3",
        4 => "4",
        5 => "5",
        6 => "6",
        7 => "7",
        8 => "8",
        _ => "9",
    }
}

/// Renders `n` in decimal.
pub fn usize_to_string(n: usize) -> (r: String)
    ensures
        r@ == dec_of(n as nat),
    decreases n,
{
    if n < 10 {
        digit_str(n).to_owned()
    } else {
        let mut s = usize_to_string(n / 10);
        s.append(digit_str(n % 10));
        proof {
            assert(s@ =~= dec_of(n as nat));
        }
        s
    }
}

// ---------------------------------------------------------------------------
// Lexicographic order on character sequences
// ---------------------------------------------------------------------------

/// `a` is lexicographically at most `b`, comparing characters by their
/// Unicode scalar values.
pub open spec fn lex_le(a: Seq<char>, b: Seq<char>) -> bool
    decreases a.len(),
{
    if a.len() == 0 {
        true
    } else if b.len() == 0 {
        false
    } else if (a[0] as u32) < (b[0] as u32) {
        true
    } else if (a[0] as u32) > (b[0] as u32) {
        false
    } else {
        lex_le(a.drop_first(), b.drop_first())
    }
}

pub proof fn lemma_lex_le_total(a: Seq<char>, b: Seq<char>)
    ensures
        lex_le(a, b) || lex_le(b, a),
    decreases a.len(),
{
    if a.len() > 0 && b.len() > 0 && a[0] as u32 == b[0] as u32 {
        lemma_lex_le_total(a.drop_first(), b.drop_first());
    }
}

pub proof fn lemma_lex_le_antisymmetric(a: Seq<char>, b: Seq<char>)
    requires
        lex_le(a, b),
        lex_le(b, a),
    ensures
        a =~= b,
    decreases a.len(),
{
    if a.len() > 0 && b.len() > 0 {
        assert(a[0] as u32 == b[0] as u32);
        vstd::utf8::char_u32_cast(a[0], a[0] as u32);
        vstd::utf8::char_u32_cast(b[0], b[0] as u32);
        assert(a[0] == b[0]);
        lemma_lex_le_antisymmetric(a.drop_first(), b.drop_first());
        assert(a =~= seq![a[0]] + a.drop_first());
    }
}

pub proof fn lemma_lex_le_transitive(a: Seq<char>, b: Seq<char>, c: Seq<char>)
    requires
        lex_le(a, b),
        lex_le(b, c),
    ensures
        lex_le(a, c),
    decreases a.len(),
{
    if a.len() > 0 && b.len() > 0 && c.len() > 0 {
        if a[0] as u32 == b[0] as u32 && b[0] as u32 == c[0] as u32 {
            lemma_lex_le_transitive(a.drop_first(), b.drop_first(), c.drop_first());
        }
    }
}

pub fn str_lex_le(a: &str, b: &str) -> (r: bool)
    ensures
        r == lex_le(a@, b@),
{
    let na = a.unicode_len();
    let nb = b.unicode_len();
    proof {
        assert(a@.subrange(0, na as int) =~= a@);
        assert(b@.subrange(0, nb as int) =~= b@);
    }
    let mut i: usize = 0;
    loop
        invariant
            i <= na,
            i <= nb,
            na == a@.len(),
            nb == b@.len(),
            lex_le(a@, b@) == lex_le(
                a@.subrange(i as int, na as int),
                b@.subrange(i as int, nb as int),
            ),
        decreases na - i,
    {
        let ghost sa = a@.subrange(i as int, na as int);
        let ghost sb = b@.subrange(i as int, nb as int);
        if i == na {
            assert(sa.len() == 0);
            return true;
        }
        if i == nb {
            assert(sb.len() == 0 && sa.len() > 0);
            return false;
        }
        let ca = a.get_char(i) as u32;
        let cb = b.get_char(i) as u32;
        if ca < cb {
            return true;
        }
        if ca > cb {
            return false;
        }
        proof {
            assert(sa[0] == a@[i as int] && sb[0] == b@[i as int]);
            assert(sa.drop_first() =~= a@.subrange(i + 1, na as int));
            assert(sb.drop_first() =~= b@.subrange(i + 1, nb as int));
        }
        i = i + 1;
    }
}

} // verus!
