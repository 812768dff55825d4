//! Verified text utilities: equality, prefix and substring tests, splitting,
//! joining, whitespace tokenization, decimal parsing and formatting, and
//! padding. All contracts are stated over `Seq<char>` views.

use vstd::prelude::*;
use vstd::string::*;

verus! {

/// True when `s` occurs as a contiguous substring of `h`.
pub open spec fn contains_seq(h: Seq<char>, s: Seq<char>) -> bool {
    exists|i: int| 0 <= i && i + s.len() <= h.len() && #[trigger] h.subrange(i, i + s.len() as int) == s
}

/// Character-wise string equality, `r == (a@ == b@)`.
pub fn str_eq(a: &str, b: &str) -> (r: bool)
    ensures
        r == (a@ == b@),
{
    let n = a.unicode_len();
    let m = b.unicode_len();
    if n != m {
        return false;
    }
    let mut i: usize = 0;
    while i < n
        invariant
            i <= n,
            n == a@.len(),
            n == b@.len(),
            forall|j: int| 0 <= j < i ==> a@[j] == b@[j],
        decreases n - i,
    {
        if a.get_char(i) != b.get_char(i) {
            return false;
        }
        i += 1;
    }
    proof {
        assert(a@ =~= b@);
    }
    true
}

/// True when `p@` is a prefix of `s@`.
pub fn starts_with_str(s: &str, p: &str) -> (r: bool)
    ensures
        r == p@.is_prefix_of(s@),
{
    let n = s.unicode_len();
    let m = p.unicode_len();
    if m > n {
        return false;
    }
    let mut i: usize = 0;
    while i < m
        invariant
            i <= m,
            m <= n,
            n == s@.len(),
            m == p@.len(),
            forall|j: int| 0 <= j < i ==> s@[j] == p@[j],
        decreases m - i,
    {
        if s.get_char(i) != p.get_char(i) {
            proof {
                assert(p@.is_prefix_of(s@) ==> p@[i as int] == s@.subrange(0, m as int)[i as int]);
            }
            return false;
        }
        i += 1;
    }
    proof {
        assert(p@ =~= s@.subrange(0, m as int));
    }
    true
}

/// True when `s@.subrange(at, at + p@.len())` equals `p@`; the window must
/// lie inside `s`.
fn matches_at(s: &str, p: &str, at: usize) -> (r: bool)
    requires
        at + p@.len() <= s@.len(),
    ensures
        r == (s@.subrange(at as int, at + p@.len()) == p@),
{
    let n = s.unicode_len();
    let m = p.unicode_len();
    let mut j: usize = 0;
    while j < m
        invariant
            j <= m,
            m == p@.len(),
            n == s@.len(),
            at + m <= n,
            forall|k: int| 0 <= k < j ==> s@[at + k] == p@[k],
        decreases m - j,
    {
        if s.get_char(at + j) != p.get_char(j) {
            proof {
                assert(s@.subrange(at as int, at + p@.len()) == p@
                    ==> s@.subrange(at as int, at + p@.len())[j as int] == p@[j as int]);
            }
            return false;
        }
        j += 1;
    }
    proof {
        assert(s@.subrange(at as int, at + p@.len()) =~= p@);
    }
    true
}

/// True when `p@` occurs as a contiguous substring of `s@`.
pub fn contains_str(s: &str, p: &str) -> (r: bool)
    ensures
        r == contains_seq(s@, p@),
{
    let n = s.unicode_len();
    let m = p.unicode_len();
    if m > n {
        return false;
    }
    if m == 0 {
        proof {
            assert(s@.subrange(0, 0 + p@.len() as int) =~= p@);
        }
        return true;
    }
    let mut i: usize = 0;
    while i <= n - m
        invariant
            1 <= m <= n,
            n == s@.len(),
            m == p@.len(),
            i <= n - m + 1,
            forall|k: int| 0 <= k < i ==> #[trigger] s@.subrange(k, k + p@.len()) != p@,
        decreases n + 1 - i,
    {
        if matches_at(s, p, i) {
            return true;
        }
        i += 1;
    }
    false
}

/// The views of a sequence of owned strings.
pub open spec fn views_of(v: Seq<String>) -> Seq<Seq<char>> {
    v.map_values(|x: String| x@)
}

/// `s` with every tab replaced by a space.
pub open spec fn tabs_to_spaces(s: Seq<char>) -> Seq<char> {
    s.map_values(|c: char| if c == '\t' { ' ' } else { c })
}

/// Copies `s`, replacing every tab character with a space.
pub fn replace_tabs(s: &str) -> (r: String)
    ensures
        r@ == tabs_to_spaces(s@),
{
    let n = s.unicode_len();
    let mut r = String::new();
    let mut i: usize = 0;
    while i < n
        invariant
            i <= n,
            n == s@.len(),
            r@ == tabs_to_spaces(s@.take(i as int)),
        decreases n - i,
    {
        let c = s.get_char(i);
        if c == '\t' {
            proof {
                reveal_strlit(" ");
            }
            r.append(" ");
        } else {
            r.append(s.substring_char(i, i + 1));
        }
        proof {
            assert(s@.subrange(i as int, i + 1) =~= seq![s@[i as int]]);
            assert(r@ =~= tabs_to_spaces(s@.take(i + 1)));
        }
        i += 1;
    }
    proof {
        assert(s@.take(n as int) =~= s@);
    }
    r
}

/// The pieces of `s` between occurrences of `sep`, in order; mirrors
/// splitting on a single separator character, where an empty input or a
/// separator at either end yields empty pieces.
pub open spec fn split_seq(s: Seq<char>, sep: char) -> Seq<Seq<char>>
    decreases s.len(),
{
    if s.len() == 0 {
        seq![Seq::<char>::empty()]
    } else {
        let prev = split_seq(s.drop_last(), sep);
        if s.last() == sep {
            prev.push(Seq::<char>::empty())
        } else {
            prev.update(prev.len() - 1, prev.last().push(s.last()))
        }
    }
}

/// A split always yields at least one piece.
pub proof fn lemma_split_seq_len(s: Seq<char>, sep: char)
    ensures
        split_seq(s, sep).len() >= 1,
    decreases s.len(),
{
    if s.len() > 0 {
        lemma_split_seq_len(s.drop_last(), sep);
    }
}

/// Splits `s` at every occurrence of `sep`.
pub fn split_char(s: &str, sep: char) -> (r: Vec<String>)
    ensures
        views_of(r@) == split_seq(s@, sep),
{
    let n = s.unicode_len();
    let mut parts: Vec<String> = Vec::new();
    let mut cur = String::new();
    let mut i: usize = 0;
    while i < n
        invariant
            i <= n,
            n == s@.len(),
            views_of(parts@).push(cur@) =~~= split_seq(s@.take(i as int), sep),
        decreases n - i,
    {
        let ghost prev_parts = parts@;
        let ghost prev_cur = cur@;
        let c = s.get_char(i);
        proof {
            assert(s@.take(i + 1).drop_last() =~= s@.take(i as int));
            assert(s@.take(i + 1).last() == s@[i as int]);
            lemma_split_seq_len(s@.take(i as int), sep);
        }
        if c == sep {
            parts.push(cur);
            cur = String::new();
            proof {
                assert(views_of(parts@) =~= views_of(prev_parts).push(prev_cur));
                assert(views_of(parts@).push(cur@) =~~= split_seq(s@.take(i + 1), sep));
            }
        } else {
            cur.append(s.substring_char(i, i + 1));
            proof {
                assert(s@.subrange(i as int, i + 1) =~= seq![s@[i as int]]);
                assert(cur@ =~= prev_cur.push(s@[i as int]));
                assert(views_of(parts@).push(cur@) =~~= split_seq(s@.take(i + 1), sep));
            }
        }
        i += 1;
    }
    parts.push(cur);
    proof {
        assert(s@.take(n as int) =~= s@);
        assert(views_of(parts@) =~~= split_seq(s@, sep));
    }
    parts
}

/// The pieces of `parts` concatenated with `sep` between neighbours.
pub open spec fn join_seq(parts: Seq<Seq<char>>, sep: Seq<char>) -> Seq<char>
    decreases parts.len(),
{
    if parts.len() == 0 {
        Seq::<char>::empty()
    } else if parts.len() == 1 {
        parts[0]
    } else {
        join_seq(parts.drop_last(), sep) + sep + parts.last()
    }
}

/// Concatenates `parts` with `sep` between neighbours.
pub fn join_str(parts: &Vec<String>, sep: &str) -> (r: String)
    ensures
        r@ == join_seq(views_of(parts@), sep@),
{
    let mut r = String::new();
    let mut i: usize = 0;
    while i < parts.len()
        invariant
            i <= parts.len(),
            r@ == join_seq(views_of(parts@).take(i as int), sep@),
        decreases parts.len() - i,
    {
        if i > 0 {
            r.append(sep);
        }
        r.append(parts[i].as_str());
        proof {
            assert(views_of(parts@).take(i + 1).drop_last() =~~= views_of(parts@).take(i as int));
            assert(views_of(parts@).take(i + 1).last() == views_of(parts@)[i as int]);
            assert(r@ =~= join_seq(views_of(parts@).take(i + 1), sep@));
        }
        i += 1;
    }
    proof {
        assert(views_of(parts@).take(parts@.len() as int) =~~= views_of(parts@));
    }
    r
}

/// ASCII whitespace, as the process-table tokenizer understands it.
pub open spec fn is_ascii_space(c: char) -> bool {
    c == ' ' || c == '\t' || c == '\n' || c == '\u{000C}' || c == '\r'
}

/// The maximal runs of non-whitespace characters of `s`, in order.
pub open spec fn tokens_of(s: Seq<char>) -> Seq<Seq<char>>
    decreases s.len(),
{
    if s.len() == 0 {
        Seq::<Seq<char>>::empty()
    } else {
        let prev = tokens_of(s.drop_last());
        let c = s.last();
        if is_ascii_space(c) {
            prev
        } else if s.len() == 1 || is_ascii_space(s[s.len() - 2]) {
            prev.push(seq![c])
        } else {
            prev.update(prev.len() - 1, prev.last().push(c))
        }
    }
}

fn is_space_char(c: char) -> (r: bool)
    ensures
        r == is_ascii_space(c),
{
    c == ' ' || c == '\t' || c == '\n' || c == '\u{000C}' || c == '\r'
}

/// Splits `s` into its whitespace-separated tokens; empty tokens never
/// occur.
pub fn split_whitespace(s: &str) -> (r: Vec<String>)
    ensures
        views_of(r@) == tokens_of(s@),
{
    let n = s.unicode_len();
    let mut parts: Vec<String> = Vec::new();
    let mut cur = String::new();
    let mut i: usize = 0;
    while i < n
        invariant
            i <= n,
            n == s@.len(),
            cur@.len() == 0 ==> views_of(parts@) =~~= tokens_of(s@.take(i as int)),
            cur@.len() == 0 ==> (i == 0 || is_ascii_space(s@[i - 1])),
            cur@.len() > 0 ==> tokens_of(s@.take(i as int)) =~~= views_of(parts@).push(cur@),
            cur@.len() > 0 ==> i >= 1 && !is_ascii_space(s@[i - 1]),
        decreases n - i,
    {
        let ghost prev_parts = parts@;
        let ghost prev_cur = cur@;
        let c = s.get_char(i);
        proof {
            assert(s@.take(i + 1).drop_last() =~= s@.take(i as int));
            assert(s@.take(i + 1).last() == s@[i as int]);
        }
        if is_space_char(c) {
            if cur.as_str().unicode_len() > 0 {
                parts.push(cur);
                cur = String::new();
                proof {
                    assert(views_of(parts@) =~= views_of(prev_parts).push(prev_cur));
                    assert(views_of(parts@) =~~= tokens_of(s@.take(i + 1)));
                }
            }
        } else {
            cur.append(s.substring_char(i, i + 1));
            proof {
                assert(s@.subrange(i as int, i + 1) =~= seq![s@[i as int]]);
                assert(cur@ =~= prev_cur.push(s@[i as int]));
                if prev_cur.len() == 0 {
                    assert(seq![s@[i as int]] =~= Seq::<char>::empty().push(s@[i as int]));
                    assert(tokens_of(s@.take(i + 1)) =~~= views_of(parts@).push(cur@));
                } else {
                    assert(tokens_of(s@.take(i + 1)) =~~= views_of(parts@).push(cur@));
                }
            }
        }
        i += 1;
    }
    if cur.as_str().unicode_len() > 0 {
        let ghost prev_parts = parts@;
        let ghost prev_cur = cur@;
        parts.push(cur);
        proof {
            assert(views_of(parts@) =~= views_of(prev_parts).push(prev_cur));
        }
    }
    proof {
        assert(s@.take(n as int) =~= s@);
        assert(views_of(parts@) =~~= tokens_of(s@));
    }
    parts
}

/// The ten decimal digit characters.
pub open spec fn is_dec_digit(c: char) -> bool {
    c == '0' || c == '1' || c == '2' || c == '3' || c == '4' || c == '5' || c == '6' || c == '7'
        || c == '8' || c == '9'
}

/// The numeric value of a decimal digit character; ten for anything else.
pub open spec fn digit_val(c: char) -> nat {
    if c == '0' {
        0
    } else if c == '1' {
        1
    } else if c == '2' {
        2
    } else if c == '3' {
        3
    } else if c == '4' {
        4
    } else if c == '5' {
        5
    } else if c == '6' {
        6
    } else if c == '7' {
        7
    } else if c == '8' {
        8
    } else if c == '9' {
        9
    } else {
        10
    }
}

pub open spec fn all_dec_digits(s: Seq<char>) -> bool {
    forall|i: int| 0 <= i < s.len() ==> is_dec_digit(#[trigger] s[i])
}

/// The number a string of decimal digits denotes.
pub open spec fn digits_val(s: Seq<char>) -> nat
    decreases s.len(),
{
    if s.len() == 0 {
        0
    } else {
        digits_val(s.drop_last()) * 10 + digit_val(s.last())
    }
}

/// The digits of `s` after an optional leading plus sign.
pub open spec fn digits_after_sign(s: Seq<char>) -> Seq<char> {
    if s.len() > 0 && s[0] == '+' { s.skip(1) } else { s }
}

/// What `usize` parsing accepts: an optional plus sign, then at least one
/// decimal digit, denoting a value that fits in `usize`.
pub open spec fn parses_as_usize(s: Seq<char>) -> bool {
    digits_after_sign(s).len() > 0 && all_dec_digits(digits_after_sign(s)) && digits_val(
        digits_after_sign(s),
    ) <= usize::MAX
}

/// A digit string never denotes less than any of its prefixes.
pub proof fn lemma_digits_val_monotone(s: Seq<char>, k: int)
    requires
        0 <= k <= s.len(),
    ensures
        digits_val(s.take(k)) <= digits_val(s),
    decreases s.len(),
{
    if k < s.len() {
        assert(s.drop_last().take(k) =~= s.take(k));
        lemma_digits_val_monotone(s.drop_last(), k);
    } else {
        assert(s.take(k) =~= s);
    }
}

fn digit_of(c: char) -> (r: Option<u8>)
    ensures
        is_dec_digit(c) ==> r == Some(digit_val(c) as u8),
        !is_dec_digit(c) ==> r is None,
{
    if c == '0' {
        Some(0)
    } else if c == '1' {
        Some(1)
    } else if c == '2' {
        Some(2)
    } else if c == '3' {
        Some(3)
    } else if c == '4' {
        Some(4)
    } else if c == '5' {
        Some(5)
    } else if c == '6' {
        Some(6)
    } else if c == '7' {
        Some(7)
    } else if c == '8' {
        Some(8)
    } else if c == '9' {
        Some(9)
    } else {
        None
    }
}

/// Reads `s` as an unsigned number the way `usize` parsing does: `None` on
/// an empty or malformed string and on overflow, otherwise the denoted
/// value.
pub fn parse_usize(s: &str) -> (r: Option<usize>)
    ensures
        r == if parses_as_usize(s@) {
            Some(digits_val(digits_after_sign(s@)) as usize)
        } else {
            None::<usize>
        },
{
    let n = s.unicode_len();
    let start: usize = if n > 0 && s.get_char(0) == '+' {
        1
    } else {
        0
    };
    let ghost d = digits_after_sign(s@);
    proof {
        assert(d =~= s@.skip(start as int));
    }
    if start >= n {
        return None;
    }
    let mut val: usize = 0;
    let mut j: usize = start;
    while j < n
        invariant
            start <= j <= n,
            n == s@.len(),
            start <= 1,
            d == digits_after_sign(s@),
            d =~= s@.skip(start as int),
            all_dec_digits(d.take(j - start)),
            val == digits_val(d.take(j - start)),
        decreases n - j,
    {
        let c = s.get_char(j);
        proof {
            assert(d[j - start] == s@[j as int]);
            assert(d.take(j - start + 1).drop_last() =~= d.take(j - start));
            assert(d.take(j - start + 1).last() == d[j - start]);
        }
        match digit_of(c) {
            None => {
                proof {
                    assert(!is_dec_digit(d[j - start]));
                }
                return None;
            },
            Some(dv) => {
                let dvs = dv as usize;
                if val > (usize::MAX - dvs) / 10 {
                    proof {
                        assert(digits_val(d.take(j - start + 1)) > usize::MAX);
                        lemma_digits_val_monotone(d, j - start + 1);
                    }
                    return None;
                }
                proof {
                    assert(val * 10 + dvs <= usize::MAX);
                }
                val = val * 10 + dvs;
            },
        }
        j += 1;
    }
    proof {
        assert(d.take(n - start) =~= d);
    }
    Some(val)
}

/// The digit character for a value below ten; `'9'` for anything else.
pub open spec fn digit_char(d: nat) -> char {
    if d == 0 {
        '0'
    } else if d == 1 {
        '1'
    } else if d == 2 {
        '2'
    } else if d == 3 {
        '3'
    } else if d == 4 {
        '4'
    } else if d == 5 {
        '5'
    } else if d == 6 {
        '6'
    } else if d == 7 {
        '7'
    } else if d == 8 {
        '8'
    } else {
        '9'
    }
}

/// The shortest decimal numeral for `n`.
pub open spec fn dec_str(n: nat) -> Seq<char>
    decreases n,
{
    if n < 10 {
        seq![digit_char(n)]
    } else {
        dec_str(n / 10).push(digit_char(n % 10))
    }
}

fn digit_str(d: usize) -> (r: &'static str)
    requires
        d < 10,
    ensures
        r@ == seq![digit_char(d as nat)],
{
    proof {
        reveal_strlit("0");
        reveal_strlit("1");
        reveal_strlit("2");
        reveal_strlit("3");
        reveal_strlit("4");
        reveal_strlit("5");
        reveal_strlit("6");
        reveal_strlit("7");
        reveal_strlit("8");
        reveal_strlit("9");
    }
    let r: &'static str = if d == 0 {
        "0"
    } else if d == 1 {
        "1"
    } else if d == 2 {
        "2"
    } else if d == 3 {
        "3"
    } else if d == 4 {
        "4"
    } else if d == 5 {
        "5"
    } else if d == 6 {
        "6"
    } else if d == 7 {
        "7"
    } else if d == 8 {
        "8"
    } else {
        "9"
    };
    proof {
        assert(r@ =~= seq![digit_char(d as nat)]);
    }
    r
}

/// Writes `n` in decimal.
pub fn to_decimal(n: usize) -> (r: String)
    ensures
        r@ == dec_str(n as nat),
    decreases n,
{
    if n < 10 {
        String::from_str(digit_str(n))
    } else {
        let mut r = to_decimal(n / 10);
        r.append(digit_str(n % 10));
        proof {
            assert(r@ =~= dec_str((n / 10) as nat).push(digit_char((n % 10) as nat)));
        }
        r
    }
}

/// `k` copies of `c`.
pub open spec fn repeat_char(c: char, k: nat) -> Seq<char> {
    Seq::new(k, |i: int| c)
}

/// A run of `k` spaces.
pub fn spaces(k: usize) -> (r: String)
    ensures
        r@ == repeat_char(' ', k as nat),
{
    proof {
        reveal_strlit(" ");
    }
    let mut r = String::new();
    let mut i: usize = 0;
    while i < k
        invariant
            i <= k,
            r@ =~= repeat_char(' ', i as nat),
        decreases k - i,
    {
        proof {
            reveal_strlit(" ");
        }
        r.append(" ");
        proof {
            assert(r@ =~= repeat_char(' ', (i + 1) as nat));
        }
        i += 1;
    }
    proof {
        assert(r@ =~= repeat_char(' ', k as nat));
    }
    r
}

/// A run of `k` dashes.
pub fn dashes(k: usize) -> (r: String)
    ensures
        r@ == repeat_char('-', k as nat),
{
    let mut r = String::new();
    let mut i: usize = 0;
    while i < k
        invariant
            i <= k,
            r@ =~= repeat_char('-', i as nat),
        decreases k - i,
    {
        proof {
            reveal_strlit("-");
        }
        r.append("-");
        proof {
            assert(r@ =~= repeat_char('-', (i + 1) as nat));
        }
        i += 1;
    }
    proof {
        assert(r@ =~= repeat_char('-', k as nat));
    }
    r
}

/// `s` preceded by enough spaces to reach width `w` (right-aligned).
pub open spec fn left_padded(s: Seq<char>, w: nat) -> Seq<char> {
    repeat_char(' ', if s.len() >= w { 0 } else { (w - s.len()) as nat }) + s
}

/// `s` followed by enough spaces to reach width `w` (left-aligned).
pub open spec fn right_padded(s: Seq<char>, w: nat) -> Seq<char> {
    s + repeat_char(' ', if s.len() >= w { 0 } else { (w - s.len()) as nat })
}

/// Right-aligns `s` in a field of `w` characters.
pub fn pad_left(s: &str, w: usize) -> (r: String)
    ensures
        r@ == left_padded(s@, w as nat),
{
    let n = s.unicode_len();
    let mut r = if n >= w {
        spaces(0)
    } else {
        spaces(w - n)
    };
    r.append(s);
    r
}

/// Left-aligns `s` in a field of `w` characters.
pub fn pad_right(s: &str, w: usize) -> (r: String)
    ensures
        r@ == right_padded(s@, w as nat),
{
    let n = s.unicode_len();
    let mut r = String::from_str(s);
    let pad = if n >= w {
        spaces(0)
    } else {
        spaces(w - n)
    };
    r.append(pad.as_str());
    r
}

/// The index of the last occurrence of `c` in `s`, or minus one.
pub open spec fn last_index_of(s: Seq<char>, c: char) -> int
    decreases s.len(),
{
    if s.len() == 0 {
        -1
    } else if s.last() == c {
        s.len() - 1
    } else {
        last_index_of(s.drop_last(), c)
    }
}

/// The last index lies inside the string and, when present, holds `c`.
pub proof fn lemma_last_index_of_bounds(s: Seq<char>, c: char)
    ensures
        -1 <= last_index_of(s, c) < s.len(),
        last_index_of(s, c) >= 0 ==> s[last_index_of(s, c)] == c,
    decreases s.len(),
{
    if s.len() > 0 && s.last() != c {
        lemma_last_index_of_bounds(s.drop_last(), c);
    }
}

/// Finds the last occurrence of `c` in `s`.
pub fn rfind_char(s: &str, c: char) -> (r: Option<usize>)
    ensures
        r == if last_index_of(s@, c) >= 0 {
            Some(last_index_of(s@, c) as usize)
        } else {
            None::<usize>
        },
{
    let n = s.unicode_len();
    let mut i: usize = n;
    proof {
        assert(s@.take(n as int) =~= s@);
    }
    while i > 0
        invariant
            i <= n,
            n == s@.len(),
            last_index_of(s@, c) == last_index_of(s@.take(i as int), c),
        decreases i,
    {
        let j = i - 1;
        proof {
            assert(s@.take(i as int).last() == s@[j as int]);
            assert(s@.take(i as int).drop_last() =~= s@.take(j as int));
        }
        if s.get_char(j) == c {
            return Some(j);
        }
        i = j;
    }
    None
}

/// `path` with its trailing slashes removed.
pub open spec fn strip_trailing_slashes(path: Seq<char>) -> Seq<char>
    decreases path.len(),
{
    if path.len() > 0 && path.last() == '/' {
        strip_trailing_slashes(path.drop_last())
    } else {
        path
    }
}

/// The component of `path` after its last slash, trailing slashes ignored
/// (so `a/b/` names `b`).
pub open spec fn file_name_of(path: Seq<char>) -> Seq<char> {
    let p = strip_trailing_slashes(path);
    p.skip(last_index_of(p, '/') + 1)
}

/// The file name of `path` with a trailing extension removed: everything
/// before the last dot, unless that dot starts the name or the name is
/// empty. A component written entirely of dots is read as an ordinary
/// name.
pub open spec fn file_stem_of(path: Seq<char>) -> Option<Seq<char>> {
    let name = file_name_of(path);
    if name.len() == 0 {
        None
    } else {
        let d = last_index_of(name, '.');
        if d > 0 {
            Some(name.take(d))
        } else {
            Some(name)
        }
    }
}

/// The stem of the file `path` names.
pub fn file_stem(path: &str) -> (r: Option<String>)
    ensures
        r is None <==> file_stem_of(path@) is None,
        r matches Some(v) ==> file_stem_of(path@) == Some(v@),
{
    let n = path.unicode_len();
    let mut end: usize = n;
    proof {
        assert(strip_trailing_slashes(path@) == strip_trailing_slashes(path@.take(n as int))) by {
            assert(path@.take(n as int) =~= path@);
        }
    }
    while end > 0 && path.get_char(end - 1) == '/'
        invariant
            end <= n,
            n == path@.len(),
            strip_trailing_slashes(path@) == strip_trailing_slashes(path@.take(end as int)),
        decreases end,
    {
        proof {
            assert(path@.take(end as int).last() == path@[end - 1]);
            assert(path@.take(end as int).drop_last() =~= path@.take(end - 1));
        }
        end = end - 1;
    }
    let trimmed = path.substring_char(0, end);
    proof {
        assert(trimmed@ =~= path@.take(end as int));
        assert(strip_trailing_slashes(trimmed@) == trimmed@);
        lemma_last_index_of_bounds(trimmed@, '/');
    }
    let name_start: usize = match rfind_char(trimmed, '/') {
        Some(i) => i + 1,
        None => 0,
    };
    let name = trimmed.substring_char(name_start, end);
    proof {
        assert(name@ =~= file_name_of(path@));
        lemma_last_index_of_bounds(name@, '.');
    }
    if name_start == end {
        return None;
    }
    match rfind_char(name, '.') {
        Some(d) => {
            if d > 0 {
                Some(String::from_str(name.substring_char(0, d)))
            } else {
                Some(String::from_str(name))
            }
        },
        None => Some(String::from_str(name)),
    }
}

} // verus!
