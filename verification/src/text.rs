//! Character-sequence toolkit shared by the renderers: trimming, splitting,
//! line breaking, joining and decimal formatting, each with the meaning of
//! the `str` method it stands for.

use vstd::prelude::*;

verus! {

// ── conversions between `str` and character vectors ───────────────────────

/// `str::chars` collected into a vector (std): the characters of `s`, in order.
#[verifier::external_body]
pub fn chars_of(s: &str) -> (v: Vec<char>)
    ensures
        v@ == s@,
{
    s.chars().collect()
}

/// `String: FromIterator<&char>` (std): a string holding exactly `v`.
#[verifier::external_body]
pub fn string_of(v: &[char]) -> (s: String)
    ensures
        s@ == v@,
{
    v.iter().collect()
}

/// What `String::from_utf8_lossy` makes of a byte string: its UTF-8
/// decoding with each invalid sequence replaced by U+FFFD.
pub uninterp spec fn utf8_lossy_decode(b: Seq<u8>) -> Seq<char>;

/// `String::from_utf8_lossy` (std), owned. Bytes that are all ASCII are
/// valid UTF-8 and decode one character per byte.
#[verifier::external_body]
pub fn utf8_lossy(b: &[u8]) -> (s: String)
    ensures
        s@ == utf8_lossy_decode(b@),
        (forall|i: int| 0 <= i < b@.len() ==> b@[i] < 128) ==> s@ == b@.map_values(
            |x: u8| x as char,
        ),
{
    String::from_utf8_lossy(b).into_owned()
}

/// What `str::to_lowercase` makes of a string: each character mapped to its
/// Unicode lowercase (context-sensitive for a final capital sigma).
pub uninterp spec fn unicode_lowercase(s: Seq<char>) -> Seq<char>;

/// `str::to_lowercase` (std). An all-ASCII string lowercases letter by
/// letter to ASCII.
#[verifier::external_body]
pub fn to_lowercase(s: &str) -> (r: String)
    ensures
        r@ == unicode_lowercase(s@),
        (forall|i: int| 0 <= i < s@.len() ==> (s@[i] as u32) < 128) ==> r@ == s@.map_values(
            |c: char| spec_ascii_lower(c),
        ),
{
    s.to_lowercase()
}

/// The Unicode `White_Space` property, which `char::is_whitespace` reports:
/// tab to carriage return, space, next line, no-break space, ogham space
/// mark, the spaces from en quad to hair space, line and paragraph
/// separators, narrow no-break space, medium mathematical space and
/// ideographic space.
pub open spec fn unicode_whitespace(c: char) -> bool {
    ||| '\u{9}' <= c <= '\u{d}'
    ||| c == ' '
    ||| c == '\u{85}'
    ||| c == '\u{a0}'
    ||| c == '\u{1680}'
    ||| '\u{2000}' <= c <= '\u{200a}'
    ||| c == '\u{2028}'
    ||| c == '\u{2029}'
    ||| c == '\u{202f}'
    ||| c == '\u{205f}'
    ||| c == '\u{3000}'
}

/// `char::is_whitespace`: whether `c` has the `White_Space` property.
pub fn is_whitespace(c: char) -> (b: bool)
    ensures
        b == unicode_whitespace(c),
{
    ('\u{9}' <= c && c <= '\u{d}') || c == ' ' || c == '\u{85}' || c == '\u{a0}' || c
        == '\u{1680}' || ('\u{2000}' <= c && c <= '\u{200a}') || c == '\u{2028}' || c
        == '\u{2029}' || c == '\u{202f}' || c == '\u{205f}' || c == '\u{3000}'
}

/// Unicode general category `Cc`: U+0000–U+001F and U+007F–U+009F, which is
/// what `char::is_control` tests.
pub open spec fn spec_is_control(c: char) -> bool {
    (c as u32) < 0x20 || (0x7f <= (c as u32) && (c as u32) <= 0x9f)
}

pub fn is_control(c: char) -> (b: bool)
    ensures
        b == spec_is_control(c),
{
    let u = c as u32;
    u < 0x20 || (0x7f <= u && u <= 0x9f)
}

/// ASCII lowercase of one character, as `char::to_ascii_lowercase`.
pub open spec fn spec_ascii_lower(c: char) -> char {
    if 'A' <= c && c <= 'Z' {
        ((c as u32) + 32) as char
    } else {
        c
    }
}

pub fn ascii_lower(c: char) -> (r: char)
    ensures
        r == spec_ascii_lower(c),
{
    if 'A' <= c && c <= 'Z' {
        let u = (c as u32) + 32;
        assert(0x61 <= u && u <= 0x7a);
        char_from_ascii(u)
    } else {
        c
    }
}

/// An ASCII code point as a `char`.
fn char_from_ascii(u: u32) -> (c: char)
    requires
        u < 128,
    ensures
        c as u32 == u,
        c == u as char,
{
    let b = u as u8;
    b as char
}

// ── trimming ────────────────────────────────────────────────────────────────

/// The characters a trim removes: whitespace, and `'.'` too when `dots`.
pub open spec fn trims(c: char, dots: bool) -> bool {
    unicode_whitespace(c) || (dots && c == '.')
}

pub open spec fn trim_start_by(s: Seq<char>, dots: bool) -> Seq<char>
    decreases s.len(),
{
    if s.len() > 0 && trims(s[0], dots) {
        trim_start_by(s.drop_first(), dots)
    } else {
        s
    }
}

pub open spec fn trim_end_by(s: Seq<char>, dots: bool) -> Seq<char>
    decreases s.len(),
{
    if s.len() > 0 && trims(s.last(), dots) {
        trim_end_by(s.drop_last(), dots)
    } else {
        s
    }
}

/// `str::trim` (whitespace only) or, with `dots`, `trim_matches` over
/// whitespace and `'.'`.
pub open spec fn trim_by(s: Seq<char>, dots: bool) -> Seq<char> {
    trim_end_by(trim_start_by(s, dots), dots)
}

pub open spec fn spec_trim(s: Seq<char>) -> Seq<char> {
    trim_by(s, false)
}

fn trims_exec(c: char, dots: bool) -> (b: bool)
    ensures
        b == trims(c, dots),
{
    is_whitespace(c) || (dots && c == '.')
}

proof fn lemma_trim_start_skip(s: Seq<char>, i: int, dots: bool)
    requires
        0 <= i < s.len(),
        trims(s[i], dots),
    ensures
        trim_start_by(s.subrange(i, s.len() as int), dots) == trim_start_by(
            s.subrange(i + 1, s.len() as int),
            dots,
        ),
{
    assert(s.subrange(i, s.len() as int).drop_first() =~= s.subrange(i + 1, s.len() as int));
}

proof fn lemma_trim_end_skip(s: Seq<char>, j: int, dots: bool)
    requires
        0 < j <= s.len(),
        trims(s[j - 1], dots),
    ensures
        trim_end_by(s.subrange(0, j), dots) == trim_end_by(s.subrange(0, j - 1), dots),
{
    assert(s.subrange(0, j).drop_last() =~= s.subrange(0, j - 1));
}

/// Trim a character slice, as `trim` (or `trim_matches` with dots) does.
pub fn trim_chars(s: &[char], dots: bool) -> (r: Vec<char>)
    ensures
        r@ == trim_by(s@, dots),
{
    let n = s.len();
    let mut i: usize = 0;
    assert(s@.subrange(0, n as int) =~= s@);
    while i < n && trims_exec(s[i], dots)
        invariant
            n == s@.len(),
            i <= n,
            trim_start_by(s@, dots) == trim_start_by(s@.subrange(i as int, n as int), dots),
        decreases n - i,
    {
        proof {
            lemma_trim_start_skip(s@, i as int, dots);
        }
        i = i + 1;
    }
    let ghost rest = s@.subrange(i as int, n as int);
    assert(trim_start_by(rest, dots) == rest);
    let mut j: usize = n;
    while j > i && trims_exec(s[j - 1], dots)
        invariant
            n == s@.len(),
            i <= j <= n,
            rest == s@.subrange(i as int, n as int),
            trim_end_by(rest, dots) == trim_end_by(s@.subrange(i as int, j as int), dots),
        decreases j,
    {
        proof {
            let t = s@.subrange(i as int, j as int);
            lemma_trim_end_skip(t, (j - i) as int, dots);
            assert(t.subrange(0, (j - i) as int) =~= t);
            assert(t.subrange(0, (j - i - 1) as int) =~= s@.subrange(i as int, (j - 1) as int));
        }
        j = j - 1;
    }
    let mut r: Vec<char> = Vec::new();
    let mut k: usize = i;
    while k < j
        invariant
            i <= k <= j <= n,
            n == s@.len(),
            r@ =~= s@.subrange(i as int, k as int),
        decreases j - k,
    {
        r.push(s[k]);
        k = k + 1;
    }
    r
}

/// `str::trim` on a string, as a character vector.
pub fn trim_str(s: &str) -> (r: Vec<char>)
    ensures
        r@ == spec_trim(s@),
{
    let v = chars_of(s);
    trim_chars(v.as_slice(), false)
}


/// The character sequences held by a vector of character vectors.
pub open spec fn views(v: Seq<Vec<char>>) -> Seq<Seq<char>> {
    v.map_values(|x: Vec<char>| x@)
}

// ── searching and splitting ────────────────────────────────────────────────

/// `pat` occurs in `s` starting at index `i`.
pub open spec fn matches_at(s: Seq<char>, pat: Seq<char>, i: int) -> bool {
    0 <= i && i + pat.len() <= s.len() && s.subrange(i, i + pat.len()) == pat
}

/// The first index at or after `i` where `pat` occurs in `s`.
pub open spec fn find_from(s: Seq<char>, pat: Seq<char>, i: int) -> Option<int>
    decreases s.len() + 1 - i,
{
    if i < 0 || i + pat.len() > s.len() {
        None
    } else if matches_at(s, pat, i) {
        Some(i)
    } else {
        find_from(s, pat, i + 1)
    }
}

/// `s` contains `pat`, as `str::contains` with a string pattern.
pub open spec fn contains_seq(s: Seq<char>, pat: Seq<char>) -> bool {
    exists|i: int| matches_at(s, pat, i)
}

pub proof fn lemma_find_from(s: Seq<char>, pat: Seq<char>, i: int)
    requires
        0 <= i,
    ensures
        find_from(s, pat, i) matches Some(k) ==> {
            &&& i <= k
            &&& matches_at(s, pat, k)
            &&& forall|j: int| i <= j < k ==> !matches_at(s, pat, j)
        },
        find_from(s, pat, i) is None ==> forall|j: int| i <= j ==> !matches_at(s, pat, j),
    decreases s.len() + 1 - i,
{
    if i + pat.len() > s.len() {
    } else if matches_at(s, pat, i) {
    } else {
        lemma_find_from(s, pat, i + 1);
    }
}

/// Whether `pat` occurs at index `i` of `s`.
pub fn matches_at_exec(s: &[char], pat: &[char], i: usize) -> (b: bool)
    ensures
        b == matches_at(s@, pat@, i as int),
{
    let n = s.len();
    if i > n || pat.len() > n - i {
        return false;
    }
    let mut k: usize = 0;
    while k < pat.len()
        invariant
            n == s@.len(),
            i + pat@.len() <= n,
            k <= pat@.len(),
            forall|m: int| 0 <= m < k ==> s@[i + m] == pat@[m],
        decreases pat.len() - k,
    {
        if s[i + k] != pat[k] {
            assert(s@.subrange(i as int, i + pat@.len())[k as int] != pat@[k as int]);
            return false;
        }
        k = k + 1;
    }
    assert(s@.subrange(i as int, i + pat@.len()) =~= pat@);
    true
}

/// The first index at or after `from` where `pat` occurs.
pub fn find_from_exec(s: &[char], pat: &[char], from: usize) -> (r: Option<usize>)
    requires
        pat@.len() > 0,
    ensures
        r matches Some(k) ==> find_from(s@, pat@, from as int) == Some(k as int),
        r is None ==> find_from(s@, pat@, from as int) is None,
{
    let mut i = from;
    while i <= s.len() && pat.len() <= s.len() - i
        invariant
            pat@.len() > 0,
            from <= i,
            find_from(s@, pat@, from as int) == find_from(s@, pat@, i as int),
        decreases s.len() + 1 - i,
    {
        if matches_at_exec(s, pat, i) {
            return Some(i);
        }
        i = i + 1;
    }
    None
}

/// `str::contains` with a string pattern.
pub fn contains_exec(s: &[char], pat: &[char]) -> (b: bool)
    requires
        pat@.len() > 0,
    ensures
        b == contains_seq(s@, pat@),
{
    let r = find_from_exec(s, pat, 0);
    proof {
        lemma_find_from(s@, pat@, 0);
    }
    r.is_some()
}

/// `s.split(pat)` over the suffix starting at `start` (`pat` non-empty).
pub open spec fn split_from(s: Seq<char>, pat: Seq<char>, start: int) -> Seq<Seq<char>>
    decreases s.len() - start,
{
    if pat.len() == 0 || start < 0 || start > s.len() {
        Seq::empty()
    } else {
        match find_from(s, pat, start) {
            Some(k) => {
                proof {
                    lemma_find_from(s, pat, start);
                }
                seq![s.subrange(start, k)] + split_from(s, pat, k + pat.len())
            },
            None => seq![s.subrange(start, s.len() as int)],
        }
    }
}

/// `str::split` with a non-empty string pattern.
pub open spec fn split(s: Seq<char>, pat: Seq<char>) -> Seq<Seq<char>> {
    split_from(s, pat, 0)
}

pub fn sub_vec(s: &[char], a: usize, b: usize) -> (r: Vec<char>)
    requires
        a <= b <= s@.len(),
    ensures
        r@ == s@.subrange(a as int, b as int),
{
    let mut r: Vec<char> = Vec::new();
    let mut k = a;
    while k < b
        invariant
            a <= k <= b <= s@.len(),
            r@ =~= s@.subrange(a as int, k as int),
        decreases b - k,
    {
        r.push(s[k]);
        k = k + 1;
    }
    r
}

/// Split `s` on every (non-overlapping, left to right) occurrence of `pat`.
pub fn split_exec(s: &[char], pat: &[char]) -> (r: Vec<Vec<char>>)
    requires
        pat@.len() > 0,
    ensures
        views(r@) == split(s@, pat@),
{
    let mut out: Vec<Vec<char>> = Vec::new();
    let mut start: usize = 0;
    let n = s.len();
    loop
        invariant
            n == s@.len(),
            pat@.len() > 0,
            start <= s@.len(),
            views(out@) + split_from(s@, pat@, start as int) == split(s@, pat@),
        decreases s@.len() - start,
    {
        match find_from_exec(s, pat, start) {
            Some(k) => {
                proof {
                    lemma_find_from(s@, pat@, start as int);
                    assert(matches_at(s@, pat@, k as int));
                }
                let piece = sub_vec(s, start, k);
                let ghost old_out = views(out@);
                out.push(piece);
                assert(views(out@) =~= old_out.push(piece@));
                assert(old_out + split_from(s@, pat@, start as int) =~= old_out.push(piece@)
                    + split_from(s@, pat@, (k + pat.len()) as int));
                start = k + pat.len();
            },
            None => {
                let piece = sub_vec(s, start, s.len());
                let ghost old_out = views(out@);
                out.push(piece);
                assert(views(out@) =~= old_out.push(piece@));
                assert(views(out@) =~= old_out + split_from(s@, pat@, start as int));
                return out;
            },
        }
    }
}

// ── lines ──────────────────────────────────────────────────────────────────

/// Drop one trailing `'\r'`.
pub open spec fn strip_cr(p: Seq<char>) -> Seq<char> {
    if p.len() > 0 && p.last() == '\r' {
        p.drop_last()
    } else {
        p
    }
}

/// `str::lines` over the suffix from `start`: pieces between `'\n'`s, a
/// `'\r'` before a `'\n'` dropped, and no empty piece after a final `'\n'`.
pub open spec fn lines_from(s: Seq<char>, start: int) -> Seq<Seq<char>>
    decreases s.len() - start,
{
    if start < 0 || start >= s.len() {
        Seq::empty()
    } else {
        match find_from(s, seq!['\n'], start) {
            Some(k) => {
                proof {
                    lemma_find_from(s, seq!['\n'], start);
                }
                seq![strip_cr(s.subrange(start, k))] + lines_from(s, k + 1)
            },
            None => seq![s.subrange(start, s.len() as int)],
        }
    }
}

pub open spec fn lines(s: Seq<char>) -> Seq<Seq<char>> {
    lines_from(s, 0)
}

fn strip_cr_exec(p: Vec<char>) -> (r: Vec<char>)
    ensures
        r@ == strip_cr(p@),
{
    let mut p = p;
    if p.len() > 0 && p[p.len() - 1] == '\r' {
        p.pop();
    }
    p
}

/// `str::lines`.
pub fn lines_exec(s: &[char]) -> (r: Vec<Vec<char>>)
    ensures
        views(r@) == lines(s@),
{
    let nl = ['\n'];
    let mut out: Vec<Vec<char>> = Vec::new();
    let mut start: usize = 0;
    assert(nl@ =~= seq!['\n']);
    while start < s.len()
        invariant
            nl@ == seq!['\n'],
            start <= s@.len(),
            views(out@) + lines_from(s@, start as int) == lines(s@),
        decreases s@.len() - start,
    {
        match find_from_exec(s, &nl, start) {
            Some(k) => {
                proof {
                    lemma_find_from(s@, seq!['\n'], start as int);
                }
                let piece = strip_cr_exec(sub_vec(s, start, k));
                let ghost old_out = views(out@);
                out.push(piece);
                assert(views(out@) =~= old_out.push(piece@));
                assert(old_out + lines_from(s@, start as int) =~= old_out.push(piece@)
                    + lines_from(s@, (k + 1) as int));
                start = k + 1;
            },
            None => {
                let piece = sub_vec(s, start, s.len());
                let ghost old_out = views(out@);
                out.push(piece);
                assert(views(out@) =~= old_out.push(piece@));
                assert(views(out@) =~= old_out + lines_from(s@, start as int));
                return out;
            },
        }
    }
    assert(views(out@) =~= views(out@) + lines_from(s@, start as int));
    out
}

// ── joining ────────────────────────────────────────────────────────────────

/// `[T]::join(sep)` on strings.
pub open spec fn join(parts: Seq<Seq<char>>, sep: Seq<char>) -> Seq<char>
    decreases parts.len(),
{
    if parts.len() == 0 {
        Seq::empty()
    } else if parts.len() == 1 {
        parts[0]
    } else {
        join(parts.drop_last(), sep) + sep + parts.last()
    }
}

pub fn join_exec(parts: &Vec<Vec<char>>, sep: &[char]) -> (r: Vec<char>)
    ensures
        r@ == join(views(parts@), sep@),
{
    let mut out: Vec<char> = Vec::new();
    let mut i: usize = 0;
    while i < parts.len()
        invariant
            i <= parts@.len(),
            out@ == join(views(parts@).subrange(0, i as int), sep@),
        decreases parts.len() - i,
    {
        let ghost prev = views(parts@).subrange(0, i as int);
        let ghost next = views(parts@).subrange(0, i + 1);
        assert(next.drop_last() =~= prev);
        if i > 0 {
            push_all(&mut out, sep);
        }
        push_all(&mut out, parts[i].as_slice());
                i = i + 1;
    }
    assert(views(parts@).subrange(0, i as int) =~= views(parts@));
    out
}

/// Append every character of `src` to `out`.
pub fn push_all(out: &mut Vec<char>, src: &[char])
    ensures
        final(out)@ == old(out)@ + src@,
{
    let mut k: usize = 0;
    while k < src.len()
        invariant
            k <= src@.len(),
            out@ =~= old(out)@ + src@.subrange(0, k as int),
        decreases src.len() - k,
    {
        out.push(src[k]);
        k = k + 1;
    }
    assert(src@.subrange(0, k as int) =~= src@);
}

/// Append every character of `src` to `out`.
pub fn push_str(out: &mut Vec<char>, src: &str)
    ensures
        final(out)@ == old(out)@ + src@,
{
    let v = chars_of(src);
    push_all(out, v.as_slice());
}

// ── decimal formatting ─────────────────────────────────────────────────────

/// Integer division rounding toward zero, as Rust's `/` on signed integers.
pub open spec fn tdiv(a: int, b: int) -> int {
    if a >= 0 {
        a / b
    } else {
        -((-a) / b)
    }
}

/// The remainder that goes with `tdiv`, as Rust's `%` on signed integers.
pub open spec fn trem(a: int, b: int) -> int {
    a - b * tdiv(a, b)
}

/// `a / b` and `a % b` on `i64` with a positive divisor.
pub fn div_rem_i64(a: i64, b: i64) -> (r: (i64, i64))
    requires
        b > 0,
    ensures
        r.0 == tdiv(a as int, b as int),
        r.1 == trem(a as int, b as int),
        -b < r.1 < b,
        a >= 0 ==> 0 <= r.1,
        a < 0 ==> r.1 <= 0,
{
    let q = a / b;
    let ghost ai = a as int;
    let ghost bi = b as int;
    let ghost qi = q as int;
    proof {
        if ai >= 0 {
            assert(qi == ai / bi);
            assert(0 <= ai - bi * qi < bi) by (nonlinear_arith)
                requires
                    ai >= 0,
                    bi > 0,
                    qi == ai / bi,
            ;
        } else {
            assert(qi == -((-ai) / bi));
            assert(-bi < ai - bi * qi <= 0) by (nonlinear_arith)
                requires
                    ai < 0,
                    bi > 0,
                    qi == -((-ai) / bi),
            ;
        }
        let t = bi * qi;
        assert(-0x1_0000_0000_0000_0000 <= t <= 0x1_0000_0000_0000_0000);
    }
    let m: i128 = (a as i128) - (b as i128) * (q as i128);
    (q, m as i64)
}

/// The ASCII digit for `d < 10`.
pub open spec fn digit_char(d: nat) -> char {
    (48 + d) as char
}

/// Base-10 digits of `n`, most significant first, no leading zeros.
pub open spec fn spec_decimal(n: nat) -> Seq<char>
    decreases n,
{
    if n < 10 {
        seq![digit_char(n)]
    } else {
        spec_decimal(n / 10).push(digit_char(n % 10))
    }
}

/// `{}` of an integer: a `'-'` before the digits of a negative number.
pub open spec fn spec_int_str(n: int) -> Seq<char> {
    if n < 0 {
        seq!['-'] + spec_decimal((-n) as nat)
    } else {
        spec_decimal(n as nat)
    }
}

/// `n` zero-padded on the left to at least `w` digits (`{:0w}` for `n >= 0`).
pub open spec fn spec_pad_nat(n: nat, w: nat) -> Seq<char> {
    let d = spec_decimal(n);
    if d.len() < w {
        Seq::new((w - d.len()) as nat, |_i: int| '0') + d
    } else {
        d
    }
}

/// `{:02}` of an integer: zero padding after the sign to width 2.
pub open spec fn spec_pad2(n: int) -> Seq<char> {
    if n < 0 {
        spec_int_str(n)
    } else {
        spec_pad_nat(n as nat, 2)
    }
}

pub proof fn lemma_decimal_len(n: nat)
    ensures
        spec_decimal(n).len() >= 1,
        n < 10 ==> spec_decimal(n).len() == 1,
        10 <= n < 100 ==> spec_decimal(n).len() == 2,
    decreases n,
{
    if n >= 10 {
        lemma_decimal_len(n / 10);
    }
}

fn digit_exec(d: u64) -> (c: char)
    requires
        d < 10,
    ensures
        c == digit_char(d as nat),
{
    char_from_ascii((48 + d) as u32)
}

/// Decimal digits of an unsigned integer.
pub fn decimal_u64(n: u64) -> (r: Vec<char>)
    ensures
        r@ == spec_decimal(n as nat),
    decreases n,
{
    if n < 10 {
        let mut v: Vec<char> = Vec::new();
        v.push(digit_exec(n));
        assert(v@ =~= seq![digit_char(n as nat)]);
        v
    } else {
        let mut v = decimal_u64(n / 10);
        v.push(digit_exec(n % 10));
        v
    }
}

/// `{}` of an `i64`.
pub fn int_str(n: i64) -> (r: Vec<char>)
    ensures
        r@ == spec_int_str(n as int),
{
    if n < 0 {
        let m: u64 = (0i128 - (n as i128)) as u64;
        let mut r: Vec<char> = Vec::new();
        r.push('-');
        let d = decimal_u64(m);
        push_all(&mut r, d.as_slice());
        assert(r@ =~= seq!['-'] + spec_decimal((-(n as int)) as nat));
        r
    } else {
        decimal_u64(n as u64)
    }
}

/// A non-negative integer zero-padded to at least `w` digits.
pub fn pad_nat(n: u64, w: usize) -> (r: Vec<char>)
    ensures
        r@ == spec_pad_nat(n as nat, w as nat),
{
    let d = decimal_u64(n);
    if d.len() < w {
        let mut r: Vec<char> = Vec::new();
        let k = w - d.len();
        let mut i: usize = 0;
        while i < k
            invariant
                i <= k,
                r@ =~= Seq::new(i as nat, |_j: int| '0'),
            decreases k - i,
        {
            r.push('0');
            i = i + 1;
        }
        push_all(&mut r, d.as_slice());
        r
    } else {
        d
    }
}

/// `{:02}` of an `i64`.
pub fn pad2(n: i64) -> (r: Vec<char>)
    ensures
        r@ == spec_pad2(n as int),
{
    if n < 0 {
        int_str(n)
    } else {
        pad_nat(n as u64, 2)
    }
}

// ── prefixes, suffixes, escaping ───────────────────────────────────────────

pub open spec fn starts_with(s: Seq<char>, p: Seq<char>) -> bool {
    p.len() <= s.len() && s.subrange(0, p.len() as int) == p
}

pub open spec fn ends_with(s: Seq<char>, p: Seq<char>) -> bool {
    p.len() <= s.len() && s.subrange(s.len() - p.len(), s.len() as int) == p
}

pub fn starts_with_exec(s: &[char], p: &[char]) -> (b: bool)
    ensures
        b == starts_with(s@, p@),
{
    matches_at_exec(s, p, 0)
}

pub fn ends_with_exec(s: &[char], p: &[char]) -> (b: bool)
    ensures
        b == ends_with(s@, p@),
{
    if p.len() > s.len() {
        false
    } else {
        matches_at_exec(s, p, s.len() - p.len())
    }
}

/// Replace every occurrence of one character by a string, as
/// `str::replace(char, &str)`.
pub open spec fn replace_char(s: Seq<char>, from: char, to: Seq<char>) -> Seq<char>
    decreases s.len(),
{
    if s.len() == 0 {
        Seq::empty()
    } else {
        replace_char(s.drop_last(), from, to) + (if s.last() == from {
            to
        } else {
            seq![s.last()]
        })
    }
}

pub fn replace_char_exec(s: &[char], from: char, to: &[char]) -> (r: Vec<char>)
    ensures
        r@ == replace_char(s@, from, to@),
{
    let mut out: Vec<char> = Vec::new();
    let mut i: usize = 0;
    while i < s.len()
        invariant
            i <= s@.len(),
            out@ == replace_char(s@.subrange(0, i as int), from, to@),
        decreases s.len() - i,
    {
        let c = s[i];
        assert(s@.subrange(0, i + 1).drop_last() =~= s@.subrange(0, i as int));
        if c == from {
            push_all(&mut out, to);
        } else {
            out.push(c);
            assert(out@ =~= replace_char(s@.subrange(0, i as int), from, to@) + seq![c]);
        }
        i = i + 1;
    }
    assert(s@.subrange(0, i as int) =~= s@);
    out
}

// ── equality ───────────────────────────────────────────────────────────────

pub fn chars_eq(a: &[char], b: &[char]) -> (r: bool)
    ensures
        r == (a@ == b@),
{
    if a.len() != b.len() {
        return false;
    }
    let mut i: usize = 0;
    while i < a.len()
        invariant
            a@.len() == b@.len(),
            i <= a@.len(),
            forall|k: int| 0 <= k < i ==> a@[k] == b@[k],
        decreases a.len() - i,
    {
        if a[i] != b[i] {
            return false;
        }
        i = i + 1;
    }
    assert(a@ =~= b@);
    true
}

/// String equality, as `==` on `str`.
pub fn str_eq(a: &str, b: &str) -> (r: bool)
    ensures
        r == (a@ == b@),
{
    let va = chars_of(a);
    let vb = chars_of(b);
    chars_eq(va.as_slice(), vb.as_slice())
}

/// A string from a character vector followed by a literal.
pub fn concat_str(mut out: Vec<char>, tail: &str) -> (r: Vec<char>)
    ensures
        r@ == out@ + tail@,
{
    push_str(&mut out, tail);
    out
}

// ── whitespace runs ───────────────────────────────────────────────────────

/// `str::split_whitespace`: the maximal runs of non-whitespace characters.
pub open spec fn words(s: Seq<char>) -> Seq<Seq<char>>
    decreases s.len(),
{
    if s.len() == 0 {
        Seq::empty()
    } else {
        let w = words(s.drop_last());
        let c = s.last();
        if unicode_whitespace(c) {
            w
        } else if s.len() >= 2 && !unicode_whitespace(s[s.len() - 2]) {
            w.update(w.len() - 1, w.last().push(c))
        } else {
            w.push(seq![c])
        }
    }
}

/// A string that ends in a non-whitespace character has a word.
pub proof fn lemma_words_nonempty(s: Seq<char>)
    requires
        s.len() > 0,
        !unicode_whitespace(s.last()),
    ensures
        words(s).len() > 0,
    decreases s.len(),
{
    if s.len() >= 2 && !unicode_whitespace(s[s.len() - 2]) {
        lemma_words_nonempty(s.drop_last());
    }
}

/// Extending the last part extends the joined string.
pub proof fn lemma_join_extend_last(parts: Seq<Seq<char>>, sep: Seq<char>, c: char)
    requires
        parts.len() > 0,
    ensures
        join(parts.update(parts.len() - 1, parts.last().push(c)), sep) == join(parts, sep).push(c),
{
    let q = parts.update(parts.len() - 1, parts.last().push(c));
    if parts.len() >= 2 {
        assert(q.drop_last() =~= parts.drop_last());
        assert(join(q, sep) =~= join(parts, sep).push(c));
    }
}

/// `split_whitespace().collect::<Vec<_>>().join(" ")`: the words of `s`
/// separated by single spaces.
pub fn collapse_whitespace(s: &[char]) -> (r: Vec<char>)
    ensures
        r@ == join(words(s@), " "@),
{
    proof {
        reveal_strlit(" ");
    }
    let mut out: Vec<char> = Vec::new();
    let mut have_word = false;
    let mut i: usize = 0;
    while i < s.len()
        invariant
            i <= s@.len(),
            " "@ == seq![' '],
            out@ == join(words(s@.subrange(0, i as int)), " "@),
            have_word == (words(s@.subrange(0, i as int)).len() > 0),
        decreases s.len() - i,
    {
        let c = s[i];
        let ghost pre = s@.subrange(0, i as int);
        let ghost cur = s@.subrange(0, i + 1);
        assert(cur.drop_last() =~= pre);
        assert(cur.last() == c);
        if is_whitespace(c) {
        } else if i > 0 && !is_whitespace(s[i - 1]) {
            assert(cur[cur.len() - 2] == s@[i - 1]);
            proof {
                assert(pre.last() == s@[i - 1]);
                lemma_words_nonempty(pre);
                lemma_join_extend_last(words(pre), " "@, c);
            }
            out.push(c);
        } else {
            if i > 0 {
                assert(cur[cur.len() - 2] == s@[i - 1]);
            }
            let ghost w = words(pre);
            if have_word {
                out.push(' ');
            }
            out.push(c);
            assert(w.push(seq![c]).drop_last() =~= w);
            assert(out@ =~= join(w.push(seq![c]), " "@));
            have_word = true;
        }
        i = i + 1;
    }
    assert(s@.subrange(0, i as int) =~= s@);
    out
}

/// The first `n` characters (all of them when fewer), as `chars().take(n)`.
pub open spec fn take_chars(s: Seq<char>, n: nat) -> Seq<char> {
    if s.len() <= n {
        s
    } else {
        s.subrange(0, n as int)
    }
}

pub fn take_chars_exec(s: &[char], n: usize) -> (r: Vec<char>)
    ensures
        r@ == take_chars(s@, n as nat),
{
    let k = if s.len() <= n {
        s.len()
    } else {
        n
    };
    let r = sub_vec(s, 0, k);
    assert(r@ =~= take_chars(s@, n as nat));
    r
}

// ── fixed-size pieces ──────────────────────────────────────────────────────

/// `[T]::chunks(n)`: consecutive pieces of `n` items, the last one shorter
/// when `n` does not divide the length; none for no items.
pub open spec fn chunks<A>(s: Seq<A>, n: nat) -> Seq<Seq<A>>
    decreases s.len(),
{
    if n == 0 || s.len() == 0 {
        Seq::empty()
    } else if s.len() <= n {
        seq![s]
    } else {
        seq![s.take(n as int)] + chunks(s.skip(n as int), n)
    }
}

/// The pieces put back together give the items; every piece is non-empty
/// and holds at most `n` items.
pub proof fn lemma_chunks<A>(s: Seq<A>, n: nat)
    requires
        n > 0,
    ensures
        chunks(s, n).flatten() == s,
        forall|i: int|
            0 <= i < chunks(s, n).len() ==> 0 < #[trigger] chunks(s, n)[i].len() <= n,
        s.len() > 0 ==> chunks(s, n).len() > 0,
    decreases s.len(),
{
    if s.len() == 0 {
    } else if s.len() <= n {
        let c = chunks(s, n);
        assert(c.drop_first() =~= Seq::<Seq<A>>::empty());
        assert(c.drop_first().flatten() =~= Seq::<A>::empty());
        assert(c.flatten() =~= s + Seq::<A>::empty());
    } else {
        lemma_chunks(s.skip(n as int), n);
        let c = chunks(s, n);
        let rest = chunks(s.skip(n as int), n);
        assert(c.drop_first() =~= rest);
        assert(c.first() == s.take(n as int));
        assert(s.take(n as int) + s.skip(n as int) =~= s);
        assert forall|i: int| 0 <= i < c.len() implies 0 < #[trigger] c[i].len() <= n by {
            if i > 0 {
                assert(c[i] == rest[i - 1]);
            }
        }
    }
}

// ── ordering strings ───────────────────────────────────────────────────────

/// `a` sorts before `b`: the `Ord` of `str`, which compares character by
/// character (by code point) and puts a proper prefix first.
pub open spec fn lex_lt(a: Seq<char>, b: Seq<char>) -> bool
    decreases a.len(),
{
    if a.len() == 0 {
        b.len() > 0
    } else if b.len() == 0 {
        false
    } else if a[0] != b[0] {
        (a[0] as int) < (b[0] as int)
    } else {
        lex_lt(a.drop_first(), b.drop_first())
    }
}

pub open spec fn lex_le(a: Seq<char>, b: Seq<char>) -> bool {
    a == b || lex_lt(a, b)
}

pub proof fn lemma_lex_total(a: Seq<char>, b: Seq<char>)
    ensures
        lex_lt(a, b) || a == b || lex_lt(b, a),
        !(lex_lt(a, b) && lex_lt(b, a)),
        !lex_lt(a, a),
    decreases a.len(),
{
    if a.len() > 0 && b.len() > 0 && a[0] == b[0] {
        lemma_lex_total(a.drop_first(), b.drop_first());
        if a.drop_first() == b.drop_first() {
            assert forall|i: int| 0 <= i < a.len() implies a[i] == b[i] by {
                if i > 0 {
                    assert(a[i] == a.drop_first()[i - 1]);
                    assert(b[i] == b.drop_first()[i - 1]);
                }
            }
            assert(a =~= b);
        }
    } else if a.len() == 0 && b.len() == 0 {
        assert(a =~= b);
    } else if a.len() > 0 && b.len() > 0 {
        assert((a[0] as int) != (b[0] as int));
    }
    if a.len() > 0 {
        lemma_lex_total(a.drop_first(), a.drop_first());
    }
}

pub proof fn lemma_lex_trans(a: Seq<char>, b: Seq<char>, c: Seq<char>)
    requires
        lex_lt(a, b),
        lex_lt(b, c),
    ensures
        lex_lt(a, c),
    decreases a.len(),
{
    if a.len() > 0 && b.len() > 0 && c.len() > 0 && a[0] == b[0] && b[0] == c[0] {
        lemma_lex_trans(a.drop_first(), b.drop_first(), c.drop_first());
    }
}

/// `lex_lt` computed.
pub fn lex_lt_exec(a: &[char], b: &[char]) -> (r: bool)
    ensures
        r == lex_lt(a@, b@),
{
    let mut i: usize = 0;
    assert(a@.skip(0) =~= a@);
    assert(b@.skip(0) =~= b@);
    while i < a.len() && i < b.len() && a[i] == b[i]
        invariant
            i <= a@.len(),
            i <= b@.len(),
            lex_lt(a@, b@) == lex_lt(a@.skip(i as int), b@.skip(i as int)),
        decreases a.len() - i,
    {
        assert(a@.skip(i as int).drop_first() =~= a@.skip(i + 1));
        assert(b@.skip(i as int).drop_first() =~= b@.skip(i + 1));
        i = i + 1;
    }
    if i == a.len() {
        i < b.len()
    } else if i == b.len() {
        false
    } else {
        a[i] < b[i]
    }
}

/// How many of `s` sort no later than `x`.
pub open spec fn count_not_after(s: Seq<Seq<char>>, x: Seq<char>) -> int
    decreases s.len(),
{
    if s.len() == 0 {
        0
    } else {
        count_not_after(s.drop_last(), x) + if lex_le(s.last(), x) {
            1int
        } else {
            0
        }
    }
}

/// `[String]::sort`: the strings in ascending order.
pub open spec fn sort_strings(s: Seq<Seq<char>>) -> Seq<Seq<char>>
    decreases s.len(),
{
    if s.len() == 0 {
        Seq::empty()
    } else {
        let p = sort_strings(s.drop_last());
        p.insert(count_not_after(p, s.last()), s.last())
    }
}

pub open spec fn strings_sorted(s: Seq<Seq<char>>) -> bool {
    forall|i: int, j: int| 0 <= i < j < s.len() ==> lex_le(s[i], s[j])
}

proof fn lemma_count_not_after(s: Seq<Seq<char>>, x: Seq<char>)
    requires
        strings_sorted(s),
    ensures
        0 <= count_not_after(s, x) <= s.len(),
        forall|i: int| 0 <= i < count_not_after(s, x) ==> lex_le(s[i], x),
        forall|i: int| count_not_after(s, x) <= i < s.len() ==> lex_lt(x, s[i]),
    decreases s.len(),
{
    if s.len() > 0 {
        let p = s.drop_last();
        assert(strings_sorted(p)) by {
            assert forall|i: int, j: int| 0 <= i < j < p.len() implies lex_le(p[i], p[j]) by {
                assert(p[i] == s[i] && p[j] == s[j]);
            }
        }
        lemma_count_not_after(p, x);
        let c = count_not_after(p, x);
        let l = s[s.len() - 1];
        lemma_lex_total(l, x);
        if lex_le(l, x) {
            if c < p.len() {
                assert(lex_le(s[c], l));
                assert(p[c] == s[c]);
                lemma_lex_total(s[c], x);
                if lex_lt(s[c], l) && lex_lt(l, x) {
                    lemma_lex_trans(s[c], l, x);
                }
                if s[c] == l {
                } else if l == x {
                }
            }
            assert forall|i: int| 0 <= i < s.len() implies lex_le(s[i], x) by {
                if i < p.len() {
                    assert(s[i] == p[i]);
                }
            }
        } else {
            assert forall|i: int| 0 <= i < c implies lex_le(s[i], x) by {
                assert(s[i] == p[i]);
            }
            assert forall|i: int| c <= i < s.len() implies lex_lt(x, s[i]) by {
                if i < p.len() {
                    assert(s[i] == p[i]);
                }
            }
        }
    }
}

/// Sorting orders the strings and keeps exactly the strings it was given.
pub proof fn lemma_sort_strings(s: Seq<Seq<char>>)
    ensures
        strings_sorted(sort_strings(s)),
        sort_strings(s).to_multiset() == s.to_multiset(),
    decreases s.len(),
{
    broadcast use vstd::seq_lib::group_to_multiset_ensures;

    if s.len() > 0 {
        let p = sort_strings(s.drop_last());
        lemma_sort_strings(s.drop_last());
        let x = s.last();
        lemma_count_not_after(p, x);
        let c = count_not_after(p, x);
        let t = p.insert(c, x);
        p.insert_ensures(c, x);
        assert forall|i: int, j: int| 0 <= i < j < t.len() implies lex_le(t[i], t[j]) by {
            if j < c {
            } else if j == c {
            } else if i < c {
                assert(t[j] == p[j - 1]);
                assert(lex_le(t[i], x));
                assert(lex_lt(x, p[j - 1]));
                if t[i] != x {
                    lemma_lex_trans(t[i], x, p[j - 1]);
                }
            } else if i == c {
                assert(t[j] == p[j - 1]);
            } else {
                assert(t[i] == p[i - 1]);
                assert(t[j] == p[j - 1]);
            }
        }
        vstd::seq_lib::to_multiset_insert(p, c, x);
        assert(s.drop_last().push(x) =~= s);
    }
}

/// The strings in ascending order.
pub fn sort_strings_exec(v: Vec<String>) -> (r: Vec<String>)
    ensures
        r@.map_values(|s: String| s@) == sort_strings(v@.map_values(|s: String| s@)),
{
    let ghost all = v@.map_values(|s: String| s@);
    let mut out: Vec<String> = Vec::new();
    let mut rest = v;
    let n = rest.len();
    let mut i: usize = 0;
    while rest.len() > 0
        invariant
            all.len() == n,
            i + rest@.len() == n,
            rest@.map_values(|s: String| s@) == all.subrange(i as int, n as int),
            out@.map_values(|s: String| s@) == sort_strings(all.subrange(0, i as int)),
        decreases rest.len(),
    {
        let ghost old_rest = rest@;
        let x = rest.remove(0);
        let ghost xv = x@;
        assert forall|k: int| 0 <= k < rest@.len() implies rest@[k]@ == all[i + 1 + k] by {
            assert(rest@[k] == old_rest[k + 1]);
            assert(old_rest.map_values(|s: String| s@)[k + 1] == all.subrange(
                i as int,
                n as int,
            )[k + 1]);
        }
        assert(all[i as int] == xv) by {
            assert(all.subrange(i as int, n as int)[0] == xv);
        }
        assert(rest@.map_values(|s: String| s@) =~= all.subrange(i + 1, n as int));
        let ghost ov = out@.map_values(|s: String| s@);
        let xc = chars_of(x.as_str());
        let mut c: usize = 0;
        let mut k: usize = 0;
        while k < out.len()
            invariant
                k <= out@.len(),
                c <= k,
                xc@ == xv,
                ov == out@.map_values(|s: String| s@),
                c == count_not_after(ov.subrange(0, k as int), xv),
            decreases out.len() - k,
        {
            assert(ov.subrange(0, k + 1).drop_last() =~= ov.subrange(0, k as int));
            let oc = chars_of(out[k].as_str());
            assert(oc@ == ov[k as int]);
            if chars_eq(oc.as_slice(), xc.as_slice()) || lex_lt_exec(oc.as_slice(), xc.as_slice()) {
                c = c + 1;
            }
            k = k + 1;
        }
        assert(ov.subrange(0, k as int) =~= ov);
        let ghost old_out = out@;
        out.insert(c, x);
        proof {
            old_out.insert_ensures(c as int, x);
            ov.insert_ensures(c as int, xv);
            assert(out@.map_values(|s: String| s@) =~= ov.insert(c as int, xv));
            assert(all.subrange(0, i + 1).drop_last() =~= all.subrange(0, i as int));
            assert(all.subrange(0, i + 1).last() == xv);
        }
        i = i + 1;
    }
    assert(all.subrange(0, i as int) =~= all);
    out
}

} // verus!
