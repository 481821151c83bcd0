//! Text primitives: the model of the `str` operations that the rest of the
//! library relies on (`lines`, `split`, `split_whitespace`, `trim`, ...),
//! stated over `Seq<char>` and implemented over `Vec<char>`.
use vstd::prelude::*;
#[allow(unused_imports)]
use vstd::std_specs::iter::IteratorSpec;

verus! {

// ───────────────────────────── character classes ─────────────────────────────

/// The Unicode `White_Space` property, which `char::is_whitespace` follows.
pub open spec fn is_ws(c: char) -> bool {
    let n = c as u32;
    ||| 0x09 <= n <= 0x0D
    ||| n == 0x20
    ||| n == 0x85
    ||| n == 0xA0
    ||| n == 0x1680
    ||| 0x2000 <= n <= 0x200A
    ||| n == 0x2028
    ||| n == 0x2029
    ||| n == 0x202F
    ||| n == 0x205F
    ||| n == 0x3000
}

pub open spec fn ws_pred() -> spec_fn(char) -> bool {
    |c: char| is_ws(c)
}

pub open spec fn non_ws_pred() -> spec_fn(char) -> bool {
    |c: char| !is_ws(c)
}

pub open spec fn char_is(t: char) -> spec_fn(char) -> bool {
    |c: char| c == t
}

pub open spec fn char_not(t: char) -> spec_fn(char) -> bool {
    |c: char| c != t
}

pub fn char_is_whitespace(c: char) -> (r: bool)
    ensures
        r == is_ws(c),
{
    let n = c as u32;
    (0x09 <= n && n <= 0x0D) || n == 0x20 || n == 0x85 || n == 0xA0 || n == 0x1680 || (0x2000
        <= n && n <= 0x200A) || n == 0x2028 || n == 0x2029 || n == 0x202F || n == 0x205F || n
        == 0x3000
}

/// `char::is_ascii_hexdigit`.
pub open spec fn is_hex_digit(c: char) -> bool {
    ('0' <= c && c <= '9') || ('a' <= c && c <= 'f') || ('A' <= c && c <= 'F')
}

pub fn char_is_hex_digit(c: char) -> (r: bool)
    ensures
        r == is_hex_digit(c),
{
    ('0' <= c && c <= '9') || ('a' <= c && c <= 'f') || ('A' <= c && c <= 'F')
}

/// `char::to_ascii_lowercase`.
pub open spec fn ascii_lower(c: char) -> char {
    if 'A' <= c && c <= 'Z' {
        ((c as u32) + 32) as char
    } else {
        c
    }
}

pub fn char_ascii_lower(c: char) -> (r: char)
    ensures
        r == ascii_lower(c),
{
    if 'A' <= c && c <= 'Z' {
        let n: u32 = (c as u32) + 32;
        assert(n < 0xD800);
        char_from_u32_below_surrogates(n)
    } else {
        c
    }
}

/// A `u32` below the surrogate range is a `char`.
#[verifier::external_body]
fn char_from_u32_below_surrogates(n: u32) -> (r: char)
    requires
        n < 0xD800,
    ensures
        r == n as char,
{
    char::from_u32(n).unwrap()
}

/// `str::eq_ignore_ascii_case`, over characters.
pub open spec fn eq_ignore_ascii_case(a: Seq<char>, b: Seq<char>) -> bool {
    a.len() == b.len() && forall|i: int| 0 <= i < a.len() ==> ascii_lower(#[trigger] a[i])
        == ascii_lower(b[i])
}

pub fn chars_eq_ignore_ascii_case(a: &Vec<char>, b: &Vec<char>) -> (r: bool)
    ensures
        r == eq_ignore_ascii_case(a@, b@),
{
    if a.len() != b.len() {
        return false;
    }
    let mut i: usize = 0;
    while i < a.len()
        invariant
            a.len() == b.len(),
            i <= a.len(),
            forall|j: int| 0 <= j < i ==> ascii_lower(#[trigger] a@[j]) == ascii_lower(b@[j]),
        decreases a.len() - i,
    {
        if char_ascii_lower(a[i]) != char_ascii_lower(b[i]) {
            return false;
        }
        i = i + 1;
    }
    true
}

// ───────────────────────────── searching ─────────────────────────────

/// Index of the first character satisfying `p`, or `s.len()` if there is none.
pub open spec fn find_first(s: Seq<char>, p: spec_fn(char) -> bool) -> nat
    decreases s.len(),
{
    if s.len() == 0 {
        0
    } else if p(s[0]) {
        0
    } else {
        1 + find_first(s.drop_first(), p)
    }
}

pub proof fn lemma_find_first_props(s: Seq<char>, p: spec_fn(char) -> bool)
    ensures
        find_first(s, p) <= s.len(),
        forall|j: int| 0 <= j < find_first(s, p) ==> !p(#[trigger] s[j]),
        find_first(s, p) < s.len() ==> p(s[find_first(s, p) as int]),
    decreases s.len(),
{
    if s.len() > 0 && !p(s[0]) {
        lemma_find_first_props(s.drop_first(), p);
        assert forall|j: int| 0 <= j < find_first(s, p) implies !p(#[trigger] s[j]) by {
            if j > 0 {
                assert(s[j] == s.drop_first()[j - 1]);
            }
        }
    }
}

pub proof fn lemma_find_first_at(s: Seq<char>, p: spec_fn(char) -> bool, i: int)
    requires
        0 <= i <= s.len(),
        forall|j: int| 0 <= j < i ==> !p(#[trigger] s[j]),
        i < s.len() ==> p(s[i]),
    ensures
        find_first(s, p) == i,
    decreases i,
{
    if i > 0 {
        assert(!p(s[0]));
        assert forall|j: int| 0 <= j < i - 1 implies !p(#[trigger] s.drop_first()[j]) by {
            assert(s.drop_first()[j] == s[j + 1]);
        }
        lemma_find_first_at(s.drop_first(), p, i - 1);
    }
}

/// Number of trailing characters that satisfy `p`.
pub open spec fn trailing(s: Seq<char>, p: spec_fn(char) -> bool) -> nat
    decreases s.len(),
{
    if s.len() == 0 {
        0
    } else if p(s.last()) {
        1 + trailing(s.drop_last(), p)
    } else {
        0
    }
}

pub proof fn lemma_trailing_at(s: Seq<char>, p: spec_fn(char) -> bool, e: int)
    requires
        0 <= e <= s.len(),
        forall|j: int| e <= j < s.len() ==> p(#[trigger] s[j]),
        e > 0 ==> !p(s[e - 1]),
    ensures
        trailing(s, p) == s.len() - e,
    decreases s.len(),
{
    if s.len() > e {
        assert(p(s.last()));
        assert forall|j: int| e <= j < s.drop_last().len() implies p(#[trigger] s.drop_last()[j]) by {
            assert(s.drop_last()[j] == s[j]);
        }
        if e > 0 {
            assert(s.drop_last()[e - 1] == s[e - 1]);
        }
        lemma_trailing_at(s.drop_last(), p, e);
    }
}

/// First index at which `t` occurs in `s`, or -1.
pub open spec fn find_sub(s: Seq<char>, t: Seq<char>) -> int
    decreases s.len(),
{
    if s.len() < t.len() {
        -1
    } else if s.subrange(0, t.len() as int) == t {
        0
    } else if s.len() == 0 {
        -1
    } else {
        let r = find_sub(s.drop_first(), t);
        if r < 0 {
            -1
        } else {
            r + 1
        }
    }
}

/// `t` occurs in `s` at index `i`.
pub open spec fn occurs_at(s: Seq<char>, t: Seq<char>, i: int) -> bool {
    0 <= i && i + t.len() <= s.len() && s.subrange(i, i + t.len()) == t
}

/// `str::contains` with a string pattern.
pub open spec fn contains_sub(s: Seq<char>, t: Seq<char>) -> bool {
    exists|i: int| occurs_at(s, t, i)
}

pub proof fn lemma_find_sub_at(s: Seq<char>, t: Seq<char>, i: int)
    requires
        0 <= i,
        forall|j: int| 0 <= j < i ==> !occurs_at(s, t, j),
        i + t.len() <= s.len() ==> occurs_at(s, t, i),
        i + t.len() > s.len() ==> i == s.len() + 1,
        t.len() > 0 || i == 0,
    ensures
        find_sub(s, t) == (if i + t.len() <= s.len() {
            i
        } else {
            -1
        }),
    decreases s.len(),
{
    if s.len() < t.len() {
    } else if s.subrange(0, t.len() as int) == t {
        assert(occurs_at(s, t, 0));
        if i > 0 {
            assert(!occurs_at(s, t, 0));
        }
    } else if s.len() == 0 {
        assert(t.len() == 0);
        assert(s.subrange(0, 0) =~= t);
    } else {
        let d = s.drop_first();
        assert(i != 0) by {
            if i == 0 {
                assert(occurs_at(s, t, 0));
            }
        }
        assert forall|j: int| 0 <= j < i - 1 implies !occurs_at(d, t, j) by {
            if occurs_at(d, t, j) {
                assert(s.subrange(j + 1, j + 1 + t.len()) =~= d.subrange(j, j + t.len()));
                assert(occurs_at(s, t, j + 1));
            }
        }
        if i + t.len() <= s.len() {
            assert(s.subrange(i, i + t.len()) =~= d.subrange(i - 1, i - 1 + t.len()));
        }
        lemma_find_sub_at(d, t, i - 1);
    }
}

pub proof fn lemma_find_sub_props(s: Seq<char>, t: Seq<char>)
    ensures
        find_sub(s, t) >= 0 ==> occurs_at(s, t, find_sub(s, t)),
        find_sub(s, t) < 0 ==> !contains_sub(s, t),
        find_sub(s, t) >= 0 ==> forall|j: int| 0 <= j < find_sub(s, t) ==> !occurs_at(s, t, j),
    decreases s.len(),
{
    if s.len() < t.len() {
    } else if s.subrange(0, t.len() as int) == t {
    } else if s.len() == 0 {
        assert(s.subrange(0, 0) =~= t);
    } else {
        let d = s.drop_first();
        lemma_find_sub_props(d, t);
        let r = find_sub(d, t);
        if r >= 0 {
            assert(s.subrange(r + 1, r + 1 + t.len()) =~= d.subrange(r, r + t.len()));
            assert forall|j: int| 0 <= j < r + 1 implies !occurs_at(s, t, j) by {
                if j > 0 && occurs_at(s, t, j) {
                    assert(s.subrange(j, j + t.len()) =~= d.subrange(j - 1, j - 1 + t.len()));
                    assert(occurs_at(d, t, j - 1));
                }
            }
        } else {
            assert forall|j: int| !occurs_at(s, t, j) by {
                if occurs_at(s, t, j) {
                    if j == 0 {
                    } else {
                        assert(s.subrange(j, j + t.len()) =~= d.subrange(j - 1, j - 1 + t.len()));
                        assert(occurs_at(d, t, j - 1));
                    }
                }
            }
        }
    }
}

/// `str::starts_with` with a string pattern.
pub open spec fn starts_with(s: Seq<char>, p: Seq<char>) -> bool {
    p.len() <= s.len() && s.subrange(0, p.len() as int) == p
}

// ───────────────────────────── splitting ─────────────────────────────

/// `str::split` on a single character.
pub open spec fn split_char(s: Seq<char>, c: char) -> Seq<Seq<char>>
    decreases s.len(),
{
    let i = find_first(s, char_is(c));
    if i >= s.len() {
        seq![s]
    } else {
        seq![s.subrange(0, i as int)] + split_char(s.subrange((i + 1) as int, s.len() as int), c)
    }
}

/// Drops one trailing carriage return.
pub open spec fn strip_cr(s: Seq<char>) -> Seq<char> {
    if s.len() > 0 && s.last() == '\r' {
        s.drop_last()
    } else {
        s
    }
}

/// `str::lines`.
pub open spec fn lines(s: Seq<char>) -> Seq<Seq<char>>
    decreases s.len(),
{
    if s.len() == 0 {
        seq![]
    } else {
        let i = find_first(s, char_is('\n'));
        if i >= s.len() {
            seq![s]
        } else {
            seq![strip_cr(s.subrange(0, i as int))] + lines(s.subrange((i + 1) as int, s.len() as int))
        }
    }
}

/// `str::split_whitespace`.
pub open spec fn split_ws(s: Seq<char>) -> Seq<Seq<char>>
    decreases s.len(),
{
    let a = find_first(s, non_ws_pred());
    if a >= s.len() {
        seq![]
    } else {
        let rest = s.subrange(a as int, s.len() as int);
        let b = find_first(rest, ws_pred());
        proof {
            lemma_find_first_props(s, non_ws_pred());
            lemma_find_first_props(rest, ws_pred());
            assert(rest[0] == s[a as int]);
        }
        seq![rest.subrange(0, b as int)] + split_ws(rest.subrange(b as int, rest.len() as int))
    }
}

/// `str::trim`.
pub open spec fn trim(s: Seq<char>) -> Seq<char> {
    let a = find_first(s, non_ws_pred());
    let t = s.subrange(a as int, s.len() as int);
    t.subrange(0, t.len() - trailing(t, ws_pred()))
}

/// `str::trim_matches` with a single character.
pub open spec fn trim_char(s: Seq<char>, c: char) -> Seq<char> {
    let a = find_first(s, char_not(c));
    let t = s.subrange(a as int, s.len() as int);
    t.subrange(0, t.len() - trailing(t, char_is(c)))
}

/// `Iterator::join` over string pieces.
pub open spec fn join(parts: Seq<Seq<char>>, sep: Seq<char>) -> Seq<char>
    decreases parts.len(),
{
    if parts.len() == 0 {
        seq![]
    } else if parts.len() == 1 {
        parts[0]
    } else {
        join(parts.drop_last(), sep) + sep + parts.last()
    }
}

/// Each line, followed by a newline.
pub open spec fn with_newlines(ls: Seq<Seq<char>>) -> Seq<char>
    decreases ls.len(),
{
    if ls.len() == 0 {
        seq![]
    } else {
        with_newlines(ls.drop_last()) + ls.last() + "\n"@
    }
}

/// The views of a sequence of strings.
pub open spec fn views(v: Seq<String>) -> Seq<Seq<char>> {
    v.map_values(|x: String| x@)
}

pub proof fn lemma_views_push(v: Seq<String>, x: String)
    ensures
        views(v.push(x)) == views(v).push(x@),
{
    assert(views(v.push(x)) =~= views(v).push(x@));
}

// ───────────────────────────── numbers ─────────────────────────────

pub open spec fn digit_char(d: nat) -> char {
    if d == 0 { '0' } else if d == 1 { '1' } else if d == 2 { '2' } else if d == 3 { '3' }
    else if d == 4 { '4' } else if d == 5 { '5' } else if d == 6 { '6' } else if d == 7 { '7' }
    else if d == 8 { '8' } else { '9' }
}

/// Decimal digits of `n`, as `u32::to_string` writes them.
pub open spec fn decimal(n: nat) -> Seq<char>
    decreases n,
{
    if n < 10 {
        seq![digit_char(n)]
    } else {
        decimal(n / 10).push(digit_char(n % 10))
    }
}

pub open spec fn hex_char(d: nat) -> char {
    if d < 10 {
        digit_char(d)
    } else if d == 10 { 'a' } else if d == 11 { 'b' } else if d == 12 { 'c' }
    else if d == 13 { 'd' } else if d == 14 { 'e' } else { 'f' }
}

/// `format!("{:02x}", b)`.
pub open spec fn hex2(b: u8) -> Seq<char> {
    seq![hex_char((b / 16) as nat), hex_char((b % 16) as nat)]
}

/// `n` spaces (or zeros, or any one character) repeated.
pub open spec fn repeat(c: char, n: nat) -> Seq<char> {
    Seq::new(n, |i: int| c)
}

/// `format!("{:0w$}", n)`.
pub open spec fn zero_pad(n: nat, w: nat) -> Seq<char> {
    let d = decimal(n);
    if d.len() < w {
        repeat('0', (w - d.len()) as nat) + d
    } else {
        d
    }
}

/// `format!("{:<w$}", s)`.
pub open spec fn pad_right(s: Seq<char>, w: nat) -> Seq<char> {
    if s.len() < w {
        s + repeat(' ', (w - s.len()) as nat)
    } else {
        s
    }
}

/// `u32::from_str`: an optional `+`, then one or more ASCII digits, within range.
pub open spec fn is_digit(c: char) -> bool {
    '0' <= c && c <= '9'
}

pub open spec fn digits_value(s: Seq<char>) -> nat
    decreases s.len(),
{
    if s.len() == 0 {
        0
    } else {
        digits_value(s.drop_last()) * 10 + ((s.last() as u32) - ('0' as u32)) as nat
    }
}

pub open spec fn unsigned_digits(s: Seq<char>) -> Seq<char> {
    if s.len() > 0 && s[0] == '+' {
        s.drop_first()
    } else {
        s
    }
}

pub open spec fn parse_u32(s: Seq<char>) -> Option<u32> {
    let d = unsigned_digits(s);
    if d.len() > 0 && (forall|i: int| 0 <= i < d.len() ==> is_digit(#[trigger] d[i]))
        && digits_value(d) <= u32::MAX {
        Some(digits_value(d) as u32)
    } else {
        None
    }
}

// ───────────────────────────── exec: conversions ─────────────────────────────

/// What `str::to_lowercase` returns: the Unicode lowercase mapping.
pub uninterp spec fn lowercase(s: Seq<char>) -> Seq<char>;

/// `str::to_lowercase`.
#[verifier::external_body]
pub(crate) fn to_lowercase(s: &str) -> (r: String)
    ensures
        r@ == lowercase(s@),
{
    s.to_lowercase()
}

/// `String::push`.
#[verifier::external_body]
pub(crate) fn push_char(s: &mut String, c: char)
    ensures
        final(s)@ == old(s)@.push(c),
{
    s.push(c)
}

/// The characters of a string.
pub fn chars_of(s: &str) -> (v: Vec<char>)
    ensures
        v@ == s@,
{
    let mut v: Vec<char> = Vec::new();
    for c in it: s.chars()
        invariant
            v.len() == it.index(),
            forall|j: int| 0 <= j < v.len() ==> v@[j] == it.seq()[j],
    {
        v.push(c);
    }
    assert(v@ =~= s@);
    v
}

/// A string made of `v[lo..hi]`.
pub fn string_of_range(v: &Vec<char>, lo: usize, hi: usize) -> (r: String)
    requires
        lo <= hi <= v.len(),
    ensures
        r@ == v@.subrange(lo as int, hi as int),
{
    let mut r = String::new();
    let mut i = lo;
    while i < hi
        invariant
            lo <= i <= hi <= v.len(),
            r@ == v@.subrange(lo as int, i as int),
        decreases hi - i,
    {
        push_char(&mut r, v[i]);
        i = i + 1;
        assert(r@ =~= v@.subrange(lo as int, i as int));
    }
    r
}

pub fn string_of(v: &Vec<char>) -> (r: String)
    ensures
        r@ == v@,
{
    let r = string_of_range(v, 0, v.len());
    assert(v@.subrange(0, v@.len() as int) =~= v@);
    r
}

pub fn str_to_string(s: &str) -> (r: String)
    ensures
        r@ == s@,
{
    String::from_str(s)
}

pub fn concat2(a: &str, b: &str) -> (r: String)
    ensures
        r@ == a@ + b@,
{
    let mut r = String::from_str(a);
    r.append(b);
    r
}

pub fn concat3(a: &str, b: &str, c: &str) -> (r: String)
    ensures
        r@ == a@ + b@ + c@,
{
    let mut r = String::from_str(a);
    r.append(b);
    r.append(c);
    r
}

pub fn str_eq(a: &str, b: &str) -> (r: bool)
    ensures
        r == (a@ == b@),
{
    let av = chars_of(a);
    let bv = chars_of(b);
    if av.len() != bv.len() {
        assert(av@.len() != bv@.len());
        return false;
    }
    let mut i: usize = 0;
    while i < av.len()
        invariant
            av.len() == bv.len(),
            av@ == a@,
            bv@ == b@,
            i <= av.len(),
            forall|j: int| 0 <= j < i ==> av@[j] == bv@[j],
        decreases av.len() - i,
    {
        if av[i] != bv[i] {
            assert(av@[i as int] != bv@[i as int]);
            return false;
        }
        i = i + 1;
    }
    assert(av@ =~= bv@);
    true
}

// ───────────────────────────── exec: searching ─────────────────────────────

/// First index at or after `start` holding `c`, or `v.len()`.
pub fn find_char_from(v: &Vec<char>, start: usize, c: char) -> (i: usize)
    requires
        start <= v.len(),
    ensures
        start <= i <= v.len(),
        i - start == find_first(v@.subrange(start as int, v.len() as int), char_is(c)),
        forall|j: int| start <= j < i ==> v@[j] != c,
        i < v.len() ==> v@[i as int] == c,
{
    let mut i = start;
    while i < v.len() && v[i] != c
        invariant
            start <= i <= v.len(),
            forall|j: int| start <= j < i ==> v@[j] != c,
        decreases v.len() - i,
    {
        i = i + 1;
    }
    proof {
        let s = v@.subrange(start as int, v.len() as int);
        assert forall|j: int| 0 <= j < i - start implies !char_is(c)(#[trigger] s[j]) by {
            assert(s[j] == v@[start + j]);
        }
        if i < v.len() {
            assert(s[i - start] == v@[i as int]);
        }
        lemma_find_first_at(s, char_is(c), i - start);
    }
    i
}

/// First index at or after `start` whose character is (or is not) whitespace.
pub fn find_ws_from(v: &Vec<char>, start: usize, want_ws: bool) -> (i: usize)
    requires
        start <= v.len(),
    ensures
        start <= i <= v.len(),
        i - start == find_first(
            v@.subrange(start as int, v.len() as int),
            if want_ws {
                ws_pred()
            } else {
                non_ws_pred()
            },
        ),
        forall|j: int| start <= j < i ==> is_ws(#[trigger] v@[j]) != want_ws,
        i < v.len() ==> is_ws(v@[i as int]) == want_ws,
{
    let mut i = start;
    while i < v.len() && char_is_whitespace(v[i]) != want_ws
        invariant
            start <= i <= v.len(),
            forall|j: int| start <= j < i ==> is_ws(#[trigger] v@[j]) != want_ws,
        decreases v.len() - i,
    {
        i = i + 1;
    }
    proof {
        let s = v@.subrange(start as int, v.len() as int);
        let p = if want_ws {
            ws_pred()
        } else {
            non_ws_pred()
        };
        assert forall|j: int| 0 <= j < i - start implies !p(#[trigger] s[j]) by {
            assert(s[j] == v@[start + j]);
        }
        if i < v.len() {
            assert(s[i - start] == v@[i as int]);
        }
        lemma_find_first_at(s, p, i - start);
    }
    i
}

/// Whether `t` occurs in `v` at index `i`.
pub fn occurs_at_exec(v: &Vec<char>, t: &Vec<char>, i: usize) -> (r: bool)
    ensures
        r == occurs_at(v@, t@, i as int),
{
    if i > v.len() || t.len() > v.len() - i {
        return false;
    }
    let mut k: usize = 0;
    while k < t.len()
        invariant
            i + t.len() <= v.len(),
            k <= t.len(),
            forall|j: int| 0 <= j < k ==> v@[i + j] == t@[j],
        decreases t.len() - k,
    {
        if v[i + k] != t[k] {
            assert(v@.subrange(i as int, i + t.len())[k as int] != t@[k as int]);
            return false;
        }
        k = k + 1;
    }
    assert(v@.subrange(i as int, i + t.len()) =~= t@);
    true
}

/// `str::find` with a string pattern: the first occurrence, if any.
pub fn find_sub_exec(v: &Vec<char>, t: &Vec<char>) -> (r: Option<usize>)
    ensures
        match r {
            Some(i) => find_sub(v@, t@) == i && occurs_at(v@, t@, i as int),
            None => find_sub(v@, t@) < 0 && !contains_sub(v@, t@),
        },
{
    proof {
        lemma_find_sub_props(v@, t@);
    }
    if t.len() > v.len() {
        return None;
    }
    let n = v.len() - t.len();
    let mut i: usize = 0;
    loop
        invariant
            t.len() <= v.len(),
            n == v.len() - t.len(),
            i <= n,
            forall|j: int| 0 <= j < i ==> !occurs_at(v@, t@, j),
            find_sub(v@, t@) >= 0 ==> occurs_at(v@, t@, find_sub(v@, t@)),
            find_sub(v@, t@) < 0 ==> !contains_sub(v@, t@),
            find_sub(v@, t@) >= 0 ==> forall|j: int|
                0 <= j < find_sub(v@, t@) ==> !occurs_at(v@, t@, j),
        ensures
            forall|j: int| 0 <= j <= n ==> !occurs_at(v@, t@, j),
        decreases n - i,
    {
        if occurs_at_exec(v, t, i) {
            assert(find_sub(v@, t@) == i) by {
                if find_sub(v@, t@) < 0 {
                    assert(occurs_at(v@, t@, i as int));
                } else if find_sub(v@, t@) < i {
                } else if find_sub(v@, t@) > i {
                }
            }
            return Some(i);
        }
        if i == n {
            break;
        }
        i = i + 1;
    }
    assert(!contains_sub(v@, t@)) by {
        assert forall|j: int| !occurs_at(v@, t@, j) by {
            if occurs_at(v@, t@, j) {
                assert(j <= n);
            }
        }
    }
    None
}

pub fn contains_exec(v: &Vec<char>, t: &Vec<char>) -> (r: bool)
    ensures
        r == contains_sub(v@, t@),
{
    match find_sub_exec(v, t) {
        Some(i) => {
            assert(occurs_at(v@, t@, i as int));
            true
        },
        None => false,
    }
}

pub fn starts_with_exec(v: &Vec<char>, p: &Vec<char>) -> (r: bool)
    ensures
        r == starts_with(v@, p@),
{
    let r = occurs_at_exec(v, p, 0);
    proof {
        if r {
            assert(v@.subrange(0, p@.len() as int) == p@);
        }
    }
    r
}

// ───────────────────────────── exec: splitting ─────────────────────────────

/// `str::lines`.
pub fn lines_exec(s: &str) -> (r: Vec<String>)
    ensures
        views(r@) == lines(s@),
{
    let v = chars_of(s);
    let mut out: Vec<String> = Vec::new();
    proof {
        assert(v@.subrange(0, v.len() as int) =~= v@);
        assert(views(out@) =~= Seq::<Seq<char>>::empty());
        assert(views(out@) + lines(v@) =~= lines(v@));
    }
    let mut pos: usize = 0;
    while pos < v.len()
        invariant
            pos <= v.len(),
            v@ == s@,
            views(out@) + lines(v@.subrange(pos as int, v.len() as int)) == lines(v@),
        decreases v.len() - pos,
    {
        let ghost rest = v@.subrange(pos as int, v.len() as int);
        let i = find_char_from(&v, pos, '\n');
        if i == v.len() {
            let line = string_of_range(&v, pos, v.len());
            proof {
                lemma_views_push(out@, line);
                assert(lines(rest) == seq![rest]);
                assert(lines(v@.subrange(v.len() as int, v.len() as int)) =~= Seq::<Seq<char>>::empty());
                assert(views(out@.push(line)) =~= views(out@) + lines(rest));
            }
            out.push(line);
            pos = v.len();
        } else {
            let mut end = i;
            if end > pos && v[end - 1] == '\r' {
                end = end - 1;
            }
            let line = string_of_range(&v, pos, end);
            proof {
                let k = (i - pos) as int;
                assert(rest.subrange(0, k) =~= v@.subrange(pos as int, i as int));
                assert(rest.subrange(k + 1, rest.len() as int) =~= v@.subrange(i + 1, v.len() as int));
                assert(strip_cr(rest.subrange(0, k)) =~= v@.subrange(pos as int, end as int));
                lemma_views_push(out@, line);
                assert(lines(rest) == seq![strip_cr(rest.subrange(0, k))] + lines(rest.subrange(k + 1, rest.len() as int)));
                assert(views(out@.push(line)) + lines(v@.subrange(i + 1, v.len() as int)) =~= views(out@) + lines(rest));
            }
            out.push(line);
            pos = i + 1;
        }
    }
    proof {
        assert(v@.subrange(0, v.len() as int) =~= v@);
        assert(lines(v@.subrange(pos as int, v.len() as int)) =~= Seq::<Seq<char>>::empty());
        assert(views(out@) =~= views(out@) + Seq::<Seq<char>>::empty());
    }
    out
}

/// `str::split` on one character.
pub fn split_char_exec(s: &str, c: char) -> (r: Vec<String>)
    ensures
        views(r@) == split_char(s@, c),
        r@.len() >= 1,
{
    let v = chars_of(s);
    let mut out: Vec<String> = Vec::new();
    proof {
        assert(v@.subrange(0, v.len() as int) =~= v@);
        assert(views(out@) =~= Seq::<Seq<char>>::empty());
        assert(views(out@) + split_char(v@, c) =~= split_char(v@, c));
    }
    let mut pos: usize = 0;
    loop
        invariant
            pos <= v.len(),
            v@ == s@,
            views(out@) + split_char(v@.subrange(pos as int, v.len() as int), c) == split_char(v@, c),
        decreases v.len() - pos,
    {
        let ghost rest = v@.subrange(pos as int, v.len() as int);
        let i = find_char_from(&v, pos, c);
        let piece = string_of_range(&v, pos, i);
        proof {
            lemma_views_push(out@, piece);
        }
        if i == v.len() {
            proof {
                assert(rest.subrange(0, rest.len() as int) =~= rest);
                assert(split_char(rest, c) == seq![rest]);
                assert(views(out@.push(piece)) =~= views(out@) + split_char(rest, c));
                assert(v@.subrange(0, v.len() as int) =~= v@);
            }
            out.push(piece);
            return out;
        }
        proof {
            let k = (i - pos) as int;
            assert(rest.subrange(0, k) =~= v@.subrange(pos as int, i as int));
            assert(rest.subrange(k + 1, rest.len() as int) =~= v@.subrange(i + 1, v.len() as int));
            assert(views(out@.push(piece)) + split_char(v@.subrange(i + 1, v.len() as int), c)
                =~= views(out@) + split_char(rest, c));
        }
        out.push(piece);
        pos = i + 1;
    }
}

/// `str::split_whitespace`.
pub fn split_ws_exec(s: &str) -> (r: Vec<String>)
    ensures
        views(r@) == split_ws(s@),
{
    let v = chars_of(s);
    let mut out: Vec<String> = Vec::new();
    proof {
        assert(v@.subrange(0, v.len() as int) =~= v@);
        assert(views(out@) =~= Seq::<Seq<char>>::empty());
        assert(views(out@) + split_ws(v@) =~= split_ws(v@));
    }
    let mut pos: usize = 0;
    loop
        invariant
            pos <= v.len(),
            v@ == s@,
            views(out@) + split_ws(v@.subrange(pos as int, v.len() as int)) == split_ws(v@),
        decreases v.len() - pos,
    {
        let ghost rest = v@.subrange(pos as int, v.len() as int);
        let a = find_ws_from(&v, pos, false);
        if a == v.len() {
            proof {
                assert(split_ws(rest) =~= Seq::<Seq<char>>::empty());
                assert(v@.subrange(0, v.len() as int) =~= v@);
                assert(views(out@) =~= views(out@) + split_ws(rest));
            }
            return out;
        }
        let b = find_ws_from(&v, a, true);
        let word = string_of_range(&v, a, b);
        proof {
            let ka = (a - pos) as int;
            let r2 = rest.subrange(ka, rest.len() as int);
            assert(r2 =~= v@.subrange(a as int, v.len() as int));
            let kb = (b - a) as int;
            assert(r2.subrange(0, kb) =~= v@.subrange(a as int, b as int));
            assert(r2.subrange(kb, r2.len() as int) =~= v@.subrange(b as int, v.len() as int));
            lemma_views_push(out@, word);
            assert(views(out@.push(word)) + split_ws(v@.subrange(b as int, v.len() as int))
                =~= views(out@) + split_ws(rest));
        }
        out.push(word);
        pos = b;
    }
}

/// Bounds of `str::trim` within `v`.
pub fn trim_bounds(v: &Vec<char>) -> (r: (usize, usize))
    ensures
        r.0 <= r.1 <= v.len(),
        v@.subrange(r.0 as int, r.1 as int) == trim(v@),
{
    let a = find_ws_from(v, 0, false);
    let mut e = v.len();
    while e > a && char_is_whitespace(v[e - 1])
        invariant
            a <= e <= v.len(),
            forall|j: int| e <= j < v.len() ==> is_ws(#[trigger] v@[j]),
        decreases e,
    {
        e = e - 1;
    }
    proof {
        assert(v@.subrange(0, v.len() as int) =~= v@);
        lemma_trim_bounds(v@, a as int, e as int);
    }
    (a, e)
}

proof fn lemma_trim_bounds(s: Seq<char>, a: int, e: int)
    requires
        a == find_first(s, non_ws_pred()),
        a <= e <= s.len(),
        forall|j: int| e <= j < s.len() ==> is_ws(#[trigger] s[j]),
        e > a ==> !is_ws(s[e - 1]),
    ensures
        s.subrange(a, e) == trim(s),
{
    let t = s.subrange(a, s.len() as int);
    assert forall|j: int| (e - a) <= j < t.len() implies ws_pred()(#[trigger] t[j]) by {
        assert(t[j] == s[a + j]);
    }
    if e > a {
        assert(t[e - a - 1] == s[e - 1]);
    }
    lemma_trailing_at(t, ws_pred(), e - a);
    assert(t.subrange(0, e - a) =~= s.subrange(a, e));
}

/// `str::trim`.
pub fn trim_exec(s: &str) -> (r: String)
    ensures
        r@ == trim(s@),
{
    let v = chars_of(s);
    let (a, e) = trim_bounds(&v);
    string_of_range(&v, a, e)
}

/// `Iterator::join` of the pieces with `sep`.
pub fn join_exec(parts: &Vec<String>, sep: &str) -> (r: String)
    ensures
        r@ == join(views(parts@), sep@),
{
    let mut r = String::new();
    let mut i: usize = 0;
    while i < parts.len()
        invariant
            i <= parts.len(),
            r@ == join(views(parts@).subrange(0, i as int), sep@),
        decreases parts.len() - i,
    {
        let ghost prev = views(parts@).subrange(0, i as int);
        if i > 0 {
            r.append(sep);
        }
        r.append(parts[i].as_str());
        proof {
            let next = views(parts@).subrange(0, i + 1);
            assert(next.drop_last() =~= prev);
            assert(next.last() == parts@[i as int]@);
            if i == 0 {
                assert(prev =~= Seq::<Seq<char>>::empty());
                assert(r@ =~= next[0]);
            }
        }
        i = i + 1;
    }
    assert(views(parts@).subrange(0, parts.len() as int) =~= views(parts@));
    r
}


/// The lines, each followed by a newline.
pub fn lines_text(lines: &Vec<String>) -> (r: String)
    ensures
        r@ == with_newlines(views(lines@)),
{
    let mut r = String::new();
    let mut i: usize = 0;
    while i < lines.len()
        invariant
            i <= lines.len(),
            r@ == with_newlines(views(lines@).take(i as int)),
        decreases lines.len() - i,
    {
        r.append(lines[i].as_str());
        r.append("\n");
        assert(views(lines@).take(i + 1).drop_last() =~= views(lines@).take(i as int));
        i = i + 1;
    }
    assert(views(lines@).take(lines.len() as int) =~= views(lines@));
    r
}

/// `str::trim_matches` with one character.
pub fn trim_char_exec(s: &str, c: char) -> (r: String)
    ensures
        r@ == trim_char(s@, c),
{
    let v = chars_of(s);
    let mut a: usize = 0;
    while a < v.len() && v[a] == c
        invariant
            a <= v.len(),
            forall|j: int| 0 <= j < a ==> v@[j] == c,
        decreases v.len() - a,
    {
        a = a + 1;
    }
    let mut e = v.len();
    while e > a && v[e - 1] == c
        invariant
            a <= e <= v.len(),
            forall|j: int| e <= j < v.len() ==> v@[j] == c,
        decreases e,
    {
        e = e - 1;
    }
    proof {
        let p = char_not(c);
        assert forall|j: int| 0 <= j < a implies !p(#[trigger] v@[j]) by {}
        lemma_find_first_at(v@, p, a as int);
        let t = v@.subrange(a as int, v.len() as int);
        assert forall|j: int| (e - a) <= j < t.len() implies char_is(c)(#[trigger] t[j]) by {
            assert(t[j] == v@[a + j]);
        }
        if e > a {
            assert(t[e - a - 1] == v@[e - 1]);
        }
        lemma_trailing_at(t, char_is(c), (e - a) as int);
        assert(t.subrange(0, (e - a) as int) =~= v@.subrange(a as int, e as int));
    }
    string_of_range(&v, a, e)
}

/// `str::starts_with` with a string pattern.
pub fn str_starts_with(s: &str, p: &str) -> (r: bool)
    ensures
        r == starts_with(s@, p@),
{
    let sv = chars_of(s);
    let pv = chars_of(p);
    starts_with_exec(&sv, &pv)
}

/// `s[k..]` for a character position `k`.
pub fn suffix_from(s: &str, k: usize) -> (r: String)
    requires
        k <= s@.len(),
    ensures
        r@ == s@.subrange(k as int, s@.len() as int),
{
    let v = chars_of(s);
    string_of_range(&v, k, v.len())
}

// ───────────────────────────── exec: numbers ─────────────────────────────

pub fn digit_char_exec(d: u32) -> (c: char)
    requires
        d < 10,
    ensures
        c == digit_char(d as nat),
{
    if d == 0 { '0' } else if d == 1 { '1' } else if d == 2 { '2' } else if d == 3 { '3' }
    else if d == 4 { '4' } else if d == 5 { '5' } else if d == 6 { '6' } else if d == 7 { '7' }
    else if d == 8 { '8' } else { '9' }
}

pub fn hex_char_exec(d: u8) -> (c: char)
    requires
        d < 16,
    ensures
        c == hex_char(d as nat),
{
    if d < 10 {
        digit_char_exec(d as u32)
    } else if d == 10 { 'a' } else if d == 11 { 'b' } else if d == 12 { 'c' }
    else if d == 13 { 'd' } else if d == 14 { 'e' } else { 'f' }
}

pub fn decimal_chars(n: u32) -> (v: Vec<char>)
    ensures
        v@ == decimal(n as nat),
    decreases n,
{
    if n < 10 {
        let mut v = Vec::new();
        v.push(digit_char_exec(n));
        assert(v@ =~= decimal(n as nat));
        v
    } else {
        let mut v = decimal_chars(n / 10);
        v.push(digit_char_exec(n % 10));
        v
    }
}

/// `u32::to_string`.
pub fn u32_to_string(n: u32) -> (r: String)
    ensures
        r@ == decimal(n as nat),
{
    let v = decimal_chars(n);
    string_of(&v)
}

/// `format!("{:02x}", b)`.
pub fn hex2_string(b: u8) -> (r: String)
    ensures
        r@ == hex2(b),
{
    let mut r = String::new();
    push_char(&mut r, hex_char_exec(b / 16));
    push_char(&mut r, hex_char_exec(b % 16));
    assert(r@ =~= hex2(b));
    r
}

/// `format!("{:0w$}", n)`.
pub fn zero_pad_string(n: u32, w: usize) -> (r: String)
    ensures
        r@ == zero_pad(n as nat, w as nat),
{
    let d = decimal_chars(n);
    let mut r = String::new();
    if d.len() < w {
        let mut k: usize = 0;
        while k < w - d.len()
            invariant
                d.len() < w,
                k <= w - d.len(),
                r@ == repeat('0', k as nat),
            decreases w - d.len() - k,
        {
            push_char(&mut r, '0');
            k = k + 1;
            assert(r@ =~= repeat('0', k as nat));
        }
    }
    let mut i: usize = 0;
    let ghost pre = r@;
    while i < d.len()
        invariant
            i <= d.len(),
            r@ == pre + d@.subrange(0, i as int),
        decreases d.len() - i,
    {
        push_char(&mut r, d[i]);
        i = i + 1;
        assert(r@ =~= pre + d@.subrange(0, i as int));
    }
    assert(d@.subrange(0, d.len() as int) =~= d@);
    proof {
        if d.len() >= w {
            assert(pre =~= Seq::<char>::empty());
            assert(r@ =~= d@);
        }
    }
    r
}

/// `format!("{:<w$}", s)`.
pub fn pad_right_string(s: &str, w: usize) -> (r: String)
    ensures
        r@ == pad_right(s@, w as nat),
{
    let n = s.unicode_len();
    let mut r = String::from_str(s);
    if n < w {
        let mut k: usize = 0;
        while k < w - n
            invariant
                n == s@.len(),
                n < w,
                k <= w - n,
                r@ == s@ + repeat(' ', k as nat),
            decreases w - n - k,
        {
            push_char(&mut r, ' ');
            k = k + 1;
            assert(r@ =~= s@ + repeat(' ', k as nat));
        }
    } else {
        assert(r@ == pad_right(s@, w as nat));
    }
    r
}

/// `u32::from_str`.
pub fn parse_u32_exec(s: &str) -> (r: Option<u32>)
    ensures
        r == parse_u32(s@),
{
    let v = chars_of(s);
    let start: usize = if v.len() > 0 && v[0] == '+' {
        1
    } else {
        0
    };
    let ghost d = unsigned_digits(v@);
    assert(d =~= v@.subrange(start as int, v.len() as int));
    if start == v.len() {
        return None;
    }
    let mut acc: u64 = 0;
    let mut i = start;
    while i < v.len()
        invariant
            start <= i <= v.len(),
            v@ == s@,
            d == unsigned_digits(v@),
            d == v@.subrange(start as int, v.len() as int),
            forall|j: int| 0 <= j < i - start ==> is_digit(#[trigger] d[j]),
            acc == digits_value(d.subrange(0, i - start)),
            acc <= u32::MAX,
        decreases v.len() - i,
    {
        let c = v[i];
        assert(d[i - start] == v@[i as int]);
        if !('0' <= c && c <= '9') {
            assert(!is_digit(d[i - start]));
            return None;
        }
        let dv: u64 = ((c as u32) - ('0' as u32)) as u64;
        let next = acc * 10 + dv;
        proof {
            let p = d.subrange(0, i + 1 - start);
            assert(p.drop_last() =~= d.subrange(0, i - start));
            assert(p.last() == c);
            assert(digits_value(p) == next);
        }
        if next > 0xFFFF_FFFF {
            proof {
                if forall|j: int| 0 <= j < d.len() ==> is_digit(#[trigger] d[j]) {
                    lemma_digits_value_grows(d, (i + 1 - start) as int);
                }
            }
            return None;
        }
        acc = next;
        i = i + 1;
    }
    assert(d.subrange(0, d.len() as int) =~= d);
    Some(acc as u32)
}

proof fn lemma_digits_value_grows(d: Seq<char>, k: int)
    requires
        0 <= k <= d.len(),
        forall|j: int| 0 <= j < d.len() ==> is_digit(#[trigger] d[j]),
    ensures
        digits_value(d) >= digits_value(d.subrange(0, k)),
    decreases d.len() - k,
{
    if k < d.len() {
        lemma_digits_value_grows(d, k + 1);
        let p = d.subrange(0, k + 1);
        assert(p.drop_last() =~= d.subrange(0, k));
        assert(digits_value(p) == digits_value(d.subrange(0, k)) * 10 + ((p.last() as u32) - ('0' as u32)) as nat);
    } else {
        assert(d.subrange(0, k) =~= d);
    }
}

} // verus!
