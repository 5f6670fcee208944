//! Character-level text layout: padding, clipping, trimming and decimal
//! rendering. All receipt layout is specified over `Seq<char>`, one column
//! per character.

use vstd::prelude::*;

verus! {

/// A run of `n` copies of the character `c`.
pub open spec fn spec_repeat(c: char, n: nat) -> Seq<char> {
    Seq::new(n, |i: int| c)
}

/// The characters that `str::trim` removes: the Unicode `White_Space` set.
pub open spec fn spec_is_space(c: char) -> bool {
    ||| c == ' '
    ||| c == '\t'
    ||| c == '\n'
    ||| c == '\u{b}'
    ||| c == '\u{c}'
    ||| c == '\r'
    ||| c == '\u{85}'
    ||| c == '\u{a0}'
    ||| c == '\u{1680}'
    ||| ('\u{2000}' <= c && c <= '\u{200a}')
    ||| c == '\u{2028}'
    ||| c == '\u{2029}'
    ||| c == '\u{202f}'
    ||| c == '\u{205f}'
    ||| c == '\u{3000}'
}

pub open spec fn spec_trim_front(s: Seq<char>) -> Seq<char>
    decreases s.len(),
{
    if s.len() > 0 && spec_is_space(s[0]) {
        spec_trim_front(s.drop_first())
    } else {
        s
    }
}

pub open spec fn spec_trim_back(s: Seq<char>) -> Seq<char>
    decreases s.len(),
{
    if s.len() > 0 && spec_is_space(s.last()) {
        spec_trim_back(s.drop_last())
    } else {
        s
    }
}

/// What `str::trim` leaves: the text with leading and trailing white space
/// removed.
pub open spec fn spec_trim(s: Seq<char>) -> Seq<char> {
    spec_trim_back(spec_trim_front(s))
}

/// Left-aligned column: the text, space-filled on the right up to `w`.
/// Text already at or over the width is kept whole.
pub open spec fn spec_pad_right(s: Seq<char>, w: nat) -> Seq<char> {
    if s.len() >= w {
        s
    } else {
        s + spec_repeat(' ', (w - s.len()) as nat)
    }
}

/// Right-aligned column: the text, space-filled on the left up to `w`.
pub open spec fn spec_pad_left(s: Seq<char>, w: nat) -> Seq<char> {
    if s.len() >= w {
        s
    } else {
        spec_repeat(' ', (w - s.len()) as nat) + s
    }
}

/// A field clipped to its column: trimmed, then cut to at most `w`
/// characters, never wrapped or elided.
pub open spec fn spec_fit(s: Seq<char>, w: nat) -> Seq<char> {
    if spec_trim(s).len() <= w {
        spec_trim(s)
    } else {
        spec_trim(s).take(w as int)
    }
}

/// One two-column line of width `w`: the right value right-aligned, the
/// left label clipped to the space that remains. A value that alone
/// reaches the width drops the label entirely.
pub open spec fn spec_two_col(left: Seq<char>, right: Seq<char>, w: nat) -> Seq<char> {
    if right.len() >= w {
        spec_fit(right, w)
    } else {
        let lt = spec_fit(left, (w - right.len() - 1) as nat);
        lt + spec_repeat(' ', (w - lt.len() - right.len()) as nat) + right
    }
}

/// The decimal digit character for `d` (`d < 10`).
pub open spec fn spec_digit(d: nat) -> char {
    if d == 0 {
        '0'
    } else if d == 1 {
        '1'
    } else if d == 2 {
        '2'
    } else if d == 3 {
        '3'
    } else if d == 4 {
        '4'
    } else if d == 5 {
        '5'
    } else if d == 6 {
        '6'
    } else if d == 7 {
        '7'
    } else if d == 8 {
        '8'
    } else {
        '9'
    }
}

/// The canonical decimal rendering of `n`, most significant digit first,
/// no leading zeros (except for `0` itself).
pub open spec fn spec_dec(n: nat) -> Seq<char>
    decreases n,
{
    if n < 10 {
        seq![spec_digit(n)]
    } else {
        spec_dec(n / 10) + seq![spec_digit(n % 10)]
    }
}

/// The decimal rendering of `n`, zero-filled on the left to at least `w`
/// characters.
pub open spec fn spec_dec_padded(n: nat, w: nat) -> Seq<char> {
    if spec_dec(n).len() >= w {
        spec_dec(n)
    } else {
        spec_repeat('0', (w - spec_dec(n).len()) as nat) + spec_dec(n)
    }
}

/// Money in cents rendered with a fixed two-decimal fraction, as
/// `cents / 100` would print with two decimal places: optional `-` sign,
/// the whole rupee part, `.`, then exactly two fraction digits.
pub open spec fn spec_money(cents: int) -> Seq<char> {
    let a = if cents < 0 {
        (-cents) as nat
    } else {
        cents as nat
    };
    let sign: Seq<char> = if cents < 0 {
        seq!['-']
    } else {
        Seq::empty()
    };
    sign + spec_dec(a / 100) + seq!['.'] + spec_dec_padded(a % 100, 2)
}

/// Extract the characters of a string slice in order.
pub fn chars_vec(s: &str) -> (v: Vec<char>)
    ensures
        v@ == s@,
{
    let n = s.unicode_len();
    let mut v: Vec<char> = Vec::new();
    let mut i: usize = 0;
    while i < n
        invariant
            i <= n,
            n == s@.len(),
            v@ == s@.take(i as int),
        decreases n - i,
    {
        let c = s.get_char(i);
        v.push(c);
        proof {
            assert(v@ =~= s@.take(i as int + 1));
        }
        i = i + 1;
    }
    proof {
        assert(s@.take(n as int) =~= s@);
    }
    v
}

/// Relies on `Iterator::collect` for `String`: concatenates the characters
/// of the vector in order into one string.
#[verifier::external_body]
pub fn chars_to_string(v: &Vec<char>) -> (s: String)
    ensures
        s@ == v@,
{
    v.iter().collect()
}

/// Append `n` copies of `c`.
pub fn push_repeat(out: &mut Vec<char>, c: char, n: usize)
    ensures
        final(out)@ == old(out)@ + spec_repeat(c, n as nat),
{
    let mut i: usize = 0;
    while i < n
        invariant
            i <= n,
            out@ == old(out)@ + spec_repeat(c, i as nat),
        decreases n - i,
    {
        out.push(c);
        proof {
            assert(out@ =~= old(out)@ + spec_repeat(c, (i + 1) as nat));
        }
        i = i + 1;
    }
}

/// Append all characters of `s`.
pub fn push_chars(out: &mut Vec<char>, s: &Vec<char>)
    ensures
        final(out)@ == old(out)@ + s@,
{
    let mut i: usize = 0;
    while i < s.len()
        invariant
            i <= s@.len(),
            out@ == old(out)@ + s@.take(i as int),
        decreases s@.len() - i,
    {
        out.push(s[i]);
        proof {
            assert(out@ =~= old(out)@ + s@.take(i as int + 1));
        }
        i = i + 1;
    }
    proof {
        assert(s@.take(s@.len() as int) =~= s@);
    }
}

/// Append all characters of the string slice `s`.
pub fn push_str_chars(out: &mut Vec<char>, s: &str)
    ensures
        final(out)@ == old(out)@ + s@,
{
    let cs = chars_vec(s);
    push_chars(out, &cs);
}

/// Decide whether `str::trim` removes this character.
pub fn is_space_char(c: char) -> (r: bool)
    ensures
        r == spec_is_space(c),
{
    c == ' ' || c == '\t' || c == '\n' || c == '\u{b}' || c == '\u{c}' || c == '\r'
        || c == '\u{85}' || c == '\u{a0}' || c == '\u{1680}'
        || ('\u{2000}' <= c && c <= '\u{200a}') || c == '\u{2028}' || c == '\u{2029}'
        || c == '\u{202f}' || c == '\u{205f}' || c == '\u{3000}'
}

proof fn lemma_trim_front_index(s: Seq<char>, k: int)
    requires
        0 <= k <= s.len(),
        forall|i: int| 0 <= i < k ==> spec_is_space(s[i]),
        k == s.len() || !spec_is_space(s[k]),
    ensures
        spec_trim_front(s) == s.subrange(k, s.len() as int),
    decreases k,
{
    if k == 0 {
        assert(s.subrange(0, s.len() as int) =~= s);
    } else {
        assert(spec_is_space(s[0]));
        lemma_trim_front_index(s.drop_first(), k - 1);
        assert(s.drop_first().subrange(k - 1, s.drop_first().len() as int) =~= s.subrange(
            k,
            s.len() as int,
        ));
    }
}

proof fn lemma_trim_back_index(s: Seq<char>, k: int)
    requires
        0 <= k <= s.len(),
        forall|i: int| k <= i < s.len() ==> spec_is_space(s[i]),
        k == 0 || !spec_is_space(s[k - 1]),
    ensures
        spec_trim_back(s) == s.subrange(0, k),
    decreases s.len() - k,
{
    if k == s.len() {
        if s.len() > 0 && spec_is_space(s.last()) {
            assert(!spec_is_space(s[k - 1]));
            assert(false);
        }
        assert(s.subrange(0, s.len() as int) =~= s);
    } else {
        assert(spec_is_space(s.last()));
        lemma_trim_back_index(s.drop_last(), k);
        assert(s.drop_last().subrange(0, k) =~= s.subrange(0, k));
    }
}

/// Remove leading and trailing white space, as `str::trim` does.
pub fn trim_chars(s: &Vec<char>) -> (r: Vec<char>)
    ensures
        r@ == spec_trim(s@),
{
    let n = s.len();
    let mut a: usize = 0;
    while a < n && is_space_char(s[a])
        invariant
            a <= n,
            n == s@.len(),
            forall|i: int| 0 <= i < a ==> spec_is_space(s@[i]),
        decreases n - a,
    {
        a = a + 1;
    }
    let mut b: usize = n;
    while b > a && is_space_char(s[b - 1])
        invariant
            a <= b <= n,
            n == s@.len(),
            forall|i: int| 0 <= i < a ==> spec_is_space(s@[i]),
            forall|i: int| b <= i < n ==> spec_is_space(s@[i]),
        decreases b,
    {
        b = b - 1;
    }
    let mut r: Vec<char> = Vec::new();
    let mut i: usize = a;
    while i < b
        invariant
            a <= i <= b <= n,
            n == s@.len(),
            r@ == s@.subrange(a as int, i as int),
        decreases b - i,
    {
        r.push(s[i]);
        proof {
            assert(r@ =~= s@.subrange(a as int, i as int + 1));
        }
        i = i + 1;
    }
    proof {
        lemma_trim_front_index(s@, a as int);
        let f = s@.subrange(a as int, n as int);
        if b == a {
            lemma_trim_back_index(f, 0);
        } else {
            lemma_trim_back_index(f, b - a);
        }
        assert(f.subrange(0, b - a) =~= s@.subrange(a as int, b as int));
    }
    r
}

/// The decimal digit character for `d`.
pub fn digit_char(d: u64) -> (c: char)
    requires
        d < 10,
    ensures
        c == spec_digit(d as nat),
{
    if d == 0 {
        '0'
    } else if d == 1 {
        '1'
    } else if d == 2 {
        '2'
    } else if d == 3 {
        '3'
    } else if d == 4 {
        '4'
    } else if d == 5 {
        '5'
    } else if d == 6 {
        '6'
    } else if d == 7 {
        '7'
    } else if d == 8 {
        '8'
    } else {
        '9'
    }
}

/// Append the canonical decimal rendering of `n`.
pub fn push_dec(out: &mut Vec<char>, n: u64)
    ensures
        final(out)@ == old(out)@ + spec_dec(n as nat),
    decreases n,
{
    if n < 10 {
        out.push(digit_char(n));
    } else {
        push_dec(out, n / 10);
        out.push(digit_char(n % 10));
        proof {
            assert(out@ =~= old(out)@ + spec_dec(n as nat));
        }
    }
}

/// Append the decimal rendering of `n`, zero-filled to at least `w`
/// characters.
pub fn push_dec_padded(out: &mut Vec<char>, n: u64, w: usize)
    ensures
        final(out)@ == old(out)@ + spec_dec_padded(n as nat, w as nat),
{
    let mut digits: Vec<char> = Vec::new();
    push_dec(&mut digits, n);
    if digits.len() < w {
        push_repeat(out, '0', w - digits.len());
    }
    let mut i: usize = 0;
    let ghost mid = out@;
    while i < digits.len()
        invariant
            i <= digits@.len(),
            out@ == mid + digits@.take(i as int),
        decreases digits@.len() - i,
    {
        out.push(digits[i]);
        proof {
            assert(out@ =~= mid + digits@.take(i as int + 1));
        }
        i = i + 1;
    }
    proof {
        assert(digits@.take(digits@.len() as int) =~= digits@);
        assert(out@ =~= old(out)@ + spec_dec_padded(n as nat, w as nat));
    }
}

/// The decimal rendering of `n` as a string.
pub fn dec_string(n: u64) -> (s: String)
    ensures
        s@ == spec_dec(n as nat),
{
    let mut v: Vec<char> = Vec::new();
    push_dec(&mut v, n);
    chars_to_string(&v)
}

/// The decimal rendering of a signed number: a `-` sign for negatives,
/// then the canonical digits of the magnitude.
pub open spec fn spec_dec_i64(n: int) -> Seq<char> {
    if n < 0 {
        seq!['-'] + spec_dec((-n) as nat)
    } else {
        spec_dec(n as nat)
    }
}

/// The decimal rendering of a signed number as a string.
pub fn dec_string_i64(n: i64) -> (s: String)
    ensures
        s@ == spec_dec_i64(n as int),
{
    let mut v: Vec<char> = Vec::new();
    if n < 0 {
        v.push('-');
        push_dec(&mut v, ((-(n + 1)) as u64) + 1);
    } else {
        push_dec(&mut v, n as u64);
    }
    proof {
        assert(v@ =~= spec_dec_i64(n as int));
    }
    chars_to_string(&v)
}

/// Render cents as fixed two-decimal money text.
pub fn cents_to_rs(cents: i64) -> (s: String)
    ensures
        s@ == spec_money(cents as int),
{
    let mut v: Vec<char> = Vec::new();
    let a: u64 = if cents < 0 {
        v.push('-');
        ((-(cents + 1)) as u64) + 1
    } else {
        cents as u64
    };
    push_dec(&mut v, a / 100);
    v.push('.');
    push_dec_padded(&mut v, a % 100, 2);
    proof {
        assert(v@ =~= spec_money(cents as int));
    }
    chars_to_string(&v)
}

/// Left-align `value` in a column of `width` characters.
pub fn pad_right(value: &str, width: usize) -> (s: String)
    ensures
        s@ == spec_pad_right(value@, width as nat),
{
    let mut v = chars_vec(value);
    if v.len() < width {
        let fill = width - v.len();
        push_repeat(&mut v, ' ', fill);
    }
    chars_to_string(&v)
}

/// Right-align `value` in a column of `width` characters.
pub fn pad_left(value: &str, width: usize) -> (s: String)
    ensures
        s@ == spec_pad_left(value@, width as nat),
{
    let cs = chars_vec(value);
    let mut v: Vec<char> = Vec::new();
    if cs.len() < width {
        push_repeat(&mut v, ' ', width - cs.len());
    }
    let mut i: usize = 0;
    let ghost fill = v@;
    while i < cs.len()
        invariant
            i <= cs@.len(),
            v@ == fill + cs@.take(i as int),
        decreases cs@.len() - i,
    {
        v.push(cs[i]);
        proof {
            assert(v@ =~= fill + cs@.take(i as int + 1));
        }
        i = i + 1;
    }
    proof {
        assert(cs@.take(cs@.len() as int) =~= cs@);
        assert(v@ =~= spec_pad_left(value@, width as nat));
    }
    chars_to_string(&v)
}

/// Trim `value` and clip it to at most `width` characters.
pub fn fit_text(value: &str, width: usize) -> (s: String)
    ensures
        s@ == spec_fit(value@, width as nat),
{
    let cs = chars_vec(value);
    let mut t = trim_chars(&cs);
    if t.len() > width {
        t.truncate(width);
        proof {
            assert(t@ =~= spec_fit(value@, width as nat));
        }
    }
    chars_to_string(&t)
}

/// Lay out a label and a right-aligned value on one line of width `w`.
pub fn line_two_col(left: &str, right: &str, w: usize) -> (s: String)
    ensures
        s@ == spec_two_col(left@, right@, w as nat),
{
    let rc = chars_vec(right);
    if rc.len() >= w {
        return fit_text(right, w);
    }
    let lt = fit_text(left, w - rc.len() - 1);
    let ltc = chars_vec(lt.as_str());
    let mut v = ltc;
    let fill = w - v.len() - rc.len();
    push_repeat(&mut v, ' ', fill);
    let mut i: usize = 0;
    let ghost pre = v@;
    while i < rc.len()
        invariant
            i <= rc@.len(),
            v@ == pre + rc@.take(i as int),
        decreases rc@.len() - i,
    {
        v.push(rc[i]);
        proof {
            assert(v@ =~= pre + rc@.take(i as int + 1));
        }
        i = i + 1;
    }
    proof {
        assert(rc@.take(rc@.len() as int) =~= rc@);
        assert(v@ =~= spec_two_col(left@, right@, w as nat));
    }
    chars_to_string(&v)
}

/// A separator rule: `w` dashes.
pub fn sep(w: usize) -> (s: String)
    ensures
        s@ == spec_repeat('-', w as nat),
{
    let mut v: Vec<char> = Vec::new();
    push_repeat(&mut v, '-', w);
    chars_to_string(&v)
}

} // verus!
