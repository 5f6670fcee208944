//! Query-string and number parsing: splitting a path from its query,
//! percent-decoding values, the flat key/value mapping with its
//! last-entry-wins lookup, date-only validation and signed decimal
//! parsing.

use vstd::prelude::*;

use crate::text::{chars_to_string, chars_vec, spec_trim, trim_chars};

verus! {

/// The index of the first occurrence of `c` in `s`, or `-1`.
pub open spec fn spec_find(s: Seq<char>, c: char) -> int
    decreases s.len(),
{
    if s.len() == 0 {
        -1
    } else if s[0] == c {
        0
    } else {
        let r = spec_find(s.drop_first(), c);
        if r < 0 {
            -1
        } else {
            r + 1
        }
    }
}

/// The first occurrence of a character lies inside the text.
pub proof fn lemma_find_bound(s: Seq<char>, c: char)
    ensures
        -1 <= spec_find(s, c) < s.len(),
    decreases s.len(),
{
    if s.len() > 0 && s[0] != c {
        lemma_find_bound(s.drop_first(), c);
    }
}

proof fn lemma_find_at(s: Seq<char>, c: char, k: int)
    requires
        0 <= k <= s.len(),
        forall|i: int| 0 <= i < k ==> s[i] != c,
        k < s.len() ==> s[k] == c,
    ensures
        k < s.len() ==> spec_find(s, c) == k,
        k == s.len() ==> spec_find(s, c) == -1,
    decreases k,
{
    if s.len() == 0 {
    } else if k == 0 {
    } else {
        lemma_find_at(s.drop_first(), c, k - 1);
    }
}

/// Find the first occurrence of `c`, scanning left to right.
pub fn find_char(s: &Vec<char>, c: char) -> (r: Option<usize>)
    ensures
        match r {
            Some(i) => i < s@.len() && s@[i as int] == c && spec_find(s@, c) == i as int,
            None => spec_find(s@, c) == -1,
        },
{
    let mut i: usize = 0;
    while i < s.len()
        invariant
            i <= s@.len(),
            forall|j: int| 0 <= j < i ==> s@[j] != c,
        decreases s@.len() - i,
    {
        if s[i] == c {
            proof {
                lemma_find_at(s@, c, i as int);
            }
            return Some(i);
        }
        i = i + 1;
    }
    proof {
        lemma_find_at(s@, c, s@.len() as int);
    }
    None
}

/// The pieces of `s` split at every occurrence of `c`; an empty input is
/// one empty piece, as `str::split` yields it.
pub open spec fn spec_split(s: Seq<char>, c: char) -> Seq<Seq<char>>
    decreases s.len(),
    via spec_split_dec
{
    let i = spec_find(s, c);
    if i < 0 {
        seq![s]
    } else {
        seq![s.take(i)] + spec_split(s.skip(i + 1), c)
    }
}

#[via_fn]
proof fn spec_split_dec(s: Seq<char>, c: char) {
    lemma_find_bound(s, c);
}

/// The views of a vector of character vectors.
pub open spec fn views2(parts: Seq<Vec<char>>) -> Seq<Seq<char>> {
    parts.map_values(|v: Vec<char>| v@)
}

/// Split `s` at every occurrence of `c`.
pub fn split_char(s: &Vec<char>, c: char) -> (parts: Vec<Vec<char>>)
    ensures
        views2(parts@) == spec_split(s@, c),
{
    let n = s.len();
    let mut parts: Vec<Vec<char>> = Vec::new();
    let mut start: usize = 0;
    let mut j: usize = 0;
    proof {
        assert(s@.skip(0) =~= s@);
        assert(views2(parts@) + spec_split(s@, c) =~= spec_split(s@, c));
    }
    while j < n
        invariant
            start <= j <= n,
            n == s@.len(),
            forall|i: int| start <= i < j ==> s@[i] != c,
            spec_split(s@, c) == views2(parts@) + spec_split(s@.skip(start as int), c),
        decreases n - j,
    {
        if s[j] == c {
            let mut piece: Vec<char> = Vec::new();
            let mut k: usize = start;
            while k < j
                invariant
                    start <= k <= j <= n,
                    n == s@.len(),
                    piece@ == s@.subrange(start as int, k as int),
                decreases j - k,
            {
                piece.push(s[k]);
                proof {
                    assert(piece@ =~= s@.subrange(start as int, k as int + 1));
                }
                k = k + 1;
            }
            let ghost prev = parts@;
            parts.push(piece);
            proof {
                let rest = s@.skip(start as int);
                assert(forall|i: int|
                    0 <= i < (j - start) ==> rest[i] == s@[start + i] && rest[i] != c);
                assert(rest[j - start] == c);
                lemma_find_at(rest, c, j - start);
                assert(rest.take(j - start) =~= s@.subrange(start as int, j as int));
                assert(rest.skip(j - start + 1) =~= s@.skip(j as int + 1));
                assert(views2(parts@) =~= views2(prev).push(s@.subrange(start as int, j as int)));
                assert(views2(parts@) + spec_split(s@.skip(j as int + 1), c) =~= views2(prev)
                    + spec_split(s@.skip(start as int), c));
            }
            start = j + 1;
        }
        j = j + 1;
    }
    let mut piece: Vec<char> = Vec::new();
    let mut k: usize = start;
    while k < n
        invariant
            start <= k <= n,
            n == s@.len(),
            piece@ == s@.subrange(start as int, k as int),
        decreases n - k,
    {
        piece.push(s[k]);
        proof {
            assert(piece@ =~= s@.subrange(start as int, k as int + 1));
        }
        k = k + 1;
    }
    let ghost prev = parts@;
    parts.push(piece);
    proof {
        let rest = s@.skip(start as int);
        assert(forall|i: int| 0 <= i < rest.len() ==> rest[i] == s@[start + i] && rest[i] != c);
        lemma_find_at(rest, c, rest.len() as int);
        assert(rest =~= s@.subrange(start as int, n as int));
        assert(views2(parts@) =~= views2(prev).push(rest));
        assert(views2(parts@) =~= views2(prev) + spec_split(s@.skip(start as int), c));
    }
    parts
}

/// The value of a hexadecimal digit, or `-1` for any other character.
pub open spec fn spec_hex_val(c: char) -> int {
    if '0' <= c && c <= '9' {
        c as int - '0' as int
    } else if 'a' <= c && c <= 'f' {
        10 + c as int - 'a' as int
    } else if 'A' <= c && c <= 'F' {
        10 + c as int - 'A' as int
    } else {
        -1
    }
}

/// The byte an escape pair decodes to: the hexadecimal value of the two
/// characters; a lone leading `+` acts as a plus sign; anything else
/// yields the `?` byte.
pub open spec fn spec_pct_byte(hi: char, lo: char) -> int {
    if spec_hex_val(hi) >= 0 && spec_hex_val(lo) >= 0 {
        16 * spec_hex_val(hi) + spec_hex_val(lo)
    } else if hi == '+' && spec_hex_val(lo) >= 0 {
        spec_hex_val(lo)
    } else {
        63
    }
}

/// The character an escape pair decodes to: the byte read as a code point.
pub open spec fn spec_pct_char(hi: char, lo: char) -> char {
    (spec_pct_byte(hi, lo) as u8) as char
}

fn hex_val(c: char) -> (r: i32)
    ensures
        r as int == spec_hex_val(c),
{
    if '0' <= c && c <= '9' {
        (c as u32 as i32) - ('0' as u32 as i32)
    } else if 'a' <= c && c <= 'f' {
        10 + (c as u32 as i32) - ('a' as u32 as i32)
    } else if 'A' <= c && c <= 'F' {
        10 + (c as u32 as i32) - ('A' as u32 as i32)
    } else {
        -1
    }
}

fn pct_char(hi: char, lo: char) -> (c: char)
    ensures
        c == spec_pct_char(hi, lo),
{
    let h = hex_val(hi);
    let l = hex_val(lo);
    let b: u8 = if h >= 0 && l >= 0 {
        (16 * h + l) as u8
    } else if hi == '+' && l >= 0 {
        l as u8
    } else {
        63
    };
    b as char
}

/// The percent-decoding of `s`: `%` consumes the next two characters
/// (zero-filled at the end of the text) as a hexadecimal byte, `+` becomes
/// a space, all else passes through.
pub open spec fn spec_percent_decode(s: Seq<char>) -> Seq<char>
    decreases s.len(),
{
    if s.len() == 0 {
        Seq::empty()
    } else if s[0] == '%' {
        let hi = if s.len() >= 2 {
            s[1]
        } else {
            '0'
        };
        let lo = if s.len() >= 3 {
            s[2]
        } else {
            '0'
        };
        let rest = if s.len() >= 3 {
            s.skip(3)
        } else {
            Seq::<char>::empty()
        };
        seq![spec_pct_char(hi, lo)] + spec_percent_decode(rest)
    } else if s[0] == '+' {
        seq![' '] + spec_percent_decode(s.skip(1))
    } else {
        seq![s[0]] + spec_percent_decode(s.skip(1))
    }
}

fn percent_decode_chars(s: &Vec<char>) -> (out: Vec<char>)
    ensures
        out@ == spec_percent_decode(s@),
{
    let n = s.len();
    let mut out: Vec<char> = Vec::new();
    let mut i: usize = 0;
    proof {
        assert(s@.skip(0) =~= s@);
        assert(out@ + spec_percent_decode(s@) =~= spec_percent_decode(s@));
    }
    while i < n
        invariant
            i <= n,
            n == s@.len(),
            out@ + spec_percent_decode(s@.skip(i as int)) == spec_percent_decode(s@),
        decreases n - i,
    {
        let ghost rem = s@.skip(i as int);
        proof {
            assert(rem[0] == s@[i as int]);
        }
        let c = s[i];
        if c == '%' {
            let rem_len = n - i;
            let hi = if rem_len >= 2 {
                s[i + 1]
            } else {
                '0'
            };
            let lo = if rem_len >= 3 {
                s[i + 2]
            } else {
                '0'
            };
            out.push(pct_char(hi, lo));
            proof {
                if rem_len >= 3 {
                    assert(rem.len() >= 3);
                    assert(rem[1] == s@[i + 1] && rem[2] == s@[i + 2]);
                    assert(rem.skip(3) =~= s@.skip(i as int + 3));
                } else {
                    if rem_len >= 2 {
                        assert(rem[1] == s@[i + 1]);
                    }
                    assert(s@.skip(n as int) =~= Seq::<char>::empty());
                }
            }
            if rem_len >= 3 {
                i = i + 3;
            } else {
                i = n;
            }
        } else if c == '+' {
            out.push(' ');
            proof {
                assert(rem.skip(1) =~= s@.skip(i as int + 1));
            }
            i = i + 1;
        } else {
            out.push(c);
            proof {
                assert(rem.skip(1) =~= s@.skip(i as int + 1));
            }
            i = i + 1;
        }
    }
    proof {
        assert(s@.skip(n as int) =~= Seq::<char>::empty());
        assert(out@ =~= spec_percent_decode(s@));
    }
    out
}

/// Decode percent escapes and `+` signs in a query-string value.
pub fn percent_decode(input: &str) -> (r: String)
    ensures
        r@ == spec_percent_decode(input@),
{
    let cs = chars_vec(input);
    let out = percent_decode_chars(&cs);
    chars_to_string(&out)
}

/// The key/value entries of one query string, in order: every piece with
/// an `=` contributes its raw key and its percent-decoded value; pieces
/// without an `=` are dropped.
pub open spec fn spec_pairs_of(parts: Seq<Seq<char>>) -> Seq<(Seq<char>, Seq<char>)>
    decreases parts.len(),
{
    if parts.len() == 0 {
        Seq::empty()
    } else {
        let p = parts[0];
        let rest = spec_pairs_of(parts.drop_first());
        let i = spec_find(p, '=');
        if i >= 0 {
            seq![(p.take(i), spec_percent_decode(p.skip(i + 1)))] + rest
        } else {
            rest
        }
    }
}

/// The base path and query entries of a request path: the part before the
/// first `?`, and the parsed entries of the part after it (none when
/// there is no `?`).
pub open spec fn spec_parse_qs(path: Seq<char>) -> (Seq<char>, Seq<(Seq<char>, Seq<char>)>) {
    let q = spec_find(path, '?');
    if q < 0 {
        (path, Seq::empty())
    } else {
        (path.take(q), spec_pairs_of(spec_split(path.skip(q + 1), '&')))
    }
}

/// The views of a vector of string pairs.
pub open spec fn pair_views(m: Seq<(String, String)>) -> Seq<(Seq<char>, Seq<char>)> {
    m.map_values(|p: (String, String)| (p.0@, p.1@))
}

/// Split a request path into its base path and its parsed query entries.
pub fn parse_qs(path: &str) -> (r: (String, Vec<(String, String)>))
    ensures
        r.0@ == spec_parse_qs(path@).0,
        pair_views(r.1@) == spec_parse_qs(path@).1,
{
    let cs = chars_vec(path);
    let mut map: Vec<(String, String)> = Vec::new();
    let base: Vec<char>;
    match find_char(&cs, '?') {
        None => {
            base = cs;
        },
        Some(q) => {
            let mut b: Vec<char> = Vec::new();
            let mut k: usize = 0;
            while k < q
                invariant
                    k <= q < cs@.len(),
                    b@ == cs@.subrange(0, k as int),
                decreases q - k,
            {
                b.push(cs[k]);
                proof {
                    assert(b@ =~= cs@.subrange(0, k as int + 1));
                }
                k = k + 1;
            }
            proof {
                assert(b@ =~= cs@.take(q as int));
            }
            base = b;
            let total = cs.len();
            let mut rest: Vec<char> = Vec::new();
            let mut k2: usize = q + 1;
            while k2 < total
                invariant
                    q < k2 <= cs@.len(),
                    total == cs@.len(),
                    rest@ == cs@.subrange(q as int + 1, k2 as int),
                decreases cs@.len() - k2,
            {
                rest.push(cs[k2]);
                proof {
                    assert(rest@ =~= cs@.subrange(q as int + 1, k2 as int + 1));
                }
                k2 = k2 + 1;
            }
            proof {
                assert(rest@ =~= cs@.skip(q as int + 1));
            }
            let parts = split_char(&rest, '&');
            let mut i: usize = 0;
            proof {
                assert(views2(parts@).skip(0) =~= views2(parts@));
                assert(pair_views(map@) + spec_pairs_of(views2(parts@)) =~= spec_pairs_of(
                    views2(parts@),
                ));
            }
            while i < parts.len()
                invariant
                    i <= parts@.len(),
                    pair_views(map@) + spec_pairs_of(views2(parts@).skip(i as int))
                        == spec_pairs_of(views2(parts@)),
                decreases parts@.len() - i,
            {
                let ghost remv = views2(parts@).skip(i as int);
                proof {
                    assert(remv[0] == parts@[i as int]@);
                    assert(remv.drop_first() =~= views2(parts@).skip(i as int + 1));
                }
                let p = &parts[i];
                match find_char(p, '=') {
                    Some(e) => {
                        let mut key: Vec<char> = Vec::new();
                        let mut k3: usize = 0;
                        while k3 < e
                            invariant
                                k3 <= e < p@.len(),
                                key@ == p@.subrange(0, k3 as int),
                            decreases e - k3,
                        {
                            key.push(p[k3]);
                            proof {
                                assert(key@ =~= p@.subrange(0, k3 as int + 1));
                            }
                            k3 = k3 + 1;
                        }
                        let plen = p.len();
                        let mut val: Vec<char> = Vec::new();
                        let mut k4: usize = e + 1;
                        while k4 < plen
                            invariant
                                e < k4 <= p@.len(),
                                plen == p@.len(),
                                val@ == p@.subrange(e as int + 1, k4 as int),
                            decreases p@.len() - k4,
                        {
                            val.push(p[k4]);
                            proof {
                                assert(val@ =~= p@.subrange(e as int + 1, k4 as int + 1));
                            }
                            k4 = k4 + 1;
                        }
                        proof {
                            assert(key@ =~= p@.take(e as int));
                            assert(val@ =~= p@.skip(e as int + 1));
                        }
                        let dec = percent_decode_chars(&val);
                        let ghost prevm = map@;
                        map.push((chars_to_string(&key), chars_to_string(&dec)));
                        proof {
                            assert(pair_views(map@) =~= pair_views(prevm).push(
                                (p@.take(e as int), spec_percent_decode(p@.skip(e as int + 1))),
                            ));
                            assert(pair_views(map@) + spec_pairs_of(
                                views2(parts@).skip(i as int + 1),
                            ) =~= pair_views(prevm) + spec_pairs_of(remv));
                        }
                    },
                    None => {
                    },
                }
                i = i + 1;
            }
            proof {
                assert(views2(parts@).skip(parts@.len() as int) =~= Seq::<Seq<char>>::empty());
                assert(pair_views(map@) =~= spec_pairs_of(views2(parts@)));
            }
        },
    }
    (chars_to_string(&base), map)
}

/// The value of the last entry with this key, as a hash-map built by
/// insertion would hold it; `None` when no entry has the key.
pub open spec fn spec_qs_get(m: Seq<(Seq<char>, Seq<char>)>, k: Seq<char>) -> Option<Seq<char>>
    decreases m.len(),
{
    if m.len() == 0 {
        None
    } else if m.last().0 == k {
        Some(m.last().1)
    } else {
        spec_qs_get(m.drop_last(), k)
    }
}

/// Look a key up among parsed query entries, last entry winning.
pub fn qs_get<'a>(m: &'a Vec<(String, String)>, k: &str) -> (r: Option<&'a String>)
    ensures
        match r {
            Some(v) => spec_qs_get(pair_views(m@), k@) == Some(v@),
            None => spec_qs_get(pair_views(m@), k@) == None::<Seq<char>>,
        },
{
    let ks = String::from_str(k);
    let mut i: usize = m.len();
    proof {
        assert(pair_views(m@).take(m@.len() as int) =~= pair_views(m@));
    }
    while i > 0
        invariant
            i <= m@.len(),
            ks@ == k@,
            spec_qs_get(pair_views(m@), k@) == spec_qs_get(
                pair_views(m@).take(i as int),
                k@,
            ),
        decreases i,
    {
        i = i - 1;
        let ghost pre = pair_views(m@).take(i as int + 1);
        proof {
            assert(pre.len() == i + 1);
            assert(pre.last() == (m@[i as int].0@, m@[i as int].1@));
            assert(pre.drop_last() =~= pair_views(m@).take(i as int));
        }
        if m[i].0.eq(&ks) {
            return Some(&m[i].1);
        }
    }
    proof {
        assert(pair_views(m@).take(0) =~= Seq::<(Seq<char>, Seq<char>)>::empty());
    }
    None
}

/// A decimal digit.
pub open spec fn spec_is_digit(c: char) -> bool {
    '0' <= c && c <= '9'
}

/// Every character is a decimal digit.
pub open spec fn spec_all_digits(s: Seq<char>) -> bool {
    forall|i: int| 0 <= i < s.len() ==> spec_is_digit(s[i])
}

/// The value of a digit string read in base ten.
pub open spec fn spec_digits_val(s: Seq<char>) -> int
    decreases s.len(),
{
    if s.len() == 0 {
        0
    } else {
        spec_digits_val(s.drop_last()) * 10 + (s.last() as int - '0' as int)
    }
}

/// What `str::parse::<i64>` accepts: an optional sign followed by one or
/// more digits, whose value fits a 64-bit signed integer.
pub open spec fn spec_parse_i64(s: Seq<char>) -> Option<int> {
    let neg = s.len() > 0 && s[0] == '-';
    let ds = if s.len() > 0 && (s[0] == '-' || s[0] == '+') {
        s.drop_first()
    } else {
        s
    };
    if ds.len() == 0 || !spec_all_digits(ds) {
        None
    } else {
        let v = if neg {
            -spec_digits_val(ds)
        } else {
            spec_digits_val(ds)
        };
        if -0x8000_0000_0000_0000 <= v <= 0x7fff_ffff_ffff_ffff {
            Some(v)
        } else {
            None
        }
    }
}

proof fn lemma_digits_nonneg(s: Seq<char>)
    requires
        spec_all_digits(s),
    ensures
        spec_digits_val(s) >= 0,
    decreases s.len(),
{
    if s.len() > 0 {
        assert(spec_all_digits(s.drop_last()));
        lemma_digits_nonneg(s.drop_last());
        assert(spec_is_digit(s.last()));
    }
}

proof fn lemma_digits_prefix(s: Seq<char>, j: int)
    requires
        spec_all_digits(s),
        0 <= j <= s.len(),
    ensures
        spec_digits_val(s) >= spec_digits_val(s.take(j)),
    decreases s.len(),
{
    if j < s.len() {
        assert(spec_all_digits(s.drop_last()));
        assert(s.drop_last().take(j) =~= s.take(j));
        lemma_digits_prefix(s.drop_last(), j);
        lemma_digits_nonneg(s.drop_last());
        assert(spec_is_digit(s.last()));
        assert(spec_digits_val(s) >= spec_digits_val(s.drop_last()));
    } else {
        assert(s.take(j) =~= s);
    }
}

/// Parse a signed 64-bit decimal number, as `str::parse::<i64>` does.
pub fn parse_i64(s: &str) -> (r: Option<i64>)
    ensures
        match r {
            Some(v) => spec_parse_i64(s@) == Some(v as int),
            None => spec_parse_i64(s@) == None::<int>,
        },
{
    let cs = chars_vec(s);
    let n = cs.len();
    let neg: bool = n > 0 && cs[0] == '-';
    let start: usize = if n > 0 && (cs[0] == '-' || cs[0] == '+') {
        1
    } else {
        0
    };
    let ghost ds = if s@.len() > 0 && (s@[0] == '-' || s@[0] == '+') {
        s@.drop_first()
    } else {
        s@
    };
    proof {
        assert(ds =~= s@.subrange(start as int, n as int));
    }
    if n == start {
        return None;
    }
    let limit: u64 = if neg {
        0x8000_0000_0000_0000
    } else {
        0x7fff_ffff_ffff_ffff
    };
    let mut mag: u64 = 0;
    let mut i: usize = start;
    while i < n
        invariant
            start <= i <= n,
            n == s@.len(),
            cs@ == s@,
            neg == (s@.len() > 0 && s@[0] == '-'),
            start as int == (if s@.len() > 0 && (s@[0] == '-' || s@[0] == '+') {
                1int
            } else {
                0int
            }),
            ds == s@.subrange(start as int, n as int),
            spec_all_digits(ds.take(i - start)),
            mag as int == spec_digits_val(ds.take(i - start)),
            mag <= limit,
            limit == (if neg {
                0x8000_0000_0000_0000u64
            } else {
                0x7fff_ffff_ffff_ffffu64
            }),
        decreases n - i,
    {
        let c = cs[i];
        if !('0' <= c && c <= '9') {
            proof {
                assert(ds[i - start] == s@[i as int]);
                assert(!spec_is_digit(ds[i - start]));
                assert(!spec_all_digits(ds));
                let sds = if s@.len() > 0 && (s@[0] == '-' || s@[0] == '+') {
                    s@.drop_first()
                } else {
                    s@
                };
                assert(sds =~= ds);
                assert(!spec_all_digits(sds));
                assert(spec_parse_i64(s@) is None);
            }
            return None;
        }
        let d: u64 = ((c as u32) - ('0' as u32)) as u64;
        proof {
            assert(ds.take(i - start + 1).drop_last() =~= ds.take(i - start));
            assert(ds.take(i - start + 1).last() == s@[i as int]);
        }
        if mag > (limit - d) / 10 {
            proof {
                assert(10 * (mag as int) + d as int > limit as int) by (nonlinear_arith)
                    requires
                        mag as int > ((limit - d) as int) / 10 && d <= limit,
                ;
                let pre = ds.take(i - start + 1);
                assert(pre.last() == s@[i as int]);
                assert(pre.last() as int - '0' as int == d as int);
                assert(spec_digits_val(pre) == mag as int * 10 + d as int);
                assert(spec_digits_val(pre) > limit as int);
                let sds = if s@.len() > 0 && (s@[0] == '-' || s@[0] == '+') {
                    s@.drop_first()
                } else {
                    s@
                };
                assert(sds =~= ds);
                if spec_all_digits(ds) {
                    lemma_digits_prefix(ds, i - start + 1);
                    assert(spec_digits_val(ds) > limit as int);
                    if neg {
                        assert(-spec_digits_val(sds) < -0x8000_0000_0000_0000);
                    } else {
                        assert(spec_digits_val(sds) > 0x7fff_ffff_ffff_ffff);
                    }
                    assert(spec_parse_i64(s@) is None);
                } else {
                    assert(spec_parse_i64(s@) is None);
                }
            }
            return None;
        }
        proof {
            assert((mag as int) * 10 + d as int <= limit as int) by (nonlinear_arith)
                requires
                    mag as int <= ((limit - d) as int) / 10 && d <= limit,
            ;
        }
        mag = mag * 10 + d;
        i = i + 1;
    }
    proof {
        assert(ds.take(n - start) =~= ds);
        lemma_digits_nonneg(ds);
    }
    if neg {
        if mag == 0x8000_0000_0000_0000 {
            Some(i64::MIN)
        } else {
            Some(-(mag as i64))
        }
    } else {
        Some(mag as i64)
    }
}

/// A date-only filter value: the trimmed text when it has exactly ten
/// characters with dashes at positions four and seven, else nothing.
pub open spec fn spec_to_date_only(value: Seq<char>) -> Option<Seq<char>> {
    let t = spec_trim(value);
    if t.len() == 10 && t[4] == '-' && t[7] == '-' {
        Some(t)
    } else {
        None
    }
}

/// Validate a date-range filter value.
pub fn to_date_only(value: &str) -> (r: Option<String>)
    ensures
        match r {
            Some(t) => spec_to_date_only(value@) == Some(t@),
            None => spec_to_date_only(value@) == None::<Seq<char>>,
        },
{
    let cs = chars_vec(value);
    let t = trim_chars(&cs);
    if t.len() == 10 {
        let c4 = t[4];
        let c7 = t[7];
        if c4 == '-' && c7 == '-' {
            return Some(chars_to_string(&t));
        }
    }
    None
}

} // verus!
