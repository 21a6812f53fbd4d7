//! Verified string utilities: comparison, splitting, joining, decimal
//! rendering and Lua string escaping.

use vstd::prelude::*;

verus! {

/// Relies on `String::push`: appends the given character to the end of the
/// string.
#[verifier::external_body]
pub fn push_char(s: &mut String, c: char)
    ensures
        final(s)@ == old(s)@.push(c),
{
    s.push(c);
}

/// Character-for-character string equality.
pub fn str_eq(a: &str, b: &str) -> (r: bool)
    ensures
        r == (a@ == b@),
{
    let na = a.unicode_len();
    let nb = b.unicode_len();
    if na != nb {
        proof {
            assert(a@ != b@);
        }
        return false;
    }
    let mut i: usize = 0;
    while i < na
        invariant
            i <= na,
            na == a@.len(),
            na == b@.len(),
            forall|j: int| 0 <= j < i ==> a@[j] == b@[j],
        decreases na - i,
    {
        if a.get_char(i) != b.get_char(i) {
            proof {
                assert(a@[i as int] != b@[i as int]);
            }
            return false;
        }
        i = i + 1;
    }
    proof {
        assert(a@ =~= b@);
    }
    true
}

/// Maps an ASCII upper-case code point to its lower-case counterpart and
/// leaves every other code point alone.
pub open spec fn lower_code(x: u32) -> u32 {
    if 65 <= x <= 90 {
        (x + 32) as u32
    } else {
        x
    }
}

/// ASCII-case-insensitive string equality.
pub open spec fn eq_icase(a: Seq<char>, b: Seq<char>) -> bool {
    a.len() == b.len() && forall|i: int|
        0 <= i < a.len() ==> lower_code(#[trigger] a[i] as u32) == lower_code(b[i] as u32)
}

/// Compares two strings ignoring ASCII case.
pub fn str_eq_icase(a: &str, b: &str) -> (r: bool)
    ensures
        r == eq_icase(a@, b@),
{
    let na = a.unicode_len();
    let nb = b.unicode_len();
    if na != nb {
        return false;
    }
    let mut i: usize = 0;
    while i < na
        invariant
            i <= na,
            na == a@.len(),
            na == b@.len(),
            forall|j: int| 0 <= j < i ==> lower_code(#[trigger] a@[j] as u32) == lower_code(
                b@[j] as u32,
            ),
        decreases na - i,
    {
        let mut ca = a.get_char(i) as u32;
        let mut cb = b.get_char(i) as u32;
        if 65 <= ca && ca <= 90 {
            ca = ca + 32;
        }
        if 65 <= cb && cb <= 90 {
            cb = cb + 32;
        }
        if ca != cb {
            return false;
        }
        i = i + 1;
    }
    true
}

/// Splitting with an explicit chunk under construction; `spec_split` below
/// starts it with the empty chunk.
pub open spec fn split_acc(s: Seq<char>, sep: char, cur: Seq<char>) -> Seq<Seq<char>>
    decreases s.len(),
{
    if s.len() == 0 {
        seq![cur]
    } else if s[0] == sep {
        seq![cur] + split_acc(s.drop_first(), sep, Seq::empty())
    } else {
        split_acc(s.drop_first(), sep, cur.push(s[0]))
    }
}

/// The chunks of `s` between occurrences of `sep`: always one chunk more
/// than there are separators, so the empty string has one empty chunk.
pub open spec fn spec_split(s: Seq<char>, sep: char) -> Seq<Seq<char>> {
    split_acc(s, sep, Seq::empty())
}

/// Splits `s` on every occurrence of `sep`.
pub fn split_str<'a>(s: &'a str, sep: char) -> (parts: Vec<&'a str>)
    ensures
        parts@.map_values(|t: &str| t@) == spec_split(s@, sep),
{
    let n = s.unicode_len();
    let mut parts: Vec<&'a str> = Vec::new();
    let mut start: usize = 0;
    let mut i: usize = 0;
    proof {
        assert(s@.skip(0) =~= s@);
        assert(s@.subrange(0, 0) =~= Seq::<char>::empty());
        assert(parts@.map_values(|t: &str| t@) + split_acc(s@, sep, Seq::<char>::empty())
            =~= split_acc(s@, sep, Seq::<char>::empty()));
    }
    while i < n
        invariant
            start <= i <= n,
            n == s@.len(),
            spec_split(s@, sep) == parts@.map_values(|t: &str| t@) + split_acc(
                s@.skip(i as int),
                sep,
                s@.subrange(start as int, i as int),
            ),
        decreases n - i,
    {
        let ghost rest = s@.skip(i as int);
        let ghost cur = s@.subrange(start as int, i as int);
        proof {
            assert(rest[0] == s@[i as int]);
            assert(rest.drop_first() =~= s@.skip(i + 1));
        }
        let c = s.get_char(i);
        if c == sep {
            let part = s.substring_char(start, i);
            proof {
                assert(split_acc(rest, sep, cur) == seq![cur] + split_acc(
                    s@.skip(i + 1),
                    sep,
                    Seq::<char>::empty(),
                ));
                assert((parts@.push(part)).map_values(|t: &str| t@) =~= parts@.map_values(
                    |t: &str| t@,
                ).push(part@));
                assert(parts@.map_values(|t: &str| t@).push(cur) + split_acc(
                    s@.skip(i + 1),
                    sep,
                    Seq::<char>::empty(),
                ) =~= parts@.map_values(|t: &str| t@) + (seq![cur] + split_acc(
                    s@.skip(i + 1),
                    sep,
                    Seq::<char>::empty(),
                )));
                assert(s@.subrange(i + 1, i + 1) =~= Seq::<char>::empty());
            }
            parts.push(part);
            start = i + 1;
        } else {
            proof {
                assert(split_acc(rest, sep, cur) == split_acc(
                    s@.skip(i + 1),
                    sep,
                    cur.push(s@[i as int]),
                ));
                assert(cur.push(s@[i as int]) =~= s@.subrange(start as int, i + 1));
            }
        }
        i = i + 1;
    }
    let last = s.substring_char(start, n);
    proof {
        assert(s@.skip(n as int).len() == 0);
        assert(split_acc(s@.skip(n as int), sep, s@.subrange(start as int, n as int)) == seq![
            s@.subrange(start as int, n as int),
        ]);
        assert((parts@.push(last)).map_values(|t: &str| t@) =~= parts@.map_values(|t: &str| t@)
            + seq![s@.subrange(start as int, n as int)]);
    }
    parts.push(last);
    parts
}

/// The ASCII digit for a value below ten.
pub open spec fn digit_char(d: nat) -> char {
    if d == 0 {
        '0'
    } else if d == 1 {
        '1'
    } else if d == 2 {
        '2'
    } else if d == 3 {
        '3'
    } else if d == 4 {
        '4'
    } else if d == 5 {
        '5'
    } else if d == 6 {
        '6'
    } else if d == 7 {
        '7'
    } else if d == 8 {
        '8'
    } else {
        '9'
    }
}

/// The canonical decimal rendering of a natural number.
pub open spec fn dec_str(n: nat) -> Seq<char>
    decreases n,
{
    if n < 10 {
        seq![digit_char(n)]
    } else {
        dec_str(n / 10).push(digit_char(n % 10))
    }
}

/// The canonical decimal rendering of an integer: a minus sign before the
/// magnitude for negative values.
pub open spec fn dec_str_int(n: int) -> Seq<char> {
    if n < 0 {
        seq!['-'] + dec_str((0 - n) as nat)
    } else {
        dec_str(n as nat)
    }
}

fn digit_to_char(d: u8) -> (c: char)
    requires
        d < 10,
    ensures
        c == digit_char(d as nat),
{
    if d == 0 {
        '0'
    } else if d == 1 {
        '1'
    } else if d == 2 {
        '2'
    } else if d == 3 {
        '3'
    } else if d == 4 {
        '4'
    } else if d == 5 {
        '5'
    } else if d == 6 {
        '6'
    } else if d == 7 {
        '7'
    } else if d == 8 {
        '8'
    } else {
        '9'
    }
}

/// Appends the decimal rendering of `n` to `out`.
pub fn push_dec_u64(out: &mut String, n: u64)
    ensures
        final(out)@ == old(out)@ + dec_str(n as nat),
{
    let mut rev: Vec<char> = Vec::new();
    let mut m: u64 = n;
    while m >= 10
        invariant
            dec_str(n as nat) == dec_str(m as nat) + rev@.reverse(),
        decreases m,
    {
        let c = digit_to_char((m % 10) as u8);
        proof {
            assert(dec_str(m as nat) == dec_str(m as nat / 10).push(digit_char(m as nat % 10)));
            assert(dec_str(m as nat / 10).push(c) =~= dec_str(m as nat / 10) + seq![c]);
            assert((rev@.push(c)).reverse() =~= seq![c] + rev@.reverse());
            assert(dec_str(m as nat / 10) + (seq![c] + rev@.reverse()) =~= (dec_str(m as nat / 10)
                + seq![c]) + rev@.reverse());
        }
        rev.push(c);
        m = m / 10;
    }
    let c = digit_to_char(m as u8);
    proof {
        assert((rev@.push(c)).reverse() =~= seq![c] + rev@.reverse());
        assert(dec_str(m as nat) =~= seq![c]);
        assert(seq![c] + rev@.reverse() =~= dec_str(m as nat) + rev@.reverse());
    }
    rev.push(c);
    let ghost all = rev@;
    let mut k: usize = rev.len();
    proof {
        assert(all.reverse() =~= dec_str(n as nat));
        assert(all.reverse().take(0) =~= Seq::<char>::empty());
        assert(out@ + Seq::<char>::empty() =~= out@);
    }
    while k > 0
        invariant
            k <= all.len(),
            rev@ == all,
            out@ == old(out)@ + all.reverse().take(all.len() - k),
        decreases k,
    {
        let c = rev[k - 1];
        proof {
            assert(all.reverse()[all.len() - k] == all[k - 1]);
            assert(all.reverse().take(all.len() - (k - 1)) =~= all.reverse().take(
                all.len() - k,
            ).push(all[k - 1]));
        }
        push_char(out, c);
        k = k - 1;
    }
    proof {
        assert(all.reverse().take(all.len() as int) =~= all.reverse());
    }
}

/// Appends the decimal rendering of a signed value to `out`.
pub fn push_dec_i64(out: &mut String, n: i64)
    ensures
        final(out)@ == old(out)@ + dec_str_int(n as int),
{
    if n < 0 {
        push_char(out, '-');
        let mag: u64 = (0i128 - n as i128) as u64;
        push_dec_u64(out, mag);
        proof {
            assert(old(out)@.push('-') + dec_str(mag as nat) =~= old(out)@ + dec_str_int(n as int));
        }
    } else {
        push_dec_u64(out, n as u64);
    }
}

/// The parts, in order, with `sep` between neighbours.
pub open spec fn join_with(parts: Seq<Seq<char>>, sep: Seq<char>) -> Seq<char>
    decreases parts.len(),
{
    if parts.len() == 0 {
        Seq::empty()
    } else if parts.len() == 1 {
        parts[0]
    } else {
        parts[0] + sep + join_with(parts.drop_first(), sep)
    }
}

proof fn lemma_join_snoc(s: Seq<Seq<char>>, x: Seq<char>, sep: Seq<char>)
    ensures
        join_with(s.push(x), sep) == if s.len() == 0 {
            x
        } else {
            join_with(s, sep) + sep + x
        },
    decreases s.len(),
{
    if s.len() == 0 {
        assert(join_with(s.push(x), sep) == s.push(x)[0]);
        assert(s.push(x)[0] == x);
    } else if s.len() == 1 {
        assert(s.push(x)[0] == s[0]);
        assert(s.push(x).drop_first() =~= seq![x]);
        assert(join_with(seq![x], sep) == x);
        assert(join_with(s, sep) == s[0]);
    } else {
        assert(s.push(x)[0] == s[0]);
        assert(s.push(x).drop_first() =~= s.drop_first().push(x));
        lemma_join_snoc(s.drop_first(), x, sep);
        assert(s[0] + sep + (join_with(s.drop_first(), sep) + sep + x) =~= (s[0] + sep + join_with(
            s.drop_first(),
            sep,
        )) + sep + x);
    }
}

/// Appends the parts to `out`, separated by `sep`.
pub fn join_push(out: &mut String, parts: &Vec<String>, sep: &str)
    ensures
        final(out)@ == old(out)@ + join_with(parts.deep_view(), sep@),
{
    let n = parts.len();
    let mut i: usize = 0;
    proof {
        assert(out@ + join_with(parts.deep_view().take(0), sep@) =~= out@);
    }
    while i < n
        invariant
            i <= n,
            n == parts@.len(),
            out@ == old(out)@ + join_with(parts.deep_view().take(i as int), sep@),
        decreases n - i,
    {
        proof {
            assert(parts.deep_view()[i as int] == parts@[i as int]@);
            assert(parts.deep_view().take(i + 1) =~= parts.deep_view().take(i as int).push(
                parts@[i as int]@,
            ));
            lemma_join_snoc(parts.deep_view().take(i as int), parts@[i as int]@, sep@);
        }
        if i > 0 {
            out.append(sep);
        } else {
            proof {
                assert(out@ =~= old(out)@);
            }
        }
        out.append(parts[i].as_str());
        i = i + 1;
    }
    proof {
        assert(parts.deep_view().take(n as int) =~= parts.deep_view());
    }
}

/// The one-character sequences a character renders as inside a quoted Lua
/// string: a backslash is put before a quote, a carriage return and a line
/// feed; everything else stands as itself.
pub open spec fn escape_char(c: char) -> Seq<char> {
    if c == '"' || c == '\r' || c == '\n' {
        seq!['\\', c]
    } else {
        seq![c]
    }
}

/// The body of a quoted Lua string.
pub open spec fn escape_str(s: Seq<char>) -> Seq<char>
    decreases s.len(),
{
    if s.len() == 0 {
        Seq::empty()
    } else {
        escape_char(s[0]) + escape_str(s.drop_first())
    }
}

/// A Lua string literal: the escaped body between double quotes.
pub open spec fn lua_quote(s: Seq<char>) -> Seq<char> {
    seq!['"'] + escape_str(s) + seq!['"']
}

proof fn lemma_escape_snoc(s: Seq<char>, c: char)
    ensures
        escape_str(s.push(c)) == escape_str(s) + escape_char(c),
    decreases s.len(),
{
    if s.len() == 0 {
        assert(s.push(c)[0] == c);
        assert(s.push(c).drop_first() =~= Seq::<char>::empty());
        assert(escape_str(s.push(c)) == escape_char(c) + escape_str(Seq::<char>::empty()));
        assert(escape_char(c) + Seq::<char>::empty() =~= escape_char(c));
        assert(escape_str(s) + escape_char(c) =~= escape_char(c));
    } else {
        assert(s.push(c).drop_first() =~= s.drop_first().push(c));
        lemma_escape_snoc(s.drop_first(), c);
        assert(escape_str(s.push(c)) == escape_char(s[0]) + (escape_str(s.drop_first())
            + escape_char(c)));
        assert(escape_char(s[0]) + (escape_str(s.drop_first()) + escape_char(c)) =~= (escape_char(
            s[0],
        ) + escape_str(s.drop_first())) + escape_char(c));
    }
}

/// Appends the Lua string literal for `s` to `out`.
pub fn push_lua_quoted(out: &mut String, s: &str)
    ensures
        final(out)@ == old(out)@ + lua_quote(s@),
{
    let n = s.unicode_len();
    push_char(out, '"');
    let mut i: usize = 0;
    while i < n
        invariant
            i <= n,
            n == s@.len(),
            out@ == old(out)@ + seq!['"'] + escape_str(s@.take(i as int)),
        decreases n - i,
    {
        let c = s.get_char(i);
        proof {
            assert(s@.take(i + 1).drop_last() =~= s@.take(i as int));
            assert(s@.take(i + 1) =~= s@.take(i as int).push(s@[i as int]));
            lemma_escape_snoc(s@.take(i as int), s@[i as int]);
        }
        if c == '"' || c == '\r' || c == '\n' {
            push_char(out, '\\');
            push_char(out, c);
            proof {
                assert(out@ =~= old(out)@ + seq!['"'] + escape_str(s@.take(i + 1)));
            }
        } else {
            push_char(out, c);
            proof {
                assert(out@ =~= old(out)@ + seq!['"'] + escape_str(s@.take(i + 1)));
            }
        }
        i = i + 1;
    }
    proof {
        assert(s@.take(n as int) =~= s@);
    }
    push_char(out, '"');
    proof {
        assert(out@ =~= old(out)@ + lua_quote(s@));
    }
}

} // verus!
