//! Verified text utilities: decimal numbers, splitting, joining and trimming.
//!
//! Everything the ledger file format and the driver protocol need from
//! strings is defined here, each executable function against an exact
//! specification over `Seq<char>`.

use vstd::prelude::*;

verus! {

/// Appends one character.
///
/// Relies on `String::push`: pushes the given `char` onto the end of the string.
#[verifier::external_body]
pub fn push_char(s: &mut String, c: char)
    ensures
        final(s)@ == old(s)@.push(c),
{
    s.push(c);
}

// ------------------------------------------------------------------
// Decimal digits
// ------------------------------------------------------------------

/// The character for one decimal digit.
pub open spec fn digit_char(d: nat) -> char
    recommends
        d < 10,
{
    ((48 + d) as u8) as char
}

/// Whether `c` is an ASCII decimal digit.
pub open spec fn is_digit_char(c: char) -> bool {
    48 <= c as u32 <= 57
}

/// The numeric value of a digit character (0 for anything else).
pub open spec fn digit_val(c: char) -> nat {
    if is_digit_char(c) {
        (c as u32 - 48) as nat
    } else {
        0
    }
}

/// The canonical decimal representation of `n`, most significant digit first.
pub open spec fn dec_digits(n: nat) -> Seq<char>
    decreases n,
{
    if n < 10 {
        seq![digit_char(n)]
    } else {
        dec_digits(n / 10).push(digit_char(n % 10))
    }
}

/// Whether every character of `s` is a decimal digit.
pub open spec fn all_digits(s: Seq<char>) -> bool {
    forall|i: int| 0 <= i < s.len() ==> is_digit_char(s[i])
}

/// The number a digit sequence denotes.
pub open spec fn dec_val(s: Seq<char>) -> nat
    decreases s.len(),
{
    if s.len() == 0 {
        0
    } else {
        dec_val(s.drop_last()) * 10 + digit_val(s.last())
    }
}

/// `dec_digits` yields digits only and denotes the number it was built from.
pub proof fn lemma_dec_digits_val(n: nat)
    ensures
        all_digits(dec_digits(n)),
        dec_val(dec_digits(n)) == n,
        dec_digits(n).len() >= 1,
    decreases n,
{
    if n < 10 {
        assert(dec_digits(n) =~= seq![digit_char(n)]);
        assert(dec_digits(n).drop_last() =~= Seq::<char>::empty());
        assert(dec_val(Seq::<char>::empty()) == 0);
        assert(digit_val(digit_char(n)) == n);
        assert(dec_val(dec_digits(n)) == 0 * 10 + digit_val(digit_char(n)));
    } else {
        lemma_dec_digits_val(n / 10);
        let d = dec_digits(n);
        assert(d.drop_last() =~= dec_digits(n / 10));
        assert(digit_val(digit_char(n % 10)) == n % 10);
        assert(dec_val(d) == (n / 10) * 10 + n % 10);
        assert((n / 10) * 10 + n % 10 == n) by (nonlinear_arith);
    }
}

/// Extending a digit string never shrinks its value.
pub proof fn lemma_dec_val_prefix_le(s: Seq<char>, i: int)
    requires
        0 <= i <= s.len(),
    ensures
        dec_val(s.take(i)) <= dec_val(s),
    decreases s.len() - i,
{
    if i < s.len() {
        lemma_dec_val_prefix_le(s, i + 1);
        let t = s.take(i + 1);
        assert(t.drop_last() =~= s.take(i));
        assert(dec_val(t) == dec_val(s.take(i)) * 10 + digit_val(t.last()));
        assert(dec_val(s.take(i)) * 10 >= dec_val(s.take(i))) by (nonlinear_arith);
    } else {
        assert(s.take(i) =~= s);
    }
}

/// Writes `n` in decimal.
pub fn fmt_u64(n: u64) -> (r: String)
    ensures
        r@ == dec_digits(n as nat),
        all_digits(r@),
        r@.len() >= 1,
{
    let mut rev: Vec<char> = Vec::new();
    let mut m: u64 = n;
    rev.push(((48 + (m % 10)) as u8) as char);
    m = m / 10;
    proof {
        assert(rev@.reverse() =~= seq![digit_char((n % 10) as nat)]);
        if m > 0 {
            assert(dec_digits(n as nat) == dec_digits((n / 10) as nat).push(
                digit_char((n % 10) as nat),
            ));
            assert(dec_digits(n as nat) =~= dec_digits(m as nat) + rev@.reverse());
        } else {
            assert(n < 10 && n % 10 == n);
            assert(dec_digits(n as nat) =~= rev@.reverse());
        }
    }
    while m > 0
        invariant
            rev@.len() >= 1,
            m > 0 ==> dec_digits(n as nat) == dec_digits(m as nat) + rev@.reverse(),
            m == 0 ==> dec_digits(n as nat) == rev@.reverse(),
        decreases m,
    {
        let ghost old_m = m as nat;
        let ghost old_rev = rev@;
        let ghost d = digit_char((m % 10) as nat);
        rev.push(((48 + (m % 10)) as u8) as char);
        m = m / 10;
        proof {
            lemma_reverse_push(old_rev, d);
            assert(rev@ =~= old_rev.push(d));
            if old_m < 10 {
                assert(old_m % 10 == old_m);
                assert(dec_digits(old_m) =~= seq![d]);
                assert(seq![d] + old_rev.reverse() =~= rev@.reverse());
            } else {
                assert(dec_digits(old_m) == dec_digits(old_m / 10).push(d));
                assert(dec_digits(old_m / 10).push(d) + old_rev.reverse() =~= dec_digits(
                    old_m / 10,
                ) + rev@.reverse());
                assert(dec_digits(n as nat) == dec_digits(m as nat) + rev@.reverse());
            }
        }
    }
    let mut r = String::new();
    proof {
        assert(r@ + rev@.reverse() =~= rev@.reverse());
    }
    while rev.len() > 0
        invariant
            r@ + rev@.reverse() == dec_digits(n as nat),
        decreases rev@.len(),
    {
        let ghost old_rev = rev@;
        let ghost old_r = r@;
        proof {
            lemma_reverse_drop_last(old_rev);
        }
        let c = rev.pop().unwrap();
        push_char(&mut r, c);
        proof {
            assert(old_r + (seq![c] + old_rev.drop_last().reverse()) =~= old_r.push(c)
                + old_rev.drop_last().reverse());
            assert(r@ + rev@.reverse() == dec_digits(n as nat));
        }
    }
    proof {
        assert(r@ =~= r@ + rev@.reverse());
        lemma_dec_digits_val(n as nat);
    }
    r
}

/// Reversing after a push puts the new element first.
proof fn lemma_reverse_push(s: Seq<char>, c: char)
    ensures
        s.push(c).reverse() =~= seq![c] + s.reverse(),
{
}

/// Reversing splits off the last element at the front.
proof fn lemma_reverse_drop_last(s: Seq<char>)
    requires
        s.len() > 0,
    ensures
        s.reverse() =~= seq![s.last()] + s.drop_last().reverse(),
{
}

// ------------------------------------------------------------------
// Parsing unsigned integers
// ------------------------------------------------------------------

/// The digit part of a decimal string: an optional leading `+` is skipped.
pub open spec fn num_body(s: Seq<char>) -> Seq<char> {
    if s.len() > 0 && s[0] == '+' {
        s.drop_first()
    } else {
        s
    }
}

/// Whether `s` is a decimal string whose value fits in `u64`.
pub open spec fn is_u64_string(s: Seq<char>) -> bool {
    &&& num_body(s).len() > 0
    &&& all_digits(num_body(s))
    &&& dec_val(num_body(s)) <= u64::MAX
}

/// What parsing `s` as a `u64` yields.
pub open spec fn spec_parse_u64(s: Seq<char>) -> Option<u64> {
    if is_u64_string(s) {
        Some(dec_val(num_body(s)) as u64)
    } else {
        None
    }
}

/// Parses a decimal `u64`, rejecting anything but (optionally `+`-prefixed)
/// digits and any value that overflows.
pub fn parse_u64(s: &str) -> (r: Option<u64>)
    ensures
        r == spec_parse_u64(s@),
{
    let len = s.unicode_len();
    if len == 0 {
        return None;
    }
    let start: usize = if s.get_char(0) == '+' {
        1
    } else {
        0
    };
    if start == len {
        return None;
    }
    let ghost body = num_body(s@);
    proof {
        assert(body =~= s@.skip(start as int));
    }
    let mut acc: u64 = 0;
    let mut i: usize = start;
    proof {
        assert(body.take(0) =~= Seq::<char>::empty());
    }
    while i < len
        invariant
            start <= i <= len,
            len == s@.len(),
            body == num_body(s@),
            body =~= s@.skip(start as int),
            start <= 1,
            all_digits(body.take(i - start)),
            acc == dec_val(body.take(i - start)),
        decreases len - i,
    {
        let c = s.get_char(i);
        let v = c as u32;
        proof {
            assert(body[i - start] == s@[i as int]);
        }
        if v < 48 || v > 57 {
            proof {
                assert(!is_digit_char(body[i - start]));
            }
            return None;
        }
        let d = (v - 48) as u64;
        if acc > (u64::MAX - d) / 10 {
            proof {
                let t = body.take(i - start + 1);
                assert(t.drop_last() =~= body.take(i - start));
                assert(t.last() == body[i - start]);
                assert(digit_val(t.last()) == d);
                assert(dec_val(t) == acc * 10 + d);
                assert(acc * 10 + d > u64::MAX) by (nonlinear_arith)
                    requires
                        acc > (u64::MAX - d) / 10,
                        d <= 9,
                        acc <= u64::MAX,
                ;
                lemma_dec_val_prefix_le(body, i - start + 1);
            }
            return None;
        }
        proof {
            assert(acc * 10 + d <= u64::MAX) by (nonlinear_arith)
                requires
                    acc <= (u64::MAX - d) / 10,
                    d <= 9,
            ;
            let t = body.take(i - start + 1);
            assert(t.drop_last() =~= body.take(i - start));
            assert(t.last() == body[i - start]);
            assert(digit_val(t.last()) == d);
        }
        acc = acc * 10 + d;
        i = i + 1;
    }
    proof {
        assert(body.take(i - start) =~= body);
    }
    Some(acc)
}

/// What parsing `s` as a `u32` yields.
pub open spec fn spec_parse_u32(s: Seq<char>) -> Option<u32> {
    if is_u64_string(s) && dec_val(num_body(s)) <= u32::MAX {
        Some(dec_val(num_body(s)) as u32)
    } else {
        None
    }
}

/// Parses a decimal `u32`.
pub fn parse_u32(s: &str) -> (r: Option<u32>)
    ensures
        r == spec_parse_u32(s@),
{
    match parse_u64(s) {
        Some(v) => if v <= u32::MAX as u64 {
            Some(v as u32)
        } else {
            None
        },
        None => None,
    }
}

// ------------------------------------------------------------------
// Splitting and joining on a separator character
// ------------------------------------------------------------------

/// Whether `p` holds no occurrence of `sep`.
pub open spec fn sep_free(p: Seq<char>, sep: char) -> bool {
    forall|i: int| 0 <= i < p.len() ==> p[i] != sep
}

/// The fields of `s` between occurrences of `sep`: always at least one,
/// empty fields kept.
pub open spec fn spec_split(s: Seq<char>, sep: char) -> Seq<Seq<char>>
    decreases s.len(),
{
    if s.len() == 0 {
        seq![Seq::<char>::empty()]
    } else if s[0] == sep {
        seq![Seq::<char>::empty()] + spec_split(s.drop_first(), sep)
    } else {
        let r = spec_split(s.drop_first(), sep);
        seq![seq![s[0]] + r[0]] + r.skip(1)
    }
}

/// The fields put back together with `sep` between them.
pub open spec fn spec_join(parts: Seq<Seq<char>>, sep: char) -> Seq<char>
    decreases parts.len(),
{
    if parts.len() == 0 {
        Seq::<char>::empty()
    } else if parts.len() == 1 {
        parts[0]
    } else {
        parts[0] + seq![sep] + spec_join(parts.drop_first(), sep)
    }
}

/// A split always yields at least one field, each free of the separator.
pub proof fn lemma_split_basic(s: Seq<char>, sep: char)
    ensures
        spec_split(s, sep).len() >= 1,
        forall|k: int|
            0 <= k < spec_split(s, sep).len() ==> sep_free(#[trigger] spec_split(s, sep)[k], sep),
    decreases s.len(),
{
    if s.len() == 0 {
    } else if s[0] == sep {
        lemma_split_basic(s.drop_first(), sep);
    } else {
        lemma_split_basic(s.drop_first(), sep);
        let r = spec_split(s.drop_first(), sep);
        assert forall|k: int| 0 <= k < spec_split(s, sep).len() implies sep_free(
            #[trigger] spec_split(s, sep)[k],
            sep,
        ) by {
            if k == 0 {
                assert(sep_free(r[0], sep));
                assert(spec_split(s, sep)[0] =~= seq![s[0]] + r[0]);
            } else {
                assert(spec_split(s, sep)[k] == r[k]);
            }
        }
    }
}

/// A separator-free string splits into just itself.
pub proof fn lemma_split_of_free(p: Seq<char>, sep: char)
    requires
        sep_free(p, sep),
    ensures
        spec_split(p, sep) == seq![p],
    decreases p.len(),
{
    if p.len() == 0 {
        assert(spec_split(p, sep) =~~= seq![p]);
    } else {
        assert(p[0] != sep);
        lemma_split_of_free(p.drop_first(), sep);
        let r = spec_split(p.drop_first(), sep);
        assert(r[0] == p.drop_first());
        assert(r.skip(1) =~= Seq::<Seq<char>>::empty());
        assert(seq![p[0]] + p.drop_first() =~= p);
        assert(spec_split(p, sep) =~~= seq![p]);
    }
}

/// Splitting `p + sep + t` peels off the separator-free field `p`.
pub proof fn lemma_split_peel(p: Seq<char>, t: Seq<char>, sep: char)
    requires
        sep_free(p, sep),
    ensures
        spec_split(p + seq![sep] + t, sep) == seq![p] + spec_split(t, sep),
    decreases p.len(),
{
    lemma_split_basic(t, sep);
    if p.len() == 0 {
        let s = p + seq![sep] + t;
        assert(s[0] == sep);
        assert(s.drop_first() =~= t);
        assert(spec_split(s, sep) == seq![Seq::<char>::empty()] + spec_split(t, sep));
        assert(p =~= Seq::<char>::empty());
        assert(seq![Seq::<char>::empty()] + spec_split(t, sep) =~~= seq![p] + spec_split(t, sep));
    } else {
        lemma_split_peel(p.drop_first(), t, sep);
        let s = p + seq![sep] + t;
        assert(s[0] == p[0] && p[0] != sep);
        assert(s.drop_first() =~= p.drop_first() + seq![sep] + t);
        let r = spec_split(s.drop_first(), sep);
        assert(r == seq![p.drop_first()] + spec_split(t, sep));
        assert(r[0] == p.drop_first());
        assert(r.skip(1) =~= spec_split(t, sep));
        assert(seq![p[0]] + p.drop_first() =~= p);
        assert(spec_split(s, sep) =~= seq![p] + spec_split(t, sep));
    }
}

/// Splitting a join of separator-free fields gives back the fields.
pub proof fn lemma_join_split(parts: Seq<Seq<char>>, sep: char)
    requires
        parts.len() >= 1,
        forall|k: int| 0 <= k < parts.len() ==> sep_free(#[trigger] parts[k], sep),
    ensures
        spec_split(spec_join(parts, sep), sep) == parts,
    decreases parts.len(),
{
    if parts.len() == 1 {
        lemma_split_of_free(parts[0], sep);
        assert(seq![parts[0]] =~= parts);
    } else {
        lemma_join_split(parts.drop_first(), sep);
        lemma_split_peel(parts[0], spec_join(parts.drop_first(), sep), sep);
        assert(seq![parts[0]] + parts.drop_first() =~= parts);
    }
}

/// Splits `s` at every occurrence of `sep`, keeping empty fields.
pub fn split_char(s: &str, sep: char) -> (r: Vec<String>)
    ensures
        r.deep_view() == spec_split(s@, sep),
        r@.len() >= 1,
{
    let len = s.unicode_len();
    let mut finished: Vec<String> = Vec::new();
    let mut cur = String::new();
    let mut i: usize = 0;
    proof {
        lemma_split_basic(s@, sep);
        let r0 = spec_split(s@, sep);
        assert(s@.skip(0) =~= s@);
        assert(finished.deep_view() =~= Seq::<Seq<char>>::empty());
        assert(cur@ + r0[0] =~= r0[0]);
        assert(finished.deep_view() + seq![cur@ + r0[0]] + r0.skip(1) =~~= r0);
    }
    while i < len
        invariant
            i <= len,
            len == s@.len(),
            spec_split(s@, sep) == finished.deep_view() + seq![cur@ + spec_split(
                s@.skip(i as int),
                sep,
            )[0]] + spec_split(s@.skip(i as int), sep).skip(1),
        decreases len - i,
    {
        let ghost t = s@.skip(i as int);
        let ghost old_finished = finished.deep_view();
        let ghost old_cur = cur@;
        proof {
            lemma_split_basic(t, sep);
            lemma_split_basic(t.drop_first(), sep);
            assert(t[0] == s@[i as int]);
            assert(t.drop_first() =~= s@.skip(i as int + 1));
        }
        let c = s.get_char(i);
        if c == sep {
            finished.push(cur);
            cur = String::new();
            proof {
                let r2 = spec_split(s@.skip(i as int + 1), sep);
                assert(spec_split(t, sep) == seq![Seq::<char>::empty()] + r2);
                assert(spec_split(t, sep)[0] =~= Seq::<char>::empty());
                assert(spec_split(t, sep).skip(1) =~= r2);
                assert(old_cur + spec_split(t, sep)[0] =~= old_cur);
                assert(finished.deep_view() =~= old_finished.push(old_cur));
                assert(spec_split(s@, sep) == old_finished + seq![old_cur] + r2);
                assert(old_finished + seq![old_cur] + r2 =~= finished.deep_view() + seq![cur@
                    + r2[0]] + r2.skip(1)) by {
                    assert(cur@ + r2[0] =~= r2[0]);
                    assert(seq![r2[0]] + r2.skip(1) =~= r2);
                }
            }
        } else {
            push_char(&mut cur, c);
            proof {
                let r2 = spec_split(s@.skip(i as int + 1), sep);
                assert(spec_split(t, sep) == seq![seq![t[0]] + r2[0]] + r2.skip(1));
                assert(spec_split(t, sep)[0] == seq![t[0]] + r2[0]);
                assert(spec_split(t, sep).skip(1) =~= r2.skip(1));
                assert(old_cur + (seq![t[0]] + r2[0]) =~= cur@ + r2[0]);
                assert(spec_split(s@, sep) == old_finished + seq![cur@ + r2[0]] + r2.skip(1));
            }
        }
        i = i + 1;
    }
    proof {
        let t = s@.skip(len as int);
        assert(t =~= Seq::<char>::empty());
        assert(spec_split(t, sep) =~= seq![Seq::<char>::empty()]);
        assert(spec_split(t, sep).skip(1) =~= Seq::<Seq<char>>::empty());
        assert(cur@ + spec_split(t, sep)[0] =~= cur@);
    }
    let ghost before = finished.deep_view();
    let ghost last = cur@;
    finished.push(cur);
    proof {
        assert(finished.deep_view() =~= before.push(last));
        assert(before + seq![last] =~= before.push(last));
        assert(spec_split(s@, sep) =~= finished.deep_view());
    }
    finished
}

/// `s` divided at its first occurrence of `sep`, if it has one.
pub open spec fn split_first(s: Seq<char>, sep: char) -> Option<(Seq<char>, Seq<char>)>
    decreases s.len(),
{
    if s.len() == 0 {
        None
    } else if s[0] == sep {
        Some((Seq::<char>::empty(), s.drop_first()))
    } else {
        match split_first(s.drop_first(), sep) {
            Some(p) => Some((seq![s[0]] + p.0, p.1)),
            None => None,
        }
    }
}

/// Where the first separator stands, that is where `split_first` divides.
pub proof fn lemma_split_first_at(s: Seq<char>, sep: char, i: int)
    requires
        0 <= i < s.len(),
        s[i] == sep,
        forall|k: int| 0 <= k < i ==> s[k] != sep,
    ensures
        split_first(s, sep) == Some((s.take(i), s.skip(i + 1))),
    decreases s.len(),
{
    if i == 0 {
        assert(s.take(0) =~= Seq::<char>::empty());
        assert(s.skip(1) =~= s.drop_first());
    } else {
        assert(s.drop_first()[i - 1] == sep);
        lemma_split_first_at(s.drop_first(), sep, i - 1);
        assert(seq![s[0]] + s.drop_first().take(i - 1) =~= s.take(i));
        assert(s.drop_first().skip(i) =~= s.skip(i + 1));
    }
}

/// Without the separator there is nothing to divide.
pub proof fn lemma_split_first_none(s: Seq<char>, sep: char)
    requires
        sep_free(s, sep),
    ensures
        split_first(s, sep) is None,
    decreases s.len(),
{
    if s.len() > 0 {
        lemma_split_first_none(s.drop_first(), sep);
    }
}

/// Divides `s` at its first occurrence of `sep`.
pub fn split_once_char(s: &str, sep: char) -> (r: Option<(String, String)>)
    ensures
        match r {
            Some(p) => split_first(s@, sep) == Some((p.0@, p.1@)),
            None => split_first(s@, sep) is None,
        },
{
    let len = s.unicode_len();
    let mut i: usize = 0;
    while i < len
        invariant
            i <= len,
            len == s@.len(),
            forall|k: int| 0 <= k < i ==> s@[k] != sep,
        decreases len - i,
    {
        if s.get_char(i) == sep {
            proof {
                lemma_split_first_at(s@, sep, i as int);
            }
            let before = s.substring_char(0, i).to_owned();
            let after = s.substring_char(i + 1, len).to_owned();
            proof {
                assert(before@ =~= s@.take(i as int));
                assert(after@ =~= s@.skip(i as int + 1));
            }
            return Some((before, after));
        }
        i = i + 1;
    }
    proof {
        lemma_split_first_none(s@, sep);
    }
    None
}

// ------------------------------------------------------------------
// Lines
// ------------------------------------------------------------------

/// A line with a trailing carriage return removed.
pub open spec fn strip_cr(p: Seq<char>) -> Seq<char> {
    if p.len() > 0 && p.last() == '\r' {
        p.drop_last()
    } else {
        p
    }
}

/// The lines of `s`: newline-separated fields, a final empty field (from a
/// trailing newline) dropped, and a trailing carriage return stripped from
/// each line.
pub open spec fn spec_lines(s: Seq<char>) -> Seq<Seq<char>> {
    let parts = spec_split(s, '\n');
    let kept = if parts.last().len() == 0 {
        parts.drop_last()
    } else {
        parts
    };
    kept.map_values(|p: Seq<char>| strip_cr(p))
}

/// Splits `s` into lines.
pub fn lines_of(s: &str) -> (r: Vec<String>)
    ensures
        r.deep_view() == spec_lines(s@),
{
    let mut parts = split_char(s, '\n');
    proof {
        lemma_split_basic(s@, '\n');
        assert(parts.deep_view().last() == parts@[parts@.len() - 1]@);
    }
    if parts[parts.len() - 1].as_str().unicode_len() == 0 {
        let ghost before = parts.deep_view();
        parts.pop().unwrap();
        proof {
            assert(parts.deep_view() =~~= before.drop_last());
        }
    }
    let ghost kept = parts.deep_view();
    let mut out: Vec<String> = Vec::new();
    let mut i: usize = 0;
    proof {
        assert(out.deep_view() =~~= kept.take(0).map_values(|p: Seq<char>| strip_cr(p)));
    }
    while i < parts.len()
        invariant
            i <= parts@.len(),
            kept == parts.deep_view(),
            out.deep_view() == kept.take(i as int).map_values(|p: Seq<char>| strip_cr(p)),
        decreases parts@.len() - i,
    {
        let ghost before = out.deep_view();
        let len_i = parts[i].as_str().unicode_len();
        proof {
            assert(parts@[i as int]@ == kept[i as int]);
        }
        if len_i > 0 && parts[i].as_str().get_char(len_i - 1) == '\r' {
            let stripped = parts[i].as_str().substring_char(0, len_i - 1).to_owned();
            proof {
                assert(stripped@ =~= strip_cr(kept[i as int]));
            }
            out.push(stripped);
        } else {
            let kept_line = parts[i].clone();
            proof {
                assert(kept_line@ == strip_cr(kept[i as int]));
            }
            out.push(kept_line);
        }
        proof {
            assert(out.deep_view() =~~= before.push(strip_cr(kept[i as int])));
            assert(kept.take(i + 1).map_values(|p: Seq<char>| strip_cr(p)) =~~= kept.take(
                i as int,
            ).map_values(|p: Seq<char>| strip_cr(p)).push(strip_cr(kept[i as int])));
        }
        i = i + 1;
    }
    proof {
        assert(kept.take(i as int) =~~= kept);
        if spec_split(s@, '\n').last().len() == 0 {
            assert(kept == spec_split(s@, '\n').drop_last());
        }
    }
    out
}

// ------------------------------------------------------------------
// Trimming
// ------------------------------------------------------------------

/// Whitespace, as the Unicode `White_Space` property defines it: the ASCII
/// whitespace controls and space, next line, no-break space, ogham space
/// mark, the en-quad..hair-space range, the line and paragraph separators,
/// the narrow no-break space, the medium mathematical space and the
/// ideographic space.
pub open spec fn is_ws_char(c: char) -> bool {
    ||| 9 <= c as u32 <= 13
    ||| c as u32 == 32
    ||| c as u32 == 0x85
    ||| c as u32 == 0xA0
    ||| c as u32 == 0x1680
    ||| 0x2000 <= c as u32 <= 0x200A
    ||| c as u32 == 0x2028
    ||| c as u32 == 0x2029
    ||| c as u32 == 0x202F
    ||| c as u32 == 0x205F
    ||| c as u32 == 0x3000
}

/// `s` with leading and trailing whitespace removed.
pub open spec fn spec_trim(s: Seq<char>) -> Seq<char>
    decreases s.len(),
{
    if s.len() > 0 && is_ws_char(s[0]) {
        spec_trim(s.drop_first())
    } else if s.len() > 0 && is_ws_char(s.last()) {
        spec_trim(s.drop_last())
    } else {
        s
    }
}

/// Whitespace check matching `is_ws_char`.
pub fn is_ws(c: char) -> (r: bool)
    ensures
        r == is_ws_char(c),
{
    let v = c as u32;
    (9 <= v && v <= 13) || v == 32 || v == 0x85 || v == 0xA0 || v == 0x1680 || (0x2000 <= v && v
        <= 0x200A) || v == 0x2028 || v == 0x2029 || v == 0x202F || v == 0x205F || v == 0x3000
}

/// Removes leading and trailing whitespace.
pub fn trim_ws(s: &str) -> (r: String)
    ensures
        r@ == spec_trim(s@),
{
    let len = s.unicode_len();
    let mut lo: usize = 0;
    proof {
        assert(s@.skip(0) =~= s@);
    }
    while lo < len && is_ws(s.get_char(lo))
        invariant
            lo <= len,
            len == s@.len(),
            spec_trim(s@) == spec_trim(s@.skip(lo as int)),
        decreases len - lo,
    {
        proof {
            let t = s@.skip(lo as int);
            assert(t[0] == s@[lo as int]);
            assert(t.drop_first() =~= s@.skip(lo as int + 1));
        }
        lo = lo + 1;
    }
    if lo == len {
        proof {
            assert(s@.skip(lo as int) =~= Seq::<char>::empty());
        }
        return String::new();
    }
    let mut hi: usize = len;
    proof {
        assert(s@.skip(lo as int) =~= s@.subrange(lo as int, hi as int));
    }
    while hi > lo && is_ws(s.get_char(hi - 1))
        invariant
            lo <= hi <= len,
            len == s@.len(),
            lo < len,
            !is_ws_char(s@[lo as int]),
            spec_trim(s@) == spec_trim(s@.subrange(lo as int, hi as int)),
        decreases hi,
    {
        proof {
            let t = s@.subrange(lo as int, hi as int);
            assert(t[0] == s@[lo as int]);
            assert(t.last() == s@[hi - 1]);
            assert(t.drop_last() =~= s@.subrange(lo as int, hi as int - 1));
        }
        hi = hi - 1;
    }
    proof {
        let t = s@.subrange(lo as int, hi as int);
        if hi > lo {
            assert(t[0] == s@[lo as int]);
            assert(t.last() == s@[hi - 1]);
        } else {
            assert(t =~= Seq::<char>::empty());
        }
        assert(spec_trim(t) == t);
    }
    s.substring_char(lo, hi).to_owned()
}

// ------------------------------------------------------------------
// Small string helpers
// ------------------------------------------------------------------

/// The view of an optional owned string.
pub open spec fn opt_view(o: &Option<String>) -> Option<Seq<char>> {
    match o {
        Some(s) => Some(s@),
        None => None,
    }
}

/// The view of an optional borrowed string.
pub open spec fn opt_ref_view(o: Option<&String>) -> Option<Seq<char>> {
    match o {
        Some(s) => Some(s@),
        None => None,
    }
}

/// Compares two string slices by their characters.
pub fn str_eq(a: &str, b: &str) -> (r: bool)
    ensures
        r == (a@ == b@),
{
    let sa = a.to_owned();
    let sb = b.to_owned();
    sa == sb
}

/// Glues two string slices together.
pub fn concat_strs(a: &str, b: &str) -> (r: String)
    ensures
        r@ == a@ + b@,
{
    let mut r = a.to_owned();
    r.append(b);
    r
}

} // verus!
