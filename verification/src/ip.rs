//! Textual IP addresses: the grammar of IPv4 and IPv6 address text, and a
//! verified parser from text to an address value.
//!
//! Accepted IPv4 text is the dotted quad: four decimal octets in `0..=255`,
//! separated by `.`, one to three digits each, with no leading zero in a
//! multi-digit octet. Accepted IPv6 text is one to four hexadecimal digits
//! per group, groups separated by `:`, either eight groups in full or with
//! exactly one `::` standing for the elided run of zero groups (so at most
//! seven written groups beside it); the last group may instead be a dotted
//! quad standing for the final two groups, as in `::ffff:192.0.2.1`.
//!
//! The grammar is defined over the deterministic separator split
//! `split_on`, so validity and the denoted value are functions of the text.

use vstd::prelude::*;

verus! {

/// A parsed IP address: four octets (v4) or eight 16-bit groups (v6).
#[derive(Clone, Copy, PartialEq, Eq, Structural, Debug)]
pub enum IpAddress {
    V4(u8, u8, u8, u8),
    V6(u16, u16, u16, u16, u16, u16, u16, u16),
}

/// `c` is a decimal digit.
pub open spec fn is_digit(c: char) -> bool {
    48 <= c as u32 <= 57
}

/// Numeric value of a decimal digit.
pub open spec fn digit_val(c: char) -> int {
    c as u32 - 48
}

/// Every character of `s` is a decimal digit.
pub open spec fn all_digits(s: Seq<char>) -> bool {
    forall|i: int| 0 <= i < s.len() ==> is_digit(#[trigger] s[i])
}

/// The number a string of decimal digits denotes.
pub open spec fn dec_value(s: Seq<char>) -> int
    decreases s.len(),
{
    if s.len() == 0 {
        0
    } else {
        10 * dec_value(s.drop_last()) + digit_val(s.last())
    }
}

/// A well-formed decimal octet: one to three digits, no leading zero in a
/// multi-digit octet, value at most 255.
pub open spec fn valid_octet(s: Seq<char>) -> bool {
    1 <= s.len() <= 3 && all_digits(s) && (s.len() > 1 ==> s[0] != '0') && dec_value(s) <= 255
}

/// `c` is a hexadecimal digit (either case).
pub open spec fn is_hex_digit(c: char) -> bool {
    is_digit(c) || 97 <= c as u32 <= 102 || 65 <= c as u32 <= 70
}

/// Numeric value of a hexadecimal digit.
pub open spec fn hex_digit_val(c: char) -> int {
    if is_digit(c) {
        c as u32 - 48
    } else if 97 <= c as u32 <= 102 {
        c as u32 - 87
    } else {
        c as u32 - 55
    }
}

/// Every character of `s` is a hexadecimal digit.
pub open spec fn all_hex_digits(s: Seq<char>) -> bool {
    forall|i: int| 0 <= i < s.len() ==> is_hex_digit(#[trigger] s[i])
}

/// The number a string of hexadecimal digits denotes.
pub open spec fn hex_value(s: Seq<char>) -> int
    decreases s.len(),
{
    if s.len() == 0 {
        0
    } else {
        16 * hex_value(s.drop_last()) + hex_digit_val(s.last())
    }
}

/// A well-formed IPv6 group: one to four hexadecimal digits.
pub open spec fn valid_h16(s: Seq<char>) -> bool {
    1 <= s.len() <= 4 && all_hex_digits(s)
}

/// Splitting `s` at every occurrence of `sep`: the fields, in order. A
/// string with no separator is one field; `k` separators make `k + 1`
/// fields, and adjacent separators make empty fields.
pub open spec fn split_on(s: Seq<char>, sep: char) -> Seq<Seq<char>>
    decreases s.len(),
{
    if s.len() == 0 {
        seq![Seq::<char>::empty()]
    } else {
        let rest = split_on(s.drop_first(), sep);
        if s[0] == sep {
            seq![Seq::<char>::empty()] + rest
        } else {
            seq![seq![s[0]] + rest[0]] + rest.drop_first()
        }
    }
}

/// A split always has at least one field.
pub proof fn lemma_split_on_nonempty(s: Seq<char>, sep: char)
    ensures
        split_on(s, sep).len() >= 1,
    decreases s.len(),
{
    if s.len() > 0 {
        lemma_split_on_nonempty(s.drop_first(), sep);
    }
}

/// A split with more than one field contains the separator.
proof fn lemma_split_has_sep(s: Seq<char>, sep: char)
    ensures
        split_on(s, sep).len() > 1 ==> exists|i: int| 0 <= i < s.len() && s[i] == sep,
    decreases s.len(),
{
    if s.len() > 0 {
        lemma_split_has_sep(s.drop_first(), sep);
        if s[0] != sep && split_on(s, sep).len() > 1 {
            assert(split_on(s.drop_first(), sep).len() > 1);
            let j = choose|j: int|
                0 <= j < s.drop_first().len() && s.drop_first()[j] == sep;
            assert(s[j + 1] == sep);
        }
    }
}

/// Valid IPv4 text: exactly four fields between the dots, each a
/// well-formed octet.
pub open spec fn valid_ipv4(s: Seq<char>) -> bool {
    let fs = split_on(s, '.');
    fs.len() == 4 && (forall|i: int| 0 <= i < 4 ==> valid_octet(#[trigger] fs[i]))
}

/// The octet values of IPv4 text, field by field.
pub open spec fn ipv4_values(s: Seq<char>) -> Seq<int> {
    split_on(s, '.').map_values(|f: Seq<char>| dec_value(f))
}

/// Every field of `fs` in `[lo, hi)` is a well-formed IPv6 group.
pub open spec fn fields_are_h16(fs: Seq<Seq<char>>, lo: int, hi: int) -> bool {
    forall|i: int| lo <= i < hi ==> valid_h16(#[trigger] fs[i])
}

/// Valid IPv6 text, over its colon-separated fields: either eight groups in
/// full, or one `::` (a contiguous run of empty fields in exactly the shape
/// a leading, trailing, interior, or lone `::` produces) beside at most
/// seven written groups.
pub open spec fn valid_ipv6(s: Seq<char>) -> bool {
    let fs = split_on(s, ':');
    let n = fs.len() as int;
    ||| (n == 8 && fields_are_h16(fs, 0, 8))
    ||| (n == 7 && fields_are_h16(fs, 0, 6) && valid_ipv4(fs[6]))
    ||| (n == 3 && fs[0].len() == 0 && fs[1].len() == 0 && fs[2].len() == 0)
    ||| (exists|p: int|
        1 <= p <= n - 2 && n <= 8 && (#[trigger] fs[p]).len() == 0 && fields_are_h16(fs, 0, p)
            && fields_are_h16(fs, p + 1, n))
    ||| (exists|p: int|
        1 <= p <= n - 2 && n <= 7 && (#[trigger] fs[p]).len() == 0 && fields_are_h16(fs, 0, p)
            && fields_are_h16(fs, p + 1, n - 1) && valid_ipv4(fs[n - 1]))
    ||| (3 <= n <= 9 && fs[0].len() == 0 && fs[1].len() == 0 && fields_are_h16(fs, 2, n))
    ||| (3 <= n <= 8 && fs[0].len() == 0 && fs[1].len() == 0 && fields_are_h16(fs, 2, n - 1)
        && valid_ipv4(fs[n - 1]))
    ||| (3 <= n <= 9 && fs[n - 2].len() == 0 && fs[n - 1].len() == 0 && fields_are_h16(
        fs,
        0,
        n - 2,
    ))
}

/// Index of the first empty field, or `fs.len()` when none is empty.
pub open spec fn first_empty(fs: Seq<Seq<char>>) -> int
    decreases fs.len(),
{
    if fs.len() == 0 {
        0
    } else if fs[0].len() == 0 {
        0
    } else {
        1 + first_empty(fs.drop_first())
    }
}

/// Index of the last empty field, or `-1` when none is empty.
pub open spec fn last_empty(fs: Seq<Seq<char>>) -> int
    decreases fs.len(),
{
    if fs.len() == 0 {
        -1
    } else if fs[fs.len() - 1].len() == 0 {
        fs.len() - 1
    } else {
        last_empty(fs.drop_last())
    }
}

/// The group values of the fields in `[lo, hi)`.
pub open spec fn h16_vals(fs: Seq<Seq<char>>, lo: int, hi: int) -> Seq<int> {
    Seq::new((hi - lo) as nat, |i: int| hex_value(fs[lo + i]))
}

/// `k` zero groups.
pub open spec fn zero_groups(k: int) -> Seq<int> {
    Seq::new(k as nat, |i: int| 0)
}

/// The two group values an embedded dotted quad stands for.
pub open spec fn v4_groups(f: Seq<char>) -> Seq<int> {
    let o = ipv4_values(f);
    seq![o[0] * 256 + o[1], o[2] * 256 + o[3]]
}

/// The eight group values of valid IPv6 text: the written groups before
/// and after the `::` run (if any), with the elided groups as zeros, and
/// an embedded dotted quad as the final two groups.
pub open spec fn ipv6_groups(s: Seq<char>) -> Seq<int> {
    let fs = split_on(s, ':');
    let n = fs.len() as int;
    if n == 8 && fields_are_h16(fs, 0, 8) {
        h16_vals(fs, 0, 8)
    } else if n == 7 && fields_are_h16(fs, 0, 6) && valid_ipv4(fs[6]) {
        h16_vals(fs, 0, 6) + v4_groups(fs[6])
    } else if valid_ipv4(fs[n - 1]) {
        let p = first_empty(fs);
        let q = last_empty(fs);
        h16_vals(fs, 0, p) + zero_groups(6 - p - (n - 2 - q)) + h16_vals(fs, q + 1, n - 1)
            + v4_groups(fs[n - 1])
    } else {
        let p = first_empty(fs);
        let q = last_empty(fs);
        h16_vals(fs, 0, p) + zero_groups(8 - p - (n - 1 - q)) + h16_vals(fs, q + 1, n)
    }
}

/// Unfolding `split_on` on the suffix of `s` that starts at `i`.
proof fn lemma_split_on_suffix(s: Seq<char>, sep: char, i: int)
    requires
        0 <= i < s.len(),
    ensures
        s[i] == sep ==> split_on(s.subrange(i, s.len() as int), sep) == seq![Seq::<char>::empty()]
            + split_on(s.subrange(i + 1, s.len() as int), sep),
        s[i] != sep ==> split_on(s.subrange(i, s.len() as int), sep) == seq![
            seq![s[i]] + split_on(s.subrange(i + 1, s.len() as int), sep)[0],
        ] + split_on(s.subrange(i + 1, s.len() as int), sep).drop_first(),
{
    let t = s.subrange(i, s.len() as int);
    let t2 = s.subrange(i + 1, s.len() as int);
    assert(t.len() > 0);
    assert(t[0] == s[i]);
    assert(t.drop_first() =~= t2);
}

/// The characters of a string slice, as a vector.
fn chars_of(s: &str) -> (r: Vec<char>)
    ensures
        r@ == s@,
{
    let n = s.unicode_len();
    let mut r: Vec<char> = Vec::new();
    let mut i: usize = 0;
    while i < n
        invariant
            n == s@.len(),
            0 <= i <= n,
            r@ == s@.subrange(0, i as int),
        decreases n - i,
    {
        let c = s.get_char(i);
        r.push(c);
        proof {
            assert(r@ =~= s@.subrange(0, i + 1));
        }
        i += 1;
    }
    proof {
        assert(s@.subrange(0, n as int) =~= s@);
    }
    r
}

/// The fields of `s` split at every `sep`, as `split_on` defines them.
fn split_fields(s: &Vec<char>, sep: char) -> (r: Vec<Vec<char>>)
    ensures
        r.deep_view() == split_on(s@, sep),
{
    let mut fields: Vec<Vec<char>> = Vec::new();
    let mut cur: Vec<char> = Vec::new();
    let mut i: usize = 0;
    proof {
        lemma_split_on_nonempty(s@, sep);
        assert(s@.subrange(0, s@.len() as int) =~= s@);
        let r0 = split_on(s@, sep);
        assert(fields.deep_view() + seq![cur@ + r0[0]] + r0.drop_first() =~= r0);
    }
    while i < s.len()
        invariant
            0 <= i <= s@.len(),
            split_on(s@.subrange(i as int, s@.len() as int), sep).len() >= 1,
            split_on(s@, sep) == fields.deep_view() + seq![
                cur@ + split_on(s@.subrange(i as int, s@.len() as int), sep)[0],
            ] + split_on(s@.subrange(i as int, s@.len() as int), sep).drop_first(),
        decreases s@.len() - i,
    {
        proof {
            lemma_split_on_suffix(s@, sep, i as int);
            lemma_split_on_nonempty(s@.subrange(i as int + 1, s@.len() as int), sep);
        }
        let ghost pre_fields = fields.deep_view();
        let ghost pre_cur = cur@;
        let ghost rest = split_on(s@.subrange(i as int + 1, s@.len() as int), sep);
        let c = s[i];
        if c == sep {
            fields.push(cur);
            cur = Vec::new();
            proof {
                let ri = split_on(s@.subrange(i as int, s@.len() as int), sep);
                assert(ri.drop_first() =~= rest);
                assert(pre_cur + ri[0] =~= pre_cur);
                assert(fields.deep_view() =~~= pre_fields.push(pre_cur));
                assert(seq![rest[0]] + rest.drop_first() =~= rest);
                assert(fields.deep_view() + seq![cur@ + rest[0]] + rest.drop_first()
                    =~~= pre_fields + seq![pre_cur + ri[0]] + ri.drop_first());
            }
        } else {
            cur.push(c);
            proof {
                assert(cur@ + rest[0] =~= pre_cur + (seq![s@[i as int]] + rest[0]));
            }
        }
        i += 1;
    }
    proof {
        assert(s@.subrange(s@.len() as int, s@.len() as int) =~= Seq::<char>::empty());
        assert(split_on(Seq::<char>::empty(), sep) == seq![Seq::<char>::empty()]);
    }
    let ghost pre_fields = fields.deep_view();
    let ghost pre_cur = cur@;
    fields.push(cur);
    proof {
        assert(fields.deep_view() =~~= pre_fields.push(pre_cur));
        assert(pre_fields.push(pre_cur) =~~= pre_fields + seq![
            pre_cur + Seq::<char>::empty(),
        ] + seq![Seq::<char>::empty()].drop_first());
    }
    fields
}

/// Checks one dot-separated field as a decimal octet and yields its value.
fn check_octet(f: &Vec<char>) -> (r: Option<u8>)
    ensures
        r is Some <==> valid_octet(f@),
        r matches Some(v) ==> v as int == dec_value(f@),
{
    let n = f.len();
    if n < 1 || n > 3 {
        return None;
    }
    if n > 1 && f[0] == '0' {
        return None;
    }
    let mut acc: u32 = 0;
    let mut i: usize = 0;
    while i < n
        invariant
            n == f@.len(),
            1 <= n <= 3,
            0 <= i <= n,
            forall|j: int| 0 <= j < i ==> is_digit(#[trigger] f@[j]),
            acc as int == dec_value(f@.subrange(0, i as int)),
            i == 0 ==> acc == 0,
            i == 1 ==> acc < 10,
            i == 2 ==> acc < 100,
            i == 3 ==> acc < 1000,
        decreases n - i,
    {
        let u = f[i] as u32;
        if u < 48 || u > 57 {
            proof {
                assert(!is_digit(f@[i as int]));
            }
            return None;
        }
        proof {
            assert(f@.subrange(0, i + 1).drop_last() =~= f@.subrange(0, i as int));
            assert(f@.subrange(0, i + 1).last() == f@[i as int]);
        }
        acc = 10 * acc + (u - 48);
        i += 1;
    }
    proof {
        assert(f@.subrange(0, n as int) =~= f@);
    }
    if acc > 255 {
        return None;
    }
    Some(acc as u8)
}

/// Checks one colon-separated field as a hexadecimal group and yields its
/// value.
fn check_h16(f: &Vec<char>) -> (r: Option<u16>)
    ensures
        r is Some <==> valid_h16(f@),
        r matches Some(v) ==> v as int == hex_value(f@),
{
    let n = f.len();
    if n < 1 || n > 4 {
        return None;
    }
    let mut acc: u32 = 0;
    let mut i: usize = 0;
    while i < n
        invariant
            n == f@.len(),
            1 <= n <= 4,
            0 <= i <= n,
            forall|j: int| 0 <= j < i ==> is_hex_digit(#[trigger] f@[j]),
            acc as int == hex_value(f@.subrange(0, i as int)),
            i == 0 ==> acc == 0,
            i == 1 ==> acc < 16,
            i == 2 ==> acc < 256,
            i == 3 ==> acc < 4096,
            i == 4 ==> acc < 65536,
        decreases n - i,
    {
        let u = f[i] as u32;
        let d: u32 = if 48 <= u && u <= 57 {
            u - 48
        } else if 97 <= u && u <= 102 {
            u - 87
        } else if 65 <= u && u <= 70 {
            u - 55
        } else {
            proof {
                assert(!is_hex_digit(f@[i as int]));
            }
            return None;
        };
        proof {
            assert(f@.subrange(0, i + 1).drop_last() =~= f@.subrange(0, i as int));
            assert(f@.subrange(0, i + 1).last() == f@[i as int]);
        }
        acc = 16 * acc + d;
        i += 1;
    }
    proof {
        assert(f@.subrange(0, n as int) =~= f@);
    }
    Some(acc as u16)
}

/// Parses the characters of a dotted-quad IPv4 address.
fn parse_ipv4_chars(chars: &Vec<char>) -> (r: Option<(u8, u8, u8, u8)>)
    ensures
        r is Some <==> valid_ipv4(chars@),
        r matches Some(t) ==> ipv4_values(chars@) == seq![
            t.0 as int,
            t.1 as int,
            t.2 as int,
            t.3 as int,
        ],
{
    let fields = split_fields(chars, '.');
    let ghost fs = split_on(chars@, '.');
    proof {
        assert(fields.deep_view().len() == fields@.len());
        assert forall|i: int| 0 <= i < fields@.len() implies #[trigger] fields@[i]@ == fs[i] by {
            assert(fields.deep_view()[i] == fields@[i].deep_view());
        }
    }
    if fields.len() != 4 {
        return None;
    }
    let o0 = check_octet(&fields[0]);
    let o1 = check_octet(&fields[1]);
    let o2 = check_octet(&fields[2]);
    let o3 = check_octet(&fields[3]);
    match (o0, o1, o2, o3) {
        (Some(a), Some(b), Some(c), Some(d)) => {
            proof {
                assert(ipv4_values(chars@) =~= seq![a as int, b as int, c as int, d as int]);
            }
            Some((a, b, c, d))
        },
        _ => None,
    }
}

/// `first_empty` is the position of the first empty field.
proof fn lemma_first_empty_is(fs: Seq<Seq<char>>, p: int)
    requires
        0 <= p < fs.len(),
        fs[p].len() == 0,
        forall|j: int| 0 <= j < p ==> (#[trigger] fs[j]).len() > 0,
    ensures
        first_empty(fs) == p,
    decreases fs.len(),
{
    if p > 0 {
        lemma_first_empty_is(fs.drop_first(), p - 1);
    }
}

/// `last_empty` is the position of the last empty field.
proof fn lemma_last_empty_is(fs: Seq<Seq<char>>, q: int)
    requires
        0 <= q < fs.len(),
        fs[q].len() == 0,
        forall|j: int| q < j < fs.len() ==> (#[trigger] fs[j]).len() > 0,
    ensures
        last_empty(fs) == q,
    decreases fs.len(),
{
    if q < fs.len() - 1 {
        lemma_last_empty_is(fs.drop_last(), q);
    }
}

/// Position of the first empty field at or after `start`, if any.
fn find_empty_from(fields: &Vec<Vec<char>>, start: usize) -> (r: Option<usize>)
    requires
        start <= fields@.len(),
    ensures
        r matches Some(p) ==> start <= p < fields@.len() && fields.deep_view()[p as int].len() == 0
            && (forall|j: int|
            start <= j < p ==> (#[trigger] fields.deep_view()[j]).len() > 0),
        r is None ==> forall|j: int|
            start <= j < fields@.len() ==> (#[trigger] fields.deep_view()[j]).len() > 0,
{
    let mut i: usize = start;
    while i < fields.len()
        invariant
            start <= i <= fields@.len(),
            forall|j: int| start <= j < i ==> (#[trigger] fields.deep_view()[j]).len() > 0,
        decreases fields@.len() - i,
    {
        if fields[i].len() == 0 {
            proof {
                assert(fields.deep_view()[i as int] == fields@[i as int].deep_view());
            }
            return Some(i);
        }
        proof {
            assert(fields.deep_view()[i as int] == fields@[i as int].deep_view());
        }
        i += 1;
    }
    None
}

/// Position of the last empty field, if any.
fn find_last_empty(fields: &Vec<Vec<char>>) -> (r: Option<usize>)
    ensures
        r matches Some(q) ==> q < fields@.len() && fields.deep_view()[q as int].len() == 0 && (
        forall|j: int| q < j < fields@.len() ==> (#[trigger] fields.deep_view()[j]).len() > 0),
        r is None ==> forall|j: int|
            0 <= j < fields@.len() ==> (#[trigger] fields.deep_view()[j]).len() > 0,
{
    let mut i: usize = fields.len();
    while i > 0
        invariant
            0 <= i <= fields@.len(),
            forall|j: int| i <= j < fields@.len() ==> (#[trigger] fields.deep_view()[j]).len() > 0,
        decreases i,
    {
        i -= 1;
        proof {
            assert(fields.deep_view()[i as int] == fields@[i as int].deep_view());
        }
        if fields[i].len() == 0 {
            return Some(i);
        }
    }
    None
}

/// Every field in `[lo, hi)` is empty.
fn all_empty_in(fields: &Vec<Vec<char>>, lo: usize, hi: usize) -> (r: bool)
    requires
        lo <= hi <= fields@.len(),
    ensures
        r <==> forall|j: int| lo <= j < hi ==> (#[trigger] fields.deep_view()[j]).len() == 0,
{
    let mut i: usize = lo;
    while i < hi
        invariant
            lo <= i <= hi <= fields@.len(),
            forall|j: int| lo <= j < i ==> (#[trigger] fields.deep_view()[j]).len() == 0,
        decreases hi - i,
    {
        proof {
            assert(fields.deep_view()[i as int] == fields@[i as int].deep_view());
        }
        if fields[i].len() != 0 {
            return false;
        }
        i += 1;
    }
    true
}

/// Checks the fields in `[lo, hi)` as hexadecimal groups and yields their
/// values.
fn parse_groups(fields: &Vec<Vec<char>>, lo: usize, hi: usize) -> (r: Option<Vec<u16>>)
    requires
        lo <= hi <= fields@.len(),
    ensures
        r is Some <==> fields_are_h16(fields.deep_view(), lo as int, hi as int),
        r matches Some(v) ==> v@.len() == hi - lo && (forall|i: int|
            0 <= i < hi - lo ==> (#[trigger] v@[i]) as int == hex_value(
                fields.deep_view()[lo + i],
            )),
{
    let mut out: Vec<u16> = Vec::new();
    let mut i: usize = lo;
    while i < hi
        invariant
            lo <= i <= hi <= fields@.len(),
            out@.len() == i - lo,
            forall|j: int| lo <= j < i ==> valid_h16(#[trigger] fields.deep_view()[j]),
            forall|j: int|
                0 <= j < i - lo ==> (#[trigger] out@[j]) as int == hex_value(
                    fields.deep_view()[lo + j],
                ),
        decreases hi - i,
    {
        proof {
            assert(fields.deep_view()[i as int] =~= fields@[i as int]@);
        }
        match check_h16(&fields[i]) {
            Some(v) => {
                out.push(v);
            },
            None => {
                return None;
            },
        }
        i += 1;
    }
    Some(out)
}

/// A well-formed dotted quad is not empty and not a hexadecimal group.
proof fn lemma_ipv4_field_not_h16(f: Seq<char>)
    requires
        valid_ipv4(f),
    ensures
        f.len() > 0,
        !valid_h16(f),
{
    if f.len() == 0 {
        assert(split_on(f, '.') == seq![Seq::<char>::empty()]);
    }
    lemma_split_has_sep(f, '.');
    let i = choose|i: int| 0 <= i < f.len() && f[i] == '.';
    assert(!is_hex_digit(f[i]));
}

/// Parses the characters of an IPv6 address into its eight groups.
#[verifier::rlimit(100)]
fn parse_ipv6_chars(chars: &Vec<char>) -> (r: Option<(u16, u16, u16, u16, u16, u16, u16, u16)>)
    ensures
        r is Some <==> valid_ipv6(chars@),
        r matches Some(g) ==> ipv6_groups(chars@) == seq![
            g.0 as int,
            g.1 as int,
            g.2 as int,
            g.3 as int,
            g.4 as int,
            g.5 as int,
            g.6 as int,
            g.7 as int,
        ],
{
    let fields = split_fields(chars, ':');
    let ghost fs = split_on(chars@, ':');
    let n = fields.len();
    proof {
        lemma_split_on_nonempty(chars@, ':');
        assert(fields.deep_view()[n - 1] =~= fields@[n - 1]@);
    }
    let v4tail = parse_ipv4_chars(&fields[n - 1]);
    proof {
        if v4tail is Some {
            lemma_ipv4_field_not_h16(fs[n - 1]);
        }
    }
    match find_empty_from(&fields, 0) {
        None => match v4tail {
            Some(o) => {
                // All fields written, the last a dotted quad: seven fields.
                if n != 7 {
                    return None;
                }
                match parse_groups(&fields, 0, 6) {
                    Some(v) => {
                        let g6 = (o.0 as u16) * 256 + (o.1 as u16);
                        let g7 = (o.2 as u16) * 256 + (o.3 as u16);
                        proof {
                            assert(ipv6_groups(chars@) =~= seq![
                                v@[0] as int,
                                v@[1] as int,
                                v@[2] as int,
                                v@[3] as int,
                                v@[4] as int,
                                v@[5] as int,
                                g6 as int,
                                g7 as int,
                            ]);
                        }
                        Some((v[0], v[1], v[2], v[3], v[4], v[5], g6, g7))
                    },
                    None => None,
                }
            },
            None => {
                // No empty field, no dotted quad: only the full form applies.
                if n != 8 {
                    return None;
                }
                match parse_groups(&fields, 0, 8) {
                    Some(v) => {
                        proof {
                            assert(ipv6_groups(chars@) =~= seq![
                                v@[0] as int,
                                v@[1] as int,
                                v@[2] as int,
                                v@[3] as int,
                                v@[4] as int,
                                v@[5] as int,
                                v@[6] as int,
                                v@[7] as int,
                            ]);
                        }
                        Some((v[0], v[1], v[2], v[3], v[4], v[5], v[6], v[7]))
                    },
                    None => None,
                }
            },
        },
        Some(p) => {
            // There is a `::` candidate: its empty-field run starts at `p`.
            let q = match find_last_empty(&fields) {
                Some(q) => q,
                None => {
                    proof {
                        assert(false);
                    }
                    return None;
                },
            };
            proof {
                assert(p <= q);
            }
            if !all_empty_in(&fields, p, q + 1) {
                // The empty fields do not form one contiguous run.
                return None;
            }
            match v4tail {
                Some(o) => {
                    proof {
                        assert(q < n - 1);
                        assert(n >= 2);
                    }
                    let mid_n = n - 2 - q;
                    let total = p + mid_n + 2;
                    let shape_ok = (p == q && p >= 1 && p <= n - 2) || (p == 0 && q == 1 && n
                        >= 3);
                    if !(shape_ok && total <= 7) {
                        return None;
                    }
                    match (parse_groups(&fields, 0, p), parse_groups(&fields, q + 1, n - 1)) {
                        (Some(head), Some(mid)) => {
                            let g6 = (o.0 as u16) * 256 + (o.1 as u16);
                            let g7 = (o.2 as u16) * 256 + (o.3 as u16);
                            let zeros_n = 8 - total;
                            let mut g: Vec<u16> = head;
                            let mut z: usize = 0;
                            while z < zeros_n
                                invariant
                                    0 <= z <= zeros_n,
                                    g@.len() == p + z,
                                    forall|i: int|
                                        0 <= i < p ==> (#[trigger] g@[i]) as int == hex_value(
                                            fs[i],
                                        ),
                                    forall|i: int| p <= i < p + z ==> (#[trigger] g@[i]) == 0u16,
                                decreases zeros_n - z,
                            {
                                g.push(0);
                                z += 1;
                            }
                            let mut t: usize = 0;
                            while t < mid.len()
                                invariant
                                    0 <= t <= mid@.len(),
                                    mid@.len() == mid_n,
                                    q < n - 1 < n == fs.len(),
                                    mid_n == n - 2 - q,
                                    g@.len() == p + zeros_n + t,
                                    forall|i: int|
                                        0 <= i < mid_n ==> (#[trigger] mid@[i]) as int
                                            == hex_value(fs[q + 1 + i]),
                                    forall|i: int|
                                        0 <= i < p ==> (#[trigger] g@[i]) as int == hex_value(
                                            fs[i],
                                        ),
                                    forall|i: int|
                                        p <= i < p + zeros_n ==> (#[trigger] g@[i]) == 0u16,
                                    forall|i: int|
                                        p + zeros_n <= i < p + zeros_n + t ==> (
                                        #[trigger] g@[i]) as int == hex_value(
                                            fs[q + 1 + (i - p - zeros_n)],
                                        ),
                                decreases mid@.len() - t,
                            {
                                let v = mid[t];
                                g.push(v);
                                t += 1;
                            }
                            proof {
                                lemma_first_empty_is(fs, p as int);
                                lemma_last_empty_is(fs, q as int);
                                assert(valid_ipv6(chars@));
                                assert(!(fs.len() == 8 && fields_are_h16(fs, 0, 8)));
                                assert(!(fs.len() == 7 && fields_are_h16(fs, 0, 6)
                                    && valid_ipv4(fs[6])));
                                assert(g@.len() == 6);
                                assert(ipv6_groups(chars@) =~= seq![
                                    g@[0] as int,
                                    g@[1] as int,
                                    g@[2] as int,
                                    g@[3] as int,
                                    g@[4] as int,
                                    g@[5] as int,
                                    g6 as int,
                                    g7 as int,
                                ]);
                            }
                            Some((g[0], g[1], g[2], g[3], g[4], g[5], g6, g7))
                        },
                        _ => None,
                    }
                },
                None => {
                    let tail_n = n - 1 - q;
                    let total = p + tail_n;
                    let shape_ok = (p == q && p >= 1 && n >= 2 && p <= n - 2) || (p == 0 && q == 1
                        && n >= 3) || (n >= 3 && p >= 1 && p == n - 2 && q == n - 1) || (p == 0 && q
                        == 2 && n == 3);
                    if !(shape_ok && total <= 7) {
                        return None;
                    }
                    match (parse_groups(&fields, 0, p), parse_groups(&fields, q + 1, n)) {
                        (Some(head), Some(tail)) => {
                            let zeros_n = 8 - total;
                            let mut g: Vec<u16> = head;
                            let mut z: usize = 0;
                            while z < zeros_n
                                invariant
                                    0 <= z <= zeros_n,
                                    g@.len() == p + z,
                                    forall|i: int|
                                        0 <= i < p ==> (#[trigger] g@[i]) as int == hex_value(
                                            fs[i],
                                        ),
                                    forall|i: int| p <= i < p + z ==> (#[trigger] g@[i]) == 0u16,
                                decreases zeros_n - z,
                            {
                                g.push(0);
                                z += 1;
                            }
                            let mut t: usize = 0;
                            while t < tail.len()
                                invariant
                                    0 <= t <= tail@.len(),
                                    tail@.len() == tail_n,
                                    q < n == fs.len(),
                                    tail_n == n - 1 - q,
                                    g@.len() == p + zeros_n + t,
                                    forall|i: int|
                                        0 <= i < tail_n ==> (#[trigger] tail@[i]) as int
                                            == hex_value(fs[q + 1 + i]),
                                    forall|i: int|
                                        0 <= i < p ==> (#[trigger] g@[i]) as int == hex_value(
                                            fs[i],
                                        ),
                                    forall|i: int|
                                        p <= i < p + zeros_n ==> (#[trigger] g@[i]) == 0u16,
                                    forall|i: int|
                                        p + zeros_n <= i < p + zeros_n + t ==> (
                                        #[trigger] g@[i]) as int == hex_value(
                                            fs[q + 1 + (i - p - zeros_n)],
                                        ),
                                decreases tail@.len() - t,
                            {
                                let v = tail[t];
                                g.push(v);
                                t += 1;
                            }
                            proof {
                                lemma_first_empty_is(fs, p as int);
                                lemma_last_empty_is(fs, q as int);
                                assert(valid_ipv6(chars@));
                                assert(!(fs.len() == 8 && fields_are_h16(fs, 0, 8)));
                                assert(!(fs.len() == 7 && fields_are_h16(fs, 0, 6)
                                    && valid_ipv4(fs[6])));
                                assert(g@.len() == 8);
                                assert(ipv6_groups(chars@) =~= seq![
                                    g@[0] as int,
                                    g@[1] as int,
                                    g@[2] as int,
                                    g@[3] as int,
                                    g@[4] as int,
                                    g@[5] as int,
                                    g@[6] as int,
                                    g@[7] as int,
                                ]);
                            }
                            Some((g[0], g[1], g[2], g[3], g[4], g[5], g[6], g[7]))
                        },
                        _ => None,
                    }
                },
            }
        },
    }
}

/// Text that is a syntactically valid IP address, v4 or v6.
pub open spec fn valid_ip(s: Seq<char>) -> bool {
    valid_ipv4(s) || valid_ipv6(s)
}

impl IpAddress {
    /// Parses address text: the denoted address when the text is a
    /// syntactically valid IPv4 or IPv6 address, and `None` otherwise.
    pub fn parse(text: &str) -> (r: Option<IpAddress>)
        ensures
            r is Some <==> valid_ip(text@),
            r matches Some(a) ==> a.denotes(text@),
    {
        let chars = chars_of(text);
        match parse_ipv4_chars(&chars) {
            Some((a, b, c, d)) => Some(IpAddress::V4(a, b, c, d)),
            None => match parse_ipv6_chars(&chars) {
                Some(g) => Some(IpAddress::V6(g.0, g.1, g.2, g.3, g.4, g.5, g.6, g.7)),
                None => None,
            },
        }
    }

    /// The address value this text denotes, when it is valid.
    pub open spec fn denotes(self, s: Seq<char>) -> bool {
        match self {
            IpAddress::V4(a, b, c, d) => valid_ipv4(s) && ipv4_values(s) == seq![
                a as int,
                b as int,
                c as int,
                d as int,
            ],
            IpAddress::V6(g0, g1, g2, g3, g4, g5, g6, g7) => valid_ipv6(s) && ipv6_groups(s)
                == seq![
                g0 as int,
                g1 as int,
                g2 as int,
                g3 as int,
                g4 as int,
                g5 as int,
                g6 as int,
                g7 as int,
            ],
        }
    }
}

} // verus!
